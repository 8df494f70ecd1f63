# letssurf

A small web crawler.  Given a start URL it fetches the page, picks out the
links of the page whose targets end in the extensions it is asked for, and
follows them: pages (`html`, `shtml`) are surfed in turn, other data is
saved to a directory.  Links are followed to the nest level of `-r`
(4 unless given), and with `-a` a page that asks for credentials is fetched
again with the ID and password the user types.

- `src/` is the verified library: command-line reading (`help`), the run's
  switches (`params`), URL splitting and writing (`urlparts`), text helpers
  (`text`), the answer to pages that ask for credentials (`auth`), and the
  decisions of the crawl (`httpio`): where each link of a
  page leads, what is followed or fetched, what was visited, what is done
  with each answer.
- `app/` is the program around it: the HTTP and HTTPS fetches, the files,
  and the printing.
- `tests/` exercises the library on concrete values.
