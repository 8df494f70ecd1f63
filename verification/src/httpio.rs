//! The decisions of the crawl: where a page's links lead, which of them
//! are followed or fetched, what is remembered as visited, and what is done
//! with each answer.  The fetching itself is left to the caller.

use vstd::prelude::*;
use crate::urlparts::{UrlParts, UrlPartsView, get_url_parts, url_parts_result};
use crate::params::{ParamMap, texts};
use vstd::utf8::{decode_utf8, valid_utf8};
use crate::urlparts::{get_tls_url_parts, tls_url_parts_result, url_text};
use crate::text::{
    concat_chars, ends_with, ends_with_exec, find_in, find_seq, lemma_find_from, lemma_rfind_char,
    matches_at, rfind_char, rfind_char_in, slice_of, starts_with, starts_with_exec, string_of,
    tail_of, chars_of, is_white, is_white_exec, contains_seq, lemma_find_seq,
};

verus! {

broadcast use vstd::string::group_string_axioms;

/// `/`
pub open spec fn slash() -> Seq<char> {
    seq!['/']
}

/// `://`
pub open spec fn scheme_sep() -> Seq<char> {
    seq![':', '/', '/']
}

/// `../`
pub open spec fn parent_ref() -> Seq<char> {
    seq!['.', '.', '/']
}

/// `./`
pub open spec fn here_ref() -> Seq<char> {
    seq!['.', '/']
}

/// `http`
pub open spec fn http_prefix() -> Seq<char> {
    seq!['h', 't', 't', 'p']
}

/// The URL of a page with its file name dropped: a URL that ends in
/// `.htm`, `.html`, `.shtm` or `.shtml` loses what follows its last `/`.
pub open spec fn current_path_of(u: Seq<char>) -> Seq<char> {
    if ends_with(u, seq!['.', 'h', 't', 'm']) || ends_with(u, seq!['.', 'h', 't', 'm', 'l'])
        || ends_with(u, seq!['.', 's', 'h', 't', 'm']) || ends_with(
        u,
        seq!['.', 's', 'h', 't', 'm', 'l'],
    ) {
        match rfind_char(u, '/') {
            Some(v) => u.take(v + 1),
            None => u,
        }
    } else {
        u
    }
}

/// The directory of a page's URL (see `current_path_of`).
pub fn current_path(urls: String) -> (r: String)
    ensures
        r@ == current_path_of(urls@),
{
    let u = chars_of(urls.as_str());
    let htm: Vec<char> = vec!['.', 'h', 't', 'm'];
    let html: Vec<char> = vec!['.', 'h', 't', 'm', 'l'];
    let shtm: Vec<char> = vec!['.', 's', 'h', 't', 'm'];
    let shtml: Vec<char> = vec!['.', 's', 'h', 't', 'm', 'l'];
    if ends_with_exec(u.as_slice(), htm.as_slice()) || ends_with_exec(u.as_slice(), html.as_slice())
        || ends_with_exec(u.as_slice(), shtm.as_slice()) || ends_with_exec(
        u.as_slice(),
        shtml.as_slice(),
    ) {
        proof {
            lemma_rfind_char(u@, '/');
        }
        match rfind_char_in(u.as_slice(), '/') {
            Some(v) => {
                let n = u.len();
                assert(v < n);
                let p = slice_of(u.as_slice(), 0, v + 1);
                assert(u@.subrange(0, v + 1) =~= u@.take(v + 1));
                string_of(p.as_slice())
            },
            None => urls,
        }
    } else {
        urls
    }
}

/// Dropping the file name twice drops no more than once.
pub proof fn law_current_path_idempotent(u: Seq<char>)
    ensures
        current_path_of(current_path_of(u)) == current_path_of(u),
{
    let c = current_path_of(u);
    if c != u {
        lemma_rfind_char(u, '/');
        let v = rfind_char(u, '/')->0;
        assert(c.last() == '/');
        assert(!ends_with(c, seq!['.', 'h', 't', 'm'])) by {
            if ends_with(c, seq!['.', 'h', 't', 'm']) {
                assert(c.skip(c.len() - 4)[3] == c.last());
            }
        }
        assert(!ends_with(c, seq!['.', 'h', 't', 'm', 'l'])) by {
            if ends_with(c, seq!['.', 'h', 't', 'm', 'l']) {
                assert(c.skip(c.len() - 5)[4] == c.last());
            }
        }
        assert(!ends_with(c, seq!['.', 's', 'h', 't', 'm'])) by {
            if ends_with(c, seq!['.', 's', 'h', 't', 'm']) {
                assert(c.skip(c.len() - 5)[4] == c.last());
            }
        }
        assert(!ends_with(c, seq!['.', 's', 'h', 't', 'm', 'l'])) by {
            if ends_with(c, seq!['.', 's', 'h', 't', 'm', 'l']) {
                assert(c.skip(c.len() - 6)[5] == c.last());
            }
        }
    }
}

/// One step up from a directory, as a link that begins with `../` asks;
/// the step can also fail to finish or overflow.
pub enum Climb<T> {
    Next(T),
    Overflow,
    Stuck,
}

/// The last part of a step up, once `clm` is the position of the `/` to
/// cut at (or the length when there is none): a path without `/` becomes
/// `/`, a cut right after `://` keeps the whole path, a path without `://`
/// is kept, and any other path is cut before its `/`.
pub open spec fn climb_finish(c: Seq<char>, clm: int) -> Seq<char> {
    if clm == c.len() {
        slash()
    } else {
        match find_seq(c, scheme_sep()) {
            Some(vv) => if vv + 2 == clm {
                c
            } else {
                c.take(clm)
            },
            None => c,
        }
    }
}

/// One step up from `cur`.  A trailing `/` is dropped first; when what is
/// left is empty the step overflows, and when it ends in `/` again the step
/// never finishes.
pub open spec fn climb(cur: Seq<char>) -> Climb<Seq<char>> {
    match rfind_char(cur, '/') {
        None => Climb::Next(slash()),
        Some(v) => if v == cur.len() - 1 {
            let c1 = cur.take(v);
            if c1.len() == 0 {
                Climb::Overflow
            } else {
                match rfind_char(c1, '/') {
                    Some(w) => if w == c1.len() - 1 {
                        Climb::Stuck
                    } else {
                        Climb::Next(climb_finish(c1, w))
                    },
                    None => Climb::Next(climb_finish(c1, c1.len() as int)),
                }
            }
        } else {
            Climb::Next(climb_finish(cur, v))
        },
    }
}

fn climb_finish_exec(c: Vec<char>, clm: usize) -> (r: Vec<char>)
    requires
        clm <= c.len(),
    ensures
        r@ == climb_finish(c@, clm as int),
{
    if clm == c.len() {
        return vec!['/'];
    }
    let sep: Vec<char> = vec![':', '/', '/'];
    proof {
        lemma_find_from(c@, scheme_sep(), 0);
    }
    match find_in(c.as_slice(), sep.as_slice()) {
        Some(vv) => {
            if vv + 2 == clm {
                c
            } else {
                let r = slice_of(c.as_slice(), 0, clm);
                assert(c@.subrange(0, clm as int) =~= c@.take(clm as int));
                r
            }
        },
        None => c,
    }
}

/// One step up from `cur` (see `climb`).
pub fn climb_exec(cur: Vec<char>) -> (r: Climb<Vec<char>>)
    ensures
        match (r, climb(cur@)) {
            (Climb::Next(n), Climb::Next(m)) => n@ == m,
            (Climb::Overflow, Climb::Overflow) => true,
            (Climb::Stuck, Climb::Stuck) => true,
            _ => false,
        },
{
    proof {
        lemma_rfind_char(cur@, '/');
    }
    match rfind_char_in(cur.as_slice(), '/') {
        None => Climb::Next(vec!['/']),
        Some(v) => {
            if v == cur.len() - 1 {
                let c1 = slice_of(cur.as_slice(), 0, v);
                assert(cur@.subrange(0, v as int) =~= cur@.take(v as int));
                if c1.len() == 0 {
                    return Climb::Overflow;
                }
                proof {
                    lemma_rfind_char(c1@, '/');
                }
                match rfind_char_in(c1.as_slice(), '/') {
                    Some(w) => {
                        if w == c1.len() - 1 {
                            Climb::Stuck
                        } else {
                            Climb::Next(climb_finish_exec(c1, w))
                        }
                    },
                    None => {
                        let n = c1.len();
                        Climb::Next(climb_finish_exec(c1, n))
                    },
                }
            } else {
                Climb::Next(climb_finish_exec(cur, v))
            }
        },
    }
}

/// Where following the leading `../` of a link ends: at a directory and
/// the rest of the link, or in an overflow or a step that never finishes.
pub enum ResolveEnd<T> {
    Reached(T, T),
    Overflow,
    Stuck,
}

/// Follows the leading `../` of `rel` from the directory `cur`: the states
/// (directory, rest of the link) after each step, and where it ends.
pub open spec fn resolve(cur: Seq<char>, rel: Seq<char>) -> (
    Seq<(Seq<char>, Seq<char>)>,
    ResolveEnd<Seq<char>>,
)
    decreases rel.len(),
{
    if starts_with(rel, parent_ref()) {
        let rel2 = rel.skip(3);
        match climb(cur) {
            Climb::Next(c2) => {
                let (t, e) = resolve(c2, rel2);
                (seq![(c2, rel2)] + t, e)
            },
            Climb::Overflow => (seq![], ResolveEnd::Overflow),
            Climb::Stuck => (seq![], ResolveEnd::Stuck),
        }
    } else {
        (seq![], ResolveEnd::Reached(cur, rel))
    }
}

/// The URL that the link `rel` names from the directory `cur`: a link that
/// begins with `http` is taken as it is; `./` and plain relative links are
/// put after the directory; a link that begins with `/` is put after the
/// site's name, and names nothing when the directory has no `://`.
pub open spec fn target_path(cur: Seq<char>, rel: Seq<char>) -> Option<Seq<char>> {
    if starts_with(rel, http_prefix()) {
        Some(rel)
    } else if starts_with(rel, here_ref()) {
        if ends_with(cur, slash()) {
            Some(cur + rel.skip(2))
        } else {
            Some(cur + rel.skip(1))
        }
    } else if starts_with(rel, slash()) {
        match find_seq(cur, scheme_sep()) {
            None => None,
            Some(p) => {
                let prefix = cur.take(p + 3);
                let rest = cur.skip(p + 3);
                let site = match find_seq(rest, slash()) {
                    Some(q) => rest.take(q),
                    None => rest,
                };
                if ends_with(site, slash()) {
                    Some(prefix + site + rel.skip(1))
                } else {
                    Some(prefix + site + rel)
                }
            },
        }
    } else if ends_with(cur, slash()) {
        Some(cur + rel)
    } else {
        Some(cur + slash() + rel)
    }
}

/// The URL that the link `rel` names from the directory `cur`; `None` when
/// it begins with `/` and `cur` has no `://`.
pub fn target_path_exec(cur: &[char], rel: &[char]) -> (r: Option<Vec<char>>)
    ensures
        match r {
            Some(t) => target_path(cur@, rel@) == Some(t@),
            None => target_path(cur@, rel@) is None,
        },
{
    let http: Vec<char> = vec!['h', 't', 't', 'p'];
    let here: Vec<char> = vec!['.', '/'];
    let sl: Vec<char> = vec!['/'];
    assert(http@ =~= http_prefix());
    assert(here@ =~= here_ref());
    assert(sl@ =~= slash());
    if starts_with_exec(rel, http.as_slice()) {
        let r = slice_of(rel, 0, rel.len());
        assert(rel@.subrange(0, rel@.len() as int) =~= rel@);
        Some(r)
    } else if starts_with_exec(rel, here.as_slice()) {
        if ends_with_exec(cur, sl.as_slice()) {
            let t = tail_of(rel, 2);
            Some(concat_chars(cur, t.as_slice()))
        } else {
            let t = tail_of(rel, 1);
            Some(concat_chars(cur, t.as_slice()))
        }
    } else if starts_with_exec(rel, sl.as_slice()) {
        let sep: Vec<char> = vec![':', '/', '/'];
        assert(sep@ =~= scheme_sep());
        assert(sl@ =~= slash());
        proof {
            lemma_find_from(cur@, scheme_sep(), 0);
        }
        match find_in(cur, sep.as_slice()) {
            None => None,
            Some(p) => {
                assert(matches_at(cur@, scheme_sep(), p as int));
                let n = cur.len();
                assert(p + 3 <= n);
                let prefix = slice_of(cur, 0, p + 3);
                assert(cur@.subrange(0, p + 3) =~= cur@.take(p + 3));
                let rest = tail_of(cur, p + 3);
                proof {
                    lemma_find_from(rest@, slash(), 0);
                }
                let site = match find_in(rest.as_slice(), sl.as_slice()) {
                    Some(q) => {
                        assert(matches_at(rest@, slash(), q as int));
                        let s = slice_of(rest.as_slice(), 0, q);
                        assert(rest@.subrange(0, q as int) =~= rest@.take(q as int));
                        s
                    },
                    None => rest,
                };
                let head = concat_chars(prefix.as_slice(), site.as_slice());
                if ends_with_exec(site.as_slice(), sl.as_slice()) {
                    let t = tail_of(rel, 1);
                    Some(concat_chars(head.as_slice(), t.as_slice()))
                } else {
                    Some(concat_chars(head.as_slice(), rel))
                }
            },
        }
    } else if ends_with_exec(cur, sl.as_slice()) {
        Some(concat_chars(cur, rel))
    } else {
        let head = concat_chars(cur, sl.as_slice());
        Some(concat_chars(head.as_slice(), rel))
    }
}

/// What is done with one link found in a page: the page it names is
/// surfed, or its data fetched, or nothing is done; or the page's links are
/// given up (no site name, a URL that cannot be split); or the crawl panics
/// or never finishes the link.
pub enum LinkAction<U, M> {
    Surf(U),
    Fetch(U),
    Skip,
    NoSiteName,
    BadUrl(M),
    Panic,
    Hang,
}

/// One link found in a page: the states (directory, rest of the link) that
/// the path log shows while the link is resolved, and what is done.
pub struct LinkStep {
    pub trace: Vec<(String, String)>,
    pub action: LinkAction<UrlParts, String>,
}

/// The mathematical content of a `LinkStep`.
pub struct LinkStepView {
    pub trace: Seq<(Seq<char>, Seq<char>)>,
    pub action: LinkAction<UrlPartsView, Seq<char>>,
}

/// The texts of a path log.
pub open spec fn trace_view(t: Seq<(String, String)>) -> Seq<(Seq<char>, Seq<char>)> {
    t.map_values(|p: (String, String)| (p.0@, p.1@))
}

/// The mathematical content of a `LinkAction`.
pub open spec fn action_view(a: LinkAction<UrlParts, String>) -> LinkAction<UrlPartsView, Seq<char>> {
    match a {
        LinkAction::Surf(u) => LinkAction::Surf(u@),
        LinkAction::Fetch(u) => LinkAction::Fetch(u@),
        LinkAction::Skip => LinkAction::Skip,
        LinkAction::NoSiteName => LinkAction::NoSiteName,
        LinkAction::BadUrl(m) => LinkAction::BadUrl(m@),
        LinkAction::Panic => LinkAction::Panic,
        LinkAction::Hang => LinkAction::Hang,
    }
}

impl View for LinkStep {
    type V = LinkStepView;

    open spec fn view(&self) -> LinkStepView {
        LinkStepView { trace: trace_view(self.trace@), action: action_view(self.action) }
    }
}

/// `html`
pub open spec fn html_ext() -> Seq<char> {
    seq!['h', 't', 'm', 'l']
}

/// `shtml`
pub open spec fn shtml_ext() -> Seq<char> {
    seq!['s', 'h', 't', 'm', 'l']
}

/// What is done with a link found at its end, once resolved to `target`:
/// pages (`html`, `shtml`) are surfed, other data fetched when data is
/// saved, and nothing is done otherwise.
pub open spec fn target_action(target: Option<Seq<char>>, ext: Seq<char>, data_save: bool) -> LinkAction<
    UrlPartsView,
    Seq<char>,
> {
    match target {
        None => LinkAction::NoSiteName,
        Some(tp) => match url_parts_result(tp) {
            Err(m) => LinkAction::BadUrl(m),
            Ok(u) => if ext == html_ext() || ext == shtml_ext() {
                LinkAction::Surf(u)
            } else if data_save {
                LinkAction::Fetch(u)
            } else {
                LinkAction::Skip
            },
        },
    }
}

/// What is done with a link once its leading `../` are followed.
pub open spec fn end_action(end: ResolveEnd<Seq<char>>, ext: Seq<char>, data_save: bool) -> LinkAction<
    UrlPartsView,
    Seq<char>,
> {
    match end {
        ResolveEnd::Overflow => LinkAction::Panic,
        ResolveEnd::Stuck => LinkAction::Hang,
        ResolveEnd::Reached(c3, r3) => target_action(target_path(c3, r3), ext, data_save),
    }
}

/// What the word `tok` of a page in the directory `cur` gives for the
/// extension `ext`: nothing unless `tok` holds `.ext` with a `=` before its
/// end.  The link is what follows the `=`, up to the end of `.ext`, without
/// a leading `"`.  An empty link, or one that begins with a character of
/// more than one byte, panics.
pub open spec fn link_step(cur: Seq<char>, tok: Seq<char>, ext: Seq<char>, data_save: bool) -> Option<
    LinkStepView,
> {
    let dotext = seq!['.'] + ext;
    match find_seq(tok, dotext) {
        None => None,
        Some(v) => {
            let simtmp = tok.take(v + dotext.len());
            match find_seq(simtmp, seq!['=']) {
                None => None,
                Some(e) => {
                    let s2 = simtmp.skip(e + 1);
                    if s2.len() == 0 || (s2[0] as u32) >= 0x80 {
                        Some(LinkStepView { trace: seq![], action: LinkAction::Panic })
                    } else {
                        let s4 = if s2[0] == '"' {
                            s2.skip(1)
                        } else {
                            s2
                        };
                        let (t, end) = resolve(cur, s4);
                        let trace = seq![(cur, s4)] + t;
                        Some(LinkStepView { trace: trace, action: end_action(end, ext, data_save) })
                    }
                },
            }
        },
    }
}

fn text_pair(a: &[char], b: &[char]) -> (r: (String, String))
    ensures
        r.0@ == a@,
        r.1@ == b@,
{
    (string_of(a), string_of(b))
}

fn target_action_exec(target: Option<Vec<char>>, ext: &[char], data_save: bool) -> (r: LinkAction<
    UrlParts,
    String,
>)
    ensures
        action_view(r) == target_action(
            match target {
                Some(t) => Some(t@),
                None => None,
            },
            ext@,
            data_save,
        ),
{
    match target {
        None => LinkAction::NoSiteName,
        Some(tp) => {
            let t = string_of(tp.as_slice());
            match get_url_parts(&t) {
                Err(m) => LinkAction::BadUrl(m),
                Ok(u) => {
                    let html: Vec<char> = vec!['h', 't', 'm', 'l'];
                    let shtml: Vec<char> = vec!['s', 'h', 't', 'm', 'l'];
                    assert(html@ =~= html_ext());
                    assert(shtml@ =~= shtml_ext());
                    if crate::text::same_chars(ext, html.as_slice()) || crate::text::same_chars(
                        ext,
                        shtml.as_slice(),
                    ) {
                        LinkAction::Surf(u)
                    } else if data_save {
                        LinkAction::Fetch(u)
                    } else {
                        LinkAction::Skip
                    }
                },
            }
        },
    }
}

/// What the word `tok` of a page in the directory `cur` gives for the
/// extension `ext` (see `link_step`).
pub fn link_step_exec(cur: &[char], tok: &[char], ext: &[char], data_save: bool) -> (r: Option<
    LinkStep,
>)
    ensures
        match r {
            Some(st) => link_step(cur@, tok@, ext@, data_save) == Some(st@),
            None => link_step(cur@, tok@, ext@, data_save) is None,
        },
{
    let dot: Vec<char> = vec!['.'];
    assert(dot@ =~= seq!['.']);
    let dotext = concat_chars(dot.as_slice(), ext);
    assert(dotext@ == seq!['.'] + ext@);
    proof {
        lemma_find_from(tok@, dotext@, 0);
    }
    let v = match find_in(tok, dotext.as_slice()) {
        None => return None,
        Some(v) => v,
    };
    assert(matches_at(tok@, dotext@, v as int));
    let n = tok.len();
    assert(v + dotext.len() <= n);
    let simtmp = slice_of(tok, 0, v + dotext.len());
    assert(tok@.subrange(0, v + dotext.len()) =~= tok@.take(v + dotext@.len()));
    let eq: Vec<char> = vec!['='];
    assert(eq@ =~= seq!['=']);
    proof {
        lemma_find_from(simtmp@, eq@, 0);
    }
    let e = match find_in(simtmp.as_slice(), eq.as_slice()) {
        None => return None,
        Some(e) => e,
    };
    assert(matches_at(simtmp@, eq@, e as int));
    let s2 = tail_of(simtmp.as_slice(), e + 1);
    assert(find_seq(tok@, seq!['.'] + ext@) == Some(v as int));
    assert(simtmp@ == tok@.take(v + (seq!['.'] + ext@).len()));
    assert(find_seq(simtmp@, seq!['=']) == Some(e as int));
    assert(s2@ == simtmp@.skip(e + 1));
    if s2.len() == 0 || (s2[0] as u32) >= 0x80 {
        let st = LinkStep { trace: Vec::new(), action: LinkAction::Panic };
        assert(trace_view(st.trace@) =~= seq![]);
        return Some(st);
    }
    let s4 = if s2[0] == '"' {
        tail_of(s2.as_slice(), 1)
    } else {
        s2
    };
    let mut c = slice_of(cur, 0, cur.len());
    assert(cur@.subrange(0, cur@.len() as int) =~= cur@);
    let mut rel = slice_of(s4.as_slice(), 0, s4.len());
    assert(s4@.subrange(0, s4@.len() as int) =~= s4@);
    let mut trace: Vec<(String, String)> = Vec::new();
    trace.push(text_pair(c.as_slice(), rel.as_slice()));
    assert(trace_view(trace@) =~= seq![(cur@, s4@)]);
    let dd: Vec<char> = vec!['.', '.', '/'];
    assert(dd@ =~= parent_ref());
    let ghost whole = resolve(cur@, s4@);
    assert(link_step(cur@, tok@, ext@, data_save) == Some(
        LinkStepView { trace: seq![(cur@, s4@)] + whole.0, action: end_action(whole.1, ext@, data_save) },
    ));
    loop
        invariant
            dd@ == parent_ref(),
            trace_view(trace@) + resolve(c@, rel@).0 == seq![(cur@, s4@)] + whole.0,
            resolve(c@, rel@).1 == whole.1,
            whole == resolve(cur@, s4@),
            link_step(cur@, tok@, ext@, data_save) == Some(
                LinkStepView { trace: seq![(cur@, s4@)] + whole.0, action: end_action(whole.1, ext@, data_save) },
            ),
        ensures
            !starts_with(rel@, parent_ref()),
        decreases rel.len(),
    {
        if !starts_with_exec(rel.as_slice(), dd.as_slice()) {
            break;
        }
        let rel2 = tail_of(rel.as_slice(), 3);
        let ghost before = trace@;
        match climb_exec(c) {
            Climb::Next(c2) => {
                proof {
                    let (t, e) = resolve(c2@, rel2@);
                    assert(resolve(c@, rel@).0 == seq![(c2@, rel2@)] + t);
                }
                trace.push(text_pair(c2.as_slice(), rel2.as_slice()));
                assert(trace_view(trace@) =~= trace_view(before).push((c2@, rel2@)));
                assert(trace_view(trace@) + resolve(c2@, rel2@).0 =~= trace_view(before)
                    + resolve(c@, rel@).0);
                c = c2;
                rel = rel2;
            },
            Climb::Overflow => {
                assert(trace_view(trace@) =~= seq![(cur@, s4@)] + whole.0);
                return Some(LinkStep { trace, action: LinkAction::Panic });
            },
            Climb::Stuck => {
                assert(trace_view(trace@) =~= seq![(cur@, s4@)] + whole.0);
                return Some(LinkStep { trace, action: LinkAction::Hang });
            },
        }
    }
    assert(trace_view(trace@) =~= seq![(cur@, s4@)] + whole.0);
    let target = target_path_exec(c.as_slice(), rel.as_slice());
    let action = target_action_exec(target, ext, data_save);
    Some(LinkStep { trace, action })
}

/// How many characters at the start of `s` are not white space.
pub open spec fn run_len(s: Seq<char>) -> nat
    decreases s.len(),
{
    if s.len() == 0 || is_white(s[0]) {
        0
    } else {
        1 + run_len(s.drop_first())
    }
}

/// A word is never longer than what is left, and is not empty when what
/// is left begins with a character that is not white space.
pub proof fn lemma_run_len_bounds(s: Seq<char>)
    ensures
        run_len(s) <= s.len(),
        s.len() > 0 && !is_white(s[0]) ==> run_len(s) >= 1,
    decreases s.len(),
{
    if s.len() > 0 && !is_white(s[0]) {
        lemma_run_len_bounds(s.drop_first());
    }
}

/// The words of `s`: its longest runs of characters that are not white
/// space, in order (`str::split_whitespace`).
pub open spec fn words(s: Seq<char>) -> Seq<Seq<char>>
    decreases s.len(),
{
    if s.len() == 0 {
        seq![]
    } else if is_white(s[0]) {
        words(s.drop_first())
    } else {
        proof {
            lemma_run_len_bounds(s);
        }
        seq![s.take(run_len(s) as int)] + words(s.skip(run_len(s) as int))
    }
}

proof fn lemma_run_len_exact(s: Seq<char>, k: int)
    requires
        0 <= k <= s.len(),
        forall|i: int| 0 <= i < k ==> !is_white(#[trigger] s[i]),
        k == s.len() || is_white(s[k]),
    ensures
        run_len(s) == k,
    decreases k,
{
    if k > 0 {
        lemma_run_len_exact(s.drop_first(), k - 1);
    }
}

/// The link steps are over: the last one gives up the page or the crawl.
pub open spec fn is_final(a: LinkAction<UrlPartsView, Seq<char>>) -> bool {
    a is NoSiteName || a is BadUrl || a is Panic || a is Hang
}

/// The steps end with one that gives up the page or the crawl.
pub open spec fn ends_final(p: Seq<LinkStepView>) -> bool {
    p.len() > 0 && is_final(p.last().action)
}

/// The steps that the word `tok` gives for the extensions `exts[j..]`, up
/// to the first one that gives up.
pub open spec fn plan_exts(
    cur: Seq<char>,
    tok: Seq<char>,
    exts: Seq<Seq<char>>,
    j: int,
    ds: bool,
) -> Seq<LinkStepView>
    decreases exts.len() - j,
{
    if j < 0 || j >= exts.len() {
        seq![]
    } else {
        match link_step(cur, tok, exts[j], ds) {
            None => plan_exts(cur, tok, exts, j + 1, ds),
            Some(st) => if is_final(st.action) {
                seq![st]
            } else {
                seq![st] + plan_exts(cur, tok, exts, j + 1, ds)
            },
        }
    }
}

/// The steps that the words `ws` give, in order, up to the first one that
/// gives up.
pub open spec fn plan_words(cur: Seq<char>, ws: Seq<Seq<char>>, exts: Seq<Seq<char>>, ds: bool) -> Seq<
    LinkStepView,
>
    decreases ws.len(),
{
    if ws.len() == 0 {
        seq![]
    } else {
        let p = plan_exts(cur, ws[0], exts, 0, ds);
        if ends_final(p) {
            p
        } else {
            p + plan_words(cur, ws.drop_first(), exts, ds)
        }
    }
}

/// What the crawl does with the links of the page `body` found in the
/// directory `cur`, when it looks for the extensions `exts`.
pub open spec fn surf_plan(cur: Seq<char>, body: Seq<char>, exts: Seq<Seq<char>>, ds: bool) -> Seq<
    LinkStepView,
> {
    plan_words(cur, words(body), exts, ds)
}

/// The contents of a list of steps.
pub open spec fn steps_view(v: Seq<LinkStep>) -> Seq<LinkStepView> {
    v.map_values(|s: LinkStep| s@)
}

fn chars_list(v: &Vec<String>) -> (r: Vec<Vec<char>>)
    ensures
        r.len() == v.len(),
        forall|j: int| 0 <= j < v.len() ==> (#[trigger] r@[j])@ == v@[j]@,
{
    let mut r: Vec<Vec<char>> = Vec::new();
    let mut i: usize = 0;
    while i < v.len()
        invariant
            i <= v.len(),
            r.len() == i,
            forall|j: int| 0 <= j < i ==> (#[trigger] r@[j])@ == v@[j]@,
        decreases v.len() - i,
    {
        r.push(chars_of(v[i].as_str()));
        i = i + 1;
    }
    r
}

fn word_steps(cur: &[char], tok: &[char], exts: &Vec<Vec<char>>, ghost_exts: Ghost<Seq<Seq<char>>>, ds: bool) -> (r: Vec<LinkStep>)
    requires
        exts.len() == ghost_exts@.len(),
        forall|j: int| 0 <= j < exts.len() ==> (#[trigger] exts@[j])@ == ghost_exts@[j],
    ensures
        steps_view(r@) == plan_exts(cur@, tok@, ghost_exts@, 0, ds),
{
    let ghost ge = ghost_exts@;
    let mut r: Vec<LinkStep> = Vec::new();
    let mut j: usize = 0;
    assert(steps_view(r@) =~= seq![]);
    while j < exts.len()
        invariant
            j <= exts.len(),
            exts.len() == ge.len(),
            forall|k: int| 0 <= k < exts.len() ==> (#[trigger] exts@[k])@ == ge[k],
            ge == ghost_exts@,
            steps_view(r@) + plan_exts(cur@, tok@, ge, j as int, ds) == plan_exts(cur@, tok@, ge, 0, ds),
            decreases exts.len() - j,
    {
        let ghost before = r@;
        assert(exts@[j as int]@ == ge[j as int]);
        match link_step_exec(cur, tok, exts[j].as_slice(), ds) {
            None => {},
            Some(st) => {
                let fin = match st.action {
                    LinkAction::NoSiteName | LinkAction::BadUrl(_) | LinkAction::Panic | LinkAction::Hang => true,
                    _ => false,
                };
                r.push(st);
                assert(steps_view(r@) =~= steps_view(before).push(st@));
                if fin {
                    assert(steps_view(r@) =~= plan_exts(cur@, tok@, ge, 0, ds));
                    return r;
                }
                assert(steps_view(r@) + plan_exts(cur@, tok@, ge, j + 1, ds) =~= steps_view(before)
                    + plan_exts(cur@, tok@, ge, j as int, ds));
            },
        }
        j = j + 1;
    }
    assert(steps_view(r@) + plan_exts(cur@, tok@, ge, j as int, ds) =~= steps_view(r@));
    r
}

/// The steps that the crawl takes for the links of the page `body` found
/// in the directory `currentpath`, looking for the extensions `ext_ids`
/// (see `surf_plan`); `data_save` tells whether data is saved.
pub fn body_surf(currentpath: &String, body: &String, ext_ids: &Vec<String>, data_save: bool) -> (r: Vec<
    LinkStep,
>)
    ensures
        steps_view(r@) == surf_plan(currentpath@, body@, texts(ext_ids@), data_save),
{
    let cur = chars_of(currentpath.as_str());
    let b = chars_of(body.as_str());
    let exts = chars_list(ext_ids);
    let ghost ge = texts(ext_ids@);
    let ghost full = surf_plan(currentpath@, body@, ge, data_save);
    let mut out: Vec<LinkStep> = Vec::new();
    let mut pos: usize = 0;
    assert(b@.skip(0) =~= b@);
    assert(steps_view(out@) =~= seq![]);
    while pos < b.len()
        invariant
            pos <= b.len(),
            b@ == body@,
            cur@ == currentpath@,
            exts.len() == ge.len(),
            forall|k: int| 0 <= k < exts.len() ==> (#[trigger] exts@[k])@ == ge[k],
            full == surf_plan(currentpath@, body@, ge, data_save),
            ge == texts(ext_ids@),
            steps_view(out@) + plan_words(cur@, words(b@.skip(pos as int)), ge, data_save) == full,
        decreases b.len() - pos,
    {
        if is_white_exec(b[pos]) {
            assert(b@.skip(pos as int).drop_first() =~= b@.skip(pos + 1));
            pos = pos + 1;
        } else {
            let start = pos;
            let ghost ws = words(b@.skip(start as int));
            assert(steps_view(out@) + plan_words(cur@, ws, ge, data_save) == full);
            while pos < b.len() && !is_white_exec(b[pos])
                invariant
                    start <= pos <= b.len(),
                    forall|i: int| start <= i < pos ==> !is_white(#[trigger] b@[i]),
                decreases b.len() - pos,
            {
                pos = pos + 1;
            }
            proof {
                let s = b@.skip(start as int);
                assert forall|i: int| 0 <= i < pos - start implies !is_white(#[trigger] s[i]) by {
                    assert(s[i] == b@[start + i]);
                }
                if pos < b.len() {
                    assert(s[pos - start] == b@[pos as int]);
                }
                lemma_run_len_exact(s, pos - start);
                assert(s.skip(pos - start) =~= b@.skip(pos as int));
                assert(s.take(pos - start) =~= b@.subrange(start as int, pos as int));
                assert(words(s) == seq![b@.subrange(start as int, pos as int)] + words(b@.skip(pos as int)));
            }
            let tok = slice_of(b.as_slice(), start, pos);
            let mut p = word_steps(cur.as_slice(), tok.as_slice(), &exts, Ghost(ge), data_save);
            let ghost before = out@;
            let ghost pv = steps_view(p@);
            assert(ws[0] == tok@);
            assert(ws.drop_first() =~= words(b@.skip(pos as int)));
            let fin = p.len() > 0 && match p[p.len() - 1].action {
                LinkAction::NoSiteName | LinkAction::BadUrl(_) | LinkAction::Panic | LinkAction::Hang => true,
                _ => false,
            };
            assert(fin == ends_final(pv));
            out.append(&mut p);
            assert(steps_view(out@) =~= steps_view(before) + pv);
            if fin {
                assert(steps_view(out@) =~= full);
                return out;
            }
            assert(steps_view(out@) + plan_words(cur@, words(b@.skip(pos as int)), ge, data_save) =~= full);
        }
    }
    assert(b@.skip(pos as int) =~= Seq::<char>::empty());
    assert(steps_view(out@) =~= full);
    out
}

/// The URLs already visited, in the order of their first visit.
pub struct VisitedList {
    urls: Vec<String>,
}

impl View for VisitedList {
    type V = Seq<Seq<char>>;

    closed spec fn view(&self) -> Seq<Seq<char>> {
        texts(self.urls@)
    }
}

impl VisitedList {
    /// No URL visited yet.
    pub fn new() -> (r: Self)
        ensures
            r@ == Seq::<Seq<char>>::empty(),
    {
        let r = VisitedList { urls: Vec::new() };
        assert(r@ =~= Seq::<Seq<char>>::empty());
        r
    }

    /// Whether `urls` was visited before; when it was not, it is recorded
    /// as visited now.
    pub fn is_visited(&mut self, urls: String) -> (r: bool)
        ensures
            r == old(self)@.contains(urls@),
            final(self)@ == if r {
                old(self)@
            } else {
                old(self)@.push(urls@)
            },
    {
        let mut i: usize = 0;
        while i < self.urls.len()
            invariant
                i <= self.urls.len(),
                forall|j: int| 0 <= j < i ==> (#[trigger] self@[j]) != urls@,
            decreases self.urls.len() - i,
        {
            if self.urls[i] == urls {
                assert(self@[i as int] == urls@);
                return true;
            }
            i = i + 1;
        }
        let ghost before = self@;
        self.urls.push(urls);
        assert(self@ =~= before.push(urls@));
        false
    }
}

/// What is done with a URL before anything is fetched.
#[derive(Debug, Clone, Copy, PartialEq, Eq, Structural)]
pub enum FetchGate {
    /// It holds an ignored keyword: it is reported and answered as done.
    Ignored,
    /// It was visited before: it is answered as done.
    Visited,
    /// It is fetched now, and counts as visited from here on.
    Fetch,
}

/// The decision before a fetch: an ignored URL is left alone (and not
/// recorded as visited); otherwise it is fetched only on its first visit.
pub fn fetch_gate(prmtbl: &mut ParamMap, visited: &mut VisitedList, urls: &String) -> (r: FetchGate)
    ensures
        final(prmtbl)@ == old(prmtbl)@,
        r == (if crate::params::ignores(old(prmtbl)@, urls@) {
            FetchGate::Ignored
        } else if old(visited)@.contains(urls@) {
            FetchGate::Visited
        } else {
            FetchGate::Fetch
        }),
        final(visited)@ == (if r == FetchGate::Fetch {
            old(visited)@.push(urls@)
        } else {
            old(visited)@
        }),
{
    if prmtbl.is_ignor(urls.clone()) {
        FetchGate::Ignored
    } else if visited.is_visited(urls.clone()) {
        FetchGate::Visited
    } else {
        FetchGate::Fetch
    }
}

/// A URL that was visited stays visited, and the visits of other URLs do
/// not change whether it was.
pub proof fn law_visited_stays(before: Seq<Seq<char>>, u: Seq<char>, v: Seq<char>)
    ensures
        before.push(u).contains(u),
        before.contains(v) ==> before.push(u).contains(v),
        before.push(u).contains(v) ==> before.contains(v) || v == u,
{
    assert(before.push(u)[before.len() as int] == u);
    if before.contains(v) {
        let i = choose|i: int| 0 <= i < before.len() && before[i] == v;
        assert(before.push(u)[i] == v);
    }
    if before.push(u).contains(v) {
        let i = choose|i: int| 0 <= i < before.push(u).len() && before.push(u)[i] == v;
        if i < before.len() {
            assert(before[i] == v);
        }
    }
}

/// `indnt` blanks, as the crawl indents its lines.
pub fn indent_text(indnt: i32) -> (r: String)
    requires
        indnt >= 0,
    ensures
        r@ == Seq::new(indnt as nat, |i: int| ' '),
{
    let mut r = String::new();
    let mut i: i32 = 0;
    while i < indnt
        invariant
            0 <= i <= indnt,
            r@ == Seq::new(i as nat, |k: int| ' '),
        decreases indnt - i,
    {
        crate::text::push_char(&mut r, ' ');
        assert(r@ =~= Seq::new((i + 1) as nat, |k: int| ' '));
        i = i + 1;
    }
    r
}

/// Bytes read as text one character per byte (ISO 8859-1), as plain HTTP
/// pages are read.
pub open spec fn latin1(bytes: Seq<u8>) -> Seq<char> {
    bytes.map_values(|b: u8| b as char)
}

/// Bytes read as text one character per byte.
pub fn latin1_text(bytes: &[u8]) -> (r: String)
    ensures
        r@ == latin1(bytes@),
{
    let mut r = String::new();
    let mut i: usize = 0;
    while i < bytes.len()
        invariant
            i <= bytes.len(),
            r@ == latin1(bytes@.take(i as int)),
        decreases bytes.len() - i,
    {
        crate::text::push_char(&mut r, bytes[i] as char);
        assert(latin1(bytes@.take(i + 1)) =~= latin1(bytes@.take(i as int)).push(bytes@[i as int] as char));
        i = i + 1;
    }
    assert(bytes@.take(bytes.len() as int) =~= bytes@);
    r
}

/// `std::str::from_utf8`, copied into a `String`.  The contract claims
/// that the call succeeds exactly on valid UTF-8 and that the text is what
/// the bytes encode.
#[verifier::external_body]
fn utf8_text(bytes: &[u8]) -> (r: Option<String>)
    ensures
        r is Some <==> valid_utf8(bytes@),
        r matches Some(s) ==> s@ == decode_utf8(bytes@),
{
    std::str::from_utf8(bytes).ok().map(|s| s.to_string())
}

/// What becomes of a chunk of an HTTPS page.
#[derive(Debug, Clone, Copy, PartialEq, Eq, Structural)]
pub enum ChunkOutcome {
    /// The chunk was UTF-8 and its text was added.
    Appended,
    /// The chunk was not UTF-8 and the crawl stops on it; `dump` tells
    /// whether what was read so far is shown.
    StopUtf8 { dump: bool },
    /// The chunk was not UTF-8 and the page is read again byte by byte.
    Refetch,
}

/// Adds the text of `chunk` to `buf` when it is UTF-8, and otherwise says
/// what the switches ask for.
pub fn tls_chunk(buf: &mut String, chunk: &[u8], prmtbl: &ParamMap) -> (r: ChunkOutcome)
    ensures
        valid_utf8(chunk@) ==> r == ChunkOutcome::Appended && final(buf)@ == old(buf)@ + decode_utf8(chunk@),
        !valid_utf8(chunk@) ==> final(buf)@ == old(buf)@ && r == (if prmtbl@.stp_utf8 {
            ChunkOutcome::StopUtf8 { dump: prmtbl@.stp_utf8dump }
        } else {
            ChunkOutcome::Refetch
        }),
{
    match utf8_text(chunk) {
        Some(t) => {
            buf.append(t.as_str());
            ChunkOutcome::Appended
        },
        None => {
            if prmtbl.is_stop_utf8() {
                ChunkOutcome::StopUtf8 { dump: prmtbl.is_stop_utf8dump() }
            } else {
                ChunkOutcome::Refetch
            }
        },
    }
}

/// The name of the file that data fetched from `url` is saved under: what
/// follows the last `/`; none when `url` has no `/`.
pub fn data_file_name(url: &String) -> (r: Option<String>)
    ensures
        match rfind_char(url@, '/') {
            Some(k) => (r matches Some(n) && n@ == url@.skip(k + 1)),
            None => r is None,
        },
{
    let u = chars_of(url.as_str());
    proof {
        lemma_rfind_char(u@, '/');
    }
    match rfind_char_in(u.as_slice(), '/') {
        Some(k) => {
            let n = u.len();
            assert(k < n);
            let t = tail_of(u.as_slice(), k + 1);
            Some(string_of(t.as_slice()))
        },
        None => None,
    }
}

/// The path of a saved data file: the directory, `/`, the file name.
pub fn data_file_path(dir: &String, name: &String) -> (r: String)
    ensures
        r@ == dir@ + slash() + name@,
{
    let mut r = dir.clone();
    r.append("/");
    r.append(name.as_str());
    proof {
        reveal_strlit("/");
    }
    assert(r@ =~= dir@ + slash() + name@);
    r
}

/// `a` and `b` agree on their first `k` bytes.
pub open spec fn agree_upto(a: Seq<u8>, b: Seq<u8>, k: int) -> bool {
    0 <= k <= a.len() && k <= b.len() && forall|i: int| 0 <= i < k ==> a[i] == b[i]
}

/// How many leading bytes two files of `fsize` bytes share, counted up to
/// one past `fsize`, and whether that count is `fsize` (the files are the
/// same).
pub fn compare_contents(fsize: usize, base: &[u8], chk: &[u8]) -> (r: (bool, usize))
    ensures
        agree_upto(base@, chk@, r.1 as int),
        r.1 <= fsize + 1,
        r.1 == fsize + 1 || r.1 == base.len() || r.1 == chk.len() || base@[r.1 as int] != chk@[r.1 as int],
        r.0 == (r.1 == fsize),
{
    let mut n: usize = 0;
    loop
        invariant
            agree_upto(base@, chk@, n as int),
            n <= fsize + 1,
        ensures
            agree_upto(base@, chk@, n as int),
            n <= fsize + 1,
            n == fsize + 1 || n == base.len() || n == chk.len() || base@[n as int] != chk@[n as int],
        decreases base.len() - n,
    {
        if fsize < n {
            break;
        }
        if n >= base.len() || n >= chk.len() {
            break;
        }
        if base[n] != chk[n] {
            break;
        }
        n = n + 1;
    }
    (n == fsize, n)
}

/// The answer code of a failure to build an HTTPS client.
pub const ERR_BUILDER: &'static str = "998";

/// The answer code of a page that is not UTF-8.
pub const ERR_UTF8: &'static str = "997";

/// The answer code of a page that was not found.
pub const ERR_NOTFOUND: &'static str = "404";

fn status_starts(stat: &String, code: &str) -> (r: bool)
    ensures
        r == starts_with(stat@, code@),
{
    let s = chars_of(stat.as_str());
    let c = chars_of(code);
    starts_with_exec(s.as_slice(), c.as_slice())
}

/// The answer is a success (`200`).
pub fn is_success(stat: &String) -> (r: bool)
    ensures
        r == starts_with(stat@, "200"@),
{
    status_starts(stat, "200")
}

/// Where a surf begins: a plain or a secure fetch of the URL written out,
/// or nothing for another scheme.
pub enum SurfRoute {
    Plain(String),
    Secure(String),
    Neither,
}

/// Where the surf of `urlparts` begins.
pub fn surf_route(urlparts: &UrlParts) -> (r: SurfRoute)
    ensures
        urlparts@.scheme == "http"@ ==> (r matches SurfRoute::Plain(u) && u@ == url_text(urlparts@)),
        urlparts@.scheme != "http"@ && urlparts@.scheme == "https"@ ==> (r matches SurfRoute::Secure(u)
            && u@ == url_text(urlparts@)),
        urlparts@.scheme != "http"@ && urlparts@.scheme != "https"@ ==> r is Neither,
{
    let scheme = urlparts.get_scheme();
    if scheme == String::from_str("http") {
        SurfRoute::Plain(urlparts.to_url())
    } else if scheme == String::from_str("https") {
        SurfRoute::Secure(urlparts.to_url())
    } else {
        SurfRoute::Neither
    }
}

/// What follows the answer to a plain fetch.
pub enum PlainNext {
    /// Nothing more.
    Done,
    /// The page moved permanently: it is fetched again over HTTPS at this URL.
    Secure(String),
    /// The page moved permanently but no HTTPS URL could be made; the
    /// message says why.
    Failed(String),
}

/// What follows the answer `stat` to a plain fetch of `url`: a page that
/// moved permanently (`301`) is fetched again over HTTPS.
pub fn after_plain(url: &String, stat: &String) -> (r: PlainNext)
    ensures
        !starts_with(stat@, "301"@) ==> r is Done,
        starts_with(stat@, "301"@) ==> match tls_url_parts_result(url@) {
            Ok(t) => (r matches PlainNext::Secure(u) && u@ == url_text(t)),
            Err(m) => (r matches PlainNext::Failed(f) && f@ == m),
        },
{
    if !status_starts(stat, "301") {
        return PlainNext::Done;
    }
    match get_tls_url_parts(url) {
        Ok(t) => PlainNext::Secure(t.to_url()),
        Err(m) => PlainNext::Failed(m),
    }
}

/// Why the crawl stops.
#[derive(Debug, Clone, Copy, PartialEq, Eq, Structural)]
pub enum StopReason {
    Utf8,
    Builder,
    NotFound,
}

/// Whether the answer `stat` to a secure fetch stops the crawl: a failed
/// answer stops it when its code is one that the switches stop on.
pub fn stop_reason(stat: &String, stop_utf8: bool, stop_builder: bool, stop_notfound: bool) -> (r: Option<
    StopReason,
>)
    ensures
        r == (if starts_with(stat@, "200"@) {
            None
        } else if stop_utf8 && starts_with(stat@, ERR_UTF8@) {
            Some(StopReason::Utf8)
        } else if stop_builder && starts_with(stat@, ERR_BUILDER@) {
            Some(StopReason::Builder)
        } else if stop_notfound && starts_with(stat@, ERR_NOTFOUND@) {
            Some(StopReason::NotFound)
        } else {
            None
        }),
{
    if is_success(stat) {
        None
    } else if stop_utf8 && status_starts(stat, ERR_UTF8) {
        Some(StopReason::Utf8)
    } else if stop_builder && status_starts(stat, ERR_BUILDER) {
        Some(StopReason::Builder)
    } else if stop_notfound && status_starts(stat, ERR_NOTFOUND) {
        Some(StopReason::NotFound)
    } else {
        None
    }
}

/// The shape of a list of steps: only the last can give up, and data is
/// fetched only when it is saved.
pub open spec fn well_shaped(p: Seq<LinkStepView>, ds: bool) -> bool {
    &&& forall|i: int| 0 <= i < p.len() - 1 ==> !is_final(#[trigger] p[i].action)
    &&& forall|i: int| 0 <= i < p.len() ==> (#[trigger] p[i].action is Fetch ==> ds)
}

proof fn lemma_link_step_fetch(cur: Seq<char>, tok: Seq<char>, ext: Seq<char>, ds: bool)
    ensures
        link_step(cur, tok, ext, ds) matches Some(st) ==> (st.action is Fetch ==> ds),
{
}

proof fn lemma_plan_exts_shape(cur: Seq<char>, tok: Seq<char>, exts: Seq<Seq<char>>, j: int, ds: bool)
    ensures
        well_shaped(plan_exts(cur, tok, exts, j, ds), ds),
    decreases exts.len() - j,
{
    if 0 <= j < exts.len() {
        lemma_plan_exts_shape(cur, tok, exts, j + 1, ds);
        lemma_link_step_fetch(cur, tok, exts[j], ds);
        let rest = plan_exts(cur, tok, exts, j + 1, ds);
        match link_step(cur, tok, exts[j], ds) {
            None => {},
            Some(st) => {
                if !is_final(st.action) {
                    let p = seq![st] + rest;
                    assert forall|i: int| 0 <= i < p.len() - 1 implies !is_final(#[trigger] p[i].action) by {
                        if i > 0 {
                            assert(p[i] == rest[i - 1]);
                        }
                    }
                    assert forall|i: int| 0 <= i < p.len() && #[trigger] p[i].action is Fetch implies ds by {
                        if i > 0 {
                            assert(p[i] == rest[i - 1]);
                        }
                    }
                }
            },
        }
    }
}

proof fn lemma_plan_words_shape(cur: Seq<char>, ws: Seq<Seq<char>>, exts: Seq<Seq<char>>, ds: bool)
    ensures
        well_shaped(plan_words(cur, ws, exts, ds), ds),
    decreases ws.len(),
{
    if ws.len() > 0 {
        let p = plan_exts(cur, ws[0], exts, 0, ds);
        lemma_plan_exts_shape(cur, ws[0], exts, 0, ds);
        if !ends_final(p) {
            lemma_plan_words_shape(cur, ws.drop_first(), exts, ds);
            let rest = plan_words(cur, ws.drop_first(), exts, ds);
            let q = p + rest;
            assert forall|i: int| 0 <= i < q.len() - 1 implies !is_final(#[trigger] q[i].action) by {
                if i >= p.len() {
                    assert(q[i] == rest[i - p.len()]);
                } else {
                    assert(q[i] == p[i]);
                }
            }
            assert forall|i: int| 0 <= i < q.len() && #[trigger] q[i].action is Fetch implies ds by {
                if i >= p.len() {
                    assert(q[i] == rest[i - p.len()]);
                } else {
                    assert(q[i] == p[i]);
                }
            }
        }
    }
}

/// The links of a page are handled in order up to the first that gives up
/// the page (no site name, a URL that cannot be split) or the crawl (a
/// panic, a link that never resolves), and none after it; and a link's data
/// is fetched only when data is saved.
pub proof fn law_surf_plan_shape(cur: Seq<char>, body: Seq<char>, exts: Seq<Seq<char>>, ds: bool)
    ensures
        well_shaped(surf_plan(cur, body, exts, ds), ds),
{
    lemma_plan_words_shape(cur, words(body), exts, ds);
}

/// Following the leading `../` of a link takes one step per `../`: where it
/// ends, the rest of the link is what follows them and no longer begins
/// with `../`.
pub proof fn law_resolve_consumes_parents(cur: Seq<char>, rel: Seq<char>)
    ensures
        resolve(cur, rel).1 matches ResolveEnd::Reached(c, r) ==> {
            &&& 3 * resolve(cur, rel).0.len() <= rel.len()
            &&& r == rel.skip((3 * resolve(cur, rel).0.len()) as int)
            &&& !starts_with(r, parent_ref())
        },
    decreases rel.len(),
{
    if starts_with(rel, parent_ref()) {
        let rel2 = rel.skip(3);
        match climb(cur) {
            Climb::Next(c2) => {
                law_resolve_consumes_parents(c2, rel2);
                let t = resolve(c2, rel2).0;
                if resolve(cur, rel).1 is Reached {
                    assert(rel2.skip((3 * t.len()) as int) =~= rel.skip((3 * (t.len() + 1)) as int));
                }
            },
            _ => {},
        }
    } else {
        assert(rel.skip(0) =~= rel);
    }
}

/// A page's directory is its URL up to and including the URL's last `/`
/// when the URL ends in `.htm`, `.html`, `.shtm` or `.shtml`; a URL that
/// ends in `/`, ends otherwise, or holds no `/`, is its own directory.
pub proof fn law_page_directory(u: Seq<char>, k: int)
    ensures
        (0 <= k < u.len() && u[k] == '/' && (forall|j: int| k < j < u.len() ==> u[j] != '/') && (
        ends_with(u, ".htm"@) || ends_with(u, ".html"@) || ends_with(u, ".shtm"@) || ends_with(
            u,
            ".shtml"@,
        ))) ==> current_path_of(u) == u.take(k + 1),
        ends_with(u, "/"@) ==> current_path_of(u) == u,
        !(ends_with(u, ".htm"@) || ends_with(u, ".html"@) || ends_with(u, ".shtm"@) || ends_with(
            u,
            ".shtml"@,
        )) ==> current_path_of(u) == u,
        (forall|j: int| 0 <= j < u.len() ==> u[j] != '/') ==> current_path_of(u) == u,
{
    reveal_strlit(".htm");
    reveal_strlit(".html");
    reveal_strlit(".shtm");
    reveal_strlit(".shtml");
    reveal_strlit("/");
    assert(".htm"@ =~= seq!['.', 'h', 't', 'm']);
    assert(".html"@ =~= seq!['.', 'h', 't', 'm', 'l']);
    assert(".shtm"@ =~= seq!['.', 's', 'h', 't', 'm']);
    assert(".shtml"@ =~= seq!['.', 's', 'h', 't', 'm', 'l']);
    lemma_rfind_char(u, '/');
    if ends_with(u, "/"@) {
        assert(u.skip(u.len() - 1)[0] == u.last());
        assert(!ends_with(u, seq!['.', 'h', 't', 'm'])) by {
            if ends_with(u, seq!['.', 'h', 't', 'm']) {
                assert(u.skip(u.len() - 4)[3] == u.last());
            }
        }
        assert(!ends_with(u, seq!['.', 'h', 't', 'm', 'l'])) by {
            if ends_with(u, seq!['.', 'h', 't', 'm', 'l']) {
                assert(u.skip(u.len() - 5)[4] == u.last());
            }
        }
        assert(!ends_with(u, seq!['.', 's', 'h', 't', 'm'])) by {
            if ends_with(u, seq!['.', 's', 'h', 't', 'm']) {
                assert(u.skip(u.len() - 5)[4] == u.last());
            }
        }
        assert(!ends_with(u, seq!['.', 's', 'h', 't', 'm', 'l'])) by {
            if ends_with(u, seq!['.', 's', 'h', 't', 'm', 'l']) {
                assert(u.skip(u.len() - 6)[5] == u.last());
            }
        }
    }
    if 0 <= k < u.len() && u[k] == '/' && (forall|j: int| k < j < u.len() ==> u[j] != '/') {
        let v = rfind_char(u, '/')->0;
        if v < k {
        } else if v > k {
            assert(u[v] != '/');
        }
        assert(v == k);
    }
}

/// A link found for a page extension (`html` or `shtml`) whose target URL
/// splits is surfed, whether or not data is saved; a link for any other
/// extension is fetched when data is saved and skipped otherwise; a target
/// that does not split gives up the page with the splitting error, and no
/// target means no site name.
pub proof fn law_link_kinds(t: Seq<char>, ext: Seq<char>, ds: bool)
    ensures
        url_parts_result(t) matches Ok(u) ==> {
            &&& target_action(Some(t), "html"@, ds) == LinkAction::<UrlPartsView, Seq<char>>::Surf(u)
            &&& target_action(Some(t), "shtml"@, ds) == LinkAction::<UrlPartsView, Seq<char>>::Surf(u)
            &&& (ext != "html"@ && ext != "shtml"@) ==> target_action(Some(t), ext, ds) == (if ds {
                LinkAction::<UrlPartsView, Seq<char>>::Fetch(u)
            } else {
                LinkAction::<UrlPartsView, Seq<char>>::Skip
            })
        },
        url_parts_result(t) matches Err(m) ==> target_action(Some(t), ext, ds)
            == LinkAction::<UrlPartsView, Seq<char>>::BadUrl(m),
        target_action(None, ext, ds) == LinkAction::<UrlPartsView, Seq<char>>::NoSiteName,
{
    reveal_strlit("html");
    reveal_strlit("shtml");
    assert("html"@ =~= html_ext());
    assert("shtml"@ =~= shtml_ext());
}

/// The directory left after dropping a trailing `/`.
pub open spec fn without_trailing_slash(cur: Seq<char>) -> Seq<char> {
    if cur.len() > 0 && cur.last() == '/' {
        cur.drop_last()
    } else {
        cur
    }
}

/// A step up removes the last path segment: once a trailing `/` is
/// dropped, the directory is cut before its last `/` (when something follows
/// that `/`), except that the site is never cut: when that `/` ends the
/// first `://`, or the directory holds no `://`, it stays as it is.
pub proof fn law_climb_drops_last_segment(cur: Seq<char>, k: int)
    requires
        0 <= k,
        k + 1 < without_trailing_slash(cur).len(),
        without_trailing_slash(cur)[k] == '/',
        forall|j: int|
            k < j < without_trailing_slash(cur).len() ==> without_trailing_slash(cur)[j] != '/',
    ensures
        (contains_seq(without_trailing_slash(cur), "://"@) && forall|p: int|
            matches_at(without_trailing_slash(cur), "://"@, p) ==> p + 2 != k) ==> climb(cur)
            == Climb::Next(without_trailing_slash(cur).take(k)),
        (!contains_seq(without_trailing_slash(cur), "://"@) || find_seq(
            without_trailing_slash(cur),
            "://"@,
        ) == Some(k - 2)) ==> climb(cur) == Climb::Next(without_trailing_slash(cur)),
{
    reveal_strlit("://");
    assert("://"@ =~= scheme_sep());
    let d = without_trailing_slash(cur);
    lemma_rfind_char(cur, '/');
    lemma_rfind_char(d, '/');
    lemma_find_seq(d, scheme_sep());
    let w = rfind_char(d, '/')->0;
    if w < k {
    } else if w > k {
        assert(d[w] != '/');
    }
    assert(w == k);
    if contains_seq(d, scheme_sep()) {
        let vv = find_seq(d, scheme_sep())->0;
        assert(matches_at(d, "://"@, vv));
    }
    if cur.len() > 0 && cur.last() == '/' {
        assert(rfind_char(cur, '/') == Some(cur.len() - 1));
        assert(cur.take(cur.len() - 1) =~= d);
    } else {
        let v = rfind_char(cur, '/')->0;
        if v < k {
        } else if v > k {
            assert(cur[v] != '/');
        }
        assert(v == k);
    }
}

/// The edges of a step up: from `/` alone it overflows; from a directory
/// ending in `//` it never finishes; from a directory with no `/` (once a
/// trailing `/` is dropped) it reaches `/`.
pub proof fn law_climb_edges(cur: Seq<char>)
    ensures
        cur == "/"@ ==> climb(cur) == Climb::<Seq<char>>::Overflow,
        ends_with(cur, "//"@) ==> climb(cur) == Climb::<Seq<char>>::Stuck,
        (without_trailing_slash(cur).len() > 0 && forall|j: int|
            0 <= j < without_trailing_slash(cur).len() ==> without_trailing_slash(cur)[j] != '/')
            ==> climb(cur) == Climb::Next("/"@),
{
    reveal_strlit("/");
    reveal_strlit("//");
    reveal_strlit("://");
    assert("/"@ =~= slash());
    assert("://"@ =~= scheme_sep());
    let d = without_trailing_slash(cur);
    lemma_rfind_char(cur, '/');
    lemma_rfind_char(d, '/');
    lemma_find_seq(d, scheme_sep());
    if cur == "/"@ {
        assert(cur.take(0) =~= Seq::<char>::empty());
    }
    if ends_with(cur, "//"@) {
        assert(cur.skip(cur.len() - 2)[1] == cur[cur.len() - 1]);
        assert(cur.skip(cur.len() - 2)[0] == cur[cur.len() - 2]);
        let c1 = cur.take(cur.len() - 1);
        lemma_rfind_char(c1, '/');
        assert(c1[c1.len() - 1] == '/');
    }
    if cur.len() > 0 && cur.last() == '/' {
        assert(cur.take(cur.len() - 1) =~= d);
    }
}

/// A relative link that begins with none of `http`, `./` and `/` is put
/// after the directory, with one `/` between them; with `./` before it, it
/// names the same URL; a link that begins with `http` is taken as it is.
pub proof fn law_relative_links_join(cur: Seq<char>, r: Seq<char>)
    ensures
        starts_with(r, "http"@) ==> target_path(cur, r) == Some(r),
        (!starts_with(r, "http"@) && !starts_with(r, "./"@) && !starts_with(r, "/"@)) ==> {
            &&& target_path(cur, r) == Some(
                if ends_with(cur, "/"@) {
                    cur + r
                } else {
                    cur + "/"@ + r
                },
            )
            &&& target_path(cur, "./"@ + r) == target_path(cur, r)
        },
{
    reveal_strlit("http");
    reveal_strlit("./");
    reveal_strlit("/");
    assert("http"@ =~= http_prefix());
    assert("./"@ =~= here_ref());
    assert("/"@ =~= slash());
    let h = "./"@ + r;
    assert(h.take(2) =~= here_ref());
    assert(!starts_with(h, http_prefix())) by {
        if starts_with(h, http_prefix()) {
            assert(h.take(4)[0] == h[0]);
        }
    }
    assert(h.skip(2) =~= r);
    assert(h.skip(1) =~= "/"@ + r);
    assert(cur + ("/"@ + r) =~= cur + "/"@ + r);
}

/// A link that begins with `/` is put after the site's name: from a
/// directory `a://h` followed by nothing or by a path, where `a` holds no
/// `:` and `h` no `/`, it names `a://h` followed by the link. From a
/// directory without `://` it names nothing.
pub proof fn law_site_links(a: Seq<char>, h: Seq<char>, q: Seq<char>, rel: Seq<char>)
    ensures
        (forall|i: int| 0 <= i < a.len() ==> a[i] != ':') && (forall|i: int|
            0 <= i < h.len() ==> h[i] != '/') && (q.len() == 0 || q[0] == '/') && starts_with(
            rel,
            "/"@,
        ) ==> target_path(a + "://"@ + h + q, rel) == Some(a + "://"@ + h + rel),
        (starts_with(rel, "/"@) && !contains_seq(a, "://"@) && !starts_with(rel, "http"@)
            && !starts_with(rel, "./"@)) ==> target_path(a, rel) is None,
{
    reveal_strlit("http");
    reveal_strlit("./");
    reveal_strlit("/");
    reveal_strlit("://");
    assert("http"@ =~= http_prefix());
    assert("./"@ =~= here_ref());
    assert("/"@ =~= slash());
    assert("://"@ =~= scheme_sep());
    lemma_find_seq(a, scheme_sep());
    if (forall|i: int| 0 <= i < a.len() ==> a[i] != ':') && (forall|i: int|
        0 <= i < h.len() ==> h[i] != '/') && (q.len() == 0 || q[0] == '/') && starts_with(
        rel,
        "/"@,
    ) {
        let cur = a + "://"@ + h + q;
        assert(!starts_with(rel, http_prefix()));
        assert(!starts_with(rel, here_ref())) by {
            if starts_with(rel, here_ref()) {
                assert(rel.take(2)[0] == rel[0]);
                assert(rel.take(1)[0] == rel[0]);
            }
        }
        let n: int = a.len() as int;
        assert(matches_at(cur, scheme_sep(), n)) by {
            assert(cur.subrange(n, n + 3) =~= scheme_sep());
        }
        lemma_find_from(cur, scheme_sep(), 0);
        let p = find_seq(cur, scheme_sep())->0;
        if p < n {
            assert(cur.subrange(p, p + 3)[0] == cur[p]);
            assert(cur[p] == a[p]);
        }
        assert(p == n);
        let rest = cur.skip(n + 3);
        assert(rest =~= h + q);
        assert(cur.take(n + 3) =~= a + "://"@);
        lemma_find_from(rest, slash(), 0);
        let site = match find_seq(rest, slash()) {
            Some(qq) => rest.take(qq),
            None => rest,
        };
        if q.len() == 0 {
            assert(rest =~= h);
            assert(forall|j: int| 0 <= j ==> !matches_at(rest, slash(), j)) by {
                assert forall|j: int| 0 <= j implies !matches_at(rest, slash(), j) by {
                    if matches_at(rest, slash(), j) {
                        assert(rest.subrange(j, j + 1)[0] == rest[j]);
                    }
                }
            }
            assert(site =~= h);
        } else {
            assert(matches_at(rest, slash(), h.len() as int)) by {
                let hl: int = h.len() as int;
                assert(rest.subrange(hl, hl + 1) =~= slash());
            }
            let qq = find_seq(rest, slash())->0;
            if qq < h.len() {
                assert(rest.subrange(qq, qq + 1)[0] == rest[qq]);
                assert(rest[qq] == h[qq]);
            }
            assert(qq == h.len());
            assert(site =~= h);
        }
        assert(!ends_with(site, slash())) by {
            if ends_with(site, slash()) {
                assert(site.skip(site.len() - 1)[0] == site[site.len() - 1]);
            }
        }
        assert(a + "://"@ + site + rel =~= a + "://"@ + h + rel);
    }
}

/// A link written `href="<r>.<ext>"` in a word of a page, with no earlier
/// `.<ext>` in it and no leading `../`, gives one step: the path log shows
/// the page's directory and the link without its quote, and the link is
/// joined to that directory and acted on for `ext`.
pub proof fn law_quoted_link(cur: Seq<char>, r: Seq<char>, ext: Seq<char>, tail: Seq<char>, ds: bool)
    requires
        r.len() > 0,
        (r[0] as u32) < 0x80,
        r[0] != '"',
        !starts_with(r + "."@ + ext, "../"@),
        !contains_seq(("href=\""@ + r + "."@ + ext).drop_last(), "."@ + ext),
    ensures
        link_step(cur, "href=\""@ + r + "."@ + ext + tail, ext, ds) == Some(
            LinkStepView {
                trace: seq![(cur, r + "."@ + ext)],
                action: target_action(target_path(cur, r + "."@ + ext), ext, ds),
            },
        ),
{
    reveal_strlit("href=\"");
    reveal_strlit(".");
    reveal_strlit("../");
    assert("."@ =~= seq!['.']);
    assert("../"@ =~= parent_ref());
    let head = "href=\""@;
    let dotext = "."@ + ext;
    let pre = head + r + dotext;
    let tok = pre + tail;
    assert(pre =~= head + r + "."@ + ext);
    assert(tok =~= head + r + "."@ + ext + tail);
    assert(r + dotext =~= r + "."@ + ext);
    let pos: int = (head.len() + r.len()) as int;
    assert(matches_at(tok, dotext, pos)) by {
        assert(tok.subrange(pos, pos + dotext.len()) =~= dotext);
    }
    lemma_find_from(tok, dotext, 0);
    let v = find_seq(tok, dotext)->0;
    if v < pos {
        assert(matches_at(pre.drop_last(), dotext, v)) by {
            assert(tok.subrange(v, v + dotext.len()) =~= pre.drop_last().subrange(v, v + dotext.len()));
        }
        assert(contains_seq(pre.drop_last(), dotext));
    }
    assert(v == pos);
    let simtmp = tok.take(v + dotext.len());
    assert(simtmp =~= pre);
    let eq = seq!['='];
    assert(matches_at(simtmp, eq, 4)) by {
        assert(simtmp.subrange(4, 5) =~= eq);
    }
    lemma_find_from(simtmp, eq, 0);
    let e = find_seq(simtmp, eq)->0;
    if e < 4 {
        assert(simtmp.subrange(e, e + 1)[0] == simtmp[e]);
    }
    assert(e == 4);
    let s2 = simtmp.skip(5);
    assert(s2 =~= seq!['"'] + r + dotext);
    assert(s2[0] == '"');
    let s4 = s2.skip(1);
    assert(s4 =~= r + dotext);
    assert(!starts_with(s4, parent_ref()));
    assert(resolve(cur, s4).0 =~= Seq::<(Seq<char>, Seq<char>)>::empty());
    assert(seq![(cur, s4)] + resolve(cur, s4).0 =~= seq![(cur, s4)]);
}

} // verus!
