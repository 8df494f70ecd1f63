//! The run's settings and the reading of the command line.

use vstd::prelude::*;
use crate::params::{
    ParamMap, ParamMapView, ignores, texts, with_data_save, with_ignor, with_log_pathparse,
    with_stop_builder, with_stop_utf8, with_stop_utf8dump,
};
use crate::text::{rfind_char, lemma_rfind_char, chars_of, concat_chars, parse_i32, parse_i32_spec, same_chars, starts_with, starts_with_exec, string_of, contains_seq};
use crate::urlparts::{
    UrlParts, UrlPartsView, get_url_parts, url_parts_result,
};

verus! {

broadcast use vstd::string::group_string_axioms;

/// The file name that a single component of a path gives: none for an
/// empty component, `.` or `..`, and the component itself otherwise.
pub open spec fn component_name(piece: Seq<char>) -> Option<Seq<char>> {
    if piece.len() == 0 || piece == seq!['.'] || piece == seq!['.', '.'] {
        None
    } else {
        Some(piece)
    }
}

/// The file name of a path on a Unix target, as `std::path::Path::file_name`
/// documents it: the last component, where repeated `/` and `.` components
/// are passed over; none when that component is `..`, or when there is no
/// component left but the root or `.`.
pub open spec fn path_file_name(path: Seq<char>) -> Option<Seq<char>>
    decreases path.len(),
{
    match rfind_char(path, '/') {
        None => component_name(path),
        Some(k) => {
            let piece = path.skip(k + 1);
            if piece.len() == 0 || piece == seq!['.'] {
                proof {
                    lemma_rfind_char(path, '/');
                }
                path_file_name(path.take(k))
            } else {
                component_name(piece)
            }
        },
    }
}

/// `std::path::Path::new(path).file_name()`, as text.  The contract claims
/// that the result is the path's last component as `path_file_name` states
/// it (on a Unix target, where `/` is the separator).
#[verifier::external_body]
fn file_name_of(path: &str) -> (r: Option<String>)
    ensures
        opt_text(r) == path_file_name(path@),
{
    std::path::Path::new(path).file_name().and_then(|n| n.to_str()).map(|n| n.to_string())
}

/// The program's name: the file name of its path, as the usage text shows
/// it; `None` when the path names no file (as `..` or `/`).
pub fn program_name_of(path: &String) -> (r: Option<String>)
    ensures
        opt_text(r) == path_file_name(path@),
{
    file_name_of(path.as_str())
}

/// The view of an optional string.
pub open spec fn opt_text(o: Option<String>) -> Option<Seq<char>> {
    match o {
        Some(s) => Some(s@),
        None => None,
    }
}

/// The view of an optional URL.
pub open spec fn opt_parts(o: Option<UrlParts>) -> Option<UrlPartsView> {
    match o {
        Some(u) => Some(u@),
        None => None,
    }
}

/// How far links are followed when nothing is said.
pub const DEF_NESTLEVEL: i32 = 4;

/// How many columns each level of the crawl is indented.
pub const DEF_INDENT: i32 = 2;

/// The settings that the command line fixes for the whole run.
pub struct Settings {
    iam: String,
    start_url: Option<UrlParts>,
    show_content: Option<bool>,
    respond_auth: Option<bool>,
    storage_dir: Option<String>,
    ext_ids: Vec<String>,
    nest_level: i32,
    indent: i32,
}

/// The mathematical content of `Settings`.
pub struct SettingsView {
    pub iam: Seq<char>,
    pub start_url: Option<UrlPartsView>,
    pub show_content: Option<bool>,
    pub respond_auth: Option<bool>,
    pub storage_dir: Option<Seq<char>>,
    pub ext_ids: Seq<Seq<char>>,
    pub nest_level: i32,
    pub indent: i32,
}

impl View for Settings {
    type V = SettingsView;

    closed spec fn view(&self) -> SettingsView {
        SettingsView {
            iam: self.iam@,
            start_url: opt_parts(self.start_url),
            show_content: self.show_content,
            respond_auth: self.respond_auth,
            storage_dir: opt_text(self.storage_dir),
            ext_ids: texts(self.ext_ids@),
            nest_level: self.nest_level,
            indent: self.indent,
        }
    }
}

/// The settings before any option is read: the program's name, and the
/// extensions `html` and `shtml`, which are always followed.
pub open spec fn initial_settings(name: Seq<char>) -> SettingsView {
    SettingsView {
        iam: name,
        start_url: None,
        show_content: None,
        respond_auth: None,
        storage_dir: None,
        ext_ids: seq!["html"@, "shtml"@],
        nest_level: DEF_NESTLEVEL,
        indent: DEF_INDENT,
    }
}

/// Why the command line asks for the usage text.
#[derive(Debug, Clone, Copy, PartialEq, Eq, Structural)]
pub enum UsageReason {
    TooFewArgs,
    Help,
    NoNestLevel,
    BadNestLevel,
    NoStorageDir,
    NoStopAttr,
    BadStopAttr,
    NoLogAttr,
    BadLogAttr,
    NoIgnoreKeyword,
    UnknownOption,
}

/// A setting that may be given once only.
#[derive(Debug, Clone, Copy, PartialEq, Eq, Structural)]
pub enum SetOnce {
    ShowContent,
    RespondAuth,
    StorageDir,
}

/// Why the command line was refused.
#[derive(Debug)]
pub enum ArgError {
    /// The program's path names no file.
    NoProgramName,
    /// The command line is wrong; the usage text is due.
    Usage(UsageReason),
    /// The start URL could not be split; the message says why.
    BadUrl(String),
    /// A setting that may be given once was given again.
    SetTwice(SetOnce),
}

/// The mathematical content of an `ArgError`.
pub enum ArgFault {
    NoProgramName,
    Usage(UsageReason),
    BadUrl(Seq<char>),
    SetTwice(SetOnce),
}

impl View for ArgError {
    type V = ArgFault;

    open spec fn view(&self) -> ArgFault {
        match self {
            ArgError::NoProgramName => ArgFault::NoProgramName,
            ArgError::Usage(r) => ArgFault::Usage(*r),
            ArgError::BadUrl(m) => ArgFault::BadUrl(m@),
            ArgError::SetTwice(s) => ArgFault::SetTwice(*s),
        }
    }
}

/// What is being read at a position of the command line.
#[derive(Clone, Copy, PartialEq, Eq, Structural)]
pub enum Mode {
    Options,
    StopAttrs,
    LogAttrs,
    IgnorWords,
    ExtIds,
}

pub open spec fn mode_rank(m: Mode) -> int {
    match m {
        Mode::Options => 0,
        _ => 1,
    }
}

/// A start URL completed with a scheme: `http` is put in front of text
/// that does not begin with it, with as much of `://` as is missing.
pub open spec fn with_scheme(a: Seq<char>) -> Seq<char> {
    if starts_with(a, "http"@) {
        a
    } else if starts_with(a, "://"@) {
        "http"@ + a
    } else if starts_with(a, "//"@) {
        "http:"@ + a
    } else if starts_with(a, "/"@) {
        "http:/"@ + a
    } else {
        "http://"@ + a
    }
}

/// `s` without its dots.
pub open spec fn without_dots(s: Seq<char>) -> Seq<char>
    decreases s.len(),
{
    if s.len() == 0 {
        s
    } else if s.last() == '.' {
        without_dots(s.drop_last())
    } else {
        without_dots(s.drop_last()).push(s.last())
    }
}

/// `a` is an option (begins with `-`).
pub open spec fn is_dash(a: Seq<char>) -> bool {
    starts_with(a, "-"@)
}

/// The outcome of reading `argv[ax..argc]` in mode `m`, with the switches
/// `pm` and the settings `st` gathered so far.
pub open spec fn scan(
    argv: Seq<Seq<char>>,
    argc: int,
    ax: int,
    m: Mode,
    pm: ParamMapView,
    st: SettingsView,
) -> Result<(ParamMapView, SettingsView), ArgFault>
    decreases argc - ax, mode_rank(m),
{
    if ax < 0 || ax >= argc {
        Ok((pm, st))
    } else {
        let a = argv[ax];
        match m {
            Mode::StopAttrs => {
                if is_dash(a) {
                    scan(argv, argc, ax, Mode::Options, pm, st)
                } else if a == "utf8"@ {
                    scan(argv, argc, ax + 1, m, with_stop_utf8(pm), st)
                } else if a == "utf8dump"@ {
                    scan(argv, argc, ax + 1, m, with_stop_utf8dump(pm), st)
                } else if a == "builder"@ {
                    scan(argv, argc, ax + 1, m, with_stop_builder(pm), st)
                } else {
                    Err(ArgFault::Usage(UsageReason::BadStopAttr))
                }
            },
            Mode::LogAttrs => {
                if is_dash(a) {
                    scan(argv, argc, ax, Mode::Options, pm, st)
                } else if a == "pathparse"@ {
                    scan(argv, argc, ax + 1, m, with_log_pathparse(pm), st)
                } else {
                    Err(ArgFault::Usage(UsageReason::BadLogAttr))
                }
            },
            Mode::IgnorWords => {
                if is_dash(a) {
                    scan(argv, argc, ax, Mode::Options, pm, st)
                } else {
                    scan(argv, argc, ax + 1, m, with_ignor(pm, a), st)
                }
            },
            Mode::ExtIds => {
                if is_dash(a) {
                    scan(argv, argc, ax, Mode::Options, pm, st)
                } else {
                    scan(
                        argv,
                        argc,
                        ax + 1,
                        m,
                        pm,
                        SettingsView { ext_ids: st.ext_ids.push(without_dots(a)), ..st },
                    )
                }
            },
            Mode::Options => {
                if a == "--help"@ || a == "-h"@ {
                    Err(ArgFault::Usage(UsageReason::Help))
                } else if a == "-d"@ {
                    if st.show_content is Some {
                        Err(ArgFault::SetTwice(SetOnce::ShowContent))
                    } else {
                        scan(argv, argc, ax + 1, m, pm, SettingsView { show_content: Some(true), ..st })
                    }
                } else if a == "-a"@ {
                    if st.respond_auth is Some {
                        Err(ArgFault::SetTwice(SetOnce::RespondAuth))
                    } else {
                        scan(argv, argc, ax + 1, m, pm, SettingsView { respond_auth: Some(true), ..st })
                    }
                } else if a == "-r"@ {
                    if ax + 1 >= argc {
                        Err(ArgFault::Usage(UsageReason::NoNestLevel))
                    } else {
                        match parse_i32_spec(argv[ax + 1]) {
                            None => Err(ArgFault::Usage(UsageReason::BadNestLevel)),
                            Some(n) => scan(argv, argc, ax + 2, m, pm, SettingsView { nest_level: n, ..st }),
                        }
                    }
                } else if a == "-storage"@ {
                    if ax + 1 >= argc {
                        Err(ArgFault::Usage(UsageReason::NoStorageDir))
                    } else if st.storage_dir is Some {
                        Err(ArgFault::SetTwice(SetOnce::StorageDir))
                    } else {
                        scan(
                            argv,
                            argc,
                            ax + 2,
                            m,
                            with_data_save(pm),
                            SettingsView { storage_dir: Some(argv[ax + 1]), ..st },
                        )
                    }
                } else if a == "-stop"@ {
                    if ax + 1 >= argc {
                        Err(ArgFault::Usage(UsageReason::NoStopAttr))
                    } else {
                        scan(argv, argc, ax + 1, Mode::StopAttrs, pm, st)
                    }
                } else if a == "-log"@ {
                    if ax + 1 >= argc {
                        Err(ArgFault::Usage(UsageReason::NoLogAttr))
                    } else {
                        scan(argv, argc, ax + 1, Mode::LogAttrs, pm, st)
                    }
                } else if a == "-ignor"@ {
                    if ax + 1 >= argc {
                        Err(ArgFault::Usage(UsageReason::NoIgnoreKeyword))
                    } else {
                        scan(argv, argc, ax + 1, Mode::IgnorWords, pm, st)
                    }
                } else if is_dash(a) {
                    Err(ArgFault::Usage(UsageReason::UnknownOption))
                } else {
                    match url_parts_result(with_scheme(a)) {
                        Err(msg) => Err(ArgFault::BadUrl(msg)),
                        Ok(u) => scan(
                            argv,
                            argc,
                            ax + 1,
                            Mode::ExtIds,
                            pm,
                            SettingsView {
                                start_url: if st.start_url is None { Some(u) } else { st.start_url },
                                ..st
                            },
                        ),
                    }
                }
            },
        }
    }
}

/// The outcome of reading the command line `argv[..argc]` with the
/// switches `pm` to start from.
pub open spec fn parse_outcome(argc: int, argv: Seq<Seq<char>>, pm: ParamMapView) -> Result<
    (ParamMapView, SettingsView),
    ArgFault,
> {
    match path_file_name(argv[0]) {
        None => Err(ArgFault::NoProgramName),
        Some(name) => if argc < 2 {
            Err(ArgFault::Usage(UsageReason::TooFewArgs))
        } else {
            scan(argv, argc, 1, Mode::Options, pm, initial_settings(name))
        },
    }
}

fn is_text(a: &[char], lit: &str) -> (b: bool)
    ensures
        b == (a@ == lit@),
{
    let l = chars_of(lit);
    same_chars(a, l.as_slice())
}

fn is_dash_exec(a: &[char]) -> (b: bool)
    ensures
        b == is_dash(a@),
{
    let d = chars_of("-");
    starts_with_exec(a, d.as_slice())
}

fn without_dots_exec(a: &[char]) -> (r: Vec<char>)
    ensures
        r@ == without_dots(a@),
{
    let mut r: Vec<char> = Vec::new();
    let mut i: usize = 0;
    assert(a@.take(0) =~= Seq::<char>::empty());
    while i < a.len()
        invariant
            i <= a.len(),
            r@ == without_dots(a@.take(i as int)),
        decreases a.len() - i,
    {
        assert(a@.take(i + 1).drop_last() =~= a@.take(i as int));
        if a[i] != '.' {
            r.push(a[i]);
        }
        i = i + 1;
    }
    assert(a@.take(a.len() as int) =~= a@);
    r
}

fn with_scheme_exec(a: &[char]) -> (r: Vec<char>)
    ensures
        r@ == with_scheme(a@),
{
    let http = chars_of("http");
    if starts_with_exec(a, http.as_slice()) {
        let whole = crate::text::slice_of(a, 0, a.len());
        assert(a@.subrange(0, a@.len() as int) =~= a@);
        return whole;
    }
    let sep = chars_of("://");
    let prefix = if starts_with_exec(a, sep.as_slice()) {
        chars_of("http")
    } else {
        let slashes = chars_of("//");
        if starts_with_exec(a, slashes.as_slice()) {
            chars_of("http:")
        } else {
            let slash = chars_of("/");
            if starts_with_exec(a, slash.as_slice()) {
                chars_of("http:/")
            } else {
                chars_of("http://")
            }
        }
    };
    concat_chars(prefix.as_slice(), a)
}

/// Reads the command line `argv[..argc]`: the options, the start URL and the
/// extensions of the data to fetch.  The switches start from `prmtbl`; the
/// settings are returned beside them.
pub fn parse_argv(argc: usize, argv: Vec<String>, prmtbl: ParamMap) -> (r: Result<
    (ParamMap, Settings),
    ArgError,
>)
    requires
        1 <= argv.len(),
        argc <= argv.len(),
    ensures
        r matches Ok(res) ==> parse_outcome(argc as int, texts(argv@), prmtbl@) == Ok::<
            (ParamMapView, SettingsView),
            ArgFault,
        >((res.0@, res.1@)),
        r matches Err(e) ==> parse_outcome(argc as int, texts(argv@), prmtbl@) == Err::<
            (ParamMapView, SettingsView),
            ArgFault,
        >(e@),
{
    let ghost av = texts(argv@);
    let ghost pm0 = prmtbl@;
    let mut pm = prmtbl;
    let name = match program_name_of(&argv[0]) {
        Some(n) => n,
        None => return Err(ArgError::NoProgramName),
    };
    let mut exts: Vec<String> = Vec::new();
    exts.push(String::from_str("html"));
    exts.push(String::from_str("shtml"));
    let mut st = Settings {
        iam: name,
        start_url: None,
        show_content: None,
        respond_auth: None,
        storage_dir: None,
        ext_ids: exts,
        nest_level: DEF_NESTLEVEL,
        indent: DEF_INDENT,
    };
    assert(texts(st.ext_ids@) =~= seq!["html"@, "shtml"@]);
    assert(st@ == initial_settings(name@));
    if argc < 2 {
        return Err(ArgError::Usage(UsageReason::TooFewArgs));
    }
    let mut ax: usize = 1;
    let mut mode = Mode::Options;
    while ax < argc
        invariant
            argc <= argv.len(),
            av == texts(argv@),
            pm0 == prmtbl@,
            parse_outcome(argc as int, av, pm0) == scan(av, argc as int, ax as int, mode, pm@, st@),
        decreases argc - ax, mode_rank(mode),
    {
        let a = chars_of(argv[ax].as_str());
        assert(a@ == av[ax as int]);
        match mode {
            Mode::StopAttrs => {
                if is_dash_exec(a.as_slice()) {
                    mode = Mode::Options;
                } else if is_text(a.as_slice(), "utf8") {
                    pm.set_stop_utf8();
                    ax = ax + 1;
                } else if is_text(a.as_slice(), "utf8dump") {
                    pm.set_stop_utf8dump();
                    ax = ax + 1;
                } else if is_text(a.as_slice(), "builder") {
                    pm.set_stop_builder();
                    ax = ax + 1;
                } else {
                    return Err(ArgError::Usage(UsageReason::BadStopAttr));
                }
            },
            Mode::LogAttrs => {
                if is_dash_exec(a.as_slice()) {
                    mode = Mode::Options;
                } else if is_text(a.as_slice(), "pathparse") {
                    pm.set_log_pathparse();
                    ax = ax + 1;
                } else {
                    return Err(ArgError::Usage(UsageReason::BadLogAttr));
                }
            },
            Mode::IgnorWords => {
                if is_dash_exec(a.as_slice()) {
                    mode = Mode::Options;
                } else {
                    pm.push_ignor(argv[ax].clone());
                    ax = ax + 1;
                }
            },
            Mode::ExtIds => {
                if is_dash_exec(a.as_slice()) {
                    mode = Mode::Options;
                } else {
                    let e = without_dots_exec(a.as_slice());
                    let ghost before = st.ext_ids@;
                    st.ext_ids.push(string_of(e.as_slice()));
                    assert(texts(st.ext_ids@) =~= texts(before).push(without_dots(a@)));
                    ax = ax + 1;
                }
            },
            Mode::Options => {
                if is_text(a.as_slice(), "--help") || is_text(a.as_slice(), "-h") {
                    return Err(ArgError::Usage(UsageReason::Help));
                } else if is_text(a.as_slice(), "-d") {
                    if st.show_content.is_some() {
                        return Err(ArgError::SetTwice(SetOnce::ShowContent));
                    }
                    st.show_content = Some(true);
                    ax = ax + 1;
                } else if is_text(a.as_slice(), "-a") {
                    if st.respond_auth.is_some() {
                        return Err(ArgError::SetTwice(SetOnce::RespondAuth));
                    }
                    st.respond_auth = Some(true);
                    ax = ax + 1;
                } else if is_text(a.as_slice(), "-r") {
                    if argc <= ax + 1 {
                        return Err(ArgError::Usage(UsageReason::NoNestLevel));
                    }
                    let n = chars_of(argv[ax + 1].as_str());
                    match parse_i32(n.as_slice()) {
                        Some(v) => {
                            st.nest_level = v;
                        },
                        None => {
                            return Err(ArgError::Usage(UsageReason::BadNestLevel));
                        },
                    }
                    ax = ax + 2;
                } else if is_text(a.as_slice(), "-storage") {
                    if argc <= ax + 1 {
                        return Err(ArgError::Usage(UsageReason::NoStorageDir));
                    }
                    pm.set_data_save();
                    if st.storage_dir.is_some() {
                        return Err(ArgError::SetTwice(SetOnce::StorageDir));
                    }
                    st.storage_dir = Some(argv[ax + 1].clone());
                    ax = ax + 2;
                } else if is_text(a.as_slice(), "-stop") {
                    if argc <= ax + 1 {
                        return Err(ArgError::Usage(UsageReason::NoStopAttr));
                    }
                    ax = ax + 1;
                    mode = Mode::StopAttrs;
                } else if is_text(a.as_slice(), "-log") {
                    if argc <= ax + 1 {
                        return Err(ArgError::Usage(UsageReason::NoLogAttr));
                    }
                    ax = ax + 1;
                    mode = Mode::LogAttrs;
                } else if is_text(a.as_slice(), "-ignor") {
                    if argc <= ax + 1 {
                        return Err(ArgError::Usage(UsageReason::NoIgnoreKeyword));
                    }
                    ax = ax + 1;
                    mode = Mode::IgnorWords;
                } else if is_dash_exec(a.as_slice()) {
                    return Err(ArgError::Usage(UsageReason::UnknownOption));
                } else {
                    let full = with_scheme_exec(a.as_slice());
                    let candidate = string_of(full.as_slice());
                    match get_url_parts(&candidate) {
                        Ok(u) => {
                            if st.start_url.is_none() {
                                st.start_url = Some(u);
                            }
                        },
                        Err(m) => {
                            return Err(ArgError::BadUrl(m));
                        },
                    }
                    ax = ax + 1;
                    mode = Mode::ExtIds;
                }
            },
        }
    }
    Ok((pm, st))
}

impl Settings {
    /// The program's name, as the usage text shows it.
    pub fn program_name(&self) -> (r: &String)
        ensures
            r@ == self@.iam,
    {
        &self.iam
    }

    /// The extensions of the data to look for in pages, without dots.
    pub fn ext_ids(&self) -> (r: &Vec<String>)
        ensures
            texts(r@) == self@.ext_ids,
    {
        &self.ext_ids
    }

    /// How far links are followed.
    pub fn nest_level(&self) -> (r: i32)
        ensures
            r == self@.nest_level,
    {
        self.nest_level
    }

    /// Whether `-a` was given: the user is asked for credentials when a page
    /// asks for them.
    pub fn responds_to_auth(&self) -> (r: bool)
        ensures
            r == (self@.respond_auth == Some(true)),
    {
        match self.respond_auth {
            Some(v) => v,
            None => false,
        }
    }

    /// The level of the pages linked from a page reached by `level` links
    /// from the start URL: `level + 1` while `level` is below the nest level,
    /// and `None` (its links are not followed) from the nest level on. So no
    /// page lies more than the nest level's count of links from the start.
    pub fn next_level(&self, level: i32) -> (r: Option<i32>)
        ensures
            r == (if level < self@.nest_level {
                Some((level + 1) as i32)
            } else {
                None::<i32>
            }),
            r matches Some(c) ==> c == level + 1 && c <= self@.nest_level,
    {
        if level < self.nest_level {
            Some(level + 1)
        } else {
            None
        }
    }

    /// Whether a start URL was given.
    pub fn has_strturl(&self) -> (r: bool)
        ensures
            r == self@.start_url is Some,
    {
        self.start_url.is_some()
    }
}

/// The start URL.
pub fn get_strturl(settings: &Settings) -> (r: &UrlParts)
    requires
        settings@.start_url is Some,
    ensures
        r@ == settings@.start_url->0,
{
    match &settings.start_url {
        Some(u) => u,
        None => {
            assert(false);
            unreached()
        },
    }
}

/// How many columns each level of the crawl is indented.
pub fn get_indent(settings: &Settings) -> (r: i32)
    ensures
        r == settings@.indent,
{
    settings.indent
}

/// Whether the settings `s` show the contents read.
pub open spec fn display_on(s: SettingsView) -> bool {
    match s.show_content {
        Some(v) => v,
        None => false,
    }
}

/// Whether the contents read are shown (off unless `-d` was given).
pub fn is_content_display_enable(settings: &Settings) -> (r: bool)
    ensures
        r == display_on(settings@),
{
    match settings.show_content {
        Some(v) => v,
        None => false,
    }
}

/// The directory where data is saved (the current one unless `-storage`
/// was given).
pub fn get_data_dir(settings: &Settings) -> (r: String)
    ensures
        r@ == match settings@.storage_dir {
            Some(d) => d,
            None => "."@,
        },
{
    match &settings.storage_dir {
        Some(d) => d.clone(),
        None => String::from_str("."),
    }
}

/// `a` begins with all of `b`.
pub open spec fn extends<T>(a: Seq<T>, b: Seq<T>) -> bool {
    b.len() <= a.len() && a.take(b.len() as int) == b
}

/// What reading more of the command line keeps: switches that are on stay
/// on, lists only grow at their end, set-once settings keep their value, a
/// storage directory comes with data saving, and the program's name and
/// the indentation do not change.
pub open spec fn keeps(pm0: ParamMapView, st0: SettingsView, pm1: ParamMapView, st1: SettingsView) -> bool {
    &&& pm0.stp_utf8 ==> pm1.stp_utf8
    &&& pm0.stp_utf8dump ==> pm1.stp_utf8dump
    &&& pm0.stp_builder ==> pm1.stp_builder
    &&& pm0.log_pathparse ==> pm1.log_pathparse
    &&& pm0.data_save ==> pm1.data_save
    &&& pm1.data_filename == pm0.data_filename
    &&& extends(pm1.ignr_list, pm0.ignr_list)
    &&& extends(st1.ext_ids, st0.ext_ids)
    &&& st0.start_url is Some ==> st1.start_url == st0.start_url
    &&& st0.show_content is Some ==> st1.show_content == st0.show_content
    &&& st0.respond_auth is Some ==> st1.respond_auth == st0.respond_auth
    &&& st0.storage_dir is Some ==> st1.storage_dir == st0.storage_dir
    &&& st0.storage_dir is None && st1.storage_dir is Some ==> pm1.data_save
    &&& st1.iam == st0.iam
    &&& st1.indent == st0.indent
}

proof fn lemma_extends_trans<T>(a: Seq<T>, b: Seq<T>, c: Seq<T>)
    requires
        extends(a, b),
        extends(b, c),
    ensures
        extends(a, c),
{
    assert(a.take(c.len() as int) =~= b.take(c.len() as int));
}

proof fn lemma_extends_push<T>(a: Seq<T>, x: T)
    ensures
        extends(a.push(x), a),
{
    assert(a.push(x).take(a.len() as int) =~= a);
}

proof fn lemma_extends_refl<T>(a: Seq<T>)
    ensures
        extends(a, a),
{
    assert(a.take(a.len() as int) =~= a);
}

proof fn lemma_keeps_trans(
    pm0: ParamMapView,
    st0: SettingsView,
    pm1: ParamMapView,
    st1: SettingsView,
    pm2: ParamMapView,
    st2: SettingsView,
)
    requires
        keeps(pm0, st0, pm1, st1),
        keeps(pm1, st1, pm2, st2),
    ensures
        keeps(pm0, st0, pm2, st2),
{
    lemma_extends_trans(pm2.ignr_list, pm1.ignr_list, pm0.ignr_list);
    lemma_extends_trans(st2.ext_ids, st1.ext_ids, st0.ext_ids);
}

proof fn lemma_scan_keeps(
    argv: Seq<Seq<char>>,
    argc: int,
    ax: int,
    m: Mode,
    pm: ParamMapView,
    st: SettingsView,
)
    ensures
        scan(argv, argc, ax, m, pm, st) matches Ok(res) ==> keeps(pm, st, res.0, res.1),
    decreases argc - ax, mode_rank(m),
{
    lemma_extends_refl(pm.ignr_list);
    lemma_extends_refl(st.ext_ids);
    if ax < 0 || ax >= argc {
    } else {
        let a = argv[ax];
        let r = scan(argv, argc, ax, m, pm, st);
        if r is Ok {
            let res = r->Ok_0;
            match m {
                Mode::StopAttrs => {
                    if is_dash(a) {
                        lemma_scan_keeps(argv, argc, ax, Mode::Options, pm, st);
                    } else if a == "utf8"@ {
                        lemma_scan_keeps(argv, argc, ax + 1, m, with_stop_utf8(pm), st);
                        lemma_keeps_trans(pm, st, with_stop_utf8(pm), st, res.0, res.1);
                    } else if a == "utf8dump"@ {
                        lemma_scan_keeps(argv, argc, ax + 1, m, with_stop_utf8dump(pm), st);
                        lemma_keeps_trans(pm, st, with_stop_utf8dump(pm), st, res.0, res.1);
                    } else {
                        lemma_scan_keeps(argv, argc, ax + 1, m, with_stop_builder(pm), st);
                        lemma_keeps_trans(pm, st, with_stop_builder(pm), st, res.0, res.1);
                    }
                },
                Mode::LogAttrs => {
                    if is_dash(a) {
                        lemma_scan_keeps(argv, argc, ax, Mode::Options, pm, st);
                    } else {
                        lemma_scan_keeps(argv, argc, ax + 1, m, with_log_pathparse(pm), st);
                        lemma_keeps_trans(pm, st, with_log_pathparse(pm), st, res.0, res.1);
                    }
                },
                Mode::IgnorWords => {
                    if is_dash(a) {
                        lemma_scan_keeps(argv, argc, ax, Mode::Options, pm, st);
                    } else {
                        lemma_scan_keeps(argv, argc, ax + 1, m, with_ignor(pm, a), st);
                        lemma_extends_push(pm.ignr_list, a);
                        lemma_keeps_trans(pm, st, with_ignor(pm, a), st, res.0, res.1);
                    }
                },
                Mode::ExtIds => {
                    if is_dash(a) {
                        lemma_scan_keeps(argv, argc, ax, Mode::Options, pm, st);
                    } else {
                        let st2 = SettingsView { ext_ids: st.ext_ids.push(without_dots(a)), ..st };
                        lemma_scan_keeps(argv, argc, ax + 1, m, pm, st2);
                        lemma_extends_push(st.ext_ids, without_dots(a));
                        lemma_keeps_trans(pm, st, pm, st2, res.0, res.1);
                    }
                },
                Mode::Options => {
                    if a == "-d"@ {
                        let st2 = SettingsView { show_content: Some(true), ..st };
                        lemma_scan_keeps(argv, argc, ax + 1, m, pm, st2);
                        lemma_keeps_trans(pm, st, pm, st2, res.0, res.1);
                    } else if a == "-a"@ {
                        let st2 = SettingsView { respond_auth: Some(true), ..st };
                        lemma_scan_keeps(argv, argc, ax + 1, m, pm, st2);
                        lemma_keeps_trans(pm, st, pm, st2, res.0, res.1);
                    } else if a == "-r"@ {
                        let n = parse_i32_spec(argv[ax + 1])->0;
                        let st2 = SettingsView { nest_level: n, ..st };
                        lemma_scan_keeps(argv, argc, ax + 2, m, pm, st2);
                        lemma_keeps_trans(pm, st, pm, st2, res.0, res.1);
                    } else if a == "-storage"@ {
                        let st2 = SettingsView { storage_dir: Some(argv[ax + 1]), ..st };
                        lemma_scan_keeps(argv, argc, ax + 2, m, with_data_save(pm), st2);
                        lemma_keeps_trans(pm, st, with_data_save(pm), st2, res.0, res.1);
                    } else if a == "-stop"@ {
                        lemma_scan_keeps(argv, argc, ax + 1, Mode::StopAttrs, pm, st);
                    } else if a == "-log"@ {
                        lemma_scan_keeps(argv, argc, ax + 1, Mode::LogAttrs, pm, st);
                    } else if a == "-ignor"@ {
                        lemma_scan_keeps(argv, argc, ax + 1, Mode::IgnorWords, pm, st);
                    } else {
                        let u = url_parts_result(with_scheme(a))->Ok_0;
                        let st2 = SettingsView {
                            start_url: if st.start_url is None { Some(u) } else { st.start_url },
                            ..st
                        };
                        lemma_scan_keeps(argv, argc, ax + 1, Mode::ExtIds, pm, st2);
                        lemma_keeps_trans(pm, st, pm, st2, res.0, res.1);
                    }
                },
            }
        }
    }
}

/// What an accepted command line always gives: the program's name, the
/// extensions `html` and `shtml` first among those looked for, the default
/// indentation, the switches given beforehand still on and the keywords
/// given beforehand still first, and data saving on whenever a storage
/// directory was given.
pub proof fn law_parse_keeps(argc: int, argv: Seq<Seq<char>>, pm: ParamMapView)
    ensures
        parse_outcome(argc, argv, pm) matches Ok(res) ==> {
            let (p, s) = res;
            &&& path_file_name(argv[0]) == Some(s.iam)
            &&& s.ext_ids.len() >= 2
            &&& s.ext_ids[0] == "html"@
            &&& s.ext_ids[1] == "shtml"@
            &&& s.indent == DEF_INDENT
            &&& (pm.stp_utf8 ==> p.stp_utf8)
            &&& (pm.stp_utf8dump ==> p.stp_utf8dump)
            &&& (pm.stp_builder ==> p.stp_builder)
            &&& (pm.log_pathparse ==> p.log_pathparse)
            &&& (pm.data_save ==> p.data_save)
            &&& p.data_filename == pm.data_filename
            &&& extends(p.ignr_list, pm.ignr_list)
            &&& (s.storage_dir is Some ==> p.data_save)
        },
{
    if path_file_name(argv[0]) is Some && argc >= 2 {
        let name = path_file_name(argv[0])->0;
        let st0 = initial_settings(name);
        lemma_scan_keeps(argv, argc, 1, Mode::Options, pm, st0);
        let r = parse_outcome(argc, argv, pm);
        if r is Ok {
            let s = r->Ok_0.1;
            assert(s.ext_ids.take(2) == st0.ext_ids);
            assert(s.ext_ids[0] == s.ext_ids.take(2)[0]);
            assert(s.ext_ids[1] == s.ext_ids.take(2)[1]);
        }
    }
}

/// Whether reading `argv[ax..argc]` in mode `m` reads `opt` as an option
/// (rather than as the value of an option, an attribute, a keyword, a URL
/// or an extension).
pub open spec fn reads_option(argv: Seq<Seq<char>>, argc: int, ax: int, m: Mode, opt: Seq<char>) -> bool
    decreases argc - ax, mode_rank(m),
{
    if ax < 0 || ax >= argc {
        false
    } else {
        let a = argv[ax];
        match m {
            Mode::Options => {
                if a == opt {
                    true
                } else if a == "-r"@ || a == "-storage"@ {
                    if ax + 1 >= argc {
                        false
                    } else {
                        reads_option(argv, argc, ax + 2, m, opt)
                    }
                } else if a == "-stop"@ {
                    reads_option(argv, argc, ax + 1, Mode::StopAttrs, opt)
                } else if a == "-log"@ {
                    reads_option(argv, argc, ax + 1, Mode::LogAttrs, opt)
                } else if a == "-ignor"@ {
                    reads_option(argv, argc, ax + 1, Mode::IgnorWords, opt)
                } else if is_dash(a) {
                    reads_option(argv, argc, ax + 1, m, opt)
                } else {
                    reads_option(argv, argc, ax + 1, Mode::ExtIds, opt)
                }
            },
            _ => {
                if is_dash(a) {
                    reads_option(argv, argc, ax, Mode::Options, opt)
                } else {
                    reads_option(argv, argc, ax + 1, m, opt)
                }
            },
        }
    }
}

/// Reading on from `ax` ends, when it is accepted, with the display switch
/// on exactly if `-d` is read as an option on the way, and untouched otherwise.
proof fn lemma_scan_display(
    argv: Seq<Seq<char>>,
    argc: int,
    ax: int,
    m: Mode,
    pm: ParamMapView,
    st: SettingsView,
)
    ensures
        scan(argv, argc, ax, m, pm, st) matches Ok(res) ==> res.1.show_content == (if reads_option(
            argv,
            argc,
            ax,
            m,
            "-d"@,
        ) {
            Some(true)
        } else {
            st.show_content
        }),
    decreases argc - ax, mode_rank(m),
{
    reveal_strlit("-d");
    reveal_strlit("-a");
    reveal_strlit("-r");
    reveal_strlit("-storage");
    reveal_strlit("-stop");
    reveal_strlit("-log");
    reveal_strlit("-ignor");
    reveal_strlit("--help");
    reveal_strlit("-h");
    reveal_strlit("-");
    if 0 <= ax < argc {
        let a = argv[ax];
        match m {
            Mode::Options => {
                if a == "--help"@ || a == "-h"@ {
                } else if a == "-d"@ {
                    lemma_scan_display(argv, argc, ax + 1, m, pm, SettingsView { show_content: Some(true), ..st });
                } else if a == "-a"@ {
                    lemma_scan_display(argv, argc, ax + 1, m, pm, SettingsView { respond_auth: Some(true), ..st });
                    assert(a.take(1) =~= "-"@);
                } else if a == "-r"@ {
                    if ax + 1 < argc && parse_i32_spec(argv[ax + 1]) is Some {
                        let n = parse_i32_spec(argv[ax + 1])->0;
                        lemma_scan_display(argv, argc, ax + 2, m, pm, SettingsView { nest_level: n, ..st });
                        }
                } else if a == "-storage"@ {
                    if ax + 1 < argc {
                        lemma_scan_display(
                            argv,
                            argc,
                            ax + 2,
                            m,
                            with_data_save(pm),
                            SettingsView { storage_dir: Some(argv[ax + 1]), ..st },
                        );
                        }
                } else if a == "-stop"@ {
                    lemma_scan_display(argv, argc, ax + 1, Mode::StopAttrs, pm, st);
                } else if a == "-log"@ {
                    lemma_scan_display(argv, argc, ax + 1, Mode::LogAttrs, pm, st);
                } else if a == "-ignor"@ {
                    lemma_scan_display(argv, argc, ax + 1, Mode::IgnorWords, pm, st);
                } else if is_dash(a) {
                } else if url_parts_result(with_scheme(a)) is Ok {
                    let u = url_parts_result(with_scheme(a))->Ok_0;
                    let st2 = SettingsView {
                        start_url: if st.start_url is None { Some(u) } else { st.start_url },
                        ..st
                    };
                    lemma_scan_display(argv, argc, ax + 1, Mode::ExtIds, pm, st2);
                }
            },
            Mode::StopAttrs => {
                if is_dash(a) {
                    lemma_scan_display(argv, argc, ax, Mode::Options, pm, st);
                } else if a == "utf8"@ {
                    lemma_scan_display(argv, argc, ax + 1, m, with_stop_utf8(pm), st);
                } else if a == "utf8dump"@ {
                    lemma_scan_display(argv, argc, ax + 1, m, with_stop_utf8dump(pm), st);
                } else if a == "builder"@ {
                    lemma_scan_display(argv, argc, ax + 1, m, with_stop_builder(pm), st);
                }
            },
            Mode::LogAttrs => {
                if is_dash(a) {
                    lemma_scan_display(argv, argc, ax, Mode::Options, pm, st);
                } else if a == "pathparse"@ {
                    lemma_scan_display(argv, argc, ax + 1, m, with_log_pathparse(pm), st);
                }
            },
            Mode::IgnorWords => {
                if is_dash(a) {
                    lemma_scan_display(argv, argc, ax, Mode::Options, pm, st);
                } else {
                    lemma_scan_display(argv, argc, ax + 1, m, with_ignor(pm, a), st);
                }
            },
            Mode::ExtIds => {
                if is_dash(a) {
                    lemma_scan_display(argv, argc, ax, Mode::Options, pm, st);
                } else {
                    lemma_scan_display(
                        argv,
                        argc,
                        ax + 1,
                        m,
                        pm,
                        SettingsView { ext_ids: st.ext_ids.push(without_dots(a)), ..st },
                    );
                }
            },
        }
    }
}

/// The contents are not shown before any option is read; on an accepted
/// command line they are shown exactly when `-d` was read as an option, and
/// without it they are not shown. This holds of every command line, also of
/// one that `parse_argv` is not asked to read.
pub proof fn law_display_only_with_d(argc: int, argv: Seq<Seq<char>>, pm: ParamMapView)
    ensures
        forall|name: Seq<char>| !display_on(#[trigger] initial_settings(name)),
        parse_outcome(argc, argv, pm) matches Ok(res) ==> {
            &&& res.1.show_content == (if reads_option(argv, argc, 1, Mode::Options, "-d"@) {
                Some(true)
            } else {
                None::<bool>
            })
            &&& display_on(res.1) == reads_option(argv, argc, 1, Mode::Options, "-d"@)
        },
{
    if path_file_name(argv[0]) is Some && argc >= 2 {
        let name = path_file_name(argv[0])->0;
        lemma_scan_display(argv, argc, 1, Mode::Options, pm, initial_settings(name));
    }
}

/// The arguments that reading `argv[ax..argc]` in mode `m` takes as
/// `-ignor` keywords, in order: those that follow `-ignor` up to the next
/// option.
pub open spec fn ignor_words(argv: Seq<Seq<char>>, argc: int, ax: int, m: Mode) -> Seq<Seq<char>>
    decreases argc - ax, mode_rank(m),
{
    if ax < 0 || ax >= argc {
        seq![]
    } else {
        let a = argv[ax];
        match m {
            Mode::IgnorWords => {
                if is_dash(a) {
                    ignor_words(argv, argc, ax, Mode::Options)
                } else {
                    seq![a] + ignor_words(argv, argc, ax + 1, m)
                }
            },
            Mode::Options => {
                if a == "-ignor"@ {
                    ignor_words(argv, argc, ax + 1, Mode::IgnorWords)
                } else if a == "-r"@ || a == "-storage"@ {
                    if ax + 1 >= argc {
                        seq![]
                    } else {
                        ignor_words(argv, argc, ax + 2, m)
                    }
                } else if a == "-stop"@ {
                    ignor_words(argv, argc, ax + 1, Mode::StopAttrs)
                } else if a == "-log"@ {
                    ignor_words(argv, argc, ax + 1, Mode::LogAttrs)
                } else if is_dash(a) {
                    ignor_words(argv, argc, ax + 1, m)
                } else {
                    ignor_words(argv, argc, ax + 1, Mode::ExtIds)
                }
            },
            _ => {
                if is_dash(a) {
                    ignor_words(argv, argc, ax, Mode::Options)
                } else {
                    ignor_words(argv, argc, ax + 1, m)
                }
            },
        }
    }
}

/// Reading on from `ax` adds to the keywords exactly the arguments taken as
/// `-ignor` keywords, as they were typed.
proof fn lemma_scan_ignor(
    argv: Seq<Seq<char>>,
    argc: int,
    ax: int,
    m: Mode,
    pm: ParamMapView,
    st: SettingsView,
)
    ensures
        scan(argv, argc, ax, m, pm, st) matches Ok(res) ==> res.0.ignr_list == pm.ignr_list
            + ignor_words(argv, argc, ax, m),
    decreases argc - ax, mode_rank(m),
{
    reveal_strlit("-d");
    reveal_strlit("-a");
    reveal_strlit("-r");
    reveal_strlit("-storage");
    reveal_strlit("-stop");
    reveal_strlit("-log");
    reveal_strlit("-ignor");
    reveal_strlit("--help");
    reveal_strlit("-h");
    reveal_strlit("-");
    if 0 <= ax < argc {
        let a = argv[ax];
        match m {
            Mode::Options => {
                if a == "--help"@ || a == "-h"@ {
                } else if a == "-d"@ {
                    assert(a.take(1) =~= "-"@);
                    lemma_scan_ignor(argv, argc, ax + 1, m, pm, SettingsView { show_content: Some(true), ..st });
                } else if a == "-a"@ {
                    assert(a.take(1) =~= "-"@);
                    lemma_scan_ignor(argv, argc, ax + 1, m, pm, SettingsView { respond_auth: Some(true), ..st });
                } else if a == "-r"@ {
                    if ax + 1 < argc && parse_i32_spec(argv[ax + 1]) is Some {
                        let n = parse_i32_spec(argv[ax + 1])->0;
                        lemma_scan_ignor(argv, argc, ax + 2, m, pm, SettingsView { nest_level: n, ..st });
                    }
                } else if a == "-storage"@ {
                    if ax + 1 < argc {
                        lemma_scan_ignor(
                            argv,
                            argc,
                            ax + 2,
                            m,
                            with_data_save(pm),
                            SettingsView { storage_dir: Some(argv[ax + 1]), ..st },
                        );
                    }
                } else if a == "-stop"@ {
                    lemma_scan_ignor(argv, argc, ax + 1, Mode::StopAttrs, pm, st);
                } else if a == "-log"@ {
                    lemma_scan_ignor(argv, argc, ax + 1, Mode::LogAttrs, pm, st);
                } else if a == "-ignor"@ {
                    lemma_scan_ignor(argv, argc, ax + 1, Mode::IgnorWords, pm, st);
                } else if is_dash(a) {
                } else if url_parts_result(with_scheme(a)) is Ok {
                    let u = url_parts_result(with_scheme(a))->Ok_0;
                    let st2 = SettingsView {
                        start_url: if st.start_url is None { Some(u) } else { st.start_url },
                        ..st
                    };
                    lemma_scan_ignor(argv, argc, ax + 1, Mode::ExtIds, pm, st2);
                }
            },
            Mode::StopAttrs => {
                if is_dash(a) {
                    lemma_scan_ignor(argv, argc, ax, Mode::Options, pm, st);
                } else if a == "utf8"@ {
                    lemma_scan_ignor(argv, argc, ax + 1, m, with_stop_utf8(pm), st);
                } else if a == "utf8dump"@ {
                    lemma_scan_ignor(argv, argc, ax + 1, m, with_stop_utf8dump(pm), st);
                } else if a == "builder"@ {
                    lemma_scan_ignor(argv, argc, ax + 1, m, with_stop_builder(pm), st);
                }
            },
            Mode::LogAttrs => {
                if is_dash(a) {
                    lemma_scan_ignor(argv, argc, ax, Mode::Options, pm, st);
                } else if a == "pathparse"@ {
                    lemma_scan_ignor(argv, argc, ax + 1, m, with_log_pathparse(pm), st);
                }
            },
            Mode::IgnorWords => {
                if is_dash(a) {
                    lemma_scan_ignor(argv, argc, ax, Mode::Options, pm, st);
                } else {
                    lemma_scan_ignor(argv, argc, ax + 1, m, with_ignor(pm, a), st);
                    assert(pm.ignr_list.push(a) + ignor_words(argv, argc, ax + 1, m) =~= pm.ignr_list
                        + (seq![a] + ignor_words(argv, argc, ax + 1, m)));
                }
            },
            Mode::ExtIds => {
                if is_dash(a) {
                    lemma_scan_ignor(argv, argc, ax, Mode::Options, pm, st);
                } else {
                    lemma_scan_ignor(
                        argv,
                        argc,
                        ax + 1,
                        m,
                        pm,
                        SettingsView { ext_ids: st.ext_ids.push(without_dots(a)), ..st },
                    );
                }
            },
        }
    } else {
        assert(pm.ignr_list + Seq::<Seq<char>>::empty() =~= pm.ignr_list);
    }
}

/// On an accepted command line the keywords are those given beforehand
/// followed by every argument taken as an `-ignor` keyword, as typed; so
/// every URL that holds one of those arguments is ignored.
pub proof fn law_ignor_keywords_kept(argc: int, argv: Seq<Seq<char>>, pm: ParamMapView)
    ensures
        parse_outcome(argc, argv, pm) matches Ok(res) ==> {
            &&& res.0.ignr_list == pm.ignr_list + ignor_words(argv, argc, 1, Mode::Options)
            &&& forall|i: int, url: Seq<char>|
                0 <= i < ignor_words(argv, argc, 1, Mode::Options).len() && contains_seq(
                    url,
                    #[trigger] ignor_words(argv, argc, 1, Mode::Options)[i],
                ) ==> #[trigger] ignores(res.0, url)
        },
{
    if path_file_name(argv[0]) is Some && argc >= 2 {
        let name = path_file_name(argv[0])->0;
        lemma_scan_ignor(argv, argc, 1, Mode::Options, pm, initial_settings(name));
        if parse_outcome(argc, argv, pm) is Ok {
            let res = parse_outcome(argc, argv, pm)->Ok_0;
            let ws = ignor_words(argv, argc, 1, Mode::Options);
            assert forall|i: int, url: Seq<char>|
                0 <= i < ws.len() && contains_seq(url, #[trigger] ws[i]) implies #[trigger] ignores(
                res.0,
                url,
            ) by {
                let j = pm.ignr_list.len() + i;
                assert(res.0.ignr_list[j] == ws[i]);
            }
        }
    }
}

/// A start URL is completed to begin with `http://`: written as `b`,
/// `/b`, `//b` or `://b` (where `b` begins with neither `/` nor `:`), it
/// becomes `http://b`; one that begins with `http` is kept as it is.
pub proof fn law_start_url_scheme(sep: Seq<char>, b: Seq<char>)
    ensures
        starts_with(b, "http"@) ==> with_scheme(b) == b,
        ((sep == Seq::<char>::empty() || sep == "/"@ || sep == "//"@ || sep == "://"@) && (b.len()
            == 0 || (b[0] != '/' && b[0] != ':')) && !starts_with(sep + b, "http"@)) ==> with_scheme(
            sep + b,
        ) == "http://"@ + b,
{
    reveal_strlit("http");
    reveal_strlit("://");
    reveal_strlit("//");
    reveal_strlit("/");
    reveal_strlit("http:");
    reveal_strlit("http:/");
    reveal_strlit("http://");
    let a = sep + b;
    if (b.len() == 0 || (b[0] != '/' && b[0] != ':')) && !starts_with(a, "http"@) {
        if sep == Seq::<char>::empty() {
            assert(a =~= b);
            assert(!starts_with(a, "://"@)) by {
                if starts_with(a, "://"@) {
                    assert(a.take(3)[0] == a[0]);
                }
            }
            assert(!starts_with(a, "//"@)) by {
                if starts_with(a, "//"@) {
                    assert(a.take(2)[0] == a[0]);
                }
            }
            assert(!starts_with(a, "/"@)) by {
                if starts_with(a, "/"@) {
                    assert(a.take(1)[0] == a[0]);
                }
            }
        } else if sep == "/"@ {
            assert(a.take(1) =~= "/"@);
            assert(!starts_with(a, "://"@)) by {
                if starts_with(a, "://"@) {
                    assert(a.take(3)[0] == a[0]);
                }
            }
            assert(!starts_with(a, "//"@)) by {
                if starts_with(a, "//"@) {
                    assert(a.take(2)[1] == a[1]);
                    assert(a[1] == b[0]);
                }
            }
            assert("http:/"@ + a =~= "http://"@ + b);
        } else if sep == "//"@ {
            assert(a.take(2) =~= "//"@);
            assert(!starts_with(a, "://"@)) by {
                if starts_with(a, "://"@) {
                    assert(a.take(3)[0] == a[0]);
                }
            }
            assert("http:"@ + a =~= "http://"@ + b);
        } else if sep == "://"@ {
            assert(a.take(3) =~= "://"@);
            assert("http"@ + a =~= "http://"@ + b);
        }
    }
}

} // verus!
