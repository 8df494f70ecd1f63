//! The run's switches: which failures stop the crawl, which logs are
//! written, whether fetched data is saved and under what name, and which
//! keywords exclude a URL.

use vstd::prelude::*;
use crate::text::{chars_of, contains_seq, find_in, lemma_find_seq};

verus! {

broadcast use vstd::string::group_string_axioms;

/// The run's switches.
pub struct ParamMap {
    stp_utf8: bool,
    stp_utf8dump: bool,
    stp_builder: bool,
    log_pathparse: bool,
    data_save: bool,
    data_filename: String,
    ignr_list: Vec<String>,
}

/// The mathematical content of a `ParamMap`.
pub struct ParamMapView {
    pub stp_utf8: bool,
    pub stp_utf8dump: bool,
    pub stp_builder: bool,
    pub log_pathparse: bool,
    pub data_save: bool,
    pub data_filename: Seq<char>,
    pub ignr_list: Seq<Seq<char>>,
}

/// The texts of a list of strings.
pub open spec fn texts(v: Seq<String>) -> Seq<Seq<char>> {
    v.map_values(|s: String| s@)
}

impl View for ParamMap {
    type V = ParamMapView;

    closed spec fn view(&self) -> ParamMapView {
        ParamMapView {
            stp_utf8: self.stp_utf8,
            stp_utf8dump: self.stp_utf8dump,
            stp_builder: self.stp_builder,
            log_pathparse: self.log_pathparse,
            data_save: self.data_save,
            data_filename: self.data_filename@,
            ignr_list: texts(self.ignr_list@),
        }
    }
}

/// The switches of a fresh run: all off, no file name, no keywords.
pub open spec fn default_params() -> ParamMapView {
    ParamMapView {
        stp_utf8: false,
        stp_utf8dump: false,
        stp_builder: false,
        log_pathparse: false,
        data_save: false,
        data_filename: Seq::empty(),
        ignr_list: Seq::empty(),
    }
}

/// `url` holds one of the keywords of `p`.
pub open spec fn ignores(p: ParamMapView, url: Seq<char>) -> bool {
    exists|i: int| 0 <= i < p.ignr_list.len() && contains_seq(url, #[trigger] p.ignr_list[i])
}

/// The switches after `set_stop_utf8`.
pub open spec fn with_stop_utf8(p: ParamMapView) -> ParamMapView {
    ParamMapView { stp_utf8: true, ..p }
}

/// The switches after `set_stop_utf8dump`.
pub open spec fn with_stop_utf8dump(p: ParamMapView) -> ParamMapView {
    ParamMapView { stp_utf8: true, stp_utf8dump: true, ..p }
}

/// The switches after `set_stop_builder`.
pub open spec fn with_stop_builder(p: ParamMapView) -> ParamMapView {
    ParamMapView { stp_builder: true, ..p }
}

/// The switches after `set_log_pathparse`.
pub open spec fn with_log_pathparse(p: ParamMapView) -> ParamMapView {
    ParamMapView { log_pathparse: true, ..p }
}

/// The switches after `set_data_save`.
pub open spec fn with_data_save(p: ParamMapView) -> ParamMapView {
    ParamMapView { data_save: true, ..p }
}

/// The switches after `push_ignor(kw)`.
pub open spec fn with_ignor(p: ParamMapView, kw: Seq<char>) -> ParamMapView {
    ParamMapView { ignr_list: p.ignr_list.push(kw), ..p }
}

fn clone_strings(v: &Vec<String>) -> (r: Vec<String>)
    ensures
        r@ == v@,
{
    let mut r: Vec<String> = Vec::new();
    let mut i: usize = 0;
    while i < v.len()
        invariant
            i <= v.len(),
            r@ == v@.take(i as int),
        decreases v.len() - i,
    {
        r.push(v[i].clone());
        assert(v@.take(i + 1) =~= v@.take(i as int).push(v@[i as int]));
        i = i + 1;
    }
    assert(v@.take(v.len() as int) =~= v@);
    r
}

impl ParamMap {
    /// Stopping with a dump is a kind of stopping on text that is not UTF-8.
    #[verifier::type_invariant]
    spec fn dump_implies_utf8(&self) -> bool {
        self.stp_utf8dump ==> self.stp_utf8
    }

    /// Fresh switches: all off, no file name, no keywords.
    pub fn new() -> (r: Self)
        ensures
            r@ == default_params(),
    {
        let r = ParamMap {
            stp_utf8: false,
            stp_utf8dump: false,
            stp_builder: false,
            log_pathparse: false,
            data_save: false,
            data_filename: String::new(),
            ignr_list: Vec::new(),
        };
        assert(texts(r.ignr_list@) =~= Seq::empty());
        r
    }

    /// An independent copy with the same switches.
    pub fn copy(&self) -> (r: Self)
        ensures
            r@ == self@,
    {
        proof {
            use_type_invariant(self);
        }
        ParamMap {
            stp_utf8: self.stp_utf8,
            stp_utf8dump: self.stp_utf8dump,
            stp_builder: self.stp_builder,
            log_pathparse: self.log_pathparse,
            data_save: self.data_save,
            data_filename: self.data_filename.clone(),
            ignr_list: clone_strings(&self.ignr_list),
        }
    }

    /// Stop on text that is not UTF-8.
    pub fn set_stop_utf8(&mut self)
        ensures
            final(self)@ == with_stop_utf8(old(self)@),
    {
        proof {
            use_type_invariant(&*self);
        }
        self.stp_utf8 = true;
    }

    pub fn is_stop_utf8(&self) -> (r: bool)
        ensures
            r == self@.stp_utf8,
    {
        self.stp_utf8
    }

    /// Stop on text that is not UTF-8, and show what was read so far.
    pub fn set_stop_utf8dump(&mut self)
        ensures
            final(self)@ == with_stop_utf8dump(old(self)@),
    {
        proof {
            use_type_invariant(&*self);
        }
        self.stp_utf8 = true;
        self.stp_utf8dump = true;
    }

    pub fn is_stop_utf8dump(&self) -> (r: bool)
        ensures
            r == self@.stp_utf8dump,
            r ==> self@.stp_utf8,
    {
        proof {
            use_type_invariant(self);
        }
        self.stp_utf8dump
    }

    /// Stop when no HTTPS client could be built for a URL.
    pub fn set_stop_builder(&mut self)
        ensures
            final(self)@ == with_stop_builder(old(self)@),
    {
        proof {
            use_type_invariant(&*self);
        }
        self.stp_builder = true;
    }

    pub fn is_stop_builder(&self) -> (r: bool)
        ensures
            r == self@.stp_builder,
    {
        self.stp_builder
    }

    /// Log how relative link paths are resolved.
    pub fn set_log_pathparse(&mut self)
        ensures
            final(self)@ == with_log_pathparse(old(self)@),
    {
        proof {
            use_type_invariant(&*self);
        }
        self.log_pathparse = true;
    }

    pub fn is_log_pathparse(&self) -> (r: bool)
        ensures
            r == self@.log_pathparse,
    {
        self.log_pathparse
    }

    /// Save fetched data files.
    pub fn set_data_save(&mut self)
        ensures
            final(self)@ == with_data_save(old(self)@),
    {
        proof {
            use_type_invariant(&*self);
        }
        self.data_save = true;
    }

    pub fn is_data_save(&self) -> (r: bool)
        ensures
            r == self@.data_save,
    {
        self.data_save
    }

    /// The name under which the next data file is saved.
    pub fn put_data_filename(&mut self, fname: String)
        ensures
            final(self)@ == (ParamMapView { data_filename: fname@, ..old(self)@ }),
    {
        proof {
            use_type_invariant(&*self);
        }
        self.data_filename = fname;
    }

    pub fn get_data_filename(&mut self) -> (r: String)
        ensures
            final(self)@ == old(self)@,
            r@ == old(self)@.data_filename,
    {
        self.data_filename.clone()
    }

    /// Adds a keyword: URLs that hold it are not visited.
    pub fn push_ignor(&mut self, kywd: String)
        ensures
            final(self)@ == with_ignor(old(self)@, kywd@),
    {
        proof {
            use_type_invariant(&*self);
        }
        let ghost before = self.ignr_list@;
        let mut list: Vec<String> = Vec::new();
        std::mem::swap(&mut list, &mut self.ignr_list);
        list.push(kywd);
        self.ignr_list = list;
        assert(texts(self.ignr_list@) =~= texts(before).push(kywd@));
    }

    /// Whether `url` holds one of the keywords.
    pub fn is_ignor(&mut self, url: String) -> (r: bool)
        ensures
            final(self)@ == old(self)@,
            r == ignores(old(self)@, url@),
    {
        let u = chars_of(url.as_str());
        let mut i: usize = 0;
        while i < self.ignr_list.len()
            invariant
                i <= self.ignr_list.len(),
                u@ == url@,
                forall|j: int|
                    0 <= j < i ==> !contains_seq(url@, #[trigger] texts(self.ignr_list@)[j]),
            decreases self.ignr_list.len() - i,
        {
            let k = chars_of(self.ignr_list[i].as_str());
            let found = find_in(u.as_slice(), k.as_slice());
            proof {
                lemma_find_seq(url@, k@);
            }
            if found.is_some() {
                assert(contains_seq(url@, texts(self.ignr_list@)[i as int]));
                assert(contains_seq(url@, old(self)@.ignr_list[i as int]));
                return true;
            }
            i = i + 1;
        }
        assert(forall|j: int|
            0 <= j < old(self)@.ignr_list.len() ==> !contains_seq(url@, #[trigger] old(self)@.ignr_list[j]));
        false
    }
}

/// Setting "stop on UTF-8 errors with a dump" also sets "stop on UTF-8
/// errors"; each switch, once on, stays on when it is set again.
pub proof fn law_stop_switches(p: ParamMapView)
    ensures
        with_stop_utf8dump(p).stp_utf8,
        with_stop_utf8dump(p).stp_utf8dump,
        with_stop_utf8(with_stop_utf8(p)) == with_stop_utf8(p),
        with_stop_utf8dump(with_stop_utf8dump(p)) == with_stop_utf8dump(p),
        with_stop_builder(with_stop_builder(p)) == with_stop_builder(p),
        with_log_pathparse(with_log_pathparse(p)) == with_log_pathparse(p),
        with_data_save(with_data_save(p)) == with_data_save(p),
{
}

/// The switches keep "stop with a dump" within "stop on text that is not
/// UTF-8": fresh switches do, and every change of the switches keeps it.
pub open spec fn switches_consistent(p: ParamMapView) -> bool {
    p.stp_utf8dump ==> p.stp_utf8
}

/// A change of the switches, as a method of `ParamMap` makes it. The methods
/// that only read (`is_ignor`, `get_data_filename`, the `is_` switches) and
/// `copy` leave the switches as they are, so they make no change.
pub enum ParamChange {
    StopUtf8,
    StopUtf8Dump,
    StopBuilder,
    LogPathparse,
    DataSave,
    Ignor(Seq<char>),
    PutFilename(Seq<char>),
}

/// The switches after the change `c`.
pub open spec fn apply_change(p: ParamMapView, c: ParamChange) -> ParamMapView {
    match c {
        ParamChange::StopUtf8 => with_stop_utf8(p),
        ParamChange::StopUtf8Dump => with_stop_utf8dump(p),
        ParamChange::StopBuilder => with_stop_builder(p),
        ParamChange::LogPathparse => with_log_pathparse(p),
        ParamChange::DataSave => with_data_save(p),
        ParamChange::Ignor(kw) => with_ignor(p, kw),
        ParamChange::PutFilename(f) => ParamMapView { data_filename: f, ..p },
    }
}

/// The switches after the changes `cs`, first to last.
pub open spec fn apply_changes(p: ParamMapView, cs: Seq<ParamChange>) -> ParamMapView
    decreases cs.len(),
{
    if cs.len() == 0 {
        p
    } else {
        apply_changes(apply_change(p, cs[0]), cs.drop_first())
    }
}

proof fn lemma_changes_consistent(p: ParamMapView, cs: Seq<ParamChange>)
    requires
        switches_consistent(p),
    ensures
        switches_consistent(apply_changes(p, cs)),
    decreases cs.len(),
{
    if cs.len() > 0 {
        lemma_changes_consistent(apply_change(p, cs[0]), cs.drop_first());
    }
}

/// Whatever changes the methods of `ParamMap` make to fresh switches,
/// "stop with a dump" stays within "stop on text that is not UTF-8".
pub proof fn law_dump_implies_utf8(cs: Seq<ParamChange>)
    ensures
        switches_consistent(apply_changes(default_params(), cs)),
{
    lemma_changes_consistent(default_params(), cs);
}

proof fn lemma_changes_keep_filename(p: ParamMapView, cs: Seq<ParamChange>)
    requires
        forall|i: int| 0 <= i < cs.len() ==> !(#[trigger] cs[i] is PutFilename),
    ensures
        apply_changes(p, cs).data_filename == p.data_filename,
    decreases cs.len(),
{
    if cs.len() > 0 {
        assert(!(cs[0] is PutFilename));
        let rest = cs.drop_first();
        assert forall|i: int| 0 <= i < rest.len() implies !(#[trigger] rest[i] is PutFilename) by {
            assert(rest[i] == cs[i + 1]);
        }
        lemma_changes_keep_filename(apply_change(p, cs[0]), rest);
    }
}

/// A file name put stays until the next one is put: no other change of the
/// switches, in any number, touches it.
pub proof fn law_filename_survives(p: ParamMapView, fname: Seq<char>, cs: Seq<ParamChange>)
    requires
        forall|i: int| 0 <= i < cs.len() ==> !(#[trigger] cs[i] is PutFilename),
    ensures
        apply_changes(apply_change(p, ParamChange::PutFilename(fname)), cs).data_filename == fname,
{
    lemma_changes_keep_filename(apply_change(p, ParamChange::PutFilename(fname)), cs);
}

/// After a keyword is added, every URL that holds it is ignored, and every
/// URL that was ignored before still is.
pub proof fn law_ignor_after_push(p: ParamMapView, kw: Seq<char>, url: Seq<char>)
    ensures
        contains_seq(url, kw) ==> ignores(with_ignor(p, kw), url),
        ignores(p, url) ==> ignores(with_ignor(p, kw), url),
        ignores(with_ignor(p, kw), url) ==> ignores(p, url) || contains_seq(url, kw),
{
    let q = with_ignor(p, kw);
    if contains_seq(url, kw) {
        assert(q.ignr_list[p.ignr_list.len() as int] == kw);
    }
    if ignores(p, url) {
        let i = choose|i: int| 0 <= i < p.ignr_list.len() && contains_seq(url, #[trigger] p.ignr_list[i]);
        assert(q.ignr_list[i] == p.ignr_list[i]);
    }
    if ignores(q, url) {
        let i = choose|i: int| 0 <= i < q.ignr_list.len() && contains_seq(url, #[trigger] q.ignr_list[i]);
        if i < p.ignr_list.len() {
            assert(q.ignr_list[i] == p.ignr_list[i]);
        }
    }
}

/// A file name put is the one read back, and putting it changes nothing
/// else.
pub proof fn law_data_filename_roundtrip(p: ParamMapView, fname: Seq<char>)
    ensures
        (ParamMapView { data_filename: fname, ..p }).data_filename == fname,
        (ParamMapView { data_filename: fname, ..p }).ignr_list == p.ignr_list,
        (ParamMapView { data_filename: fname, ..p }).data_save == p.data_save,
{
}

/// The empty keyword is held by every URL.
pub proof fn law_empty_keyword_ignores_all(p: ParamMapView, url: Seq<char>)
    ensures
        ignores(with_ignor(p, Seq::empty()), url),
{
    assert(crate::text::matches_at(url, Seq::empty(), 0)) by {
        assert(url.subrange(0, 0) =~= Seq::<char>::empty());
    }
    law_ignor_after_push(p, Seq::empty(), url);
}

} // verus!
