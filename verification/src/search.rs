//! The search for one token: the candidates are gone through in their
//! order, aliases before functions before the files of the search path, and
//! the search ends at the first match unless every match is wanted or the
//! token is a wildcard pattern.

use vstd::prelude::*;
use crate::names::{
    extension, extension_start, is_listed, is_name_of, lemma_listed_extension_is_supplied, listed,
    names_token, part, texts_of,
};
use crate::path_entry::{files_of, File, FileView, PathEntry, PathEntryView};
use crate::pattern::{CompiledPattern, PatternError, PatternView};
use crate::shell::{Alias, Function};
use crate::text::to_chars;

verus! {

/// Something that a token may stand for.
#[derive(Debug)]
pub enum Candidate<'a> {
    /// A directory of the search path, with its files.
    Path(PathEntry),
    /// An alias of the shell.
    Alias(Alias<'a>),
    /// A function of the shell.
    Function(Function<'a>),
}

/// A candidate as plain values: an alias or a function with its name and
/// its text, a directory with its files.
pub enum CandidateView {
    Path { dir: PathEntryView },
    Alias { name: Seq<char>, value: Seq<char> },
    Function { name: Seq<char>, body: Seq<char> },
}

impl<'a> View for Candidate<'a> {
    type V = CandidateView;

    open spec fn view(&self) -> CandidateView {
        match *self {
            Candidate::Path(p) => CandidateView::Path { dir: p@ },
            Candidate::Alias(a) => CandidateView::Alias { name: a.lhs@, value: a.rhs@ },
            Candidate::Function(f) => CandidateView::Function { name: f.name@, body: f.body@ },
        }
    }
}

/// The views of a sequence of candidates, in order.
pub open spec fn candidates_of(items: Seq<Candidate<'_>>) -> Seq<CandidateView> {
    Seq::new(items.len(), |i: int| items[i]@)
}

/// A match: the index of the candidate, and for a directory the index of
/// the file among its files (0 for an alias or a function).
#[derive(Clone, Copy, Debug, PartialEq, Eq, Structural)]
pub struct Hit {
    pub item: usize,
    pub file: usize,
}

/// What a search looks at and when it ends.
#[derive(Clone, Copy, Debug)]
pub struct Scope<'a> {
    /// Aliases are candidates.
    pub aliases: bool,
    /// Functions are candidates.
    pub functions: bool,
    /// Every match is reported, not only the first.
    pub all: bool,
    /// The extensions of the files that are candidates, where files are told
    /// by their extension; `None` where they are told by their executable
    /// bit.
    pub extensions: Option<&'a Vec<String>>,
}

/// How far a search has come.
#[derive(Debug)]
pub enum Step {
    /// The search is over: these matches are to be reported.
    Done(Vec<Hit>),
    /// The directory with this index among the candidates is to be listed.
    List(usize),
}

/// Whether a candidate is a directory that was not listed yet.
pub open spec fn is_unlisted(c: CandidateView) -> bool {
    c matches CandidateView::Path { dir } && dir.files is None
}

impl<'a> Scope<'a> {
    /// Whether a file is one that a pattern may match: it may be executed,
    /// or, where files are told by their extension, its extension is one of
    /// those listed.
    pub open spec fn admits(&self, file: FileView) -> bool {
        match self.extensions {
            None => file.executable,
            Some(list) => extension(file.name) matches Some(ext) && is_listed(ext, texts_of(list@)),
        }
    }

    /// Whether a file is a match. Where files are told by their executable
    /// bit, the pattern matches its name and it may be executed. Where they
    /// are told by their extension, its name is that of the token, an
    /// extension of the list supplied where the token leaves it out; or the
    /// token is a wildcard pattern that matches its name, and its extension
    /// is one of the list.
    pub open spec fn file_matches(&self, p: PatternView, file: FileView) -> bool {
        match self.extensions {
            None => p.matches(file.name) && file.executable,
            Some(list) => {
                ||| names_token(
                    p.token,
                    file.name,
                    texts_of(list@),
                    p.options.case_insensitive,
                )
                ||| p.is_wildcard && p.matches(file.name) && self.admits(file)
            },
        }
    }

    /// The matches among the first `upto` files of the candidate `item`, in
    /// their order: the files that are matches.
    pub open spec fn file_hits(
        &self,
        p: PatternView,
        files: Seq<FileView>,
        item: usize,
        upto: int,
    ) -> Seq<Hit>
        decreases upto,
    {
        if upto <= 0 {
            Seq::empty()
        } else {
            let before = self.file_hits(p, files, item, upto - 1);
            if self.file_matches(p, files[upto - 1]) {
                before.push(Hit { item, file: (upto - 1) as usize })
            } else {
                before
            }
        }
    }

    /// The matches that the candidate `item` holds: an alias or a function
    /// whose kind is looked at and whose name the pattern matches, or the
    /// matches among the files of a directory.
    pub open spec fn item_hits(&self, p: PatternView, c: CandidateView, item: usize) -> Seq<Hit> {
        match c {
            CandidateView::Alias { name, .. } => if self.aliases && p.matches(name) {
                seq![Hit { item, file: 0 }]
            } else {
                Seq::empty()
            },
            CandidateView::Function { name, .. } => if self.functions && p.matches(name) {
                seq![Hit { item, file: 0 }]
            } else {
                Seq::empty()
            },
            CandidateView::Path { dir } => self.file_hits(
                p,
                dir.candidates(),
                item,
                dir.candidates().len() as int,
            ),
        }
    }

    /// The matches among the first `upto` candidates, in their order.
    pub open spec fn hits(&self, p: PatternView, items: Seq<CandidateView>, upto: int) -> Seq<Hit>
        decreases upto,
    {
        if upto <= 0 {
            Seq::empty()
        } else {
            self.hits(p, items, upto - 1) + self.item_hits(p, items[upto - 1], (upto - 1) as usize)
        }
    }

    /// Whether the search ends at the first match: not every match is
    /// wanted, and the token is no wildcard pattern.
    pub open spec fn stops_at_first(&self, p: PatternView) -> bool {
        !self.all && !p.is_wildcard
    }

    /// How many candidates the search goes through: up to the candidate
    /// with the first match, where the search ends there, else all.
    pub open spec fn reach(&self, p: PatternView, items: Seq<CandidateView>) -> int {
        let found = self.reported(p, items);
        if self.stops_at_first(p) && found.len() > 0 {
            found[0].item + 1
        } else {
            items.len() as int
        }
    }

    /// What the search for a token reports: every match, in the order of the
    /// candidates; or the first match alone, where the search ends there.
    pub open spec fn reported(&self, p: PatternView, items: Seq<CandidateView>) -> Seq<Hit> {
        let every = self.hits(p, items, items.len() as int);
        if self.stops_at_first(p) && every.len() > 0 {
            every.take(1)
        } else {
            every
        }
    }

    /// The matches among the first files of a directory stand at the front
    /// of the matches among more of its files.
    pub proof fn lemma_file_hits_grow(
        &self,
        p: PatternView,
        files: Seq<FileView>,
        item: usize,
        upto: int,
        more: int,
    )
        requires
            0 <= upto <= more,
        ensures
            self.file_hits(p, files, item, upto).len() <= self.file_hits(
                p,
                files,
                item,
                more,
            ).len(),
            self.file_hits(p, files, item, more).take(
                self.file_hits(p, files, item, upto).len() as int,
            ) == self.file_hits(p, files, item, upto),
        decreases more - upto,
    {
        let short = self.file_hits(p, files, item, upto);
        if upto < more {
            self.lemma_file_hits_grow(p, files, item, upto, more - 1);
            let mid = self.file_hits(p, files, item, more - 1);
            let long = self.file_hits(p, files, item, more);
            assert(long.take(short.len() as int) =~= mid.take(short.len() as int));
        } else {
            assert(short.take(short.len() as int) =~= short);
        }
    }

    /// The matches among the first candidates stand at the front of the
    /// matches among more of them.
    pub proof fn lemma_hits_grow(
        &self,
        p: PatternView,
        items: Seq<CandidateView>,
        upto: int,
        more: int,
    )
        requires
            0 <= upto <= more,
        ensures
            self.hits(p, items, upto).len() <= self.hits(p, items, more).len(),
            self.hits(p, items, more).take(self.hits(p, items, upto).len() as int) == self.hits(
                p,
                items,
                upto,
            ),
        decreases more - upto,
    {
        let short = self.hits(p, items, upto);
        if upto < more {
            self.lemma_hits_grow(p, items, upto, more - 1);
            let mid = self.hits(p, items, more - 1);
            let long = self.hits(p, items, more);
            assert(long.take(short.len() as int) =~= mid.take(short.len() as int));
        } else {
            assert(short.take(short.len() as int) =~= short);
        }
    }

    /// Where the first candidates hold no match, there is no match among
    /// them.
    pub proof fn lemma_no_hits(&self, p: PatternView, items: Seq<CandidateView>, upto: int)
        requires
            0 <= upto <= items.len(),
            forall|j: int|
                0 <= j < upto ==> self.item_hits(p, #[trigger] items[j], j as usize).len() == 0,
        ensures
            self.hits(p, items, upto).len() == 0,
        decreases upto,
    {
        if upto > 0 {
            self.lemma_no_hits(p, items, upto - 1);
            assert(self.item_hits(p, items[upto - 1], (upto - 1) as usize).len() == 0);
        }
    }

    /// The first match is that of the first candidate that holds one.
    pub proof fn lemma_first_hit(&self, p: PatternView, items: Seq<CandidateView>, first: int)
        requires
            0 <= first < items.len(),
            self.item_hits(p, items[first], first as usize).len() > 0,
            forall|j: int|
                0 <= j < first ==> self.item_hits(p, #[trigger] items[j], j as usize).len() == 0,
        ensures
            self.reported(p, items).len() > 0,
            self.reported(p, items)[0] == self.item_hits(p, items[first], first as usize)[0],
    {
        self.lemma_no_hits(p, items, first);
        let here = self.hits(p, items, first + 1);
        assert(here =~= self.item_hits(p, items[first], first as usize));
        self.lemma_hits_grow(p, items, first + 1, items.len() as int);
        let every = self.hits(p, items, items.len() as int);
        assert(every.take(here.len() as int)[0] == every[0]);
    }

    /// An alias comes before a file of the same name. Where aliases are
    /// candidates and stand before every directory, and the pattern matches
    /// the name of an alias, the first match that is reported is an alias;
    /// and where the search ends at the first match, it is the only one, and
    /// the search goes no further than that alias: no file is looked at and
    /// none is reported.
    pub proof fn lemma_alias_has_priority(
        &self,
        p: PatternView,
        items: Seq<CandidateView>,
        alias: int,
    )
        requires
            self.aliases,
            items.len() <= usize::MAX,
            0 <= alias < items.len(),
            items[alias] matches CandidateView::Alias { name, .. } && p.matches(name),
            forall|i: int, j: int|
                0 <= i < j < items.len() && #[trigger] items[j] is Alias ==> #[trigger] items[i]
                    is Alias,
        ensures
            self.reported(p, items).len() > 0,
            self.reported(p, items)[0].item <= alias,
            items[self.reported(p, items)[0].item as int] is Alias,
            self.stops_at_first(p) ==> self.reported(p, items).len() == 1,
            self.stops_at_first(p) ==> self.reach(p, items) <= alias + 1,
    {
        let first = self.first_match(p, items, alias);
        if first < alias {
            assert(items[alias] is Alias);
            assert(items[first] is Alias);
        }
        self.lemma_first_hit(p, items, first);
    }

    /// The first candidate that holds a match, given that the candidate
    /// `last` holds one.
    proof fn first_match(&self, p: PatternView, items: Seq<CandidateView>, last: int) -> (first:
        int)
        requires
            0 <= last < items.len(),
            last <= usize::MAX,
            self.item_hits(p, items[last], last as usize).len() > 0,
        ensures
            0 <= first <= last,
            self.item_hits(p, items[first], first as usize).len() > 0,
            forall|j: int|
                0 <= j < first ==> self.item_hits(p, #[trigger] items[j], j as usize).len() == 0,
        decreases last,
    {
        if exists|j: int|
            0 <= j < last && self.item_hits(p, #[trigger] items[j], j as usize).len() > 0 {
            let j = choose|j: int|
                0 <= j < last && self.item_hits(p, #[trigger] items[j], j as usize).len() > 0;
            self.first_match(p, items, j)
        } else {
            last
        }
    }

    /// Every match among the files of a candidate bears the index of the
    /// candidate.
    pub proof fn lemma_file_hits_item(
        &self,
        p: PatternView,
        files: Seq<FileView>,
        item: usize,
        upto: int,
    )
        ensures
            forall|x: int|
                0 <= x < self.file_hits(p, files, item, upto).len() ==> (#[trigger] self.file_hits(
                    p,
                    files,
                    item,
                    upto,
                )[x]).item == item,
        decreases upto,
    {
        if upto > 0 {
            self.lemma_file_hits_item(p, files, item, upto - 1);
            let before = self.file_hits(p, files, item, upto - 1);
            let here = self.file_hits(p, files, item, upto);
            assert forall|x: int| 0 <= x < here.len() implies (#[trigger] here[x]).item == item by {
                if x < before.len() {
                    assert(here[x] == before[x]);
                }
            }
        }
    }

    /// The matches among the files of a candidate are the files that are
    /// candidates and whose names the pattern matches, each once, in the
    /// order of the files; each bears the index of the candidate.
    pub proof fn lemma_file_hits_are_matches(
        &self,
        p: PatternView,
        files: Seq<FileView>,
        item: usize,
        upto: int,
    )
        requires
            upto <= files.len() <= usize::MAX,
        ensures
            forall|x: int|
                0 <= x < self.file_hits(p, files, item, upto).len() ==> {
                    let hit = #[trigger] self.file_hits(p, files, item, upto)[x];
                    &&& hit.item == item
                    &&& hit.file < upto
                    &&& self.file_matches(p, files[hit.file as int])
                },
            forall|x: int, y: int|
                0 <= x < y < self.file_hits(p, files, item, upto).len() ==> (
                #[trigger] self.file_hits(p, files, item, upto)[x]).file < (
                #[trigger] self.file_hits(p, files, item, upto)[y]).file,
            forall|j: int|
                0 <= j < upto && self.file_matches(p, #[trigger] files[j]) ==> self.file_hits(
                    p,
                    files,
                    item,
                    upto,
                ).contains(
                    Hit { item, file: j as usize },
                ),
        decreases upto,
    {
        if upto > 0 {
            self.lemma_file_hits_are_matches(p, files, item, upto - 1);
            let before = self.file_hits(p, files, item, upto - 1);
            let here = self.file_hits(p, files, item, upto);
            assert forall|x: int| 0 <= x < here.len() implies {
                let hit = #[trigger] here[x];
                &&& hit.item == item
                &&& hit.file < upto
                &&& self.file_matches(p, files[hit.file as int])
            } by {
                if x < before.len() {
                    assert(here[x] == before[x]);
                }
            }
            assert forall|x: int, y: int| 0 <= x < y < here.len() implies (#[trigger] here[x]).file
                < (#[trigger] here[y]).file by {
                assert(here[x] == before[x]);
                if y < before.len() {
                    assert(here[y] == before[y]);
                }
            }
            assert forall|j: int|
                0 <= j < upto && self.file_matches(p, #[trigger] files[j]) implies here.contains(
                Hit { item, file: j as usize },
            ) by {
                if j < upto - 1 {
                    let x = choose|x: int|
                        0 <= x < before.len() && before[x] == (Hit { item, file: j as usize });
                    assert(here[x] == before[x]);
                } else {
                    assert(here[here.len() - 1] == (Hit { item, file: j as usize }));
                }
            }
        }
    }

    /// The matches among more candidates that stand behind those among the
    /// first `upto` belong to candidates from `upto` on.
    pub proof fn lemma_later_hits(
        &self,
        p: PatternView,
        items: Seq<CandidateView>,
        upto: int,
        more: int,
    )
        requires
            0 <= upto <= more <= usize::MAX,
        ensures
            forall|x: int|
                self.hits(p, items, upto).len() <= x < self.hits(p, items, more).len() ==> (
                #[trigger] self.hits(p, items, more)[x]).item >= upto,
        decreases more - upto,
    {
        if upto < more {
            self.lemma_later_hits(p, items, upto, more - 1);
            self.lemma_hits_grow(p, items, upto, more - 1);
            let mid = self.hits(p, items, more - 1);
            let last = self.item_hits(p, items[more - 1], (more - 1) as usize);
            if let CandidateView::Path { dir } = items[more - 1] {
                self.lemma_file_hits_item(
                    p,
                    dir.candidates(),
                    (more - 1) as usize,
                    dir.candidates().len() as int,
                );
            }
            assert forall|x: int|
                self.hits(p, items, upto).len() <= x < self.hits(p, items, more).len() implies (
            #[trigger] self.hits(p, items, more)[x]).item >= upto by {
                if x < mid.len() {
                    assert(self.hits(p, items, more)[x] == mid[x]);
                } else {
                    assert(self.hits(p, items, more)[x] == last[x - mid.len()]);
                }
            }
        }
    }

    /// The matches among the first candidates are the same wherever the
    /// first candidates are the same.
    pub proof fn lemma_hits_agree(
        &self,
        p: PatternView,
        a: Seq<CandidateView>,
        b: Seq<CandidateView>,
        upto: int,
    )
        requires
            forall|j: int| 0 <= j < upto ==> a[j] == b[j],
        ensures
            self.hits(p, a, upto) == self.hits(p, b, upto),
        decreases upto,
    {
        if upto > 0 {
            self.lemma_hits_agree(p, a, b, upto - 1);
        }
    }

    /// Where the search ends at the first match, what stands behind the
    /// candidate of that match makes no difference: the same is reported
    /// whatever candidates follow it, listed or not.
    pub proof fn lemma_report_looks_no_further(
        &self,
        p: PatternView,
        a: Seq<CandidateView>,
        b: Seq<CandidateView>,
    )
        requires
            self.stops_at_first(p),
            self.reported(p, a).len() > 0,
            a.len() <= usize::MAX,
            b.len() <= usize::MAX,
            self.reach(p, a) <= b.len(),
            forall|j: int| 0 <= j < self.reach(p, a) ==> a[j] == b[j],
        ensures
            self.reported(p, b) == self.reported(p, a),
    {
        let every = self.hits(p, a, a.len() as int);
        let k = every[0].item + 1;
        self.lemma_hit_bounds(p, a, a.len() as int);
        self.lemma_later_hits(p, a, k, a.len() as int);
        self.lemma_hits_grow(p, a, k, a.len() as int);
        let front = self.hits(p, a, k);
        assert(front.len() > 0);
        assert(every.take(front.len() as int)[0] == every[0]);
        self.lemma_hits_agree(p, a, b, k);
        self.lemma_hits_grow(p, b, k, b.len() as int);
        let other = self.hits(p, b, b.len() as int);
        assert(other.take(front.len() as int)[0] == other[0]);
        assert(other.take(1) =~= every.take(1));
    }

    /// Every match among the first `upto` candidates bears an index below
    /// `upto`.
    pub proof fn lemma_hit_bounds(&self, p: PatternView, items: Seq<CandidateView>, upto: int)
        requires
            0 <= upto <= usize::MAX,
        ensures
            forall|x: int|
                0 <= x < self.hits(p, items, upto).len() ==> (#[trigger] self.hits(
                    p,
                    items,
                    upto,
                )[x]).item < upto,
        decreases upto,
    {
        if upto > 0 {
            self.lemma_hit_bounds(p, items, upto - 1);
            let before = self.hits(p, items, upto - 1);
            let last = self.item_hits(p, items[upto - 1], (upto - 1) as usize);
            if let CandidateView::Path { dir } = items[upto - 1] {
                self.lemma_file_hits_item(
                    p,
                    dir.candidates(),
                    (upto - 1) as usize,
                    dir.candidates().len() as int,
                );
            }
            assert forall|x: int| 0 <= x < self.hits(p, items, upto).len() implies (
            #[trigger] self.hits(p, items, upto)[x]).item < upto by {
                if x < before.len() {
                    assert(self.hits(p, items, upto)[x] == before[x]);
                } else {
                    assert(self.hits(p, items, upto)[x] == last[x - before.len()]);
                }
            }
        }
    }

    /// Whether `hit` points at a candidate that the pattern matches: at an
    /// alias or a function whose kind is looked at and whose name the
    /// pattern matches, or at a file of a directory that is a candidate and
    /// whose name the pattern matches.
    pub open spec fn is_hit(&self, p: PatternView, items: Seq<CandidateView>, hit: Hit) -> bool {
        &&& hit.item < items.len()
        &&& match items[hit.item as int] {
            CandidateView::Alias { name, .. } => self.aliases && p.matches(name) && hit.file == 0,
            CandidateView::Function { name, .. } => {
                self.functions && p.matches(name) && hit.file == 0
            },
            CandidateView::Path { dir } => {
                &&& hit.file < dir.candidates().len()
                &&& self.file_matches(p, dir.candidates()[hit.file as int])
            },
        }
    }

    /// Every match among the first candidates points at a candidate that
    /// the pattern matches.
    pub proof fn lemma_hits_are_matches(
        &self,
        p: PatternView,
        items: Seq<CandidateView>,
        upto: int,
    )
        requires
            0 <= upto <= items.len() <= usize::MAX,
            forall|j: int|
                0 <= j < items.len() ==> (#[trigger] items[j] matches CandidateView::Path { dir }
                    ==> dir.candidates().len() <= usize::MAX),
        ensures
            forall|x: int|
                0 <= x < self.hits(p, items, upto).len() ==> self.is_hit(
                    p,
                    items,
                    #[trigger] self.hits(p, items, upto)[x],
                ),
        decreases upto,
    {
        if upto > 0 {
            self.lemma_hits_are_matches(p, items, upto - 1);
            let before = self.hits(p, items, upto - 1);
            let last = self.item_hits(p, items[upto - 1], (upto - 1) as usize);
            if let CandidateView::Path { dir } = items[upto - 1] {
                self.lemma_file_hits_are_matches(
                    p,
                    dir.candidates(),
                    (upto - 1) as usize,
                    dir.candidates().len() as int,
                );
            }
            assert forall|x: int| 0 <= x < self.hits(p, items, upto).len() implies self.is_hit(
                p,
                items,
                #[trigger] self.hits(p, items, upto)[x],
            ) by {
                if x < before.len() {
                    assert(self.hits(p, items, upto)[x] == before[x]);
                } else {
                    assert(self.hits(p, items, upto)[x] == last[x - before.len()]);
                }
            }
        }
    }

    /// Whatever is reported points at a candidate that the pattern matches.
    pub proof fn lemma_reported_are_matches(&self, p: PatternView, items: Seq<CandidateView>)
        requires
            items.len() <= usize::MAX,
            forall|j: int|
                0 <= j < items.len() ==> (#[trigger] items[j] matches CandidateView::Path { dir }
                    ==> dir.candidates().len() <= usize::MAX),
        ensures
            forall|x: int|
                0 <= x < self.reported(p, items).len() ==> self.is_hit(
                    p,
                    items,
                    #[trigger] self.reported(p, items)[x],
                ),
    {
        self.lemma_hits_are_matches(p, items, items.len() as int);
        let every = self.hits(p, items, items.len() as int);
        assert forall|x: int| 0 <= x < self.reported(p, items).len() implies self.is_hit(
            p,
            items,
            #[trigger] self.reported(p, items)[x],
        ) by {
            assert(self.reported(p, items)[x] == every[x]);
        }
    }

    /// Tells whether a file is one that a pattern may match.
    pub fn admits_file(&self, file: &File) -> (b: bool)
        ensures
            b == self.admits(file@),
    {
        match self.extensions {
            None => file.executable,
            Some(list) => {
                let name = to_chars(file.name.as_str());
                match extension_start(&name) {
                    None => false,
                    Some(start) => {
                        let ext = part(&name, start, name.len());
                        listed(&ext, list)
                    },
                }
            },
        }
    }

    /// Tells whether a file is a match.
    pub fn matches_file(&self, pattern: &CompiledPattern, file: &File) -> (b: bool)
        ensures
            b == self.file_matches(pattern@, file@),
    {
        match self.extensions {
            None => pattern.is_match(file.name.as_str()) && file.executable,
            Some(list) => {
                let token = to_chars(pattern.token());
                let name = to_chars(file.name.as_str());
                is_name_of(&token, &name, list, pattern.options().case_insensitive) || (
                pattern.is_wildcard() && pattern.is_match(file.name.as_str())
                    && self.admits_file(file))
            },
        }
    }

    /// Where files are told by their extension, a token finds the file
    /// named by the token, a dot and an extension exactly if the extension
    /// is one of the list, whatever the engine makes of the pattern. The
    /// token is not empty; the extension is not empty and holds no dot.
    pub proof fn lemma_listed_extension_is_found(
        &self,
        p: PatternView,
        ext: Seq<char>,
        file: FileView,
    )
        requires
            self.extensions is Some,
            p.token.len() > 0,
            ext.len() > 0,
            !ext.contains('.'),
            file.name == p.token + seq!['.'] + ext,
        ensures
            self.file_matches(p, file) == is_listed(ext, texts_of(self.extensions->0@)),
    {
        lemma_listed_extension_is_supplied(
            p.token,
            ext,
            texts_of(self.extensions->0@),
            p.options.case_insensitive,
        );
    }

    /// Where files are told by their extension, a file whose name is the
    /// token is found, whether or not it has an extension.
    pub proof fn lemma_own_name_is_found(&self, p: PatternView, file: FileView)
        requires
            self.extensions is Some,
            file.name == p.token,
        ensures
            self.file_matches(p, file),
    {
    }

    /// Where files are told by their extension, a token that is no
    /// wildcard pattern finds the files that it names, and no others: their
    /// names are compared with the token, whole or without an extension of
    /// the list, and the engine is not asked.
    pub proof fn lemma_plain_token_is_compared(&self, p: PatternView, file: FileView)
        requires
            self.extensions is Some,
            !p.is_wildcard,
        ensures
            self.file_matches(p, file) == names_token(
                p.token,
                file.name,
                texts_of(self.extensions->0@),
                p.options.case_insensitive,
            ),
    {
    }

    /// How far a search gets. With `lazy`, the search halts at a directory
    /// that is not listed yet; without, such a directory holds no files.
    fn walk(&self, pattern: &CompiledPattern, items: &Vec<Candidate<'_>>, lazy: bool) -> (r: Step)
        ensures
            match r {
                Step::Done(hits) => {
                    &&& hits@ == self.reported(pattern@, candidates_of(items@))
                    &&& lazy ==> forall|j: int|
                        0 <= j < self.reach(pattern@, candidates_of(items@)) ==> !is_unlisted(
                            #[trigger] candidates_of(items@)[j],
                        )
                },
                Step::List(item) => {
                    &&& lazy
                    &&& item < items.len()
                    &&& is_unlisted(candidates_of(items@)[item as int])
                    &&& forall|j: int|
                        0 <= j < item ==> !is_unlisted(#[trigger] candidates_of(items@)[j])
                    &&& self.stops_at_first(pattern@) ==> self.hits(
                        pattern@,
                        candidates_of(items@),
                        item as int,
                    ).len() == 0
                },
            },
    {
        let exclusive = !self.all && !pattern.is_wildcard();
        let ghost p = pattern@;
        let ghost views = candidates_of(items@);
        let mut found: Vec<Hit> = Vec::new();
        let mut i: usize = 0;
        while i < items.len()
            invariant
                i <= items.len(),
                p == pattern@,
                views == candidates_of(items@),
                exclusive == self.stops_at_first(p),
                found@ == self.hits(p, views, i as int),
                exclusive ==> found.len() == 0,
                lazy ==> forall|j: int| 0 <= j < i ==> !is_unlisted(#[trigger] views[j]),
            decreases items.len() - i,
        {
            let ghost before = found@;
            match &items[i] {
                Candidate::Alias(a) => {
                    if self.aliases && pattern.is_match(a.lhs) {
                        found.push(Hit { item: i, file: 0 });
                        assert(found@ =~= before + seq![Hit { item: i, file: 0 }]);
                    } else {
                        assert(found@ =~= before + Seq::<Hit>::empty());
                    }
                },
                Candidate::Function(f) => {
                    if self.functions && pattern.is_match(f.name) {
                        found.push(Hit { item: i, file: 0 });
                        assert(found@ =~= before + seq![Hit { item: i, file: 0 }]);
                    } else {
                        assert(found@ =~= before + Seq::<Hit>::empty());
                    }
                },
                Candidate::Path(dir) => {
                    if lazy && !dir.is_listed() {
                        return Step::List(i);
                    }
                    let files = dir.get();
                    let ghost fv = dir@.candidates();
                    let mut j: usize = 0;
                    assert(found@ =~= before + self.file_hits(p, fv, i, 0));
                    while j < files.len()
                        invariant
                            j <= files.len(),
                            i < items.len(),
                            p == pattern@,
                            fv == dir@.candidates(),
                            fv == files_of(files@),
                            views == candidates_of(items@),
                            views[i as int] == (CandidateView::Path { dir: dir@ }),
                            lazy ==> !is_unlisted(views[i as int]),
                            lazy ==> forall|j: int|
                                0 <= j < i ==> !is_unlisted(#[trigger] views[j]),
                            exclusive == self.stops_at_first(p),
                            before == self.hits(p, views, i as int),
                            found@ == before + self.file_hits(p, fv, i, j as int),
                            exclusive ==> found.len() == 0,
                        decreases files.len() - j,
                    {
                        if self.matches_file(pattern, &files[j]) {
                            found.push(Hit { item: i, file: j });
                            assert(found@ =~= before + self.file_hits(p, fv, i, j + 1));
                            if exclusive {
                                proof {
                                    self.lemma_file_hits_grow(p, fv, i, j + 1, fv.len() as int);
                                    self.lemma_hits_grow(p, views, i + 1, views.len() as int);
                                    let every = self.hits(p, views, views.len() as int);
                                    let here = self.hits(p, views, i + 1);
                                    assert(here.len() >= 1);
                                    assert(here[0] == found@[0]);
                                    assert(every.take(here.len() as int)[0] == every[0]);
                                    assert(every.take(1) =~= found@);
                                }
                                return Step::Done(found);
                            }
                        }
                        j = j + 1;
                    }
                },
            }
            if exclusive && found.len() > 0 {
                proof {
                    self.lemma_hits_grow(p, views, i + 1, views.len() as int);
                    let every = self.hits(p, views, views.len() as int);
                    let here = self.hits(p, views, i + 1);
                    assert(here =~= found@);
                    assert(every.take(here.len() as int)[0] == every[0]);
                    assert(every.take(1) =~= found@);
                }
                return Step::Done(found);
            }
            i = i + 1;
        }
        Step::Done(found)
    }

    /// Searches the candidates for what the pattern matches and returns
    /// what is to be reported, in the order of the candidates. A directory
    /// that is not listed holds no files.
    pub fn scan(&self, pattern: &CompiledPattern, items: &Vec<Candidate<'_>>) -> (r: Vec<Hit>)
        ensures
            r@ == self.reported(pattern@, candidates_of(items@)),
    {
        match self.walk(pattern, items, false) {
            Step::Done(hits) => hits,
            Step::List(_) => Vec::new(),
        }
    }

    /// Whether `step` is how far the search has come among the candidates
    /// as far as they are listed. Either it asks for the listing of the
    /// first directory that is not listed, which the search has come to
    /// without ending; or it holds what is to be reported, and every
    /// directory up to where the search ended is listed.
    pub open spec fn is_step(&self, p: PatternView, items: Seq<CandidateView>, step: Step) -> bool {
        match step {
            Step::Done(hits) => {
                &&& hits@ == self.reported(p, items)
                &&& forall|j: int|
                    0 <= j < self.reach(p, items) ==> !is_unlisted(#[trigger] items[j])
            },
            Step::List(item) => {
                &&& item < items.len()
                &&& is_unlisted(items[item as int])
                &&& forall|j: int| 0 <= j < item ==> !is_unlisted(#[trigger] items[j])
                &&& self.stops_at_first(p) ==> self.hits(p, items, item as int).len() == 0
            },
        }
    }

    /// Searches the candidates as far as their directories are listed.
    /// Where the search comes to a directory that is not listed, it asks
    /// for its listing: once the directory was listed the search is made
    /// again. Else it returns what is to be reported; the directories up to
    /// where the search ended are then all listed, and those behind it were
    /// not needed.
    pub fn scan_listed(&self, pattern: &CompiledPattern, items: &Vec<Candidate<'_>>) -> (r: Step)
        ensures
            self.is_step(pattern@, candidates_of(items@), r),
    {
        self.walk(pattern, items, true)
    }
}

/// What a run found: for each token, in the order of the tokens, its
/// matches, and how many tokens have none.
#[derive(Debug)]
pub struct Outcome {
    pub found: Vec<Vec<Hit>>,
    pub not_found: usize,
}

/// A token that could not be compiled, and why.
#[derive(Debug)]
pub struct Failure {
    pub token: usize,
    pub error: PatternError,
}

/// How many of the first `upto` tokens have no match.
pub open spec fn misses(found: Seq<Vec<Hit>>, upto: int) -> nat
    decreases upto,
{
    if upto <= 0 {
        0
    } else {
        misses(found, upto - 1) + if found[upto - 1].len() == 0 {
            1nat
        } else {
            0nat
        }
    }
}

/// The misses among the first tokens depend only on which of them have no
/// match.
pub proof fn lemma_misses_keep(a: Seq<Vec<Hit>>, b: Seq<Vec<Hit>>, upto: int)
    requires
        0 <= upto <= a.len(),
        upto <= b.len(),
        forall|i: int| 0 <= i < upto ==> (#[trigger] a[i]).len() == b[i].len(),
    ensures
        misses(a, upto) == misses(b, upto),
    decreases upto,
{
    if upto > 0 {
        lemma_misses_keep(a, b, upto - 1);
        assert(a[upto - 1].len() == b[upto - 1].len());
    }
}

/// Counts the tokens that have no match.
pub fn count_misses(found: &Vec<Vec<Hit>>) -> (n: usize)
    ensures
        n == misses(found@, found.len() as int),
{
    let mut n: usize = 0;
    let mut t: usize = 0;
    while t < found.len()
        invariant
            t <= found.len(),
            n <= t,
            n == misses(found@, t as int),
        decreases found.len() - t,
    {
        if found[t].len() == 0 {
            n = n + 1;
        }
        t = t + 1;
    }
    n
}

} // verus!
