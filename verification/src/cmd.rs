//! Matching the entries of a walk against several arguments at once: by
//! name and extension for a plain argument, by the glob engine for a
//! pattern.

use vstd::prelude::*;
use vstd::string::*;
use crate::matcher::{tallies_of, MatchState, Matcher, MatcherView, Tally};
use crate::path_entry::FileKind;
use crate::pattern::{
    compile, compiled, compiled_pattern, escaped, has_wildcard, holds_wildcard, within_limits,
    Compiled, GlobOptions, PatternError, PatternView,
};
use crate::names::{
    is_listed, is_name_of, lemma_listed_extension_is_supplied, names_token, texts_of,
};
use crate::text::{same_chars, same_text, to_chars};

verus! {

/// Which kinds of entries are looked at.
#[derive(Clone, Copy, Debug, PartialEq, Eq, Structural)]
pub enum FileType {
    /// Every entry.
    Any,
    /// Files only.
    File,
    /// Directories only.
    Directory,
}

/// An entry that the walk came upon.
#[derive(Debug)]
pub struct Entry {
    /// The path of the entry.
    pub path: String,
    /// The name of the entry: the last component of its path.
    pub name: String,
    /// The kind of the entry.
    pub kind: FileKind,
}

/// The settings of a walk.
#[derive(Debug)]
pub struct Cmd {
    /// The arguments to look for.
    pub args: Vec<String>,
    /// No argument is read as a pattern.
    pub exact: bool,
    /// Capitals and small letters differ.
    pub respect_case: bool,
    /// A name is compared whole: no extension is supplied.
    pub no_auto_ext: bool,
    /// Which kinds of entries are looked at.
    pub file_type: FileType,
    /// The extensions that may be left out of an argument, without their dots.
    pub pathext: Vec<String>,
    /// How many matches are wanted for each argument; 0 for all.
    pub n: usize,
    /// Whether a backslash in a pattern escapes the character after it.
    pub backslash_escape: bool,
    /// Whether hidden entries are passed over.
    pub hidden: bool,
    /// How deep the walk goes, if it is bounded.
    pub depth: Option<usize>,
    /// Whether errors of the walk are kept quiet.
    pub quiet: bool,
}

impl FileType {
    /// Whether an entry of kind `kind` is looked at.
    pub open spec fn admits(self, kind: FileKind) -> bool {
        match self {
            FileType::Any => true,
            FileType::File => kind == FileKind::File,
            FileType::Directory => kind == FileKind::Directory,
        }
    }

    /// Tells whether the entry is of a kind that is looked at.
    pub fn is_match(self, e: &Entry) -> (b: bool)
        ensures
            b == self.admits(e.kind),
    {
        match self {
            FileType::Any => true,
            FileType::File => e.kind == FileKind::File,
            FileType::Directory => e.kind == FileKind::Directory,
        }
    }
}

/// Whether an argument is a pattern: it holds a wildcard character, `*`,
/// `?`, `[` or `{`.
pub open spec fn is_pattern(s: Seq<char>) -> bool {
    has_wildcard(s)
}

/// Tells whether an argument is a pattern: it holds a wildcard character,
/// `*`, `?`, `[` or `{`.
pub fn is_glob(s: &str) -> (b: bool)
    ensures
        b == is_pattern(s@),
{
    holds_wildcard(s)
}

impl Cmd {
    /// Whether a name is compared whole with an argument: no extension is
    /// supplied, only directories are looked for, or the entry is a
    /// directory.
    pub open spec fn compares_whole(&self, kind: FileKind) -> bool {
        self.no_auto_ext || self.file_type == FileType::Directory || kind == FileKind::Directory
    }

    /// Whether the plain argument `s` matches an entry with the name `name`
    /// and the kind `kind`. The name is the argument, under the case rule;
    /// or, unless names are compared whole, the name without its extension
    /// is the argument and the extension, if the name has one, is one of
    /// those that may be left out.
    pub open spec fn name_matches(&self, s: Seq<char>, name: Seq<char>, kind: FileKind) -> bool {
        if self.compares_whole(kind) {
            same_text(name, s, !self.respect_case)
        } else {
            names_token(s, name, texts_of(self.pathext@), !self.respect_case)
        }
    }

    /// Whether a matcher matches an entry with the name `name` and the kind
    /// `kind`.
    pub open spec fn entry_matches(&self, m: MatcherView, name: Seq<char>, kind: FileKind) -> bool {
        match m {
            MatcherView::Str(s) => self.name_matches(s, name, kind),
            MatcherView::Glob(p) => p.matches(name),
        }
    }

    /// Tells whether the plain argument `s` matches the entry.
    pub fn matches_str(&self, s: &str, e: &Entry) -> (b: bool)
        ensures
            b == self.name_matches(s@, e.name@, e.kind),
    {
        let name = to_chars(e.name.as_str());
        let arg = to_chars(s);
        let fold = !self.respect_case;
        if self.no_auto_ext || self.file_type == FileType::Directory || e.kind
            == FileKind::Directory {
            same_chars(&name, &arg, fold)
        } else {
            is_name_of(&arg, &name, &self.pathext, fold)
        }
    }

    /// Tells whether a matcher matches the entry.
    pub fn matches(&self, m: &Matcher<'_>, e: &Entry) -> (b: bool)
        ensures
            b == self.entry_matches(m@, e.name@, e.kind),
    {
        match m {
            Matcher::Str(s) => self.matches_str(s, e),
            Matcher::Glob(g) => g.is_match(e.name.as_str()),
        }
    }

    /// How the engine reads the patterns of this walk: the case rule of the
    /// walk, and no wildcard matches `/`.
    pub open spec fn glob_options(&self) -> GlobOptions {
        GlobOptions {
            case_insensitive: !self.respect_case,
            literal_separator: true,
            backslash_escape: self.backslash_escape,
        }
    }

    /// Whether the argument `s` is compared as it stands: every argument is,
    /// where none is read as a pattern, and so is one that is no pattern.
    pub open spec fn is_plain(&self, s: Seq<char>) -> bool {
        self.exact || !is_pattern(s)
    }

    /// The pattern of the argument `s`, if it has one: the argument compiled
    /// as the walk reads patterns.
    pub open spec fn pattern_of(&self, s: Seq<char>) -> Option<PatternView> {
        compiled_pattern(s, Seq::empty(), self.glob_options())
    }

    /// The matcher for one argument. An argument that is compared as it
    /// stands needs no engine. A pattern is compiled: one that the engine
    /// rejects is escaped and then matches as plain text, so that the only
    /// error is that of a pattern too large for the engine.
    pub fn matcher<'a>(&self, s: &'a str) -> (r: Result<Matcher<'a>, PatternError>)
        ensures
            match r {
                Ok(m) => if self.is_plain(s@) {
                    m@ == MatcherView::Str(s@)
                } else {
                    self.pattern_of(s@) matches Some(p) && m@ == MatcherView::Glob(p)
                },
                Err(e) => !self.is_plain(s@) && match compiled(
                    s@,
                    Seq::empty(),
                    self.glob_options(),
                ) {
                    Compiled::TooLarge => e is TooLarge,
                    Compiled::Rejected => e is Rejected,
                    _ => false,
                },
            },
            within_limits(s@) && within_limits(escaped(s@)) ==> r is Ok,
    {
        if self.exact || !is_glob(s) {
            Ok(Matcher::Str(s))
        } else {
            let options = GlobOptions {
                case_insensitive: !self.respect_case,
                literal_separator: true,
                backslash_escape: self.backslash_escape,
            };
            proof {
                reveal_strlit("");
                assert(""@ =~= Seq::<char>::empty());
            }
            match compile(s, "", options) {
                Ok(p) => Ok(Matcher::Glob(p)),
                Err(e) => Err(e),
            }
        }
    }
}

/// What became of an entry of the walk.
#[derive(Clone, Copy, Debug)]
pub struct Visit {
    /// An argument matched the entry: the entry is reported.
    pub matched: bool,
    /// Every argument has as many matches as were wanted: the walk ends.
    pub done: bool,
}

/// What a walk found.
#[derive(Debug)]
pub struct Walk {
    /// The entries that are reported, by their indices, in the order of the
    /// walk.
    pub reported: Vec<usize>,
    /// The arguments that matched no entry, by their indices.
    pub missing: Vec<usize>,
}

/// The count after one more match. It stays where it cannot grow.
pub open spec fn bumped(count: usize) -> usize {
    if count < usize::MAX {
        (count + 1) as usize
    } else {
        count
    }
}

/// The sum of the counts of the tallies.
pub open spec fn total(tallies: Seq<Tally>) -> nat
    decreases tallies.len(),
{
    if tallies.len() == 0 {
        0
    } else {
        total(tallies.drop_last()) + tallies.last().count as nat
    }
}

/// The tallies among the first `upto` that count no match, by their indices.
pub open spec fn unmatched(tallies: Seq<Tally>, upto: int) -> Seq<usize>
    decreases upto,
{
    if upto <= 0 {
        Seq::empty()
    } else if tallies[upto - 1].count == 0 {
        unmatched(tallies, upto - 1).push((upto - 1) as usize)
    } else {
        unmatched(tallies, upto - 1)
    }
}

/// How far a walk has come: the tallies, the entries that were reported,
/// and whether the walk has ended.
pub struct Walked {
    pub tallies: Seq<Tally>,
    pub reported: Seq<usize>,
    pub done: bool,
}

/// The views of a sequence of entries: of each its name and its kind.
pub open spec fn entries_of(entries: Seq<Entry>) -> Seq<(Seq<char>, FileKind)> {
    Seq::new(entries.len(), |i: int| (entries[i].name@, entries[i].kind))
}

impl Cmd {
    /// Whether a matcher that has matched `count` times still takes
    /// matches: all are wanted, or fewer were found than are wanted.
    pub open spec fn wants(&self, count: usize) -> bool {
        self.n == 0 || count < self.n
    }

    /// Whether the tally takes the entry with the name `name` and the kind
    /// `kind` as a match.
    pub open spec fn takes(&self, tally: Tally, name: Seq<char>, kind: FileKind) -> bool {
        self.wants(tally.count) && self.entry_matches(tally.matcher, name, kind)
    }

    /// Whether one of the tallies takes the entry.
    pub open spec fn any_takes(
        &self,
        tallies: Seq<Tally>,
        name: Seq<char>,
        kind: FileKind,
    ) -> bool {
        exists|i: int| 0 <= i < tallies.len() && self.takes(#[trigger] tallies[i], name, kind)
    }

    /// The tallies after the entry was held against them: each that takes
    /// it counts one match more.
    pub open spec fn visited(&self, tallies: Seq<Tally>, name: Seq<char>, kind: FileKind) -> Seq<
        Tally,
    > {
        Seq::new(
            tallies.len(),
            |i: int|
                if self.takes(tallies[i], name, kind) {
                    Tally { matcher: tallies[i].matcher, count: bumped(tallies[i].count) }
                } else {
                    tallies[i]
                },
        )
    }

    /// Whether the walk ends with these tallies: a number of matches is
    /// wanted, and as many were found in all as all arguments together want.
    pub open spec fn is_done(&self, tallies: Seq<Tally>) -> bool {
        self.n != 0 && total(tallies) >= self.n * self.args.len()
    }

    /// Whether the argument `s` gets a matcher: it is compared as it stands,
    /// or it has a pattern.
    pub open spec fn is_matchable(&self, s: Seq<char>) -> bool {
        self.is_plain(s) || self.pattern_of(s) is Some
    }

    /// The matcher of the argument `s`.
    pub open spec fn matcher_of(&self, s: Seq<char>) -> MatcherView {
        if self.is_plain(s) {
            MatcherView::Str(s)
        } else {
            MatcherView::Glob(self.pattern_of(s)->0)
        }
    }

    /// The tallies at the start of a walk: for each argument its matcher,
    /// which has not matched yet.
    pub open spec fn started(&self) -> Seq<Tally> {
        Seq::new(
            self.args.len() as nat,
            |i: int| Tally { matcher: self.matcher_of(self.args[i]@), count: 0 },
        )
    }

    /// Whether the argument with the index `i` is the first that gets no
    /// matcher.
    pub open spec fn fails_at(&self, i: int) -> bool {
        &&& 0 <= i < self.args.len()
        &&& !self.is_matchable(self.args[i]@)
        &&& forall|j: int| 0 <= j < i ==> self.is_matchable(#[trigger] self.args[j]@)
    }

    /// How far a walk that began with the tallies `start` has come after
    /// the first `upto` entries. An entry counts if the walk has not ended
    /// and the entry is of a kind that is looked at; it is reported if a
    /// matcher takes it, and the walk ends with it if every argument then
    /// has as many matches as were wanted.
    pub open spec fn walked(
        &self,
        start: Seq<Tally>,
        entries: Seq<(Seq<char>, FileKind)>,
        upto: int,
    ) -> Walked
        decreases upto,
    {
        if upto <= 0 {
            Walked { tallies: start, reported: Seq::empty(), done: false }
        } else {
            let before = self.walked(start, entries, upto - 1);
            let (name, kind) = entries[upto - 1];
            if before.done || !self.file_type.admits(kind) || !self.any_takes(
                before.tallies,
                name,
                kind,
            ) {
                before
            } else {
                let tallies = self.visited(before.tallies, name, kind);
                Walked {
                    tallies,
                    reported: before.reported.push((upto - 1) as usize),
                    done: self.is_done(tallies),
                }
            }
        }
    }

    /// The matchers for the arguments, in their order, none of which has
    /// matched yet; or the error of the first argument that gets no matcher.
    pub fn compile<'a>(&'a self) -> (r: Result<Vec<MatchState<'a>>, PatternError>)
        ensures
            match r {
                Ok(states) => {
                    &&& tallies_of(states@) == self.started()
                    &&& forall|i: int|
                        0 <= i < self.args.len() ==> self.is_matchable(#[trigger] self.args[i]@)
                },
                Err(e) => exists|i: int|
                    {
                        &&& #[trigger] self.fails_at(i)
                        &&& e is TooLarge <==> compiled(
                            self.args[i]@,
                            Seq::empty(),
                            self.glob_options(),
                        ) is TooLarge
                    },
            },
            (forall|i: int|
                0 <= i < self.args.len() ==> within_limits(#[trigger] self.args[i]@)
                    && within_limits(escaped(self.args[i]@))) ==> r is Ok,
    {
        let mut states: Vec<MatchState<'a>> = Vec::new();
        let mut i: usize = 0;
        while i < self.args.len()
            invariant
                i <= self.args.len(),
                states.len() == i,
                forall|k: int|
                    0 <= k < i ==> (#[trigger] states[k])@ == (Tally {
                        matcher: self.matcher_of(self.args[k]@),
                        count: 0,
                    }),
                forall|k: int| 0 <= k < i ==> self.is_matchable(#[trigger] self.args[k]@),
            decreases self.args.len() - i,
        {
            match self.matcher(self.args[i].as_str()) {
                Ok(matcher) => {
                    states.push(MatchState { matcher, count: 0 });
                },
                Err(e) => {
                    assert(self.fails_at(i as int));
                    return Err(e);
                },
            }
            i = i + 1;
        }
        assert(tallies_of(states@) =~= self.started());
        Ok(states)
    }

    /// Holds one entry of the walk against every matcher that still takes
    /// matches, and counts one match more for each that matches it.
    pub fn visit(&self, states: &mut Vec<MatchState<'_>>, e: &Entry) -> (v: Visit)
        ensures
            tallies_of(final(states)@) == self.visited(tallies_of(old(states)@), e.name@, e.kind),
            v.matched == self.any_takes(tallies_of(old(states)@), e.name@, e.kind),
            v.done == (v.matched && self.is_done(tallies_of(final(states)@))),
    {
        let ghost start = tallies_of(states@);
        let mut matched = false;
        let mut sum: u128 = 0;
        let mut i: usize = 0;
        assert(tallies_of(states@).take(0) =~= Seq::<Tally>::empty());
        while i < states.len()
            invariant
                i <= states.len(),
                states.len() == start.len(),
                forall|k: int|
                    0 <= k < i ==> (#[trigger] states[k])@ == self.visited(
                        start,
                        e.name@,
                        e.kind,
                    )[k],
                forall|k: int| i <= k < states.len() ==> (#[trigger] states[k])@ == start[k],
                matched == exists|k: int|
                    0 <= k < i && self.takes(#[trigger] start[k], e.name@, e.kind),
                sum == total(tallies_of(states@).take(i as int)),
                sum <= i * usize::MAX,
            decreases states.len() - i,
        {
            let ghost before = tallies_of(states@);
            let count = states[i].count;
            assert(states[i as int]@ == start[i as int]);
            let takes = (self.n == 0 || count < self.n) && self.matches(&states[i].matcher, e);
            if takes {
                matched = true;
                if count < usize::MAX {
                    states[i].count = count + 1;
                }
            }
            assert(tallies_of(states@).take(i as int) =~= before.take(i as int));
            assert(tallies_of(states@).take(i + 1).drop_last() =~= tallies_of(states@).take(
                i as int,
            ));
            assert(i * usize::MAX + usize::MAX == (i + 1) * usize::MAX) by (nonlinear_arith);
            assert(i * usize::MAX + usize::MAX <= usize::MAX * usize::MAX) by (nonlinear_arith)
                requires
                    i < usize::MAX,
            ;
            sum = sum + states[i].count as u128;
            i = i + 1;
        }
        assert(tallies_of(states@).take(states.len() as int) =~= tallies_of(states@));
        assert(tallies_of(states@) =~= self.visited(start, e.name@, e.kind));
        let done = if matched && self.n != 0 {
            assert(self.n * self.args.len() <= usize::MAX * usize::MAX) by (nonlinear_arith)
                requires
                    self.n <= usize::MAX,
                    self.args.len() <= usize::MAX,
            ;
            sum >= self.n as u128 * self.args.len() as u128
        } else {
            false
        };
        Visit { matched, done }
    }

    /// Walks over the entries in their order: every entry of a kind that is
    /// looked at is held against the matchers of the arguments, and is
    /// reported if one takes it; the walk ends early once every argument
    /// has as many matches as were wanted. The arguments that matched
    /// nothing are told at the end. A pattern that the engine does not
    /// accept is an error, and nothing is walked.
    pub fn run(&self, entries: &Vec<Entry>) -> (r: Result<Walk, PatternError>)
        ensures
            match r {
                Ok(w) => {
                    let end = self.walked(
                        self.started(),
                        entries_of(entries@),
                        entries.len() as int,
                    );
                    &&& w.reported@ == end.reported
                    &&& w.missing@ == unmatched(end.tallies, self.args.len() as int)
                    &&& forall|i: int|
                        0 <= i < self.args.len() ==> self.is_matchable(#[trigger] self.args[i]@)
                },
                Err(e) => exists|i: int|
                    {
                        &&& #[trigger] self.fails_at(i)
                        &&& e is TooLarge <==> compiled(
                            self.args[i]@,
                            Seq::empty(),
                            self.glob_options(),
                        ) is TooLarge
                    },
            },
            (forall|i: int|
                0 <= i < self.args.len() ==> within_limits(#[trigger] self.args[i]@)
                    && within_limits(escaped(self.args[i]@))) ==> r is Ok,
    {
        let mut states = match self.compile() {
            Ok(states) => states,
            Err(e) => {
                return Err(e);
            },
        };
        let ghost start = self.started();
        let ghost views = entries_of(entries@);
        assert(tallies_of(states@).len() == states.len());
        let mut reported: Vec<usize> = Vec::new();
        let mut done = false;
        let mut k: usize = 0;
        while k < entries.len() && !done
            invariant
                k <= entries.len(),
                start == self.started(),
                views == entries_of(entries@),
                states.len() == self.args.len(),
                tallies_of(states@) == self.walked(start, views, k as int).tallies,
                reported@ == self.walked(start, views, k as int).reported,
                done == self.walked(start, views, k as int).done,
            decreases entries.len() - k,
        {
            let e = &entries[k];
            assert(views[k as int] == (e.name@, e.kind));
            if self.file_type.is_match(e) {
                let v = self.visit(&mut states, e);
                assert(tallies_of(states@).len() == states.len());
                if v.matched {
                    reported.push(k);
                    done = v.done;
                } else {
                    assert(tallies_of(states@) =~= self.walked(start, views, k as int).tallies);
                }
            }
            k = k + 1;
        }
        proof {
            self.lemma_walk_stays_ended(start, views, k as int, entries.len() as int);
        }
        let ghost end = tallies_of(states@);
        let mut missing: Vec<usize> = Vec::new();
        let mut i: usize = 0;
        while i < states.len()
            invariant
                i <= states.len(),
                states.len() == self.args.len(),
                end == tallies_of(states@),
                missing@ == unmatched(end, i as int),
            decreases states.len() - i,
        {
            assert(end[i as int] == states[i as int]@);
            if states[i].count == 0 {
                missing.push(i);
            }
            i = i + 1;
        }
        Ok(Walk { reported, missing })
    }

    /// A walk that has ended stays as it is whatever entries follow.
    pub proof fn lemma_walk_stays_ended(
        &self,
        start: Seq<Tally>,
        entries: Seq<(Seq<char>, FileKind)>,
        upto: int,
        more: int,
    )
        requires
            0 <= upto <= more,
            self.walked(start, entries, upto).done || upto == more,
        ensures
            self.walked(start, entries, more) == self.walked(start, entries, upto),
        decreases more - upto,
    {
        if upto < more {
            self.lemma_walk_stays_ended(start, entries, upto, more - 1);
        }
    }
}

/// An extension that may be left out is supplied. Unless names are compared
/// whole, an argument matches the name made of the argument, a dot and an
/// extension exactly if the extension is one of those that may be left out,
/// capitals and small letters of ASCII taken as one. The argument is not
/// empty; the extension is not empty and holds no dot.
pub proof fn lemma_extension_is_supplied(cmd: Cmd, s: Seq<char>, ext: Seq<char>, kind: FileKind)
    requires
        !cmd.compares_whole(kind),
        s.len() > 0,
        ext.len() > 0,
        !ext.contains('.'),
    ensures
        cmd.name_matches(s, s + seq!['.'] + ext, kind) == is_listed(ext, texts_of(cmd.pathext@)),
{
    lemma_listed_extension_is_supplied(s, ext, texts_of(cmd.pathext@), !cmd.respect_case);
}

} // verus!
