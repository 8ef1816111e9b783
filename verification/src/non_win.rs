//! The search where files are told by their executable bit, and where the
//! aliases and functions of a shell session can be candidates too.

use vstd::prelude::*;
use vstd::string::*;
use crate::app::App;
use crate::path_entry::PathEntry;
use crate::pattern::{
    compile, compiled, compiled_pattern, escaped, has_wildcard, within_limits, Compiled,
    CompiledPattern,
    GlobOptions, PatternError, PatternView,
};
use crate::search::{
    candidates_of, lemma_misses_keep, misses, Candidate, CandidateView, Failure, Hit, Outcome,
    Scope, Step,
};
use crate::shell::Item;

verus! {

/// The settings that only these platforms have.
#[derive(Clone, Copy, Debug)]
pub struct NonWindowsArgs {
    /// Accepted for the sake of GNU which; has no effect.
    pub tty_only: bool,
    /// Aliases are read from the standard input.
    pub read_alias: bool,
    /// `read_alias` is ignored.
    pub skip_alias: bool,
    /// Functions are read from the standard input.
    pub read_functions: bool,
    /// `read_functions` is ignored.
    pub skip_functions: bool,
}

impl NonWindowsArgs {
    /// Whether aliases are candidates.
    pub open spec fn aliases(&self) -> bool {
        self.read_alias && !self.skip_alias
    }

    /// Whether functions are candidates.
    pub open spec fn functions(&self) -> bool {
        self.read_functions && !self.skip_functions
    }

    /// Tells whether aliases are candidates.
    pub fn reads_aliases(&self) -> (b: bool)
        ensures
            b == self.aliases(),
    {
        self.read_alias && !self.skip_alias
    }

    /// Tells whether functions are candidates.
    pub fn reads_functions(&self) -> (b: bool)
        ensures
            b == self.functions(),
    {
        self.read_functions && !self.skip_functions
    }

    /// Tells whether a session is read from the standard input.
    pub fn reads_session(&self) -> (b: bool)
        ensures
            b == (self.aliases() || self.functions()),
    {
        self.reads_aliases() || self.reads_functions()
    }

    /// The options to name in the warning that the standard input is a
    /// terminal: those that ask for a session, or `None` where none does.
    pub fn terminal_warning(&self) -> (r: Option<&'static str>)
        ensures
            match r {
                Some(w) => w@ == if self.aliases() && self.functions() {
                    "--read-functions, --read-alias, -i"@
                } else if self.aliases() {
                    "--read-alias, -i"@
                } else {
                    "--read-functions"@
                } && (self.aliases() || self.functions()),
                None => !self.aliases() && !self.functions(),
            },
    {
        if self.reads_aliases() && self.reads_functions() {
            Some("--read-functions, --read-alias, -i")
        } else if self.reads_aliases() {
            Some("--read-alias, -i")
        } else if self.reads_functions() {
            Some("--read-functions")
        } else {
            None
        }
    }
}

/// How the engine reads a token here: capitals and small letters differ, a
/// wildcard matches any character, and a backslash escapes.
pub open spec fn glob_options() -> GlobOptions {
    GlobOptions { case_insensitive: false, literal_separator: false, backslash_escape: true }
}

/// Compiles a token into a matcher. A token without a wildcard character
/// matches as plain text, whatever else it holds; so does a token that the
/// engine rejects. A token within the limits always gets a matcher.
pub fn new_glob(s: &str) -> (r: Result<CompiledPattern, PatternError>)
    ensures
        match r {
            Ok(p) => compiled_pattern(s@, Seq::empty(), glob_options()) == Some(p@),
            Err(e) => match compiled(s@, Seq::empty(), glob_options()) {
                Compiled::TooLarge => e is TooLarge,
                Compiled::Rejected => e is Rejected,
                _ => false,
            },
        },
        within_limits(s@) && within_limits(escaped(s@)) ==> r is Ok,
        r matches Ok(p) ==> (!p@.is_wildcard ==> p@.literal() == Some(s@)),
        r matches Ok(p) ==> (!has_wildcard(s@) ==> !p@.is_wildcard),
{
    let options = GlobOptions {
        case_insensitive: false,
        literal_separator: false,
        backslash_escape: true,
    };
    proof {
        reveal_strlit("");
        assert(""@ =~= Seq::<char>::empty());
    }
    compile(s, "", options)
}

/// The aliases among the first `upto` items of a session, in their order.
pub open spec fn aliases_of(items: Seq<Item<'_>>, upto: int) -> Seq<CandidateView>
    decreases upto,
{
    if upto <= 0 {
        Seq::empty()
    } else {
        match items[upto - 1] {
            Item::Alias(a) => aliases_of(items, upto - 1).push(
                CandidateView::Alias { name: a.lhs@, value: a.rhs@ },
            ),
            Item::Function(_) => aliases_of(items, upto - 1),
        }
    }
}

/// The functions among the first `upto` items of a session, in their order.
pub open spec fn functions_of(items: Seq<Item<'_>>, upto: int) -> Seq<CandidateView>
    decreases upto,
{
    if upto <= 0 {
        Seq::empty()
    } else {
        match items[upto - 1] {
            Item::Alias(_) => functions_of(items, upto - 1),
            Item::Function(f) => functions_of(items, upto - 1).push(
                CandidateView::Function { name: f.name@, body: f.body@ },
            ),
        }
    }
}

/// The directories as candidates, in their order.
pub open spec fn paths_of(dirs: Seq<PathEntry>) -> Seq<CandidateView> {
    Seq::new(dirs.len(), |i: int| CandidateView::Path { dir: dirs[i]@ })
}

/// The candidates of a run, in the order in which a shell looks a name up:
/// the aliases of the session, then its functions, each kind in the order
/// of the session, then the directories of the search path.
pub fn candidates<'a>(session: &Vec<Item<'a>>, dirs: Vec<PathEntry>) -> (r: Vec<Candidate<'a>>)
    ensures
        candidates_of(r@) == aliases_of(session@, session.len() as int) + functions_of(
            session@,
            session.len() as int,
        ) + paths_of(dirs@),
{
    let mut r: Vec<Candidate<'a>> = Vec::new();
    let mut i: usize = 0;
    while i < session.len()
        invariant
            i <= session.len(),
            candidates_of(r@) == aliases_of(session@, i as int),
        decreases session.len() - i,
    {
        let ghost before = candidates_of(r@);
        match session[i] {
            Item::Alias(a) => {
                r.push(Candidate::Alias(a));
                assert(candidates_of(r@) =~= before.push(
                    CandidateView::Alias { name: a.lhs@, value: a.rhs@ },
                ));
            },
            Item::Function(_) => {},
        }
        i = i + 1;
    }
    let ghost first = candidates_of(r@);
    let mut j: usize = 0;
    assert(candidates_of(r@) =~= first + functions_of(session@, 0));
    while j < session.len()
        invariant
            j <= session.len(),
            candidates_of(r@) == first + functions_of(session@, j as int),
        decreases session.len() - j,
    {
        let ghost before = candidates_of(r@);
        match session[j] {
            Item::Alias(_) => {},
            Item::Function(f) => {
                r.push(Candidate::Function(f));
                assert(candidates_of(r@) =~= before.push(
                    CandidateView::Function { name: f.name@, body: f.body@ },
                ));
                assert(candidates_of(r@) =~= first + functions_of(session@, j + 1));
            },
        }
        j = j + 1;
    }
    let ghost second = candidates_of(r@);
    assert(candidates_of(r@) =~= second + paths_of(dirs@.take(0)));
    for dir in it: dirs
        invariant
            candidates_of(r@) == second + paths_of(it.seq().take(it.index() as int)),
    {
        let ghost before = candidates_of(r@);
        r.push(Candidate::Path(dir));
        assert(candidates_of(r@) =~= before.push(CandidateView::Path { dir: dir@ }));
        assert(candidates_of(r@) =~= second + paths_of(it.seq().take(it.index() + 1)));
    }
    r
}

impl App<NonWindowsArgs> {
    /// What the search of this run looks at: aliases and functions as the
    /// settings say, and files by their executable bit.
    pub open spec fn scope(&self) -> Scope<'static> {
        Scope {
            aliases: self.x.aliases(),
            functions: self.x.functions(),
            all: self.all,
            extensions: None,
        }
    }

    /// The pattern of a token, if it has one.
    pub open spec fn pattern_of(token: Seq<char>) -> Option<PatternView> {
        compiled_pattern(token, Seq::empty(), glob_options())
    }

    /// Whether `o` is what the run finds among the candidates `items`: for
    /// each token what the search with its pattern reports, and the number
    /// of tokens without a match.
    pub open spec fn is_outcome(&self, items: Seq<CandidateView>, o: Outcome) -> bool {
        &&& o.found.len() == self.commands.len()
        &&& forall|t: int|
            0 <= t < self.commands.len() ==> Self::pattern_of(#[trigger] self.commands[t]@) is Some
        &&& forall|t: int|
            0 <= t < self.commands.len() ==> (#[trigger] o.found[t])@ == self.scope().reported(
                Self::pattern_of(self.commands[t]@)->0,
                items,
            )
        &&& o.not_found == misses(o.found@, o.found.len() as int)
    }

    /// Whether `f` is how the run fails: at the first token that cannot be
    /// compiled, with the reason for which it cannot.
    pub open spec fn is_failure(&self, f: Failure) -> bool {
        &&& f.token < self.commands.len()
        &&& Self::pattern_of(self.commands[f.token as int]@) is None
        &&& f.error is TooLarge <==> compiled(
            self.commands[f.token as int]@,
            Seq::empty(),
            glob_options(),
        ) is TooLarge
        &&& forall|t: int|
            0 <= t < f.token ==> Self::pattern_of(#[trigger] self.commands[t]@) is Some
    }

    /// Whether `r` is how the run ends among the candidates `items`.
    pub open spec fn is_result(
        &self,
        items: Seq<CandidateView>,
        r: Result<Outcome, Failure>,
    ) -> bool {
        match r {
            Ok(o) => self.is_outcome(items, o),
            Err(f) => self.is_failure(f),
        }
    }

    /// Looks one token up among the candidates: its matches as they are to
    /// be reported, or why the token could not be compiled.
    pub fn look_up(&self, token: &str, items: &Vec<Candidate<'_>>) -> (r: Result<
        Vec<Hit>,
        PatternError,
    >)
        ensures
            match r {
                Ok(hits) => Self::pattern_of(token@) matches Some(p) && hits@
                    == self.scope().reported(p, candidates_of(items@)),
                Err(e) => Self::pattern_of(token@) is None && (e is TooLarge <==> compiled(
                    token@,
                    Seq::empty(),
                    glob_options(),
                ) is TooLarge),
            },
            within_limits(token@) && within_limits(escaped(token@)) ==> r is Ok,
    {
        let scope = Scope {
            aliases: self.x.reads_aliases(),
            functions: self.x.reads_functions(),
            all: self.all,
            extensions: None,
        };
        match new_glob(token) {
            Ok(pattern) => Ok(scope.scan(&pattern, items)),
            Err(e) => Err(e),
        }
    }

    /// Looks one token up among the candidates as far as their directories
    /// are listed: what is to be reported, or the directory to list before
    /// the token is looked up again; or why the token could not be
    /// compiled.
    pub fn look_up_listed(&self, token: &str, items: &Vec<Candidate<'_>>) -> (r: Result<
        Step,
        PatternError,
    >)
        ensures
            match r {
                Ok(step) => Self::pattern_of(token@) matches Some(p) && self.scope().is_step(
                    p,
                    candidates_of(items@),
                    step,
                ),
                Err(e) => Self::pattern_of(token@) is None && (e is TooLarge <==> compiled(
                    token@,
                    Seq::empty(),
                    glob_options(),
                ) is TooLarge),
            },
            within_limits(token@) && within_limits(escaped(token@)) ==> r is Ok,
    {
        let scope = Scope {
            aliases: self.x.reads_aliases(),
            functions: self.x.reads_functions(),
            all: self.all,
            extensions: None,
        };
        match new_glob(token) {
            Ok(pattern) => Ok(scope.scan_listed(&pattern, items)),
            Err(e) => Err(e),
        }
    }

    /// Looks every token up, in the order of the tokens, each on its own.
    /// The run fails at the first token that cannot be compiled.
    pub fn run(&self, items: &Vec<Candidate<'_>>) -> (r: Result<Outcome, Failure>)
        ensures
            self.is_result(candidates_of(items@), r),
            (forall|t: int|
                0 <= t < self.commands.len() ==> within_limits(#[trigger] self.commands[t]@)
                    && within_limits(escaped(self.commands[t]@))) ==> r is Ok,
    {
        let mut found: Vec<Vec<Hit>> = Vec::new();
        let mut not_found: usize = 0;
        let mut t: usize = 0;
        while t < self.commands.len()
            invariant
                t <= self.commands.len(),
                found.len() == t,
                not_found <= t,
                forall|u: int|
                    0 <= u < t ==> Self::pattern_of(#[trigger] self.commands[u]@) is Some,
                forall|u: int|
                    0 <= u < t ==> (#[trigger] found[u])@ == self.scope().reported(
                        Self::pattern_of(self.commands[u]@)->0,
                        candidates_of(items@),
                    ),
                not_found == misses(found@, t as int),
            decreases self.commands.len() - t,
        {
            match self.look_up(self.commands[t].as_str(), items) {
                Ok(hits) => {
                    let ghost before = found@;
                    if hits.len() == 0 {
                        not_found = not_found + 1;
                    }
                    found.push(hits);
                    proof {
                        lemma_misses_keep(before, found@, t as int);
                        assert forall|u: int| 0 <= u < t + 1 implies (#[trigger] found[u])@
                            == self.scope().reported(
                            Self::pattern_of(self.commands[u]@)->0,
                            candidates_of(items@),
                        ) by {
                            if u < t {
                                assert(found[u] == before[u]);
                            }
                        }
                    }
                },
                Err(error) => {
                    return Err(Failure { token: t, error });
                },
            }
            t = t + 1;
        }
        Ok(Outcome { found, not_found })
    }
}

/// A run over the same tokens and the same candidates ends the same way
/// each time: with the same matches in the same order and the same number
/// of tokens without a match, or at the same token for the same reason.
pub proof fn lemma_run_is_repeatable(
    app: App<NonWindowsArgs>,
    items: Seq<CandidateView>,
    first: Result<Outcome, Failure>,
    second: Result<Outcome, Failure>,
)
    requires
        app.is_result(items, first),
        app.is_result(items, second),
    ensures
        match (first, second) {
            (Ok(a), Ok(b)) => {
                &&& a.found.len() == b.found.len()
                &&& forall|t: int|
                    0 <= t < a.found.len() ==> (#[trigger] a.found[t])@ == b.found[t]@
                &&& a.not_found == b.not_found
            },
            (Err(f), Err(g)) => {
                &&& f.token == g.token
                &&& f.error is TooLarge <==> g.error is TooLarge
            },
            _ => false,
        },
{
    match (first, second) {
        (Ok(a), Ok(b)) => {
            assert forall|t: int| 0 <= t < a.found.len() implies (#[trigger] a.found[t])@
                == b.found[t]@ by {
                assert(b.found[t]@ == app.scope().reported(
                    App::<NonWindowsArgs>::pattern_of(app.commands[t]@)->0,
                    items,
                ));
            }
            assert forall|t: int| 0 <= t < a.found.len() implies (#[trigger] a.found@[t]).len()
                == b.found@[t].len() by {
                assert(a.found[t]@ == b.found[t]@);
            }
            lemma_misses_keep(a.found@, b.found@, a.found.len() as int);
        },
        (Err(f), Err(g)) => {
            if f.token < g.token {
                assert(App::<NonWindowsArgs>::pattern_of(app.commands[f.token as int]@) is Some);
            }
            if g.token < f.token {
                assert(App::<NonWindowsArgs>::pattern_of(app.commands[g.token as int]@) is Some);
            }
        },
        (Ok(a), Err(g)) => {
            assert(App::<NonWindowsArgs>::pattern_of(app.commands[g.token as int]@) is Some);
        },
        (Err(f), Ok(b)) => {
            assert(App::<NonWindowsArgs>::pattern_of(app.commands[f.token as int]@) is Some);
        },
    }
}

/// Every candidate made of the aliases of a session is an alias.
pub proof fn lemma_aliases_are_aliases(session: Seq<Item<'_>>, upto: int)
    ensures
        forall|i: int|
            0 <= i < aliases_of(session, upto).len() ==> #[trigger] aliases_of(session, upto)[i]
                is Alias,
    decreases upto,
{
    if upto > 0 {
        lemma_aliases_are_aliases(session, upto - 1);
    }
}

/// Every candidate made of the functions of a session is a function.
pub proof fn lemma_functions_are_functions(session: Seq<Item<'_>>, upto: int)
    ensures
        forall|i: int|
            0 <= i < functions_of(session, upto).len() ==> #[trigger] functions_of(session, upto)[i]
                is Function,
    decreases upto,
{
    if upto > 0 {
        lemma_functions_are_functions(session, upto - 1);
    }
}

/// Among the candidates of a run the aliases stand first: no function and
/// no directory stands before an alias.
pub proof fn lemma_aliases_stand_first(session: Seq<Item<'_>>, dirs: Seq<PathEntry>)
    ensures
        ({
            let items = aliases_of(session, session.len() as int) + functions_of(
                session,
                session.len() as int,
            ) + paths_of(dirs);
            forall|i: int, j: int|
                0 <= i < j < items.len() && #[trigger] items[j] is Alias ==> #[trigger] items[i]
                    is Alias
        }),
{
    lemma_aliases_are_aliases(session, session.len() as int);
    lemma_functions_are_functions(session, session.len() as int);
    let a = aliases_of(session, session.len() as int);
    let f = functions_of(session, session.len() as int);
    let d = paths_of(dirs);
    let items = a + f + d;
    assert forall|i: int, j: int|
        0 <= i < j < items.len() && #[trigger] items[j] is Alias implies #[trigger] items[i]
            is Alias by {
        if j >= a.len() {
            if j < a.len() + f.len() {
                assert(items[j] == f[j - a.len()]);
            } else {
                assert(items[j] == d[j - a.len() - f.len()]);
            }
        }
        assert(items[i] == a[i]);
    }
}

} // verus!
