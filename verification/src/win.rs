//! The search where files are told by their extension: a token stands for
//! the file of its own name, and for the files that have one of the listed
//! extensions after it; a wildcard pattern stands for the files with a
//! listed extension that it matches.

use vstd::prelude::*;
use vstd::string::*;
use crate::app::App;
use crate::names::{is_listed, last_dot, lemma_last_dot, listed, part, texts_of};
use crate::pattern::{
    compile, compiled, compiled_pattern, escaped, has_wildcard, holds_opener, within_limits,
    Compiled, CompiledPattern,
    GlobOptions, PatternError, PatternView,
};
use crate::search::{
    candidates_of, lemma_misses_keep, misses, Candidate, CandidateView, Failure, Hit, Outcome,
    Scope, Step,
};
use crate::text::{lemma_span_end, same_text, skip, span_end, to_chars, to_string, CharClass};

verus! {

/// The settings that only this platform has.
#[derive(Clone, Copy, Debug)]
pub struct WindowsArgs {
    /// The list of extensions of the environment is not looked at: `exe` is
    /// the only extension.
    pub no_pathext: bool,
}

/// How the engine reads a token here: capitals and small letters are one,
/// a wildcard matches any character, and a backslash is no escape.
pub open spec fn glob_options() -> GlobOptions {
    GlobOptions { case_insensitive: true, literal_separator: false, backslash_escape: false }
}

/// Compiles a token with a suffix after it into a matcher. A token
/// without a wildcard character is escaped, and so is a token that the
/// engine rejects, the suffix left as it is; it is then no wildcard
/// pattern. Without a suffix a token within the limits always gets a
/// matcher, and one that is no wildcard pattern matches as plain text.
pub fn new_glob(s: &str, suffix: &str) -> (r: Result<CompiledPattern, PatternError>)
    ensures
        match r {
            Ok(p) => compiled_pattern(s@, suffix@, glob_options()) == Some(p@),
            Err(e) => match compiled(s@, suffix@, glob_options()) {
                Compiled::TooLarge => e is TooLarge,
                Compiled::Rejected => e is Rejected,
                _ => false,
            },
        },
        suffix@.len() == 0 && within_limits(s@) && within_limits(escaped(s@)) ==> r is Ok,
        r matches Ok(p) ==> (suffix@.len() == 0 && !p@.is_wildcard ==> p@.literal() == Some(s@)),
        r matches Ok(p) ==> (!has_wildcard(s@) ==> !p@.is_wildcard),
{
    let options = GlobOptions {
        case_insensitive: true,
        literal_separator: false,
        backslash_escape: false,
    };
    compile(s, suffix, options)
}

/// The extension of executables.
pub open spec fn exe() -> Seq<char> {
    seq!['e', 'x', 'e']
}

/// The list that stands for a missing list of extensions.
pub open spec fn default_list() -> Seq<char> {
    seq!['.', 'e', 'x', 'e']
}

/// The extensions that a list holds from index `at` on: what stands between
/// its semicolons, each without the dot at its front, the empty ones left
/// out.
pub open spec fn listed_from(s: Seq<char>, at: int) -> Seq<Seq<char>>
    decreases s.len() - at,
    via listed_from_decreases
{
    if at < 0 || at > s.len() {
        Seq::empty()
    } else {
        let end = span_end(s, at, CharClass::Entry);
        let start = if at < end && s[at] == '.' {
            at + 1
        } else {
            at
        };
        let here = if start < end {
            seq![s.subrange(start, end)]
        } else {
            Seq::empty()
        };
        if end >= s.len() {
            here
        } else {
            here + listed_from(s, end + 1)
        }
    }
}

#[via_fn]
proof fn listed_from_decreases(s: Seq<char>, at: int) {
    if 0 <= at <= s.len() {
        lemma_span_end(s, at, CharClass::Entry);
    }
}

/// The extensions of a run. Without the list of the environment `exe` is
/// the only one. Else they are those that the list holds (`.exe` stands for
/// a missing list), with `exe` put before them unless it is among them,
/// in capitals or small letters.
pub open spec fn extensions_of(no_pathext: bool, pathext: Option<Seq<char>>) -> Seq<Seq<char>> {
    if no_pathext {
        seq![exe()]
    } else {
        let held = listed_from(
            match pathext {
                Some(list) => list,
                None => default_list(),
            },
            0,
        );
        if is_listed(exe(), held) {
            held
        } else {
            seq![exe()] + held
        }
    }
}

/// The extension of executables is always one of the extensions of a run,
/// whatever the list of the environment holds.
pub proof fn lemma_exe_is_listed(no_pathext: bool, pathext: Option<Seq<char>>)
    ensures
        is_listed(exe(), extensions_of(no_pathext, pathext)),
{
    let list = extensions_of(no_pathext, pathext);
    if no_pathext {
        assert(same_text(exe(), list[0], true));
    } else {
        let held = listed_from(
            match pathext {
                Some(l) => l,
                None => default_list(),
            },
            0,
        );
        if !is_listed(exe(), held) {
            assert(same_text(exe(), list[0], true));
        }
    }
}

/// The extensions of a run: see `extensions_of`.
pub fn extensions(no_pathext: bool, pathext: Option<&str>) -> (r: Vec<String>)
    ensures
        texts_of(r@) == extensions_of(
            no_pathext,
            match pathext {
                Some(list) => Some(list@),
                None => None,
            },
        ),
{
    let native: Vec<char> = vec!['e', 'x', 'e'];
    assert(native@ =~= exe());
    let mut r: Vec<String> = Vec::new();
    if no_pathext {
        r.push(to_string(&native, 0, 3));
        assert(native@.subrange(0, 3) =~= exe());
        assert(texts_of(r@) =~= seq![exe()]);
        return r;
    }
    let s: Vec<char> = match pathext {
        Some(list) => to_chars(list),
        None => {
            let d: Vec<char> = vec!['.', 'e', 'x', 'e'];
            assert(d@ =~= default_list());
            d
        },
    };
    let mut at: usize = 0;
    assert(texts_of(r@) + listed_from(s@, 0) =~= listed_from(s@, 0));
    loop
        invariant_except_break
            at <= s.len(),
            texts_of(r@) + listed_from(s@, at as int) == listed_from(s@, 0),
        ensures
            texts_of(r@) == listed_from(s@, 0),
        decreases s.len() - at,
    {
        let ghost before = texts_of(r@);
        let end = skip(&s, at, CharClass::Entry);
        let start = if at < end && s[at] == '.' {
            at + 1
        } else {
            at
        };
        if start < end {
            r.push(to_string(&s, start, end));
            assert(texts_of(r@) =~= before + seq![s@.subrange(start as int, end as int)]);
        } else {
            assert(texts_of(r@) =~= before + Seq::<Seq<char>>::empty());
        }
        if end >= s.len() {
            assert(texts_of(r@) =~= before + listed_from(s@, at as int));
            break ;
        }
        assert(texts_of(r@) + listed_from(s@, end + 1) =~= before + listed_from(s@, at as int));
        at = end + 1;
    }
    if !listed(&native, &r) {
        let ghost held = texts_of(r@);
        r.insert(0, to_string(&native, 0, 3));
        assert(native@.subrange(0, 3) =~= exe());
        assert(texts_of(r@) =~= seq![exe()] + held);
    }
    r
}

/// Whether a character is a letter or a digit, as Unicode defines them: what
/// `char::is_alphanumeric` returns.
pub uninterp spec fn alphanumeric(c: char) -> bool;

/// `char::is_alphanumeric`: whether a character is a letter or a digit.
#[verifier::external_body]
fn is_alphanumeric(c: char) -> (b: bool)
    ensures
        b == alphanumeric(c),
{
    c.is_alphanumeric()
}

/// Whether an extension can stand in a pattern: it holds letters, digits
/// and dots only.
pub open spec fn is_valid_extension(ext: Seq<char>) -> bool {
    forall|i: int| 0 <= i < ext.len() ==> #[trigger] ext[i] == '.' || alphanumeric(ext[i])
}

/// The first `upto` extensions with commas between them, the empty ones
/// left out.
pub open spec fn joined(list: Seq<Seq<char>>, upto: int) -> Seq<char>
    decreases upto,
{
    if upto <= 0 {
        Seq::empty()
    } else {
        let before = joined(list, upto - 1);
        let ext = list[upto - 1];
        if ext.len() == 0 {
            before
        } else if before.len() == 0 {
            ext
        } else {
            before + seq![','] + ext
        }
    }
}

/// The suffix that stands for any of the extensions: a dot, and the
/// extensions in braces with commas between them.
pub open spec fn suffix_of(list: Seq<Seq<char>>) -> Seq<char> {
    seq!['.', '{'] + joined(list, list.len() as int) + seq!['}']
}

/// The suffix that stands for any of the extensions, or the index of the
/// first extension that cannot stand in a pattern.
pub fn pathext_glob(list: &Vec<String>) -> (r: Result<String, usize>)
    ensures
        match r {
            Ok(glob) => {
                &&& glob@ == suffix_of(texts_of(list@))
                &&& forall|i: int|
                    0 <= i < list.len() ==> is_valid_extension(#[trigger] texts_of(list@)[i])
            },
            Err(i) => {
                &&& i < list.len()
                &&& !is_valid_extension(texts_of(list@)[i as int])
                &&& forall|j: int| 0 <= j < i ==> is_valid_extension(#[trigger] texts_of(list@)[j])
            },
        },
{
    let mut buf = String::new();
    buf.push('.');
    buf.push('{');
    let mut any = false;
    let mut i: usize = 0;
    let ghost texts = texts_of(list@);
    assert(buf@ =~= seq!['.', '{'] + joined(texts, 0));
    while i < list.len()
        invariant
            i <= list.len(),
            texts == texts_of(list@),
            buf@ == seq!['.', '{'] + joined(texts, i as int),
            any == (joined(texts, i as int).len() > 0),
            forall|j: int| 0 <= j < i ==> is_valid_extension(#[trigger] texts[j]),
        decreases list.len() - i,
    {
        let ext = to_chars(list[i].as_str());
        assert(texts[i as int] == ext@);
        let mut k: usize = 0;
        while k < ext.len()
            invariant
                k <= ext.len(),
                i < list.len(),
                texts == texts_of(list@),
                texts[i as int] == ext@,
                forall|j: int| 0 <= j < i ==> is_valid_extension(#[trigger] texts[j]),
                forall|j: int| 0 <= j < k ==> #[trigger] ext@[j] == '.' || alphanumeric(ext@[j]),
            decreases ext.len() - k,
        {
            if ext[k] != '.' && !is_alphanumeric(ext[k]) {
                assert(!(texts[i as int][k as int] == '.' || alphanumeric(
                    texts[i as int][k as int],
                )));
                return Err(i);
            }
            k = k + 1;
        }
        let ghost before = buf@;
        if ext.len() > 0 {
            if any {
                buf.push(',');
            }
            buf.append(list[i].as_str());
            any = true;
            assert(buf@ =~= seq!['.', '{'] + joined(texts, i + 1));
        }
        i = i + 1;
    }
    buf.push('}');
    Ok(buf)
}

/// What goes after a token.
#[derive(Clone, Copy, Debug, PartialEq, Eq, Structural)]
pub enum Ending {
    /// The token is a dot alone, which names no command.
    Invalid,
    /// The suffix that stands for any of the extensions.
    Suffix,
    /// Nothing: the token says which extension it means.
    Bare,
}

/// What goes after a token. The suffix, where the token has no dot, ends
/// with its last dot or begins with it; nothing, where what follows its
/// last dot is one of the extensions or holds a wildcard, and the suffix
/// otherwise.
pub open spec fn ending_of(token: Seq<char>, list: Seq<Seq<char>>) -> Ending {
    let dot = last_dot(token);
    if token == seq!['.'] {
        Ending::Invalid
    } else if dot <= 0 || dot == token.len() - 1 {
        Ending::Suffix
    } else {
        let ext = token.subrange(dot + 1, token.len() as int);
        if is_listed(ext, list) || has_wildcard(ext) {
            Ending::Bare
        } else {
            Ending::Suffix
        }
    }
}

/// Tells what goes after a token.
pub fn ending(token: &str, list: &Vec<String>) -> (r: Ending)
    ensures
        r == ending_of(token@, texts_of(list@)),
{
    let chars = to_chars(token);
    proof {
        lemma_last_dot(chars@);
    }
    if chars.len() == 1 && chars[0] == '.' {
        assert(chars@ =~= seq!['.']);
        return Ending::Invalid;
    }
    let mut dot: usize = chars.len();
    assert(chars@.take(chars.len() as int) =~= chars@);
    while dot > 0 && chars[dot - 1] != '.'
        invariant
            dot <= chars.len(),
            last_dot(chars@) == last_dot(chars@.take(dot as int)),
        decreases dot,
    {
        assert(chars@.take(dot as int).drop_last() =~= chars@.take(dot - 1));
        dot = dot - 1;
    }
    proof {
        if dot > 0 {
            assert(chars@.take(dot as int).last() == '.');
        } else {
            assert(chars@.take(0).len() == 0);
        }
        assert(last_dot(chars@) == dot - 1);
    }
    if dot <= 1 || dot == chars.len() {
        return Ending::Suffix;
    }
    let ext = part(&chars, dot, chars.len());
    if listed(&ext, list) || holds_opener(&ext) {
        Ending::Bare
    } else {
        Ending::Suffix
    }
}

/// Why a token was not looked up.
#[derive(Debug)]
pub enum TokenError {
    /// The token is a dot alone.
    Invalid,
    /// The token could not be compiled.
    Pattern(PatternError),
    /// The extension with this index cannot stand in a pattern.
    Extension(usize),
}

/// Why a run ended before its end.
#[derive(Debug)]
pub enum RunError {
    /// The extension with this index cannot stand in a pattern.
    Extension(usize),
    /// A token could not be compiled.
    Pattern(Failure),
}

/// The pattern of a token, if it has one: the token compiled with what goes
/// after it. `None` for a dot alone and for a token that cannot be compiled.
pub open spec fn pattern_of(token: Seq<char>, list: Seq<Seq<char>>) -> Option<PatternView> {
    match ending_of(token, list) {
        Ending::Invalid => None,
        Ending::Suffix => compiled_pattern(token, suffix_of(list), glob_options()),
        Ending::Bare => compiled_pattern(token, Seq::empty(), glob_options()),
    }
}

/// Whether a token can be looked up: it is a dot alone, which has no
/// match, or it has a pattern.
pub open spec fn is_looked_up(token: Seq<char>, list: Seq<Seq<char>>) -> bool {
    pattern_of(token, list) is Some || ending_of(token, list) is Invalid
}

/// Whether a token has no pattern because one of the patterns made of it is
/// too large for the engine.
pub open spec fn is_too_large(token: Seq<char>, list: Seq<Seq<char>>) -> bool {
    match ending_of(token, list) {
        Ending::Invalid => false,
        Ending::Suffix => compiled(token, suffix_of(list), glob_options()) is TooLarge,
        Ending::Bare => compiled(token, Seq::empty(), glob_options()) is TooLarge,
    }
}

/// What is to be reported for a token: nothing for a dot alone, else what
/// the search with the pattern of the token reports.
pub open spec fn found_for(
    scope: Scope<'_>,
    token: Seq<char>,
    list: Seq<Seq<char>>,
    items: Seq<CandidateView>,
) -> Seq<Hit> {
    match pattern_of(token, list) {
        Some(p) => scope.reported(p, items),
        None => Seq::empty(),
    }
}

impl App<WindowsArgs> {
    /// What the search of this run looks at: no aliases and no functions,
    /// and files by their extension.
    pub open spec fn scope<'a>(&self, list: &'a Vec<String>) -> Scope<'a> {
        Scope { aliases: false, functions: false, all: self.all, extensions: Some(list) }
    }

    /// Whether `o` is what the run finds among the candidates `items`: the
    /// extensions can all stand in a pattern, every token is a dot alone or
    /// has a pattern, and `o` holds for each token what is to be reported
    /// for it, and the number of tokens without a match.
    pub open spec fn is_outcome(
        &self,
        list: &Vec<String>,
        items: Seq<CandidateView>,
        o: Outcome,
    ) -> bool {
        &&& forall|i: int| 0 <= i < list.len() ==> is_valid_extension(#[trigger] texts_of(list@)[i])
        &&& o.found.len() == self.commands.len()
        &&& forall|t: int|
            0 <= t < self.commands.len() ==> is_looked_up(
                #[trigger] self.commands[t]@,
                texts_of(list@),
            )
        &&& forall|t: int|
            0 <= t < self.commands.len() ==> (#[trigger] o.found[t])@ == found_for(
                self.scope(list),
                self.commands[t]@,
                texts_of(list@),
                items,
            )
        &&& o.not_found == misses(o.found@, o.found.len() as int)
    }

    /// Whether `e` is how the run fails: at the first extension that cannot
    /// stand in a pattern, or else at the first token that is no dot alone
    /// and cannot be compiled, with the reason for which it cannot.
    pub open spec fn is_failure(&self, list: &Vec<String>, e: RunError) -> bool {
        match e {
            RunError::Extension(i) => {
                &&& i < list.len()
                &&& !is_valid_extension(texts_of(list@)[i as int])
                &&& forall|j: int| 0 <= j < i ==> is_valid_extension(#[trigger] texts_of(list@)[j])
            },
            RunError::Pattern(f) => {
                &&& forall|i: int|
                    0 <= i < list.len() ==> is_valid_extension(#[trigger] texts_of(list@)[i])
                &&& f.token < self.commands.len()
                &&& !is_looked_up(self.commands[f.token as int]@, texts_of(list@))
                &&& f.error is TooLarge <==> is_too_large(
                    self.commands[f.token as int]@,
                    texts_of(list@),
                )
                &&& forall|t: int|
                    0 <= t < f.token ==> is_looked_up(#[trigger] self.commands[t]@, texts_of(list@))
            },
        }
    }

    /// Whether `r` is how the run ends among the candidates `items`.
    pub open spec fn is_result(
        &self,
        list: &Vec<String>,
        items: Seq<CandidateView>,
        r: Result<Outcome, RunError>,
    ) -> bool {
        match r {
            Ok(o) => self.is_outcome(list, items, o),
            Err(e) => self.is_failure(list, e),
        }
    }

    /// Looks one token up among the candidates: its matches as they are to
    /// be reported. `list` holds the extensions of the run and `glob` the
    /// suffix that stands for any of them.
    pub fn look_up(
        &self,
        token: &str,
        list: &Vec<String>,
        glob: &str,
        items: &Vec<Candidate<'_>>,
    ) -> (r: Result<Vec<Hit>, TokenError>)
        requires
            glob@ == suffix_of(texts_of(list@)),
        ensures
            match r {
                Ok(hits) => pattern_of(token@, texts_of(list@)) matches Some(p) && hits@
                    == self.scope(list).reported(p, candidates_of(items@)),
                Err(TokenError::Invalid) => ending_of(token@, texts_of(list@)) is Invalid,
                Err(TokenError::Pattern(e)) => {
                    &&& !(ending_of(token@, texts_of(list@)) is Invalid)
                    &&& pattern_of(token@, texts_of(list@)) is None
                    &&& e is TooLarge <==> is_too_large(token@, texts_of(list@))
                },
                Err(TokenError::Extension(_)) => false,
            },
    {
        let scope = Scope {
            aliases: false,
            functions: false,
            all: self.all,
            extensions: Some(list),
        };
        let compiled = match ending(token, list) {
            Ending::Invalid => {
                return Err(TokenError::Invalid);
            },
            Ending::Suffix => new_glob(token, glob),
            Ending::Bare => {
                proof {
                    reveal_strlit("");
                    assert(""@ =~= Seq::<char>::empty());
                }
                new_glob(token, "")
            },
        };
        match compiled {
            Ok(pattern) => Ok(scope.scan(&pattern, items)),
            Err(e) => Err(TokenError::Pattern(e)),
        }
    }

    /// Looks one token up among the candidates as far as their directories
    /// are listed: what is to be reported, or the directory to list before
    /// the token is looked up again. `list` holds the extensions of the run.
    /// The token is not looked up if an extension cannot stand in a
    /// pattern, if it is a dot alone, or if it cannot be compiled.
    pub fn look_up_listed(&self, token: &str, list: &Vec<String>, items: &Vec<Candidate<'_>>) -> (r:
        Result<Step, TokenError>)
        ensures
            match r {
                Ok(step) => {
                    &&& forall|i: int|
                        0 <= i < list.len() ==> is_valid_extension(#[trigger] texts_of(list@)[i])
                    &&& pattern_of(token@, texts_of(list@)) matches Some(p) && self.scope(
                        list,
                    ).is_step(p, candidates_of(items@), step)
                },
                Err(TokenError::Extension(i)) => {
                    &&& i < list.len()
                    &&& !is_valid_extension(texts_of(list@)[i as int])
                    &&& forall|j: int|
                        0 <= j < i ==> is_valid_extension(#[trigger] texts_of(list@)[j])
                },
                Err(TokenError::Invalid) => ending_of(token@, texts_of(list@)) is Invalid,
                Err(TokenError::Pattern(e)) => {
                    &&& !(ending_of(token@, texts_of(list@)) is Invalid)
                    &&& pattern_of(token@, texts_of(list@)) is None
                    &&& e is TooLarge <==> is_too_large(token@, texts_of(list@))
                },
            },
    {
        let glob = match pathext_glob(list) {
            Ok(glob) => glob,
            Err(i) => {
                return Err(TokenError::Extension(i));
            },
        };
        let scope = Scope {
            aliases: false,
            functions: false,
            all: self.all,
            extensions: Some(list),
        };
        let compiled = match ending(token, list) {
            Ending::Invalid => {
                return Err(TokenError::Invalid);
            },
            Ending::Suffix => new_glob(token, glob.as_str()),
            Ending::Bare => {
                proof {
                    reveal_strlit("");
                    assert(""@ =~= Seq::<char>::empty());
                }
                new_glob(token, "")
            },
        };
        match compiled {
            Ok(pattern) => Ok(scope.scan_listed(&pattern, items)),
            Err(e) => Err(TokenError::Pattern(e)),
        }
    }

    /// Looks every token up, in the order of the tokens, each on its own.
    /// `list` holds the extensions of the run. The run fails before any
    /// search if an extension cannot stand in a pattern, and at the first
    /// token that cannot be compiled. A dot alone has no match.
    pub fn run(&self, list: &Vec<String>, items: &Vec<Candidate<'_>>) -> (r: Result<
        Outcome,
        RunError,
    >)
        ensures
            self.is_result(list, candidates_of(items@), r),
    {
        let glob = match pathext_glob(list) {
            Ok(glob) => glob,
            Err(i) => {
                return Err(RunError::Extension(i));
            },
        };
        let ghost scope = self.scope(list);
        let ghost texts = texts_of(list@);
        let ghost views = candidates_of(items@);
        let mut found: Vec<Vec<Hit>> = Vec::new();
        let mut not_found: usize = 0;
        let mut t: usize = 0;
        while t < self.commands.len()
            invariant
                t <= self.commands.len(),
                found.len() == t,
                not_found <= t,
                glob@ == suffix_of(texts_of(list@)),
                texts == texts_of(list@),
                views == candidates_of(items@),
                forall|i: int| 0 <= i < list.len() ==> is_valid_extension(#[trigger] texts[i]),
                scope == self.scope(list),
                forall|u: int| 0 <= u < t ==> is_looked_up(#[trigger] self.commands[u]@, texts),
                forall|u: int|
                    0 <= u < t ==> (#[trigger] found[u])@ == found_for(
                        scope,
                        self.commands[u]@,
                        texts,
                        views,
                    ),
                not_found == misses(found@, t as int),
            decreases self.commands.len() - t,
        {
            let ghost before = found@;
            let hits = match self.look_up(self.commands[t].as_str(), list, glob.as_str(), items) {
                Ok(hits) => hits,
                Err(TokenError::Invalid) => Vec::new(),
                Err(TokenError::Pattern(error)) => {
                    return Err(RunError::Pattern(Failure { token: t, error }));
                },
                Err(TokenError::Extension(i)) => {
                    return Err(RunError::Extension(i));
                },
            };
            if hits.len() == 0 {
                not_found = not_found + 1;
            }
            found.push(hits);
            proof {
                lemma_misses_keep(before, found@, t as int);
                assert forall|u: int| 0 <= u < t + 1 implies (#[trigger] found[u])@ == found_for(
                    scope,
                    self.commands[u]@,
                    texts,
                    views,
                ) by {
                    if u < t {
                        assert(found[u] == before[u]);
                    }
                }
            }
            t = t + 1;
        }
        Ok(Outcome { found, not_found })
    }
}

/// A run over the same tokens, the same extensions and the same candidates
/// ends the same way each time: with the same matches in the same order and
/// the same number of tokens without a match, or at the same extension or
/// token for the same reason.
pub proof fn lemma_run_is_repeatable(
    app: App<WindowsArgs>,
    list: &Vec<String>,
    items: Seq<CandidateView>,
    first: Result<Outcome, RunError>,
    second: Result<Outcome, RunError>,
)
    requires
        app.is_result(list, items, first),
        app.is_result(list, items, second),
    ensures
        match (first, second) {
            (Ok(a), Ok(b)) => {
                &&& a.found.len() == b.found.len()
                &&& forall|t: int|
                    0 <= t < a.found.len() ==> (#[trigger] a.found[t])@ == b.found[t]@
                &&& a.not_found == b.not_found
            },
            (Err(RunError::Extension(i)), Err(RunError::Extension(j))) => i == j,
            (Err(RunError::Pattern(f)), Err(RunError::Pattern(g))) => {
                &&& f.token == g.token
                &&& f.error is TooLarge <==> g.error is TooLarge
            },
            _ => false,
        },
{
    let texts = texts_of(list@);
    match (first, second) {
        (Ok(a), Ok(b)) => {
            assert forall|t: int| 0 <= t < a.found.len() implies (#[trigger] a.found[t])@
                == b.found[t]@ by {
                assert(b.found[t]@ == found_for(app.scope(list), app.commands[t]@, texts, items));
            }
            assert forall|t: int| 0 <= t < a.found.len() implies (#[trigger] a.found@[t]).len()
                == b.found@[t].len() by {
                assert(a.found[t]@ == b.found[t]@);
            }
            lemma_misses_keep(a.found@, b.found@, a.found.len() as int);
        },
        (Err(RunError::Extension(i)), Err(RunError::Extension(j))) => {
            if i < j {
                assert(is_valid_extension(texts[i as int]));
            }
            if j < i {
                assert(is_valid_extension(texts[j as int]));
            }
        },
        (Err(RunError::Pattern(f)), Err(RunError::Pattern(g))) => {
            if f.token < g.token {
                assert(is_looked_up(app.commands[f.token as int]@, texts));
            }
            if g.token < f.token {
                assert(is_looked_up(app.commands[g.token as int]@, texts));
            }
        },
        (Ok(a), Err(RunError::Extension(i))) => {
            assert(is_valid_extension(texts[i as int]));
        },
        (Err(RunError::Extension(i)), Ok(b)) => {
            assert(is_valid_extension(texts[i as int]));
        },
        (Ok(a), Err(RunError::Pattern(g))) => {
            assert(is_looked_up(app.commands[g.token as int]@, texts));
        },
        (Err(RunError::Pattern(f)), Ok(b)) => {
            assert(is_looked_up(app.commands[f.token as int]@, texts));
        },
        (Err(RunError::Extension(i)), Err(RunError::Pattern(g))) => {
            assert(is_valid_extension(texts[i as int]));
        },
        (Err(RunError::Pattern(f)), Err(RunError::Extension(j))) => {
            assert(is_valid_extension(texts[j as int]));
        },
    }
}

} // verus!
