//! Turns a token into a matcher. The glob engine is `globset`; what it
//! accepts and what a compiled pattern matches are taken from it on trust and
//! have names here. A token without a wildcard character is escaped, and so
//! is a token that the engine rejects: such a token matches as plain text.

use vstd::prelude::*;
use vstd::string::*;
use globset::{Error, GlobBuilder, GlobMatcher};
use crate::text::{count, occurrences, same_text, to_chars};

verus! {

/// A compiled glob of `globset`.
#[verifier::external_type_specification]
#[verifier::external_body]
pub struct ExGlobMatcher(globset::GlobMatcher);

/// The error with which `globset` rejects a pattern.
#[verifier::external_type_specification]
#[verifier::external_body]
pub struct ExGlobError(globset::Error);

/// Whether `globset` accepts `pattern` under the three options: whether
/// `GlobBuilder::build` returns `Ok`.
pub uninterp spec fn well_formed(
    pattern: Seq<char>,
    case_insensitive: bool,
    literal_separator: bool,
    backslash_escape: bool,
) -> bool;

/// Whether the matcher that `globset` compiles from `pattern` under the three
/// options matches `name`: what `GlobMatcher::is_match` returns.
pub uninterp spec fn accepts(
    pattern: Seq<char>,
    case_insensitive: bool,
    literal_separator: bool,
    backslash_escape: bool,
    name: Seq<char>,
) -> bool;

/// The names that a compiled matcher matches: the matcher as the set of
/// names that it stands for.
pub uninterp spec fn accepted(matcher: GlobMatcher) -> Set<Seq<char>>;

/// The longest pattern that is handed to the engine, in characters.
pub const MAX_PATTERN_LEN: usize = 4096;

/// The most opening braces in a pattern that is handed to the engine.
pub const MAX_BRACES: usize = 64;

/// Whether a pattern is small enough for the engine. The engine makes a
/// regular expression of a pattern and does not return where that
/// expression is nested more than 250 deep or its automaton is larger than
/// 10 MiB. A brace of the pattern nests the expression three deeper at
/// most, and a character of the pattern is four bytes at most, each of them
/// a state or two of the automaton: the two limits keep a pattern well
/// within both bounds.
pub open spec fn within_limits(pattern: Seq<char>) -> bool {
    pattern.len() <= MAX_PATTERN_LEN && occurrences(pattern, '{') <= MAX_BRACES
}

/// A character that asks the engine for more than itself.
pub open spec fn is_meta(c: char) -> bool {
    c == '?' || c == '*' || c == '[' || c == '{' || c == '}'
}

/// The text that a pattern without wildcards spells: each character stands
/// for itself, and with backslash escapes a backslash makes the character
/// after it stand for itself. `None` for a pattern with a wildcard, a class,
/// a brace, a backslash at its end, or a backslash that escapes nothing.
pub open spec fn spelled(pattern: Seq<char>, backslash_escape: bool) -> Option<Seq<char>>
    decreases pattern.len(),
{
    if pattern.len() == 0 {
        Some(Seq::empty())
    } else if pattern[0] == '\\' {
        if backslash_escape && pattern.len() >= 2 {
            match spelled(pattern.skip(2), backslash_escape) {
                Some(rest) => Some(seq![pattern[1]] + rest),
                None => None,
            }
        } else {
            None
        }
    } else if is_meta(pattern[0]) {
        None
    } else {
        match spelled(pattern.skip(1), backslash_escape) {
            Some(rest) => Some(seq![pattern[0]] + rest),
            None => None,
        }
    }
}

/// Whether a name holds a backslash.
pub open spec fn has_backslash(name: Seq<char>) -> bool {
    name.contains('\\')
}

/// Whether `c` separates the components of a path on this platform: what
/// `std::path::is_separator` returns.
pub uninterp spec fn is_path_separator(c: char) -> bool;

/// `std::path::is_separator`: whether `c` separates the components of a
/// path on this platform.
#[verifier::external_body]
fn is_separator(c: char) -> (b: bool)
    ensures
        b == is_path_separator(c),
{
    std::path::is_separator(c)
}

/// Tells whether the backslash separates the components of a path on this
/// platform.
pub fn backslash_separates() -> (b: bool)
    ensures
        b == is_path_separator('\\'),
{
    is_separator('\\')
}

/// Whether the engine matches a name as it stands. Where the backslash
/// separates the components of a path, the engine puts `/` for each
/// backslash of a name before it matches.
pub open spec fn is_matched_as_it_stands(name: Seq<char>) -> bool {
    !has_backslash(name) || !is_path_separator('\\')
}

/// Compiles a pattern: `GlobBuilder::new`, the three options,
/// `GlobBuilder::build` and `Glob::compile_matcher`.
///
/// Taken on trust: the call succeeds exactly on the patterns named
/// `well_formed`, and the matcher matches exactly the names named `accepts`.
/// A pattern that spells a text (no wildcard, class or brace, every
/// backslash an escape) is accepted, and its matcher matches a name that
/// the engine matches as it stands exactly if the name is that text under
/// the case rule: the engine makes of such a pattern a regular expression
/// over bytes that is anchored at both ends and holds the text alone, and
/// without case it takes the capitals and small letters of ASCII as one,
/// and no others.
///
/// The pattern is to be within the limits: `compile_matcher` panics where
/// the regular expression made of the pattern is larger or nested more
/// deeply than the engine for regular expressions takes.
#[verifier::external_body]
fn compile_glob(
    pattern: &str,
    case_insensitive: bool,
    literal_separator: bool,
    backslash_escape: bool,
) -> (r: Result<GlobMatcher, Error>)
    requires
        within_limits(pattern@),
    ensures
        r is Ok == well_formed(pattern@, case_insensitive, literal_separator, backslash_escape),
        r matches Ok(m) ==> forall|name: Seq<char>| #[trigger]
            accepted(m).contains(name) == accepts(
                pattern@,
                case_insensitive,
                literal_separator,
                backslash_escape,
                name,
            ),
        spelled(pattern@, backslash_escape) is Some ==> r is Ok,
        r matches Ok(m) ==> (spelled(pattern@, backslash_escape) matches Some(text)
            ==> forall|name: Seq<char>|
            is_matched_as_it_stands(name) ==> #[trigger] accepted(m).contains(name) == same_text(
                text,
                name,
                case_insensitive,
            )),
{
    let built = GlobBuilder::new(pattern).case_insensitive(case_insensitive).literal_separator(
        literal_separator,
    ).backslash_escape(backslash_escape).build();
    match built {
        Ok(glob) => Ok(glob.compile_matcher()),
        Err(e) => Err(e),
    }
}

/// `GlobMatcher::is_match` on a name: whether the name is among those that
/// the matcher matches.
#[verifier::external_body]
fn matcher_is_match(matcher: &GlobMatcher, name: &str) -> (b: bool)
    ensures
        b == accepted(*matcher).contains(name@),
{
    matcher.is_match(name)
}

/// The message of an error of `globset`, as its `Display` writes it.
#[verifier::external_body]
fn error_message(e: &Error) -> String {
    e.to_string()
}

/// Why a token could not be compiled.
#[derive(Debug)]
pub enum PatternError {
    /// The pattern is larger than the engine is given.
    TooLarge,
    /// The engine rejected the token, and rejected it again once it was
    /// escaped. The message is the engine's.
    Rejected { cause: String },
}

impl PatternError {
    /// What to tell the user: the message of the engine, or that the
    /// pattern is too large.
    pub fn message(&self) -> (r: String)
        ensures
            r@ == match *self {
                PatternError::TooLarge => "the pattern is too large"@,
                PatternError::Rejected { cause } => cause@,
            },
    {
        match self {
            PatternError::TooLarge => String::from_str("the pattern is too large"),
            PatternError::Rejected { cause } => cause.clone(),
        }
    }
}

/// How the engine reads a pattern.
#[derive(Clone, Copy, Debug)]
pub struct GlobOptions {
    /// Capitals and small letters of ASCII are taken as one.
    pub case_insensitive: bool,
    /// A wildcard does not match `/`.
    pub literal_separator: bool,
    /// A backslash makes the character after it stand for itself.
    pub backslash_escape: bool,
}

/// What a compiled pattern is: the token it was made of, the text handed to
/// the engine, how the engine was to read it, and whether the token is a
/// wildcard pattern.
pub struct PatternView {
    pub token: Seq<char>,
    pub source: Seq<char>,
    pub options: GlobOptions,
    pub is_wildcard: bool,
}

impl PatternView {
    /// Whether the pattern matches `name`.
    pub open spec fn matches(self, name: Seq<char>) -> bool {
        accepts(
            self.source,
            self.options.case_insensitive,
            self.options.literal_separator,
            self.options.backslash_escape,
            name,
        )
    }

    /// The text that the pattern spells, if it is free of wildcards.
    pub open spec fn literal(self) -> Option<Seq<char>> {
        spelled(self.source, self.options.backslash_escape)
    }
}

/// A token compiled into a matcher, and whether the token is a wildcard
/// pattern.
pub struct CompiledPattern {
    matcher: GlobMatcher,
    token: String,
    source: String,
    options: GlobOptions,
    is_wildcard: bool,
}

impl View for CompiledPattern {
    type V = PatternView;

    closed spec fn view(&self) -> PatternView {
        PatternView {
            token: self.token@,
            source: self.source@,
            options: self.options,
            is_wildcard: self.is_wildcard,
        }
    }
}

impl CompiledPattern {
    #[verifier::type_invariant]
    spec fn sound(self) -> bool {
        &&& forall|name: Seq<char>| #[trigger]
            accepted(self.matcher).contains(name) == self@.matches(name)
        &&& self@.literal() matches Some(text) ==> forall|name: Seq<char>|
            is_matched_as_it_stands(name) ==> #[trigger] accepted(self.matcher).contains(name)
                == same_text(text, name, self.options.case_insensitive)
    }

    /// Whether the pattern matches `name`. A pattern that spells a text
    /// matches a name that the engine matches as it stands exactly if the
    /// name is that text under the case rule.
    pub fn is_match(&self, name: &str) -> (b: bool)
        ensures
            b == self@.matches(name@),
            self@.literal() matches Some(text) ==> (is_matched_as_it_stands(name@) ==> b
                == same_text(text, name@, self@.options.case_insensitive)),
    {
        proof {
            use_type_invariant(self);
        }
        matcher_is_match(&self.matcher, name)
    }

    /// Whether the token is a wildcard pattern, one that may match several
    /// names.
    pub fn is_wildcard(&self) -> (b: bool)
        ensures
            b == self@.is_wildcard,
    {
        self.is_wildcard
    }

    /// The token that the pattern was made of.
    pub fn token(&self) -> (s: &str)
        ensures
            s@ == self@.token,
    {
        self.token.as_str()
    }

    /// The text that was handed to the engine.
    pub fn source(&self) -> (s: &str)
        ensures
            s@ == self@.source,
    {
        self.source.as_str()
    }

    /// How the engine was to read the pattern.
    pub fn options(&self) -> (o: GlobOptions)
        ensures
            o == self@.options,
    {
        self.options
    }
}

/// Whether a backslash goes before `c` when a token is escaped: before each
/// character that asks the engine for more than itself, before `]`, and
/// before the backslash.
pub open spec fn needs_escape(c: char) -> bool {
    is_meta(c) || c == ']' || c == '\\'
}

/// The token with a backslash before each character that needs one.
pub open spec fn escaped(token: Seq<char>) -> Seq<char>
    decreases token.len(),
{
    if token.len() == 0 {
        Seq::empty()
    } else if needs_escape(token[0]) {
        seq!['\\', token[0]] + escaped(token.skip(1))
    } else {
        seq![token[0]] + escaped(token.skip(1))
    }
}

/// Whether a token holds a wildcard character: `*`, `?`, `[` or `{`.
pub open spec fn has_wildcard(token: Seq<char>) -> bool {
    exists|i: int| 0 <= i < token.len() && is_opener(#[trigger] token[i])
}

/// A wildcard character: `*`, `?`, the opener of a class `[`, or the opener
/// of alternatives `{`.
pub open spec fn is_opener(c: char) -> bool {
    c == '*' || c == '?' || c == '[' || c == '{'
}

/// An escaped token spells the token.
pub proof fn lemma_escaped_spells(token: Seq<char>)
    ensures
        spelled(escaped(token), true) == Some(token),
    decreases token.len(),
{
    if token.len() == 0 {
        assert(token =~= Seq::<char>::empty());
    } else {
        let rest = token.skip(1);
        lemma_escaped_spells(rest);
        let e = escaped(token);
        if needs_escape(token[0]) {
            assert(e.skip(2) =~= escaped(rest));
        } else {
            assert(e.skip(1) =~= escaped(rest));
        }
        assert(seq![token[0]] + rest =~= token);
    }
}

/// Escapes a token: a backslash goes before each character that needs one.
pub fn escape(token: &str) -> (r: String)
    ensures
        r@ == escaped(token@),
{
    let chars = to_chars(token);
    let mut r = String::new();
    let mut i: usize = 0;
    assert(chars@.skip(0) =~= chars@);
    while i < chars.len()
        invariant
            chars@ == token@,
            i <= chars.len(),
            r@ + escaped(chars@.skip(i as int)) == escaped(chars@),
        decreases chars.len() - i,
    {
        let c = chars[i];
        let ghost before = r@;
        assert(chars@.skip(i as int).skip(1) =~= chars@.skip(i + 1));
        if c == '?' || c == '*' || c == '[' || c == '{' || c == '}' || c == ']' || c == '\\' {
            r.push('\\');
            r.push(c);
            assert(r@ + escaped(chars@.skip(i + 1)) =~= before + (seq!['\\', c] + escaped(
                chars@.skip(i + 1),
            )));
        } else {
            r.push(c);
            assert(r@ + escaped(chars@.skip(i + 1)) =~= before + (seq![c] + escaped(
                chars@.skip(i + 1),
            )));
        }
        i = i + 1;
    }
    assert(escaped(chars@.skip(chars.len() as int)) =~= Seq::<char>::empty());
    assert(r@ + Seq::<char>::empty() =~= r@);
    r
}

/// Tells whether a run of characters holds a wildcard character.
pub fn holds_opener(chars: &Vec<char>) -> (b: bool)
    ensures
        b == has_wildcard(chars@),
{
    let mut i: usize = 0;
    while i < chars.len()
        invariant
            i <= chars.len(),
            forall|j: int| 0 <= j < i ==> !is_opener(#[trigger] chars@[j]),
        decreases chars.len() - i,
    {
        let c = chars[i];
        if c == '*' || c == '?' || c == '[' || c == '{' {
            assert(is_opener(chars@[i as int]));
            return true;
        }
        i = i + 1;
    }
    false
}

/// Tells whether a token holds a wildcard character.
pub fn holds_wildcard(token: &str) -> (b: bool)
    ensures
        b == has_wildcard(token@),
{
    let chars = to_chars(token);
    holds_opener(&chars)
}

/// Tells whether a pattern is small enough for the engine.
pub fn fits(pattern: &str) -> (b: bool)
    ensures
        b == within_limits(pattern@),
{
    let chars = to_chars(pattern);
    chars.len() <= MAX_PATTERN_LEN && count(&chars, '{') <= MAX_BRACES
}

/// How handing one pattern to the engine ends.
pub enum Attempt {
    /// The engine accepted the pattern.
    Accepted,
    /// The pattern is larger than the engine is given.
    TooLarge,
    /// The engine rejected the pattern.
    Rejected,
}

/// How handing `pattern` to the engine ends.
pub open spec fn attempt(pattern: Seq<char>, options: GlobOptions) -> Attempt {
    if !within_limits(pattern) {
        Attempt::TooLarge
    } else if well_formed(
        pattern,
        options.case_insensitive,
        options.literal_separator,
        options.backslash_escape,
    ) {
        Attempt::Accepted
    } else {
        Attempt::Rejected
    }
}

/// How compiling a token ends.
pub enum Compiled {
    /// The token holds no wildcard character: it was escaped at once.
    Plain,
    /// The token with its suffix was accepted as it stands.
    Direct,
    /// The token was rejected, and accepted once it was escaped.
    Escaped,
    /// A pattern is larger than the engine is given.
    TooLarge,
    /// The engine rejected the token with its suffix, escaped too.
    Rejected,
}

/// The options with backslash escapes switched on.
pub open spec fn escaping(options: GlobOptions) -> GlobOptions {
    GlobOptions { backslash_escape: true, ..options }
}

/// How compiling `token` with `suffix` ends. A token without a wildcard
/// character is no pattern: it is escaped at once, so that each of its
/// characters stands for itself. A token with one is tried with the suffix
/// as it stands, read as `options` say. If the engine rejects it, the
/// escaped token with the suffix is tried. An escaped token is read with
/// backslash escapes.
pub open spec fn compiled(token: Seq<char>, suffix: Seq<char>, options: GlobOptions) -> Compiled {
    if !has_wildcard(token) {
        match attempt(escaped(token) + suffix, escaping(options)) {
            Attempt::Accepted => Compiled::Plain,
            Attempt::TooLarge => Compiled::TooLarge,
            Attempt::Rejected => Compiled::Rejected,
        }
    } else {
        match attempt(token + suffix, options) {
            Attempt::Accepted => Compiled::Direct,
            Attempt::TooLarge => Compiled::TooLarge,
            Attempt::Rejected => match attempt(escaped(token) + suffix, escaping(options)) {
                Attempt::Accepted => Compiled::Escaped,
                Attempt::TooLarge => Compiled::TooLarge,
                Attempt::Rejected => Compiled::Rejected,
            },
        }
    }
}

/// Hands one pattern made of `token` to the engine.
fn attempt_on(token: &str, source: String, options: GlobOptions, is_wildcard: bool) -> (r: Result<
    CompiledPattern,
    PatternError,
>)
    ensures
        match attempt(source@, options) {
            Attempt::Accepted => r matches Ok(p) && p@ == (PatternView {
                token: token@,
                source: source@,
                options,
                is_wildcard,
            }),
            Attempt::TooLarge => r matches Err(e) && e is TooLarge,
            Attempt::Rejected => r matches Err(e) && e is Rejected,
        },
        within_limits(source@) && spelled(source@, options.backslash_escape) is Some ==> r is Ok,
{
    if !fits(source.as_str()) {
        return Err(PatternError::TooLarge);
    }
    match compile_glob(
        source.as_str(),
        options.case_insensitive,
        options.literal_separator,
        options.backslash_escape,
    ) {
        Ok(matcher) => Ok(
            CompiledPattern {
                matcher,
                token: String::from_str(token),
                source,
                options,
                is_wildcard,
            },
        ),
        Err(e) => Err(PatternError::Rejected { cause: error_message(&e) }),
    }
}

/// Hands one pattern to the engine as it stands, with no second attempt.
/// `is_wildcard` is kept with the pattern.
pub fn compile_exact(pattern: &str, options: GlobOptions, is_wildcard: bool) -> (r: Result<
    CompiledPattern,
    PatternError,
>)
    ensures
        match attempt(pattern@, options) {
            Attempt::Accepted => r matches Ok(p) && p@ == (PatternView {
                token: pattern@,
                source: pattern@,
                options,
                is_wildcard,
            }),
            Attempt::TooLarge => r matches Err(e) && e is TooLarge,
            Attempt::Rejected => r matches Err(e) && e is Rejected,
        },
        within_limits(pattern@) && spelled(pattern@, options.backslash_escape) is Some ==> r is Ok,
{
    attempt_on(pattern, String::from_str(pattern), options, is_wildcard)
}

/// The pattern that compiling `token` with `suffix` gives, if it gives one.
/// The pattern is a wildcard pattern only if the token holds a wildcard
/// character and was accepted as it stands.
pub open spec fn compiled_pattern(
    token: Seq<char>,
    suffix: Seq<char>,
    options: GlobOptions,
) -> Option<PatternView> {
    match compiled(token, suffix, options) {
        Compiled::Direct => Some(
            PatternView { token, source: token + suffix, options, is_wildcard: true },
        ),
        Compiled::Plain | Compiled::Escaped => Some(
            PatternView {
                token,
                source: escaped(token) + suffix,
                options: escaping(options),
                is_wildcard: false,
            },
        ),
        Compiled::TooLarge => None,
        Compiled::Rejected => None,
    }
}

/// Compiles `token` with `suffix` after it into a matcher.
///
/// A token without `*`, `?`, `[` or `{` is escaped and handed to the engine
/// with the suffix. A token with one of them is handed to the engine with
/// the suffix as it stands; if the engine rejects it, the token is escaped
/// and handed to the engine again. The suffix is never escaped. Without a
/// suffix a token within the limits always gets a matcher, and a matcher
/// that is no wildcard pattern spells the token.
pub fn compile(token: &str, suffix: &str, options: GlobOptions) -> (r: Result<
    CompiledPattern,
    PatternError,
>)
    ensures
        match r {
            Ok(p) => compiled_pattern(token@, suffix@, options) == Some(p@),
            Err(e) => match compiled(token@, suffix@, options) {
                Compiled::TooLarge => e is TooLarge,
                Compiled::Rejected => e is Rejected,
                _ => false,
            },
        },
        suffix@.len() == 0 && within_limits(token@) && within_limits(escaped(token@)) ==> r is Ok,
        r matches Ok(p) ==> (suffix@.len() == 0 && !p@.is_wildcard ==> p@.literal() == Some(
            token@,
        )),
{
    proof {
        lemma_escaped_spells(token@);
        if suffix@.len() == 0 {
            assert(suffix@ =~= Seq::<char>::empty());
            assert(escaped(token@) + suffix@ =~= escaped(token@));
            assert(token@ + suffix@ =~= token@);
        }
    }
    let with_escapes = GlobOptions {
        case_insensitive: options.case_insensitive,
        literal_separator: options.literal_separator,
        backslash_escape: true,
    };
    if holds_wildcard(token) {
        let mut first = String::from_str(token);
        first.append(suffix);
        match attempt_on(token, first, options, true) {
            Ok(p) => Ok(p),
            Err(PatternError::TooLarge) => Err(PatternError::TooLarge),
            Err(PatternError::Rejected { .. }) => {
                let mut second = escape(token);
                second.append(suffix);
                attempt_on(token, second, with_escapes, false)
            },
        }
    } else {
        let mut plain = escape(token);
        plain.append(suffix);
        attempt_on(token, plain, with_escapes, false)
    }
}

/// A token without a wildcard character matches as plain text, whatever
/// other characters it holds: compiled without a suffix, its pattern spells
/// the token itself and is no wildcard pattern.
pub proof fn lemma_plain_token_is_literal(token: Seq<char>, options: GlobOptions)
    requires
        !has_wildcard(token),
        compiled_pattern(token, Seq::empty(), options) is Some,
    ensures
        compiled_pattern(token, Seq::empty(), options) matches Some(p) && p.literal() == Some(
            token,
        ) && !p.is_wildcard && p.token == token,
{
    lemma_escaped_spells(token);
    assert(escaped(token) + Seq::<char>::empty() =~= escaped(token));
}

/// A token that the engine rejects as it stands matches as plain text:
/// compiled without a suffix, its pattern spells the token itself and is no
/// wildcard pattern.
pub proof fn lemma_escaped_pattern_is_literal(token: Seq<char>, options: GlobOptions)
    requires
        compiled(token, Seq::empty(), options) is Escaped,
    ensures
        compiled_pattern(token, Seq::empty(), options) matches Some(p) && p.literal() == Some(
            token,
        ) && !p.is_wildcard && p.token == token,
{
    lemma_escaped_spells(token);
    assert(escaped(token) + Seq::<char>::empty() =~= escaped(token));
}

/// A pattern compiled without a suffix is a wildcard pattern or spells
/// its token: what is no wildcard pattern matches as plain text.
pub proof fn lemma_pattern_is_wildcard_or_literal(token: Seq<char>, options: GlobOptions)
    requires
        compiled_pattern(token, Seq::empty(), options) is Some,
    ensures
        compiled_pattern(token, Seq::empty(), options) matches Some(p) && (p.is_wildcard
            || p.literal() == Some(token)),
{
    lemma_escaped_spells(token);
    assert(escaped(token) + Seq::<char>::empty() =~= escaped(token));
}

} // verus!
