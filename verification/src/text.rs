//! Characters and runs of characters: the classes that the scanners tell
//! apart, spans of one class, and comparison of names under a case rule.

use vstd::prelude::*;

verus! {

/// `String::push` puts one character at the end of the string.
pub assume_specification[ String::push ](s: &mut String, c: char)
    ensures
        final(s)@ == old(s)@.push(c),
;

/// White space as Unicode defines it (the property `White_Space`).
pub open spec fn is_whitespace(c: char) -> bool {
    ||| ('\u{9}' <= c && c <= '\u{D}')
    ||| c == ' '
    ||| c == '\u{85}'
    ||| c == '\u{A0}'
    ||| c == '\u{1680}'
    ||| ('\u{2000}' <= c && c <= '\u{200A}')
    ||| c == '\u{2028}'
    ||| c == '\u{2029}'
    ||| c == '\u{202F}'
    ||| c == '\u{205F}'
    ||| c == '\u{3000}'
}

/// White space within ASCII: space, tab, line feed, form feed, carriage return.
pub open spec fn is_ascii_whitespace(c: char) -> bool {
    c == ' ' || c == '\t' || c == '\n' || c == '\u{C}' || c == '\r'
}

/// A character that cannot stand in the name of a shell function.
pub open spec fn ends_name(c: char) -> bool {
    ||| c == '<'
    ||| c == '>'
    ||| c == '['
    ||| c == ']'
    ||| c == '{'
    ||| c == '}'
    ||| c == '('
    ||| c == ')'
    ||| c == '\t'
    ||| c == '\r'
    ||| c == '\n'
    ||| c == '\0'
    ||| c == ' '
    ||| c == '\\'
    ||| c == '*'
    ||| c == '?'
    ||| c == '$'
    ||| c == '~'
    ||| c == ';'
    ||| c == '#'
    ||| c == '`'
    ||| c == '\''
    ||| c == '"'
}

/// The classes of characters that the scanners tell apart.
#[derive(Clone, Copy, Debug)]
pub enum CharClass {
    /// A space or a tab.
    Space,
    /// A space, a tab, a carriage return or a line feed.
    Multispace,
    /// A line feed.
    Newline,
    /// Anything but a line feed.
    Inline,
    /// White space as Unicode defines it.
    Whitespace,
    /// White space as Unicode defines it, the line feed left out.
    Blank,
    /// What may stand before the `=` of an alias: neither `=` nor ASCII white space.
    Word,
    /// What may stand in the name of a function.
    Name,
    /// Anything but a semicolon.
    Entry,
}

impl CharClass {
    /// Whether `c` belongs to the class.
    pub open spec fn holds(self, c: char) -> bool {
        match self {
            CharClass::Space => c == ' ' || c == '\t',
            CharClass::Multispace => c == ' ' || c == '\t' || c == '\r' || c == '\n',
            CharClass::Newline => c == '\n',
            CharClass::Inline => c != '\n',
            CharClass::Whitespace => is_whitespace(c),
            CharClass::Blank => is_whitespace(c) && c != '\n',
            CharClass::Word => c != '=' && !is_ascii_whitespace(c),
            CharClass::Name => !ends_name(c),
            CharClass::Entry => c != ';',
        }
    }

    /// Tells whether `c` belongs to the class.
    pub fn contains(self, c: char) -> (b: bool)
        ensures
            b == self.holds(c),
    {
        match self {
            CharClass::Space => c == ' ' || c == '\t',
            CharClass::Multispace => c == ' ' || c == '\t' || c == '\r' || c == '\n',
            CharClass::Newline => c == '\n',
            CharClass::Inline => c != '\n',
            CharClass::Whitespace => whitespace(c),
            CharClass::Blank => c != '\n' && whitespace(c),
            CharClass::Word => c != '=' && !(c == ' ' || c == '\t' || c == '\n' || c == '\u{C}'
                || c == '\r'),
            CharClass::Name => !(c == '<' || c == '>' || c == '[' || c == ']' || c == '{' || c
                == '}' || c == '(' || c == ')' || c == '\t' || c == '\r' || c == '\n' || c == '\0'
                || c == ' ' || c == '\\' || c == '*' || c == '?' || c == '$' || c == '~' || c
                == ';' || c == '#' || c == '`' || c == '\'' || c == '"'),
            CharClass::Entry => c != ';',
        }
    }
}

/// Tells whether `c` is white space as Unicode defines it.
pub fn whitespace(c: char) -> (b: bool)
    ensures
        b == is_whitespace(c),
{
    ('\u{9}' <= c && c <= '\u{D}') || c == ' ' || c == '\u{85}' || c == '\u{A0}' || c
        == '\u{1680}' || ('\u{2000}' <= c && c <= '\u{200A}') || c == '\u{2028}' || c
        == '\u{2029}' || c == '\u{202F}' || c == '\u{205F}' || c == '\u{3000}'
}

/// Where the run of characters of class `cls` that begins at `from` ends:
/// the first index at or after `from` whose character is outside the class,
/// or the length of `s` if there is none.
pub open spec fn span_end(s: Seq<char>, from: int, cls: CharClass) -> int
    decreases s.len() - from,
{
    if 0 <= from < s.len() && cls.holds(s[from]) {
        span_end(s, from + 1, cls)
    } else {
        from
    }
}

/// Where the text between `from` and `to` ends once the characters of class
/// `cls` at its end are taken off.
pub open spec fn trimmed_end(s: Seq<char>, from: int, to: int, cls: CharClass) -> int
    decreases to - from,
{
    if from < to <= s.len() && 0 <= from && cls.holds(s[to - 1]) {
        trimmed_end(s, from, to - 1, cls)
    } else {
        to
    }
}

/// Whether `lit` stands in `s` at index `at`.
pub open spec fn stands_at(s: Seq<char>, at: int, lit: Seq<char>) -> bool {
    &&& 0 <= at
    &&& at + lit.len() <= s.len()
    &&& s.subrange(at, at + lit.len()) == lit
}

/// A span ends within the text, every character before its end is of the
/// class, and the character at its end, if there is one, is not.
pub proof fn lemma_span_end(s: Seq<char>, from: int, cls: CharClass)
    requires
        0 <= from <= s.len(),
    ensures
        from <= span_end(s, from, cls) <= s.len(),
        forall|i: int| from <= i < span_end(s, from, cls) ==> cls.holds(#[trigger] s[i]),
        span_end(s, from, cls) < s.len() ==> !cls.holds(s[span_end(s, from, cls)]),
    decreases s.len() - from,
{
    if from < s.len() && cls.holds(s[from]) {
        lemma_span_end(s, from + 1, cls);
    }
}

/// A span that is taken up again inside itself ends where it ended.
pub proof fn lemma_span_end_resumes(s: Seq<char>, from: int, mid: int, cls: CharClass)
    requires
        0 <= from <= mid <= s.len(),
        forall|i: int| from <= i < mid ==> cls.holds(#[trigger] s[i]),
    ensures
        span_end(s, from, cls) == span_end(s, mid, cls),
    decreases mid - from,
{
    if from < mid {
        assert(cls.holds(s[from]));
        lemma_span_end_resumes(s, from + 1, mid, cls);
    }
}

/// The trimmed end lies between the two bounds, only characters of the class
/// were taken off, and the character before it, if there is one, is not of
/// the class.
pub proof fn lemma_trimmed_end(s: Seq<char>, from: int, to: int, cls: CharClass)
    requires
        0 <= from <= to <= s.len(),
    ensures
        from <= trimmed_end(s, from, to, cls) <= to,
        forall|i: int| trimmed_end(s, from, to, cls) <= i < to ==> cls.holds(#[trigger] s[i]),
        from < trimmed_end(s, from, to, cls) ==> !cls.holds(s[trimmed_end(s, from, to, cls) - 1]),
    decreases to - from,
{
    if from < to && cls.holds(s[to - 1]) {
        lemma_trimmed_end(s, from, to - 1, cls);
    }
}

/// The characters of `s`, one by one.
pub fn to_chars(s: &str) -> (v: Vec<char>)
    ensures
        v@ == s@,
{
    let mut v: Vec<char> = Vec::new();
    for c in it: s.chars()
        invariant
            it.seq() == s@,
            v@ == it.seq().take(it.index() as int),
    {
        v.push(c);
    }
    v
}

/// Runs over the characters of class `cls` from `from` on and returns where
/// the run ends.
pub fn skip(s: &Vec<char>, from: usize, cls: CharClass) -> (r: usize)
    requires
        from <= s.len(),
    ensures
        r == span_end(s@, from as int, cls),
        from <= r <= s.len(),
{
    let mut i: usize = from;
    while i < s.len() && cls.contains(s[i])
        invariant
            from <= i <= s.len(),
            span_end(s@, from as int, cls) == span_end(s@, i as int, cls),
        decreases s.len() - i,
    {
        i = i + 1;
    }
    i
}

/// Takes the characters of class `cls` off the end of the text between `from`
/// and `to` and returns where it then ends.
pub fn trim_end(s: &Vec<char>, from: usize, to: usize, cls: CharClass) -> (r: usize)
    requires
        from <= to <= s.len(),
    ensures
        r == trimmed_end(s@, from as int, to as int, cls),
        from <= r <= to,
{
    let mut i: usize = to;
    while from < i && cls.contains(s[i - 1])
        invariant
            from <= i <= to <= s.len(),
            trimmed_end(s@, from as int, to as int, cls) == trimmed_end(
                s@,
                from as int,
                i as int,
                cls,
            ),
        decreases i - from,
    {
        i = i - 1;
    }
    i
}

/// Tells whether `lit` stands in `s` at index `at`.
pub fn has_at(s: &Vec<char>, at: usize, lit: &Vec<char>) -> (b: bool)
    requires
        at <= s.len(),
    ensures
        b == stands_at(s@, at as int, lit@),
{
    if lit.len() > s.len() - at {
        return false;
    }
    let mut i: usize = 0;
    while i < lit.len()
        invariant
            at + lit.len() <= s.len(),
            i <= lit.len(),
            forall|j: int| 0 <= j < i ==> s@[at + j] == lit@[j],
        decreases lit.len() - i,
    {
        if s[at + i] != lit[i] {
            proof {
                let sub = s@.subrange(at as int, at + lit.len());
                assert(sub[i as int] == s@[at + i]);
            }
            return false;
        }
        i = i + 1;
    }
    proof {
        assert(s@.subrange(at as int, at + lit.len()) =~= lit@);
    }
    true
}

/// The code of `c`, with that of the small letter for an ASCII capital.
pub open spec fn folded(c: char) -> int {
    if 'A' <= c && c <= 'Z' {
        c as u32 + 32
    } else {
        c as u32 as int
    }
}

/// Whether two texts are the same under a case rule: character for
/// character, or, where case is not respected, with ASCII capitals and small
/// letters taken as one.
pub open spec fn same_text(a: Seq<char>, b: Seq<char>, case_insensitive: bool) -> bool {
    if case_insensitive {
        &&& a.len() == b.len()
        &&& forall|i: int| 0 <= i < a.len() ==> folded(#[trigger] a[i]) == folded(b[i])
    } else {
        a == b
    }
}

/// How often `c` stands in `s`.
pub open spec fn occurrences(s: Seq<char>, c: char) -> nat
    decreases s.len(),
{
    if s.len() == 0 {
        0
    } else {
        occurrences(s.drop_last(), c) + if s.last() == c {
            1nat
        } else {
            0nat
        }
    }
}

/// The code of `c`, with that of the small letter for an ASCII capital.
pub fn fold(c: char) -> (r: u32)
    ensures
        r == folded(c),
{
    if 'A' <= c && c <= 'Z' {
        c as u32 + 32
    } else {
        c as u32
    }
}

/// Tells whether two runs of characters are the same under a case rule.
pub fn same_chars(a: &Vec<char>, b: &Vec<char>, case_insensitive: bool) -> (r: bool)
    ensures
        r == same_text(a@, b@, case_insensitive),
{
    if a.len() != b.len() {
        return false;
    }
    let mut i: usize = 0;
    while i < a.len()
        invariant
            a.len() == b.len(),
            i <= a.len(),
            forall|j: int| 0 <= j < i ==> a@[j] == b@[j] || (case_insensitive && folded(a@[j])
                == folded(b@[j])),
        decreases a.len() - i,
    {
        let same = if case_insensitive {
            fold(a[i]) == fold(b[i])
        } else {
            a[i] == b[i]
        };
        if !same {
            return false;
        }
        i = i + 1;
    }
    proof {
        if !case_insensitive {
            assert(a@ =~= b@);
        }
    }
    true
}

/// Tells whether two texts are the same under a case rule.
pub fn equal(a: &str, b: &str, case_insensitive: bool) -> (r: bool)
    ensures
        r == same_text(a@, b@, case_insensitive),
{
    let x = to_chars(a);
    let y = to_chars(b);
    same_chars(&x, &y, case_insensitive)
}

/// Counts how often `c` stands in `s`.
pub fn count(s: &Vec<char>, c: char) -> (n: usize)
    ensures
        n == occurrences(s@, c),
        n <= s.len(),
{
    let mut n: usize = 0;
    let mut i: usize = 0;
    assert(s@.take(0) =~= Seq::<char>::empty());
    while i < s.len()
        invariant
            i <= s.len(),
            n <= i,
            n == occurrences(s@.take(i as int), c),
        decreases s.len() - i,
    {
        assert(s@.take(i + 1).drop_last() =~= s@.take(i as int));
        if s[i] == c {
            n = n + 1;
        }
        i = i + 1;
    }
    assert(s@.take(s.len() as int) =~= s@);
    n
}

/// The characters of `s` from `from` up to `to`, as a string.
pub fn to_string(s: &Vec<char>, from: usize, to: usize) -> (r: String)
    requires
        from <= to <= s.len(),
    ensures
        r@ == s@.subrange(from as int, to as int),
{
    let mut r = String::new();
    let mut i: usize = from;
    assert(r@ =~= s@.subrange(from as int, from as int));
    while i < to
        invariant
            from <= i <= to <= s.len(),
            r@ == s@.subrange(from as int, i as int),
        decreases to - i,
    {
        r.push(s[i]);
        assert(r@ =~= s@.subrange(from as int, i + 1));
        i = i + 1;
    }
    r
}

} // verus!
