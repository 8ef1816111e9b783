//! Reads the aliases and functions out of a captured shell session, such as
//! the output of `alias; declare -f` in Bash.
//!
//! The reader is lenient: it takes what it recognises and passes over every
//! line that it does not.

use vstd::prelude::*;
use vstd::string::*;
use crate::text::{
    CharClass, has_at, lemma_span_end, lemma_span_end_resumes, lemma_trimmed_end, skip, span_end,
    stands_at, to_chars, trim_end, trimmed_end,
};

verus! {

/// An alias: the name before `=` and the rest of its line.
#[derive(Clone, Copy, Debug)]
pub struct Alias<'a> {
    pub lhs: &'a str,
    pub rhs: &'a str,
}

/// A shell function: its name and the lines between its braces.
#[derive(Clone, Copy, Debug)]
pub struct Function<'a> {
    pub name: &'a str,
    pub body: &'a str,
}

/// What the reader finds in a session.
#[derive(Clone, Copy, Debug)]
pub enum Item<'a> {
    Alias(Alias<'a>),
    Function(Function<'a>),
}

/// What an item says, as plain text.
pub enum Record {
    Alias { name: Seq<char>, value: Seq<char> },
    Function { name: Seq<char>, body: Seq<char> },
}

impl<'a> View for Alias<'a> {
    type V = Record;

    open spec fn view(&self) -> Record {
        Record::Alias { name: self.lhs@, value: self.rhs@ }
    }
}

impl<'a> View for Function<'a> {
    type V = Record;

    open spec fn view(&self) -> Record {
        Record::Function { name: self.name@, body: self.body@ }
    }
}

impl<'a> View for Item<'a> {
    type V = Record;

    open spec fn view(&self) -> Record {
        match *self {
            Item::Alias(a) => a@,
            Item::Function(f) => f@,
        }
    }
}

/// The records of a sequence of items, in order.
pub open spec fn records_of(items: Seq<Item<'_>>) -> Seq<Record> {
    Seq::new(items.len(), |i: int| items[i]@)
}

impl<'a> Alias<'a> {
    /// The alias as the shell would print it: `alias name=value`.
    pub fn to_text(&self) -> (r: String)
        ensures
            r@ == "alias "@ + self.lhs@ + "="@ + self.rhs@,
    {
        let mut r = String::from_str("alias ");
        r.append(self.lhs);
        r.append("=");
        r.append(self.rhs);
        r
    }
}

impl<'a> Function<'a> {
    /// The function as the shell would print it: the name, `() {`, the body
    /// on lines of its own, and `}`.
    pub fn to_text(&self) -> (r: String)
        ensures
            r@ == self.name@ + "() {\n"@ + self.body@ + "\n}"@,
    {
        let mut r = String::from_str(self.name);
        r.append("() {\n");
        r.append(self.body);
        r.append("\n}");
        r
    }
}

impl<'a> Item<'a> {
    /// The item as the shell would print it.
    pub fn to_text(&self) -> (r: String)
        ensures
            r@ == match *self {
                Item::Alias(a) => "alias "@ + a.lhs@ + "="@ + a.rhs@,
                Item::Function(f) => f.name@ + "() {\n"@ + f.body@ + "\n}"@,
            },
    {
        match self {
            Item::Alias(a) => a.to_text(),
            Item::Function(f) => f.to_text(),
        }
    }
}

/// Where a definition stands in the text: its name, its value or body, and
/// the index at which reading goes on.
pub struct Extent {
    pub name_start: int,
    pub name_end: int,
    pub text_start: int,
    pub text_end: int,
    pub next: int,
}

/// An `Extent` found by the reader.
#[derive(Clone, Copy, Debug)]
pub struct Definition {
    pub name_start: usize,
    pub name_end: usize,
    pub text_start: usize,
    pub text_end: usize,
    pub next: usize,
}

impl View for Definition {
    type V = Extent;

    open spec fn view(&self) -> Extent {
        Extent {
            name_start: self.name_start as int,
            name_end: self.name_end as int,
            text_start: self.text_start as int,
            text_end: self.text_end as int,
            next: self.next as int,
        }
    }
}

impl Extent {
    /// The extent lies in a text of length `len`, its parts in order, and
    /// reading goes on after index `at`.
    pub open spec fn fits(self, at: int, len: int) -> bool {
        &&& 0 <= at <= self.name_start <= self.name_end <= self.text_start
        &&& self.text_start <= self.text_end <= self.next <= len
        &&& at < self.next
    }

    /// The alias that stands at this extent of `s`.
    pub open spec fn alias(self, s: Seq<char>) -> Record {
        Record::Alias {
            name: s.subrange(self.name_start, self.name_end),
            value: s.subrange(self.text_start, self.text_end),
        }
    }

    /// The function that stands at this extent of `s`.
    pub open spec fn function(self, s: Seq<char>) -> Record {
        Record::Function {
            name: s.subrange(self.name_start, self.name_end),
            body: s.subrange(self.text_start, self.text_end),
        }
    }
}

/// The keyword that opens an alias.
pub open spec fn alias_keyword() -> Seq<char> {
    seq!['a', 'l', 'i', 'a', 's']
}

/// The keyword that may open a function.
pub open spec fn function_keyword() -> Seq<char> {
    seq!['f', 'u', 'n', 'c', 't', 'i', 'o', 'n']
}

/// The parentheses after the name of a function.
pub open spec fn parentheses() -> Seq<char> {
    seq!['(', ')']
}

/// Where the line that holds index `at` ends: after its line feed, or at the
/// end of the text if no line feed follows.
pub open spec fn line_end(s: Seq<char>, at: int) -> int {
    let nl = span_end(s, at, CharClass::Inline);
    if nl < s.len() {
        nl + 1
    } else {
        nl
    }
}

/// Where the `=` stands that ends the word beginning at `at`. The word is not
/// empty and holds no ASCII white space.
pub open spec fn word_end(s: Seq<char>, at: int) -> Option<int> {
    let e = span_end(s, at, CharClass::Word);
    if at < e < s.len() && s[e] == '=' {
        Some(e)
    } else {
        None
    }
}

/// The alias that begins at `at`, if one does: the keyword `alias`, spaces or
/// tabs, a word ended by `=`, and the rest of the line, which must not be the
/// end of the text, with the white space at its end taken off.
pub open spec fn alias_at(s: Seq<char>, at: int) -> Option<Extent> {
    if !stands_at(s, at, alias_keyword()) {
        None
    } else {
        let after_keyword = at + 5;
        let name_start = span_end(s, after_keyword, CharClass::Space);
        if name_start == after_keyword {
            None
        } else {
            match word_end(s, name_start) {
                None => None,
                Some(name_end) => {
                    let text_start = name_end + 1;
                    if text_start >= s.len() {
                        None
                    } else {
                        let next = line_end(s, text_start);
                        Some(
                            Extent {
                                name_start,
                                name_end,
                                text_start,
                                text_end: trimmed_end(s, text_start, next, CharClass::Whitespace),
                                next,
                            },
                        )
                    }
                },
            }
        }
    }
}

/// Whether the line feed at `p` and the `}` after it close a function body:
/// nothing but white space follows the brace on its line.
pub open spec fn closes_at(s: Seq<char>, p: int) -> bool {
    &&& 0 <= p
    &&& p + 1 < s.len()
    &&& s[p] == '\n'
    &&& s[p + 1] == '}'
    &&& {
        let e = span_end(s, p + 2, CharClass::Blank);
        e == s.len() || s[e] == '\n'
    }
}

/// Where reading goes on after the closing brace whose line feed is at `p`:
/// after the end of the brace's line.
pub open spec fn after_closer(s: Seq<char>, p: int) -> int {
    let e = span_end(s, p + 2, CharClass::Blank);
    if e < s.len() {
        e + 1
    } else {
        e
    }
}

/// The first index at or after `from` at which a function body closes.
pub open spec fn closer(s: Seq<char>, from: int) -> Option<int>
    decreases s.len() - from,
{
    if from < 0 || from + 1 >= s.len() {
        None
    } else if closes_at(s, from) {
        Some(from)
    } else {
        closer(s, from + 1)
    }
}

/// Where the name of a function that begins at `at` begins: after the
/// keyword `function` and its spaces or tabs, if they stand there.
pub open spec fn function_name_start(s: Seq<char>, at: int) -> int {
    let after_keyword = span_end(s, at + 8, CharClass::Space);
    if stands_at(s, at, function_keyword()) && after_keyword > at + 8 {
        after_keyword
    } else {
        at
    }
}

/// Where the body of the function begins whose name ends at `name_end`:
/// after spaces or tabs, `()`, white space, `{`, spaces or tabs, and one line
/// feed or more.
pub open spec fn body_start(s: Seq<char>, name_end: int) -> Option<int> {
    let paren = span_end(s, name_end, CharClass::Space);
    if !stands_at(s, paren, parentheses()) {
        None
    } else {
        let brace = span_end(s, paren + 2, CharClass::Multispace);
        if !(brace < s.len() && s[brace] == '{') {
            None
        } else {
            let feed = span_end(s, brace + 1, CharClass::Space);
            let start = span_end(s, feed, CharClass::Newline);
            if start == feed {
                None
            } else {
                Some(start)
            }
        }
    }
}

/// The function that begins at `at`, if one does. Its body runs up to the
/// first closing brace that stands alone on its line, with the line feeds at
/// its end taken off; none stands at its beginning.
pub open spec fn function_at(s: Seq<char>, at: int) -> Option<Extent> {
    let name_start = function_name_start(s, at);
    let name_end = span_end(s, name_start, CharClass::Name);
    if name_end == name_start {
        None
    } else {
        match body_start(s, name_end) {
            None => None,
            Some(text_start) => match closer(s, text_start) {
                None => None,
                Some(close) => Some(
                    Extent {
                        name_start,
                        name_end,
                        text_start,
                        text_end: trimmed_end(s, text_start, close, CharClass::Newline),
                        next: after_closer(s, close),
                    },
                ),
            },
        }
    }
}

/// What the reader finds in `s` from index `at` on: at each place an alias
/// if one begins there, else a function if one begins there, else nothing,
/// and the line is passed over.
pub open spec fn records_from(s: Seq<char>, at: int) -> Seq<Record>
    decreases s.len() - at,
    via records_from_decreases
{
    if at < 0 || at >= s.len() {
        Seq::empty()
    } else {
        match alias_at(s, at) {
            Some(x) => seq![x.alias(s)] + records_from(s, x.next),
            None => match function_at(s, at) {
                Some(x) => seq![x.function(s)] + records_from(s, x.next),
                None => records_from(s, line_end(s, at)),
            },
        }
    }
}

#[via_fn]
proof fn records_from_decreases(s: Seq<char>, at: int) {
    if 0 <= at < s.len() {
        lemma_alias_at(s, at);
        lemma_function_at(s, at);
        lemma_line_end(s, at);
    }
}

/// What the reader finds in a session.
pub open spec fn records(s: Seq<char>) -> Seq<Record> {
    records_from(s, 0)
}

/// The end of a line lies after every index of the line.
pub proof fn lemma_line_end(s: Seq<char>, at: int)
    requires
        0 <= at < s.len(),
    ensures
        at < line_end(s, at) <= s.len(),
{
    lemma_span_end(s, at, CharClass::Inline);
}

/// An alias lies in the text, its parts in order, and reading goes on after
/// it. Its name is not empty, holds neither `=` nor ASCII white space, and
/// is followed by `=`; its value holds no line feed and does not end with
/// white space.
pub proof fn lemma_alias_at(s: Seq<char>, at: int)
    requires
        0 <= at <= s.len(),
    ensures
        alias_at(s, at) matches Some(x) ==> {
            &&& x.fits(at, s.len() as int)
            &&& x.name_start < x.name_end
            &&& forall|i: int|
                x.name_start <= i < x.name_end ==> CharClass::Word.holds(#[trigger] s[i])
            &&& s[x.name_end] == '='
            &&& x.text_start == x.name_end + 1
            &&& forall|i: int| x.text_start <= i < x.text_end ==> #[trigger] s[i] != '\n'
            &&& x.text_start < x.text_end ==> !CharClass::Whitespace.holds(s[x.text_end - 1])
        },
{
    if stands_at(s, at, alias_keyword()) {
        let name_start = span_end(s, at + 5, CharClass::Space);
        lemma_span_end(s, at + 5, CharClass::Space);
        lemma_span_end(s, name_start, CharClass::Word);
        if let Some(name_end) = word_end(s, name_start) {
            if name_end + 1 < s.len() {
                lemma_line_end(s, name_end + 1);
                lemma_span_end(s, name_end + 1, CharClass::Inline);
                lemma_trimmed_end(
                    s,
                    name_end + 1,
                    line_end(s, name_end + 1),
                    CharClass::Whitespace,
                );
                let feed = span_end(s, name_end + 1, CharClass::Inline);
                let text_end = trimmed_end(
                    s,
                    name_end + 1,
                    line_end(s, name_end + 1),
                    CharClass::Whitespace,
                );
                if feed < s.len() {
                    // The line feed is white space: the value ends before it.
                    assert(CharClass::Whitespace.holds(s[feed]));
                    assert(text_end <= feed);
                }
            }
        }
    }
}

/// Where a body closes lies at or after the index from which it was sought,
/// a body does close there, and none closes between the two.
pub proof fn lemma_closer(s: Seq<char>, from: int)
    requires
        0 <= from,
    ensures
        closer(s, from) matches Some(c) ==> from <= c && closes_at(s, c),
        forall|p: int|
            from <= p && (closer(s, from) matches Some(c) ==> p < c) ==> !closes_at(s, p),
    decreases s.len() - from,
{
    if from + 1 < s.len() && !closes_at(s, from) {
        lemma_closer(s, from + 1);
    }
}

/// Where reading goes on after a closing brace lies after the brace.
pub proof fn lemma_after_closer(s: Seq<char>, p: int)
    requires
        0 <= p,
        p + 1 < s.len(),
    ensures
        p + 2 <= after_closer(s, p) <= s.len(),
{
    lemma_span_end(s, p + 2, CharClass::Blank);
}

/// A function lies in the text, its parts in order, and reading goes on
/// after it. Its name is not empty and holds no character that ends a
/// name; its body neither begins nor ends with a line feed, and a line feed
/// and a closing brace follow the body and the line feeds behind it.
pub proof fn lemma_function_at(s: Seq<char>, at: int)
    requires
        0 <= at <= s.len(),
    ensures
        function_at(s, at) matches Some(x) ==> {
            &&& x.fits(at, s.len() as int)
            &&& x.name_start < x.name_end
            &&& forall|i: int|
                x.name_start <= i < x.name_end ==> CharClass::Name.holds(#[trigger] s[i])
            &&& x.text_start < x.text_end ==> s[x.text_start] != '\n' && s[x.text_end - 1]
                != '\n'
            &&& closer(s, x.text_start) matches Some(close) && x.text_end <= close < x.next
                && closes_at(s, close)
        },
{
    let name_start = function_name_start(s, at);
    if at + 8 <= s.len() {
        lemma_span_end(s, at + 8, CharClass::Space);
    }
    lemma_span_end(s, name_start, CharClass::Name);
    let name_end = span_end(s, name_start, CharClass::Name);
    lemma_span_end(s, name_end, CharClass::Space);
    let paren = span_end(s, name_end, CharClass::Space);
    if stands_at(s, paren, parentheses()) {
        lemma_span_end(s, paren + 2, CharClass::Multispace);
        let brace = span_end(s, paren + 2, CharClass::Multispace);
        if brace < s.len() {
            lemma_span_end(s, brace + 1, CharClass::Space);
            let feed = span_end(s, brace + 1, CharClass::Space);
            lemma_span_end(s, feed, CharClass::Newline);
            let start = span_end(s, feed, CharClass::Newline);
            lemma_closer(s, start);
            if let Some(close) = closer(s, start) {
                lemma_after_closer(s, close);
                lemma_trimmed_end(s, start, close, CharClass::Newline);
            }
        }
    }
}

/// At no place do both an alias and a function begin: the order in which
/// the two are looked for makes no difference.
pub proof fn lemma_alias_or_function(s: Seq<char>, at: int)
    requires
        0 <= at <= s.len(),
    ensures
        !(alias_at(s, at) is Some && function_at(s, at) is Some),
{
    if alias_at(s, at) is Some && function_at(s, at) is Some {
        let keyword = s.subrange(at, at + 5);
        assert(keyword == alias_keyword());
        assert(s[at] == keyword[0] && s[at + 1] == keyword[1] && s[at + 2] == keyword[2] && s[at
            + 3] == keyword[3] && s[at + 4] == keyword[4]);
        // The name of the function is the keyword of the alias.
        if stands_at(s, at, function_keyword()) {
            assert(s.subrange(at, at + 8)[0] == 'f');
        }
        assert(function_name_start(s, at) == at);
        let name = span_end(s, at + 5, CharClass::Space);
        lemma_span_end(s, at + 5, CharClass::Space);
        assert(CharClass::Space.holds(s[at + 5]));
        assert forall|i: int| at <= i < at + 5 implies CharClass::Name.holds(#[trigger] s[i]) by {
            assert(i == at || i == at + 1 || i == at + 2 || i == at + 3 || i == at + 4);
        }
        lemma_span_end_resumes(s, at, at + 5, CharClass::Name);
        assert(span_end(s, at, CharClass::Name) == at + 5);
        // What follows the name of the function holds white space before any `=`.
        let pair = s.subrange(name, name + 2);
        assert(pair == parentheses());
        assert(s[name] == pair[0] && s[name + 1] == pair[1]);
        let brace = span_end(s, name + 2, CharClass::Multispace);
        lemma_span_end(s, name + 2, CharClass::Multispace);
        let feed = span_end(s, brace + 1, CharClass::Space);
        lemma_span_end(s, brace + 1, CharClass::Space);
        lemma_span_end(s, feed, CharClass::Newline);
        let white = if brace > name + 2 {
            name + 2
        } else if feed > brace + 1 {
            brace + 1
        } else {
            feed
        };
        assert(!CharClass::Word.holds(s[white]));
        assert(s[white] != '=');
        assert forall|i: int| name <= i < white implies CharClass::Word.holds(#[trigger] s[i]) by {
            assert(i == name || i == name + 1 || i == brace);
        }
        lemma_span_end_resumes(s, name, white, CharClass::Word);
        assert(span_end(s, name, CharClass::Word) == white);
        assert(word_end(s, name) is None);
    }
}

impl Record {
    /// Whether the record is one that the reader can find. The name of an
    /// alias is not empty and holds neither `=` nor ASCII white space; its
    /// value holds no line feed and does not end with white space. The name
    /// of a function is not empty and holds no character that ends a name;
    /// its body neither begins nor ends with a line feed.
    pub open spec fn is_sound(self) -> bool {
        match self {
            Record::Alias { name, value } => {
                &&& name.len() > 0
                &&& forall|i: int| 0 <= i < name.len() ==> CharClass::Word.holds(#[trigger] name[i])
                &&& forall|i: int| 0 <= i < value.len() ==> #[trigger] value[i] != '\n'
                &&& value.len() > 0 ==> !CharClass::Whitespace.holds(value.last())
            },
            Record::Function { name, body } => {
                &&& name.len() > 0
                &&& forall|i: int| 0 <= i < name.len() ==> CharClass::Name.holds(#[trigger] name[i])
                &&& body.len() > 0 ==> body[0] != '\n' && body.last() != '\n'
            },
        }
    }
}

/// Every record that the reader finds is sound.
pub proof fn lemma_records_are_sound(s: Seq<char>, at: int)
    ensures
        forall|k: int|
            0 <= k < records_from(s, at).len() ==> (#[trigger] records_from(s, at)[k]).is_sound(),
    decreases s.len() - at,
{
    if 0 <= at < s.len() {
        lemma_alias_at(s, at);
        lemma_function_at(s, at);
        lemma_line_end(s, at);
        match alias_at(s, at) {
            Some(x) => {
                lemma_records_are_sound(s, x.next);
                assert(x.alias(s).is_sound());
                let rest = records_from(s, x.next);
                assert(records_from(s, at) == seq![x.alias(s)] + rest);
                assert forall|k: int| 0 <= k < records_from(s, at).len() implies (
                #[trigger] records_from(s, at)[k]).is_sound() by {
                    if k > 0 {
                        assert(records_from(s, at)[k] == rest[k - 1]);
                    } else {
                        assert(records_from(s, at)[0] == x.alias(s));
                    }
                }
            },
            None => match function_at(s, at) {
                Some(x) => {
                    lemma_records_are_sound(s, x.next);
                    assert(x.function(s).is_sound());
                    let rest = records_from(s, x.next);
                    assert(records_from(s, at) == seq![x.function(s)] + rest);
                    assert forall|k: int| 0 <= k < records_from(s, at).len() implies (
                    #[trigger] records_from(s, at)[k]).is_sound() by {
                        if k > 0 {
                            assert(records_from(s, at)[k] == rest[k - 1]);
                        } else {
                            assert(records_from(s, at)[0] == x.function(s));
                        }
                    }
                },
                None => {
                    lemma_records_are_sound(s, line_end(s, at));
                    assert(records_from(s, at) == records_from(s, line_end(s, at)));
                },
            },
        }
    }
}

/// Where the line that holds index `at` ends, or `None` at the end of the
/// text.
pub fn consume_line(s: &Vec<char>, at: usize) -> (r: Option<usize>)
    requires
        at <= s.len(),
    ensures
        match r {
            Some(n) => at < s.len() && n == line_end(s@, at as int) && at < n <= s.len(),
            None => at == s.len(),
        },
{
    if at >= s.len() {
        return None;
    }
    proof {
        lemma_line_end(s@, at as int);
    }
    let nl = skip(s, at, CharClass::Inline);
    if nl < s.len() {
        Some(nl + 1)
    } else {
        Some(nl)
    }
}

/// Where the `=` stands that ends the word beginning at `at`, or `None` if
/// the word is empty, holds ASCII white space, or no `=` ends it.
pub fn terminated_word(s: &Vec<char>, at: usize) -> (r: Option<usize>)
    requires
        at <= s.len(),
    ensures
        match r {
            Some(e) => word_end(s@, at as int) == Some(e as int) && at < e < s.len(),
            None => word_end(s@, at as int) is None,
        },
{
    let e = skip(s, at, CharClass::Word);
    if at < e && e < s.len() && s[e] == '=' {
        Some(e)
    } else {
        None
    }
}

/// The alias that begins at `at`, if one does.
pub fn parse_alias(s: &Vec<char>, at: usize) -> (r: Option<Definition>)
    requires
        at <= s.len(),
    ensures
        match r {
            Some(d) => alias_at(s@, at as int) == Some(d@) && d@.fits(at as int, s.len() as int),
            None => alias_at(s@, at as int) is None,
        },
{
    proof {
        lemma_alias_at(s@, at as int);
    }
    let keyword: Vec<char> = vec!['a', 'l', 'i', 'a', 's'];
    assert(keyword@ =~= alias_keyword());
    if !has_at(s, at, &keyword) {
        return None;
    }
    let after_keyword = at + 5;
    let name_start = skip(s, after_keyword, CharClass::Space);
    if name_start == after_keyword {
        return None;
    }
    match terminated_word(s, name_start) {
        None => None,
        Some(name_end) => {
            let text_start = name_end + 1;
            match consume_line(s, text_start) {
                None => None,
                Some(next) => {
                    let text_end = trim_end(s, text_start, next, CharClass::Whitespace);
                    Some(Definition { name_start, name_end, text_start, text_end, next })
                },
            }
        },
    }
}

/// Where the body that begins at `from` ends and where reading goes on after
/// its closing brace, or `None` if no brace closes it. The brace that closes
/// a body follows a line feed and has nothing but white space after it on
/// its line.
pub fn until_alone_rbrace(s: &Vec<char>, from: usize) -> (r: Option<(usize, usize)>)
    requires
        from <= s.len(),
    ensures
        match r {
            Some((close, next)) => {
                &&& closer(s@, from as int) == Some(close as int)
                &&& next == after_closer(s@, close as int)
                &&& from <= close < next <= s.len()
            },
            None => closer(s@, from as int) is None,
        },
{
    let mut p: usize = from;
    while p < s.len() && s.len() - p >= 2
        invariant
            from <= p <= s.len(),
            closer(s@, from as int) == closer(s@, p as int),
        decreases s.len() - p,
    {
        if s[p] == '\n' && s[p + 1] == '}' {
            let e = skip(s, p + 2, CharClass::Blank);
            if e == s.len() {
                return Some((p, e));
            }
            if s[e] == '\n' {
                return Some((p, e + 1));
            }
        }
        p = p + 1;
    }
    None
}

/// The function that begins at `at`, if one does.
pub fn parse_function(s: &Vec<char>, at: usize) -> (r: Option<Definition>)
    requires
        at <= s.len(),
    ensures
        match r {
            Some(d) => function_at(s@, at as int) == Some(d@) && d@.fits(
                at as int,
                s.len() as int,
            ),
            None => function_at(s@, at as int) is None,
        },
{
    proof {
        lemma_function_at(s@, at as int);
    }
    let keyword: Vec<char> = vec!['f', 'u', 'n', 'c', 't', 'i', 'o', 'n'];
    assert(keyword@ =~= function_keyword());
    let mut name_start = at;
    if has_at(s, at, &keyword) {
        let after_keyword = skip(s, at + 8, CharClass::Space);
        if after_keyword > at + 8 {
            name_start = after_keyword;
        }
    }
    let name_end = skip(s, name_start, CharClass::Name);
    if name_end == name_start {
        return None;
    }
    let paren = skip(s, name_end, CharClass::Space);
    let pair: Vec<char> = vec!['(', ')'];
    assert(pair@ =~= parentheses());
    if !has_at(s, paren, &pair) {
        return None;
    }
    let brace = skip(s, paren + 2, CharClass::Multispace);
    if !(brace < s.len() && s[brace] == '{') {
        return None;
    }
    let feed = skip(s, brace + 1, CharClass::Space);
    let text_start = skip(s, feed, CharClass::Newline);
    if text_start == feed {
        return None;
    }
    match until_alone_rbrace(s, text_start) {
        None => None,
        Some((close, next)) => {
            let text_end = trim_end(s, text_start, close, CharClass::Newline);
            Some(Definition { name_start, name_end, text_start, text_end, next })
        },
    }
}

/// The aliases among the first `upto` records, in their order.
pub open spec fn aliases_among(records: Seq<Record>, upto: int) -> Seq<Record>
    decreases upto,
{
    if upto <= 0 {
        Seq::empty()
    } else if records[upto - 1] is Alias {
        aliases_among(records, upto - 1).push(records[upto - 1])
    } else {
        aliases_among(records, upto - 1)
    }
}

/// The functions among the first `upto` records, in their order.
pub open spec fn functions_among(records: Seq<Record>, upto: int) -> Seq<Record>
    decreases upto,
{
    if upto <= 0 {
        Seq::empty()
    } else if records[upto - 1] is Function {
        functions_among(records, upto - 1).push(records[upto - 1])
    } else {
        functions_among(records, upto - 1)
    }
}

/// The records in the order in which a shell looks a name up: the aliases
/// first, then the functions, each kind in the order it had.
pub open spec fn prioritized(records: Seq<Record>) -> Seq<Record> {
    aliases_among(records, records.len() as int) + functions_among(records, records.len() as int)
}

/// Reads a session: every alias and every function that it holds, in the
/// order in which they stand in it.
pub fn discover<'a>(input: &'a str) -> (items: Vec<Item<'a>>)
    ensures
        records_of(items@) == records(input@),
{
    let chars = to_chars(input);
    let mut items: Vec<Item<'a>> = Vec::new();
    let mut at: usize = 0;
    assert(records_of(items@) + records_from(chars@, 0) =~= records(input@));
    while at < chars.len()
        invariant
            chars@ == input@,
            at <= chars.len(),
            records_of(items@) + records_from(chars@, at as int) == records(input@),
        decreases chars.len() - at,
    {
        let ghost before = items@;
        match parse_alias(&chars, at) {
            Some(d) => {
                let alias = Alias {
                    lhs: input.substring_char(d.name_start, d.name_end),
                    rhs: input.substring_char(d.text_start, d.text_end),
                };
                items.push(Item::Alias(alias));
                assert(records_of(items@) =~= records_of(before) + seq![d@.alias(chars@)]);
                assert(records_of(items@) + records_from(chars@, d.next as int) =~= records_of(
                    before,
                ) + (seq![d@.alias(chars@)] + records_from(chars@, d.next as int)));
                at = d.next;
            },
            None => match parse_function(&chars, at) {
                Some(d) => {
                    let function = Function {
                        name: input.substring_char(d.name_start, d.name_end),
                        body: input.substring_char(d.text_start, d.text_end),
                    };
                    items.push(Item::Function(function));
                    assert(records_of(items@) =~= records_of(before) + seq![
                        d@.function(chars@),
                    ]);
                    assert(records_of(items@) + records_from(chars@, d.next as int)
                        =~= records_of(before) + (seq![d@.function(chars@)] + records_from(
                        chars@,
                        d.next as int,
                    )));
                    at = d.next;
                },
                None => {
                    let next = consume_line(&chars, at);
                    at = next.unwrap();
                },
            },
        }
    }
    assert(records_from(chars@, at as int) =~= Seq::<Record>::empty());
    assert(records_of(items@) + Seq::<Record>::empty() =~= records_of(items@));
    items
}


/// Puts the aliases before the functions, each kind in the order it had.
pub fn prioritize<'a>(found: &Vec<Item<'a>>) -> (items: Vec<Item<'a>>)
    ensures
        records_of(items@) == prioritized(records_of(found@)),
{
    let ghost all = records_of(found@);
    let mut items: Vec<Item<'a>> = Vec::new();
    let mut i: usize = 0;
    assert(records_of(items@) =~= aliases_among(all, 0));
    while i < found.len()
        invariant
            i <= found.len(),
            all == records_of(found@),
            records_of(items@) == aliases_among(all, i as int),
        decreases found.len() - i,
    {
        let ghost before = records_of(items@);
        assert(all[i as int] == found[i as int]@);
        match found[i] {
            Item::Alias(a) => {
                items.push(Item::Alias(a));
                assert(records_of(items@) =~= before.push(all[i as int]));
            },
            Item::Function(_) => {},
        }
        i = i + 1;
    }
    let ghost first = records_of(items@);
    let mut j: usize = 0;
    assert(records_of(items@) =~= first + functions_among(all, 0));
    while j < found.len()
        invariant
            j <= found.len(),
            all == records_of(found@),
            records_of(items@) == first + functions_among(all, j as int),
        decreases found.len() - j,
    {
        let ghost before = records_of(items@);
        assert(all[j as int] == found[j as int]@);
        match found[j] {
            Item::Alias(_) => {},
            Item::Function(f) => {
                items.push(Item::Function(f));
                assert(records_of(items@) =~= before.push(all[j as int]));
                assert(records_of(items@) =~= first + functions_among(all, j + 1));
            },
        }
        j = j + 1;
    }
    items
}

/// Reads a session: every alias and every function that it holds, the
/// aliases before the functions, each kind in the order in which it stands
/// in the session.
pub fn parse<'a>(input: &'a str) -> (items: Vec<Item<'a>>)
    ensures
        records_of(items@) == prioritized(records(input@)),
{
    let found = discover(input);
    prioritize(&found)
}

/// The records that come first are aliases, and those behind them are
/// functions: no function stands before an alias.
pub proof fn lemma_prioritized_is_ordered(records: Seq<Record>)
    ensures
        forall|i: int, j: int|
            0 <= i < j < prioritized(records).len() && #[trigger] prioritized(records)[j] is Alias
                ==> #[trigger] prioritized(records)[i] is Alias,
{
    lemma_kinds_among(records, records.len() as int);
    let a = aliases_among(records, records.len() as int);
    let f = functions_among(records, records.len() as int);
    assert forall|i: int, j: int|
        0 <= i < j < prioritized(records).len() && #[trigger] prioritized(records)[j]
            is Alias implies #[trigger] prioritized(records)[i] is Alias by {
        if j >= a.len() {
            assert(prioritized(records)[j] == f[j - a.len()]);
        }
        assert(prioritized(records)[i] == a[i]);
    }
}

/// The aliases among the records are aliases, and the functions functions.
pub proof fn lemma_kinds_among(records: Seq<Record>, upto: int)
    ensures
        forall|i: int|
            0 <= i < aliases_among(records, upto).len() ==> #[trigger] aliases_among(
                records,
                upto,
            )[i] is Alias,
        forall|i: int|
            0 <= i < functions_among(records, upto).len() ==> #[trigger] functions_among(
                records,
                upto,
            )[i] is Function,
    decreases upto,
{
    if upto > 0 {
        lemma_kinds_among(records, upto - 1);
    }
}

} // verus!
