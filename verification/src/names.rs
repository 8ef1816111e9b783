//! The parts of a file name: what stands before its last dot, and its
//! extension after it.

use vstd::prelude::*;
use crate::text::{same_chars, same_text, to_chars};

verus! {

/// The index of the last dot of a name, or -1 if it has none.
pub open spec fn last_dot(name: Seq<char>) -> int
    decreases name.len(),
{
    if name.len() == 0 {
        -1
    } else if name.last() == '.' {
        name.len() - 1
    } else {
        last_dot(name.drop_last())
    }
}

/// Whether a name has an extension: it has a dot that is not its first
/// character, and it is not `..`.
pub open spec fn has_extension(name: Seq<char>) -> bool {
    last_dot(name) > 0 && name != seq!['.', '.']
}

/// The name without its extension: what stands before the last dot, or the
/// whole name if it has no extension.
pub open spec fn stem(name: Seq<char>) -> Seq<char> {
    if has_extension(name) {
        name.subrange(0, last_dot(name))
    } else {
        name
    }
}

/// The extension of a name: what stands after the last dot.
pub open spec fn extension(name: Seq<char>) -> Option<Seq<char>> {
    if has_extension(name) {
        Some(name.subrange(last_dot(name) + 1, name.len() as int))
    } else {
        None
    }
}

/// The last dot of a name is a dot, no dot follows it, and where there is
/// none the name holds no dot.
pub proof fn lemma_last_dot(name: Seq<char>)
    ensures
        -1 <= last_dot(name) < name.len(),
        last_dot(name) >= 0 ==> name[last_dot(name)] == '.',
        forall|i: int| last_dot(name) < i < name.len() ==> name[i] != '.',
    decreases name.len(),
{
    if name.len() > 0 && name.last() != '.' {
        lemma_last_dot(name.drop_last());
        assert forall|i: int| last_dot(name) < i < name.len() implies name[i] != '.' by {
            if i < name.len() - 1 {
                assert(name.drop_last()[i] == name[i]);
            }
        }
    }
}

/// Whether `ext` is one of `list`, capitals and small letters of ASCII taken
/// as one.
pub open spec fn is_listed(ext: Seq<char>, list: Seq<Seq<char>>) -> bool {
    exists|i: int| 0 <= i < list.len() && same_text(ext, #[trigger] list[i], true)
}

/// The texts of a sequence of strings, in order.
pub open spec fn texts_of(list: Seq<String>) -> Seq<Seq<char>> {
    Seq::new(list.len(), |i: int| list[i]@)
}

/// The characters of `s` from `from` up to `to`.
pub fn part(s: &Vec<char>, from: usize, to: usize) -> (r: Vec<char>)
    requires
        from <= to <= s.len(),
    ensures
        r@ == s@.subrange(from as int, to as int),
{
    let mut r: Vec<char> = Vec::new();
    let mut i: usize = from;
    while i < to
        invariant
            from <= i <= to <= s.len(),
            r@ == s@.subrange(from as int, i as int),
        decreases to - i,
    {
        r.push(s[i]);
        assert(r@ =~= s@.subrange(from as int, i + 1));
        i = i + 1;
    }
    r
}

/// Where the extension of a name begins, behind its last dot, if the name
/// has an extension.
pub fn extension_start(name: &Vec<char>) -> (r: Option<usize>)
    ensures
        match r {
            Some(start) => has_extension(name@) && start == last_dot(name@) + 1 && 2 <= start
                <= name.len(),
            None => !has_extension(name@),
        },
{
    proof {
        lemma_last_dot(name@);
    }
    let mut dot: usize = name.len();
    assert(name@.take(name.len() as int) =~= name@);
    while dot > 0 && name[dot - 1] != '.'
        invariant
            dot <= name.len(),
            last_dot(name@) == last_dot(name@.take(dot as int)),
        decreases dot,
    {
        assert(name@.take(dot as int).drop_last() =~= name@.take(dot - 1));
        dot = dot - 1;
    }
    proof {
        if dot > 0 {
            assert(name@.take(dot as int).last() == '.');
        } else {
            assert(name@.take(0).len() == 0);
        }
        assert(last_dot(name@) == dot - 1);
        if name.len() == 2 && name[0] == '.' && name[1] == '.' {
            assert(name@ =~= seq!['.', '.']);
        }
    }
    if dot > 1 && !(name.len() == 2 && name[0] == '.' && name[1] == '.') {
        Some(dot)
    } else {
        None
    }
}

/// Tells whether `ext` is one of `list`, capitals and small letters of ASCII
/// taken as one.
pub fn listed(ext: &Vec<char>, list: &Vec<String>) -> (b: bool)
    ensures
        b == is_listed(ext@, texts_of(list@)),
{
    let mut i: usize = 0;
    while i < list.len()
        invariant
            i <= list.len(),
            forall|j: int| 0 <= j < i ==> !same_text(ext@, #[trigger] texts_of(list@)[j], true),
        decreases list.len() - i,
    {
        let x = to_chars(list[i].as_str());
        if same_chars(ext, &x, true) {
            assert(texts_of(list@)[i as int] == x@);
            return true;
        }
        assert(texts_of(list@)[i as int] == x@);
        i = i + 1;
    }
    false
}

/// Whether a name is that of `token`, an extension supplied where it was
/// left out: the name is the token, under the case rule; or the name
/// without its extension is the token and the extension is one of `list`,
/// capitals and small letters of ASCII taken as one.
pub open spec fn names_token(
    token: Seq<char>,
    name: Seq<char>,
    list: Seq<Seq<char>>,
    case_insensitive: bool,
) -> bool {
    ||| same_text(name, token, case_insensitive)
    ||| {
        &&& same_text(stem(name), token, case_insensitive)
        &&& extension(name) matches Some(ext) ==> is_listed(ext, list)
    }
}

/// Tells whether a name is that of `token`, an extension supplied where it
/// was left out.
pub fn is_name_of(
    token: &Vec<char>,
    name: &Vec<char>,
    list: &Vec<String>,
    case_insensitive: bool,
) -> (b: bool)
    ensures
        b == names_token(token@, name@, texts_of(list@), case_insensitive),
{
    if same_chars(name, token, case_insensitive) {
        return true;
    }
    match extension_start(name) {
        // The name without an extension is the whole name, which is not the token.
        None => false,
        Some(start) => {
            let front = part(name, 0, start - 1);
            if !same_chars(&front, token, case_insensitive) {
                return false;
            }
            let back = part(name, start, name.len());
            listed(&back, list)
        },
    }
}

/// An extension that is listed is supplied, and no other. A token that is
/// not empty names the name made of the token, a dot and an extension
/// exactly if the extension is one of the list, capitals and small letters
/// of ASCII taken as one. The extension is not empty and holds no dot.
pub proof fn lemma_listed_extension_is_supplied(
    token: Seq<char>,
    ext: Seq<char>,
    list: Seq<Seq<char>>,
    case_insensitive: bool,
)
    requires
        token.len() > 0,
        ext.len() > 0,
        !ext.contains('.'),
    ensures
        names_token(token, token + seq!['.'] + ext, list, case_insensitive) == is_listed(ext, list),
        extension(token + seq!['.'] + ext) == Some(ext),
        stem(token + seq!['.'] + ext) == token,
{
    let name = token + seq!['.'] + ext;
    lemma_last_dot(name);
    let d = last_dot(name);
    assert(name[token.len() as int] == '.');
    if d > token.len() {
        assert(name[d] == ext[d - token.len() - 1]);
        assert(ext.contains(ext[d - token.len() - 1]));
    }
    assert(d == token.len());
    assert(name != seq!['.', '.']) by {
        if name.len() == 2 {
            assert(name[1] == ext[0]);
            assert(ext.contains(ext[0]));
            assert(seq!['.', '.'][1] == '.');
        }
    }
    assert(has_extension(name));
    assert(stem(name) =~= token);
    assert(extension(name) == Some(ext)) by {
        assert(name.subrange(d + 1, name.len() as int) =~= ext);
    }
    assert(!same_text(name, token, case_insensitive));
    assert(same_text(token, token, case_insensitive));
}

/// A name without an extension is that of a token exactly if it is the
/// token, under the case rule.
pub proof fn lemma_bare_name_is_compared(
    token: Seq<char>,
    name: Seq<char>,
    list: Seq<Seq<char>>,
    case_insensitive: bool,
)
    requires
        extension(name) is None,
    ensures
        names_token(token, name, list, case_insensitive) == same_text(
            name,
            token,
            case_insensitive,
        ),
{
}

} // verus!
