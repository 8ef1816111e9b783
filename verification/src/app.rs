//! The settings of a run that every platform has, and the way a path that
//! was found is shown.

use vstd::prelude::*;
use vstd::string::*;
use std::path::Path;
use crate::names::texts_of;
use crate::path_entry::{PathEntry, PathEntryView};
use crate::pattern::{backslash_separates, has_backslash, is_path_separator};
use crate::text::{skip, span_end, to_chars, CharClass};

verus! {

/// The settings of a run. `X` holds those that only one kind of platform has.
#[derive(Debug)]
pub struct App<X> {
    /// Directories of the search path that begin with a dot are passed over.
    pub skip_dot: bool,
    /// Directories of the search path that begin with a tilde, and those
    /// under the home directory, are passed over.
    pub skip_tilde: bool,
    /// A path under the working directory is shown with a dot for it.
    pub show_dot: bool,
    /// A path under the home directory is shown with a tilde for it.
    pub show_tilde: bool,
    /// Every match is reported, not only the first.
    pub all: bool,
    /// The tokens to look for.
    pub commands: Vec<String>,
    /// The settings of the platform.
    pub x: X,
}

/// What is left of `path` once the directory `base` is taken off its front,
/// component by component, as `Path::strip_prefix` of this platform does it;
/// `None` where `base` is no prefix of `path`.
pub uninterp spec fn stripped(path: Seq<char>, base: Seq<char>) -> Option<Seq<char>>;

/// `Path::strip_prefix`: what is left of `path` once `base` is taken off its
/// front, or `None` where `base` is no prefix of it.
#[verifier::external_body]
fn strip_prefix(path: &str, base: &str) -> (r: Option<String>)
    ensures
        match r {
            Some(rest) => stripped(path@, base@) == Some(rest@),
            None => stripped(path@, base@) is None,
        },
{
    match Path::new(path).strip_prefix(base) {
        Ok(rest) => Some(rest.to_string_lossy().into_owned()),
        Err(_) => None,
    }
}

/// The components of a path, each as text, as `Path::components` of this
/// platform gives them.
pub uninterp spec fn components_of(path: Seq<char>) -> Seq<Seq<char>>;

/// `Path::components`: the components of a path, each as text.
#[verifier::external_body]
fn components(path: &str) -> (r: Vec<String>)
    ensures
        texts_of(r@) == components_of(path@),
{
    Path::new(path).components().map(|c| c.as_os_str().to_string_lossy().into_owned()).collect()
}

/// The path `rest` joined onto the directory `base`, as `Path::join` of this
/// platform does it.
pub uninterp spec fn joined_path(base: Seq<char>, rest: Seq<char>) -> Seq<char>;

/// `Path::join`: the path `rest` joined onto the directory `base`.
#[verifier::external_body]
fn join(base: &str, rest: &str) -> (r: String)
    ensures
        r@ == joined_path(base@, rest@),
{
    Path::new(base).join(rest).to_string_lossy().into_owned()
}

/// The directory that a tilde stands for in the search path.
pub open spec fn tilde() -> Seq<char> {
    seq!['~']
}

/// Whether a component of a path begins with a dot.
pub open spec fn has_dot_component(path: Seq<char>) -> bool {
    exists|i: int|
        0 <= i < components_of(path).len() && (#[trigger] components_of(path)[i]).len() > 0
            && components_of(path)[i][0] == '.'
}

/// Whether a path lies under a directory, if there is a directory.
pub open spec fn lies_under(path: Seq<char>, base: Option<Seq<char>>) -> bool {
    rest_under(path, base) is Some
}

/// Whether a directory of the search path is searched. It is not empty and
/// not made of white space alone. With `skip_dot` none of its components
/// begins with a dot. With `skip_tilde` it neither begins with a tilde nor
/// lies under the home directory.
pub open spec fn is_searched(
    skip_dot: bool,
    skip_tilde: bool,
    dir: Seq<char>,
    home: Option<Seq<char>>,
) -> bool {
    &&& dir.len() > 0
    &&& span_end(dir, 0, CharClass::Whitespace) < dir.len()
    &&& skip_dot ==> !has_dot_component(dir)
    &&& skip_tilde ==> !lies_under(dir, Some(tilde())) && !lies_under(dir, home)
}

/// The directory that is searched for a directory of the search path:
/// unless `skip_tilde`, a tilde at its front stands for the home directory,
/// where that is known.
pub open spec fn searched_as(skip_tilde: bool, dir: Seq<char>, home: Option<Seq<char>>) -> Seq<
    char,
> {
    match (home, stripped(dir, tilde())) {
        (Some(h), Some(rest)) => if skip_tilde {
            dir
        } else {
            joined_path(h, rest)
        },
        _ => dir,
    }
}

/// The directories that are searched among the first `upto` directories of
/// the search path, in their order.
pub open spec fn searched(
    skip_dot: bool,
    skip_tilde: bool,
    dirs: Seq<Seq<char>>,
    home: Option<Seq<char>>,
    upto: int,
) -> Seq<PathEntryView>
    decreases upto,
{
    if upto <= 0 {
        Seq::empty()
    } else {
        let before = searched(skip_dot, skip_tilde, dirs, home, upto - 1);
        let dir = dirs[upto - 1];
        if is_searched(skip_dot, skip_tilde, dir, home) {
            before.push(PathEntryView { path: searched_as(skip_tilde, dir, home), files: None })
        } else {
            before
        }
    }
}

/// The views of a sequence of directories, in order.
pub open spec fn entries_of(entries: Seq<PathEntry>) -> Seq<PathEntryView> {
    Seq::new(entries.len(), |i: int| entries[i]@)
}

/// Tells whether a component of a path begins with a dot.
pub fn holds_dot_component(path: &str) -> (b: bool)
    ensures
        b == has_dot_component(path@),
{
    let parts = components(path);
    let mut i: usize = 0;
    while i < parts.len()
        invariant
            i <= parts.len(),
            texts_of(parts@) == components_of(path@),
            forall|j: int|
                0 <= j < i ==> !((#[trigger] components_of(path@)[j]).len() > 0 && components_of(
                    path@,
                )[j][0] == '.'),
        decreases parts.len() - i,
    {
        let part = to_chars(parts[i].as_str());
        assert(texts_of(parts@)[i as int] == part@);
        if part.len() > 0 && part[0] == '.' {
            return true;
        }
        i = i + 1;
    }
    false
}

/// How a path is shown. With `show_tilde`, a path under the home directory
/// is shown as a tilde, the separator, and what follows the home directory;
/// else, with `show_dot`, a path under the working directory as a dot, the
/// separator, and what follows the working directory; else as it is.
/// `home_rest` and `pwd_rest` are what is left of the path behind the one
/// directory and the other, where the path lies under them.
pub open spec fn shown(
    show_tilde: bool,
    show_dot: bool,
    home_rest: Option<Seq<char>>,
    pwd_rest: Option<Seq<char>>,
    path: Seq<char>,
    separator: char,
) -> Seq<char> {
    if show_tilde && home_rest is Some {
        seq!['~', separator] + home_rest->0
    } else if show_dot && pwd_rest is Some {
        seq!['.', separator] + pwd_rest->0
    } else {
        path
    }
}

/// What is left of `path` behind the directory `base`, if there is a `base`
/// and the path lies under it.
pub open spec fn rest_under(path: Seq<char>, base: Option<Seq<char>>) -> Option<Seq<char>> {
    match base {
        Some(b) => stripped(path, b),
        None => None,
    }
}

/// Shows a path, given what is left of it behind the home directory and
/// behind the working directory.
pub fn abbreviate(
    show_tilde: bool,
    show_dot: bool,
    home_rest: Option<&str>,
    pwd_rest: Option<&str>,
    path: &str,
    separator: char,
) -> (line: String)
    ensures
        line@ == shown(
            show_tilde,
            show_dot,
            match home_rest {
                Some(r) => Some(r@),
                None => None,
            },
            match pwd_rest {
                Some(r) => Some(r@),
                None => None,
            },
            path@,
            separator,
        ),
{
    if show_tilde {
        if let Some(rest) = home_rest {
            let mut line = String::new();
            line.push('~');
            line.push(separator);
            line.append(rest);
            assert(line@ =~= seq!['~', separator] + rest@);
            return line;
        }
    }
    if show_dot {
        if let Some(rest) = pwd_rest {
            let mut line = String::new();
            line.push('.');
            line.push(separator);
            line.append(rest);
            assert(line@ =~= seq!['.', separator] + rest@);
            return line;
        }
    }
    String::from_str(path)
}

/// Whether a token names a path rather than a command: it holds `/`, or,
/// where the backslash separates the components of a path too, a
/// backslash.
pub open spec fn has_separator(token: Seq<char>) -> bool {
    token.contains('/') || (is_path_separator('\\') && has_backslash(token))
}

/// Tells whether a token holds a separator of paths.
pub fn holds_separator(token: &str) -> (b: bool)
    ensures
        b == has_separator(token@),
{
    let backslash = backslash_separates();
    let chars = to_chars(token);
    let mut i: usize = 0;
    while i < chars.len()
        invariant
            chars@ == token@,
            i <= chars.len(),
            backslash == is_path_separator('\\'),
            forall|j: int| 0 <= j < i ==> chars@[j] != '/' && !(backslash && chars@[j] == '\\'),
        decreases chars.len() - i,
    {
        if chars[i] == '/' || (backslash && chars[i] == '\\') {
            assert(token@[i as int] == chars@[i as int]);
            return true;
        }
        i = i + 1;
    }
    false
}

impl<X> App<X> {
    /// The line that shows a path that was found: see `shown`. `home` is the
    /// home directory and `pwd` the working directory, where they are known;
    /// `separator` is the separator of paths of the platform.
    pub fn write_path(
        &self,
        home: Option<&str>,
        pwd: Option<&str>,
        path: &str,
        separator: char,
    ) -> (line: String)
        ensures
            line@ == shown(
                self.show_tilde,
                self.show_dot,
                rest_under(
                    path@,
                    match home {
                        Some(h) => Some(h@),
                        None => None,
                    },
                ),
                rest_under(
                    path@,
                    match pwd {
                        Some(p) => Some(p@),
                        None => None,
                    },
                ),
                path@,
                separator,
            ),
    {
        let home_rest = if self.show_tilde {
            match home {
                Some(h) => strip_prefix(path, h),
                None => None,
            }
        } else {
            None
        };
        if self.show_tilde && home_rest.is_some() {
            let rest = home_rest.unwrap();
            return abbreviate(true, self.show_dot, Some(rest.as_str()), None, path, separator);
        }
        let pwd_rest = if self.show_dot {
            match pwd {
                Some(p) => strip_prefix(path, p),
                None => None,
            }
        } else {
            None
        };
        match pwd_rest {
            Some(rest) => abbreviate(false, true, None, Some(rest.as_str()), path, separator),
            None => abbreviate(false, false, None, None, path, separator),
        }
    }

    /// The directories to search, made of the directories of the search
    /// path: see `is_searched` and `searched_as`. None of them is listed
    /// yet. `home` is the home directory, where it is known.
    pub fn search_path(&self, dirs: &Vec<String>, home: Option<&str>) -> (r: Vec<PathEntry>)
        ensures
            entries_of(r@) == searched(
                self.skip_dot,
                self.skip_tilde,
                texts_of(dirs@),
                match home {
                    Some(h) => Some(h@),
                    None => None,
                },
                dirs.len() as int,
            ),
    {
        let ghost h = match home {
            Some(h) => Some(h@),
            None => None,
        };
        let mut r: Vec<PathEntry> = Vec::new();
        let mut i: usize = 0;
        assert(entries_of(r@) =~= Seq::<PathEntryView>::empty());
        while i < dirs.len()
            invariant
                i <= dirs.len(),
                h == match home {
                    Some(h) => Some(h@),
                    None => None,
                },
                entries_of(r@) == searched(
                    self.skip_dot,
                    self.skip_tilde,
                    texts_of(dirs@),
                    h,
                    i as int,
                ),
            decreases dirs.len() - i,
        {
            let ghost before = entries_of(r@);
            let dir = dirs[i].as_str();
            assert(texts_of(dirs@)[i as int] == dir@);
            let chars = to_chars(dir);
            let blank = chars.len() == 0 || skip(&chars, 0, CharClass::Whitespace) == chars.len();
            let tilde_rest = strip_prefix(dir, "~");
            proof {
                reveal_strlit("~");
                assert("~"@ =~= tilde());
            }
            let under_home = match home {
                Some(h) => strip_prefix(dir, h).is_some(),
                None => false,
            };
            let keep = !blank && (!self.skip_dot || !holds_dot_component(dir)) && (!self.skip_tilde
                || (tilde_rest.is_none() && !under_home));
            assert(keep == is_searched(self.skip_dot, self.skip_tilde, dir@, h));
            if keep {
                let path = match (home, tilde_rest) {
                    (Some(h), Some(rest)) => if self.skip_tilde {
                        String::from_str(dir)
                    } else {
                        join(h, rest.as_str())
                    },
                    _ => String::from_str(dir),
                };
                assert(path@ == searched_as(self.skip_tilde, dir@, h));
                r.push(PathEntry::new(path));
                assert(entries_of(r@) =~= before.push(
                    PathEntryView { path: searched_as(self.skip_tilde, dir@, h), files: None },
                ));
            }
            i = i + 1;
        }
        r
    }

    /// The first token that holds a separator of paths, if one does: such a
    /// token is no command.
    pub fn first_path_command(&self) -> (r: Option<usize>)
        ensures
            match r {
                Some(i) => {
                    &&& i < self.commands.len()
                    &&& has_separator(self.commands[i as int]@)
                    &&& forall|j: int| 0 <= j < i ==> !has_separator(#[trigger] self.commands[j]@)
                },
                None => forall|j: int|
                    0 <= j < self.commands.len() ==> !has_separator(#[trigger] self.commands[j]@),
            },
    {
        let mut i: usize = 0;
        while i < self.commands.len()
            invariant
                i <= self.commands.len(),
                forall|j: int| 0 <= j < i ==> !has_separator(#[trigger] self.commands[j]@),
            decreases self.commands.len() - i,
        {
            if holds_separator(self.commands[i].as_str()) {
                return Some(i);
            }
            i = i + 1;
        }
        None
    }
}

} // verus!
