//! A matcher for one argument: a compiled pattern, or a name that is
//! compared as it stands.

use vstd::prelude::*;
use vstd::string::*;
use crate::pattern::{CompiledPattern, PatternView};

verus! {

/// How an argument is matched against the names of files.
pub enum Matcher<'a> {
    /// By a compiled pattern.
    Glob(CompiledPattern),
    /// By comparison with the argument itself.
    Str(&'a str),
}

/// A matcher and how often it has matched.
pub struct MatchState<'a> {
    pub matcher: Matcher<'a>,
    pub count: usize,
}

/// A matcher as plain values.
pub enum MatcherView {
    Glob(PatternView),
    Str(Seq<char>),
}

impl<'a> View for Matcher<'a> {
    type V = MatcherView;

    open spec fn view(&self) -> MatcherView {
        match *self {
            Matcher::Glob(p) => MatcherView::Glob(p@),
            Matcher::Str(s) => MatcherView::Str(s@),
        }
    }
}

/// A state as plain values: the matcher, and how often it has matched.
pub struct Tally {
    pub matcher: MatcherView,
    pub count: usize,
}

impl<'a> View for MatchState<'a> {
    type V = Tally;

    open spec fn view(&self) -> Tally {
        Tally { matcher: self.matcher@, count: self.count }
    }
}

/// The views of a sequence of states, in order.
pub open spec fn tallies_of(states: Seq<MatchState<'_>>) -> Seq<Tally> {
    Seq::new(states.len(), |i: int| states[i]@)
}

impl MatcherView {
    /// The argument that the matcher was made from.
    pub open spec fn text(self) -> Seq<char> {
        match self {
            MatcherView::Glob(p) => p.token,
            MatcherView::Str(s) => s,
        }
    }
}

impl<'a> Matcher<'a> {
    /// The argument that the matcher was made from.
    pub fn to_text(&self) -> (r: String)
        ensures
            r@ == self@.text(),
    {
        match self {
            Matcher::Glob(p) => String::from_str(p.token()),
            Matcher::Str(s) => String::from_str(s),
        }
    }
}

} // verus!
