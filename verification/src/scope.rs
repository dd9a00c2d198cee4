//! The kinds of sugar scope, the per-level scope state, and the scope stack.

use vstd::prelude::*;

verus! {

/// The two kinds of sugar scope: an array opens with `[` and closes with `]`,
/// an object opens with `{` and closes with `}`.
#[derive(Clone, Copy, PartialEq, Eq, Structural, Debug)]
pub enum Sugar {
    Array,
    Object,
}

impl Sugar {
    /// The sugar kind a trigger character introduces: `@` opens an array,
    /// any other trigger opens an object.
    pub open spec fn spec_from_char(c: char) -> Sugar {
        if c == '@' {
            Sugar::Array
        } else {
            Sugar::Object
        }
    }

    /// The character that opens a scope of this kind.
    pub open spec fn spec_start_char(self) -> char {
        match self {
            Sugar::Array => '[',
            Sugar::Object => '{',
        }
    }

    /// The character that closes a scope of this kind.
    pub open spec fn spec_end_char(self) -> char {
        match self {
            Sugar::Array => ']',
            Sugar::Object => '}',
        }
    }

    pub fn from_char(c: char) -> (s: Sugar)
        ensures
            s == Sugar::spec_from_char(c),
    {
        if c == '@' {
            Sugar::Array
        } else {
            Sugar::Object
        }
    }

    pub fn start_char(&self) -> (c: char)
        ensures
            c == self.spec_start_char(),
    {
        match *self {
            Sugar::Array => '[',
            Sugar::Object => '{',
        }
    }

    pub fn end_char(&self) -> (c: char)
        ensures
            c == self.spec_end_char(),
    {
        match *self {
            Sugar::Array => ']',
            Sugar::Object => '}',
        }
    }
}

/// The state of one level of the scope stack.
///
/// `Pending` records a trigger whose scope is not yet decided: it resolves to
/// `Inline` when non-whitespace content follows on the same line, and to
/// `Multiline` when a newline follows first. A `Multiline` level remembers the
/// indentation (a character count) captured from the first line inside the
/// block.
#[derive(Clone, Copy, PartialEq, Eq, Structural, Debug)]
pub enum Scope {
    Plain,
    Bracket,
    Pending(Sugar),
    Inline(Sugar),
    Multiline(Sugar, usize),
}

/// The stack of open scopes. The bottom entry is the top-level `Plain` scope
/// and is never popped while the transducer runs.
pub struct StateStack {
    scopes: Vec<Scope>,
}

impl View for StateStack {
    type V = Seq<Scope>;

    closed spec fn view(&self) -> Seq<Scope> {
        self.scopes@
    }
}

impl StateStack {
    /// An empty stack; the transducer pushes the top-level `Plain` entry
    /// before processing begins.
    pub fn new() -> (s: StateStack)
        ensures
            s@ == Seq::<Scope>::empty(),
    {
        StateStack { scopes: Vec::new() }
    }

    pub fn push(&mut self, state: Scope)
        ensures
            final(self)@ == old(self)@.push(state),
    {
        self.scopes.push(state);
    }

    pub fn pop(&mut self)
        requires
            old(self)@.len() > 0,
        ensures
            final(self)@ == old(self)@.drop_last(),
    {
        let _ = self.scopes.pop();
    }

    pub fn top(&self) -> (s: Scope)
        requires
            self@.len() > 0,
        ensures
            s == self@.last(),
    {
        self.scopes[self.scopes.len() - 1]
    }
}

} // verus!
