//! The state of a serializer.

use vstd::prelude::*;
use crate::to_markdown::construct_name::ConstructName;

verus! {

/// What a serializer is told to do.
#[derive(Clone, Copy, Debug)]
pub struct Options {
    /// The character to put around titles: `"`, `'`, or `(` for
    /// parentheses.
    pub quote: char,
}

/// The state of a serializer.
#[derive(Debug)]
pub struct State {
    /// The constructs that the serializer is in, outermost first.
    pub stack: Vec<ConstructName>,
    /// What the serializer is told to do.
    pub options: Options,
}

impl State {
    /// A serializer that is in no construct.
    pub fn new(options: Options) -> (state: State)
        ensures
            state.stack@ == Seq::<ConstructName>::empty(),
            state.options == options,
    {
        State { stack: Vec::new(), options }
    }

    /// Enter the construct `name`.
    pub fn enter(&mut self, name: ConstructName)
        ensures
            final(self).stack@ == old(self).stack@.push(name),
            final(self).options == old(self).options,
    {
        self.stack.push(name);
    }

    /// Leave the construct that was entered last.
    pub fn exit(&mut self)
        ensures
            old(self).stack@.len() > 0 ==> final(self).stack@ == old(self).stack@.drop_last(),
            old(self).stack@.len() == 0 ==> final(self).stack@ == old(self).stack@,
            final(self).options == old(self).options,
    {
        self.stack.pop();
    }
}

} // verus!
