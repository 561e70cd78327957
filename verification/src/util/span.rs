//! Spans: the stretch of input between the two events of a token.

use vstd::prelude::*;
use crate::event::{Event, EventKind};

verus! {

/// A stretch of the input, from `start_index` up to `end_index`.
#[derive(Clone, Copy, Debug, PartialEq, Eq, Structural)]
pub struct Span {
    pub start_index: usize,
    pub end_index: usize,
}

/// The place in `events`, below `i`, of the event that opens the span which
/// is closed after `depth` more spans have been opened going backwards; 0
/// if there is none.
pub open spec fn enter_of(events: Seq<Event>, i: int, depth: nat) -> int
    decreases i,
{
    if i <= 0 || i > events.len() {
        0
    } else if events[i - 1].kind == EventKind::Exit {
        enter_of(events, i - 1, depth + 1)
    } else if depth == 0 {
        i - 1
    } else {
        enter_of(events, i - 1, (depth - 1) as nat)
    }
}

/// The span of the token that the event at `index` closes.
pub open spec fn span_of(events: Seq<Event>, index: int) -> Span {
    Span {
        start_index: events[enter_of(events, index, 0)].index,
        end_index: events[index].index,
    }
}

impl Span {
    /// Number of codes in the span.
    pub open spec fn size(self) -> int {
        if self.start_index <= self.end_index {
            self.end_index - self.start_index
        } else {
            0
        }
    }

    /// Number of codes in the span.
    pub fn len(&self) -> (n: usize)
        ensures
            n == self.size(),
    {
        if self.start_index <= self.end_index {
            self.end_index - self.start_index
        } else {
            0
        }
    }
}

/// The span of the token that the event at `index` closes.
pub fn from_exit_event(events: &Vec<Event>, index: usize) -> (span: Span)
    requires
        index < events.len(),
    ensures
        span == span_of(events@, index as int),
        0 <= enter_of(events@, index as int, 0) <= index,
{
    let mut i: usize = index;
    let mut depth: usize = 0;
    let mut start: usize = 0;
    while i > 0
        invariant_except_break
            depth <= index - i,
            enter_of(events@, index as int, 0) == enter_of(events@, i as int, depth as nat),
            start == 0,
        invariant
            i <= index < events.len(),
        ensures
            start == enter_of(events@, index as int, 0),
            start <= index,
        decreases i,
    {
        let ghost here = enter_of(events@, i as int, depth as nat);
        i = i - 1;
        match events[i].kind {
            EventKind::Exit => {
                assert(here == enter_of(events@, i as int, (depth + 1) as nat));
                depth = depth + 1;
            },
            EventKind::Enter => {
                if depth == 0 {
                    assert(here == i);
                    start = i;
                    break ;
                }
                assert(here == enter_of(events@, i as int, (depth - 1) as nat));
                depth = depth - 1;
            },
        }
    }
    Span { start_index: events[start].index, end_index: events[index].index }
}

} // verus!
