//! Which exit closes which enter, and the proof that in a log whose spans
//! are closed in order every enter has its exit and every exit its enter.

use vstd::prelude::*;
use crate::event::{
    Event, EventKind, balanced, lemma_nested_concat, lemma_nested_take, lemma_open_tokens_push,
    nested, open_tokens,
};

verus! {

/// Whether the event at `j` closes the span that the event at `i` opens:
/// the two are of the same type, and what stands between them is closed in
/// order.
pub open spec fn closes(events: Seq<Event>, i: int, j: int) -> bool {
    &&& 0 <= i < j < events.len()
    &&& events[i].kind == EventKind::Enter
    &&& events[j].kind == EventKind::Exit
    &&& events[i].token_type == events[j].token_type
    &&& balanced(events.subrange(i + 1, j))
}

/// The places of the events that open the spans which are open behind
/// `events`, outermost first.
pub open spec fn open_places(events: Seq<Event>) -> Seq<int>
    decreases events.len(),
{
    if events.len() == 0 {
        Seq::empty()
    } else {
        let before = open_places(events.drop_last());
        match events.last().kind {
            EventKind::Enter => before.push(events.len() - 1),
            EventKind::Exit => before.drop_last(),
        }
    }
}

/// Where the stretch begins that lies behind the open span at height `h`.
pub open spec fn stretch_start(events: Seq<Event>, h: int) -> int {
    if h == 0 {
        0
    } else {
        open_places(events)[h - 1] + 1
    }
}

/// Where the stretch ends that lies in front of the open span at height
/// `h`, or at the end of the events if `h` is the number of open spans.
pub open spec fn stretch_end(events: Seq<Event>, h: int) -> int {
    if h == open_places(events).len() {
        events.len() as int
    } else {
        open_places(events)[h]
    }
}

/// What holds of the open spans of events that are nested in order: each
/// was opened by the event at its place, the places rise, and what stands
/// between two of them, in front of the first and behind the last, is
/// closed in order.
pub open spec fn placed_open(events: Seq<Event>) -> bool {
    let places = open_places(events);
    &&& places.len() == open_tokens(events).len()
    &&& forall|h: int|
        0 <= h < places.len() ==> {
            &&& 0 <= #[trigger] places[h] < events.len()
            &&& events[places[h]].kind == EventKind::Enter
            &&& events[places[h]].token_type == open_tokens(events)[h]
        }
    &&& forall|h: int|
        0 <= h <= places.len() ==> {
            &&& 0 <= #[trigger] stretch_start(events, h) <= stretch_end(events, h)
                <= events.len()
            &&& balanced(events.subrange(stretch_start(events, h), stretch_end(events, h)))
        }
}

/// Two stretches that are closed in order are closed in order together.
pub proof fn lemma_balanced_concat(a: Seq<Event>, b: Seq<Event>)
    requires
        balanced(a),
        balanced(b),
    ensures
        balanced(a + b),
{
    lemma_nested_concat(a, b);
    assert(open_tokens(a) + open_tokens(b) =~= Seq::empty());
}

/// A stretch that is closed in order, between an enter and an exit of the
/// same type, is closed in order.
pub proof fn lemma_balanced_wrap(enter: Event, inner: Seq<Event>, exit: Event)
    requires
        balanced(inner),
        enter.kind == EventKind::Enter,
        exit.kind == EventKind::Exit,
        enter.token_type == exit.token_type,
    ensures
        balanced(seq![enter] + inner + seq![exit]),
{
    let first = Seq::<Event>::empty().push(enter);
    lemma_open_tokens_push(Seq::empty(), enter);
    lemma_nested_concat(first, inner);
    assert(open_tokens(first) + open_tokens(inner) =~= open_tokens(first));
    lemma_open_tokens_push(first + inner, exit);
    assert(open_tokens(first).drop_last() =~= Seq::empty());
    assert((first + inner).push(exit) =~= seq![enter] + inner + seq![exit]);
}

/// What holds of the open spans holds of all events that are nested in
/// order.
pub proof fn lemma_placed_open(events: Seq<Event>)
    requires
        nested(events),
    ensures
        placed_open(events),
    decreases events.len(),
{
    if events.len() == 0 {
        assert(events.subrange(0, 0) =~= Seq::empty());
        assert(stretch_start(events, 0) == 0);
    } else {
        let before = events.drop_last();
        let event = events.last();
        lemma_placed_open(before);
        let old_places = open_places(before);
        let places = open_places(events);
        let n = before.len() as int;
        assert(before.push(event) =~= events);
        lemma_open_tokens_push(before, event);
        match event.kind {
            EventKind::Enter => {
                assert forall|h: int| 0 <= h <= places.len() implies {
                    &&& 0 <= #[trigger] stretch_start(events, h) <= stretch_end(events, h)
                        <= events.len()
                    &&& balanced(
                        events.subrange(stretch_start(events, h), stretch_end(events, h)),
                    )
                } by {
                    if h < places.len() {
                        assert(stretch_start(events, h) == stretch_start(before, h));
                        assert(stretch_end(events, h) == stretch_end(before, h));
                        assert(events.subrange(stretch_start(events, h), stretch_end(events, h))
                            =~= before.subrange(
                            stretch_start(before, h),
                            stretch_end(before, h),
                        ));
                    } else {
                        assert(events.subrange(n + 1, n + 1) =~= Seq::empty());
                    }
                }
                assert forall|h: int| 0 <= h < places.len() implies {
                    &&& 0 <= #[trigger] places[h] < events.len()
                    &&& events[places[h]].kind == EventKind::Enter
                    &&& events[places[h]].token_type == open_tokens(events)[h]
                } by {
                    if h < old_places.len() {
                        assert(places[h] == old_places[h]);
                        assert(0 <= old_places[h] < before.len());
                    }
                }
            },
            EventKind::Exit => {
                let top = old_places.len() - 1;
                let t = old_places[top];
                assert(0 <= old_places[top] < before.len());
                assert forall|h: int| 0 <= h < places.len() implies {
                    &&& 0 <= #[trigger] places[h] < events.len()
                    &&& events[places[h]].kind == EventKind::Enter
                    &&& events[places[h]].token_type == open_tokens(events)[h]
                } by {
                    assert(places[h] == old_places[h]);
                    assert(0 <= old_places[h] < before.len());
                }
                assert forall|h: int| 0 <= h <= places.len() implies {
                    &&& 0 <= #[trigger] stretch_start(events, h) <= stretch_end(events, h)
                        <= events.len()
                    &&& balanced(
                        events.subrange(stretch_start(events, h), stretch_end(events, h)),
                    )
                } by {
                    assert(stretch_start(events, h) == stretch_start(before, h));
                    assert(0 <= stretch_start(before, h) <= stretch_end(before, h));
                    if h < places.len() {
                        assert(stretch_end(events, h) == stretch_end(before, h));
                        assert(events.subrange(stretch_start(events, h), stretch_end(events, h))
                            =~= before.subrange(
                            stretch_start(before, h),
                            stretch_end(before, h),
                        ));
                    } else {
                        // The stretch in front of the span that is closed,
                        // the span, and the exit make the last stretch.
                        let s = stretch_start(before, top);
                        let head = before.subrange(s, t);
                        let inner = before.subrange(t + 1, n);
                        assert(stretch_end(before, top) == t);
                        assert(stretch_start(before, top + 1) == t + 1);
                        assert(0 <= stretch_start(before, top + 1) <= stretch_end(
                            before,
                            top + 1,
                        ));
                        assert(stretch_end(before, top + 1) == n);
                        lemma_balanced_wrap(before[t], inner, event);
                        lemma_balanced_concat(head, seq![before[t]] + inner + seq![event]);
                        assert(events.subrange(s, n + 1) =~= head + (seq![before[t]] + inner
                            + seq![event]));
                    }
                }
            },
        }
    }
}

/// Every exit closes the span that an enter in front of it has opened.
pub proof fn lemma_exit_closes(events: Seq<Event>, j: int)
    requires
        nested(events),
        0 <= j < events.len(),
        events[j].kind == EventKind::Exit,
    ensures
        exists|i: int| closes(events, i, j),
{
    let before = events.take(j);
    lemma_nested_take(events, j);
    lemma_nested_take(events, j + 1);
    assert(events.take(j + 1).drop_last() =~= before);
    assert(events.take(j + 1).last() == events[j]);
    lemma_placed_open(before);
    let places = open_places(before);
    let top = places.len() - 1;
    let i = places[top];
    assert(0 <= places[top] < before.len());
    assert(stretch_start(before, top + 1) == i + 1);
    assert(0 <= stretch_start(before, top + 1) <= stretch_end(before, top + 1));
    assert(before.subrange(i + 1, j) =~= events.subrange(i + 1, j));
    assert(closes(events, i, j));
}

/// An enter stays among the open spans until an exit closes it.
proof fn lemma_open_or_closed(events: Seq<Event>, i: int, n: int)
    requires
        nested(events),
        0 <= i < n <= events.len(),
        events[i].kind == EventKind::Enter,
    ensures
        open_places(events.take(n)).contains(i) || exists|j: int| j < n && closes(events, i, j),
    decreases n - i,
{
    let now = events.take(n);
    let before = events.take(n - 1);
    assert(now.drop_last() =~= before);
    assert(now.last() == events[n - 1]);
    if n == i + 1 {
        assert(open_places(now).last() == i);
    } else {
        lemma_open_or_closed(events, i, n - 1);
        if open_places(before).contains(i) {
            let h = choose|h: int| 0 <= h < open_places(before).len() && open_places(before)[h] == i;
            match events[n - 1].kind {
                EventKind::Enter => {
                    assert(open_places(now)[h] == i);
                },
                EventKind::Exit => {
                    if h == open_places(before).len() - 1 {
                        lemma_nested_take(events, n - 1);
                        lemma_nested_take(events, n);
                        lemma_placed_open(before);
                        assert(stretch_start(before, h + 1) == i + 1);
                        assert(0 <= stretch_start(before, h + 1) <= stretch_end(before, h + 1));
                        assert(before.subrange(i + 1, n - 1) =~= events.subrange(i + 1, n - 1));
                        assert(0 <= open_places(before)[h] < before.len());
                        assert(closes(events, i, n - 1));
                    } else {
                        assert(open_places(now)[h] == i);
                    }
                },
            }
        } else {
            let j = choose|j: int| j < n - 1 && closes(events, i, j);
            assert(j < n && closes(events, i, j));
        }
    }
}

/// Where every span is closed in order, every enter has an exit that
/// closes the span which it opens.
pub proof fn lemma_enter_closed(events: Seq<Event>, i: int)
    requires
        balanced(events),
        0 <= i < events.len(),
        events[i].kind == EventKind::Enter,
    ensures
        exists|j: int| closes(events, i, j),
{
    lemma_open_or_closed(events, i, events.len() as int);
    assert(events.take(events.len() as int) =~= events);
    lemma_placed_open(events);
    if open_places(events).contains(i) {
        assert(open_places(events).len() == 0);
    }
    let j = choose|j: int| j < events.len() && closes(events, i, j);
    assert(closes(events, i, j));
}

/// Whether the event at `j` is the exit of the enter at `i`: it stands
/// behind it and is of the same type.
pub open spec fn answers(events: Seq<Event>, i: int, j: int) -> bool {
    &&& i < j < events.len()
    &&& events[j].kind == EventKind::Exit
    &&& events[j].token_type == events[i].token_type
}

/// Whether every enter in `events` has an exit of the same type behind it,
/// and every exit an enter of the same type in front of it.
#[verifier::opaque]
pub open spec fn matched(events: Seq<Event>) -> bool {
    &&& forall|i: int|
        0 <= i < events.len() && (#[trigger] events[i]).kind == EventKind::Enter ==> exists|
            j: int,
        |
            answers(events, i, j)
    &&& forall|j: int|
        0 <= j < events.len() && (#[trigger] events[j]).kind == EventKind::Exit ==> exists|
            i: int,
        |
            0 <= i && events[i].kind == EventKind::Enter && answers(events, i, j)
}

/// Where every span is closed in order, every enter has its exit behind
/// it, and every exit its enter in front of it.
pub proof fn lemma_balanced_matched(events: Seq<Event>)
    requires
        balanced(events),
    ensures
        matched(events),
{
    reveal(matched);
    assert forall|i: int|
        0 <= i < events.len() && (#[trigger] events[i]).kind == EventKind::Enter implies exists|
        j: int,
    |
        answers(events, i, j) by {
        lemma_enter_closed(events, i);
        let j = choose|j: int| closes(events, i, j);
        assert(answers(events, i, j));
    }
    assert forall|j: int|
        0 <= j < events.len() && (#[trigger] events[j]).kind == EventKind::Exit implies exists|
        i: int,
    |
        0 <= i && events[i].kind == EventKind::Enter && answers(events, i, j) by {
        lemma_exit_closes(events, j);
        let i = choose|i: int| closes(events, i, j);
        assert(answers(events, i, j));
    }
}

} // verus!
