//! Tokenizing the chunks: content is first marked as chunks, one for each
//! line, and turned into events of its own once the lines are known.

use vstd::prelude::*;
use vstd::slice::slice_subrange;
use crate::code::{Code, proper};
use crate::content::content::{content, content_events, lemma_content_chunkless};
use crate::event::{
    Event, EventKind, Point, TokenType, adjoins, at_place, balanced, chunkless, covers, joins,
    leafy, lemma_nested_concat, lemma_nested_take, lemma_open_tokens_push, lemma_tiled_concat,
    lemma_tiled_rises, lemma_tiled_take, lemma_traced_concat, lemma_traced_inside,
    lemma_traced_push, nested, open_tokens, opens_chunk, placed, tiled, traced, within,
};

verus! {

/// Whether the events at `i` and at `i + 1` open and close a chunk.
pub open spec fn is_chunk(events: Seq<Event>, i: int) -> bool {
    &&& 0 <= i
    &&& i + 1 < events.len()
    &&& events[i].kind == EventKind::Enter
    &&& events[i].token_type == TokenType::ChunkContent
    &&& events[i + 1].kind == EventKind::Exit
}

/// The place behind the last chunk of the chain of linked chunks that
/// begins at `i`.
pub open spec fn chain_end(events: Seq<Event>, i: int) -> int
    decreases events.len() - i,
{
    if is_chunk(events, i) {
        if events[i].next == Some((i + 2) as usize) && is_chunk(events, i + 2) {
            chain_end(events, i + 2)
        } else {
            i + 2
        }
    } else {
        i
    }
}

/// Whether the place of `event` leaves room for every code up to `end`.
pub open spec fn room(event: Event, end: int) -> bool {
    &&& event.index <= end
    &&& event.point.line + (end - event.index) <= usize::MAX
    &&& event.point.column + (end - event.index) <= usize::MAX
    &&& event.point.offset + 4 * (end - event.index) <= usize::MAX
}

/// Whether the place of every event leaves room for every code up to
/// `end`.
pub open spec fn roomy(events: Seq<Event>, end: int) -> bool {
    forall|i: int| 0 <= i < events.len() ==> room(#[trigger] events[i], end)
}

/// The events from `i` on, with every chain of chunks replaced by the
/// events of the content that the chain holds. The first of `codes` has the
/// index `index`.
pub open spec fn resolved(events: Seq<Event>, codes: Seq<Code>, index: int, i: int) -> Seq<
    Event,
>
    decreases events.len() - i,
{
    if i < 0 || i >= events.len() {
        Seq::empty()
    } else if is_chunk(events, i) {
        let j = chain_end(events, i);
        if j <= i || j > events.len() {
            Seq::empty()
        } else {
            content_events(
                codes.subrange(events[i].index - index, events[j - 1].index - index),
                events[i].point,
                events[i].index,
            ) + resolved(events, codes, index, j)
        }
    } else {
        seq![events[i]] + resolved(events, codes, index, i + 1)
    }
}

pub proof fn lemma_chain_end(events: Seq<Event>, i: int)
    requires
        is_chunk(events, i),
    ensures
        i + 2 <= chain_end(events, i) <= events.len(),
        events[chain_end(events, i) - 1].kind == EventKind::Exit,
        open_tokens(events.take(chain_end(events, i))) == open_tokens(events.take(i)),
        tiled(events) ==> events[i].index <= events[chain_end(events, i) - 1].index,
    decreases events.len() - i,
{
    let next = events.take(i + 1);
    let after = events.take(i + 2);
    assert(next.drop_last() =~= events.take(i));
    assert(after.drop_last() =~= next);
    assert(next.last() == events[i]);
    assert(after.last() == events[i + 1]);
    assert(open_tokens(next) == open_tokens(events.take(i)).push(events[i].token_type));
    assert(open_tokens(after) == open_tokens(next).drop_last());
    assert(open_tokens(after) =~= open_tokens(events.take(i)));
    if tiled(events) {
        lemma_tiled_rises(events, i, i + 1);
    }
    if events[i].next == Some((i + 2) as usize) && is_chunk(events, i + 2) {
        lemma_chain_end(events, i + 2);
        if tiled(events) {
            lemma_tiled_rises(events, i + 1, i + 2);
        }
    }
}

/// Events that are closed in order and not empty end with an exit.
pub proof fn lemma_balanced_ends(events: Seq<Event>)
    requires
        balanced(events),
        events.len() > 0,
    ensures
        events.last().kind == EventKind::Exit,
{
}

/// Events that lie between a place with room and the end have room.
pub proof fn lemma_placed_roomy(events: Seq<Event>, first: Event, end: int, far: int)
    requires
        placed(events, first.point, first.index as int, end),
        room(first, far),
        end <= far,
    ensures
        roomy(events, far),
{
    assert forall|i: int| 0 <= i < events.len() implies room(#[trigger] events[i], far) by {
        assert(within(events[i], first.point, first.index as int, end));
    }
}

/// No span of `tokens` is a chunk.
pub open spec fn chunk_free(tokens: Seq<TokenType>) -> bool {
    forall|k: int| 0 <= k < tokens.len() ==> #[trigger] tokens[k] != TokenType::ChunkContent
}

/// Where chunks hold no spans, a chunk is open only right behind the
/// event that opens it.
pub proof fn lemma_chunk_open(events: Seq<Event>, n: int)
    requires
        nested(events),
        leafy(events),
        0 <= n <= events.len(),
    ensures
        chunk_free(open_tokens(events.take(n))) || (n > 0 && opens_chunk(events, n - 1)
            && open_tokens(events.take(n)).len() > 0 && chunk_free(
            open_tokens(events.take(n)).drop_last(),
        )),
    decreases n,
{
    if n == 0 {
        assert(events.take(0) =~= Seq::empty());
    } else {
        lemma_chunk_open(events, n - 1);
        lemma_nested_take(events, n);
        let before = events.take(n - 1);
        let event = events[n - 1];
        assert(events.take(n).drop_last() =~= before);
        assert(events.take(n).last() == event);
        let open = open_tokens(before);
        if !chunk_free(open) {
            assert(opens_chunk(events, n - 2));
            assert(event.kind == EventKind::Exit);
        } else {
            match event.kind {
                EventKind::Enter => {
                    assert(open.push(event.token_type).drop_last() =~= open);
                },
                EventKind::Exit => {},
            }
        }
    }
}

/// Where chunks hold no spans, the event in front of one that closes a
/// chunk opens it.
pub proof fn lemma_chunk_closed(events: Seq<Event>, p: int)
    requires
        nested(events),
        leafy(events),
        0 <= p < events.len(),
        events[p].kind == EventKind::Exit,
        events[p].token_type == TokenType::ChunkContent,
    ensures
        p > 0,
        opens_chunk(events, p - 1),
{
    lemma_nested_take(events, p + 1);
    assert(events.take(p + 1).drop_last() =~= events.take(p));
    assert(events.take(p + 1).last() == events[p]);
    lemma_chunk_open(events, p);
}

/// Whether the event at `i` opens a chunk that the next event closes.
fn chunk_at(events: &Vec<Event>, i: usize) -> (b: bool)
    requires
        i <= events.len(),
    ensures
        b == is_chunk(events@, i as int),
{
    if events.len() - i < 2 {
        return false;
    }
    let enter = match events[i].kind {
        EventKind::Enter => true,
        EventKind::Exit => false,
    };
    let chunk = match events[i].token_type {
        TokenType::ChunkContent => true,
        _ => false,
    };
    let exit = match events[i + 1].kind {
        EventKind::Exit => true,
        EventKind::Enter => false,
    };
    enter && chunk && exit
}

/// The place behind the last chunk of the chain that begins at `i`.
fn end_of_chain(events: &Vec<Event>, i: usize) -> (j: usize)
    requires
        is_chunk(events@, i as int),
    ensures
        j == chain_end(events@, i as int),
{
    let mut j = i;
    loop
        invariant_except_break
            is_chunk(events@, j as int),
            chain_end(events@, i as int) == chain_end(events@, j as int),
        invariant
            i <= j,
        ensures
            j == chain_end(events@, i as int),
        decreases events.len() - j,
    {
        let linked = match events[j].next {
            Some(next) => next == j + 2,
            None => false,
        };
        if linked && chunk_at(events, j + 2) {
            j = j + 2;
        } else {
            j = j + 2;
            break ;
        }
    }
    j
}

/// What holds when the events below `i` have been worked into `out`.
pub open spec fn worked(
    events: Seq<Event>,
    codes: Seq<Code>,
    index: int,
    out: Seq<Event>,
    i: int,
    done: bool,
) -> bool {
    &&& 0 <= i <= events.len()
    &&& out + resolved(events, codes, index, i) == resolved(events, codes, index, 0)
    &&& nested(out)
    &&& open_tokens(out) == open_tokens(events.take(i))
    &&& tiled(out)
    &&& roomy(out, index + codes.len())
    &&& out.len() > 0 && i < events.len() ==> joins(out, events[i])
    &&& out.len() > 0 ==> out[0].index == events[0].index
    &&& out.len() > 0 ==> i > 0 && out.last().index == events[i - 1].index
    &&& out.len() == 0 && i > 0 ==> events[i - 1].index == events[0].index
    &&& done ==> chunkless(out)
    &&& balanced(events) && leafy(events) ==> done && (i > 0 ==> !opens_chunk(events, i - 1))
}

/// An event that belongs to no chain of chunks is taken over as it is.
proof fn lemma_worked_copy(
    events: Seq<Event>,
    codes: Seq<Code>,
    index: int,
    out: Seq<Event>,
    i: int,
    done: bool,
)
    requires
        nested(events),
        tiled(events),
        roomy(events, index + codes.len()),
        worked(events, codes, index, out, i, done),
        i < events.len(),
        !is_chunk(events, i),
    ensures
        worked(
            events,
            codes,
            index,
            out.push(events[i]),
            i + 1,
            done && events[i].token_type != TokenType::ChunkContent,
        ),
{
    let event = events[i];
    let rest = resolved(events, codes, index, i + 1);
    assert(resolved(events, codes, index, i) == seq![event] + rest);
    assert(out.push(event) + rest =~= out + (seq![event] + rest));
    lemma_nested_take(events, i + 1);
    assert(events.take(i + 1).drop_last() =~= events.take(i));
    lemma_open_tokens_push(events.take(i), event);
    lemma_open_tokens_push(out, event);
    assert(events.take(i).push(event) =~= events.take(i + 1));
    crate::event::lemma_tiled_push(out, event);
    assert forall|k: int| 0 <= k < out.push(event).len() implies room(
        #[trigger] out.push(event)[k],
        index + codes.len(),
    ) by {
        if k < out.len() {
            assert(room(out[k], index + codes.len()));
        } else {
            assert(room(events[i], index + codes.len()));
        }
    }
    if i + 1 < events.len() {
        assert(adjoins(events, i));
    }
    if i > 0 {
        assert(adjoins(events, i - 1));
    }
    if balanced(events) && leafy(events) {
        if event.token_type == TokenType::ChunkContent {
            if event.kind == EventKind::Exit {
                lemma_chunk_closed(events, i);
            } else {
                assert(opens_chunk(events, i));
                if i + 1 == events.len() {
                    lemma_balanced_ends(events);
                }
            }
        }
    }
    if done && event.token_type != TokenType::ChunkContent {
        assert forall|k: int| 0 <= k < out.push(event).len() implies (#[trigger] out.push(
            event,
        )[k]).token_type != TokenType::ChunkContent by {
            if k < out.len() {
                assert(out[k].token_type != TokenType::ChunkContent);
            }
        }
    }
}

/// A chain of chunks is replaced by the events of its content.
proof fn lemma_worked_chain(
    events: Seq<Event>,
    codes: Seq<Code>,
    index: int,
    out: Seq<Event>,
    i: int,
    done: bool,
    inner: Seq<Event>,
)
    requires
        nested(events),
        tiled(events),
        roomy(events, index + codes.len()),
        worked(events, codes, index, out, i, done),
        is_chunk(events, i),
        ({
            let j = chain_end(events, i);
            let end = events[j - 1].index;
            &&& index <= events[i].index <= end <= index + codes.len()
            &&& inner == content_events(
                codes.subrange(events[i].index - index, end - index),
                events[i].point,
                events[i].index,
            )
            &&& balanced(inner)
            &&& covers(inner, events[i].index as int, end as int)
            &&& placed(inner, events[i].point, events[i].index as int, end as int)
            &&& chunkless(inner)
        }),
    ensures
        worked(events, codes, index, out + inner, chain_end(events, i), done),
{
    let j = chain_end(events, i);
    let first = events[i];
    let end = events[j - 1].index;
    lemma_chain_end(events, i);
    assert(room(events[i], index + codes.len()));
    let rest = resolved(events, codes, index, j);
    assert(resolved(events, codes, index, i) == inner + rest);
    assert((out + inner) + rest =~= out + (inner + rest));
    lemma_nested_concat(out, inner);
    assert(open_tokens(out) + open_tokens(inner) =~= open_tokens(out));
    lemma_placed_roomy(inner, first, end as int, index + codes.len());
    assert forall|k: int| 0 <= k < (out + inner).len() implies room(
        #[trigger] (out + inner)[k],
        index + codes.len(),
    ) by {
        if k < out.len() {
            assert(room(out[k], index + codes.len()));
        } else {
            assert(room(inner[k - out.len()], index + codes.len()));
        }
    }
    if inner.len() > 0 {
        lemma_balanced_ends(inner);
        if out.len() > 0 {
            assert(joins(out, events[i]));
        }
    }
    lemma_tiled_concat(out, inner);
    if i > 0 {
        assert(adjoins(events, i - 1));
    }
    if j < events.len() {
        assert(adjoins(events, j - 1));
    }
    if done {
        assert forall|k: int| 0 <= k < (out + inner).len() implies (#[trigger] (out + inner)[k]).token_type
            != TokenType::ChunkContent by {
            if k < out.len() {
                assert(out[k].token_type != TokenType::ChunkContent);
            } else {
                assert(inner[k - out.len()].token_type != TokenType::ChunkContent);
            }
        }
    }
}

/// Whether the events of `out` stand at the places of the input wherever
/// those of `events` do, from whatever place tokenizing began.
pub open spec fn carried(
    events: Seq<Event>,
    codes: Seq<Code>,
    index: int,
    out: Seq<Event>,
) -> bool {
    forall|point: Point|
        traced(events, point, index, codes) ==> #[trigger] traced(out, point, index, codes)
}

/// Whether every event of `events` lies at or behind `index`.
pub open spec fn behind(events: Seq<Event>, index: int) -> bool {
    forall|i: int| 0 <= i < events.len() ==> index <= (#[trigger] events[i]).index
}

/// Events that lie within bounds lie behind the lower bound.
pub proof fn lemma_placed_behind(events: Seq<Event>, point: Point, index: int, end: int)
    requires
        placed(events, point, index, end),
    ensures
        behind(events, index),
{
    assert forall|i: int| 0 <= i < events.len() implies index <= (#[trigger] events[i]).index by {
        assert(within(events[i], point, index, end));
    }
}

proof fn lemma_carried_copy(
    events: Seq<Event>,
    codes: Seq<Code>,
    index: int,
    out: Seq<Event>,
    i: int,
)
    requires
        carried(events, codes, index, out),
        0 <= i < events.len(),
    ensures
        carried(events, codes, index, out.push(events[i])),
{
    assert forall|point: Point| traced(events, point, index, codes) implies #[trigger] traced(
        out.push(events[i]),
        point,
        index,
        codes,
    ) by {
        assert(traced(out, point, index, codes));
        assert(at_place(events[i], point, index, codes));
        lemma_traced_push(out, events[i], point, index, codes);
    }
}

proof fn lemma_carried_chain(
    events: Seq<Event>,
    codes: Seq<Code>,
    index: int,
    out: Seq<Event>,
    i: int,
    inner: Seq<Event>,
    end: int,
)
    requires
        carried(events, codes, index, out),
        0 <= i < events.len(),
        index <= events[i].index <= end <= index + codes.len(),
        traced(
            inner,
            events[i].point,
            events[i].index as int,
            codes.subrange(events[i].index - index, end - index),
        ),
    ensures
        carried(events, codes, index, out + inner),
{
    assert forall|point: Point| traced(events, point, index, codes) implies #[trigger] traced(
        out + inner,
        point,
        index,
        codes,
    ) by {
        assert(traced(out, point, index, codes));
        assert(at_place(events[i], point, index, codes));
        lemma_traced_inside(inner, events[i], end, codes, point, index);
        lemma_traced_concat(out, inner, point, index, codes);
    }
}

/// Replace every chain of chunks in `events` by the events of the content
/// that it holds. The first of `codes` has the index `index`. The flag says
/// whether no chunk is left.
pub fn subtokenize(events: Vec<Event>, codes: &[Code], index: usize) -> (result: (
    Vec<Event>,
    bool,
))
    requires
        proper(codes@),
        nested(events@),
        tiled(events@),
        roomy(events@, index + codes@.len()),
        behind(events@, index as int),
        index + codes@.len() <= usize::MAX,
    ensures
        result.0@ == resolved(events@, codes@, index as int, 0),
        nested(result.0@),
        open_tokens(result.0@) == open_tokens(events@),
        tiled(result.0@),
        roomy(result.0@, index + codes@.len()),
        forall|start: int, end: int|
            covers(events@, start, end) ==> covers(result.0@, start, end),
        result.1 ==> chunkless(result.0@),
        balanced(events@) && leafy(events@) ==> result.1,
        carried(events@, codes@, index as int, result.0@),
        behind(result.0@, index as int),
{
    let mut out: Vec<Event> = Vec::new();
    let mut i: usize = 0;
    let mut done = true;
    let length = events.len();
    proof {
        assert(events@.take(0) =~= Seq::empty());
        assert(out@ + resolved(events@, codes@, index as int, 0) =~= resolved(
            events@,
            codes@,
            index as int,
            0,
        ));
    }
    while i < length
        invariant
            length == events.len(),
            proper(codes@),
            nested(events@),
            tiled(events@),
            roomy(events@, index + codes@.len()),
            worked(events@, codes@, index as int, out@, i as int, done),
            carried(events@, codes@, index as int, out@),
            behind(events@, index as int),
            behind(out@, index as int),
            index + codes@.len() <= usize::MAX,
        decreases length - i,
    {
        let ghost before = out@;
        if chunk_at(&events, i) {
            let j = end_of_chain(&events, i);
            proof {
                lemma_chain_end(events@, i as int);
                assert(room(events@[i as int], index + codes@.len()));
                assert(room(events@[j - 1], index + codes@.len()));
            }
            let first = events[i];
            let end = events[j - 1].index;
            let part = slice_subrange(codes, first.index - index, end - index);
            proof {
                assert forall|k: int| 0 <= k < part@.len() implies #[trigger] part@[k]
                    != Code::Eof by {
                    assert(codes@[first.index - index + k] != Code::Eof);
                }
            }
            let mut inner = content(part, first.point, first.index);
            proof {
                lemma_content_chunkless(
                    part@,
                    first.point,
                    first.index,
                    inner@,
                );
                lemma_worked_chain(events@, codes@, index as int, before, i as int, done, inner@);
                lemma_carried_chain(
                    events@,
                    codes@,
                    index as int,
                    before,
                    i as int,
                    inner@,
                    end as int,
                );
                lemma_placed_behind(inner@, first.point, first.index as int, end as int);
            }
            out.append(&mut inner);
            i = j;
        } else {
            let event = events[i];
            proof {
                lemma_worked_copy(events@, codes@, index as int, before, i as int, done);
                lemma_carried_copy(events@, codes@, index as int, before, i as int);
            }
            match event.token_type {
                TokenType::ChunkContent => {
                    done = false;
                },
                _ => {},
            }
            out.push(event);
            i = i + 1;
        }
    }
    proof {
        assert(resolved(events@, codes@, index as int, i as int) =~= Seq::empty());
        assert(out@ + Seq::<Event>::empty() =~= out@);
        assert(events@.take(i as int) =~= events@);
        assert forall|start: int, end: int| covers(events@, start, end) implies covers(
            out@,
            start,
            end,
        ) by {
            if events@.len() > 0 {
                assert(events@[i - 1] == events@.last());
            }
        }
    }
    (out, done)
}

} // verus!
