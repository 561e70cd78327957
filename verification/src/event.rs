//! Events: the typed enter/exit marks that tokenizing produces.

use vstd::prelude::*;
use crate::code::Code;

verus! {

/// A place in the input.
///
/// Lines and columns start at 1, the byte offset starts at 0.
#[derive(Clone, Copy, Debug, PartialEq, Eq, Structural)]
pub struct Point {
    pub line: usize,
    pub column: usize,
    pub offset: usize,
}

impl Point {
    /// The place right after `code`, seen from `self`.
    pub open spec fn after(self, code: Code) -> (int, int, int) {
        if code.is_eol() {
            (self.line + 1, 1, self.offset + code.width())
        } else {
            (self.line as int, self.column + 1, self.offset + code.width())
        }
    }

    /// Whether the place after `code` can be held in a `Point`.
    pub open spec fn fits_after(self, code: Code) -> bool {
        let (line, column, offset) = self.after(code);
        line <= usize::MAX && column <= usize::MAX && offset <= usize::MAX
    }

    /// The place right after `code`.
    pub open spec fn advance(self, code: Code) -> Point {
        let (line, column, offset) = self.after(code);
        Point { line: line as usize, column: column as usize, offset: offset as usize }
    }

    /// Move over `code`.
    pub fn moved(self, code: Code) -> (p: Point)
        requires
            self.fits_after(code),
        ensures
            p == self.advance(code),
    {
        let width = code.byte_width();
        if code.eol() {
            Point { line: self.line + 1, column: 1, offset: self.offset + width }
        } else {
            Point { line: self.line, column: self.column + 1, offset: self.offset + width }
        }
    }
}

/// The names of the spans that the tokenizer marks.
#[derive(Clone, Copy, Debug, PartialEq, Eq, Structural)]
pub enum TokenType {
    BlankLineEnding,
    BlankLineWhitespace,
    LineEnding,
    Whitespace,
    Content,
    ChunkContent,
    Paragraph,
    Data,
    HeadingAtx,
    HeadingAtxSequence,
    HeadingAtxWhitespace,
    HeadingAtxText,
    HeadingSetext,
    HeadingSetextText,
    HeadingSetextUnderline,
    ThematicBreak,
    ThematicBreakSequence,
    ThematicBreakWhitespace,
    CodeIndented,
    CodeIndentedPrefixWhitespace,
    CodeFenced,
    CodeFencedFence,
    CodeFencedFenceSequence,
    CodeFencedFenceWhitespace,
    CodeFencedFenceInfo,
    CodeFencedFenceMeta,
    CodeFlowChunk,
    HtmlFlow,
    HtmlFlowData,
    Definition,
    DefinitionLabel,
    DefinitionLabelMarker,
    DefinitionLabelData,
    DefinitionMarker,
    DefinitionDestination,
    DefinitionDestinationLiteral,
    DefinitionDestinationLiteralMarker,
    DefinitionDestinationRaw,
    DefinitionDestinationString,
    DefinitionTitle,
    DefinitionTitleMarker,
    DefinitionTitleString,
}

/// Whether an event opens or closes a span.
#[derive(Clone, Copy, Debug, PartialEq, Eq, Structural)]
pub enum EventKind {
    Enter,
    Exit,
}

/// One side of a span.
#[derive(Clone, Copy, Debug, PartialEq, Eq, Structural)]
pub struct Event {
    pub kind: EventKind,
    pub token_type: TokenType,
    /// Where the event happened.
    pub point: Point,
    /// Index into the codes of the place where the event happened.
    pub index: usize,
    /// For a chunk: the event that opens the chunk before it.
    pub previous: Option<usize>,
    /// For a chunk: the event that opens the chunk after it.
    pub next: Option<usize>,
}

/// The spans that `events` has opened and not yet closed, outermost first.
pub open spec fn open_tokens(events: Seq<Event>) -> Seq<TokenType>
    decreases events.len(),
{
    if events.len() == 0 {
        Seq::empty()
    } else {
        let before = open_tokens(events.drop_last());
        match events.last().kind {
            EventKind::Enter => before.push(events.last().token_type),
            EventKind::Exit => before.drop_last(),
        }
    }
}

/// Every exit in `events` closes the span that was opened last.
pub open spec fn nested(events: Seq<Event>) -> bool
    decreases events.len(),
{
    events.len() > 0 ==> {
        let before = events.drop_last();
        &&& nested(before)
        &&& events.last().kind == EventKind::Exit ==> {
            &&& open_tokens(before).len() > 0
            &&& open_tokens(before).last() == events.last().token_type
        }
    }
}

/// Every span in `events` is closed, in order.
pub open spec fn balanced(events: Seq<Event>) -> bool {
    nested(events) && open_tokens(events).len() == 0
}

/// Whether the event at `i` opens a span that the next event closes, so that
/// the span has no spans inside it.
pub open spec fn is_leaf(events: Seq<Event>, i: int) -> bool {
    &&& 0 <= i < events.len() - 1
    &&& events[i].kind == EventKind::Enter
    &&& events[i + 1].kind == EventKind::Exit
}

/// The events at `i` and at `i + 1` leave no gap: the index stays, unless
/// the first opens a span and the second closes it.
pub open spec fn adjoins(events: Seq<Event>, i: int) -> bool {
    &&& events[i].index <= events[i + 1].index
    &&& !is_leaf(events, i) ==> events[i].index == events[i + 1].index
}

/// The input moves on only inside leaves.
pub open spec fn tiled(events: Seq<Event>) -> bool {
    forall|i: int| 0 <= i < events.len() - 1 ==> #[trigger] adjoins(events, i)
}

/// The leaves of `events` lie side by side from `start` to `end`.
pub open spec fn covers(events: Seq<Event>, start: int, end: int) -> bool {
    &&& tiled(events)
    &&& events.len() == 0 ==> start == end
    &&& events.len() > 0 ==> events[0].index == start && events.last().index == end
}

pub proof fn lemma_open_tokens_push(events: Seq<Event>, event: Event)
    ensures
        event.kind == EventKind::Enter ==> open_tokens(events.push(event)) == open_tokens(
            events,
        ).push(event.token_type),
        event.kind == EventKind::Exit ==> open_tokens(events.push(event)) == open_tokens(
            events,
        ).drop_last(),
        nested(events.push(event)) <==> nested(events) && (event.kind == EventKind::Exit ==> {
            &&& open_tokens(events).len() > 0
            &&& open_tokens(events).last() == event.token_type
        }),
{
    assert(events.push(event).drop_last() =~= events);
}

/// The links from chunk to chunk point forward with `next` and backward with
/// `previous`, and stay inside the log.
pub open spec fn linked(events: Seq<Event>) -> bool {
    forall|i: int|
        0 <= i < events.len() ==> {
            &&& (#[trigger] events[i]).next matches Some(j) ==> i < j < events.len()
            &&& events[i].previous matches Some(j) ==> j < i
        }
}

/// Whether `event` can follow `events` without a gap.
pub open spec fn joins(events: Seq<Event>, event: Event) -> bool {
    events.len() > 0 ==> {
        &&& events.last().index <= event.index
        &&& events.last().kind == EventKind::Exit || event.kind == EventKind::Enter
            ==> events.last().index == event.index
    }
}

pub proof fn lemma_tiled_push(events: Seq<Event>, event: Event)
    requires
        tiled(events),
        joins(events, event),
    ensures
        tiled(events.push(event)),
{
    let after = events.push(event);
    assert forall|i: int| 0 <= i < after.len() - 1 implies #[trigger] adjoins(after, i) by {
        if i < events.len() - 1 {
            assert(adjoins(events, i));
        }
    }
}

pub proof fn lemma_tiled_take(events: Seq<Event>, n: int)
    requires
        tiled(events),
        0 <= n <= events.len(),
    ensures
        tiled(events.take(n)),
{
    let before = events.take(n);
    assert forall|i: int| 0 <= i < before.len() - 1 implies #[trigger] adjoins(before, i) by {
        assert(adjoins(events, i));
    }
}

pub proof fn lemma_linked_push(events: Seq<Event>, event: Event)
    requires
        linked(events),
        event.previous is None,
        event.next is None,
    ensures
        linked(events.push(event)),
{
    let after = events.push(event);
    assert forall|i: int| 0 <= i < after.len() implies {
        &&& (#[trigger] after[i]).next matches Some(j) ==> i < j < after.len()
        &&& after[i].previous matches Some(j) ==> j < i
    } by {
        if i < events.len() {
            assert(after[i] == events[i]);
        }
    }
}

/// Whether `a` and `b` open and close the same spans in the same order.
pub open spec fn same_spans(a: Seq<Event>, b: Seq<Event>) -> bool {
    &&& a.len() == b.len()
    &&& forall|i: int|
        0 <= i < a.len() ==> (#[trigger] a[i]).kind == b[i].kind && a[i].token_type
            == b[i].token_type && a[i].index == b[i].index && a[i].point == b[i].point
}

pub proof fn lemma_same_spans(a: Seq<Event>, b: Seq<Event>)
    requires
        same_spans(a, b),
    ensures
        open_tokens(a) == open_tokens(b),
        nested(a) == nested(b),
        tiled(a) == tiled(b),
    decreases a.len(),
{
    if a.len() > 0 {
        assert(a.last().kind == b.last().kind);
        assert forall|i: int| 0 <= i < a.drop_last().len() implies (#[trigger] a.drop_last()[i]).kind
            == b.drop_last()[i].kind && a.drop_last()[i].token_type == b.drop_last()[i].token_type
            && a.drop_last()[i].index == b.drop_last()[i].index && a.drop_last()[i].point
            == b.drop_last()[i].point by {
            assert(a.drop_last()[i] == a[i]);
        }
        lemma_same_spans(a.drop_last(), b.drop_last());
    }
    if tiled(a) {
        assert forall|i: int| 0 <= i < b.len() - 1 implies #[trigger] adjoins(b, i) by {
            assert(adjoins(a, i));
            assert(a[i].kind == b[i].kind);
            assert(a[i + 1].kind == b[i + 1].kind);
        }
    }
    if tiled(b) {
        assert forall|i: int| 0 <= i < a.len() - 1 implies #[trigger] adjoins(a, i) by {
            assert(adjoins(b, i));
            assert(a[i].kind == b[i].kind);
            assert(a[i + 1].kind == b[i + 1].kind);
        }
    }
}

/// Whether `event` lies between `index` and `end`, at a place that can be
/// reached from `point` over the codes between.
pub open spec fn within(event: Event, point: Point, index: int, end: int) -> bool {
    &&& index <= event.index <= end
    &&& event.point.line <= point.line + (event.index - index)
    &&& event.point.column <= point.column + (event.index - index)
    &&& event.point.offset <= point.offset + 4 * (event.index - index)
}

/// Every event of `events` lies between `index` and `end`, at a place that
/// can be reached from `point`.
pub open spec fn placed(events: Seq<Event>, point: Point, index: int, end: int) -> bool {
    forall|i: int| 0 <= i < events.len() ==> within(#[trigger] events[i], point, index, end)
}

pub proof fn lemma_placed_push(events: Seq<Event>, event: Event, point: Point, index: int, end: int)
    requires
        placed(events, point, index, end),
        within(event, point, index, end),
    ensures
        placed(events.push(event), point, index, end),
{
    let after = events.push(event);
    assert forall|i: int| 0 <= i < after.len() implies within(
        #[trigger] after[i],
        point,
        index,
        end,
    ) by {
        if i < events.len() {
            assert(within(events[i], point, index, end));
        }
    }
}

pub proof fn lemma_placed_further(events: Seq<Event>, point: Point, index: int, end: int, far: int)
    requires
        placed(events, point, index, end),
        end <= far,
    ensures
        placed(events, point, index, far),
{
    assert forall|i: int| 0 <= i < events.len() implies within(
        #[trigger] events[i],
        point,
        index,
        far,
    ) by {
        assert(within(events[i], point, index, end));
    }
}

/// Events whose spans are closed in order can follow any events: what is
/// open stays open, and the nesting stays in order.
pub proof fn lemma_nested_concat(a: Seq<Event>, b: Seq<Event>)
    requires
        nested(b),
    ensures
        open_tokens(a + b) == open_tokens(a) + open_tokens(b),
        nested(a + b) == nested(a),
    decreases b.len(),
{
    if b.len() == 0 {
        assert(a + b =~= a);
        assert(open_tokens(a) + open_tokens(b) =~= open_tokens(a));
    } else {
        let before = b.drop_last();
        let event = b.last();
        lemma_nested_concat(a, before);
        assert(a + b =~= (a + before).push(event));
        lemma_open_tokens_push(a + before, event);
        lemma_open_tokens_push(before, event);
        assert(before.push(event) =~= b);
        match event.kind {
            EventKind::Enter => {
                assert((open_tokens(a) + open_tokens(before)).push(event.token_type)
                    =~= open_tokens(a) + open_tokens(before).push(event.token_type));
            },
            EventKind::Exit => {
                assert((open_tokens(a) + open_tokens(before)).drop_last() =~= open_tokens(a)
                    + open_tokens(before).drop_last());
            },
        }
    }
}

/// The start of events that are nested in order is nested in order.
pub proof fn lemma_nested_take(events: Seq<Event>, n: int)
    requires
        nested(events),
        0 <= n <= events.len(),
    ensures
        nested(events.take(n)),
    decreases events.len() - n,
{
    if n < events.len() {
        lemma_nested_take(events, n + 1);
        assert(events.take(n + 1).drop_last() =~= events.take(n));
    } else {
        assert(events.take(n) =~= events);
    }
}

/// Tiled events can follow tiled events that they join.
pub proof fn lemma_tiled_concat(a: Seq<Event>, b: Seq<Event>)
    requires
        tiled(a),
        tiled(b),
        b.len() > 0 ==> joins(a, b[0]),
    ensures
        tiled(a + b),
{
    let whole = a + b;
    assert forall|i: int| 0 <= i < whole.len() - 1 implies #[trigger] adjoins(whole, i) by {
        if i < a.len() - 1 {
            assert(adjoins(a, i));
        } else if i >= a.len() {
            assert(adjoins(b, i - a.len()));
            assert(whole[i] == b[i - a.len()]);
            assert(whole[i + 1] == b[i - a.len() + 1]);
        } else {
            assert(whole[i] == a.last());
            assert(whole[i + 1] == b[0]);
        }
    }
}

/// The indexes of tiled events do not go down.
pub proof fn lemma_tiled_rises(events: Seq<Event>, i: int, j: int)
    requires
        tiled(events),
        0 <= i <= j < events.len(),
    ensures
        events[i].index <= events[j].index,
    decreases j - i,
{
    if i < j {
        lemma_tiled_rises(events, i, j - 1);
        assert(adjoins(events, j - 1));
    }
}

/// No event belongs to a chunk.
pub open spec fn chunkless(events: Seq<Event>) -> bool {
    forall|i: int| 0 <= i < events.len() ==> (#[trigger] events[i]).token_type
        != TokenType::ChunkContent
}

/// Whether the event at `i` opens a chunk.
pub open spec fn opens_chunk(events: Seq<Event>, i: int) -> bool {
    events[i].kind == EventKind::Enter && events[i].token_type == TokenType::ChunkContent
}

/// Chunks hold no spans: the event behind one that opens a chunk closes
/// it.
pub open spec fn leafy(events: Seq<Event>) -> bool {
    forall|i: int|
        0 <= i < events.len() - 1 && #[trigger] opens_chunk(events, i) ==> events[i + 1].kind
            == EventKind::Exit
}

pub proof fn lemma_leafy_push(events: Seq<Event>, event: Event)
    requires
        leafy(events),
        events.len() > 0 && opens_chunk(events, events.len() - 1) ==> event.kind
            == EventKind::Exit,
    ensures
        leafy(events.push(event)),
{
    let after = events.push(event);
    assert forall|i: int| 0 <= i < after.len() - 1 && #[trigger] opens_chunk(
        after,
        i,
    ) implies after[i
        + 1].kind == EventKind::Exit by {
        if i < events.len() - 1 {
            assert(opens_chunk(events, i));
        }
    }
}

pub proof fn lemma_leafy_same(a: Seq<Event>, b: Seq<Event>)
    requires
        same_spans(a, b),
        leafy(a),
    ensures
        leafy(b),
{
    assert forall|i: int| 0 <= i < b.len() - 1 && #[trigger] opens_chunk(b, i) implies b[i
        + 1].kind == EventKind::Exit by {
        assert(a[i].kind == b[i].kind);
        assert(a[i + 1].kind == b[i + 1].kind);
        assert(opens_chunk(a, i));
    }
}

/// Whether the code at `p` lies in the leaf that the event at `i` opens.
pub open spec fn in_leaf(events: Seq<Event>, i: int, p: int) -> bool {
    is_leaf(events, i) && events[i].index <= p < events[i + 1].index
}

proof fn lemma_leaf_below(events: Seq<Event>, p: int, n: int)
    requires
        tiled(events),
        0 < n < events.len(),
        events[0].index <= p < events[n].index,
    ensures
        exists|i: int| 0 <= i < n && in_leaf(events, i, p),
    decreases n,
{
    if events[n - 1].index <= p {
        assert(adjoins(events, n - 1));
        assert(in_leaf(events, n - 1, p));
    } else {
        lemma_leaf_below(events, p, n - 1);
    }
}

/// Every code lies in one leaf and in no other: the leaves cover the input
/// without a gap and without two of them lying over each other.
pub proof fn lemma_covered_once(events: Seq<Event>, start: int, end: int, p: int)
    requires
        covers(events, start, end),
        start <= p < end,
    ensures
        exists|i: int| in_leaf(events, i, p),
        forall|i: int, j: int| in_leaf(events, i, p) && in_leaf(events, j, p) ==> i == j,
{
    lemma_leaf_below(events, p, events.len() - 1);
    assert forall|i: int, j: int| in_leaf(events, i, p) && in_leaf(events, j, p) implies i
        == j by {
        if i < j {
            lemma_tiled_rises(events, i + 1, j);
        } else if j < i {
            lemma_tiled_rises(events, j + 1, i);
        }
    }
}

// ----- The places of the events -----

/// The place behind `codes`, seen from `point`.
pub open spec fn place(point: Point, codes: Seq<Code>) -> Point
    decreases codes.len(),
{
    if codes.len() == 0 {
        point
    } else {
        place(point, codes.drop_last()).advance(codes.last())
    }
}

/// Whether `event` stands at the place that is reached from `point` over
/// the codes of `fed` in front of the event: `point` is the place of the
/// first code of `fed`, which has the index `index`.
pub open spec fn at_place(event: Event, point: Point, index: int, fed: Seq<Code>) -> bool {
    &&& index <= event.index <= index + fed.len()
    &&& event.point == place(point, fed.take(event.index - index))
}

/// Whether every event of `events` stands at the place that is reached
/// from `point` over the codes in front of it: `point` is the place of the
/// first code of `fed`, which has the index `index`.
pub open spec fn traced(events: Seq<Event>, point: Point, index: int, fed: Seq<Code>) -> bool {
    forall|i: int| 0 <= i < events.len() ==> at_place(#[trigger] events[i], point, index, fed)
}

pub proof fn lemma_traced_push(
    events: Seq<Event>,
    event: Event,
    point: Point,
    index: int,
    fed: Seq<Code>,
)
    requires
        traced(events, point, index, fed),
        at_place(event, point, index, fed),
    ensures
        traced(events.push(event), point, index, fed),
{
    let after = events.push(event);
    assert forall|i: int| 0 <= i < after.len() implies at_place(
        #[trigger] after[i],
        point,
        index,
        fed,
    ) by {
        if i < events.len() {
            assert(at_place(events[i], point, index, fed));
        }
    }
}

/// Events that are traced over codes are traced over more codes that
/// begin with them.
pub proof fn lemma_traced_more(
    events: Seq<Event>,
    point: Point,
    index: int,
    fed: Seq<Code>,
    more: Seq<Code>,
)
    requires
        traced(events, point, index, fed),
        fed.len() <= more.len(),
        more.take(fed.len() as int) == fed,
    ensures
        traced(events, point, index, more),
{
    assert forall|i: int| 0 <= i < events.len() implies at_place(
        #[trigger] events[i],
        point,
        index,
        more,
    ) by {
        assert(at_place(events[i], point, index, fed));
        let n = events[i].index - index;
        assert(more.take(n) =~= fed.take(n)) by {
            assert(more.take(fed.len() as int).take(n) =~= more.take(n));
        }
    }
}

/// Going over codes and then over more codes is going over all of them.
pub proof fn lemma_place_concat(point: Point, a: Seq<Code>, b: Seq<Code>)
    ensures
        place(place(point, a), b) == place(point, a + b),
    decreases b.len(),
{
    if b.len() == 0 {
        assert(a + b =~= a);
    } else {
        lemma_place_concat(point, a, b.drop_last());
        assert((a + b).drop_last() =~= a + b.drop_last());
        assert((a + b).last() == b.last());
    }
}

/// Whether the places behind `n` codes fit into a `Point` that begins at
/// `point`.
pub open spec fn roomy_from(point: Point, n: int) -> bool {
    &&& point.line + n <= usize::MAX
    &&& point.column + n <= usize::MAX
    &&& point.offset + 4 * n <= usize::MAX
}

/// The place behind codes lies behind the place in front of them: the
/// line and the offset do not fall, and a column that is 1 or more stays so.
pub proof fn lemma_place_rises(point: Point, codes: Seq<Code>, n: int)
    requires
        0 <= n <= codes.len(),
        roomy_from(point, codes.len() as int),
    ensures
        point.line <= place(point, codes.take(n)).line <= place(point, codes).line
            <= point.line + codes.len(),
        point.offset <= place(point, codes.take(n)).offset <= place(point, codes).offset
            <= point.offset + 4 * codes.len(),
        place(point, codes).column <= point.column + codes.len(),
        point.column >= 1 ==> place(point, codes).column >= 1,
    decreases codes.len() - n,
{
    lemma_place_bounds(point, codes);
    if n < codes.len() {
        let before = codes.drop_last();
        lemma_place_rises(point, before, n);
        lemma_place_bounds(point, before);
        assert(before.take(n) =~= codes.take(n));
    } else {
        assert(codes.take(n) =~= codes);
    }
}

pub proof fn lemma_place_bounds(point: Point, codes: Seq<Code>)
    requires
        roomy_from(point, codes.len() as int),
    ensures
        point.line <= place(point, codes).line <= point.line + codes.len(),
        point.offset <= place(point, codes).offset <= point.offset + 4 * codes.len(),
        place(point, codes).column <= point.column + codes.len(),
        point.column >= 1 ==> place(point, codes).column >= 1,
        codes.len() > 0 ==> place(point, codes.drop_last()).line <= place(point, codes).line
            && place(point, codes.drop_last()).offset <= place(point, codes).offset,
    decreases codes.len(),
{
    if codes.len() > 0 {
        lemma_place_bounds(point, codes.drop_last());
    }
}

/// Of two events that are traced, the one that stands further on in the
/// input stands at a place further on: its line and its offset are not
/// smaller.
pub proof fn lemma_places_rise(
    events: Seq<Event>,
    point: Point,
    index: int,
    fed: Seq<Code>,
    i: int,
    j: int,
)
    requires
        traced(events, point, index, fed),
        roomy_from(point, fed.len() as int),
        0 <= i < events.len(),
        0 <= j < events.len(),
        events[i].index <= events[j].index,
    ensures
        events[i].point.line <= events[j].point.line,
        events[i].point.offset <= events[j].point.offset,
        point.line <= events[i].point.line,
        point.offset <= events[i].point.offset,
        point.column >= 1 ==> events[i].point.column >= 1,
{
    assert(at_place(events[i], point, index, fed));
    assert(at_place(events[j], point, index, fed));
    let a = events[i].index - index;
    let b = events[j].index - index;
    lemma_place_rises(point, fed.take(b), a);
    assert(fed.take(b).take(a) =~= fed.take(a));
    lemma_place_bounds(point, fed.take(a));
}

/// The indexes, the lines and the offsets of the events do not fall along
/// the log.
pub open spec fn rising(events: Seq<Event>) -> bool {
    forall|i: int, j: int|
        0 <= i <= j < events.len() ==> {
            &&& (#[trigger] events[i]).index <= (#[trigger] events[j]).index
            &&& events[i].point.line <= events[j].point.line
            &&& events[i].point.offset <= events[j].point.offset
        }
}

/// Every event stands in a line and in a column that is 1 or more.
pub open spec fn positive(events: Seq<Event>) -> bool {
    forall|i: int|
        0 <= i < events.len() ==> (#[trigger] events[i]).point.line >= 1
            && events[i].point.column >= 1
}

pub proof fn lemma_traced_concat(
    a: Seq<Event>,
    b: Seq<Event>,
    point: Point,
    index: int,
    fed: Seq<Code>,
)
    requires
        traced(a, point, index, fed),
        traced(b, point, index, fed),
    ensures
        traced(a + b, point, index, fed),
{
    assert forall|i: int| 0 <= i < (a + b).len() implies at_place(
        #[trigger] (a + b)[i],
        point,
        index,
        fed,
    ) by {
        if i < a.len() {
            assert(at_place(a[i], point, index, fed));
        } else {
            assert(at_place(b[i - a.len()], point, index, fed));
        }
    }
}

pub proof fn lemma_traced_subrange(
    events: Seq<Event>,
    from: int,
    to: int,
    point: Point,
    index: int,
    fed: Seq<Code>,
)
    requires
        traced(events, point, index, fed),
        0 <= from <= to <= events.len(),
    ensures
        traced(events.subrange(from, to), point, index, fed),
{
    assert forall|i: int| 0 <= i < to - from implies at_place(
        #[trigger] events.subrange(from, to)[i],
        point,
        index,
        fed,
    ) by {
        assert(at_place(events[from + i], point, index, fed));
    }
}

/// Events that are traced from an event which is traced are traced from
/// where that event is.
pub proof fn lemma_traced_inside(
    inner: Seq<Event>,
    first: Event,
    end: int,
    codes: Seq<Code>,
    point: Point,
    index: int,
)
    requires
        index <= first.index <= end <= index + codes.len(),
        at_place(first, point, index, codes),
        traced(
            inner,
            first.point,
            first.index as int,
            codes.subrange(first.index - index, end - index),
        ),
    ensures
        traced(inner, point, index, codes),
{
    let part = codes.subrange(first.index - index, end - index);
    assert forall|i: int| 0 <= i < inner.len() implies at_place(
        #[trigger] inner[i],
        point,
        index,
        codes,
    ) by {
        let event = inner[i];
        assert(at_place(event, first.point, first.index as int, part));
        let a = codes.take(first.index - index);
        let b = codes.subrange(first.index - index, event.index - index);
        assert(part.take(event.index - first.index) =~= b);
        assert(codes.take(event.index - index) =~= a + b);
        lemma_place_concat(point, a, b);
    }
}

/// Events that are traced lie within the bounds that their places have.
pub proof fn lemma_traced_placed(events: Seq<Event>, point: Point, index: int, fed: Seq<Code>)
    requires
        traced(events, point, index, fed),
        roomy_from(point, fed.len() as int),
    ensures
        placed(events, point, index, index + fed.len()),
{
    assert forall|i: int| 0 <= i < events.len() implies within(
        #[trigger] events[i],
        point,
        index,
        index + fed.len(),
    ) by {
        assert(at_place(events[i], point, index, fed));
        lemma_place_bounds(point, fed.take(events[i].index - index));
    }
}

/// Events that are traced and leave no gap rise along the log, and stand
/// in lines and columns that are 1 or more where tokenizing began in such.
pub proof fn lemma_traced_rising(events: Seq<Event>, point: Point, index: int, fed: Seq<Code>)
    requires
        traced(events, point, index, fed),
        tiled(events),
        roomy_from(point, fed.len() as int),
    ensures
        rising(events),
        point.line >= 1 && point.column >= 1 ==> positive(events),
{
    assert forall|i: int, j: int| 0 <= i <= j < events.len() implies {
        &&& (#[trigger] events[i]).index <= (#[trigger] events[j]).index
        &&& events[i].point.line <= events[j].point.line
        &&& events[i].point.offset <= events[j].point.offset
    } by {
        lemma_tiled_rises(events, i, j);
        lemma_places_rise(events, point, index, fed, i, j);
    }
    if point.line >= 1 && point.column >= 1 {
        assert forall|i: int| 0 <= i < events.len() implies (#[trigger] events[i]).point.line >= 1
            && events[i].point.column >= 1 by {
            lemma_places_rise(events, point, index, fed, i, i);
        }
    }
}

} // verus!
