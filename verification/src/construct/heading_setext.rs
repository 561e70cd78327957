//! A setext heading: a paragraph with a line of `=` or of `-` under it.
//!
//! Whether a line is an underline is known only when the paragraph in
//! front of it is, so on its own the construct does not match. The line
//! becomes the last line of the content, or, where it is made of three or
//! more `-`, a thematic break behind the content. When the events are
//! resolved, a heading is made of a paragraph and its last line, or of a
//! paragraph and the thematic break in the next line.

use vstd::prelude::*;
use crate::code::Code;
use crate::event::{
    Event, EventKind, Point, TokenType, adjoins, at_place, balanced, chunkless, covers, is_leaf,
    lemma_traced_concat, lemma_traced_push, lemma_traced_subrange, traced, joins, lemma_nested_concat,
    lemma_nested_take, lemma_open_tokens_push, lemma_tiled_concat, lemma_tiled_push, nested,
    open_tokens, tiled,
};
use crate::state::{Family, State, StateFnResult, StateName};
use crate::tokenizer::{Tokenizer, TokenizerView, left, remainder};

verus! {

/// What [`start`] does.
pub open spec fn start_step(t: TokenizerView, code: Code) -> (TokenizerView, StateFnResult) {
    (t, (State::Failure, remainder(code, false)))
}

/// Before a setext heading. The underline of a setext heading counts only
/// behind a paragraph, and is found when the events are resolved, so on
/// its own the construct does not match.
///
/// ```markdown
/// |==
/// ```
pub fn start(tokenizer: &mut Tokenizer, code: Code) -> (result: StateFnResult)
    requires
        old(tokenizer)@.awaits(StateName::HeadingSetextStart, code),
    ensures
        old(tokenizer)@.stepped(StateName::HeadingSetextStart, code, final(tokenizer)@, result),
        (final(tokenizer)@, result) == start_step(old(tokenizer)@, code),
{
    (State::Failure, left(code, false))
}

/// What the state function of `name` does, for the states of this file.
pub open spec fn step(name: StateName, t: TokenizerView, code: Code) -> (
    TokenizerView,
    StateFnResult,
) {
    match name {
        StateName::HeadingSetextStart => start_step(t, code),
        _ => (t, (State::Failure, None)),
    }
}

/// Run the state function of `name`, which is a state of this file.
pub fn call(tokenizer: &mut Tokenizer, name: StateName, code: Code) -> (result: StateFnResult)
    requires
        old(tokenizer)@.awaits(name, code),
        name.family() == Family::HeadingSetext,
    ensures
        old(tokenizer)@.stepped(name, code, final(tokenizer)@, result),
        (final(tokenizer)@, result) == step(name, old(tokenizer)@, code),
{
    match name {
        StateName::HeadingSetextStart => start(tokenizer, code),
        _ => (State::Failure, None),
    }
}

// ----- The underline -----

/// The most columns of whitespace in front of an underline.
pub const HEADING_SETEXT_INDENT_MAX: usize = 3;

/// Where the run of the code `code` ends that begins at `from`, below `end`.
pub open spec fn run_end(codes: Seq<Code>, from: int, end: int, code: Code) -> int
    decreases end - from,
{
    if 0 <= from < end <= codes.len() && codes[from] == code {
        run_end(codes, from + 1, end, code)
    } else {
        from
    }
}

/// Where the run of spaces and tabs ends that begins at `from`, below
/// `end`.
pub open spec fn blank_end(codes: Seq<Code>, from: int, end: int) -> int
    decreases end - from,
{
    if 0 <= from < end <= codes.len() && codes[from].is_space_or_tab() {
        blank_end(codes, from + 1, end)
    } else {
        from
    }
}

/// Whether the codes from `start` up to `end` are an underline: three
/// spaces at most, one or more `=` or one or more `-`, and spaces or tabs
/// at will.
pub open spec fn is_underline(codes: Seq<Code>, start: int, end: int) -> bool {
    let sequence = run_end(codes, start, end, Code::Char(' '));
    &&& 0 <= start <= end <= codes.len()
    &&& sequence - start <= HEADING_SETEXT_INDENT_MAX
    &&& sequence < end
    &&& codes[sequence] == Code::Char('=') || codes[sequence] == Code::Char('-')
    &&& blank_end(codes, run_end(codes, sequence, end, codes[sequence]), end) == end
}

/// Where the run of the code `code` ends that begins at `from`, below `end`.
fn end_of_run(codes: &[Code], from: usize, end: usize, code: Code) -> (to: usize)
    requires
        from <= end <= codes@.len(),
    ensures
        to == run_end(codes@, from as int, end as int, code),
        from <= to <= end,
{
    let mut to = from;
    while to < end && codes[to] == code
        invariant
            from <= to <= end <= codes@.len(),
            run_end(codes@, to as int, end as int, code) == run_end(
                codes@,
                from as int,
                end as int,
                code,
            ),
        decreases end - to,
    {
        to = to + 1;
    }
    to
}

/// Where the run of spaces and tabs ends that begins at `from`, below
/// `end`.
fn end_of_blank(codes: &[Code], from: usize, end: usize) -> (to: usize)
    requires
        from <= end <= codes@.len(),
    ensures
        to == blank_end(codes@, from as int, end as int),
        from <= to <= end,
{
    let mut to = from;
    while to < end && codes[to].space_or_tab()
        invariant
            from <= to <= end <= codes@.len(),
            blank_end(codes@, to as int, end as int) == blank_end(
                codes@,
                from as int,
                end as int,
            ),
        decreases end - to,
    {
        to = to + 1;
    }
    to
}

/// Whether the codes with the indexes from `start` up to `end` are an
/// underline, where the first of `codes` has the index `base`.
fn underline_from(codes: &[Code], base: usize, start: usize, end: usize) -> (b: bool)
    ensures
        b == is_underline(codes@, start - base, end - base),
{
    if start < base || end < base {
        false
    } else {
        underline(codes, start - base, end - base)
    }
}

/// Whether the codes from `start` up to `end` are an underline.
pub fn underline(codes: &[Code], start: usize, end: usize) -> (b: bool)
    ensures
        b == is_underline(codes@, start as int, end as int),
{
    if start > end || end > codes.len() {
        return false;
    }
    let sequence = end_of_run(codes, start, end, Code::Char(' '));
    if sequence - start > HEADING_SETEXT_INDENT_MAX || sequence >= end {
        return false;
    }
    let marker = codes[sequence];
    if !(marker.is('=') || marker.is('-')) {
        return false;
    }
    let after = end_of_run(codes, sequence, end, marker);
    end_of_blank(codes, after, end) == end
}

// ----- Resolving -----

/// The place behind the leaves that stand side by side from `k` on.
pub open spec fn leaves_end(events: Seq<Event>, k: int) -> int
    decreases events.len() - k,
{
    if is_leaf(events, k) {
        leaves_end(events, k + 2)
    } else {
        k
    }
}

/// The event `event` as one of `kind` and `token_type` at the same place.
pub open spec fn retagged(event: Event, kind: EventKind, token_type: TokenType) -> Event {
    Event { kind, token_type, point: event.point, index: event.index, previous: None, next: None }
}

/// Whether the event at `i` is of `kind` and `token_type`.
pub open spec fn is_at(events: Seq<Event>, i: int, kind: EventKind, token_type: TokenType) -> bool {
    0 <= i < events.len() && events[i].kind == kind && events[i].token_type == token_type
}

/// Whether content begins at `i` that is a paragraph whose last line is an
/// underline: a heading.
pub open spec fn heading_at(events: Seq<Event>, codes: Seq<Code>, base: int, i: int) -> bool {
    let e = leaves_end(events, i + 2);
    &&& is_at(events, i, EventKind::Enter, TokenType::Content)
    &&& is_at(events, i + 1, EventKind::Enter, TokenType::Paragraph)
    &&& is_at(events, e, EventKind::Exit, TokenType::Paragraph)
    &&& is_at(events, e + 1, EventKind::Exit, TokenType::Content)
    &&& e >= i + 8
    &&& events[e - 2].token_type == TokenType::Data
    &&& events[e - 4].token_type == TokenType::LineEnding
    &&& is_underline(codes, events[e - 2].index - base, events[e - 1].index - base)
}

/// The events of the heading that is made of the content at `i`: the lines
/// in front of the last line ending are its text, and the last line is its
/// underline.
pub open spec fn heading_of(events: Seq<Event>, i: int) -> Seq<Event> {
    let e = leaves_end(events, i + 2);
    seq![
        retagged(events[i], EventKind::Enter, TokenType::HeadingSetext),
        retagged(events[i + 1], EventKind::Enter, TokenType::HeadingSetextText),
    ] + events.subrange(i + 2, e - 4) + seq![
        retagged(events[e - 4], EventKind::Exit, TokenType::HeadingSetextText),
    ] + events.subrange(e - 4, e - 2) + seq![
        retagged(events[e - 2], EventKind::Enter, TokenType::HeadingSetextUnderline),
        retagged(events[e - 1], EventKind::Exit, TokenType::HeadingSetextUnderline),
        retagged(events[e + 1], EventKind::Exit, TokenType::HeadingSetext),
    ]
}

/// Whether content begins at `i` that is a paragraph with a thematic
/// break in the next line which is an underline as well: a heading.
pub open spec fn ruled_at(events: Seq<Event>, codes: Seq<Code>, base: int, i: int) -> bool {
    let e = leaves_end(events, i + 2);
    let b = leaves_end(events, e + 2);
    let t = leaves_end(events, b + 1);
    &&& is_at(events, i, EventKind::Enter, TokenType::Content)
    &&& is_at(events, i + 1, EventKind::Enter, TokenType::Paragraph)
    &&& is_at(events, e, EventKind::Exit, TokenType::Paragraph)
    &&& is_at(events, e + 1, EventKind::Exit, TokenType::Content)
    &&& e >= i + 4
    &&& b == e + 4 || b == e + 6
    &&& events[e + 2].token_type == TokenType::LineEnding
    &&& is_at(events, b, EventKind::Enter, TokenType::ThematicBreak)
    &&& is_at(events, t, EventKind::Exit, TokenType::ThematicBreak)
    &&& is_underline(codes, events[e + 4].index - base, events[t].index - base)
}

/// The events of the heading that is made of the content at `i` and the
/// thematic break behind it: the paragraph is its text, and the thematic
/// break its underline.
pub open spec fn ruled_of(events: Seq<Event>, i: int) -> Seq<Event> {
    let e = leaves_end(events, i + 2);
    let t = leaves_end(events, leaves_end(events, e + 2) + 1);
    seq![
        retagged(events[i], EventKind::Enter, TokenType::HeadingSetext),
        retagged(events[i + 1], EventKind::Enter, TokenType::HeadingSetextText),
    ] + events.subrange(i + 2, e) + seq![
        retagged(events[e], EventKind::Exit, TokenType::HeadingSetextText),
    ] + events.subrange(e + 2, e + 4) + seq![
        retagged(events[e + 4], EventKind::Enter, TokenType::HeadingSetextUnderline),
        retagged(events[t], EventKind::Exit, TokenType::HeadingSetextUnderline),
        retagged(events[t], EventKind::Exit, TokenType::HeadingSetext),
    ]
}

/// The events from `i` on, with a heading in the place of every
/// paragraph whose last line is an underline, and of every paragraph with
/// a thematic break behind it that is one. The first of `codes` has the
/// index `base`.
pub open spec fn with_headings(events: Seq<Event>, codes: Seq<Code>, base: int, i: int) -> Seq<
    Event,
>
    decreases events.len() - i,
{
    if i < 0 || i >= events.len() {
        Seq::empty()
    } else if heading_at(events, codes, base, i) {
        let next = leaves_end(events, i + 2) + 2;
        if next <= i || next > events.len() {
            Seq::empty()
        } else {
            heading_of(events, i) + with_headings(events, codes, base, next)
        }
    } else if ruled_at(events, codes, base, i) {
        let next = leaves_end(events, leaves_end(events, leaves_end(events, i + 2) + 2) + 1) + 1;
        if next <= i || next > events.len() {
            Seq::empty()
        } else {
            ruled_of(events, i) + with_headings(events, codes, base, next)
        }
    } else {
        seq![events[i]] + with_headings(events, codes, base, i + 1)
    }
}

/// The place behind the leaves that stand side by side from `k` on.
fn end_of_leaves(events: &Vec<Event>, k: usize) -> (e: usize)
    requires
        k <= events.len(),
    ensures
        e == leaves_end(events@, k as int),
        k <= e <= events.len(),
{
    let mut e = k;
    while events.len() - e >= 2 && is_enter(&events[e]) && !is_enter(&events[e + 1])
        invariant
            k <= e <= events.len(),
            leaves_end(events@, e as int) == leaves_end(events@, k as int),
        decreases events.len() - e,
    {
        e = e + 2;
    }
    e
}

fn is_enter(event: &Event) -> (b: bool)
    ensures
        b == (event.kind == EventKind::Enter),
{
    match event.kind {
        EventKind::Enter => true,
        EventKind::Exit => false,
    }
}

/// Whether the event at `i` is of `kind` and `token_type`.
fn at(events: &Vec<Event>, i: usize, kind: EventKind, token_type: TokenType) -> (b: bool)
    ensures
        b == is_at(events@, i as int, kind, token_type),
{
    i < events.len() && events[i].kind == kind && events[i].token_type == token_type
}

/// The event `event` as one of `kind` and `token_type` at the same place.
fn retag(event: &Event, kind: EventKind, token_type: TokenType) -> (out: Event)
    ensures
        out == retagged(*event, kind, token_type),
{
    Event { kind, token_type, point: event.point, index: event.index, previous: None, next: None }
}

/// Put the events of `events` from `from` up to `to` behind `out`.
fn copy(out: &mut Vec<Event>, events: &Vec<Event>, from: usize, to: usize)
    requires
        from <= to <= events.len(),
    ensures
        final(out)@ == old(out)@ + events@.subrange(from as int, to as int),
{
    let mut k = from;
    proof {
        assert(out@ =~= old(out)@ + events@.subrange(from as int, k as int));
    }
    while k < to
        invariant
            from <= k <= to <= events.len(),
            out@ == old(out)@ + events@.subrange(from as int, k as int),
        decreases to - k,
    {
        out.push(events[k]);
        proof {
            assert(out@ =~= old(out)@ + events@.subrange(from as int, k + 1));
        }
        k = k + 1;
    }
}

/// Whether a heading begins at `i`; if so, with the place of the event that
/// closes its paragraph.
fn heading(events: &Vec<Event>, codes: &[Code], base: usize, i: usize) -> (found: Option<usize>)
    requires
        i < events.len(),
    ensures
        found is Some == heading_at(events@, codes@, base as int, i as int),
        found matches Some(e) ==> e == leaves_end(events@, i + 2) && i + 8 <= e && e + 1
            < events.len(),
{
    if !at(events, i, EventKind::Enter, TokenType::Content) || events.len() - i < 2 || !at(
        events,
        i + 1,
        EventKind::Enter,
        TokenType::Paragraph,
    ) {
        return None;
    }
    let e = end_of_leaves(events, i + 2);
    if events.len() - e < 2 || e - i < 8 {
        return None;
    }
    if !at(events, e, EventKind::Exit, TokenType::Paragraph) || !at(
        events,
        e + 1,
        EventKind::Exit,
        TokenType::Content,
    ) {
        return None;
    }
    let data = match events[e - 2].token_type {
        TokenType::Data => true,
        _ => false,
    };
    let line_ending = match events[e - 4].token_type {
        TokenType::LineEnding => true,
        _ => false,
    };
    if data && line_ending && underline_from(
        codes,
        base,
        events[e - 2].index,
        events[e - 1].index,
    ) {
        Some(e)
    } else {
        None
    }
}

/// The leaves end at or behind where they begin.
pub proof fn lemma_leaves_end(events: Seq<Event>, k: int)
    ensures
        leaves_end(events, k) >= k,
        leaves_end(events, k) > k ==> is_leaf(events, k),
        (leaves_end(events, k) - k) % 2 == 0,
        is_leaf(events, k) ==> leaves_end(events, k) == leaves_end(events, k + 2),
    decreases events.len() - k,
{
    if is_leaf(events, k) {
        lemma_leaves_end(events, k + 2);
    }
}

/// Every second event from `k` up to where the leaves end opens a leaf.
pub proof fn lemma_leaf_among(events: Seq<Event>, k: int, j: int)
    requires
        k <= j < leaves_end(events, k),
        (j - k) % 2 == 0,
    ensures
        is_leaf(events, j),
        j + 2 <= leaves_end(events, k),
    decreases j - k,
{
    lemma_leaves_end(events, k);
    if k < j {
        lemma_leaf_among(events, k + 2, j);
    } else {
        lemma_leaves_end(events, k + 2);
    }
}

/// Leaves that stand side by side are closed in order, and leave open what
/// was open in front of them.
pub proof fn lemma_leaves(events: Seq<Event>, k: int, m: int)
    requires
        nested(events),
        0 <= k <= m <= leaves_end(events, k),
        m <= events.len(),
        (m - k) % 2 == 0,
    ensures
        balanced(events.subrange(k, m)),
        open_tokens(events.take(m)) == open_tokens(events.take(k)),
        tiled(events) ==> tiled(events.subrange(k, m)),
        forall|j: int| k <= j < m ==> (#[trigger] events[j]).kind == if (j - k) % 2 == 0 {
            EventKind::Enter
        } else {
            EventKind::Exit
        },
    decreases m - k,
{
    if k == m {
        assert(events.subrange(k, m) =~= Seq::empty());
    } else {
        lemma_leaves(events, k, m - 2);
        lemma_leaf_among(events, k, m - 2);
        let enter = events[m - 2];
        let exit = events[m - 1];
        let before = events.subrange(k, m - 2);
        lemma_nested_take(events, m);
        lemma_nested_take(events, m - 1);
        assert(events.take(m).drop_last() =~= events.take(m - 1));
        assert(events.take(m - 1).drop_last() =~= events.take(m - 2));
        assert(events.take(m).last() == exit);
        assert(events.take(m - 1).last() == enter);
        let open = open_tokens(events.take(m - 2));
        assert(open_tokens(events.take(m - 1)) == open.push(enter.token_type));
        assert(open.push(enter.token_type).drop_last() =~= open);
        assert(exit.token_type == enter.token_type);
        lemma_open_tokens_push(before, enter);
        lemma_open_tokens_push(before.push(enter), exit);
        assert(before.push(enter).push(exit) =~= events.subrange(k, m));
        assert(open_tokens(before).push(enter.token_type).drop_last() =~= open_tokens(before));
        if tiled(events) {
            assert forall|j: int| 0 <= j < events.subrange(
                k,
                m,
            ).len() - 1 implies #[trigger] adjoins(
                events.subrange(k, m),
                j,
            ) by {
                assert(adjoins(events, k + j));
            }
        }
    }
}

/// What holds when the events below `i` have been worked into `out`.
pub open spec fn kept(events: Seq<Event>, out: Seq<Event>, i: int) -> bool {
    &&& 0 <= i <= events.len()
    &&& nested(out)
    &&& open_tokens(out) == open_tokens(events.take(i))
    &&& tiled(out)
    &&& (out.len() == 0) == (i == 0)
    &&& i > 0 ==> {
        &&& out[0].index == events[0].index
        &&& out.last().index == events[i - 1].index
        &&& out.last().kind == events[i - 1].kind
    }
}

/// An event that belongs to no heading is taken over as it is.
proof fn lemma_kept_copy(events: Seq<Event>, out: Seq<Event>, i: int)
    requires
        nested(events),
        tiled(events),
        kept(events, out, i),
        i < events.len(),
    ensures
        kept(events, out.push(events[i]), i + 1),
{
    let event = events[i];
    lemma_nested_take(events, i + 1);
    assert(events.take(i + 1).drop_last() =~= events.take(i));
    assert(events.take(i + 1).last() == event);
    lemma_open_tokens_push(events.take(i), event);
    lemma_open_tokens_push(out, event);
    assert(events.take(i).push(event) =~= events.take(i + 1));
    if i > 0 {
        assert(adjoins(events, i - 1));
    }
    lemma_tiled_push(out, event);
}

/// The heading that is made of content is closed in order.
proof fn lemma_heading_nested(events: Seq<Event>, codes: Seq<Code>, base: int, i: int)
    requires
        nested(events),
        heading_at(events, codes, base, i),
    ensures
        balanced(heading_of(events, i)),
{
    let e = leaves_end(events, i + 2);
    let first = retagged(events[i], EventKind::Enter, TokenType::HeadingSetext);
    let second = retagged(events[i + 1], EventKind::Enter, TokenType::HeadingSetextText);
    let text = events.subrange(i + 2, e - 4);
    let third = retagged(events[e - 4], EventKind::Exit, TokenType::HeadingSetextText);
    let fourth = retagged(events[e - 2], EventKind::Enter, TokenType::HeadingSetextUnderline);
    let fifth = retagged(events[e - 1], EventKind::Exit, TokenType::HeadingSetextUnderline);
    let sixth = retagged(events[e + 1], EventKind::Exit, TokenType::HeadingSetext);
    let ending = events.subrange(e - 4, e - 2);
    lemma_leaves_end(events, i + 2);
    lemma_leaf_among(events, i + 2, e - 4);
    lemma_leaves_end(events, e - 4);
    lemma_leaves_end(events, e - 2);
    lemma_leaves(events, i + 2, e - 4);
    lemma_leaves(events, e - 4, e - 2);
    let s1 = Seq::<Event>::empty().push(first).push(second);
    lemma_open_tokens_push(Seq::empty(), first);
    lemma_open_tokens_push(Seq::<Event>::empty().push(first), second);
    assert(open_tokens(s1) =~= seq![TokenType::HeadingSetext, TokenType::HeadingSetextText]);
    let s2 = s1 + text;
    lemma_nested_concat(s1, text);
    assert(open_tokens(s2) =~= open_tokens(s1));
    let s3 = s2.push(third);
    lemma_open_tokens_push(s2, third);
    assert(open_tokens(s3) =~= seq![TokenType::HeadingSetext]);
    let s4 = s3 + ending;
    lemma_nested_concat(s3, ending);
    assert(open_tokens(s4) =~= seq![TokenType::HeadingSetext]);
    let s5 = s4.push(fourth).push(fifth);
    lemma_open_tokens_push(s4, fourth);
    lemma_open_tokens_push(s4.push(fourth), fifth);
    assert(open_tokens(s5) =~= seq![TokenType::HeadingSetext]);
    let s6 = s5.push(sixth);
    lemma_open_tokens_push(s5, sixth);
    assert(open_tokens(s6) =~= Seq::empty());
    assert(s6 =~= heading_of(events, i));
}

/// The heading that is made of content leaves no gap, and begins and ends
/// where the content does.
proof fn lemma_heading_tiled(events: Seq<Event>, codes: Seq<Code>, base: int, i: int)
    requires
        nested(events),
        tiled(events),
        heading_at(events, codes, base, i),
    ensures
        tiled(heading_of(events, i)),
        heading_of(events, i).len() > 0,
        heading_of(events, i)[0].index == events[i].index,
        heading_of(events, i)[0].kind == EventKind::Enter,
        heading_of(events, i).last().index == events[leaves_end(events, i + 2) + 1].index,
        heading_of(events, i).last().kind == EventKind::Exit,
{
    let e = leaves_end(events, i + 2);
    let first = retagged(events[i], EventKind::Enter, TokenType::HeadingSetext);
    let second = retagged(events[i + 1], EventKind::Enter, TokenType::HeadingSetextText);
    let text = events.subrange(i + 2, e - 4);
    let third = retagged(events[e - 4], EventKind::Exit, TokenType::HeadingSetextText);
    let fourth = retagged(events[e - 2], EventKind::Enter, TokenType::HeadingSetextUnderline);
    let fifth = retagged(events[e - 1], EventKind::Exit, TokenType::HeadingSetextUnderline);
    let sixth = retagged(events[e + 1], EventKind::Exit, TokenType::HeadingSetext);
    let ending = events.subrange(e - 4, e - 2);
    lemma_leaves_end(events, i + 2);
    lemma_leaf_among(events, i + 2, e - 4);
    lemma_leaves_end(events, e - 4);
    lemma_leaves_end(events, e - 2);
    lemma_leaves(events, i + 2, e - 4);
    lemma_leaves(events, e - 4, e - 2);
    lemma_leaves(events, i + 2, e);
    assert(adjoins(events, i));
    assert(adjoins(events, i + 1));
    assert(adjoins(events, e - 5));
    assert(adjoins(events, e - 3));
    assert(adjoins(events, e - 2));
    assert(adjoins(events, e - 1));
    assert(adjoins(events, e));
    let s1 = Seq::<Event>::empty().push(first).push(second);
    lemma_tiled_push(Seq::empty(), first);
    lemma_tiled_push(Seq::<Event>::empty().push(first), second);
    assert(text[0] == events[i + 2]);
    let s2 = s1 + text;
    lemma_tiled_concat(s1, text);
    assert(s2.last() == events[e - 5]);
    let s3 = s2.push(third);
    lemma_tiled_push(s2, third);
    assert(ending[0] == events[e - 4]);
    let s4 = s3 + ending;
    lemma_tiled_concat(s3, ending);
    assert(s4.last() == events[e - 3]);
    lemma_tiled_push(s4, fourth);
    lemma_tiled_push(s4.push(fourth), fifth);
    let s5 = s4.push(fourth).push(fifth);
    lemma_tiled_push(s5, sixth);
    assert(s5.push(sixth) =~= heading_of(events, i));
}

/// What was open in front of content is open behind it.
proof fn lemma_content_closed(events: Seq<Event>, codes: Seq<Code>, base: int, i: int)
    requires
        nested(events),
        heading_at(events, codes, base, i),
    ensures
        open_tokens(events.take(leaves_end(events, i + 2) + 2)) == open_tokens(events.take(i)),
{
    let e = leaves_end(events, i + 2);
    lemma_leaves_end(events, i + 2);
    lemma_leaves(events, i + 2, e);
    lemma_nested_take(events, i + 1);
    lemma_nested_take(events, i + 2);
    lemma_nested_take(events, e + 1);
    lemma_nested_take(events, e + 2);
    assert(events.take(i + 1).drop_last() =~= events.take(i));
    assert(events.take(i + 2).drop_last() =~= events.take(i + 1));
    assert(events.take(e + 1).drop_last() =~= events.take(e));
    assert(events.take(e + 2).drop_last() =~= events.take(e + 1));
    assert(events.take(i + 1).last() == events[i]);
    assert(events.take(i + 2).last() == events[i + 1]);
    assert(events.take(e + 1).last() == events[e]);
    assert(events.take(e + 2).last() == events[e + 1]);
    let open = open_tokens(events.take(i));
    assert(open_tokens(events.take(i + 1)) == open.push(TokenType::Content));
    assert(open_tokens(events.take(i + 2)) == open.push(TokenType::Content).push(
        TokenType::Paragraph,
    ));
    assert(open.push(TokenType::Content).push(TokenType::Paragraph).drop_last() =~= open.push(
        TokenType::Content,
    ));
    assert(open.push(TokenType::Content).drop_last() =~= open);
}

/// A paragraph whose last line is an underline is replaced by a heading.
proof fn lemma_kept_heading(
    events: Seq<Event>,
    codes: Seq<Code>,
    base: int,
    out: Seq<Event>,
    i: int,
)
    requires
        nested(events),
        tiled(events),
        kept(events, out, i),
        heading_at(events, codes, base, i),
    ensures
        kept(events, out + heading_of(events, i), leaves_end(events, i + 2) + 2),
{
    let made = heading_of(events, i);
    lemma_heading_nested(events, codes, base, i);
    lemma_heading_tiled(events, codes, base, i);
    lemma_content_closed(events, codes, base, i);
    lemma_nested_concat(out, made);
    assert(open_tokens(out) + open_tokens(made) =~= open_tokens(out));
    if i > 0 {
        assert(adjoins(events, i - 1));
    }
    lemma_tiled_concat(out, made);
}

/// The heading that is made of a paragraph and a thematic break is closed
/// in order.
proof fn lemma_ruled_nested(events: Seq<Event>, codes: Seq<Code>, base: int, i: int)
    requires
        nested(events),
        ruled_at(events, codes, base, i),
    ensures
        balanced(ruled_of(events, i)),
{
    let e = leaves_end(events, i + 2);
    let b = leaves_end(events, e + 2);
    let t = leaves_end(events, b + 1);
    let first = retagged(events[i], EventKind::Enter, TokenType::HeadingSetext);
    let second = retagged(events[i + 1], EventKind::Enter, TokenType::HeadingSetextText);
    let text = events.subrange(i + 2, e);
    let third = retagged(events[e], EventKind::Exit, TokenType::HeadingSetextText);
    let ending = events.subrange(e + 2, e + 4);
    let fourth = retagged(events[e + 4], EventKind::Enter, TokenType::HeadingSetextUnderline);
    let fifth = retagged(events[t], EventKind::Exit, TokenType::HeadingSetextUnderline);
    let sixth = retagged(events[t], EventKind::Exit, TokenType::HeadingSetext);
    lemma_leaves_end(events, i + 2);
    lemma_leaves_end(events, e + 2);
    lemma_leaves(events, i + 2, e);
    lemma_leaves(events, e + 2, e + 4);
    let s1 = Seq::<Event>::empty().push(first).push(second);
    lemma_open_tokens_push(Seq::empty(), first);
    lemma_open_tokens_push(Seq::<Event>::empty().push(first), second);
    assert(open_tokens(s1) =~= seq![TokenType::HeadingSetext, TokenType::HeadingSetextText]);
    let s2 = s1 + text;
    lemma_nested_concat(s1, text);
    assert(open_tokens(s2) =~= open_tokens(s1));
    let s3 = s2.push(third);
    lemma_open_tokens_push(s2, third);
    assert(open_tokens(s3) =~= seq![TokenType::HeadingSetext]);
    let s4 = s3 + ending;
    lemma_nested_concat(s3, ending);
    assert(open_tokens(s4) =~= seq![TokenType::HeadingSetext]);
    let s5 = s4.push(fourth).push(fifth);
    lemma_open_tokens_push(s4, fourth);
    lemma_open_tokens_push(s4.push(fourth), fifth);
    assert(open_tokens(s5) =~= seq![TokenType::HeadingSetext]);
    let s6 = s5.push(sixth);
    lemma_open_tokens_push(s5, sixth);
    assert(open_tokens(s6) =~= Seq::empty());
    assert(s6 =~= ruled_of(events, i));
}

/// The heading that is made of a paragraph and a thematic break leaves no
/// gap, and begins where the content does and ends where the thematic break
/// does.
proof fn lemma_ruled_tiled(events: Seq<Event>, codes: Seq<Code>, base: int, i: int)
    requires
        nested(events),
        tiled(events),
        ruled_at(events, codes, base, i),
    ensures
        tiled(ruled_of(events, i)),
        ruled_of(events, i).len() > 0,
        ruled_of(events, i)[0].index == events[i].index,
        ruled_of(events, i)[0].kind == EventKind::Enter,
        ruled_of(events, i).last().index == events[leaves_end(
            events,
            leaves_end(events, leaves_end(events, i + 2) + 2) + 1,
        )].index,
        ruled_of(events, i).last().kind == EventKind::Exit,
{
    let e = leaves_end(events, i + 2);
    let b = leaves_end(events, e + 2);
    let t = leaves_end(events, b + 1);
    let first = retagged(events[i], EventKind::Enter, TokenType::HeadingSetext);
    let second = retagged(events[i + 1], EventKind::Enter, TokenType::HeadingSetextText);
    let text = events.subrange(i + 2, e);
    let third = retagged(events[e], EventKind::Exit, TokenType::HeadingSetextText);
    let ending = events.subrange(e + 2, e + 4);
    let fourth = retagged(events[e + 4], EventKind::Enter, TokenType::HeadingSetextUnderline);
    let fifth = retagged(events[t], EventKind::Exit, TokenType::HeadingSetextUnderline);
    let sixth = retagged(events[t], EventKind::Exit, TokenType::HeadingSetext);
    lemma_leaves_end(events, i + 2);
    lemma_leaves_end(events, e + 2);
    lemma_leaves_end(events, b + 1);
    lemma_leaves(events, i + 2, e);
    lemma_leaves(events, e + 2, e + 4);
    assert(adjoins(events, i));
    assert(adjoins(events, i + 1));
    assert(adjoins(events, e - 1));
    assert(adjoins(events, e));
    assert(adjoins(events, e + 1));
    assert(adjoins(events, e + 3));
    crate::event::lemma_tiled_rises(events, e + 4, t);
    let s1 = Seq::<Event>::empty().push(first).push(second);
    lemma_tiled_push(Seq::empty(), first);
    lemma_tiled_push(Seq::<Event>::empty().push(first), second);
    assert(text[0] == events[i + 2]);
    let s2 = s1 + text;
    lemma_tiled_concat(s1, text);
    assert(s2.last() == events[e - 1]);
    let s3 = s2.push(third);
    lemma_tiled_push(s2, third);
    assert(ending[0] == events[e + 2]);
    let s4 = s3 + ending;
    lemma_tiled_concat(s3, ending);
    assert(s4.last() == events[e + 3]);
    lemma_tiled_push(s4, fourth);
    lemma_tiled_push(s4.push(fourth), fifth);
    let s5 = s4.push(fourth).push(fifth);
    lemma_tiled_push(s5, sixth);
    assert(s5.push(sixth) =~= ruled_of(events, i));
}

/// What was open in front of a paragraph is open behind the thematic break
/// that follows it.
proof fn lemma_ruled_closed(events: Seq<Event>, codes: Seq<Code>, base: int, i: int)
    requires
        nested(events),
        ruled_at(events, codes, base, i),
    ensures
        open_tokens(
            events.take(
                leaves_end(events, leaves_end(events, leaves_end(events, i + 2) + 2) + 1) + 1,
            ),
        ) == open_tokens(events.take(i)),
{
    let e = leaves_end(events, i + 2);
    let b = leaves_end(events, e + 2);
    let t = leaves_end(events, b + 1);
    lemma_leaves_end(events, i + 2);
    lemma_leaves_end(events, e + 2);
    lemma_leaves_end(events, b + 1);
    lemma_leaves(events, i + 2, e);
    lemma_leaves(events, e + 2, b);
    lemma_leaves(events, b + 1, t);
    lemma_nested_take(events, i + 1);
    lemma_nested_take(events, i + 2);
    lemma_nested_take(events, e + 1);
    lemma_nested_take(events, e + 2);
    lemma_nested_take(events, b + 1);
    lemma_nested_take(events, t + 1);
    assert(events.take(i + 1).drop_last() =~= events.take(i));
    assert(events.take(i + 2).drop_last() =~= events.take(i + 1));
    assert(events.take(e + 1).drop_last() =~= events.take(e));
    assert(events.take(e + 2).drop_last() =~= events.take(e + 1));
    assert(events.take(b + 1).drop_last() =~= events.take(b));
    assert(events.take(t + 1).drop_last() =~= events.take(t));
    assert(events.take(i + 1).last() == events[i]);
    assert(events.take(i + 2).last() == events[i + 1]);
    assert(events.take(e + 1).last() == events[e]);
    assert(events.take(e + 2).last() == events[e + 1]);
    assert(events.take(b + 1).last() == events[b]);
    assert(events.take(t + 1).last() == events[t]);
    let open = open_tokens(events.take(i));
    assert(open_tokens(events.take(i + 1)) == open.push(TokenType::Content));
    assert(open_tokens(events.take(i + 2)) == open.push(TokenType::Content).push(
        TokenType::Paragraph,
    ));
    assert(open.push(TokenType::Content).push(TokenType::Paragraph).drop_last() =~= open.push(
        TokenType::Content,
    ));
    assert(open.push(TokenType::Content).drop_last() =~= open);
    assert(open_tokens(events.take(e + 2)) == open);
    assert(open_tokens(events.take(b + 1)) == open.push(TokenType::ThematicBreak));
    assert(open.push(TokenType::ThematicBreak).drop_last() =~= open);
}

/// A paragraph with a thematic break behind it that is an underline is
/// replaced by a heading.
proof fn lemma_kept_ruled(events: Seq<Event>, codes: Seq<Code>, base: int, out: Seq<Event>, i: int)
    requires
        nested(events),
        tiled(events),
        kept(events, out, i),
        ruled_at(events, codes, base, i),
    ensures
        kept(
            events,
            out + ruled_of(events, i),
            leaves_end(events, leaves_end(events, leaves_end(events, i + 2) + 2) + 1) + 1,
        ),
{
    let made = ruled_of(events, i);
    lemma_ruled_nested(events, codes, base, i);
    lemma_ruled_tiled(events, codes, base, i);
    lemma_ruled_closed(events, codes, base, i);
    lemma_nested_concat(out, made);
    assert(open_tokens(out) + open_tokens(made) =~= open_tokens(out));
    if i > 0 {
        assert(adjoins(events, i - 1));
    }
    lemma_tiled_concat(out, made);
}

/// Events that hold no chunk, one behind the other, hold no chunk.
proof fn lemma_chunkless_concat(a: Seq<Event>, b: Seq<Event>)
    requires
        chunkless(a),
        chunkless(b),
    ensures
        chunkless(a + b),
{
    assert forall|k: int| 0 <= k < (a + b).len() implies (#[trigger] (a + b)[k]).token_type
        != TokenType::ChunkContent by {
        if k < a.len() {
            assert(a[k].token_type != TokenType::ChunkContent);
        } else {
            assert(b[k - a.len()].token_type != TokenType::ChunkContent);
        }
    }
}

/// A stretch of events that hold no chunk holds no chunk.
proof fn lemma_chunkless_subrange(events: Seq<Event>, from: int, to: int)
    requires
        chunkless(events),
        0 <= from <= to <= events.len(),
    ensures
        chunkless(events.subrange(from, to)),
{
    assert forall|k: int| 0 <= k < to - from implies (#[trigger] events.subrange(
        from,
        to,
    )[k]).token_type != TokenType::ChunkContent by {
        assert(events[from + k].token_type != TokenType::ChunkContent);
    }
}

/// A heading that is made of events that hold no chunk holds no chunk.
proof fn lemma_heading_chunkless(events: Seq<Event>, codes: Seq<Code>, base: int, i: int)
    requires
        chunkless(events),
        heading_at(events, codes, base, i),
    ensures
        chunkless(heading_of(events, i)),
{
    let e = leaves_end(events, i + 2);
    lemma_chunkless_subrange(events, i + 2, e - 4);
    lemma_chunkless_subrange(events, e - 4, e - 2);
    let head = seq![
        retagged(events[i], EventKind::Enter, TokenType::HeadingSetext),
        retagged(events[i + 1], EventKind::Enter, TokenType::HeadingSetextText),
    ];
    let middle = seq![retagged(events[e - 4], EventKind::Exit, TokenType::HeadingSetextText)];
    let tail = seq![
        retagged(events[e - 2], EventKind::Enter, TokenType::HeadingSetextUnderline),
        retagged(events[e - 1], EventKind::Exit, TokenType::HeadingSetextUnderline),
        retagged(events[e + 1], EventKind::Exit, TokenType::HeadingSetext),
    ];
    lemma_chunkless_concat(head, events.subrange(i + 2, e - 4));
    lemma_chunkless_concat(head + events.subrange(i + 2, e - 4), middle);
    lemma_chunkless_concat(
        head + events.subrange(i + 2, e - 4) + middle,
        events.subrange(e - 4, e - 2),
    );
    lemma_chunkless_concat(
        head + events.subrange(i + 2, e - 4) + middle + events.subrange(e - 4, e - 2),
        tail,
    );
}

/// A heading that is made of a paragraph and a thematic break which hold
/// no chunk holds no chunk.
proof fn lemma_ruled_chunkless(events: Seq<Event>, codes: Seq<Code>, base: int, i: int)
    requires
        chunkless(events),
        ruled_at(events, codes, base, i),
    ensures
        chunkless(ruled_of(events, i)),
{
    let e = leaves_end(events, i + 2);
    let t = leaves_end(events, leaves_end(events, e + 2) + 1);
    lemma_leaves_end(events, i + 2);
    lemma_leaves_end(events, e + 2);
    lemma_chunkless_subrange(events, i + 2, e);
    lemma_chunkless_subrange(events, e + 2, e + 4);
    let head = seq![
        retagged(events[i], EventKind::Enter, TokenType::HeadingSetext),
        retagged(events[i + 1], EventKind::Enter, TokenType::HeadingSetextText),
    ];
    let middle = seq![retagged(events[e], EventKind::Exit, TokenType::HeadingSetextText)];
    let tail = seq![
        retagged(events[e + 4], EventKind::Enter, TokenType::HeadingSetextUnderline),
        retagged(events[t], EventKind::Exit, TokenType::HeadingSetextUnderline),
        retagged(events[t], EventKind::Exit, TokenType::HeadingSetext),
    ];
    lemma_chunkless_concat(head, events.subrange(i + 2, e));
    lemma_chunkless_concat(head + events.subrange(i + 2, e), middle);
    lemma_chunkless_concat(head + events.subrange(i + 2, e) + middle, events.subrange(e + 2, e + 4));
    lemma_chunkless_concat(
        head + events.subrange(i + 2, e) + middle + events.subrange(e + 2, e + 4),
        tail,
    );
}

/// A heading that is made of events which are traced is traced.
proof fn lemma_heading_traced(
    events: Seq<Event>,
    codes: Seq<Code>,
    base: int,
    i: int,
    point: Point,
    index: int,
    fed: Seq<Code>,
)
    requires
        traced(events, point, index, fed),
        heading_at(events, codes, base, i),
    ensures
        traced(heading_of(events, i), point, index, fed),
{
    let e = leaves_end(events, i + 2);
    lemma_traced_subrange(events, i + 2, e - 4, point, index, fed);
    lemma_traced_subrange(events, e - 4, e - 2, point, index, fed);
    assert(at_place(events[i], point, index, fed));
    assert(at_place(events[i + 1], point, index, fed));
    assert(at_place(events[e - 4], point, index, fed));
    assert(at_place(events[e - 2], point, index, fed));
    assert(at_place(events[e - 1], point, index, fed));
    assert(at_place(events[e + 1], point, index, fed));
    let head = seq![
        retagged(events[i], EventKind::Enter, TokenType::HeadingSetext),
        retagged(events[i + 1], EventKind::Enter, TokenType::HeadingSetextText),
    ];
    let middle = seq![retagged(events[e - 4], EventKind::Exit, TokenType::HeadingSetextText)];
    let tail = seq![
        retagged(events[e - 2], EventKind::Enter, TokenType::HeadingSetextUnderline),
        retagged(events[e - 1], EventKind::Exit, TokenType::HeadingSetextUnderline),
        retagged(events[e + 1], EventKind::Exit, TokenType::HeadingSetext),
    ];
    lemma_traced_concat(head, events.subrange(i + 2, e - 4), point, index, fed);
    lemma_traced_concat(head + events.subrange(i + 2, e - 4), middle, point, index, fed);
    lemma_traced_concat(
        head + events.subrange(i + 2, e - 4) + middle,
        events.subrange(e - 4, e - 2),
        point,
        index,
        fed,
    );
    lemma_traced_concat(
        head + events.subrange(i + 2, e - 4) + middle + events.subrange(e - 4, e - 2),
        tail,
        point,
        index,
        fed,
    );
}

/// A heading that is made of a paragraph and a thematic break which are
/// traced is traced.
proof fn lemma_ruled_traced(
    events: Seq<Event>,
    codes: Seq<Code>,
    base: int,
    i: int,
    point: Point,
    index: int,
    fed: Seq<Code>,
)
    requires
        traced(events, point, index, fed),
        ruled_at(events, codes, base, i),
    ensures
        traced(ruled_of(events, i), point, index, fed),
{
    let e = leaves_end(events, i + 2);
    let t = leaves_end(events, leaves_end(events, e + 2) + 1);
    lemma_leaves_end(events, i + 2);
    lemma_leaves_end(events, e + 2);
    lemma_traced_subrange(events, i + 2, e, point, index, fed);
    lemma_traced_subrange(events, e + 2, e + 4, point, index, fed);
    assert(at_place(events[i], point, index, fed));
    assert(at_place(events[i + 1], point, index, fed));
    assert(at_place(events[e], point, index, fed));
    assert(at_place(events[e + 4], point, index, fed));
    assert(at_place(events[t], point, index, fed));
    let head = seq![
        retagged(events[i], EventKind::Enter, TokenType::HeadingSetext),
        retagged(events[i + 1], EventKind::Enter, TokenType::HeadingSetextText),
    ];
    let middle = seq![retagged(events[e], EventKind::Exit, TokenType::HeadingSetextText)];
    let tail = seq![
        retagged(events[e + 4], EventKind::Enter, TokenType::HeadingSetextUnderline),
        retagged(events[t], EventKind::Exit, TokenType::HeadingSetextUnderline),
        retagged(events[t], EventKind::Exit, TokenType::HeadingSetext),
    ];
    lemma_traced_concat(head, events.subrange(i + 2, e), point, index, fed);
    lemma_traced_concat(head + events.subrange(i + 2, e), middle, point, index, fed);
    lemma_traced_concat(
        head + events.subrange(i + 2, e) + middle,
        events.subrange(e + 2, e + 4),
        point,
        index,
        fed,
    );
    lemma_traced_concat(
        head + events.subrange(i + 2, e) + middle + events.subrange(e + 2, e + 4),
        tail,
        point,
        index,
        fed,
    );
}

/// Whether a paragraph begins at `i` with a thematic break behind it that
/// is an underline; if so, with the places of the events that close the
/// paragraph and the thematic break.
fn ruled(events: &Vec<Event>, codes: &[Code], base: usize, i: usize) -> (found: Option<
    (usize, usize),
>)
    requires
        i < events.len(),
    ensures
        found is Some == ruled_at(events@, codes@, base as int, i as int),
        found matches Some((e, t)) ==> {
            &&& e == leaves_end(events@, i + 2)
            &&& t == leaves_end(events@, leaves_end(events@, e + 2) + 1)
            &&& i + 4 <= e
            &&& e + 4 < t < events.len()
        },
{
    if !at(events, i, EventKind::Enter, TokenType::Content) || events.len() - i < 2 || !at(
        events,
        i + 1,
        EventKind::Enter,
        TokenType::Paragraph,
    ) {
        return None;
    }
    let e = end_of_leaves(events, i + 2);
    if events.len() - e < 3 || e - i < 4 {
        return None;
    }
    if !at(events, e, EventKind::Exit, TokenType::Paragraph) || !at(
        events,
        e + 1,
        EventKind::Exit,
        TokenType::Content,
    ) {
        return None;
    }
    let b = end_of_leaves(events, e + 2);
    if !(b - e == 4 || b - e == 6) || b >= events.len() {
        return None;
    }
    let line_ending = match events[e + 2].token_type {
        TokenType::LineEnding => true,
        _ => false,
    };
    if !line_ending || !at(events, b, EventKind::Enter, TokenType::ThematicBreak) {
        return None;
    }
    let t = end_of_leaves(events, b + 1);
    if !at(events, t, EventKind::Exit, TokenType::ThematicBreak) {
        return None;
    }
    if underline_from(codes, base, events[e + 4].index, events[t].index) {
        Some((e, t))
    } else {
        None
    }
}

/// Make a heading of every paragraph whose last line is an underline, and
/// of every paragraph with a thematic break in the next line that is one.
/// The first of `codes` has the index `base`.
///
/// The headings take the place of what they are made of: the events stay
/// nested in order, leave no gap, and begin and end where they did.
pub fn resolve(events: Vec<Event>, codes: &[Code], base: usize) -> (out: Vec<Event>)
    ensures
        out@ == with_headings(events@, codes@, base as int, 0),
        nested(events@) && tiled(events@) ==> {
            &&& nested(out@)
            &&& open_tokens(out@) == open_tokens(events@)
            &&& tiled(out@)
            &&& forall|start: int, end: int|
                covers(events@, start, end) ==> covers(out@, start, end)
        },
        chunkless(events@) ==> chunkless(out@),
        forall|point: Point, index: int, fed: Seq<Code>|
            traced(events@, point, index, fed) ==> #[trigger] traced(out@, point, index, fed),
{
    let mut out: Vec<Event> = Vec::new();
    let mut i: usize = 0;
    proof {
        assert(out@ + with_headings(events@, codes@, base as int, 0) =~= with_headings(
            events@,
            codes@,
            base as int,
            0,
        ));
        assert(events@.take(0) =~= Seq::empty());
    }
    while i < events.len()
        invariant
            i <= events.len(),
            out@ + with_headings(events@, codes@, base as int, i as int) == with_headings(
                events@,
                codes@,
                base as int,
                0,
            ),
            nested(events@) && tiled(events@) ==> kept(events@, out@, i as int),
            chunkless(events@) ==> chunkless(out@),
            forall|point: Point, index: int, fed: Seq<Code>|
                traced(events@, point, index, fed) ==> #[trigger] traced(out@, point, index, fed),
        decreases events.len() - i,
    {
        let ghost before = out@;
        match heading(&events, codes, base, i) {
            Some(e) => {
                out.push(retag(&events[i], EventKind::Enter, TokenType::HeadingSetext));
                out.push(retag(&events[i + 1], EventKind::Enter, TokenType::HeadingSetextText));
                copy(&mut out, &events, i + 2, e - 4);
                out.push(retag(&events[e - 4], EventKind::Exit, TokenType::HeadingSetextText));
                copy(&mut out, &events, e - 4, e - 2);
                out.push(
                    retag(&events[e - 2], EventKind::Enter, TokenType::HeadingSetextUnderline),
                );
                out.push(retag(&events[e - 1], EventKind::Exit, TokenType::HeadingSetextUnderline));
                out.push(retag(&events[e + 1], EventKind::Exit, TokenType::HeadingSetext));
                proof {
                    let made = heading_of(events@, i as int);
                    let rest = with_headings(events@, codes@, base as int, e + 2);
                    assert(out@ =~= before + made);
                    assert((before + made) + rest =~= before + (made + rest));
                    if nested(events@) && tiled(events@) {
                        lemma_kept_heading(events@, codes@, base as int, before, i as int);
                    }
                    if chunkless(events@) {
                        lemma_heading_chunkless(events@, codes@, base as int, i as int);
                        lemma_chunkless_concat(before, made);
                    }
                    assert forall|point: Point, index: int, fed: Seq<Code>|
                        traced(events@, point, index, fed) implies #[trigger] traced(
                        before + made,
                        point,
                        index,
                        fed,
                    ) by {
                        lemma_heading_traced(
                            events@,
                            codes@,
                            base as int,
                            i as int,
                            point,
                            index,
                            fed,
                        );
                        lemma_traced_concat(before, made, point, index, fed);
                    }
                }
                i = e + 2;
            },
            None => match ruled(&events, codes, base, i) {
                Some((e, t)) => {
                    out.push(retag(&events[i], EventKind::Enter, TokenType::HeadingSetext));
                    out.push(
                        retag(&events[i + 1], EventKind::Enter, TokenType::HeadingSetextText),
                    );
                    copy(&mut out, &events, i + 2, e);
                    out.push(retag(&events[e], EventKind::Exit, TokenType::HeadingSetextText));
                    copy(&mut out, &events, e + 2, e + 4);
                    out.push(
                        retag(&events[e + 4], EventKind::Enter, TokenType::HeadingSetextUnderline),
                    );
                    out.push(
                        retag(&events[t], EventKind::Exit, TokenType::HeadingSetextUnderline),
                    );
                    out.push(retag(&events[t], EventKind::Exit, TokenType::HeadingSetext));
                    proof {
                        let made = ruled_of(events@, i as int);
                        let rest = with_headings(events@, codes@, base as int, t + 1);
                        assert(out@ =~= before + made);
                        assert((before + made) + rest =~= before + (made + rest));
                        if nested(events@) && tiled(events@) {
                            lemma_kept_ruled(events@, codes@, base as int, before, i as int);
                        }
                        if chunkless(events@) {
                            lemma_ruled_chunkless(events@, codes@, base as int, i as int);
                            lemma_chunkless_concat(before, made);
                        }
                        assert forall|point: Point, index: int, fed: Seq<Code>|
                            traced(events@, point, index, fed) implies #[trigger] traced(
                            before + made,
                            point,
                            index,
                            fed,
                        ) by {
                            lemma_ruled_traced(
                                events@,
                                codes@,
                                base as int,
                                i as int,
                                point,
                                index,
                                fed,
                            );
                            lemma_traced_concat(before, made, point, index, fed);
                        }
                    }
                    i = t + 1;
                },
                None => {
                    out.push(events[i]);
                    proof {
                        let rest = with_headings(events@, codes@, base as int, i + 1);
                        assert(before.push(events@[i as int]) + rest =~= before + (seq![
                            events@[i as int],
                        ] + rest));
                        if nested(events@) && tiled(events@) {
                            lemma_kept_copy(events@, before, i as int);
                        }
                        assert forall|point: Point, index: int, fed: Seq<Code>|
                            traced(events@, point, index, fed) implies #[trigger] traced(
                            before.push(events@[i as int]),
                            point,
                            index,
                            fed,
                        ) by {
                            assert(at_place(events@[i as int], point, index, fed));
                            lemma_traced_push(before, events@[i as int], point, index, fed);
                        }
                        if chunkless(events@) {
                            lemma_chunkless_concat(before, seq![events@[i as int]]);
                            assert(before.push(events@[i as int]) =~= before + seq![
                                events@[i as int],
                            ]);
                        }
                    }
                    i = i + 1;
                },
            },
        }
    }
    proof {
        assert(out@ + Seq::<Event>::empty() =~= out@);
        assert(events@.take(i as int) =~= events@);
        assert(events@.take(0) =~= Seq::empty());
    }
    out
}

} // verus!
