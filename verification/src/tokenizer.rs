//! The tokenizer: the event log, the cursor, the stack of open spans, and
//! the attempts that are under way.
//!
//! State functions work on the tokenizer with a handful of operations:
//! `enter`, `exit` and `consume` write events and move the cursor, `attempt`
//! and `check` begin to try a construct, so that what it did can be undone.
//! Each operation is described by a function of the same name on
//! [`TokenizerView`], the tokenizer as a value of specifications, and asks
//! for what keeps the log in order: every exit closes the span that was
//! opened last, and the cursor moves only inside spans that hold no spans.

use vstd::prelude::*;
use crate::code::Code;
use crate::event::{
    Event, EventKind, Point, TokenType, leafy, linked, nested, open_tokens, place, placed,
    tiled, traced,
};
use crate::state::{CodeClass, State, StateName};

pub mod lemmas;

verus! {

/// The most attempts that the states of the machine have under way at one
/// time: what a state function leaves behind, and what the machine counts
/// on when it measures how far it is from standing still.
pub const MAX_DEPTH: usize = 5;

/// What an attempt needs to undo what a construct did.
#[derive(Clone, Copy, Debug, PartialEq, Eq, Structural)]
pub struct Snapshot {
    pub events_len: usize,
    pub stack_len: usize,
    pub point: Point,
    pub index: usize,
}

/// How an attempt ends.
#[derive(Clone, Copy, Debug, PartialEq, Eq, Structural)]
pub enum AttemptKind {
    /// Keep what the construct did if it matched, undo it if not.
    Attempt,
    /// Undo what the construct did in either case.
    Check,
}

/// An attempt that is under way.
#[derive(Debug)]
pub struct Attempt {
    pub kind: AttemptKind,
    /// Where to go on when a construct matched.
    pub ok: State,
    /// Where to go on when no construct matched.
    pub nok: State,
    /// The constructs to try when the current one does not match, in order.
    pub rest: Vec<StateName>,
    pub snapshot: Snapshot,
    /// The code that was fed when the attempt began.
    pub code: Code,
}

/// An [`Attempt`] as a value of specifications.
pub struct AttemptView {
    pub kind: AttemptKind,
    pub ok: State,
    pub nok: State,
    pub rest: Seq<StateName>,
    pub snapshot: Snapshot,
    pub code: Code,
}

impl View for Attempt {
    type V = AttemptView;

    open spec fn view(&self) -> AttemptView {
        AttemptView {
            kind: self.kind,
            ok: self.ok,
            nok: self.nok,
            rest: self.rest@,
            snapshot: self.snapshot,
            code: self.code,
        }
    }
}

impl AttemptView {
    /// Whether the constructs of the attempt have to stop in front of a line
    /// ending or at the end of the input, because the state that follows a
    /// match wants one.
    pub open spec fn needs_line_end(self) -> bool {
        &&& self.kind == AttemptKind::Attempt
        &&& self.ok matches State::Next(name)
        &&& name.accepts() == CodeClass::LineEnd
    }

    /// The rank of the state that follows when no construct matches; for a
    /// check, the larger rank of the two states that can follow.
    pub open spec fn rank(self) -> nat {
        if self.kind == AttemptKind::Check && self.ok.rank() >= self.nok.rank() {
            self.ok.rank()
        } else {
            self.nok.rank()
        }
    }

    /// Whether the constructs of the attempt have to consume before they
    /// match, because the state that follows a match is of a higher rank
    /// than the attempt.
    pub open spec fn must_move(self) -> bool {
        self.kind == AttemptKind::Attempt && self.ok.rank() > self.nok.rank()
    }
}

/// The tokenizer.
pub struct Tokenizer {
    /// The log of events.
    pub events: Vec<Event>,
    /// The spans that are open, outermost first.
    pub stack: Vec<TokenType>,
    /// The place of the cursor.
    pub point: Point,
    /// Index into the codes of the cursor.
    pub index: usize,
    /// The code that is being fed.
    pub current: Code,
    /// Whether the code that is being fed was consumed.
    pub consumed: bool,
    /// The attempts that are under way, outermost first.
    pub attempts: Vec<Attempt>,
    /// Where tokenizing began.
    pub start_point: Point,
    pub start_index: usize,
    /// Number of codes of the input: no index goes beyond it.
    pub limit: usize,
    /// The codes that the cursor has gone over since tokenizing began.
    pub fed: Ghost<Seq<Code>>,
}

/// A [`Tokenizer`] as a value of specifications.
pub struct TokenizerView {
    pub events: Seq<Event>,
    pub stack: Seq<TokenType>,
    pub point: Point,
    pub index: usize,
    pub current: Code,
    pub consumed: bool,
    pub attempts: Seq<AttemptView>,
    pub start_point: Point,
    pub start_index: usize,
    pub limit: usize,
    pub fed: Seq<Code>,
}

impl View for Tokenizer {
    type V = TokenizerView;

    open spec fn view(&self) -> TokenizerView {
        TokenizerView {
            events: self.events@,
            stack: self.stack@,
            point: self.point,
            index: self.index,
            current: self.current,
            consumed: self.consumed,
            attempts: Seq::new(self.attempts@.len(), |i: int| self.attempts@[i]@),
            start_point: self.start_point,
            start_index: self.start_index,
            limit: self.limit,
            fed: self.fed@,
        }
    }
}

/// Whether one of `attempts` is a check.
pub open spec fn any_check(attempts: Seq<AttemptView>) -> bool
    decreases attempts.len(),
{
    attempts.len() > 0 && (attempts.last().kind == AttemptKind::Check || any_check(
        attempts.drop_last(),
    ))
}

/// What is left of the code that was fed.
pub open spec fn remainder(code: Code, consumed: bool) -> Option<Code> {
    if consumed || code == Code::Eof {
        None
    } else {
        Some(code)
    }
}

/// What is left of the code that was fed.
pub fn left(code: Code, consumed: bool) -> (rest: Option<Code>)
    ensures
        rest == remainder(code, consumed),
{
    if consumed {
        None
    } else {
        match code {
            Code::Eof => None,
            _ => Some(code),
        }
    }
}

impl TokenizerView {
    // ----- What the operations do -----

    /// The tokenizer in front of an input that begins at `point` and
    /// `index`.
    pub open spec fn initial(point: Point, index: usize) -> TokenizerView {
        TokenizerView {
            events: Seq::empty(),
            stack: Seq::empty(),
            point,
            index,
            current: Code::Eof,
            consumed: false,
            attempts: Seq::empty(),
            start_point: point,
            start_index: index,
            limit: index,
            fed: Seq::empty(),
        }
    }

    /// The event that `enter` or `exit` writes.
    pub open spec fn event(self, kind: EventKind, token_type: TokenType) -> Event {
        Event {
            kind,
            token_type,
            point: self.point,
            index: self.index,
            previous: None,
            next: None,
        }
    }

    /// Open a span of `token_type` at the cursor.
    pub open spec fn enter(self, token_type: TokenType) -> TokenizerView {
        TokenizerView {
            events: self.events.push(self.event(EventKind::Enter, token_type)),
            stack: self.stack.push(token_type),
            ..self
        }
    }

    /// Close the innermost open span, as one of `token_type`, at the cursor.
    pub open spec fn exit(self, token_type: TokenType) -> TokenizerView {
        TokenizerView {
            events: self.events.push(self.event(EventKind::Exit, token_type)),
            stack: self.stack.drop_last(),
            ..self
        }
    }

    /// Move the cursor over the code that is being fed.
    pub open spec fn consume(self) -> TokenizerView {
        TokenizerView {
            point: self.point.advance(self.current),
            index: (self.index + 1) as usize,
            consumed: true,
            fed: self.fed.push(self.current),
            ..self
        }
    }

    /// The snapshot of the tokenizer as it is.
    pub open spec fn snapshot(self) -> Snapshot {
        Snapshot {
            events_len: self.events.len() as usize,
            stack_len: self.stack.len() as usize,
            point: self.point,
            index: self.index,
        }
    }

    /// The attempt that `attempt` begins.
    pub open spec fn begun(
        self,
        kind: AttemptKind,
        rest: Seq<StateName>,
        ok: State,
        nok: State,
    ) -> AttemptView {
        AttemptView { kind, ok, nok, rest, snapshot: self.snapshot(), code: self.current }
    }

    /// Begin an attempt at a construct, with the constructs of `rest` to
    /// try after it; `ok` follows when one of them has matched, `nok` when
    /// none has.
    pub open spec fn attempt(
        self,
        kind: AttemptKind,
        rest: Seq<StateName>,
        ok: State,
        nok: State,
    ) -> TokenizerView {
        TokenizerView { attempts: self.attempts.push(self.begun(kind, rest, ok, nok)), ..self }
    }

    /// Link the chunk opened at `previous` to the chunk opened at `next`.
    pub open spec fn link(self, previous: int, next: int) -> TokenizerView {
        TokenizerView {
            events: self.events.update(
                previous,
                Event { next: Some(next as usize), ..self.events[previous] },
            ).update(next, Event { previous: Some(previous as usize), ..self.events[next] }),
            ..self
        }
    }

    /// Feed `code`.
    pub open spec fn expect(self, code: Code) -> TokenizerView {
        TokenizerView { current: code, consumed: false, ..self }
    }

    /// The tokenizer in front of an input of `limit` codes.
    pub open spec fn bounded(self, limit: usize) -> TokenizerView {
        TokenizerView { limit, ..self }
    }

    /// The innermost attempt.
    pub open spec fn top(self) -> AttemptView {
        self.attempts.last()
    }

    /// The tokenizer as it was when the attempt at `k` began, with the
    /// events of now.
    pub open spec fn at_attempt(self, k: int) -> TokenizerView {
        let attempt = self.attempts[k];
        TokenizerView {
            events: self.events.take(attempt.snapshot.events_len as int),
            stack: self.stack.take(attempt.snapshot.stack_len as int),
            point: attempt.snapshot.point,
            index: attempt.snapshot.index,
            current: attempt.code,
            consumed: false,
            attempts: self.attempts.take(k),
            fed: self.fed.take(attempt.snapshot.index - self.start_index),
            ..self
        }
    }

    /// End the innermost attempt and undo what happened since it began.
    pub open spec fn restore(self) -> TokenizerView {
        self.at_attempt(self.attempts.len() - 1)
    }

    /// End the innermost attempt and keep what happened since it began.
    pub open spec fn keep(self) -> TokenizerView {
        TokenizerView { attempts: self.attempts.drop_last(), ..self }
    }

    // ----- What holds of a tokenizer -----

    /// Number of open spans when the innermost attempt began.
    pub open spec fn base_stack(self) -> int {
        if self.attempts.len() == 0 {
            0
        } else {
            self.attempts.last().snapshot.stack_len as int
        }
    }

    /// Number of events when the innermost attempt began.
    pub open spec fn base_events(self) -> int {
        if self.attempts.len() == 0 {
            0
        } else {
            self.attempts.last().snapshot.events_len as int
        }
    }

    /// Whether what happens now will be undone whatever comes: a check is
    /// under way.
    pub open spec fn speculating(self) -> bool {
        any_check(self.attempts)
    }

    /// The last event opens a span.
    pub open spec fn in_leaf(self) -> bool {
        self.events.len() > 0 && self.events.last().kind == EventKind::Enter
    }

    /// Nothing was consumed since the last event.
    pub open spec fn at_event(self) -> bool {
        self.events.len() > 0 ==> self.events.last().index == self.index
    }

    /// The spans that were opened since the innermost attempt began.
    pub open spec fn opened(self) -> Seq<TokenType> {
        self.stack.subrange(self.base_stack(), self.stack.len() as int)
    }

    /// No place that the tokenizer can reach is too large for a `Point`.
    pub open spec fn limit_ok(self) -> bool {
        &&& self.start_index <= self.limit
        &&& self.start_point.line + (self.limit - self.start_index) <= usize::MAX
        &&& self.start_point.column + (self.limit - self.start_index) <= usize::MAX
        &&& self.start_point.offset + 4 * (self.limit - self.start_index) <= usize::MAX
    }

    /// What holds of the log, the stack and the cursor, and goes on holding
    /// when an attempt is undone.
    #[verifier::opaque]
    pub open spec fn sound(self) -> bool {
        &&& self.events.len() <= usize::MAX
        &&& nested(self.events)
        &&& open_tokens(self.events) == self.stack
        &&& self.stack.len() <= self.events.len()
        &&& linked(self.events)
        &&& placed(self.events, self.start_point, self.start_index as int, self.index as int)
        &&& self.fed.len() == self.index - self.start_index
        &&& self.point == place(self.start_point, self.fed)
        &&& traced(self.events, self.start_point, self.start_index as int, self.fed)
        &&& self.start_index <= self.index <= self.limit
        &&& self.point.line <= self.start_point.line + (self.index - self.start_index)
        &&& self.point.column <= self.start_point.column + (self.index - self.start_index)
        &&& self.point.offset <= self.start_point.offset + 4 * (self.index - self.start_index)
        &&& !self.speculating() ==> {
            &&& tiled(self.events)
            &&& leafy(self.events)
            &&& self.events.len() == 0 ==> self.index == self.start_index
            &&& self.events.len() > 0 ==> {
                &&& self.events[0].index == self.start_index
                &&& self.events.last().index <= self.index
                &&& self.events.last().kind == EventKind::Exit ==> self.events.last().index
                    == self.index
            }
        }
    }

    /// The snapshot of the attempt at `k` lies below the snapshot of the
    /// attempt inside it, or below the tokenizer as it is.
    pub open spec fn above(self, k: int) -> bool {
        let snapshot = self.attempts[k].snapshot;
        if k + 1 < self.attempts.len() {
            let inner = self.attempts[k + 1].snapshot;
            &&& snapshot.events_len <= inner.events_len
            &&& snapshot.stack_len <= inner.stack_len
            &&& snapshot.index <= inner.index
        } else {
            &&& snapshot.events_len <= self.events.len()
            &&& snapshot.stack_len <= self.stack.len()
            &&& snapshot.index <= self.index
        }
    }

    /// What holds of `attempt` when `self` is the tokenizer as the attempt
    /// found it.
    #[verifier::opaque]
    pub open spec fn admits(self, attempt: AttemptView) -> bool {
        &&& self.sound()
        &&& attempt.code != Code::Eof ==> self.index < self.limit
        &&& attempt.kind == AttemptKind::Check || self.can_enter()
        &&& self.ready_for(attempt.nok)
        &&& match attempt.kind {
            AttemptKind::Check => self.ready_for(attempt.ok),
            AttemptKind::Attempt => self.ready_after(attempt.ok),
        }
        &&& forall|j: int|
            0 <= j < attempt.rest.len() ==> self.can_try(attempt, #[trigger] attempt.rest[j])
    }

    /// What holds of the attempt at `k`.
    pub open spec fn attempt_ok(self, k: int) -> bool {
        self.above(k) && self.at_attempt(k).admits(self.attempts[k])
    }

    /// What holds of the attempts.
    pub open spec fn attempts_ok(self) -> bool {
        forall|k: int| 0 <= k < self.attempts.len() ==> #[trigger] self.attempt_ok(k)
    }

    /// What holds of a tokenizer between any two operations.
    #[verifier::opaque]
    pub open spec fn wf(self) -> bool {
        &&& self.limit_ok()
        &&& self.sound()
        &&& self.current != Code::Eof && !self.consumed ==> self.index < self.limit
        &&& self.attempts_ok()
    }

    // ----- What an operation asks for -----

    /// Whether a new span can be opened: not behind codes that belong to
    /// the span around it, and not in a chunk.
    pub open spec fn can_enter(self) -> bool {
        self.speculating() || !self.in_leaf() || (self.at_event()
            && self.events.last().token_type != TokenType::ChunkContent)
    }

    /// Whether the innermost open span can be closed as `token_type`.
    pub open spec fn can_exit(self, token_type: TokenType) -> bool {
        &&& self.base_stack() <= self.stack.len()
        &&& self.opened().len() > 0
        &&& self.opened().last() == token_type
    }

    /// Whether `code` can be consumed.
    pub open spec fn can_consume(self, code: Code) -> bool {
        &&& code == self.current
        &&& code != Code::Eof
        &&& !self.consumed
        &&& self.speculating() || self.in_leaf()
    }

    /// Whether the chunk opened at `previous` can be linked to the chunk
    /// opened at `next`.
    pub open spec fn can_link(self, previous: int, next: int) -> bool {
        &&& self.base_events() <= previous < next < self.events.len()
        &&& self.events[previous].next is None
        &&& self.events[next].previous is None
    }

    /// What a state with a value wants of the log.
    pub open spec fn carries(self, name: StateName) -> bool {
        match name {
            StateName::FlowContent { previous } | StateName::FlowContentContinue { previous } => {
                &&& self.base_events() < self.events.len()
                &&& previous == self.events.len() - 1
                &&& self.events[previous as int].kind == EventKind::Enter
                &&& self.events[previous as int].token_type == TokenType::ChunkContent
                &&& self.events[previous as int].next is None
            },
            StateName::ThematicBreakAtBreak { size, .. }
            | StateName::ThematicBreakSequence { size, .. }
            | StateName::ThematicBreakWhitespace { size, .. } => size <= self.index,
            StateName::HeadingAtxSequenceOpen { rank } => rank <= 6,
            StateName::CodeIndentedIndent { size }
            | StateName::CodeIndentedFurtherIndent { size } => size <= 4,
            StateName::CodeFencedSequenceOpen { size, .. } => size <= self.index,
            StateName::CodeFencedCloseSequence { count, .. } => count <= self.index,
            StateName::CodeFencedContentPrefix { prefix, seen, .. } => seen <= prefix,
            StateName::CodeFencedClosePrefix { seen, .. } => seen < 4,
            StateName::DefinitionLabelAtBreak { size, .. } => size <= 1000,
            StateName::DefinitionLabelLineStart { size, .. } => size <= 1000,
            StateName::DefinitionLabelLineWhitespace { size, .. } => size <= 1000,
            StateName::DefinitionLabelInside { size, .. } => size <= 1000,
            StateName::DefinitionLabelEscape { size, .. } => size <= 1000,
            StateName::DefinitionDestinationRaw { depth, .. } => depth <= self.index,
            StateName::DefinitionDestinationRawEscape { depth, .. } => depth <= self.index,
            StateName::HtmlFlowPrefix { seen, .. } => seen <= 3,
            StateName::HtmlFlowCdataOpenInside { index, .. } => index < 6,
            _ => true,
        }
    }

    /// Whether the state `name` can run.
    pub open spec fn ready(self, name: StateName) -> bool {
        &&& self.base_stack() <= self.stack.len()
        &&& self.opened() =~= name.opens()
        &&& self.attempts.len() <= name.depth()
        &&& name.looks_ahead() ==> self.speculating()
        &&& if name.in_leaf() {
            self.speculating() || self.in_leaf()
        } else {
            self.can_enter()
        }
        &&& self.attempts.len() > 0 && self.attempts.last().needs_line_end() ==> name.ends_line()
        &&& self.attempts.len() > 0 && self.attempts.last().must_move() ==> name.advances()
        &&& self.attempts.len() > 0 && name.moved() ==> self.attempts.last().snapshot.index
            < self.index
        &&& self.carries(name)
    }

    /// Whether the construct can end with a match.
    pub open spec fn done(self) -> bool {
        &&& self.base_stack() == self.stack.len()
        &&& self.can_enter()
        &&& self.attempts.len() > 0 && self.attempts.last().needs_line_end() ==> {
            self.current.is_line_end() && !self.consumed
        }
        &&& self.attempts.len() > 0 && self.attempts.last().must_move()
            ==> self.attempts.last().snapshot.index < self.index
    }

    /// Whether going on with `state` is in order.
    pub open spec fn ready_for(self, state: State) -> bool {
        match state {
            State::Failure => true,
            State::Success => self.done(),
            State::Next(name) => self.ready(name) && name.accepts().holds(self.current),
        }
    }

    /// Whether going on with `ok` is in order once a construct has matched,
    /// when `self` is the tokenizer before the attempt.
    pub open spec fn ready_after(self, ok: State) -> bool {
        match ok {
            State::Failure => true,
            State::Success => {
                &&& self.base_stack() == self.stack.len()
                &&& self.attempts.len() > 0 ==> !self.attempts.last().needs_line_end()
                    && !self.attempts.last().must_move()
            },
            State::Next(name) => {
                &&& self.base_stack() <= self.stack.len()
                &&& self.opened() =~= name.opens()
                &&& self.attempts.len() <= name.depth()
                &&& !name.in_leaf()
                &&& name.looks_ahead() ==> self.speculating()
                &&& name.accepts() != CodeClass::Eol
                &&& self.attempts.len() > 0 && self.attempts.last().needs_line_end()
                    ==> name.ends_line()
                &&& self.attempts.len() > 0 && self.attempts.last().must_move()
                    ==> name.advances()
                &&& !name.moved()
                &&& name.carries_nothing()
            },
        }
    }

    /// Whether the construct that starts at `name` can be tried by
    /// `attempt`, when `self` is the tokenizer before the attempt.
    pub open spec fn can_try(self, attempt: AttemptView, name: StateName) -> bool {
        &&& name.opens().len() == 0
        &&& !name.in_leaf()
        &&& !name.looks_ahead()
        &&& name.accepts() == CodeClass::Any
        &&& name.carries_nothing()
        &&& self.attempts.len() < name.depth()
        &&& attempt.needs_line_end() ==> name.ends_line()
        &&& attempt.must_move() ==> name.advances()
        &&& !name.moved()
    }

    /// Whether an attempt can begin.
    pub open spec fn can_attempt(
        self,
        kind: AttemptKind,
        rest: Seq<StateName>,
        ok: State,
        nok: State,
    ) -> bool {
        let attempt = self.begun(kind, rest, ok, nok);
        &&& !self.consumed
        &&& kind == AttemptKind::Check || self.can_enter()
        &&& self.ready_for(nok)
        &&& match kind {
            AttemptKind::Check => self.ready_for(ok),
            AttemptKind::Attempt => self.ready_after(ok),
        }
        &&& forall|j: int| 0 <= j < rest.len() ==> self.can_try(attempt, #[trigger] rest[j])
    }

    // ----- What a state function asks for and brings about -----

    /// What the state function of `name` asks for when it is fed `code`.
    pub open spec fn awaits(self, name: StateName, code: Code) -> bool {
        &&& self.wf()
        &&& self.current == code
        &&& !self.consumed
        &&& self.ready(name)
        &&& name.accepts().holds(code)
    }

    /// What the state function of `name` has brought about when it was fed
    /// `code`, began with `self`, ended with `after` and handed back
    /// `result`.
    pub open spec fn stepped(
        self,
        name: StateName,
        code: Code,
        after: TokenizerView,
        result: (State, Option<Code>),
    ) -> bool {
        let depth = self.attempts.len() as int;
        &&& after.wf()
        &&& after.current == code
        &&& after.limit == self.limit
        &&& after.start_index == self.start_index
        &&& after.start_point == self.start_point
        &&& after.index == if after.consumed {
            self.index + 1
        } else {
            self.index as int
        }
        &&& after.fed == if after.consumed {
            self.fed.push(code)
        } else {
            self.fed
        }
        &&& depth <= after.attempts.len()
        &&& after.attempts.take(depth) =~= self.attempts
        &&& after.attempts.len() <= MAX_DEPTH
        &&& depth < after.attempts.len() ==> after.attempts[depth].rank() < name.rank()
        &&& forall|k: int|
            depth <= k < after.attempts.len() ==> {
                &&& (#[trigger] after.attempts[k]).code == code
                &&& after.attempts[k].snapshot.index == self.index
            }
        &&& result.1 == remainder(code, after.consumed) || (name.looks_ahead()
            && result.1 is None)
        &&& match result.0 {
            State::Next(next) => {
                &&& after.consumed
                &&& after.ready(next)
                &&& next.accepts() == CodeClass::Any
            },
            State::Success => after.done(),
            State::Failure => true,
        }
        &&& name.steady() ==> if depth < after.attempts.len() {
            after.attempts[depth].ok.steady() && after.attempts[depth].nok.steady()
        } else {
            result.0.steady() || (result.0 == State::Success && code == Code::Eof
                && !after.consumed)
        }
    }
}

impl Tokenizer {
    /// A tokenizer in front of an input that begins at `point` and `index`.
    pub fn new(point: Point, index: usize) -> (tokenizer: Tokenizer)
        ensures
            tokenizer@ == TokenizerView::initial(point, index),
            tokenizer@.wf(),
    {
        let tokenizer = Tokenizer {
            events: Vec::new(),
            stack: Vec::new(),
            point,
            index,
            current: Code::Eof,
            consumed: false,
            attempts: Vec::new(),
            start_point: point,
            start_index: index,
            limit: index,
            fed: Ghost(Seq::empty()),
        };
        proof {
            reveal(TokenizerView::wf);
            reveal(TokenizerView::sound);
            assert(tokenizer@.attempts =~= Seq::empty());
        }
        tokenizer
    }

    /// Open a span of `token_type` at the cursor.
    pub fn enter(&mut self, token_type: TokenType)
        requires
            old(self)@.wf(),
            old(self)@.can_enter(),
        ensures
            final(self)@ == old(self)@.enter(token_type),
            final(self)@.wf(),
            old(self)@.base_stack() <= old(self)@.stack.len() ==> final(self)@.opened()
                == old(self)@.opened().push(token_type),
    {
        let event = Event {
            kind: EventKind::Enter,
            token_type,
            point: self.point,
            index: self.index,
            previous: None,
            next: None,
        };
        self.events.push(event);
        self.stack.push(token_type);
        let _ = self.events.len();
        proof {
            assert(self@.attempts =~= old(self)@.attempts);
            old(self)@.lemma_enter(token_type);
            if old(self)@.base_stack() <= old(self)@.stack.len() {
                assert(self@.opened() =~= old(self)@.opened().push(token_type));
            }
        }
    }

    /// Close the innermost open span, which is of `token_type`, at the
    /// cursor.
    pub fn exit(&mut self, token_type: TokenType)
        requires
            old(self)@.wf(),
            old(self)@.can_exit(token_type),
        ensures
            final(self)@ == old(self)@.exit(token_type),
            final(self)@.wf(),
            final(self)@.opened() == old(self)@.opened().drop_last(),
            forall|rest: Seq<TokenType>|
                old(self)@.opened() == #[trigger] rest.push(token_type) ==> final(self)@.opened()
                    == rest,
    {
        let event = Event {
            kind: EventKind::Exit,
            token_type,
            point: self.point,
            index: self.index,
            previous: None,
            next: None,
        };
        self.events.push(event);
        self.stack.pop();
        let _ = self.events.len();
        proof {
            assert(self@.attempts =~= old(self)@.attempts);
            assert(self@.stack =~= old(self)@.stack.drop_last());
            old(self)@.lemma_exit(token_type);
            assert(self@.opened() =~= old(self)@.opened().drop_last());
            assert forall|rest: Seq<TokenType>|
                old(self)@.opened() == #[trigger] rest.push(token_type) implies self@.opened()
                == rest by {
                assert(rest.push(token_type).drop_last() =~= rest);
            }
        }
    }

    /// Move the cursor over `code`, the code that is being fed.
    pub fn consume(&mut self, code: Code)
        requires
            old(self)@.wf(),
            old(self)@.can_consume(code),
        ensures
            final(self)@ == old(self)@.consume(),
            final(self)@.wf(),
            final(self)@.index == old(self)@.index + 1,
            final(self)@.attempts.len() > 0 ==> final(self)@.attempts.last().snapshot.index
                <= old(self)@.index,
    {
        proof {
            old(self)@.lemma_consume(code);
            old(self)@.lemma_below();
        }
        self.point = self.point.moved(code);
        self.index = self.index + 1;
        self.consumed = true;
        self.fed = Ghost(self.fed@.push(code));
        proof {
            assert(self@.attempts =~= old(self)@.attempts);
        }
    }

    /// Link the chunk opened at `previous` to the chunk opened at `next`.
    pub fn link(&mut self, previous: usize, next: usize)
        requires
            old(self)@.wf(),
            old(self)@.can_link(previous as int, next as int),
        ensures
            final(self)@ == old(self)@.link(previous as int, next as int),
            final(self)@.wf(),
            final(self)@.opened() == old(self)@.opened(),
    {
        let first = self.events[previous];
        let second = self.events[next];
        self.events.set(
            previous,
            Event {
                kind: first.kind,
                token_type: first.token_type,
                point: first.point,
                index: first.index,
                previous: first.previous,
                next: Some(next),
            },
        );
        self.events.set(
            next,
            Event {
                kind: second.kind,
                token_type: second.token_type,
                point: second.point,
                index: second.index,
                previous: Some(previous),
                next: second.next,
            },
        );
        proof {
            assert(self@.attempts =~= old(self)@.attempts);
            assert(self@.events =~= old(self)@.link(previous as int, next as int).events);
            old(self)@.lemma_link(previous as int, next as int);
        }
    }

    fn begin(&mut self, kind: AttemptKind, rest: Vec<StateName>, ok: State, nok: State)
        requires
            old(self)@.wf(),
            old(self)@.can_attempt(kind, rest@, ok, nok),
        ensures
            final(self)@ == old(self)@.attempt(kind, rest@, ok, nok),
            final(self)@.wf(),
            final(self)@.speculating() == (kind == AttemptKind::Check || old(self)@.speculating()),
            final(self)@.base_stack() == final(self)@.stack.len(),
    {
        let attempt = Attempt {
            kind,
            ok,
            nok,
            rest,
            snapshot: Snapshot {
                events_len: self.events.len(),
                stack_len: self.stack.len(),
                point: self.point,
                index: self.index,
            },
            code: self.current,
        };
        self.attempts.push(attempt);
        proof {
            assert(self@.attempts =~= old(self)@.attempts.push(
                old(self)@.begun(kind, rest@, ok, nok),
            ));
            old(self)@.lemma_attempt(kind, rest@, ok, nok);
            old(self)@.lemma_wf_lengths();
        }
    }

    /// Begin an attempt at one construct: the caller goes on with the first
    /// state of the construct. If the construct matches, what it did is kept
    /// and `ok` follows; if not, what it did is undone and `nok` follows.
    pub fn attempt(&mut self, ok: State, nok: State)
        requires
            old(self)@.wf(),
            old(self)@.can_attempt(AttemptKind::Attempt, Seq::empty(), ok, nok),
        ensures
            final(self)@ == old(self)@.attempt(AttemptKind::Attempt, Seq::empty(), ok, nok),
            final(self)@.wf(),
            final(self)@.speculating() == old(self)@.speculating(),
            final(self)@.base_stack() == final(self)@.stack.len(),
    {
        self.begin(AttemptKind::Attempt, Vec::new(), ok, nok)
    }

    /// Begin an attempt at several constructs: the caller goes on with the
    /// first state of the first construct, and `rest` holds the first
    /// states of the others, as many as there are, which are tried in order
    /// until one matches.
    pub fn attempt_n(&mut self, rest: Vec<StateName>, ok: State, nok: State)
        requires
            old(self)@.wf(),
            old(self)@.can_attempt(AttemptKind::Attempt, rest@, ok, nok),
        ensures
            final(self)@ == old(self)@.attempt(AttemptKind::Attempt, rest@, ok, nok),
            final(self)@.wf(),
            final(self)@.speculating() == old(self)@.speculating(),
            final(self)@.base_stack() == final(self)@.stack.len(),
    {
        self.begin(AttemptKind::Attempt, rest, ok, nok)
    }

    /// Begin a look ahead: the caller goes on with the first state of the
    /// construct. What the construct did is undone in either case; `ok`
    /// follows if it matched, `nok` if not.
    pub fn check(&mut self, ok: State, nok: State)
        requires
            old(self)@.wf(),
            old(self)@.can_attempt(AttemptKind::Check, Seq::empty(), ok, nok),
        ensures
            final(self)@ == old(self)@.attempt(AttemptKind::Check, Seq::empty(), ok, nok),
            final(self)@.wf(),
            final(self)@.speculating(),
            final(self)@.base_stack() == final(self)@.stack.len(),
    {
        self.begin(AttemptKind::Check, Vec::new(), ok, nok)
    }
}

} // verus!
