//! The machine: what each state does, and the loop that feeds it.

use vstd::prelude::*;
use crate::code::{Code, proper};
use crate::construct::{
    blank_line, code_fenced, code_indented, definition, heading_atx, heading_setext, html_flow,
    paragraph, partial_whitespace, thematic_break,
};
use crate::content::flow;
use crate::state::{Family, State, StateFnResult, StateName};
use crate::tokenizer::{Attempt, AttemptKind, Tokenizer, TokenizerView, MAX_DEPTH};

verus! {

/// What the state function of `name` does when it is fed `code`: the
/// tokenizer after it, and what it hands back.
pub open spec fn step(name: StateName, t: TokenizerView, code: Code) -> (
    TokenizerView,
    StateFnResult,
) {
    match name.family() {
        Family::Flow => flow::step(name, t, code),
        Family::Paragraph => paragraph::step(name, t, code),
        Family::Whitespace => partial_whitespace::step(name, t, code),
        Family::BlankLine => blank_line::step(name, t, code),
        Family::ThematicBreak => thematic_break::step(name, t, code),
        Family::CodeIndented => code_indented::step(name, t, code),
        Family::CodeFenced => code_fenced::step(name, t, code),
        Family::HtmlFlow => html_flow::step(name, t, code),
        Family::Definition => definition::step(name, t, code),
        Family::HeadingSetext => heading_setext::step(name, t, code),
        Family::HeadingAtx => heading_atx::step(name, t, code),
    }
}

/// Run the state function of `name` on `code`.
pub fn call(tokenizer: &mut Tokenizer, name: StateName, code: Code) -> (result: StateFnResult)
    requires
        old(tokenizer)@.awaits(name, code),
    ensures
        old(tokenizer)@.stepped(name, code, final(tokenizer)@, result),
        (final(tokenizer)@, result) == step(name, old(tokenizer)@, code),
{
    match name.family_of() {
        Family::Flow => flow::call(tokenizer, name, code),
        Family::Paragraph => paragraph::call(tokenizer, name, code),
        Family::Whitespace => partial_whitespace::call(tokenizer, name, code),
        Family::BlankLine => blank_line::call(tokenizer, name, code),
        Family::ThematicBreak => thematic_break::call(tokenizer, name, code),
        Family::CodeIndented => code_indented::call(tokenizer, name, code),
        Family::CodeFenced => code_fenced::call(tokenizer, name, code),
        Family::HtmlFlow => html_flow::call(tokenizer, name, code),
        Family::Definition => definition::call(tokenizer, name, code),
        Family::HeadingSetext => heading_setext::call(tokenizer, name, code),
        Family::HeadingAtx => heading_atx::call(tokenizer, name, code),
    }
}

impl TokenizerView {
    /// End the innermost attempt when its construct has matched
    /// (`matched`) or has not: the tokenizer after it, and the state to go
    /// on with.
    pub open spec fn settle(self, matched: bool) -> (TokenizerView, State) {
        let attempt = self.top();
        if matched {
            match attempt.kind {
                AttemptKind::Attempt => (self.keep(), attempt.ok),
                AttemptKind::Check => (self.restore(), attempt.ok),
            }
        } else if attempt.rest.len() > 0 {
            (
                self.restore().attempt(
                    attempt.kind,
                    attempt.rest.drop_first(),
                    attempt.ok,
                    attempt.nok,
                ),
                State::Next(attempt.rest[0]),
            )
        } else {
            (self.restore(), attempt.nok)
        }
    }

    /// Whether the machine can go on with `state`.
    pub open spec fn holds(self, state: State) -> bool {
        &&& self.wf()
        &&& match state {
            State::Next(name) => {
                &&& self.ready(name)
                &&& if self.consumed {
                    name.accepts() == crate::state::CodeClass::Any
                } else {
                    name.accepts().holds(self.current)
                }
            },
            State::Success => self.done(),
            State::Failure => true,
        }
    }

    pub proof fn lemma_settle(self, matched: bool)
        requires
            self.wf(),
            self.attempts.len() > 0,
            matched ==> self.done(),
        ensures
            self.settle(matched).0.holds(self.settle(matched).1),
    {
        let attempt = self.top();
        let last = self.attempts.len() - 1;
        let before = self.at_attempt(last);
        if matched && attempt.kind == AttemptKind::Attempt {
            self.lemma_keep();
            reveal(TokenizerView::admits);
            let after = self.keep();
            assert(after.attempts =~= before.attempts);
            assert(self.stack.take(attempt.snapshot.stack_len as int) =~= self.stack);
            assert(after.base_stack() == before.base_stack());
            assert(after.opened() =~= before.opened());
        } else {
            self.lemma_restore();
            reveal(TokenizerView::admits);
            if !matched && attempt.rest.len() > 0 {
                let rest = attempt.rest.drop_first();
                let mid = self.restore();
                assert(mid.begun(attempt.kind, rest, attempt.ok, attempt.nok).needs_line_end()
                    == attempt.needs_line_end());
                assert forall|j: int| 0 <= j < rest.len() implies mid.can_try(
                    mid.begun(attempt.kind, rest, attempt.ok, attempt.nok),
                    #[trigger] rest[j],
                ) by {
                    assert(rest[j] == attempt.rest[j + 1]);
                    assert(mid.can_try(attempt, attempt.rest[j + 1]));
                }
                assert(mid.can_try(attempt, attempt.rest[0]));
                mid.lemma_attempt(attempt.kind, rest, attempt.ok, attempt.nok);
                let after = mid.attempt(attempt.kind, rest, attempt.ok, attempt.nok);
                mid.lemma_wf_lengths();
                assert(after.opened() =~= Seq::empty());
            }
        }
    }
}

impl Tokenizer {
    /// End the innermost attempt when its construct has matched
    /// (`matched`) or has not, and say with which state to go on.
    pub fn settle(&mut self, matched: bool) -> (state: State)
        requires
            old(self)@.wf(),
            old(self)@.attempts.len() > 0,
            matched ==> old(self)@.done(),
        ensures
            (final(self)@, state) == old(self)@.settle(matched),
            final(self)@.holds(state),
    {
        proof {
            old(self)@.lemma_settle(matched);
        }
        let attempt = self.attempts.pop().unwrap();
        let ghost popped = self@;
        proof {
            assert(popped.attempts =~= old(self)@.attempts.drop_last());
            assert(attempt@ == old(self)@.top());
            assert(popped == old(self)@.keep());
        }
        let keep = matched && match attempt.kind {
            AttemptKind::Attempt => true,
            AttemptKind::Check => false,
        };
        if keep {
            return attempt.ok;
        }
        self.events.truncate(attempt.snapshot.events_len);
        self.stack.truncate(attempt.snapshot.stack_len);
        self.point = attempt.snapshot.point;
        self.index = attempt.snapshot.index;
        self.current = attempt.code;
        self.consumed = false;
        self.fed = Ghost(self.fed@.take(attempt.snapshot.index - self.start_index));
        proof {
            old(self)@.lemma_restore();
            assert(self@.attempts =~= old(self)@.attempts.drop_last());
            assert(self@.events =~= old(self)@.restore().events);
            assert(self@.stack =~= old(self)@.restore().stack);
            assert(self@ == old(self)@.restore());
        }
        if matched {
            attempt.ok
        } else if attempt.rest.len() > 0 {
            let mut rest = attempt.rest;
            let next = rest.remove(0);
            let again = Attempt {
                kind: attempt.kind,
                ok: attempt.ok,
                nok: attempt.nok,
                rest,
                snapshot: attempt.snapshot,
                code: attempt.code,
            };
            self.attempts.push(again);
            proof {
                let mid = old(self)@.restore();
                assert(rest@ =~= old(self)@.top().rest.drop_first());
                assert(self@.attempts =~= mid.attempts.push(again@));
                assert(self@ == mid.attempt(attempt.kind, rest@, attempt.ok, attempt.nok));
            }
            State::Next(next)
        } else {
            attempt.nok
        }
    }
}

/// The code at `index`, or the end of the input behind the last code.
pub open spec fn code_at(codes: Seq<Code>, index: int) -> Code {
    if 0 <= index < codes.len() {
        codes[index]
    } else {
        Code::Eof
    }
}

impl TokenizerView {
    /// One move of the machine: feed the state, or end an attempt.
    pub open spec fn advance(self, state: State, codes: Seq<Code>, eof: bool) -> (
        TokenizerView,
        State,
    ) {
        match state {
            State::Next(name) => {
                if !eof && self.index - self.start_index >= codes.len() {
                    (self, state)
                } else {
                    let fed = if self.consumed {
                        self.expect(code_at(codes, self.index - self.start_index))
                    } else {
                        self
                    };
                    let (after, result) = step(name, fed, fed.current);
                    (after, result.0)
                }
            },
            _ => {
                if self.attempts.len() == 0 {
                    (self, state)
                } else {
                    self.settle(state == State::Success)
                }
            },
        }
    }

    /// Whether the machine stands still: the outermost construct has ended,
    /// or the input has, without being said to be whole.
    pub open spec fn halted(self, state: State, codes: Seq<Code>, eof: bool) -> bool {
        match state {
            State::Next(_) => !eof && self.index - self.start_index >= codes.len(),
            _ => self.attempts.len() == 0,
        }
    }

    /// The machine after `n` moves.
    pub open spec fn run(self, state: State, codes: Seq<Code>, eof: bool, n: nat) -> (
        TokenizerView,
        State,
    )
        decreases n,
    {
        if n == 0 {
            (self, state)
        } else {
            let (t, s) = self.run(state, codes, eof, (n - 1) as nat);
            t.advance(s, codes, eof)
        }
    }

    /// Whether the machine, begun with `self` in the state `state`, comes
    /// to `t` in the state `to` over `codes`, which are the whole input.
    #[verifier::opaque]
    pub open spec fn reaches(
        self,
        state: State,
        codes: Seq<Code>,
        t: TokenizerView,
        to: State,
    ) -> bool {
        exists|n: nat| #[trigger] self.run(state, codes, true, n) == (t, to)
    }

    /// The machine is where it begins.
    pub proof fn lemma_reaches_first(self, state: State, codes: Seq<Code>)
        ensures
            self.reaches(state, codes, self, state),
    {
        reveal(TokenizerView::reaches);
        assert(self.run(state, codes, true, 0) == (self, state));
    }

    /// Where the machine comes to, it goes on from by one move.
    pub proof fn lemma_reaches_next(
        self,
        state: State,
        codes: Seq<Code>,
        t: TokenizerView,
        to: State,
    )
        requires
            self.reaches(state, codes, t, to),
        ensures
            self.reaches(
                state,
                codes,
                t.advance(to, codes, true).0,
                t.advance(to, codes, true).1,
            ),
    {
        reveal(TokenizerView::reaches);
        let n = choose|n: nat| #[trigger] self.run(state, codes, true, n) == (t, to);
        assert(self.run(state, codes, true, n + 1) == t.advance(to, codes, true));
    }

    /// Two machines that make the same first move make the same moves.
    proof fn lemma_runs_joined(
        self,
        state: State,
        other: TokenizerView,
        from: State,
        codes: Seq<Code>,
        k: nat,
    )
        requires
            k >= 1,
            self.advance(state, codes, true) == other.advance(from, codes, true),
        ensures
            self.run(state, codes, true, k) == other.run(from, codes, true, k),
        decreases k,
    {
        if k == 1 {
            assert(self.run(state, codes, true, 0) == (self, state));
            assert(other.run(from, codes, true, 0) == (other, from));
        } else {
            self.lemma_runs_joined(state, other, from, codes, (k - 1) as nat);
        }
    }

    /// The moves of a machine, one run behind the other, are one run.
    proof fn lemma_runs_added(self, state: State, codes: Seq<Code>, m: nat, k: nat)
        ensures
            self.run(state, codes, true, m + k) == self.run(state, codes, true, m).0.run(
                self.run(state, codes, true, m).1,
                codes,
                true,
                k,
            ),
        decreases k,
    {
        let (t, to) = self.run(state, codes, true, m);
        if k == 0 {
            assert(t.run(to, codes, true, 0) == (t, to));
        } else {
            self.lemma_runs_added(state, codes, m, (k - 1) as nat);
            assert(self.run(state, codes, true, m + k) == self.run(
                state,
                codes,
                true,
                (m + k - 1) as nat,
            ).0.advance(self.run(state, codes, true, (m + k - 1) as nat).1, codes, true));
        }
    }

    /// A machine that comes to where the next move is the first move of
    /// another machine goes where the other goes from there.
    pub proof fn lemma_reaches_joined(
        self,
        state: State,
        codes: Seq<Code>,
        t: TokenizerView,
        to: State,
        other: TokenizerView,
        from: State,
        x: TokenizerView,
        s: State,
    )
        requires
            self.reaches(state, codes, t, to),
            t.advance(to, codes, true) == other.advance(from, codes, true),
            other.reaches(from, codes, x, s),
            (x, s) != (other, from),
        ensures
            self.reaches(state, codes, x, s),
    {
        reveal(TokenizerView::reaches);
        let m = choose|m: nat| #[trigger] self.run(state, codes, true, m) == (t, to);
        let k = choose|k: nat| #[trigger] other.run(from, codes, true, k) == (x, s);
        assert(other.run(from, codes, true, 0) == (other, from));
        t.lemma_runs_joined(to, other, from, codes, k);
        self.lemma_runs_added(state, codes, m, k);
        assert(self.run(state, codes, true, m + k) == (x, s));
    }

    /// What tells how far the machine is from standing still, for the
    /// attempt at `p`, or for the state if `p` is the number of attempts:
    /// the codes that are left, the rank of what follows, and the constructs
    /// that an attempt holds in reserve.
    pub open spec fn measure(self, state: State, p: int) -> (int, int, int) {
        if 0 <= p < self.attempts.len() {
            (
                self.limit - self.attempts[p].snapshot.index,
                (2 * self.attempts[p].rank() + 1) as int,
                self.attempts[p].rest.len() as int,
            )
        } else if p == self.attempts.len() {
            (self.limit - self.index, (2 * state.rank()) as int, 0)
        } else {
            (0, 0, 0)
        }
    }

    /// The codes that the attempts were fed are those of the input.
    pub open spec fn follows(self, codes: Seq<Code>) -> bool {
        forall|k: int|
            0 <= k < self.attempts.len() ==> (#[trigger] self.attempts[k]).code == code_at(
                codes,
                self.attempts[k].snapshot.index - self.start_index,
            )
    }

    /// Whether `self` with `state` is nearer to standing still than `other`
    /// with `next`, going by the place `p`.
    pub open spec fn nearer(self, state: State, other: TokenizerView, next: State, p: int) -> bool {
        let from = self.measure(state, p);
        let to = other.measure(next, p);
        &&& 0 <= p <= MAX_DEPTH
        &&& forall|q: int| 0 <= q < p ==> self.measure(state, q) == other.measure(next, q)
        &&& 0 <= to.0 <= from.0
        &&& 0 <= to.1
        &&& 0 <= to.2
        &&& to.0 == from.0 ==> to.1 <= from.1
        &&& to.0 == from.0 && to.1 == from.1 ==> to.2 < from.2
    }

    pub proof fn lemma_nearer(self, state: State, other: TokenizerView, next: State, p: int)
        requires
            self.nearer(state, other, next, p),
        ensures
            decreases_to!(
                self.measure(state, 0).0, self.measure(state, 0).1, self.measure(state, 0).2,
                self.measure(state, 1).0, self.measure(state, 1).1, self.measure(state, 1).2,
                self.measure(state, 2).0, self.measure(state, 2).1, self.measure(state, 2).2,
                self.measure(state, 3).0, self.measure(state, 3).1, self.measure(state, 3).2,
                self.measure(state, 4).0, self.measure(state, 4).1, self.measure(state, 4).2,
                self.measure(state, 5).0, self.measure(state, 5).1, self.measure(state, 5).2
                =>
                other.measure(next, 0).0, other.measure(next, 0).1, other.measure(next, 0).2,
                other.measure(next, 1).0, other.measure(next, 1).1, other.measure(next, 1).2,
                other.measure(next, 2).0, other.measure(next, 2).1, other.measure(next, 2).2,
                other.measure(next, 3).0, other.measure(next, 3).1, other.measure(next, 3).2,
                other.measure(next, 4).0, other.measure(next, 4).1, other.measure(next, 4).2,
                other.measure(next, 5).0, other.measure(next, 5).1, other.measure(next, 5).2
            ),
    {
        assert(self.measure(state, 0) == other.measure(next, 0) || p == 0);
        assert(self.measure(state, 1) == other.measure(next, 1) || p <= 1);
        assert(self.measure(state, 2) == other.measure(next, 2) || p <= 2);
        assert(self.measure(state, 3) == other.measure(next, 3) || p <= 3);
        assert(self.measure(state, 4) == other.measure(next, 4) || p <= 4);
    }
}

impl TokenizerView {
    /// A state function brings the machine nearer to standing still.
    pub proof fn lemma_step_nearer(
        self,
        name: StateName,
        code: Code,
        after: TokenizerView,
        result: StateFnResult,
    )
        requires
            self.wf(),
            self.attempts.len() <= MAX_DEPTH,
            self.stepped(name, code, after, result),
        ensures
            self.nearer(State::Next(name), after, result.0, self.attempts.len() as int),
    {
        let depth = self.attempts.len() as int;
        self.lemma_wf_lengths();
        after.lemma_wf_lengths();
        assert forall|q: int| 0 <= q < depth implies self.measure(State::Next(name), q)
            == after.measure(result.0, q) by {
            assert(after.attempts.take(depth)[q] == after.attempts[q]);
        }
        if depth < after.attempts.len() {
            assert(after.attempts[depth].snapshot.index == self.index);
        }
    }

    /// Ending an attempt brings the machine nearer to standing still.
    pub proof fn lemma_settle_nearer(self, state: State)
        requires
            self.wf(),
            0 < self.attempts.len() <= MAX_DEPTH,
            state != State::Success || self.done(),
            !(state is Next),
        ensures
            self.nearer(
                state,
                self.settle(state == State::Success).0,
                self.settle(state == State::Success).1,
                self.attempts.len() - 1,
            ),
    {
        let matched = state == State::Success;
        let last = self.attempts.len() - 1;
        let (after, next) = self.settle(matched);
        let attempt = self.top();
        self.lemma_settle(matched);
        self.lemma_wf_lengths();
        after.lemma_wf_lengths();
        self.lemma_restore();
        if matched && attempt.kind == AttemptKind::Attempt {
            self.lemma_keep();
        }
        assert forall|q: int| 0 <= q < last implies self.measure(state, q) == after.measure(
            next,
            q,
        ) by {
            assert(self.attempts.drop_last()[q] == self.attempts[q]);
        }
    }
}

impl TokenizerView {
    /// What holds of the machine between two moves over `codes`.
    pub open spec fn working(self, state: State, codes: Seq<Code>) -> bool {
        &&& self.holds(state)
        &&& self.attempts.len() <= MAX_DEPTH
        &&& self.limit == self.start_index + codes.len()
        &&& !self.consumed ==> self.current == code_at(codes, self.index - self.start_index)
        &&& self.fed == codes.take(self.index - self.start_index)
        &&& self.follows(codes)
        &&& proper(codes)
    }

    /// Whether the machine, which began in a state that never fails to
    /// match, is still in one, or goes back to one when the attempts end.
    pub open spec fn firm(self, state: State) -> bool {
        if self.attempts.len() == 0 {
            state.steady() || (state == State::Success && self.current == Code::Eof
                && !self.consumed)
        } else {
            self.attempts[0].ok.steady() && self.attempts[0].nok.steady()
        }
    }

    /// What a move of the machine keeps as it is.
    pub open spec fn same_input(self, other: TokenizerView) -> bool {
        &&& self.limit == other.limit
        &&& self.start_index == other.start_index
        &&& self.start_point == other.start_point
    }
}

impl Tokenizer {
    /// Feed the code at the cursor, if the code that was fed was consumed.
    fn refill(&mut self, codes: &[Code])
        requires
            old(self)@.wf(),
            old(self)@.limit == old(self)@.start_index + codes@.len(),
        ensures
            final(self)@ == if old(self)@.consumed {
                old(self)@.expect(code_at(codes@, old(self)@.index - old(self)@.start_index))
            } else {
                old(self)@
            },
            final(self)@.wf(),
            !final(self)@.consumed,
    {
        if self.consumed {
            proof {
                self@.lemma_wf_lengths();
                self@.lemma_expect(code_at(codes@, self@.index - self@.start_index));
            }
            self.current = if self.index - self.start_index < codes.len() {
                codes[self.index - self.start_index]
            } else {
                Code::Eof
            };
            self.consumed = false;
            proof {
                assert(self@.attempts =~= old(self)@.attempts);
            }
        }
    }

    /// One move of the machine from a state that waits for a code: feed it
    /// the code at the cursor.
    #[verifier::rlimit(40)]
    fn turn(&mut self, codes: &[Code], name: StateName, eof: bool) -> (state: State)
        requires
            old(self)@.working(State::Next(name), codes@),
            eof || old(self)@.index - old(self)@.start_index < codes@.len(),
        ensures
            final(self)@.working(state, codes@),
            final(self)@.same_input(old(self)@),
            (final(self)@, state) == old(self)@.advance(State::Next(name), codes@, eof),
            old(self)@.nearer(
                State::Next(name),
                final(self)@,
                state,
                old(self)@.attempts.len() as int,
            ),
            old(self)@.firm(State::Next(name)) ==> final(self)@.firm(state),
    {
        let ghost before = self@;
        self.refill(codes);
        let ghost fed = self@;
        let code = self.current;
        let result = call(self, name, code);
        proof {
            fed.lemma_wf_lengths();
            self@.lemma_wf_lengths();
            if self@.consumed {
                let k = fed.index - fed.start_index;
                assert(codes@.take(k + 1) =~= codes@.take(k).push(codes@[k]));
            }
            assert(self@.fed == codes@.take(self@.index - self@.start_index));
            fed.lemma_step_nearer(name, code, self@, result);
            assert forall|k: int| 0 <= k < self@.attempts.len() implies (
            #[trigger] self@.attempts[k]).code == code_at(
                codes@,
                self@.attempts[k].snapshot.index - self@.start_index,
            ) by {
                if k < fed.attempts.len() {
                    assert(self@.attempts.take(fed.attempts.len() as int)[k] == self@.attempts[k]);
                    assert(fed.attempts[k] == before.attempts[k]);
                }
            }
            assert forall|q: int| 0 <= q < before.attempts.len() implies before.measure(
                State::Next(name),
                q,
            ) == self@.measure(result.0, q) by {
                assert(before.measure(State::Next(name), q) == fed.measure(State::Next(name), q));
            }
            if before.attempts.len() > 0 {
                assert(self@.attempts.take(fed.attempts.len() as int)[0] == self@.attempts[0]);
            }
        }
        result.0
    }

    /// One move of the machine when a construct has ended and an attempt is
    /// under way: end the attempt.
    fn close(&mut self, Ghost(codes): Ghost<Seq<Code>>, state: State, eof: bool) -> (next: State)
        requires
            old(self)@.working(state, codes),
            !(state is Next),
            old(self)@.attempts.len() > 0,
        ensures
            final(self)@.working(next, codes),
            final(self)@.same_input(old(self)@),
            (final(self)@, next) == old(self)@.advance(state, codes, eof),
            old(self)@.nearer(state, final(self)@, next, old(self)@.attempts.len() - 1),
            old(self)@.firm(state) ==> final(self)@.firm(next),
    {
        let ghost before = self@;
        proof {
            before.lemma_settle_nearer(state);
            before.lemma_restore();
        }
        let matched = match state {
            State::Success => true,
            _ => false,
        };
        let next = self.settle(matched);
        proof {
            before.lemma_wf_lengths();
            before.lemma_below();
            before.lemma_top_from();
            assert(self@.fed =~= codes.take(self@.index - self@.start_index));
            assert forall|k: int| 0 <= k < self@.attempts.len() implies (
            #[trigger] self@.attempts[k]).code == code_at(
                codes,
                self@.attempts[k].snapshot.index - self@.start_index,
            ) by {
                if k < before.attempts.len() - 1 {
                    assert(before.attempts.drop_last()[k] == before.attempts[k]);
                }
                assert(before.top().code == code_at(
                    codes,
                    before.top().snapshot.index - before.start_index,
                ));
            }
            if before.attempts.len() > 1 {
                assert(before.attempts.drop_last()[0] == before.attempts[0]);
            }
        }
        next
    }

    /// Drive the machine from the state `start` over `codes`, from the
    /// cursor on. The first of `codes` has the index that the tokenizer
    /// began with. With `eof` the codes are the whole input, and the machine
    /// is fed the end of the input behind them; without it the machine stops
    /// where the codes end.
    pub fn feed(&mut self, codes: &[Code], start: StateName, eof: bool) -> (state: State)
        requires
            old(self)@.wf(),
            old(self)@.attempts.len() == 0,
            old(self)@.ready(start),
            start.accepts() == crate::state::CodeClass::Any,
            old(self)@.index - old(self)@.start_index <= codes@.len(),
            old(self)@.start_index + codes@.len() <= usize::MAX,
            old(self)@.bounded((old(self)@.start_index + codes@.len()) as usize).limit_ok(),
            old(self)@.fed == codes@.take(old(self)@.index - old(self)@.start_index),
            proper(codes@),
        ensures
            final(self)@.holds(state),
            final(self)@.fed == codes@.take(final(self)@.index - final(self)@.start_index),
            final(self)@.halted(state, codes@, eof),
            final(self)@.limit == final(self)@.start_index + codes@.len(),
            final(self)@.start_index == old(self)@.start_index,
            final(self)@.start_point == old(self)@.start_point,
            start.steady() && eof ==> state == State::Success && final(self)@.index
                == final(self)@.start_index + codes@.len(),
            exists|n: nat|
                (final(self)@, state) == #[trigger] old(self)@.bounded(
                    (old(self)@.start_index + codes@.len()) as usize,
                ).expect(code_at(codes@, old(self)@.index - old(self)@.start_index)).run(
                    State::Next(start),
                    codes@,
                    eof,
                    n,
                ),
    {
        proof {
            old(self)@.lemma_wf_lengths();
        }
        self.limit = self.start_index + codes.len();
        self.current = if self.index - self.start_index < codes.len() {
            codes[self.index - self.start_index]
        } else {
            Code::Eof
        };
        self.consumed = false;
        let mut state = State::Next(start);
        let ghost first = self@;
        let ghost mut n: nat = 0;
        proof {
            let raised = old(self)@.bounded((old(self)@.start_index + codes@.len()) as usize);
            assert(self@.attempts =~= old(self)@.attempts);
            old(self)@.lemma_bounded(
                (old(self)@.start_index + codes@.len()) as usize,
                self@.current,
                start,
            );
            assert(self@ == raised.expect(
                code_at(codes@, old(self)@.index - old(self)@.start_index),
            ));
        }
        loop
            invariant
                self@.working(state, codes@),
                self@.same_input(first),
                start.steady() ==> self@.firm(state),
                first.run(State::Next(start), codes@, eof, n) == (self@, state),
            ensures
                self@.halted(state, codes@, eof),
                start.steady() && eof ==> state == State::Success && self@.index
                    == self@.start_index + codes@.len(),
            decreases
                self@.measure(state, 0).0, self@.measure(state, 0).1, self@.measure(state, 0).2,
                self@.measure(state, 1).0, self@.measure(state, 1).1, self@.measure(state, 1).2,
                self@.measure(state, 2).0, self@.measure(state, 2).1, self@.measure(state, 2).2,
                self@.measure(state, 3).0, self@.measure(state, 3).1, self@.measure(state, 3).2,
                self@.measure(state, 4).0, self@.measure(state, 4).1, self@.measure(state, 4).2,
                self@.measure(state, 5).0, self@.measure(state, 5).1, self@.measure(state, 5).2,
        {
            let ghost before = self@;
            let ghost was = state;
            proof {
                self@.lemma_wf_lengths();
            }
            match state {
                State::Next(name) => {
                    if !eof && self.index - self.start_index >= codes.len() {
                        break ;
                    }
                    state = self.turn(codes, name, eof);
                    proof {
                        before.lemma_nearer(was, self@, state, before.attempts.len() as int);
                    }
                },
                _ => {
                    if self.attempts.len() == 0 {
                        proof {
                            assert(self@.attempts.len() == 0);
                            self@.lemma_wf_lengths();
                        }
                        break ;
                    }
                    proof {
                        assert(self@.attempts.len() > 0);
                    }
                    state = self.close(Ghost(codes@), state, eof);
                    proof {
                        before.lemma_nearer(was, self@, state, before.attempts.len() - 1);
                    }
                },
            }
            proof {
                n = n + 1;
            }
        }
        state
    }
}

impl TokenizerView {
    /// A machine that stands still does not move.
    pub proof fn lemma_halted_fixed(self, state: State, codes: Seq<Code>, eof: bool)
        requires
            self.halted(state, codes, eof),
        ensures
            self.advance(state, codes, eof) == (self, state),
    {
    }

    /// A machine that stands still stays as it is.
    pub proof fn lemma_halted_stays(self, state: State, codes: Seq<Code>, eof: bool, n: nat, k: nat)
        requires
            self.run(state, codes, eof, n).0.halted(self.run(state, codes, eof, n).1, codes, eof),
        ensures
            self.run(state, codes, eof, n + k) == self.run(state, codes, eof, n),
        decreases k,
    {
        if k > 0 {
            self.lemma_halted_stays(state, codes, eof, n, (k - 1) as nat);
            let (t, s) = self.run(state, codes, eof, n);
            t.lemma_halted_fixed(s, codes, eof);
            assert(self.run(state, codes, eof, n + k) == self.run(
                state,
                codes,
                eof,
                (n + k - 1) as nat,
            ).0.advance(self.run(state, codes, eof, (n + k - 1) as nat).1, codes, eof));
        }
    }

    /// Where the machine comes to stand does not depend on how long it is
    /// watched: any two numbers of moves after which it stands still leave
    /// it the same.
    pub proof fn lemma_halted_unique(
        self,
        state: State,
        codes: Seq<Code>,
        eof: bool,
        n: nat,
        m: nat,
    )
        requires
            self.run(state, codes, eof, n).0.halted(self.run(state, codes, eof, n).1, codes, eof),
            self.run(state, codes, eof, m).0.halted(self.run(state, codes, eof, m).1, codes, eof),
        ensures
            self.run(state, codes, eof, n) == self.run(state, codes, eof, m),
    {
        if n <= m {
            self.lemma_halted_stays(state, codes, eof, n, (m - n) as nat);
            assert(n + (m - n) as nat == m);
        } else {
            self.lemma_halted_stays(state, codes, eof, m, (n - m) as nat);
            assert(m + (n - m) as nat == n);
        }
    }
}

} // verus!
