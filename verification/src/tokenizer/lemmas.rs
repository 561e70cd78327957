//! Why the operations of the tokenizer keep what holds of it.

use vstd::prelude::*;
use crate::code::Code;
use crate::event::{
    EventKind, TokenType, balanced, covers, leafy, lemma_leafy_push, lemma_leafy_same,
    lemma_linked_push, lemma_open_tokens_push, lemma_placed_further, lemma_placed_push,
    lemma_traced_more, lemma_traced_push, traced,
    lemma_same_spans, lemma_tiled_push, linked, placed, same_spans, within,
};
use crate::state::{State, StateName};
use crate::tokenizer::{AttemptKind, AttemptView, TokenizerView, any_check};

verus! {


pub proof fn lemma_any_check_push(attempts: Seq<AttemptView>, attempt: AttemptView)
    ensures
        any_check(attempts.push(attempt)) == (attempt.kind == AttemptKind::Check || any_check(
            attempts,
        )),
{
    assert(attempts.push(attempt).drop_last() =~= attempts);
}

impl TokenizerView {

    /// The snapshots of the attempts do not go down from the outermost
    /// attempt to the innermost.
    pub proof fn lemma_snapshots_ordered(self, k: int, j: int)
        requires
            self.attempts_ok(),
            0 <= k <= j < self.attempts.len(),
        ensures
            self.attempts[k].snapshot.events_len <= self.attempts[j].snapshot.events_len,
            self.attempts[k].snapshot.stack_len <= self.attempts[j].snapshot.stack_len,
            self.attempts[k].snapshot.index <= self.attempts[j].snapshot.index,
            self.attempts[j].snapshot.events_len <= self.events.len(),
            self.attempts[j].snapshot.stack_len <= self.stack.len(),
            self.attempts[j].snapshot.index <= self.index,
        decreases self.attempts.len() - k, self.attempts.len() - j,
    {
        assert(self.attempt_ok(j));
        assert(self.attempt_ok(k));
        if j + 1 < self.attempts.len() {
            self.lemma_snapshots_ordered(j + 1, j + 1);
        }
        if k < j {
            self.lemma_snapshots_ordered(k + 1, j);
        }
    }

    /// No attempt began in front of where tokenizing began.
    pub proof fn lemma_snapshot_from(self, k: int)
        requires
            0 <= k < self.attempts.len(),
            self.attempt_ok(k),
        ensures
            self.start_index <= self.attempts[k].snapshot.index,
            self.at_attempt(k).fed.len() == self.attempts[k].snapshot.index - self.start_index,
    {
        reveal(TokenizerView::admits);
        reveal(TokenizerView::sound);
    }

    /// The innermost attempt began at or behind where tokenizing began.
    pub proof fn lemma_top_from(self)
        requires
            self.wf(),
        ensures
            self.attempts.len() > 0 ==> self.start_index <= self.attempts.last().snapshot.index,
    {
        reveal(TokenizerView::wf);
        if self.attempts.len() > 0 {
            let last = self.attempts.len() - 1;
            assert(self.attempt_ok(last));
            self.lemma_snapshot_from(last);
        }
    }

    /// What the cursor has gone over reaches as far as the innermost
    /// attempt.
    pub proof fn lemma_top_fed(self)
        requires
            self.sound(),
            self.attempts_ok(),
        ensures
            self.fed.len() == self.index - self.start_index,
            self.attempts.len() > 0 ==> {
                let snapshot = self.attempts.last().snapshot;
                &&& self.start_index <= snapshot.index <= self.index
                &&& snapshot.index - self.start_index <= self.fed.len()
            },
    {
        reveal(TokenizerView::sound);
        if self.attempts.len() > 0 {
            let last = self.attempts.len() - 1;
            assert(self.attempt_ok(last));
            self.lemma_snapshot_from(last);
        }
    }

    /// The attempts go on holding when the tokenizer changes only above
    /// the snapshot of the innermost attempt.
    pub proof fn lemma_attempts_kept(self, other: TokenizerView)
        requires
            self.attempts_ok(),
            other.attempts == self.attempts,
            other.limit == self.limit,
            other.start_point == self.start_point,
            other.start_index == self.start_index,
            self.attempts.len() > 0 ==> {
                let snapshot = self.attempts.last().snapshot;
                &&& snapshot.events_len <= other.events.len()
                &&& snapshot.stack_len <= other.stack.len()
                &&& snapshot.index <= other.index
                &&& other.events.take(snapshot.events_len as int) == self.events.take(
                    snapshot.events_len as int,
                )
                &&& other.stack.take(snapshot.stack_len as int) == self.stack.take(
                    snapshot.stack_len as int,
                )
                &&& self.start_index <= snapshot.index
                &&& snapshot.index - self.start_index <= self.fed.len()
                &&& snapshot.index - self.start_index <= other.fed.len()
                &&& other.fed.take(snapshot.index - self.start_index) == self.fed.take(
                    snapshot.index - self.start_index,
                )
            },
        ensures
            other.attempts_ok(),
    {
        assert forall|i: int| 0 <= i < other.attempts.len() implies #[trigger] other.attempt_ok(
            i,
        ) by {
            let last = self.attempts.len() - 1;
            let top = self.attempts.last().snapshot;
            let snapshot = self.attempts[i].snapshot;
            self.lemma_snapshots_ordered(i, last);
            assert(self.attempt_ok(i));
            assert(other.events.take(snapshot.events_len as int) =~= other.events.take(
                top.events_len as int,
            ).take(snapshot.events_len as int));
            assert(self.events.take(snapshot.events_len as int) =~= self.events.take(
                top.events_len as int,
            ).take(snapshot.events_len as int));
            assert(other.stack.take(snapshot.stack_len as int) =~= other.stack.take(
                top.stack_len as int,
            ).take(snapshot.stack_len as int));
            assert(self.stack.take(snapshot.stack_len as int) =~= self.stack.take(
                top.stack_len as int,
            ).take(snapshot.stack_len as int));
            self.lemma_snapshot_from(i);
            let n = snapshot.index - self.start_index;
            let m = top.index - self.start_index;
            assert(other.fed.take(n) =~= other.fed.take(m).take(n));
            assert(self.fed.take(n) =~= self.fed.take(m).take(n));
            assert(other.at_attempt(i) == self.at_attempt(i));
        }
    }
    pub(crate) proof fn lemma_enter_sound(self, token_type: TokenType)
        requires
            self.sound(),
            self.can_enter(),
            self.events.len() < usize::MAX,
        ensures
            self.enter(token_type).sound(),
    {
        let after = self.enter(token_type);
        let event = self.event(EventKind::Enter, token_type);
        reveal(TokenizerView::sound);
        lemma_open_tokens_push(self.events, event);
        lemma_linked_push(self.events, event);
        lemma_placed_push(
            self.events,
            event,
            self.start_point,
            self.start_index as int,
            self.index as int,
        );
        assert(self.fed.take(self.index - self.start_index) =~= self.fed);
        lemma_traced_push(self.events, event, self.start_point, self.start_index as int, self.fed);
        if !self.speculating() {
            lemma_tiled_push(self.events, event);
            lemma_leafy_push(self.events, event);
        }
    }

    pub(crate) proof fn lemma_enter_attempts(self, token_type: TokenType)
        requires
            self.sound(),
            self.attempts_ok(),
        ensures
            self.enter(token_type).attempts_ok(),
    {
        let after = self.enter(token_type);
        self.lemma_top_fed();
        if self.attempts.len() > 0 {
            let snapshot = self.attempts.last().snapshot;
            assert(self.attempt_ok(self.attempts.len() - 1));
            assert(after.events.take(snapshot.events_len as int) =~= self.events.take(
                snapshot.events_len as int,
            ));
            assert(after.stack.take(snapshot.stack_len as int) =~= self.stack.take(
                snapshot.stack_len as int,
            ));
        }
        self.lemma_attempts_kept(after);
    }

    pub proof fn lemma_enter(self, token_type: TokenType)
        requires
            self.wf(),
            self.can_enter(),
            self.events.len() < usize::MAX,
        ensures
            self.enter(token_type).wf(),
    {
        reveal(TokenizerView::wf);
        self.lemma_enter_sound(token_type);
        self.lemma_enter_attempts(token_type);
    }

    pub(crate) proof fn lemma_exit_sound(self, token_type: TokenType)
        requires
            self.sound(),
            self.can_exit(token_type),
            self.events.len() < usize::MAX,
        ensures
            self.exit(token_type).sound(),
    {
        let event = self.event(EventKind::Exit, token_type);
        reveal(TokenizerView::sound);
        assert(self.opened().last() == self.stack.last());
        lemma_open_tokens_push(self.events, event);
        lemma_linked_push(self.events, event);
        lemma_placed_push(
            self.events,
            event,
            self.start_point,
            self.start_index as int,
            self.index as int,
        );
        assert(self.fed.take(self.index - self.start_index) =~= self.fed);
        lemma_traced_push(self.events, event, self.start_point, self.start_index as int, self.fed);
        if !self.speculating() {
            lemma_tiled_push(self.events, event);
            lemma_leafy_push(self.events, event);
        }
    }

    pub(crate) proof fn lemma_exit_attempts(self, token_type: TokenType)
        requires
            self.sound(),
            self.attempts_ok(),
            self.can_exit(token_type),
        ensures
            self.exit(token_type).attempts_ok(),
    {
        let after = self.exit(token_type);
        self.lemma_top_fed();
        if self.attempts.len() > 0 {
            let snapshot = self.attempts.last().snapshot;
            assert(self.attempt_ok(self.attempts.len() - 1));
            assert(after.events.take(snapshot.events_len as int) =~= self.events.take(
                snapshot.events_len as int,
            ));
            assert(after.stack.take(snapshot.stack_len as int) =~= self.stack.take(
                snapshot.stack_len as int,
            ));
        }
        self.lemma_attempts_kept(after);
    }

    pub proof fn lemma_exit(self, token_type: TokenType)
        requires
            self.wf(),
            self.can_exit(token_type),
            self.events.len() < usize::MAX,
        ensures
            self.exit(token_type).wf(),
    {
        reveal(TokenizerView::wf);
        self.lemma_exit_sound(token_type);
        self.lemma_exit_attempts(token_type);
    }

    pub(crate) proof fn lemma_consume_fits(self)
        requires
            self.limit_ok(),
            self.sound(),
            self.index < self.limit,
            self.speculating() || self.in_leaf(),
        ensures
            self.point.fits_after(self.current),
            self.consume().sound(),
    {
        reveal(TokenizerView::sound);
        lemma_placed_further(
            self.events,
            self.start_point,
            self.start_index as int,
            self.index as int,
            self.index + 1,
        );
        let more = self.fed.push(self.current);
        assert(more.drop_last() =~= self.fed);
        assert(more.take(self.fed.len() as int) =~= self.fed);
        lemma_traced_more(self.events, self.start_point, self.start_index as int, self.fed, more);
    }

    pub proof fn lemma_consume(self, code: Code)
        requires
            self.wf(),
            self.can_consume(code),
        ensures
            self.point.fits_after(code),
            self.index < self.limit,
            self.consume().wf(),
    {
        reveal(TokenizerView::wf);
        self.lemma_consume_fits();
        let after = self.consume();
        self.lemma_top_fed();
        if self.attempts.len() > 0 {
            assert(self.attempt_ok(self.attempts.len() - 1));
            let n = self.attempts.last().snapshot.index - self.start_index;
            assert(after.fed.take(n) =~= self.fed.take(n));
        }
        self.lemma_attempts_kept(after);
    }

    pub proof fn lemma_lengths(self)
        requires
            self.sound(),
        ensures
            self.events.len() <= usize::MAX,
            self.stack.len() <= self.events.len(),
    {
        reveal(TokenizerView::sound);
    }

    pub(crate) proof fn lemma_attempt_sound(
        self,
        kind: AttemptKind,
        rest: Seq<StateName>,
        ok: State,
        nok: State,
    )
        requires
            self.sound(),
        ensures
            self.attempt(kind, rest, ok, nok).sound(),
            self.attempt(kind, rest, ok, nok).speculating() == (kind == AttemptKind::Check
                || self.speculating()),
    {
        reveal(TokenizerView::sound);
        lemma_any_check_push(self.attempts, self.begun(kind, rest, ok, nok));
    }

    pub proof fn lemma_attempt(
        self,
        kind: AttemptKind,
        rest: Seq<StateName>,
        ok: State,
        nok: State,
    )
        requires
            self.wf(),
            self.can_attempt(kind, rest, ok, nok),
        ensures
            self.attempt(kind, rest, ok, nok).wf(),
            self.attempt(kind, rest, ok, nok).speculating() == (kind == AttemptKind::Check
                || self.speculating()),
    {
        reveal(TokenizerView::wf);
        let after = self.attempt(kind, rest, ok, nok);
        let attempt = self.begun(kind, rest, ok, nok);
        let top = self.attempts.len() as int;
        self.lemma_attempt_sound(kind, rest, ok, nok);
        self.lemma_lengths();
        assert forall|k: int| 0 <= k < after.attempts.len() implies #[trigger] after.attempt_ok(
            k,
        ) by {
            if k < top {
                assert(self.attempt_ok(k));
                assert(after.attempts.take(k) =~= self.attempts.take(k));
                assert(after.at_attempt(k) == self.at_attempt(k));
            } else {
                assert(after.attempts.take(k) =~= self.attempts);
                assert(after.events.take(attempt.snapshot.events_len as int) =~= self.events);
                assert(after.stack.take(attempt.snapshot.stack_len as int) =~= self.stack);
                self.lemma_top_fed();
                assert(after.fed.take(self.index - self.start_index) =~= self.fed);
                assert(after.at_attempt(k) == self);
                reveal(TokenizerView::admits);
            }
        }
    }
    pub proof fn lemma_wf_lengths(self)
        requires
            self.wf(),
        ensures
            self.fed.len() == self.index - self.start_index,
            self.events.len() <= usize::MAX,
            self.stack.len() <= self.events.len(),
            self.start_index <= self.index <= self.limit,
    {
        reveal(TokenizerView::wf);
        reveal(TokenizerView::sound);
    }

    /// The innermost attempt began at or before the cursor.
    pub proof fn lemma_below(self)
        requires
            self.wf(),
        ensures
            self.attempts.len() > 0 ==> self.attempts.last().snapshot.index <= self.index,
    {
        reveal(TokenizerView::wf);
        if self.attempts.len() > 0 {
            assert(self.attempt_ok(self.attempts.len() - 1));
        }
    }

    /// Undoing the innermost attempt leaves a tokenizer of which everything
    /// holds that held when the attempt began.
    pub proof fn lemma_restore(self)
        requires
            self.wf(),
            self.attempts.len() > 0,
        ensures
            self.restore().wf(),
            self.restore().admits(self.top()),
            self.restore().index <= self.index,
            self.restore().snapshot() == self.top().snapshot,
            self.restore().current == self.top().code,
            self.restore().speculating() ==> self.speculating(),
            self.top().snapshot.events_len <= self.events.len(),
            self.top().snapshot.stack_len <= self.stack.len(),
    {
        reveal(TokenizerView::wf);
        let last = self.attempts.len() - 1;
        let after = self.restore();
        assert(self.attempt_ok(last));
        assert(after.sound() && (after.current != Code::Eof ==> after.index < after.limit)) by {
            reveal(TokenizerView::admits);
        }
        after.lemma_lengths();
        assert(after.attempts =~= self.attempts.drop_last());
        assert forall|k: int| 0 <= k < after.attempts.len() implies #[trigger] after.attempt_ok(
            k,
        ) by {
            self.lemma_snapshots_ordered(k, last);
            assert(self.attempt_ok(k));
            let snapshot = self.attempts[k].snapshot;
            assert(after.events.take(snapshot.events_len as int) =~= self.events.take(
                snapshot.events_len as int,
            ));
            assert(after.stack.take(snapshot.stack_len as int) =~= self.stack.take(
                snapshot.stack_len as int,
            ));
            assert(after.attempts.take(k) =~= self.attempts.take(k));
            self.lemma_snapshot_from(k);
            self.lemma_snapshot_from(last);
            self.lemma_top_fed();
            let n = snapshot.index - self.start_index;
            let m = self.attempts[last].snapshot.index - self.start_index;
            assert(self.fed.take(m).take(n) =~= self.fed.take(n));
            assert(after.at_attempt(k) == self.at_attempt(k));
        }
    }

    /// Ending the innermost attempt, which is no check, leaves a tokenizer
    /// of which everything goes on holding.
    pub proof fn lemma_keep(self)
        requires
            self.wf(),
            self.attempts.len() > 0,
            self.top().kind == AttemptKind::Attempt,
        ensures
            self.keep().wf(),
            self.at_attempt(self.attempts.len() - 1).admits(self.top()),
            self.keep().speculating() == self.speculating(),
            self.top().snapshot.index <= self.index,
            self.top().snapshot.stack_len <= self.stack.len(),
    {
        reveal(TokenizerView::wf);
        let last = self.attempts.len() - 1;
        let after = self.keep();
        assert(self.attempt_ok(last));
        assert(after.sound()) by {
            reveal(TokenizerView::sound);
        }
        assert forall|k: int| 0 <= k < after.attempts.len() implies #[trigger] after.attempt_ok(
            k,
        ) by {
            self.lemma_snapshots_ordered(k, last);
            assert(self.attempt_ok(k));
            assert(after.attempts.take(k) =~= self.attempts.take(k));
            assert(after.at_attempt(k) == self.at_attempt(k));
        }
    }
    /// Feeding a code leaves a tokenizer of which everything goes on
    /// holding.
    pub proof fn lemma_expect(self, code: Code)
        requires
            self.wf(),
            code != Code::Eof ==> self.index < self.limit,
        ensures
            self.expect(code).wf(),
    {
        reveal(TokenizerView::wf);
        let after = self.expect(code);
        assert(after.sound()) by {
            reveal(TokenizerView::sound);
        }
        if self.attempts.len() > 0 {
            assert(self.attempt_ok(self.attempts.len() - 1));
        }
        self.lemma_top_fed();
        self.lemma_attempts_kept(after);
    }

    /// A tokenizer with no attempt under way can be put in front of any
    /// input that it has not gone beyond and whose places fit.
    pub proof fn lemma_bounded(self, limit: usize, code: Code, name: StateName)
        requires
            self.wf(),
            self.attempts.len() == 0,
            self.index <= limit,
            code != Code::Eof ==> self.index < limit,
            self.bounded(limit).limit_ok(),
        ensures
            self.bounded(limit).expect(code).wf(),
            self.bounded(limit).expect(code).ready(name) == self.ready(name),
    {
        reveal(TokenizerView::wf);
        reveal(TokenizerView::sound);
    }

    pub proof fn lemma_link(self, previous: int, next: int)
        requires
            self.wf(),
            self.can_link(previous, next),
        ensures
            self.link(previous, next).wf(),
    {
        reveal(TokenizerView::wf);
        let after = self.link(previous, next);
        self.lemma_lengths();
        assert(same_spans(self.events, after.events));
        assert(after.sound()) by {
            reveal(TokenizerView::sound);
            lemma_same_spans(self.events, after.events);
            if !self.speculating() {
                lemma_leafy_same(self.events, after.events);
            }
            assert forall|i: int| 0 <= i < after.events.len() implies within(
                #[trigger] after.events[i],
                self.start_point,
                self.start_index as int,
                self.index as int,
            ) by {
                assert(within(
                    self.events[i],
                    self.start_point,
                    self.start_index as int,
                    self.index as int,
                ));
            }
            assert forall|i: int| 0 <= i < after.events.len() implies {
                &&& (#[trigger] after.events[i]).next matches Some(j) ==> i < j
                    < after.events.len()
                &&& after.events[i].previous matches Some(j) ==> j < i
            } by {
                assert(self.events[i] == self.events[i]);
            }
        }
        if self.attempts.len() > 0 {
            let snapshot = self.attempts.last().snapshot;
            assert(self.attempt_ok(self.attempts.len() - 1));
            assert(after.events.take(snapshot.events_len as int) =~= self.events.take(
                snapshot.events_len as int,
            ));
        }
        self.lemma_top_fed();
        self.lemma_attempts_kept(after);
    }
    /// When the outermost construct has matched, every span is closed and
    /// the leaves lie side by side from where tokenizing began up to the
    /// cursor.
    pub proof fn lemma_finished(self)
        requires
            self.wf(),
            self.attempts.len() == 0,
            self.done(),
        ensures
            balanced(self.events),
            covers(self.events, self.start_index as int, self.index as int),
            linked(self.events),
            leafy(self.events),
            placed(self.events, self.start_point, self.start_index as int, self.index as int),
            traced(self.events, self.start_point, self.start_index as int, self.fed),
            self.fed.len() == self.index - self.start_index,
    {
        reveal(TokenizerView::wf);
        reveal(TokenizerView::sound);
        assert(self.stack =~= Seq::empty());
    }
}

} // verus!
