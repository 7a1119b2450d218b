//! Properties of whole runs of a manager, stated over its abstract state.
//!
//! A run is a sequence of states linked by the moves that the manager's
//! operations perform: `create_task` submits, `next_action` decides, and
//! `task_finished` records a completion.
use vstd::multiset::Multiset;
use vstd::prelude::*;

use crate::scheduler::{
    decide_step, finish_step, model_wf, submit_step, Action, ManagerModel,
};
use crate::task::Task;

verus! {

broadcast use vstd::seq_lib::group_to_multiset_ensures;

/// One operation on a manager, as seen in a run.
pub enum Move<W> {
    /// `create_task` submitted the carried task.
    Submit(Task<W>),
    /// `next_action` answered with this action.
    Decide(Action<W>),
    /// `task_finished` recorded one completion.
    Finish,
}

/// `t` follows from `s` by the move `m`.
pub open spec fn move_step<W>(s: ManagerModel<W>, m: Move<W>, t: ManagerModel<W>) -> bool {
    match m {
        Move::Submit(task) => submit_step(s, task, t),
        Move::Decide(a) => decide_step(s, a, t),
        Move::Finish => finish_step(s, t),
    }
}

/// `states[i + 1]` follows from `states[i]` by `moves[i]`, for every move.
pub open spec fn is_run<W>(states: Seq<ManagerModel<W>>, moves: Seq<Move<W>>) -> bool {
    &&& states.len() == moves.len() + 1
    &&& forall|i: int|
        #![trigger moves[i]]
        0 <= i < moves.len() ==> move_step(states[i], moves[i], states[i + 1])
}

/// The tasks submitted during `moves`, in order.
pub open spec fn submitted<W>(moves: Seq<Move<W>>) -> Seq<Task<W>>
    decreases moves.len(),
{
    if moves.len() == 0 {
        Seq::empty()
    } else {
        let earlier = submitted(moves.drop_last());
        match moves.last() {
            Move::Submit(task) => earlier.push(task),
            _ => earlier,
        }
    }
}

/// The tasks handed out for execution during `moves`, in order.
pub open spec fn dispatched<W>(moves: Seq<Move<W>>) -> Seq<Task<W>>
    decreases moves.len(),
{
    if moves.len() == 0 {
        Seq::empty()
    } else {
        let earlier = dispatched(moves.drop_last());
        match moves.last() {
            Move::Decide(Action::Dispatch(task)) => earlier.push(task),
            _ => earlier,
        }
    }
}

/// The number of completions recorded during `moves`.
pub open spec fn completions<W>(moves: Seq<Move<W>>) -> nat
    decreases moves.len(),
{
    if moves.len() == 0 {
        0
    } else {
        let earlier = completions(moves.drop_last());
        match moves.last() {
            Move::Finish => earlier + 1,
            _ => earlier,
        }
    }
}

proof fn lemma_run_prefix<W>(states: Seq<ManagerModel<W>>, moves: Seq<Move<W>>)
    requires
        is_run(states, moves),
        moves.len() > 0,
    ensures
        is_run(states.drop_last(), moves.drop_last()),
        move_step(states[moves.len() - 1], moves.last(), states.last()),
{
    assert forall|i: int|
        #![trigger moves.drop_last()[i]]
        0 <= i < moves.drop_last().len() implies move_step(
            states.drop_last()[i],
            moves.drop_last()[i],
            states.drop_last()[i + 1],
        ) by {
        assert(moves.drop_last()[i] == moves[i]);
    }
    assert(moves.last() == moves[moves.len() - 1]);
}

proof fn lemma_empty_to_multiset<A>(s: Seq<A>)
    requires
        s.len() == 0,
    ensures
        s.to_multiset() =~= Multiset::<A>::empty(),
{
    assert forall|a: A| s.to_multiset().count(a) == 0 by {
        assert(!s.contains(a));
    }
}

/// Concurrency bound: in every state of a run that starts sound, the number
/// of tasks in flight never exceeds the manager's limit.
pub proof fn lemma_concurrency_bound<W>(states: Seq<ManagerModel<W>>, moves: Seq<Move<W>>)
    requires
        is_run(states, moves),
        model_wf(states[0]),
    ensures
        forall|i: int| 0 <= i < states.len() ==> #[trigger] states[i].in_flight <= states[i].max_concurrency,
        model_wf(states.last()),
    decreases moves.len(),
{
    if moves.len() > 0 {
        lemma_run_prefix(states, moves);
        lemma_concurrency_bound(states.drop_last(), moves.drop_last());
        assert(states.drop_last().last() == states[moves.len() - 1]);
        assert forall|i: int| 0 <= i < states.len() implies #[trigger] states[i].in_flight
            <= states[i].max_concurrency by {
            if i < moves.len() {
                assert(states.drop_last()[i] == states[i]);
            }
        }
    }
}

/// No task is lost or duplicated: over any run, what was pending at the
/// start together with what was submitted is, as a multiset, what is pending
/// at the end together with what was dispatched; and every dispatched task is
/// either still in flight or has been counted as a completion.
pub proof fn lemma_no_loss_or_duplication<W>(states: Seq<ManagerModel<W>>, moves: Seq<Move<W>>)
    requires
        is_run(states, moves),
    ensures
        states[0].pending.to_multiset().add(submitted(moves).to_multiset())
            == states.last().pending.to_multiset().add(dispatched(moves).to_multiset()),
        states[0].in_flight + dispatched(moves).len() == states.last().in_flight + completions(
            moves,
        ),
    decreases moves.len(),
{
    if moves.len() > 0 {
        lemma_run_prefix(states, moves);
        lemma_no_loss_or_duplication(states.drop_last(), moves.drop_last());
        let s = states[moves.len() - 1];
        let t = states.last();
        assert(states.drop_last().last() == s);
        assert(states.drop_last()[0] == states[0]);
        let sub = submitted(moves.drop_last());
        let dis = dispatched(moves.drop_last());
        match moves.last() {
            Move::Submit(task) => {
                assert(submitted(moves) == sub.push(task));
                assert(dispatched(moves) == dis);
                assert(t.pending == s.pending.push(task));
                assert(sub.push(task).to_multiset() =~= sub.to_multiset().insert(task));
                assert(s.pending.push(task).to_multiset() =~= s.pending.to_multiset().insert(task));
                assert forall|a: Task<W>|
                    #[trigger] states[0].pending.to_multiset().add(submitted(moves).to_multiset()).count(a)
                    == t.pending.to_multiset().add(dispatched(moves).to_multiset()).count(a) by {
                    assert(states[0].pending.to_multiset().add(sub.to_multiset()).count(a)
                        == s.pending.to_multiset().add(dis.to_multiset()).count(a));
                }
                assert(states[0].pending.to_multiset().add(submitted(moves).to_multiset())
                    =~= t.pending.to_multiset().add(dispatched(moves).to_multiset()));
            },
            Move::Decide(a) => {
                if s.in_flight < s.max_concurrency && s.pending.len() > 0 {
                    let i = crate::registry::dequeue_position(s.pending.len(), s.order);
                    let x = s.pending[i];
                    assert(a == Action::Dispatch(x));
                    assert(s.pending.to_multiset() =~= s.pending.remove(i).to_multiset().insert(x));
                    assert(dispatched(moves) == dis.push(x));
                    assert(submitted(moves) == sub);
                    assert(dis.push(x).to_multiset() =~= dis.to_multiset().insert(x));
                    assert(t.pending.to_multiset().add(dispatched(moves).to_multiset())
                        =~= s.pending.to_multiset().add(dis.to_multiset()));
                } else {
                    assert(dispatched(moves) == dis);
                    assert(submitted(moves) == sub);
                }
            },
            Move::Finish => {
                assert(dispatched(moves) == dis);
                assert(submitted(moves) == sub);
            },
        }
    }
}

/// Every submitted task runs exactly once: in a run that starts with nothing
/// pending or in flight and ends when the manager answers `Done`, the tasks
/// dispatched are, as a multiset, exactly those submitted, and there are as
/// many completions as submissions.
pub proof fn lemma_every_task_runs_once<W>(states: Seq<ManagerModel<W>>, moves: Seq<Move<W>>)
    requires
        is_run(states, moves),
        states[0].pending.len() == 0,
        states[0].in_flight == 0,
        moves.len() > 0,
        moves.last() == Move::<W>::Decide(Action::Done),
    ensures
        dispatched(moves).to_multiset() == submitted(moves).to_multiset(),
        completions(moves) == submitted(moves).len(),
        states.last().pending.len() == 0,
        states.last().in_flight == 0,
{
    lemma_run_prefix(states, moves);
    lemma_no_loss_or_duplication(states, moves);
    let s = states[moves.len() - 1];
    assert(s.pending.len() == 0 && s.in_flight == 0);
    assert(states[0].pending =~= Seq::<Task<W>>::empty());
    assert(states.last().pending =~= Seq::<Task<W>>::empty());
    lemma_empty_to_multiset(states[0].pending);
    lemma_empty_to_multiset(states.last().pending);
    let init = states[0].pending.to_multiset();
    let last = states.last().pending.to_multiset();
    assert forall|a: Task<W>| #[trigger] dispatched(moves).to_multiset().count(a)
        == submitted(moves).to_multiset().count(a) by {
        assert(init.add(submitted(moves).to_multiset()).count(a)
            == last.add(dispatched(moves).to_multiset()).count(a));
    }
    assert(dispatched(moves).to_multiset() =~= submitted(moves).to_multiset());
    assert(dispatched(moves).len() == dispatched(moves).to_multiset().len());
}

/// Ids increase without repeats: over any run, dequeues included, the tasks
/// submitted are numbered consecutively from one past the last id handed out
/// before the run, so each gets a larger id than every task submitted before
/// it. From a new manager the ids are 1, 2, 3, ...
pub proof fn lemma_ids_strictly_increase<W>(states: Seq<ManagerModel<W>>, moves: Seq<Move<W>>)
    requires
        is_run(states, moves),
    ensures
        forall|i: int|
            0 <= i < submitted(moves).len() ==> #[trigger] submitted(moves)[i].id
                == states[0].last_id + i + 1,
        forall|i: int, j: int|
            0 <= i < j < submitted(moves).len() ==> #[trigger] submitted(moves)[i].id
                < #[trigger] submitted(moves)[j].id,
        states.last().last_id == states[0].last_id + submitted(moves).len(),
    decreases moves.len(),
{
    if moves.len() > 0 {
        lemma_run_prefix(states, moves);
        lemma_ids_strictly_increase(states.drop_last(), moves.drop_last());
        assert(states.drop_last().last() == states[moves.len() - 1]);
        assert(states.drop_last()[0] == states[0]);
        let sub = submitted(moves.drop_last());
        match moves.last() {
            Move::Submit(task) => {
                assert(submitted(moves) == sub.push(task));
            },
            _ => {
                assert(submitted(moves) == sub);
            },
        }
        assert forall|i: int|
            0 <= i < submitted(moves).len() implies #[trigger] submitted(moves)[i].id
                == states[0].last_id + i + 1 by {
            if i < sub.len() {
                assert(submitted(moves)[i] == sub[i]);
            }
        }
    }
}

/// The pending tasks are in increasing order of id, and none has an id above
/// the last one handed out.
pub open spec fn ids_ordered<W>(s: ManagerModel<W>) -> bool {
    &&& forall|i: int, j: int|
        0 <= i < j < s.pending.len() ==> #[trigger] s.pending[i].id < #[trigger] s.pending[j].id
    &&& forall|i: int| 0 <= i < s.pending.len() ==> #[trigger] s.pending[i].id <= s.last_id
}

/// Pending ids stay unique: in a run that starts with the pending tasks in
/// increasing order of id, as a new manager does, every state keeps them so,
/// and no two pending tasks share an id.
pub proof fn lemma_pending_ids_unique<W>(states: Seq<ManagerModel<W>>, moves: Seq<Move<W>>)
    requires
        is_run(states, moves),
        ids_ordered(states[0]),
    ensures
        forall|k: int| 0 <= k < states.len() ==> #[trigger] ids_ordered(states[k]),
        forall|k: int, i: int, j: int|
            0 <= k < states.len() && 0 <= i < states[k].pending.len() && 0 <= j
                < states[k].pending.len() && i != j ==> #[trigger] states[k].pending[i].id
                != #[trigger] states[k].pending[j].id,
    decreases moves.len(),
{
    if moves.len() > 0 {
        lemma_run_prefix(states, moves);
        lemma_pending_ids_unique(states.drop_last(), moves.drop_last());
        let s = states[moves.len() - 1];
        let t = states.last();
        assert(states.drop_last()[moves.len() - 1] == s);
        assert(ids_ordered(s));
        match moves.last() {
            Move::Submit(task) => {
                assert(forall|i: int| 0 <= i < s.pending.len() ==> t.pending[i] == s.pending[i]);
                assert(t.pending[s.pending.len() as int] == task);
            },
            Move::Decide(a) => {
                if s.in_flight < s.max_concurrency && s.pending.len() > 0 {
                    let p = crate::registry::dequeue_position(s.pending.len(), s.order);
                    assert forall|i: int| 0 <= i < t.pending.len() implies #[trigger] t.pending[i]
                        == s.pending[if i < p { i } else { i + 1 }] by {}
                }
            },
            Move::Finish => {},
        }
        assert(ids_ordered(t));
        assert forall|k: int| 0 <= k < states.len() implies #[trigger] ids_ordered(states[k]) by {
            if k < moves.len() {
                assert(states.drop_last()[k] == states[k]);
            }
        }
    }
    assert forall|k: int, i: int, j: int|
        0 <= k < states.len() && 0 <= i < states[k].pending.len() && 0 <= j
            < states[k].pending.len() && i != j implies #[trigger] states[k].pending[i].id
            != #[trigger] states[k].pending[j].id by {
        assert(ids_ordered(states[k]));
        if i < j {
            assert(states[k].pending[i].id < states[k].pending[j].id);
        } else {
            assert(states[k].pending[j].id < states[k].pending[i].id);
        }
    }
}

} // verus!
