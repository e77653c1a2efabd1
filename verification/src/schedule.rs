//! Which task runs when: each once, in the order of the plan, and never too many at a time.

use vstd::prelude::*;

verus! {

/// What happens in a run.
pub enum Move {
    /// A task is to be started, if one can be.
    Start,
    /// A task that is under way ends.
    End,
}

/// The tasks of a run that were started and those that are under way.
#[derive(Clone, Copy, Debug, PartialEq, Eq, Structural)]
pub struct Schedule {
    /// How many tasks there are.
    pub total: usize,
    /// How many may be under way at a time.
    pub limit: usize,
    /// The task to start next.
    pub next: usize,
    /// How many tasks are under way.
    pub under_way: usize,
}

impl Schedule {
    /// A schedule that has started nothing; at least one task may be under way.
    pub open spec fn fresh(total: usize, limit: usize) -> Schedule {
        Schedule {
            total,
            limit: if limit == 0 {
                1
            } else {
                limit
            },
            next: 0,
            under_way: 0,
        }
    }

    /// Whether no more tasks are under way than may be and than were started.
    pub open spec fn well_formed(self) -> bool {
        &&& self.limit >= 1
        &&& self.under_way <= self.limit
        &&& self.under_way <= self.next <= self.total
    }

    /// Whether a task can be started.
    pub open spec fn can_start(self) -> bool {
        self.next < self.total && self.under_way < self.limit
    }

    /// What a move leads to, and the task that it starts.
    pub open spec fn after(self, m: Move) -> (Schedule, Option<usize>) {
        match m {
            Move::Start => if self.can_start() {
                (
                    Schedule {
                        next: (self.next + 1) as usize,
                        under_way: (self.under_way + 1) as usize,
                        ..self
                    },
                    Some(self.next),
                )
            } else {
                (self, None)
            },
            Move::End => (Schedule { under_way: (self.under_way - 1) as usize, ..self }, None),
        }
    }

    /// A schedule that has started nothing.
    pub fn new(total: usize, limit: usize) -> (r: Self)
        ensures
            r == Schedule::fresh(total, limit),
            r.well_formed(),
    {
        let limit: usize = if limit == 0 {
            1
        } else {
            limit
        };
        Schedule { total, limit, next: 0, under_way: 0 }
    }

    /// Starts the next task, if there is one and not too many are under way.
    pub fn start_next(&mut self) -> (r: Option<usize>)
        requires
            old(self).well_formed(),
        ensures
            (*final(self), r) == old(self).after(Move::Start),
            final(self).well_formed(),
    {
        if self.next < self.total && self.under_way < self.limit {
            let index: usize = self.next;
            self.next = index + 1;
            self.under_way = self.under_way + 1;
            Some(index)
        } else {
            None
        }
    }

    /// Takes note that a task has ended.
    pub fn task_ended(&mut self)
        requires
            old(self).well_formed(),
            old(self).under_way > 0,
        ensures
            *final(self) == old(self).after(Move::End).0,
            final(self).well_formed(),
    {
        self.under_way = self.under_way - 1;
    }
}

/// Where a schedule stands after moves.
pub open spec fn played(total: usize, limit: usize, moves: Seq<Move>) -> Schedule
    decreases moves.len(),
{
    if moves.len() == 0 {
        Schedule::fresh(total, limit)
    } else {
        played(total, limit, moves.drop_last()).after(moves.last()).0
    }
}

/// Whether a task ends only while one is under way.
pub open spec fn possible(total: usize, limit: usize, moves: Seq<Move>) -> bool
    decreases moves.len(),
{
    moves.len() > 0 ==> {
        &&& possible(total, limit, moves.drop_last())
        &&& moves.last() is End ==> played(total, limit, moves.drop_last()).under_way > 0
    }
}

/// The tasks that moves have started, in their order.
pub open spec fn started(total: usize, limit: usize, moves: Seq<Move>) -> Seq<usize>
    decreases moves.len(),
{
    if moves.len() == 0 {
        Seq::empty()
    } else {
        let before = started(total, limit, moves.drop_last());
        match played(total, limit, moves.drop_last()).after(moves.last()).1 {
            Some(index) => before.push(index),
            None => before,
        }
    }
}

/// How many moves ended a task.
pub open spec fn ended(moves: Seq<Move>) -> nat
    decreases moves.len(),
{
    if moves.len() == 0 {
        0
    } else {
        ended(moves.drop_last()) + if moves.last() is End {
            1nat
        } else {
            0
        }
    }
}

/// At every moment no more tasks are under way than the plan allows, or one where it allows none;
/// those under way are those started and not ended; and the tasks started are the first ones of the
/// plan, each once and in their order. Where none is under way and none can be started, that is all
/// of them.
pub proof fn every_task_runs_once_within_the_limit(total: usize, limit: usize, moves: Seq<Move>)
    requires
        possible(total, limit, moves),
    ensures
        ({
            let now = played(total, limit, moves);
            let begun = started(total, limit, moves);
            &&& now.well_formed()
            &&& now.under_way <= if limit == 0 {
                1
            } else {
                limit
            }
            &&& begun.len() == now.next
            &&& now.under_way + ended(moves) == begun.len()
            &&& forall|i: int| 0 <= i < begun.len() ==> #[trigger] begun[i] == i
            &&& now.under_way == 0 && !now.can_start() ==> begun.len() == total
        }),
    decreases moves.len(),
{
    if moves.len() > 0 {
        every_task_runs_once_within_the_limit(total, limit, moves.drop_last());
        lemma_settings(total, limit, moves.drop_last());
    }
    lemma_settings(total, limit, moves);
}

/// A task is started whenever there is room for it: there is one that was not started yet, and of those that
/// were fewer have not ended than the plan allows, or none where it allows none. It is the next one.
pub proof fn a_task_starts_where_there_is_room(total: usize, limit: usize, moves: Seq<Move>)
    requires
        possible(total, limit, moves),
    ensures
        ({
            let begun = started(total, limit, moves);
            let after = started(total, limit, moves.push(Move::Start));
            let under_way = begun.len() - ended(moves);
            let room = under_way == 0 || under_way < limit;
            &&& begun.len() < total && room ==> after == begun.push(begun.len() as usize)
            &&& begun.len() == total || !room ==> after == begun
            &&& started(total, limit, moves.push(Move::End)) == begun
        }),
{
    every_task_runs_once_within_the_limit(total, limit, moves);
    lemma_settings(total, limit, moves);
    assert(moves.push(Move::Start).drop_last() =~= moves);
    assert(moves.push(Move::End).drop_last() =~= moves);
    assert(moves.push(Move::Start).last() == Move::Start);
    assert(moves.push(Move::End).last() == Move::End);
}

proof fn lemma_settings(total: usize, limit: usize, moves: Seq<Move>)
    ensures
        played(total, limit, moves).total == total,
        played(total, limit, moves).limit == Schedule::fresh(total, limit).limit,
    decreases moves.len(),
{
    if moves.len() > 0 {
        lemma_settings(total, limit, moves.drop_last());
    }
}

} // verus!
