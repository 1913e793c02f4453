//! The history of rollbacks taken of a world.

use crate::snapshot::{Rollback, SnapshotView};
use vstd::prelude::*;

verus! {

/// The rollbacks taken of a world, oldest first, and which of them is the
/// active one.
pub struct Rollbacks {
    pub checkpoints: Vec<Rollback>,
    pub active: Option<usize>,
}

/// The mathematical content of [`Rollbacks`].
pub struct RollbacksView {
    pub checkpoints: Seq<SnapshotView>,
    pub active: Option<usize>,
}

impl View for Rollbacks {
    type V = RollbacksView;

    open spec fn view(&self) -> RollbacksView {
        RollbacksView { checkpoints: self.checkpoints.deep_view(), active: self.active }
    }
}

impl RollbacksView {
    /// How many of the checkpoints a new checkpoint leaves in place: those up
    /// to the active one.
    pub open spec fn kept(self) -> int {
        let past = match self.active {
            Some(a) => a + 1,
            None => 1,
        };
        if past <= self.checkpoints.len() {
            past
        } else {
            self.checkpoints.len() as int
        }
    }

    /// The history after `rollback` was taken: the checkpoints after the
    /// active one are gone, and the new one is last and active.
    pub open spec fn checkpoint(self, rollback: SnapshotView) -> RollbacksView {
        RollbacksView {
            checkpoints: self.checkpoints.take(self.kept()).push(rollback),
            active: Some(self.kept() as usize),
        }
    }

    /// The index of the checkpoint that is `checkpoints` before the active
    /// one, or after it where `checkpoints` is negative, kept within the
    /// history. There is none while nothing is active or the history is empty.
    pub open spec fn target(self, checkpoints: int) -> Option<int> {
        match self.active {
            Some(a) => if self.checkpoints.len() == 0 {
                None
            } else if a - checkpoints < 0 {
                Some(0int)
            } else if a - checkpoints >= self.checkpoints.len() {
                Some(self.checkpoints.len() - 1)
            } else {
                Some(a - checkpoints)
            },
            None => None,
        }
    }
}

impl Rollbacks {
    /// The empty history.
    pub fn new() -> (rollbacks: Rollbacks)
        ensures
            rollbacks@.checkpoints.len() == 0,
            rollbacks@.active is None,
    {
        Rollbacks { checkpoints: Vec::new(), active: None }
    }

    /// Takes `rollback` into the history and makes it the active one. The
    /// checkpoints after the one that was active are dropped.
    pub fn checkpoint(&mut self, rollback: Rollback)
        requires
            old(self)@.kept() < usize::MAX,
        ensures
            final(self)@ == old(self)@.checkpoint(rollback@),
    {
        let ghost before = self@;
        let past: usize = match self.active {
            Some(a) => if a < self.checkpoints.len() {
                a + 1
            } else {
                self.checkpoints.len()
            },
            None => if self.checkpoints.len() >= 1 {
                1
            } else {
                0
            },
        };
        assert(past == before.kept());
        self.checkpoints.truncate(past);
        self.checkpoints.push(rollback);
        self.active = Some(past);
        assert(self@.checkpoints =~= before.checkpoints.take(before.kept()).push(rollback@));
    }

    /// Moves the active checkpoint back by `checkpoints`, or forward where
    /// `checkpoints` is negative, without leaving the history, and returns the
    /// rollback that is active then.
    pub fn rollback(&mut self, checkpoints: isize) -> (rollback: Option<&Rollback>)
        ensures
            final(self)@.checkpoints == old(self)@.checkpoints,
            match old(self)@.target(checkpoints as int) {
                Some(t) => final(self)@.active == Some(t as usize) && rollback is Some
                    && rollback->0@ == old(self)@.checkpoints[t],
                None => final(self)@.active == old(self)@.active && rollback is None,
            },
    {
        let len = self.checkpoints.len();
        match self.active {
            Some(active) => {
                if len == 0 {
                    return None;
                }
                let target: usize = if checkpoints >= 0 {
                    let back = checkpoints as usize;
                    if back > active {
                        0
                    } else if active - back >= len {
                        len - 1
                    } else {
                        active - back
                    }
                } else {
                    let forward: usize = (-(checkpoints + 1)) as usize;
                    if active >= len - 1 || forward >= len - 1 - active {
                        len - 1
                    } else {
                        active + forward + 1
                    }
                };
                self.active = Some(target);
                Some(&self.checkpoints[target])
            },
            None => None,
        }
    }

    /// A deep copy that shares nothing with `self`.
    pub fn clone_value(&self) -> (copy: Rollbacks)
        ensures
            copy@ == self@,
    {
        let mut checkpoints: Vec<Rollback> = Vec::new();
        let mut i: usize = 0;
        while i < self.checkpoints.len()
            invariant
                i <= self.checkpoints.len(),
                checkpoints.len() == i,
                forall|j: int| 0 <= j < i ==> (#[trigger] checkpoints[j])@ == self.checkpoints[j]@,
            decreases self.checkpoints.len() - i,
        {
            checkpoints.push(self.checkpoints[i].clone_value());
            i += 1;
        }
        assert(checkpoints.deep_view() =~= self.checkpoints.deep_view());
        Rollbacks { checkpoints, active: self.active }
    }
}

} // verus!
