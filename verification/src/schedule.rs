//! The running order of systems: each system is added to a schedule with an order, and the
//! systems of a schedule run from small order to large, those with the same order in the
//! order in which they were added.

use vstd::prelude::*;

verus! {

/// The order of the time maintain system, which runs early in [Schedule::PreUpdate].
pub const TIME_MAINTAIN_SYSTEM_ORDER: i32 = -6000i32;

/// System running schedule.
#[derive(Clone, Copy, PartialEq, Eq, Structural, Debug, Hash)]
pub enum Schedule {
    /// Runs once when the application starts, before [Schedule::Init].
    PreInit,
    /// Runs once when the application starts.
    Init,
    /// Runs once when the application starts, after [Schedule::Init].
    PostInit,
    /// Runs every frame, before [Schedule::Update].
    PreUpdate,
    /// Runs every frame; skipped in the editor when the game is not running.
    Update,
    /// Runs every frame, after [Schedule::Update].
    PostUpdate,
    /// Runs before the editor's scene window is drawn.
    DrawEditor,
}

/// A system added to a schedule: its order, the number of systems added before it, and the
/// system itself (by the index its owner gave it).
#[derive(Clone, Copy, PartialEq, Eq, Structural, Debug)]
pub struct SystemEntry {
    pub schedule: Schedule,
    pub order: i32,
    pub added: u64,
    pub system: u64,
}

/// `a` runs before `b`: a smaller order, or the same order and added earlier.
pub open spec fn runs_before(a: SystemEntry, b: SystemEntry) -> bool {
    a.order < b.order || (a.order == b.order && a.added < b.added)
}

/// The systems of the application, in running order.
#[derive(Clone, Debug)]
pub struct Systems {
    pub entries: Vec<SystemEntry>,
    pub added: u64,
}

impl Systems {
    /// The entries are in running order, and each was added before the count now reached.
    pub open spec fn wf(&self) -> bool {
        &&& forall|i: int, j: int|
            0 <= i < j < self.entries.len() ==> runs_before(#[trigger] self.entries@[i], #[trigger] self.entries@[j])
        &&& forall|i: int| 0 <= i < self.entries.len() ==> #[trigger] self.entries@[i].added < self.added
    }
}

/// The position of a newly added system of order `o`: after every system whose order is
/// not larger.
pub open spec fn insert_position(s: Seq<SystemEntry>, o: i32) -> int
    decreases s.len(),
{
    if s.len() == 0 {
        0
    } else if s.last().order <= o {
        s.len() as int
    } else {
        insert_position(s.drop_last(), o)
    }
}

/// The systems of a schedule, in running order.
pub open spec fn systems_in(s: Seq<SystemEntry>, schedule: Schedule) -> Seq<u64>
    decreases s.len(),
{
    if s.len() == 0 {
        Seq::empty()
    } else if s.last().schedule == schedule {
        systems_in(s.drop_last(), schedule).push(s.last().system)
    } else {
        systems_in(s.drop_last(), schedule)
    }
}

/// In running order, the entries before the insert position have an order not larger than
/// `o`, and those from it have a larger order.
proof fn lemma_insert_position(s: Seq<SystemEntry>, o: i32)
    requires
        forall|i: int, j: int| 0 <= i < j < s.len() ==> runs_before(#[trigger] s[i], #[trigger] s[j]),
    ensures
        0 <= insert_position(s, o) <= s.len(),
        forall|i: int| 0 <= i < insert_position(s, o) ==> #[trigger] s[i].order <= o,
        forall|i: int| insert_position(s, o) <= i < s.len() ==> #[trigger] s[i].order > o,
    decreases s.len(),
{
    if s.len() > 0 {
        let d = s.drop_last();
        assert forall|i: int, j: int| 0 <= i < j < d.len() implies runs_before(#[trigger] d[i], #[trigger] d[j]) by {
            assert(d[i] == s[i] && d[j] == s[j]);
        }
        lemma_insert_position(d, o);
        if s.last().order <= o {
            assert forall|i: int| 0 <= i < s.len() implies #[trigger] s[i].order <= o by {
                if i < s.len() - 1 {
                    assert(runs_before(s[i], s[s.len() - 1]));
                }
            }
        } else {
            assert forall|i: int| 0 <= i < insert_position(s, o) implies #[trigger] s[i].order <= o by {
                assert(d[i] == s[i]);
            }
            assert forall|i: int| insert_position(s, o) <= i < s.len() implies #[trigger] s[i].order > o by {
                if i < s.len() - 1 {
                    assert(d[i] == s[i]);
                }
            }
        }
    }
}

impl Systems {
    /// No system.
    pub fn new() -> (r: Systems)
        ensures
            r.wf(),
            r.entries@ == Seq::<SystemEntry>::empty(),
            r.added == 0,
    {
        Systems { entries: Vec::new(), added: 0 }
    }

    /// Adds a system to a schedule with an order: it runs after the systems of smaller or
    /// equal order and before those of larger order.
    pub fn add_system(&mut self, schedule: Schedule, order: i32, system: u64)
        requires
            old(self).wf(),
            old(self).added < u64::MAX,
        ensures
            final(self).wf(),
            final(self).added == old(self).added + 1,
            final(self).entries@ == old(self).entries@.insert(
                insert_position(old(self).entries@, order),
                SystemEntry { schedule, order, added: old(self).added, system },
            ),
    {
        proof {
            lemma_insert_position(self.entries@, order);
        }
        let ghost s = self.entries@;
        let mut pos = self.entries.len();
        while pos > 0 && self.entries[pos - 1].order > order
            invariant
                s == self.entries@,
                0 <= pos <= s.len(),
                0 <= insert_position(s, order) <= s.len(),
                forall|i: int| 0 <= i < insert_position(s, order) ==> #[trigger] s[i].order <= order,
                forall|i: int| insert_position(s, order) <= i < s.len() ==> #[trigger] s[i].order > order,
                forall|i: int| pos <= i < s.len() ==> #[trigger] s[i].order > order,
            decreases pos,
        {
            pos = pos - 1;
        }
        assert(pos == insert_position(s, order)) by {
            if pos < insert_position(s, order) {
                assert(s[pos as int].order > order);
            }
            if pos > insert_position(s, order) {
                assert(s[pos - 1].order > order);
            }
        }
        let entry = SystemEntry { schedule, order, added: self.added, system };
        self.entries.insert(pos, entry);
        self.added = self.added + 1;
        proof {
            let t = self.entries@;
            assert forall|i: int, j: int| 0 <= i < j < t.len() implies runs_before(#[trigger] t[i], #[trigger] t[j]) by {
                if i < pos && j < pos {
                    assert(t[i] == s[i] && t[j] == s[j]);
                } else if i < pos && j == pos {
                    assert(t[i] == s[i]);
                } else if i < pos {
                    assert(t[i] == s[i] && t[j] == s[j - 1]);
                } else if i == pos {
                    assert(t[j] == s[j - 1]);
                } else {
                    assert(t[i] == s[i - 1] && t[j] == s[j - 1]);
                }
            }
            assert forall|i: int| 0 <= i < t.len() implies #[trigger] t[i].added < self.added by {
                if i < pos {
                    assert(t[i] == s[i]);
                } else if i > pos {
                    assert(t[i] == s[i - 1]);
                }
            }
        }
    }

    /// The systems of a schedule, in running order.
    pub fn systems_of(&self, schedule: Schedule) -> (r: Vec<u64>)
        ensures
            r@ == systems_in(self.entries@, schedule),
    {
        let mut r: Vec<u64> = Vec::new();
        let mut i: usize = 0;
        while i < self.entries.len()
            invariant
                i <= self.entries.len(),
                r@ == systems_in(self.entries@.take(i as int), schedule),
            decreases self.entries.len() - i,
        {
            assert(self.entries@.take(i + 1).drop_last() =~= self.entries@.take(i as int));
            if self.entries[i].schedule == schedule {
                r.push(self.entries[i].system);
            }
            i = i + 1;
        }
        assert(self.entries@.take(self.entries.len() as int) =~= self.entries@);
        r
    }
}

/// Law: in a schedule's running order, systems run from small order to large, and systems
/// with the same order run in the order in which they were added.
pub proof fn lemma_running_order(systems: &Systems, i: int, j: int)
    requires
        systems.wf(),
        0 <= i < j < systems.entries.len(),
    ensures
        systems.entries@[i].order <= systems.entries@[j].order,
        systems.entries@[i].order == systems.entries@[j].order ==> systems.entries@[i].added
            < systems.entries@[j].added,
{
    assert(runs_before(systems.entries@[i], systems.entries@[j]));
}

} // verus!
