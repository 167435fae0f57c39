//! The assignee store: a mapping from task identifier to its current
//! assignee row, with read, upsert and delete operations.
//!
//! Contracts are stated against a mathematical model: the store is viewed
//! as a `Map<u128, AssigneeRecord>`, and each operation's effect is a plain
//! map transformation (`get_model`, `upsert_model`, `delete_model`).

use vstd::prelude::*;

use crate::models::{AssigneeRecord, TaskAssignee};

verus! {

/// What a read returns: the record filed under `task_id`, if any.
/// Absence is a valid result, not an error.
pub open spec fn get_model(m: Map<u128, AssigneeRecord>, task_id: u128) -> Option<AssigneeRecord> {
    if m.contains_key(task_id) {
        Some(m[task_id])
    } else {
        None
    }
}

/// What an upsert does to the mapping: the assignee and `updated_at` are
/// replaced; `created_at` is kept from the existing record, or set to `now`
/// on a first assignment.
pub open spec fn upsert_model(
    m: Map<u128, AssigneeRecord>,
    task_id: u128,
    assignee: Seq<char>,
    now: int,
) -> Map<u128, AssigneeRecord> {
    m.insert(
        task_id,
        AssigneeRecord {
            task_id: task_id,
            assignee: assignee,
            created_at: if m.contains_key(task_id) {
                m[task_id].created_at
            } else {
                now
            },
            updated_at: now,
        },
    )
}

/// What a delete does to the mapping: the record filed under `task_id`, if
/// any, is gone; nothing else changes.
pub open spec fn delete_model(m: Map<u128, AssigneeRecord>, task_id: u128) -> Map<
    u128,
    AssigneeRecord,
> {
    m.remove(task_id)
}

/// Invariant of the mapping: every record is filed under its own task
/// identifier, and no record was updated before it was created.
pub open spec fn map_inv(m: Map<u128, AssigneeRecord>) -> bool {
    forall|k: u128| #[trigger]
        m.contains_key(k) ==> m[k].task_id == k && m[k].created_at <= m[k].updated_at
}

/// No two rows share a task identifier.
spec fn distinct_ids(s: Seq<TaskAssignee>) -> bool {
    forall|i: int, j: int|
        0 <= i < j < s.len() ==> #[trigger] s[i].task_id != #[trigger] s[j].task_id
}

/// No row was updated before it was created.
spec fn stamps_ordered(s: Seq<TaskAssignee>) -> bool {
    forall|i: int| 0 <= i < s.len() ==> #[trigger] s[i].created_at <= s[i].updated_at
}

/// The mapping that a sequence of rows stands for, built row by row.
spec fn seq_to_map(s: Seq<TaskAssignee>) -> Map<u128, AssigneeRecord>
    decreases s.len(),
{
    if s.len() == 0 {
        Map::empty()
    } else {
        seq_to_map(s.drop_last()).insert(s.last().task_id, s.last()@)
    }
}

/// Durable mapping from task identifier to its current assignee row.
///
/// At most one row exists per task identifier; rows live in insertion
/// order internally, but the public contracts speak only of the map view.
pub struct AssigneeStore {
    records: Vec<TaskAssignee>,
}

impl View for AssigneeStore {
    type V = Map<u128, AssigneeRecord>;

    closed spec fn view(&self) -> Map<u128, AssigneeRecord> {
        seq_to_map(self.records@)
    }
}

/// A key is in the mapping exactly when some row carries it.
proof fn lemma_map_domain(s: Seq<TaskAssignee>)
    ensures
        forall|k: u128| #[trigger]
            seq_to_map(s).contains_key(k) <==> exists|i: int|
                0 <= i < s.len() && #[trigger] s[i].task_id == k,
    decreases s.len(),
{
    if s.len() > 0 {
        let prefix = s.drop_last();
        lemma_map_domain(prefix);
        assert(seq_to_map(s) == seq_to_map(prefix).insert(s.last().task_id, s.last()@));
        assert forall|k: u128| #[trigger] seq_to_map(s).contains_key(k) implies exists|i: int|
            0 <= i < s.len() && #[trigger] s[i].task_id == k by {
            if k == s.last().task_id {
                assert(s[s.len() - 1].task_id == k);
            } else {
                assert(seq_to_map(prefix).contains_key(k));
                let i = choose|i: int| 0 <= i < prefix.len() && #[trigger] prefix[i].task_id == k;
                assert(s[i] == prefix[i]);
                assert(s[i].task_id == k);
            }
        }
        assert forall|k: u128|
            (exists|i: int| 0 <= i < s.len() && #[trigger] s[i].task_id == k) implies #[trigger]
            seq_to_map(s).contains_key(k) by {
            let i = choose|i: int| 0 <= i < s.len() && #[trigger] s[i].task_id == k;
            if i < s.len() - 1 {
                assert(prefix[i].task_id == k);
                assert(seq_to_map(prefix).contains_key(k));
            }
        }
    }
}

/// With distinct identifiers, the mapping files row `i` under its own key.
proof fn lemma_map_index(s: Seq<TaskAssignee>, i: int)
    requires
        distinct_ids(s),
        0 <= i < s.len(),
    ensures
        seq_to_map(s).contains_key(s[i].task_id),
        seq_to_map(s)[s[i].task_id] == s[i]@,
    decreases s.len(),
{
    if i == s.len() - 1 {
    } else {
        lemma_distinct_prefix(s);
        assert(s.drop_last()[i] == s[i]);
        lemma_map_index(s.drop_last(), i);
        assert(s.last().task_id != s[i].task_id);
    }
}

/// Dropping the last row keeps the identifiers distinct.
proof fn lemma_distinct_prefix(s: Seq<TaskAssignee>)
    requires
        distinct_ids(s),
        s.len() > 0,
    ensures
        distinct_ids(s.drop_last()),
{
    assert forall|i: int, j: int|
        0 <= i < j < s.drop_last().len() implies #[trigger] s.drop_last()[i].task_id
        != #[trigger] s.drop_last()[j].task_id by {
        assert(s.drop_last()[i] == s[i]);
        assert(s.drop_last()[j] == s[j]);
    }
}

/// Removing row `i` takes exactly its key out of the mapping.
proof fn lemma_map_remove(s: Seq<TaskAssignee>, i: int)
    requires
        distinct_ids(s),
        0 <= i < s.len(),
    ensures
        seq_to_map(s.remove(i)) == seq_to_map(s).remove(s[i].task_id),
    decreases s.len(),
{
    let k = s[i].task_id;
    let prefix = s.drop_last();
    s.remove_ensures(i);
    if i == s.len() - 1 {
        assert(s.remove(i) =~= prefix);
        lemma_map_domain(prefix);
        if seq_to_map(prefix).contains_key(k) {
            let j = choose|j: int| 0 <= j < prefix.len() && #[trigger] prefix[j].task_id == k;
            assert(s[j] == prefix[j]);
            assert(false);
        }
        assert(seq_to_map(prefix).insert(k, s.last()@).remove(k) =~= seq_to_map(prefix));
    } else {
        lemma_distinct_prefix(s);
        lemma_map_remove(prefix, i);
        prefix.remove_ensures(i);
        assert(s.remove(i).drop_last() =~= prefix.remove(i));
        assert(s.remove(i).last() == s.last());
        assert(seq_to_map(s.remove(i)) == seq_to_map(prefix.remove(i)).insert(
            s.last().task_id,
            s.last()@,
        ));
        assert(s.last().task_id != k);
        assert(seq_to_map(prefix).remove(k).insert(s.last().task_id, s.last()@)
            =~= seq_to_map(prefix).insert(s.last().task_id, s.last()@).remove(k));
    }
}

/// Removing row `i` keeps the rows well formed, and no remaining row
/// carries the removed key.
proof fn lemma_remove_keeps(s: Seq<TaskAssignee>, i: int)
    requires
        distinct_ids(s),
        stamps_ordered(s),
        0 <= i < s.len(),
    ensures
        distinct_ids(s.remove(i)),
        stamps_ordered(s.remove(i)),
        forall|j: int|
            0 <= j < s.remove(i).len() ==> #[trigger] s.remove(i)[j].task_id != s[i].task_id,
    decreases s.len(),
{
    s.remove_ensures(i);
    let t = s.remove(i);
    assert forall|a: int, b: int|
        0 <= a < b < t.len() implies #[trigger] t[a].task_id != #[trigger] t[b].task_id by {
        let oa: int = if a < i {
            a
        } else {
            a + 1
        };
        let ob: int = if b < i {
            b
        } else {
            b + 1
        };
        assert(t[a] == s[oa]);
        assert(t[b] == s[ob]);
        assert(s[oa].task_id != s[ob].task_id);
    }
    assert forall|j: int| 0 <= j < t.len() implies #[trigger] t[j].created_at <= t[j].updated_at by {
        let oj: int = if j < i {
            j
        } else {
            j + 1
        };
        assert(t[j] == s[oj]);
        assert(s[oj].created_at <= s[oj].updated_at);
    }
    assert forall|j: int| 0 <= j < t.len() implies #[trigger] t[j].task_id != s[i].task_id by {
        let oj: int = if j < i {
            j
        } else {
            j + 1
        };
        assert(t[j] == s[oj]);
        if oj < i {
            assert(s[oj].task_id != s[i].task_id);
        } else {
            assert(s[i].task_id != s[oj].task_id);
        }
    }
}

/// Appending a row files it under its own key and changes nothing else.
proof fn lemma_map_push(s: Seq<TaskAssignee>, row: TaskAssignee)
    ensures
        seq_to_map(s.push(row)) == seq_to_map(s).insert(row.task_id, row@),
{
    assert(s.push(row).drop_last() =~= s);
    assert(s.push(row).last() == row);
    assert(seq_to_map(s.push(row)) == seq_to_map(s.push(row).drop_last()).insert(
        s.push(row).last().task_id,
        s.push(row).last()@,
    ));
}

/// Appending a row with a fresh key keeps the rows well formed.
proof fn lemma_push_keeps(s: Seq<TaskAssignee>, row: TaskAssignee)
    requires
        distinct_ids(s),
        stamps_ordered(s),
        forall|j: int| 0 <= j < s.len() ==> #[trigger] s[j].task_id != row.task_id,
        row.created_at <= row.updated_at,
    ensures
        distinct_ids(s.push(row)),
        stamps_ordered(s.push(row)),
{
    let t = s.push(row);
    assert forall|a: int, b: int|
        0 <= a < b < t.len() implies #[trigger] t[a].task_id != #[trigger] t[b].task_id by {
        if b == s.len() {
            assert(t[a] == s[a]);
            assert(t[b] == row);
        } else {
            assert(t[a] == s[a]);
            assert(t[b] == s[b]);
        }
    }
    assert forall|j: int| 0 <= j < t.len() implies #[trigger] t[j].created_at <= t[j].updated_at by {
        if j == s.len() {
            assert(t[j] == row);
        } else {
            assert(t[j] == s[j]);
        }
    }
}

impl AssigneeStore {
    /// The store's internal rows are well formed: one row per task
    /// identifier, each created no later than it was updated.
    pub closed spec fn wf(&self) -> bool {
        distinct_ids(self.records@) && stamps_ordered(self.records@)
    }

    /// A well-formed store satisfies the public map invariant.
    proof fn lemma_wf_map_inv(&self)
        requires
            self.wf(),
        ensures
            map_inv(self@),
    {
        let s = self.records@;
        lemma_map_domain(s);
        assert forall|k: u128| #[trigger] self@.contains_key(k) implies self@[k].task_id == k
            && self@[k].created_at <= self@[k].updated_at by {
            let i = choose|i: int| 0 <= i < s.len() && #[trigger] s[i].task_id == k;
            lemma_map_index(s, i);
        }
    }

    /// Creates an empty store: no task has an assignee.
    pub fn new() -> (s: AssigneeStore)
        ensures
            s.wf(),
            s@ == Map::<u128, AssigneeRecord>::empty(),
    {
        AssigneeStore { records: Vec::new() }
    }

    /// Index of the row filed under `task_id`, if one exists.
    fn find_index(&self, task_id: u128) -> (r: Option<usize>)
        ensures
            match r {
                Some(i) => i < self.records@.len() && self.records@[i as int].task_id == task_id,
                None => forall|j: int|
                    0 <= j < self.records@.len() ==> #[trigger] self.records@[j].task_id != task_id,
            },
    {
        let n = self.records.len();
        let mut i: usize = 0;
        while i < n
            invariant
                i <= n,
                n == self.records@.len(),
                forall|j: int| 0 <= j < i ==> #[trigger] self.records@[j].task_id != task_id,
            decreases n - i,
        {
            if self.records[i].task_id == task_id {
                return Some(i);
            }
            i = i + 1;
        }
        None
    }

    /// Reads the current record for `task_id`: the record if one exists,
    /// an explicit none otherwise.
    pub fn get(&self, task_id: u128) -> (r: Option<TaskAssignee>)
        requires
            self.wf(),
        ensures
            match r {
                Some(rec) => get_model(self@, task_id) == Some(rec@) && rec.task_id == task_id,
                None => get_model(self@, task_id) is None,
            },
    {
        proof {
            lemma_map_domain(self.records@);
        }
        match self.find_index(task_id) {
            Some(i) => {
                proof {
                    lemma_map_index(self.records@, i as int);
                }
                let row = &self.records[i];
                Some(
                    TaskAssignee {
                        task_id: row.task_id,
                        assignee: row.assignee.clone(),
                        created_at: row.created_at,
                        updated_at: row.updated_at,
                    },
                )
            },
            None => None,
        }
    }

    /// Writes `assignee` for `task_id` as one atomic insert-or-update: a
    /// first assignment creates the record with `created_at` and
    /// `updated_at` both set to `now`; a later one replaces the assignee
    /// and refreshes `updated_at`, leaving `created_at` unchanged. Returns
    /// the record as it stands after the write.
    ///
    /// The caller supplies the clock reading `now`; a monotone clock never
    /// reads earlier than the record's first assignment, which is what the
    /// second precondition asks.
    pub fn upsert(&mut self, task_id: u128, assignee: String, now: i64) -> (r: TaskAssignee)
        requires
            old(self).wf(),
            old(self)@.contains_key(task_id) ==> old(self)@[task_id].created_at <= now as int,
        ensures
            final(self).wf(),
            map_inv(final(self)@),
            final(self)@ == upsert_model(old(self)@, task_id, assignee@, now as int),
            final(self)@.contains_key(task_id),
            r@ == final(self)@[task_id],
            r.task_id == task_id,
    {
        let ghost m0 = self@;
        let ghost s0 = self.records@;
        let idx = self.find_index(task_id);
        let created_at: i64;
        match idx {
            Some(i) => {
                proof {
                    lemma_map_index(s0, i as int);
                    lemma_map_remove(s0, i as int);
                    lemma_remove_keeps(s0, i as int);
                }
                created_at = self.records[i].created_at;
                self.records.remove(i);
            },
            None => {
                proof {
                    lemma_map_domain(s0);
                    assert(!m0.contains_key(task_id));
                }
                created_at = now;
            },
        }
        let ghost s1 = self.records@;
        let row = TaskAssignee { task_id, assignee, created_at, updated_at: now };
        let r = TaskAssignee {
            task_id,
            assignee: row.assignee.clone(),
            created_at,
            updated_at: now,
        };
        let ghost grow = row;
        self.records.push(row);
        proof {
            lemma_map_push(s1, grow);
            lemma_push_keeps(s1, grow);
            if m0.contains_key(task_id) {
                assert(seq_to_map(s1).insert(task_id, grow@) =~= m0.insert(task_id, grow@));
            }
            assert(self@ == upsert_model(m0, task_id, grow.assignee@, now as int));
            self.lemma_wf_map_inv();
        }
        r
    }

    /// Removes any record for `task_id`; removing an absent record is a
    /// successful no-op.
    pub fn delete(&mut self, task_id: u128)
        requires
            old(self).wf(),
        ensures
            final(self).wf(),
            map_inv(final(self)@),
            final(self)@ == delete_model(old(self)@, task_id),
    {
        let ghost s0 = self.records@;
        match self.find_index(task_id) {
            Some(i) => {
                proof {
                    lemma_map_remove(s0, i as int);
                    lemma_remove_keeps(s0, i as int);
                }
                self.records.remove(i);
            },
            None => {
                proof {
                    lemma_map_domain(s0);
                    assert(!self@.contains_key(task_id));
                    assert(self@.remove(task_id) =~= self@);
                }
            },
        }
        proof {
            self.lemma_wf_map_inv();
        }
    }
}

/// A task with no prior upsert reads as unassigned: `get` returns none.
pub proof fn lemma_get_unassigned(m: Map<u128, AssigneeRecord>, task_id: u128)
    requires
        !m.contains_key(task_id),
    ensures
        get_model(m, task_id) is None,
{
}

/// A read right after an upsert returns the record just written: the new
/// assignee, with `updated_at` equal to the write's clock reading.
pub proof fn lemma_upsert_then_get(
    m: Map<u128, AssigneeRecord>,
    task_id: u128,
    assignee: Seq<char>,
    now: int,
)
    ensures
        ({
            let r = get_model(upsert_model(m, task_id, assignee, now), task_id);
            r matches Some(rec) && rec.task_id == task_id && rec.assignee == assignee
                && rec.updated_at == now
        }),
{
}

/// Upserting the same assignee twice is idempotent up to `updated_at`: the
/// assignee stays the same and `created_at` is unchanged between the two
/// writes; no record appears or disappears.
pub proof fn lemma_upsert_idempotent(
    m: Map<u128, AssigneeRecord>,
    task_id: u128,
    assignee: Seq<char>,
    first: int,
    second: int,
)
    ensures
        ({
            let m1 = upsert_model(m, task_id, assignee, first);
            let m2 = upsert_model(m1, task_id, assignee, second);
            &&& m2[task_id].assignee == m1[task_id].assignee
            &&& m2[task_id].created_at == m1[task_id].created_at
            &&& m2.dom() =~= m1.dom()
        }),
{
}

/// Last writer wins: after two upserts to the same task, in either order,
/// the stored record is exactly the later write's, so a read returns one of
/// the two submitted assignees — never a mix — with `updated_at` taken from
/// the same write as the assignee returned.
pub proof fn lemma_last_writer_wins(
    m: Map<u128, AssigneeRecord>,
    task_id: u128,
    first_assignee: Seq<char>,
    second_assignee: Seq<char>,
    first_now: int,
    second_now: int,
)
    ensures
        ({
            let r = get_model(
                upsert_model(
                    upsert_model(m, task_id, first_assignee, first_now),
                    task_id,
                    second_assignee,
                    second_now,
                ),
                task_id,
            );
            r matches Some(rec) && rec.assignee == second_assignee && rec.updated_at == second_now
        }),
        ({
            let r = get_model(
                upsert_model(
                    upsert_model(m, task_id, second_assignee, second_now),
                    task_id,
                    first_assignee,
                    first_now,
                ),
                task_id,
            );
            r matches Some(rec) && rec.assignee == first_assignee && rec.updated_at == first_now
        }),
        ({
            let r = get_model(
                upsert_model(
                    upsert_model(m, task_id, first_assignee, first_now),
                    task_id,
                    second_assignee,
                    second_now,
                ),
                task_id,
            );
            r matches Some(rec) && ((rec.assignee == first_assignee && rec.updated_at == first_now)
                || (rec.assignee == second_assignee && rec.updated_at == second_now))
        }),
{
}

/// Deleting a task with no record succeeds as a no-op: the mapping is
/// unchanged and a subsequent read still returns none.
pub proof fn lemma_delete_unassigned(m: Map<u128, AssigneeRecord>, task_id: u128)
    requires
        !m.contains_key(task_id),
    ensures
        delete_model(m, task_id) == m,
        get_model(delete_model(m, task_id), task_id) is None,
{
}

/// A delete after an upsert leaves the task unassigned: a subsequent read
/// returns none.
pub proof fn lemma_delete_after_upsert(
    m: Map<u128, AssigneeRecord>,
    task_id: u128,
    assignee: Seq<char>,
    now: int,
)
    ensures
        get_model(delete_model(upsert_model(m, task_id, assignee, now), task_id), task_id) is None,
{
}

} // verus!
