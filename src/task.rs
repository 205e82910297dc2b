//! Task records and the task store.
use vstd::prelude::*;

use crate::clock::{now_micros, MAX_UTC_MICROS};

verus! {

/// One trackable work item. Timestamps are microseconds since the Unix epoch.
pub struct Task {
    pub id: u32,
    pub title: String,
    pub description: String,
    pub completed: bool,
    pub created_at: i64,
    pub completed_at: Option<i64>,
}

impl Task {
    /// A completion time is present exactly when the task is completed.
    pub open spec fn consistent(&self) -> bool {
        self.completed_at is Some == self.completed
    }

    /// The task after its completion state is flipped at time `now`.
    pub open spec fn toggled(self, now: i64) -> Task {
        Task {
            completed: !self.completed,
            completed_at: if !self.completed { Some(now) } else { None },
            ..self
        }
    }

    /// A fresh, open task created at `now`.
    pub open spec fn fresh(id: u32, title: String, description: String, now: i64) -> Task {
        Task { id, title, description, completed: false, created_at: now, completed_at: None }
    }

    /// Creates an open task stamped with the current time.
    pub fn new(id: u32, title: String, description: String) -> (r: Task)
        ensures
            exists|now: i64| 0 <= now <= MAX_UTC_MICROS && r == Task::fresh(id, title, description, now),
    {
        let now = now_micros();
        Task::new_at(id, title, description, now)
    }

    /// Creates an open task stamped with `now`.
    pub fn new_at(id: u32, title: String, description: String, now: i64) -> (r: Task)
        ensures
            r == Task::fresh(id, title, description, now),
    {
        Task { id, title, description, completed: false, created_at: now, completed_at: None }
    }

    /// Flips the completion state, stamping a completion with the current time.
    pub fn toggle_completed(&mut self)
        ensures
            exists|now: i64| 0 <= now <= MAX_UTC_MICROS && *final(self) == old(self).toggled(now),
    {
        let now = now_micros();
        self.toggle_completed_at(now);
    }

    /// Flips the completion state, stamping a completion with `now`.
    pub fn toggle_completed_at(&mut self, now: i64)
        ensures
            *final(self) == old(self).toggled(now),
    {
        self.completed = !self.completed;
        self.completed_at = if self.completed { Some(now) } else { None };
    }
}

/// The abstract state of a task store: its records in id order, the id
/// that the next `add` hands out, and every id that `add` has handed out.
pub ghost struct StoreView {
    pub tasks: Seq<Task>,
    pub next_id: nat,
    pub issued: Set<nat>,
}

/// Holds of a record whose id is not `id`.
pub open spec fn id_is_not(id: u32) -> spec_fn(Task) -> bool {
    |t: Task| t.id != id
}

/// Holds of a record whose id is below `id`.
pub open spec fn id_below(id: u32) -> spec_fn(Task) -> bool {
    |t: Task| t.id < id
}

/// Holds of a record whose id is above `id`.
pub open spec fn id_above(id: u32) -> spec_fn(Task) -> bool {
    |t: Task| t.id > id
}

/// Holds of a saved record that a store refuses.
pub open spec fn not_restorable() -> spec_fn(Task) -> bool {
    |t: Task| !StoreView::restorable(t)
}

/// Holds of a record that is not completed.
pub open spec fn is_not_completed() -> spec_fn(Task) -> bool {
    |t: Task| !t.completed
}

/// Holds of a completed record.
pub open spec fn is_completed() -> spec_fn(Task) -> bool {
    |t: Task| t.completed
}

impl StoreView {
    /// Ids are positive, strictly increasing in store order and below the
    /// counter, and every record is consistent.
    pub open spec fn wf(self) -> bool {
        &&& 1 <= self.next_id <= u32::MAX
        &&& forall|i: int, j: int|
            0 <= i < j < self.tasks.len() ==> self.tasks[i].id < self.tasks[j].id
        &&& forall|i: int| 0 <= i < self.tasks.len() ==> 1 <= #[trigger] self.tasks[i].id < self.next_id
        &&& forall|i: int| 0 <= i < self.tasks.len() ==> #[trigger] self.tasks[i].consistent()
        &&& forall|x: nat| #[trigger] self.issued.contains(x) ==> x < self.next_id
    }

    pub open spec fn has_id(self, id: u32) -> bool {
        exists|i: int| 0 <= i < self.tasks.len() && self.tasks[i].id == id
    }

    /// The store after `add`: a fresh record under the counter's value, and
    /// the counter one higher.
    pub open spec fn added(self, title: String, description: String, now: i64) -> StoreView {
        StoreView {
            tasks: self.tasks.push(Task::fresh(self.next_id as u32, title, description, now)),
            next_id: self.next_id + 1,
            issued: self.issued.insert(self.next_id),
        }
    }

    /// The store after `toggle`: the record with that id flipped at `now`.
    pub open spec fn toggled(self, id: u32, now: i64) -> StoreView {
        StoreView {
            tasks: self.tasks.map_values(|t: Task| if t.id == id { t.toggled(now) } else { t }),
            ..self
        }
    }

    /// The store after `remove`: every record with that id gone.
    pub open spec fn removed(self, id: u32) -> StoreView {
        StoreView { tasks: self.tasks.filter(id_is_not(id)), ..self }
    }

    /// A well-formed store holds fewer records than its counter: ids start
    /// at 1 and strictly increase.
    pub proof fn lemma_len_below_next_id(self)
        requires
            self.wf(),
        ensures
            self.tasks.len() < self.next_id,
    {
        if self.tasks.len() > 0 {
            let n = self.tasks.len() as int;
            assert forall|i: int| 0 <= i < n implies self.tasks[i].id >= i + 1 by {
                lemma_ids_at_least_index(self.tasks, i);
            }
            assert(self.tasks[n - 1].id >= n);
        }
    }

    /// A saved record that a store can take back: a positive id below the
    /// largest `u32`, and a consistent completion state.
    pub open spec fn restorable(t: Task) -> bool {
        1 <= t.id < u32::MAX && t.consistent()
    }

    /// The store after a saved record is put back: the record takes the
    /// place of any record with its id, ids stay in increasing order, and the
    /// counter moves past the record's id.
    pub open spec fn restored(self, t: Task) -> StoreView {
        StoreView {
            tasks: self.tasks.filter(id_below(t.id)).push(t) + self.tasks.filter(id_above(t.id)),
            next_id: if self.next_id > t.id { self.next_id } else { (t.id + 1) as nat },
            issued: self.issued,
        }
    }

    /// The store after saved records are put back first to last, the ones
    /// it cannot take being skipped.
    pub open spec fn restored_all(self, ts: Seq<Task>) -> StoreView
        decreases ts.len(),
    {
        if ts.len() == 0 {
            self
        } else {
            let before = self.restored_all(ts.drop_last());
            if StoreView::restorable(ts.last()) {
                before.restored(ts.last())
            } else {
                before
            }
        }
    }

    pub open spec fn total_count(self) -> nat {
        self.tasks.len()
    }

    pub open spec fn completed_count(self) -> nat {
        self.tasks.filter(is_completed()).len()
    }
}

/// Ids strictly increase along the sequence.
pub open spec fn ids_increasing(s: Seq<Task>) -> bool {
    forall|i: int, j: int| 0 <= i < j < s.len() ==> s[i].id < s[j].id
}

proof fn lemma_ids_at_least_index(s: Seq<Task>, i: int)
    requires
        0 <= i < s.len(),
        ids_increasing(s),
        forall|j: int| 0 <= j < s.len() ==> 1 <= #[trigger] s[j].id,
    ensures
        s[i].id >= i + 1,
    decreases i,
{
    if i > 0 {
        lemma_ids_at_least_index(s, i - 1);
        assert(s[i - 1].id < s[i].id);
    }
}

proof fn lemma_filter_keeps_all(s: Seq<Task>, p: spec_fn(Task) -> bool)
    requires
        forall|i: int| 0 <= i < s.len() ==> p(s[i]),
    ensures
        s.filter(p) == s,
    decreases s.len(),
{
    reveal(Seq::filter);
    if s.len() > 0 {
        lemma_filter_keeps_all(s.drop_last(), p);
        assert(s.drop_last().push(s.last()) =~= s);
    }
}

proof fn lemma_filter_drops_one(s: Seq<Task>, i: int)
    requires
        0 <= i < s.len(),
        ids_increasing(s),
    ensures
        s.filter(id_is_not(s[i].id)) == s.remove(i),
    decreases s.len(),
{
    reveal(Seq::filter);
    let p = id_is_not(s[i].id);
    if i == s.len() - 1 {
        assert forall|j: int| 0 <= j < s.drop_last().len() implies p(s.drop_last()[j]) by {
            assert(s[j].id < s[i].id);
        }
        lemma_filter_keeps_all(s.drop_last(), p);
        assert(s.remove(i) =~= s.drop_last());
    } else {
        assert(s.drop_last()[i] == s[i]);
        lemma_filter_drops_one(s.drop_last(), i);
        assert(s[i].id < s.last().id);
        assert(s.drop_last().remove(i).push(s.last()) =~= s.remove(i));
    }
}

/// In a sequence with increasing ids, the records below `x` are the prefix
/// before `i` and those above `x` the suffix from `k`, where `i` is the
/// first position whose id is at least `x` and `k` the first whose id is
/// above it.
proof fn lemma_split_by_id(s: Seq<Task>, x: u32, i: int, k: int)
    requires
        ids_increasing(s),
        0 <= i <= k <= s.len(),
        forall|j: int| 0 <= j < i ==> #[trigger] s[j].id < x,
        forall|j: int| i <= j < k ==> #[trigger] s[j].id == x,
        forall|j: int| k <= j < s.len() ==> #[trigger] s[j].id > x,
    ensures
        s.filter(id_below(x)) == s.take(i),
        s.filter(id_above(x)) == s.skip(k),
    decreases s.len(),
{
    reveal(Seq::filter);
    if s.len() > 0 {
        let n = s.len() - 1;
        if k <= n {
            lemma_split_by_id(s.drop_last(), x, i, k);
            assert(s.drop_last().take(i) =~= s.take(i));
            assert(s.drop_last().skip(k).push(s.last()) =~= s.skip(k));
        } else if i <= n {
            lemma_split_by_id(s.drop_last(), x, i, n);
            assert(s.drop_last().take(i) =~= s.take(i));
            assert(s.drop_last().skip(n) =~= s.skip(k));
        } else {
            lemma_split_by_id(s.drop_last(), x, n, n);
            assert(s.drop_last().take(n).push(s.last()) =~= s.take(i));
            assert(s.drop_last().skip(n) =~= s.skip(k));
        }
    }
}

/// A call that changes a store, as a value, for stating laws over
/// sequences of calls.
pub ghost enum StoreOp {
    Add { title: String, description: String, now: i64 },
    Toggle { id: u32, now: i64 },
    Remove { id: u32 },
}

/// Every record is consistent.
pub open spec fn all_consistent(s: Seq<Task>) -> bool {
    forall|i: int| 0 <= i < s.len() ==> #[trigger] s[i].consistent()
}

impl StoreView {
    /// The store after one call.
    pub open spec fn apply(self, op: StoreOp) -> StoreView {
        match op {
            StoreOp::Add { title, description, now } => self.added(title, description, now),
            StoreOp::Toggle { id, now } => self.toggled(id, now),
            StoreOp::Remove { id } => self.removed(id),
        }
    }

    /// The store after a sequence of calls, first to last.
    pub open spec fn apply_all(self, ops: Seq<StoreOp>) -> StoreView
        decreases ops.len(),
    {
        if ops.len() == 0 {
            self
        } else {
            self.apply_all(ops.drop_last()).apply(ops.last())
        }
    }
}

proof fn lemma_next_id_monotone(s: StoreView, ops: Seq<StoreOp>, i: int, j: int)
    requires
        0 <= i <= j <= ops.len(),
    ensures
        s.apply_all(ops.take(i)).next_id <= s.apply_all(ops.take(j)).next_id,
    decreases j - i,
{
    if i < j {
        lemma_next_id_monotone(s, ops, i, j - 1);
        assert(ops.take(j).drop_last() =~= ops.take(j - 1));
    }
}

/// Ids that `add` hands out strictly increase over any sequence of calls,
/// removals included: where the call at position `i` is an add, the counter
/// before any later call `j` is above the id that the add handed out, so an
/// add at `j` hands out a larger id.
pub proof fn lemma_add_ids_strictly_increase(s: StoreView, ops: Seq<StoreOp>, i: int, j: int)
    requires
        0 <= i < j < ops.len(),
        ops[i] is Add,
    ensures
        s.apply_all(ops.take(i)).next_id < s.apply_all(ops.take(j)).next_id,
{
    assert(ops.take(i + 1).drop_last() =~= ops.take(i));
    lemma_next_id_monotone(s, ops, i + 1, j);
}

proof fn lemma_filter_keeps_consistency(s: Seq<Task>, p: spec_fn(Task) -> bool)
    requires
        all_consistent(s),
    ensures
        all_consistent(s.filter(p)),
    decreases s.len(),
{
    reveal(Seq::filter);
    if s.len() > 0 {
        lemma_filter_keeps_consistency(s.drop_last(), p);
        let f = s.filter(p);
        assert forall|i: int| 0 <= i < f.len() implies #[trigger] f[i].consistent() by {
            if p(s.last()) && i == f.len() - 1 {
                assert(s[s.len() - 1].consistent());
            } else {
                assert(s.drop_last().filter(p)[i] == f[i]);
            }
        }
    }
}

/// Every call keeps each record's completion time present exactly when the
/// record is completed.
pub proof fn lemma_calls_keep_consistency(s: StoreView, ops: Seq<StoreOp>)
    requires
        all_consistent(s.tasks),
    ensures
        all_consistent(s.apply_all(ops).tasks),
    decreases ops.len(),
{
    if ops.len() > 0 {
        lemma_calls_keep_consistency(s, ops.drop_last());
        let before = s.apply_all(ops.drop_last());
        match ops.last() {
            StoreOp::Remove { id } => {
                lemma_filter_keeps_consistency(before.tasks, id_is_not(id));
            },
            _ => {},
        }
    }
}

/// Every completion time is no earlier than its record's creation time.
pub open spec fn times_ordered(s: Seq<Task>) -> bool {
    forall|i: int|
        0 <= i < s.len() ==> match #[trigger] s[i].completed_at {
            Some(c) => c >= s[i].created_at,
            None => true,
        }
}

/// One call keeps completion times no earlier than creation times, provided
/// a toggle happens no earlier than the creation of the record it flips.
pub proof fn lemma_call_keeps_time_order(s: StoreView, op: StoreOp)
    requires
        times_ordered(s.tasks),
        op matches StoreOp::Toggle { id, now } ==> forall|i: int|
            0 <= i < s.tasks.len() && #[trigger] s.tasks[i].id == id ==> now >= s.tasks[i].created_at,
    ensures
        times_ordered(s.apply(op).tasks),
{
    match op {
        StoreOp::Remove { id } => {
            lemma_filter_keeps_time_order(s.tasks, id_is_not(id));
        },
        StoreOp::Toggle { id, now } => {
            let after = s.apply(op).tasks;
            assert forall|i: int| 0 <= i < after.len() implies match #[trigger] after[i].completed_at {
                Some(c) => c >= after[i].created_at,
                None => true,
            } by {
                if s.tasks[i].id == id {
                    assert(now >= s.tasks[i].created_at);
                }
            }
        },
        _ => {},
    }
}

proof fn lemma_filter_keeps_time_order(s: Seq<Task>, p: spec_fn(Task) -> bool)
    requires
        times_ordered(s),
    ensures
        times_ordered(s.filter(p)),
    decreases s.len(),
{
    reveal(Seq::filter);
    if s.len() > 0 {
        lemma_filter_keeps_time_order(s.drop_last(), p);
        let f = s.filter(p);
        assert forall|i: int| 0 <= i < f.len() implies match #[trigger] f[i].completed_at {
            Some(c) => c >= f[i].created_at,
            None => true,
        } by {
            if p(s.last()) && i == f.len() - 1 {
                assert(f[i] == s[s.len() - 1]);
            } else {
                assert(s.drop_last().filter(p)[i] == f[i]);
            }
        }
    }
}

/// Toggling an open record twice restores the store, whatever the two
/// times.
pub proof fn lemma_toggle_twice_restores(s: StoreView, id: u32, first: i64, second: i64)
    requires
        forall|i: int| 0 <= i < s.tasks.len() && s.tasks[i].id == id ==> !s.tasks[i].completed
            && s.tasks[i].consistent(),
    ensures
        s.toggled(id, first).toggled(id, second) == s,
{
    assert(s.toggled(id, first).toggled(id, second).tasks =~= s.tasks);
}

/// Toggling any record twice restores its completion flag.
pub proof fn lemma_toggle_twice_restores_flags(s: StoreView, id: u32, first: i64, second: i64)
    ensures
        forall|i: int| 0 <= i < s.tasks.len() ==>
            (#[trigger] s.toggled(id, first).toggled(id, second).tasks[i]).completed
                == s.tasks[i].completed,
{
}

proof fn lemma_filter_partition(s: Seq<Task>)
    ensures
        s.filter(is_completed()).len() + s.filter(is_not_completed()).len() == s.len(),
    decreases s.len(),
{
    reveal(Seq::filter);
    if s.len() > 0 {
        lemma_filter_partition(s.drop_last());
    }
}

/// Completed and open records together make up the store, so the completed
/// count and the rest add up to the total.
pub proof fn lemma_completed_and_open_partition(s: StoreView)
    ensures
        s.completed_count() <= s.total_count(),
        s.completed_count() + (s.total_count() - s.completed_count()) == s.total_count(),
        s.tasks.filter(is_not_completed()).len() == s.total_count() - s.completed_count(),
{
    lemma_filter_partition(s.tasks);
}

/// Owns the task records, assigns ids and changes their state.
pub struct TaskManager {
    tasks: Vec<Task>,
    next_id: u32,
    issued: Ghost<Set<nat>>,
}

impl View for TaskManager {
    type V = StoreView;

    closed spec fn view(&self) -> StoreView {
        StoreView { tasks: self.tasks@, next_id: self.next_id as nat, issued: self.issued@ }
    }
}

impl TaskManager {
    pub open spec fn wf(&self) -> bool {
        self@.wf()
    }

    /// An empty store whose first id is 1.
    pub fn new() -> (r: TaskManager)
        ensures
            r.wf(),
            r@.tasks.len() == 0,
            r@.next_id == 1,
            r@.issued.is_empty(),
    {
        TaskManager { tasks: Vec::new(), next_id: 1, issued: Ghost(Set::empty()) }
    }

    /// Whether another id can be handed out.
    pub fn can_add(&self) -> (r: bool)
        ensures
            r == (self@.next_id < u32::MAX),
    {
        self.next_id < u32::MAX
    }

    /// Adds an open task created now and returns its id.
    pub fn add_task(&mut self, title: String, description: String) -> (r: u32)
        requires
            old(self).wf(),
            old(self)@.next_id < u32::MAX,
        ensures
            final(self).wf(),
            r == old(self)@.next_id,
            !old(self)@.has_id(r),
            forall|i: int| 0 <= i < old(self)@.tasks.len() ==> old(self)@.tasks[i].id < r,
            final(self)@.next_id == r + 1,
            forall|x: nat| #[trigger] old(self)@.issued.contains(x) ==> x < r,
            exists|now: i64| 0 <= now <= MAX_UTC_MICROS && final(self)@ == old(self)@.added(title, description, now),
    {
        let now = now_micros();
        self.add_task_at(title, description, now)
    }

    /// Adds an open task created at `now` and returns its id.
    pub fn add_task_at(&mut self, title: String, description: String, now: i64) -> (r: u32)
        requires
            old(self).wf(),
            old(self)@.next_id < u32::MAX,
        ensures
            final(self).wf(),
            r == old(self)@.next_id,
            !old(self)@.has_id(r),
            forall|i: int| 0 <= i < old(self)@.tasks.len() ==> old(self)@.tasks[i].id < r,
            final(self)@.next_id == r + 1,
            forall|x: nat| #[trigger] old(self)@.issued.contains(x) ==> x < r,
            final(self)@ == old(self)@.added(title, description, now),
    {
        let id = self.next_id;
        let task = Task::new_at(id, title, description, now);
        self.tasks.push(task);
        self.next_id = self.next_id + 1;
        self.issued = Ghost(self.issued@.insert(id as nat));
        assert forall|x: nat| #[trigger] self@.issued.contains(x) implies x < self@.next_id by {
            if x != id as nat {
                assert(old(self)@.issued.contains(x));
            }
        }
        id
    }

    /// The index of the record with this id, if there is one.
    fn position(&self, id: u32) -> (r: Option<usize>)
        requires
            self.wf(),
        ensures
            r is None ==> !self@.has_id(id),
            r matches Some(i) ==> i < self@.tasks.len() && self@.tasks[i as int].id == id,
    {
        let mut i: usize = 0;
        while i < self.tasks.len()
            invariant
                i <= self.tasks@.len(),
                forall|j: int| 0 <= j < i ==> self.tasks@[j].id != id,
            decreases self.tasks@.len() - i,
        {
            if self.tasks[i].id == id {
                return Some(i);
            }
            i = i + 1;
        }
        None
    }

    /// The record with this id, if present.
    pub fn get_task(&self, id: u32) -> (r: Option<&Task>)
        requires
            self.wf(),
        ensures
            r is Some <==> self@.has_id(id),
            r matches Some(t) ==> t.id == id && self@.tasks.contains(*t),
    {
        match self.position(id) {
            Some(i) => Some(&self.tasks[i]),
            None => None,
        }
    }

    /// Flips the completion state of the record with this id, stamping a
    /// completion with `now`. Returns whether the id was present.
    pub fn toggle_task_at(&mut self, id: u32, now: i64) -> (r: bool)
        requires
            old(self).wf(),
        ensures
            final(self).wf(),
            r == old(self)@.has_id(id),
            final(self)@.next_id == old(self)@.next_id,
            final(self)@ == old(self)@.toggled(id, now),
    {
        match self.position(id) {
            Some(i) => {
                let ghost before = self@;
                self.tasks[i].toggle_completed_at(now);
                proof {
                    assert forall|j: int| 0 <= j < before.tasks.len() && j != i implies
                        before.tasks[j].id != id by {
                        if j < i { assert(before.tasks[j].id < before.tasks[i as int].id); }
                        else { assert(before.tasks[i as int].id < before.tasks[j].id); }
                    }
                    assert(self@.tasks =~= before.toggled(id, now).tasks);
                }
                true
            },
            None => {
                assert(self@.tasks =~= self@.toggled(id, now).tasks);
                false
            },
        }
    }

    /// Flips the completion state of the record with this id, stamping a
    /// completion with the current time. Returns whether the id was present.
    pub fn toggle_task(&mut self, id: u32) -> (r: bool)
        requires
            old(self).wf(),
        ensures
            final(self).wf(),
            r == old(self)@.has_id(id),
            final(self)@.next_id == old(self)@.next_id,
            exists|now: i64| 0 <= now <= MAX_UTC_MICROS && final(self)@ == old(self)@.toggled(id, now),
    {
        let now = now_micros();
        self.toggle_task_at(id, now)
    }

    /// Deletes the record with this id. Returns whether it was present.
    pub fn remove_task(&mut self, id: u32) -> (r: bool)
        requires
            old(self).wf(),
        ensures
            final(self).wf(),
            r == old(self)@.has_id(id),
            final(self)@.next_id == old(self)@.next_id,
            final(self)@ == old(self)@.removed(id),
    {
        match self.position(id) {
            Some(i) => {
                proof { lemma_filter_drops_one(self@.tasks, i as int); }
                let _ = self.tasks.remove(i);
                assert forall|x: nat| #[trigger] self@.issued.contains(x) implies x
                    < self@.next_id by {
                    assert(old(self)@.issued.contains(x));
                }
                assert forall|a: int, b: int| 0 <= a < b < self@.tasks.len() implies
                    self@.tasks[a].id < self@.tasks[b].id by {
                    let ghost a0 = if a < i { a } else { a + 1 };
                    let ghost b0 = if b < i { b } else { b + 1 };
                    assert(old(self)@.tasks[a0].id < old(self)@.tasks[b0].id);
                }
                true
            },
            None => {
                proof {
                    assert forall|j: int| 0 <= j < self@.tasks.len() implies
                        #[trigger] id_is_not(id)(self@.tasks[j]) by {}
                    lemma_filter_keeps_all(self@.tasks, id_is_not(id));
                }
                false
            },
        }
    }

    /// All records, in id order.
    pub fn get_all_tasks(&self) -> (r: Vec<&Task>)
        requires
            self.wf(),
        ensures
            r@.len() == self@.tasks.len(),
            forall|i: int| 0 <= i < r@.len() ==> *r@[i] == self@.tasks[i],
    {
        let mut out: Vec<&Task> = Vec::new();
        let mut i: usize = 0;
        while i < self.tasks.len()
            invariant
                i <= self.tasks@.len(),
                out@.len() == i,
                forall|j: int| 0 <= j < i ==> *out@[j] == self.tasks@[j],
            decreases self.tasks@.len() - i,
        {
            out.push(&self.tasks[i]);
            i = i + 1;
        }
        out
    }

    /// The number of completed records.
    pub fn get_completed_count(&self) -> (r: usize)
        requires
            self.wf(),
        ensures
            r == self@.completed_count(),
    {
        let mut count: usize = 0;
        let mut i: usize = 0;
        while i < self.tasks.len()
            invariant
                i <= self.tasks@.len(),
                count == self.tasks@.take(i as int).filter(is_completed()).len(),
                count <= i,
            decreases self.tasks@.len() - i,
        {
            proof {
                reveal(Seq::filter);
                assert(self.tasks@.take(i + 1).drop_last() =~= self.tasks@.take(i as int));
            }
            if self.tasks[i].completed {
                count = count + 1;
            }
            i = i + 1;
        }
        assert(self.tasks@.take(i as int) =~= self.tasks@);
        count
    }

    /// Puts a saved record back, replacing any record with its id. Refuses,
    /// leaving the store as it is, a record with id 0 or `u32::MAX` or with
    /// a completion time that does not match its flag.
    pub fn restore_task(&mut self, task: Task) -> (r: bool)
        requires
            old(self).wf(),
        ensures
            final(self).wf(),
            r == StoreView::restorable(task),
            final(self)@.next_id >= old(self)@.next_id,
            r ==> final(self)@ == old(self)@.restored(task),
            !r ==> final(self)@ == old(self)@,
    {
        let ok = match task.completed_at {
            Some(_) => task.completed,
            None => !task.completed,
        };
        if task.id == 0 || task.id == u32::MAX || !ok {
            return false;
        }
        let ghost before = self@;
        let mut i: usize = 0;
        while i < self.tasks.len() && self.tasks[i].id < task.id
            invariant
                i <= self.tasks@.len(),
                self@ == before,
                forall|j: int| 0 <= j < i ==> #[trigger] self.tasks@[j].id < task.id,
            decreases self.tasks@.len() - i,
        {
            i = i + 1;
        }
        let replace = i < self.tasks.len() && self.tasks[i].id == task.id;
        let k: usize = if replace { i + 1 } else { i };
        proof {
            assert forall|j: int| k <= j < before.tasks.len() implies #[trigger] before.tasks[j].id
                > task.id by {
                if replace {
                    assert(before.tasks[i as int].id < before.tasks[j].id);
                } else {
                    assert(before.tasks[i as int].id <= before.tasks[j].id);
                }
            }
            lemma_split_by_id(before.tasks, task.id, i as int, k as int);
        }
        let id = task.id;
        if replace {
            self.tasks.set(i, task);
        } else {
            self.tasks.insert(i, task);
        }
        if self.next_id <= id {
            self.next_id = id + 1;
        }
        proof {
            assert(self.tasks@ =~= before.tasks.take(i as int).push(task) + before.tasks.skip(
                k as int,
            ));
            assert(self@ == before.restored(task));
            assert forall|a: int, b: int| 0 <= a < b < self.tasks@.len() implies
                self.tasks@[a].id < self.tasks@[b].id by {
                if b < i {
                    assert(before.tasks[a].id < before.tasks[b].id);
                } else if b > i {
                    let b0 = b - i - 1 + k;
                    assert(self.tasks@[b] == before.tasks[b0]);
                    if a > i {
                        assert(self.tasks@[a] == before.tasks[a - i - 1 + k]);
                        assert(before.tasks[a - i - 1 + k].id < before.tasks[b0].id);
                    }
                }
            }
            assert forall|j: int| 0 <= j < self.tasks@.len() implies 1 <= #[trigger] self.tasks@[j].id
                < self.next_id && self.tasks@[j].consistent() by {
                if j < i {
                    assert(self.tasks@[j] == before.tasks[j]);
                } else if j > i {
                    assert(self.tasks@[j] == before.tasks[j - i - 1 + k]);
                }
            }
        }
        true
    }

    /// Puts saved records back, first to last, as `restore_task` does each
    /// one. Returns how many were refused.
    pub fn restore_all(&mut self, tasks: Vec<Task>) -> (r: usize)
        requires
            old(self).wf(),
        ensures
            final(self).wf(),
            final(self)@ == old(self)@.restored_all(tasks@),
            r == tasks@.filter(not_restorable()).len(),
    {
        let ghost orig = tasks@;
        let ghost start = self@;
        let mut rest = tasks;
        let total = rest.len();
        let mut refused: usize = 0;
        let ghost mut j: int = 0;
        while rest.len() > 0
            invariant
                self.wf(),
                0 <= j <= orig.len(),
                rest@ == orig.skip(j),
                self@ == start.restored_all(orig.take(j)),
                refused == orig.take(j).filter(not_restorable()).len(),
                refused <= j,
                orig.len() == total,
            decreases rest@.len(),
        {
            proof {
                reveal(Seq::filter);
                assert(orig.take(j + 1).drop_last() =~= orig.take(j));
                assert(orig.take(j + 1).last() == orig[j]);
            }
            let t = rest.remove(0);
            if !self.restore_task(t) {
                refused = refused + 1;
            }
            proof {
                assert(rest@ =~= orig.skip(j + 1));
                j = j + 1;
            }
        }
        assert(orig.take(j) =~= orig);
        refused
    }

    /// The records themselves, for the analytics in this crate.
    pub(crate) fn records(&self) -> (r: &Vec<Task>)
        ensures
            r@ == self@.tasks,
    {
        &self.tasks
    }

    /// The number of records.
    pub fn get_total_count(&self) -> (r: usize)
        requires
            self.wf(),
        ensures
            r == self@.total_count(),
    {
        self.tasks.len()
    }
}

} // verus!
