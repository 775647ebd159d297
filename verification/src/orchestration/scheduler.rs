use vstd::prelude::*;
use vstd::string::*;

use crate::event_bus::{Event, EventBus, EventView};

verus! {

/// The digit of Crockford's Base32 alphabet, as `ulid` writes it, for the
/// five-bit value `v`.
pub open spec fn crockford_digit(v: u128) -> char {
    seq![
        '0', '1', '2', '3', '4', '5', '6', '7', '8', '9', 'A', 'B', 'C', 'D', 'E', 'F',
        'G', 'H', 'J', 'K', 'M', 'N', 'P', 'Q', 'R', 'S', 'T', 'V', 'W', 'X', 'Y', 'Z',
    ][v as int]
}

/// The canonical text of a ULID: its 128 bits in 26 Crockford Base32 digits,
/// most significant first (the first digit carries the top three bits).
pub open spec fn ulid_text(v: u128) -> Seq<char> {
    Seq::new(26, |j: int| crockford_digit(ulid_digit(v, j)))
}

/// The value of the `j`-th Crockford digit of the ULID `v`, most
/// significant first.
pub open spec fn ulid_digit(v: u128, j: int) -> u128 {
    (v >> ((125 - 5 * j) as u128)) & 31u128
}

/// The value of the first `j + 1` digits of the ULID `v`.
spec fn ulid_prefix(v: u128, j: int) -> u128 {
    v >> ((125 - 5 * j) as u128)
}

/// `s` comes before `t` in lexicographic (string) order: they agree up to a
/// position where `s` has the smaller character.
pub open spec fn text_before(s: Seq<char>, t: Seq<char>) -> bool {
    exists|j: int|
        0 <= j < s.len() && j < t.len() && s.subrange(0, j) == t.subrange(0, j) && #[trigger] s[j] < t[j]
}

proof fn lemma_crockford_step(x: u128)
    requires
        x < 31,
    ensures
        crockford_digit(x) < crockford_digit((x + 1) as u128),
{
    let a = seq![
        '0', '1', '2', '3', '4', '5', '6', '7', '8', '9', 'A', 'B', 'C', 'D', 'E', 'F',
        'G', 'H', 'J', 'K', 'M', 'N', 'P', 'Q', 'R', 'S', 'T', 'V', 'W', 'X', 'Y', 'Z',
    ];
    assert(forall|i: int| 0 <= i < 31 ==> #[trigger] a[i] < a[i + 1]);
}

/// The Crockford alphabet is in character order.
proof fn lemma_crockford_increasing(x: u128, y: u128)
    requires
        x < y < 32,
    ensures
        crockford_digit(x) < crockford_digit(y),
    decreases y - x,
{
    lemma_crockford_step(x);
    if x + 1 < y {
        lemma_crockford_increasing((x + 1) as u128, y);
    }
}

proof fn lemma_shift_split(v: u128, s: u128)
    by (bit_vector)
    requires
        s <= 120,
    ensures
        v >> s == (v >> (s + 5)) * 32 + ((v >> s) & 31),
{
}

proof fn lemma_shift_order(a: u128, b: u128, s: u128)
    by (bit_vector)
    requires
        (a >> s) > (b >> s),
    ensures
        a > b,
{
}

proof fn lemma_top_digit(v: u128)
    by (bit_vector)
    ensures
        (v >> 125u128) & 31u128 == v >> 125u128,
        v >> 0u128 == v,
{
}

/// The prefix of `j + 1` digits is the prefix of `j` digits followed by
/// digit `j`.
proof fn lemma_prefix_step(v: u128, j: int)
    requires
        0 <= j <= 25,
    ensures
        j == 0 ==> ulid_prefix(v, j) == ulid_digit(v, j),
        j > 0 ==> ulid_prefix(v, j) == ulid_prefix(v, j - 1) * 32 + ulid_digit(v, j),
{
    lemma_top_digit(v);
    if j > 0 {
        lemma_shift_split(v, (125 - 5 * j) as u128);
        assert((125 - 5 * j) as u128 + 5 == (125 - 5 * (j - 1)) as u128);
    }
}

/// ULIDs that agree on their first `j + 1` digits agree on that prefix.
proof fn lemma_equal_digits_equal_prefix(a: u128, b: u128, j: int)
    requires
        0 <= j <= 25,
        forall|i: int| 0 <= i <= j ==> ulid_digit(a, i) == #[trigger] ulid_digit(b, i),
    ensures
        ulid_prefix(a, j) == ulid_prefix(b, j),
    decreases j,
{
    lemma_prefix_step(a, j);
    lemma_prefix_step(b, j);
    if j > 0 {
        lemma_equal_digits_equal_prefix(a, b, j - 1);
    }
}

proof fn lemma_text_order_from(a: u128, b: u128, j: int)
    requires
        a < b,
        0 <= j <= 25,
        forall|i: int| 0 <= i < j ==> ulid_digit(a, i) == #[trigger] ulid_digit(b, i),
    ensures
        text_before(ulid_text(a), ulid_text(b)),
    decreases 25 - j,
{
    let (s, t) = (ulid_text(a), ulid_text(b));
    if ulid_digit(a, j) == ulid_digit(b, j) {
        if j == 25 {
            lemma_equal_digits_equal_prefix(a, b, 25);
            lemma_top_digit(a);
            lemma_top_digit(b);
        } else {
            lemma_text_order_from(a, b, j + 1);
        }
    } else {
        lemma_prefix_step(a, j);
        lemma_prefix_step(b, j);
        if j > 0 {
            lemma_equal_digits_equal_prefix(a, b, j - 1);
        }
        assert(ulid_digit(a, j) < 32 && ulid_digit(b, j) < 32) by {
            let (x, y) = (ulid_prefix(a, j), ulid_prefix(b, j));
            assert(x & 31u128 < 32 && y & 31u128 < 32) by (bit_vector);
        }
        if ulid_digit(a, j) > ulid_digit(b, j) {
            lemma_shift_order(a, b, (125 - 5 * j) as u128);
        }
        lemma_crockford_increasing(ulid_digit(a, j), ulid_digit(b, j));
        assert(s.subrange(0, j) =~= t.subrange(0, j));
        assert(s[j] < t[j]);
    }
}

/// A task's identifier carries its creation time: of two tasks made within
/// the ULID time range (2^48 ms, until the year 10889), the one created in an
/// earlier millisecond has the identifier that comes first in string order.
pub proof fn lemma_earlier_creation_earlier_id(a: Task, va: u128, b: Task, vb: u128)
    requires
        a.id@ == ulid_text(va),
        ulid_time(va) == unix_millis(a.created_at) % 0x1_0000_0000_0000,
        b.id@ == ulid_text(vb),
        ulid_time(vb) == unix_millis(b.created_at) % 0x1_0000_0000_0000,
        0 <= unix_millis(a.created_at) < unix_millis(b.created_at) < 0x1_0000_0000_0000,
    ensures
        text_before(a.id@, b.id@),
{
    lemma_shift_order(vb, va, 80u128);
    lemma_ulid_text_order(va, vb);
}

/// The creation time in milliseconds is the seconds times a thousand plus the
/// whole milliseconds of the nanoseconds: a task created at
/// 2024-01-01T00:00:00.250Z counts 1704067200250.
pub proof fn lemma_unix_millis(t: Timestamp)
    requires
        t.secs >= 0,
        t.nanos < 1_000_000_000,
    ensures
        unix_millis(t) == t.secs * 1000 + t.nanos / 1_000_000,
        t.secs * 1000 <= unix_millis(t) < t.secs * 1000 + 1000,
{
}

/// ULID texts sort as their values: a smaller ULID has a text that comes
/// first in string order. As a ULID's top 48 bits are its time in
/// milliseconds, a ULID made in a later millisecond has a later text.
pub proof fn lemma_ulid_text_order(a: u128, b: u128)
    requires
        a < b,
    ensures
        text_before(ulid_text(a), ulid_text(b)),
{
    lemma_text_order_from(a, b, 0);
}

/// The number of milliseconds that a ULID's top 48 bits hold.
pub open spec fn ulid_time(value: u128) -> int {
    (value >> 80u128) as int
}

/// Calls `ulid::Ulid::from_datetime` for the moment `millis` milliseconds
/// after the Unix epoch and takes the ULID's 128-bit value. `ulid` puts the
/// milliseconds, cut to 48 bits, in the top 48 bits and fills the other 80
/// with random bits, which are not stated.
#[verifier::external_body]
fn ulid_new_value(millis: u64) -> (value: u128)
    ensures
        ulid_time(value) == millis as int % 0x1_0000_0000_0000,
{
    ulid::Ulid::from_datetime(std::time::UNIX_EPOCH + std::time::Duration::from_millis(millis)).0
}

/// Calls `Ulid::to_string` on the ULID with value `value`, which writes the
/// 26 Crockford Base32 digits described by `ulid_text`.
#[verifier::external_body]
fn ulid_to_text(value: u128) -> (text: String)
    ensures
        text@ == ulid_text(value),
{
    ulid::Ulid(value).to_string()
}

/// A moment in UTC: whole seconds since the Unix epoch and the nanoseconds
/// past that second.
#[derive(Clone, Copy, Debug, PartialEq, Eq)]
pub struct Timestamp {
    pub secs: i64,
    pub nanos: u32,
}

/// The Unix time of `t` in whole milliseconds; 0 for a moment before the
/// epoch, as `ulid` counts it.
pub open spec fn unix_millis(t: Timestamp) -> int {
    if t.secs >= 0 {
        t.secs * 1000 + t.nanos / 1_000_000
    } else {
        0
    }
}

/// Calls `chrono::Utc::now()` and takes its Unix seconds
/// (`DateTime::timestamp`) and the nanoseconds past them
/// (`DateTime::timestamp_subsec_nanos`). The current time is not a function
/// of anything here; what is stated holds of every reading: chrono builds it
/// from the system clock's whole seconds and nanoseconds below one second,
/// and only within its date range (years -262143 to 262142), beyond which
/// `Utc::now` panics.
#[verifier::external_body]
fn utc_now() -> (now: Timestamp)
    ensures
        now.nanos < 1_000_000_000,
        -9_000_000_000_000 <= now.secs <= 9_000_000_000_000,
{
    let now = chrono::Utc::now();
    Timestamp { secs: now.timestamp(), nanos: now.timestamp_subsec_nanos() }
}

/// A unit of work. A lower `priority` number is more urgent; 0 is the most
/// urgent.
#[derive(Clone, Debug, PartialEq, Eq)]
pub struct Task {
    pub id: String,
    pub priority: u8,
    pub description: String,
    pub status: String,
    pub created_at: Timestamp,
}

impl Task {
    /// A pending task with the identifier of the ULID `ulid` and the creation
    /// time `created_at`.
    pub fn from_parts(ulid: u128, created_at: Timestamp, description: String, priority: u8) -> (task: Self)
        ensures
            task.id@ == ulid_text(ulid),
            task.priority == priority,
            task.description == description,
            task.status@ == "pending"@,
            task.created_at == created_at,
    {
        Task {
            id: ulid_to_text(ulid),
            priority,
            description,
            status: String::from_str("pending"),
            created_at,
        }
    }

    /// A pending task with a fresh ULID as identifier, created now.
    pub fn new(description: String, priority: u8) -> (task: Self)
        ensures
            exists|ulid: u128| task.id@ == #[trigger] ulid_text(ulid),
            exists|ulid: u128|
                task.id@ == #[trigger] ulid_text(ulid) && ulid_time(ulid) == unix_millis(task.created_at)
                    % 0x1_0000_0000_0000,
            task.created_at.nanos < 1_000_000_000,
            -9_000_000_000_000 <= task.created_at.secs <= 9_000_000_000_000,
            task.id@.len() == 26,
            task.priority == priority,
            task.description == description,
            task.status@ == "pending"@,
    {
        let created_at = utc_now();
        let millis: u64 = if created_at.secs >= 0 {
            (created_at.secs as u64) * 1000 + (created_at.nanos / 1_000_000) as u64
        } else {
            0
        };
        let ulid = ulid_new_value(millis);
        Task::from_parts(ulid, created_at, description, priority)
    }
}

/// `i` is where the next task to run stands in `queue`: a task of the most
/// urgent priority present, and the first one of that priority.
pub open spec fn is_next_index(queue: Seq<Task>, i: int) -> bool {
    &&& 0 <= i < queue.len()
    &&& forall|j: int| 0 <= j < queue.len() ==> queue[i].priority <= #[trigger] queue[j].priority
    &&& forall|j: int| 0 <= j < i ==> queue[i].priority < #[trigger] queue[j].priority
}

/// The position of the next task to run in `queue` (meaningful when the
/// queue is not empty).
pub open spec fn next_index(queue: Seq<Task>) -> int {
    choose|i: int| is_next_index(queue, i)
}

/// The order in which the tasks of `queue` leave when taken one after the
/// other with nothing added in between.
pub open spec fn drain_order(queue: Seq<Task>) -> Seq<Task>
    decreases queue.len(),
{
    if queue.len() == 0 {
        seq![]
    } else {
        let i = next_index(queue);
        if 0 <= i < queue.len() {
            seq![queue[i]] + drain_order(queue.remove(i))
        } else {
            seq![]
        }
    }
}

/// Priority queue of pending tasks. The most urgent task leaves first; among
/// tasks of the same priority, the one added first.
pub struct TaskScheduler {
    queue: Vec<Task>,
    event_bus: EventBus,
}

impl View for TaskScheduler {
    /// The pending tasks in the order in which they were added.
    type V = Seq<Task>;

    closed spec fn view(&self) -> Seq<Task> {
        self.queue@
    }
}

impl TaskScheduler {
    /// The bus on which this scheduler publishes.
    pub closed spec fn event_bus(&self) -> EventBus {
        self.event_bus
    }

    /// The events sent through this scheduler's bus, oldest first.
    pub open spec fn published_events(&self) -> Seq<EventView> {
        self.event_bus().sent_events()
    }

    /// An empty scheduler that publishes on `event_bus`.
    pub fn new(event_bus: EventBus) -> (scheduler: Self)
        ensures
            scheduler@ == Seq::<Task>::empty(),
            scheduler.event_bus() == event_bus,
    {
        TaskScheduler { queue: Vec::new(), event_bus }
    }

    /// Queues `task` and publishes `TaskCreated` for it.
    pub fn add_task(&mut self, task: Task)
        ensures
            final(self)@ == old(self)@.push(task),
            final(self).published_events() == old(self).published_events().push(
                EventView::TaskCreated { task_id: task.id@ },
            ),
            final(self).event_bus().continues(&old(self).event_bus()),
    {
        let task_id = task.id.clone();
        self.queue.push(task);
        self.event_bus.publish(Event::TaskCreated { task_id });
    }

    /// Takes the next task to run out of the queue: the most urgent one, the
    /// earliest added among equally urgent ones. `None` when nothing is queued.
    pub fn get_next_task(&mut self) -> (next: Option<Task>)
        ensures
            final(self).event_bus() == old(self).event_bus(),
            old(self)@.len() > 0 ==> next == Some(drain_order(old(self)@)[0])
                && final(self)@ == old(self)@.remove(next_index(old(self)@))
                && drain_order(old(self)@) == seq![drain_order(old(self)@)[0]] + drain_order(final(self)@),
            match next {
                Some(task) => exists|i: int|
                    #[trigger] is_next_index(old(self)@, i) && task == old(self)@[i]
                        && final(self)@ == old(self)@.remove(i),
                None => old(self)@.len() == 0 && final(self)@ == old(self)@,
            },
    {
        let n = self.queue.len();
        if n == 0 {
            return None;
        }
        let mut best: usize = 0;
        let mut k: usize = 1;
        while k < n
            invariant
                n == self.queue.len(),
                0 <= best < k <= n,
                forall|j: int| 0 <= j < k ==> self.queue@[best as int].priority <= #[trigger] self.queue@[j].priority,
                forall|j: int| 0 <= j < best ==> self.queue@[best as int].priority < #[trigger] self.queue@[j].priority,
            decreases n - k,
        {
            if self.queue[k].priority < self.queue[best].priority {
                best = k;
            }
            k = k + 1;
        }
        let ghost i = best as int;
        let ghost before = self.queue@;
        assert(is_next_index(before, i));
        proof {
            lemma_next_index_unique(before, i, next_index(before));
        }
        let task = self.queue.remove(best);
        assert(is_next_index(old(self)@, i) && task == old(self)@[i] && self@ == old(self)@.remove(i));
        Some(task)
    }

    /// The number of queued tasks.
    pub fn len(&self) -> (count: usize)
        ensures
            count == self@.len(),
    {
        self.queue.len()
    }
}

/// At most one position of a queue is the next one.
pub proof fn lemma_next_index_unique(queue: Seq<Task>, i: int, j: int)
    requires
        is_next_index(queue, i),
    ensures
        is_next_index(queue, j) ==> i == j,
        is_next_index(queue, next_index(queue)),
        next_index(queue) == i,
{
    if is_next_index(queue, j) {
        if i < j {
            assert(queue[j].priority < queue[i].priority);
        } else if j < i {
            assert(queue[i].priority < queue[j].priority);
        }
    }
    let k = next_index(queue);
    if k != i {
        if i < k {
            assert(queue[k].priority < queue[i].priority);
        } else {
            assert(queue[i].priority < queue[k].priority);
        }
    }
}

/// Taking every task one after the other gives each queued task exactly
/// once, in order of urgency (lowest number first); then nothing is left.
pub proof fn lemma_drain_is_sorted_permutation(queue: Seq<Task>)
    ensures
        drain_order(queue).len() == queue.len(),
        drain_order(queue).to_multiset() =~= queue.to_multiset(),
        forall|a: int, b: int|
            0 <= a < b < queue.len() ==> #[trigger] drain_order(queue)[a].priority
                <= #[trigger] drain_order(queue)[b].priority,
    decreases queue.len(),
{
    broadcast use vstd::seq_lib::group_to_multiset_ensures, vstd::multiset::group_multiset_axioms;
    if queue.len() > 0 {
        lemma_next_exists(queue);
        let w = choose|i: int| #[trigger] is_next_index(queue, i);
        lemma_next_index_unique(queue, w, w);
        let i = next_index(queue);
        let rest = queue.remove(i);
        lemma_drain_is_sorted_permutation(rest);
        let d = drain_order(queue);
        let dr = drain_order(rest);
        assert(d == seq![queue[i]] + dr);
        lemma_taking_conserves_tasks(queue, i);
        assert((seq![queue[i]] + dr).to_multiset() =~= dr.to_multiset().insert(queue[i])) by {
            vstd::seq_lib::lemma_multiset_commutative(seq![queue[i]], dr);
            assert((seq![queue[i]] + dr) == (seq![queue[i]] + dr));
            assert(dr.push(queue[i]) =~= dr + seq![queue[i]]);
        }
        assert forall|b: int| 0 <= b < dr.len() implies queue[i].priority <= #[trigger] dr[b].priority by {
            assert(dr.to_multiset().contains(dr[b]));
            assert(rest.to_multiset().contains(dr[b]));
            assert(rest.contains(dr[b]));
            let k = choose|k: int| 0 <= k < rest.len() && rest[k] == dr[b];
            if k < i {
                assert(rest[k] == queue[k]);
            } else {
                assert(rest[k] == queue[k + 1]);
            }
        }
        assert forall|a: int, b: int| 0 <= a < b < queue.len() implies #[trigger] d[a].priority
            <= #[trigger] d[b].priority by {
            if a == 0 {
                assert(d[b] == dr[b - 1]);
            } else {
                assert(d[a] == dr[a - 1]);
                assert(d[b] == dr[b - 1]);
            }
        }
    }
}

/// Tasks leave in order of urgency: the task taken after the next one is
/// never more urgent than it.
pub proof fn lemma_successive_tasks_in_priority_order(queue: Seq<Task>, i: int, j: int)
    requires
        is_next_index(queue, i),
        is_next_index(queue.remove(i), j),
    ensures
        queue[i].priority <= queue.remove(i)[j].priority,
{
    let rest = queue.remove(i);
    if j < i {
        assert(rest[j] == queue[j]);
    } else {
        assert(rest[j] == queue[j + 1]);
    }
}

/// Taking the next task loses no task and duplicates none: the tasks left
/// plus the one taken are the tasks that were queued.
pub proof fn lemma_taking_conserves_tasks(queue: Seq<Task>, i: int)
    requires
        is_next_index(queue, i),
    ensures
        queue.remove(i).to_multiset().insert(queue[i]) =~= queue.to_multiset(),
{
    broadcast use vstd::seq_lib::to_multiset_remove, vstd::multiset::group_multiset_axioms;
    assert(queue.to_multiset().contains(queue[i])) by {
        broadcast use vstd::seq_lib::to_multiset_contains;
        assert(queue.contains(queue[i]));
    }
}

/// Whenever tasks are queued, one of them is next: taking from a non-empty
/// scheduler yields a task.
pub proof fn lemma_next_exists(queue: Seq<Task>)
    requires
        queue.len() > 0,
    ensures
        exists|i: int| #[trigger] is_next_index(queue, i),
    decreases queue.len(),
{
    if queue.len() == 1 {
        assert(is_next_index(queue, 0));
    } else {
        let front = queue.drop_last();
        lemma_next_exists(front);
        let i = choose|i: int| #[trigger] is_next_index(front, i);
        assert forall|j: int| 0 <= j < front.len() implies #[trigger] queue[j] == front[j] by {}
        assert(front[i] == queue[i]);
        if queue.last().priority < front[i].priority {
            assert forall|j: int| 0 <= j < queue.len() implies queue[queue.len() - 1].priority <= #[trigger] queue[j].priority by {
                if j < front.len() {
                    assert(queue[j] == front[j]);
                }
            }
            assert forall|j: int| 0 <= j < queue.len() - 1 implies queue[queue.len() - 1].priority < #[trigger] queue[j].priority by {
                assert(queue[j] == front[j]);
            }
            assert(is_next_index(queue, queue.len() - 1));
        } else {
            assert forall|j: int| 0 <= j < queue.len() implies queue[i].priority <= #[trigger] queue[j].priority by {
                if j < front.len() {
                    assert(queue[j] == front[j]);
                }
            }
            assert forall|j: int| 0 <= j < i implies queue[i].priority < #[trigger] queue[j].priority by {
                assert(queue[j] == front[j]);
            }
            assert(is_next_index(queue, i));
        }
    }
}

/// A task added with a more urgent priority than every queued task is the
/// next one taken, and taking it gives back the queue as it was.
pub proof fn lemma_most_urgent_added_task_runs_next(queue: Seq<Task>, task: Task)
    requires
        forall|j: int| 0 <= j < queue.len() ==> task.priority < #[trigger] queue[j].priority,
    ensures
        is_next_index(queue.push(task), queue.len() as int),
        queue.push(task).remove(queue.len() as int) =~= queue,
{
    let q = queue.push(task);
    assert forall|j: int| 0 <= j < q.len() implies q[queue.len() as int].priority <= #[trigger] q[j].priority by {
        if j < queue.len() {
            assert(q[j] == queue[j]);
        }
    }
    assert forall|j: int| 0 <= j < queue.len() implies q[queue.len() as int].priority < #[trigger] q[j].priority by {
        assert(q[j] == queue[j]);
    }
}

/// Among tasks of equal priority the one added first leaves first: no task
/// queued before the next one has its priority.
pub proof fn lemma_first_added_first_taken(queue: Seq<Task>, i: int, j: int)
    requires
        is_next_index(queue, i),
        0 <= j < queue.len(),
        queue[j].priority == queue[i].priority,
    ensures
        i <= j,
{
}

/// A call on a scheduler, as the laws over sequences of calls speak of it.
pub enum SchedulerCall {
    AddTask(Task),
    GetNextTask,
}

/// The queue after `calls` are made in turn on a scheduler holding `queue`,
/// as `add_task` and `get_next_task` state each step.
pub open spec fn queue_after(queue: Seq<Task>, calls: Seq<SchedulerCall>) -> Seq<Task>
    decreases calls.len(),
{
    if calls.len() == 0 {
        queue
    } else {
        let q = queue_after(queue, calls.drop_last());
        match calls.last() {
            SchedulerCall::AddTask(t) => q.push(t),
            SchedulerCall::GetNextTask => if q.len() > 0 {
                q.remove(next_index(q))
            } else {
                q
            },
        }
    }
}

/// How many of `calls` add a task.
pub open spec fn tasks_added(calls: Seq<SchedulerCall>) -> int
    decreases calls.len(),
{
    if calls.len() == 0 {
        0
    } else {
        tasks_added(calls.drop_last()) + if calls.last() is AddTask {
            1int
        } else {
            0int
        }
    }
}

/// How many of `calls`, made on a scheduler holding `queue`, take a task out
/// (a `get_next_task` that returns `Some`).
pub open spec fn tasks_taken(queue: Seq<Task>, calls: Seq<SchedulerCall>) -> int
    decreases calls.len(),
{
    if calls.len() == 0 {
        0
    } else {
        tasks_taken(queue, calls.drop_last()) + if calls.last() is GetNextTask
            && queue_after(queue, calls.drop_last()).len() > 0 {
            1int
        } else {
            0int
        }
    }
}

/// `len` counts: after any sequence of calls, the scheduler holds the tasks
/// it held, plus those added, minus those taken out.
pub proof fn lemma_len_counts_calls(queue: Seq<Task>, calls: Seq<SchedulerCall>)
    ensures
        queue_after(queue, calls).len() == queue.len() + tasks_added(calls) - tasks_taken(queue, calls),
    decreases calls.len(),
{
    if calls.len() > 0 {
        lemma_len_counts_calls(queue, calls.drop_last());
        let q = queue_after(queue, calls.drop_last());
        if q.len() > 0 {
            lemma_next_exists(q);
            let w = choose|i: int| #[trigger] is_next_index(q, i);
            lemma_next_index_unique(q, w, w);
        }
    }
}

} // verus!
