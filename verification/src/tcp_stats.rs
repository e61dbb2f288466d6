//! Receive-queue statistics of the TCP layer.
//!
//! Each connection reports its receive-queue length through a `StatsHandle`; a poll of
//! the `Stats` table takes the reports into the global length, its rolling average over a
//! short window, and a bucket list that groups the connections by queue length. When the
//! global length is above a threshold, `connections_to_migrate` picks connections out of
//! the buckets until it no longer is.

use crate::tcpmig_stats::Connection;
use arrayvec::ArrayVec;
use std::collections::VecDeque;
use vstd::prelude::*;

verus! {

/// log2 of the number of values the rolling average covers.
pub const ROLLING_AVG_WINDOW_LOG2: usize = 3;

/// The number of values the rolling average covers.
pub const ROLLING_AVG_WINDOW: usize = 8;

/// Sum of the values of `s`.
pub open spec fn seq_sum(s: Seq<usize>) -> int
    decreases s.len(),
{
    if s.len() == 0 {
        0
    } else {
        seq_sum(s.drop_last()) + s.last()
    }
}

/// Summing from the front gives the same sum.
pub proof fn lemma_seq_sum_front(s: Seq<usize>)
    requires
        s.len() > 0,
    ensures
        seq_sum(s) == s[0] + seq_sum(s.drop_first()),
    decreases s.len(),
{
    if s.len() > 1 {
        lemma_seq_sum_front(s.drop_last());
        assert(s.drop_last().drop_first() =~= s.drop_first().drop_last());
        assert(s.drop_first().last() == s.last());
        assert(seq_sum(s.drop_first()) == seq_sum(s.drop_first().drop_last()) + s.drop_first().last());
    } else {
        assert(s.drop_first() =~= Seq::<usize>::empty());
        assert(s.drop_last() =~= Seq::<usize>::empty());
        assert(seq_sum(s) == seq_sum(s.drop_last()) + s.last());
    }
}

/// A sum of values is at least zero.
pub proof fn lemma_seq_sum_nonneg(s: Seq<usize>)
    ensures
        seq_sum(s) >= 0,
    decreases s.len(),
{
    if s.len() > 0 {
        lemma_seq_sum_nonneg(s.drop_last());
    }
}

/// `n` copies of `v` sum to `n * v`.
pub proof fn lemma_seq_sum_repeat(v: usize, n: nat)
    ensures
        seq_sum(Seq::new(n, |i: int| v)) == n * v,
    decreases n,
{
    let s = Seq::new(n, |i: int| v);
    if n > 0 {
        lemma_seq_sum_repeat(v, (n - 1) as nat);
        assert(s.drop_last() =~= Seq::new((n - 1) as nat, |i: int| v));
        assert(seq_sum(s) == seq_sum(s.drop_last()) + s.last());
        assert(n * v == (n - 1) * v + v) by (nonlinear_arith);
    } else {
        assert(seq_sum(s) == 0);
    }
}

/// Sliding `s` by dropping its first value and appending `v`.
pub proof fn lemma_seq_sum_slide(s: Seq<usize>, v: usize)
    requires
        s.len() > 0,
    ensures
        seq_sum(s.drop_first().push(v)) == seq_sum(s) - s[0] + v,
{
    lemma_seq_sum_front(s);
    assert(s.drop_first().push(v).drop_last() =~= s.drop_first());
}

/// Rolling average of the last `ROLLING_AVG_WINDOW` values.
pub struct RollingAverage {
    values: VecDeque<usize>,
    sum: usize,
}

impl RollingAverage {
    /// The window is full and the running sum is its sum.
    pub closed spec fn inv(&self) -> bool {
        &&& self.values@.len() == ROLLING_AVG_WINDOW
        &&& self.sum == seq_sum(self.values@)
    }

    /// The values in the window, oldest first.
    pub closed spec fn window(&self) -> Seq<usize> {
        self.values@
    }

    /// A window of zeros.
    pub fn new() -> (r: RollingAverage)
        ensures
            r.inv(),
            r.window() == Seq::new(ROLLING_AVG_WINDOW as nat, |i: int| 0usize),
    {
        let mut values: VecDeque<usize> = VecDeque::with_capacity(ROLLING_AVG_WINDOW);
        let mut i: usize = 0;
        while i < ROLLING_AVG_WINDOW
            invariant
                i <= ROLLING_AVG_WINDOW,
                values@ == Seq::new(i as nat, |k: int| 0usize),
            decreases ROLLING_AVG_WINDOW - i,
        {
            values.push_back(0);
            i = i + 1;
            assert(values@ =~= Seq::new(i as nat, |k: int| 0usize));
        }
        proof {
            lemma_seq_sum_repeat(0, ROLLING_AVG_WINDOW as nat);
        }
        RollingAverage { values, sum: 0 }
    }

    /// Slides the window: drops the oldest value and takes `value`.
    pub fn update(&mut self, value: usize)
        requires
            old(self).inv(),
            seq_sum(old(self).window()) - old(self).window()[0] + value <= usize::MAX,
        ensures
            final(self).inv(),
            final(self).window() == old(self).window().drop_first().push(value),
    {
        proof {
            lemma_seq_sum_slide(self.values@, value);
            lemma_seq_sum_front(self.values@);
            lemma_seq_sum_nonneg(self.values@.drop_first());
        }
        let oldest = self.values.pop_front().unwrap();
        self.sum = self.sum - oldest;
        self.sum = self.sum + value;
        self.values.push_back(value);
    }

    /// The average of the window, rounded down.
    pub fn get(&self) -> (avg: usize)
        requires
            self.inv(),
        ensures
            avg == seq_sum(self.window()) / ROLLING_AVG_WINDOW as int,
    {
        proof {
            vstd::bits::lemma_usize_shr_is_div(self.sum, ROLLING_AVG_WINDOW_LOG2);
            vstd::arithmetic::power2::lemma2_to64();
        }
        self.sum >> ROLLING_AVG_WINDOW_LOG2
    }

    /// Sets every value of the window to `value`.
    pub fn force_set(&mut self, value: usize)
        requires
            value * ROLLING_AVG_WINDOW <= usize::MAX,
        ensures
            final(self).inv(),
            final(self).window() == Seq::new(ROLLING_AVG_WINDOW as nat, |i: int| value),
    {
        let mut values: VecDeque<usize> = VecDeque::with_capacity(ROLLING_AVG_WINDOW);
        let mut i: usize = 0;
        while i < ROLLING_AVG_WINDOW
            invariant
                i <= ROLLING_AVG_WINDOW,
                values@ == Seq::new(i as nat, |k: int| value),
            decreases ROLLING_AVG_WINDOW - i,
        {
            values.push_back(value);
            i = i + 1;
            assert(values@ =~= Seq::new(i as nat, |k: int| value));
        }
        proof {
            lemma_seq_sum_repeat(value, ROLLING_AVG_WINDOW as nat);
        }
        proof {
            vstd::arithmetic::power2::lemma2_to64();
            vstd::bits::lemma_usize_shl_is_mul(value, ROLLING_AVG_WINDOW_LOG2);
        }
        *self = RollingAverage { values, sum: value << ROLLING_AVG_WINDOW_LOG2 };
    }
}

/// Tracking status of a connection's receive-queue length.
#[derive(Debug, Clone, Copy)]
pub enum Stat {
    Disabled,
    Enabled(usize),
    MarkedForDisable(usize),
}

impl Default for Stat {
    fn default() -> (s: Stat)
        ensures
            s is Disabled,
    {
        Stat::Disabled
    }
}

impl Stat {
    /// The tracked length of an enabled stat.
    pub fn expect_enabled(self, msg: &str) -> (val: usize)
        requires
            self is Enabled,
        ensures
            self == Stat::Enabled(val),
    {
        match self {
            Stat::Enabled(val) => val,
            _ => {
                assert(false);
                0
            },
        }
    }
}

/// The most connections `connections_to_migrate` takes out at once.
pub const MAX_EXTRACTED_CONNECTIONS: usize = 20;

/// A vector of at most `CAP` items stored inline.
#[verifier::external_type_specification]
#[verifier::external_body]
#[verifier::reject_recursive_types(T)]
pub struct ExArrayVec<T, const CAP: usize>(ArrayVec<T, CAP>);

/// The connections held by `v`, in order.
pub uninterp spec fn extracted_items(v: ArrayVec<Connection, 20>) -> Seq<Connection>;

/// `ArrayVec::new`: an empty vector.
#[verifier::external_body]
fn extracted_new() -> (v: ArrayVec<Connection, 20>)
    ensures
        extracted_items(v) == Seq::<Connection>::empty(),
{
    ArrayVec::new()
}

/// `ArrayVec::push`, which panics on a full vector: appends `c`.
#[verifier::external_body]
fn extracted_push(v: &mut ArrayVec<Connection, 20>, c: Connection)
    requires
        extracted_items(*old(v)).len() < 20,
    ensures
        extracted_items(*final(v)) == extracted_items(*old(v)).push(c),
{
    v.push(c)
}

/// `ArrayVec::remaining_capacity`: the capacity minus the length.
#[verifier::external_body]
fn extracted_remaining_capacity(v: &ArrayVec<Connection, 20>) -> (n: usize)
    ensures
        n + extracted_items(*v).len() == 20,
{
    v.remaining_capacity()
}

/// log2 of the number of queue lengths per bucket of the bucket list.
pub const BUCKET_SIZE_LOG2: usize = 3;

/// The tracked queue length of a stat; zero for a disabled one.
pub open spec fn stat_len(s: Stat) -> usize {
    match s {
        Stat::Disabled => 0,
        Stat::Enabled(l) => l,
        Stat::MarkedForDisable(l) => l,
    }
}

/// The bucket of a queue length: queue lengths `8 * b` to `8 * b + 7` go to bucket `b`.
pub open spec fn bucket_of_len(len: usize) -> int {
    len as int / 8
}

/// `bs` with empty buckets appended so that bucket `index` exists.
pub open spec fn grown(bs: Seq<Seq<usize>>, index: int) -> Seq<Seq<usize>> {
    if index < bs.len() {
        bs
    } else {
        bs + Seq::new((index + 1 - bs.len()) as nat, |i: int| Seq::<usize>::empty())
    }
}

/// What the table keeps for one handle.
#[derive(Clone, Copy)]
struct StatRecord {
    conn: Connection,
    queue_len: Stat,
    queue_len_to_update: Option<usize>,
    bucket_list_position: Option<(usize, usize)>,
    handles_index: Option<usize>,
}

/// Handle through which a connection reports its receive-queue length to a `Stats`
/// table: the number of its entry there.
#[derive(Clone, Copy)]
pub struct StatsHandle {
    id: usize,
}

/// Receive-queue statistics of the TCP layer: the global receive-queue length, its
/// rolling average, the handles polled, and the polled connections grouped in buckets by
/// their own queue length.
pub struct Stats {
    global_recv_queue_length: usize,
    avg_global_recv_queue_length: RollingAverage,
    buckets: Vec<Vec<usize>>,
    handles: Vec<usize>,
    records: Vec<StatRecord>,
    threshold: usize,
    max_migrations: Option<i32>,
}

/// Every polled handle exists and is enabled or marked; an enabled one knows its index
/// in the polled list; no handle is polled twice.
spec fn handles_ok(recs: Seq<StatRecord>, h: Seq<usize>) -> bool {
    &&& forall|j: int|
        0 <= j < h.len() ==> {
            &&& #[trigger] h[j] < recs.len()
            &&& !(recs[h[j] as int].queue_len is Disabled)
            &&& recs[h[j] as int].queue_len is Enabled ==> (recs[h[j] as int].handles_index matches Some(hj) && hj == j)
        }
    &&& forall|j: int, k: int| 0 <= j < k < h.len() ==> #[trigger] h[j] != #[trigger] h[k]
}

/// Every bucket entry is a polled handle that knows its position, and every polled handle
/// that has a position is found there.
spec fn layout_ok(recs: Seq<StatRecord>, b: Seq<Vec<usize>>, h: Seq<usize>) -> bool {
    &&& forall|x: int, i: int|
        0 <= x < b.len() && 0 <= i < b[x]@.len() ==> {
            let id = #[trigger] b[x]@[i];
            &&& h.contains(id)
            &&& id < recs.len()
            &&& recs[id as int].bucket_list_position matches Some((px, pi)) && px == x && pi == i
        }
    &&& forall|j: int|
        0 <= j < h.len() ==> #[trigger] h[j] < recs.len() && match recs[h[j] as int].bucket_list_position {
            Some((x, i)) => x < b.len() && i < b[x as int]@.len() && b[x as int]@[i as int] == h[j],
            None => true,
        }
}

/// The polled handles other than `skip` are in the bucket of their length, or in no
/// bucket when their length is zero.
spec fn lens_ok_except(recs: Seq<StatRecord>, h: Seq<usize>, skip: int) -> bool {
    forall|j: int|
        0 <= j < h.len() && h[j] != skip ==> {
            let r = #[trigger] recs[h[j] as int];
            match r.bucket_list_position {
                Some((x, _)) => stat_len(r.queue_len) > 0 && x as int == bucket_of_len(stat_len(r.queue_len)),
                None => stat_len(r.queue_len) == 0,
            }
        }
}

/// The sum of the tracked lengths of the handles `ids` of `s`.
pub open spec fn stat_sum(s: Stats, ids: Seq<usize>) -> int
    decreases ids.len(),
{
    if ids.len() == 0 {
        0
    } else {
        stat_sum(s, ids.drop_last()) + stat_len(s.stat_of(ids.last()))
    }
}

/// `a` and `b` agree on handle `id`.
pub open spec fn same_handle(a: Stats, b: Stats, id: usize) -> bool {
    &&& a.conn_of(id) == b.conn_of(id)
    &&& a.stat_of(id) == b.stat_of(id)
    &&& a.pending_of(id) == b.pending_of(id)
    &&& a.bucket_position(id) == b.bucket_position(id)
}

/// `a` and `b` agree on everything but their handles.
pub open spec fn same_tables(a: Stats, b: Stats) -> bool {
    &&& a.polled() == b.polled()
    &&& a.bucket_seqs() == b.bucket_seqs()
    &&& a.global() == b.global()
    &&& a.avg_window() == b.avg_window()
    &&& a.threshold() == b.threshold()
    &&& a.max_migrations() == b.max_migrations()
}

impl StatsHandle {
    /// The number of the handle's entry.
    pub closed spec fn id(&self) -> usize {
        self.id
    }
}

impl Stats {
    /// The table is consistent: see `lemma_buckets_follow_lengths` and
    /// `lemma_global_is_sum` for what it implies.
    pub closed spec fn wf(&self) -> bool {
        &&& self.avg_global_recv_queue_length.inv()
        &&& handles_ok(self.records@, self.handles@)
        &&& layout_ok(self.records@, self.buckets@, self.handles@)
        &&& lens_ok_except(self.records@, self.handles@, -1)
        &&& self.global_recv_queue_length == stat_sum(*self, self.handles@)
    }

    /// The number of handles made for this table.
    pub closed spec fn handle_count(&self) -> nat {
        self.records@.len()
    }

    /// The connection of handle `id`.
    pub closed spec fn conn_of(&self, id: usize) -> Connection {
        self.records@[id as int].conn
    }

    /// The tracking status of handle `id`.
    pub closed spec fn stat_of(&self, id: usize) -> Stat {
        self.records@[id as int].queue_len
    }

    /// The queue length reported through handle `id` since the last poll.
    pub closed spec fn pending_of(&self, id: usize) -> Option<usize> {
        self.records@[id as int].queue_len_to_update
    }

    /// Where handle `id` was last put in the bucket list (bucket, index in the bucket).
    pub closed spec fn bucket_position(&self, id: usize) -> Option<(usize, usize)> {
        self.records@[id as int].bucket_list_position
    }

    /// The handles polled, in the order they are polled.
    pub closed spec fn polled(&self) -> Seq<usize> {
        self.handles@
    }

    /// The handles in each bucket, in order.
    pub closed spec fn bucket_seqs(&self) -> Seq<Seq<usize>> {
        self.buckets@.map_values(|v: Vec<usize>| v@)
    }

    /// The global receive-queue length.
    pub closed spec fn global(&self) -> usize {
        self.global_recv_queue_length
    }

    /// The last `ROLLING_AVG_WINDOW` global receive-queue lengths, oldest first.
    pub closed spec fn avg_window(&self) -> Seq<usize> {
        self.avg_global_recv_queue_length.window()
    }

    /// The global receive-queue length above which connections are migrated.
    pub closed spec fn threshold(&self) -> usize {
        self.threshold
    }

    /// How many more connections may be migrated, when limited.
    pub closed spec fn max_migrations(&self) -> Option<i32> {
        self.max_migrations
    }

    /// An empty table with migration threshold `threshold` and, when given, a limit on
    /// the number of connections migrated.
    pub fn new(threshold: usize, max_migrations: Option<i32>) -> (s: Stats)
        ensures
            s.wf(),
            s.handle_count() == 0,
            s.polled() == Seq::<usize>::empty(),
            s.bucket_seqs() == Seq::<Seq<usize>>::empty(),
            s.global() == 0,
            s.avg_window() == Seq::new(ROLLING_AVG_WINDOW as nat, |i: int| 0usize),
            s.threshold() == threshold,
            s.max_migrations() == max_migrations,
    {
        let s = Stats {
            global_recv_queue_length: 0,
            avg_global_recv_queue_length: RollingAverage::new(),
            buckets: Vec::new(),
            handles: Vec::new(),
            records: Vec::new(),
            threshold,
            max_migrations,
        };
        assert(s.bucket_seqs() =~= Seq::<Seq<usize>>::empty());
        s
    }

    /// The global receive-queue length.
    pub fn global_recv_queue_length(&self) -> (n: usize)
        ensures
            n == self.global(),
    {
        self.global_recv_queue_length
    }
}

/// `r1` and `r2` differ at most in their bucket position.
spec fn same_but_position(r1: StatRecord, r2: StatRecord) -> bool {
    &&& r1.conn == r2.conn
    &&& r1.queue_len == r2.queue_len
    &&& r1.queue_len_to_update == r2.queue_len_to_update
    &&& r1.handles_index == r2.handles_index
}

/// `p1` and `p2` are both absent, or both in the same bucket.
spec fn same_bucket(p1: Option<(usize, usize)>, p2: Option<(usize, usize)>) -> bool {
    match p1 {
        Some((x, _)) => p2 matches Some((y, _)) && x == y,
        None => p2 is None,
    }
}

/// The sum only depends on the lengths of the handles summed.
proof fn lemma_stat_sum_frame(a: Stats, b: Stats, ids: Seq<usize>)
    requires
        forall|t: int| 0 <= t < ids.len() ==> stat_len(#[trigger] a.stat_of(ids[t])) == stat_len(b.stat_of(ids[t])),
    ensures
        stat_sum(a, ids) == stat_sum(b, ids),
    decreases ids.len(),
{
    if ids.len() > 0 {
        let t = ids.drop_last();
        assert forall|k: int| 0 <= k < t.len() implies stat_len(#[trigger] a.stat_of(t[k])) == stat_len(b.stat_of(t[k])) by {
            assert(t[k] == ids[k]);
        }
        lemma_stat_sum_frame(a, b, t);
        assert(stat_len(a.stat_of(ids[ids.len() - 1])) == stat_len(b.stat_of(ids[ids.len() - 1])));
    }
}

/// Replacing the handle at index `i` changes the sum by the difference of their lengths.
proof fn lemma_stat_sum_update(s: Stats, ids: Seq<usize>, i: int, v: usize)
    requires
        0 <= i < ids.len(),
    ensures
        stat_sum(s, ids.update(i, v)) == stat_sum(s, ids) - stat_len(s.stat_of(ids[i])) + stat_len(s.stat_of(v)),
    decreases ids.len(),
{
    let u = ids.update(i, v);
    if i == ids.len() - 1 {
        assert(u.drop_last() =~= ids.drop_last());
    } else {
        lemma_stat_sum_update(s, ids.drop_last(), i, v);
        assert(u.drop_last() =~= ids.drop_last().update(i, v));
    }
}

/// Removing the handle at index `i` by moving the last one into its place lowers the sum
/// by its length.
proof fn lemma_stat_sum_swap_remove(s: Stats, ids: Seq<usize>, i: int)
    requires
        0 <= i < ids.len(),
    ensures
        stat_sum(s, ids.update(i, ids.last()).drop_last()) == stat_sum(s, ids) - stat_len(s.stat_of(ids[i])),
{
    let last = ids.len() - 1;
    lemma_stat_sum_update(s, ids, i, ids.last());
    let u = ids.update(i, ids.last());
    assert(u.last() == ids.last());
    assert(stat_sum(s, u) == stat_sum(s, u.drop_last()) + stat_len(s.stat_of(u.last())));
}

/// The sum of lengths is not negative.
proof fn lemma_stat_sum_nonneg(s: Stats, ids: Seq<usize>)
    ensures
        stat_sum(s, ids) >= 0,
    decreases ids.len(),
{
    if ids.len() > 0 {
        lemma_stat_sum_nonneg(s, ids.drop_last());
    }
}

/// A handle summed contributes at most the sum.
proof fn lemma_stat_sum_member(s: Stats, ids: Seq<usize>, i: int)
    requires
        0 <= i < ids.len(),
    ensures
        stat_len(s.stat_of(ids[i])) <= stat_sum(s, ids),
{
    lemma_stat_sum_swap_remove(s, ids, i);
    lemma_stat_sum_nonneg(s, ids.update(i, ids.last()).drop_last());
}

impl Stats {
    /// The global receive-queue length is the sum of the lengths of the polled handles.
    pub proof fn lemma_global_is_sum(&self)
        requires
            self.wf(),
        ensures
            self.global() == stat_sum(*self, self.polled()),
    {
    }

    /// A polled handle with a non-empty queue sits in the bucket of its length, at its
    /// recorded position; one with an empty queue is in no bucket; every handle in a
    /// bucket is polled and sits at its recorded position.
    pub proof fn lemma_buckets_follow_lengths(&self)
        requires
            self.wf(),
        ensures
            forall|j: int|
                0 <= j < self.polled().len() ==> {
                    let id = #[trigger] self.polled()[j];
                    let len = stat_len(self.stat_of(id));
                    &&& id < self.handle_count()
                    &&& !(self.stat_of(id) is Disabled)
                    &&& (len > 0 <==> self.bucket_position(id) is Some)
                    &&& self.bucket_position(id) matches Some((x, i)) ==> {
                        &&& x as int == bucket_of_len(len)
                        &&& x < self.bucket_seqs().len()
                        &&& i < self.bucket_seqs()[x as int].len()
                        &&& self.bucket_seqs()[x as int][i as int] == id
                    }
                },
            forall|x: int, i: int|
                0 <= x < self.bucket_seqs().len() && 0 <= i < self.bucket_seqs()[x].len() ==> {
                    let id = #[trigger] self.bucket_seqs()[x][i];
                    &&& self.polled().contains(id)
                    &&& self.bucket_position(id) matches Some((px, pi)) && px == x && pi == i
                },
            forall|j: int, k: int| 0 <= j < k < self.polled().len() ==> #[trigger] self.polled()[j] != #[trigger] self.polled()[k],
    {
        assert forall|x: int, i: int|
            0 <= x < self.bucket_seqs().len() && 0 <= i < self.bucket_seqs()[x].len() implies {
                let id = #[trigger] self.bucket_seqs()[x][i];
                &&& self.polled().contains(id)
                &&& self.bucket_position(id) matches Some((px, pi)) && px == x && pi == i
            } by {
            assert(self.bucket_seqs()[x][i] == self.buckets@[x]@[i]);
        }
    }

    /// Appends empty buckets until bucket `index` exists.
    fn get_bucket_mut(&mut self, index: usize)
        requires
            layout_ok(old(self).records@, old(self).buckets@, old(self).handles@),
        ensures
            layout_ok(final(self).records@, final(self).buckets@, final(self).handles@),
            final(self).bucket_seqs() == grown(old(self).bucket_seqs(), index as int),
            index < final(self).buckets@.len(),
            final(self).records@ == old(self).records@,
            final(self).handles@ == old(self).handles@,
            final(self).global_recv_queue_length == old(self).global_recv_queue_length,
            final(self).avg_global_recv_queue_length == old(self).avg_global_recv_queue_length,
            final(self).threshold == old(self).threshold,
            final(self).max_migrations == old(self).max_migrations,
    {
        let ghost target = grown(old(self).bucket_seqs(), index as int);
        assert(old(self).bucket_seqs().len() == old(self).buckets@.len());
        assert forall|x: int| 0 <= x < old(self).buckets@.len() implies #[trigger] old(self).buckets@[x]@ == target[x] by {
            assert(old(self).bucket_seqs()[x] == old(self).buckets@[x]@);
        }
        while self.buckets.len() <= index
            invariant
                layout_ok(self.records@, self.buckets@, self.handles@),
                self.records@ == old(self).records@,
                self.handles@ == old(self).handles@,
                self.global_recv_queue_length == old(self).global_recv_queue_length,
                self.avg_global_recv_queue_length == old(self).avg_global_recv_queue_length,
                self.threshold == old(self).threshold,
                self.max_migrations == old(self).max_migrations,
                old(self).buckets@.len() <= self.buckets@.len(),
                self.buckets@.len() <= target.len(),
                target == grown(old(self).bucket_seqs(), index as int),
                old(self).bucket_seqs().len() == old(self).buckets@.len(),
                forall|x: int| 0 <= x < self.buckets@.len() ==> #[trigger] self.buckets@[x]@ == target[x],
            decreases index + 1 - self.buckets@.len(),
        {
            assert(target.len() == index + 1);
            self.buckets.push(Vec::new());
            assert(self.buckets@[self.buckets@.len() - 1]@ =~= target[self.buckets@.len() - 1]);
        }
        assert(self.bucket_seqs() =~= target);
    }

    /// Appends polled handle `id`, which is in no bucket, to bucket `index`.
    fn push_into_bucket(&mut self, index: usize, id: usize)
        requires
            layout_ok(old(self).records@, old(self).buckets@, old(self).handles@),
            old(self).handles@.contains(id),
            id < old(self).records@.len(),
            old(self).records@[id as int].bucket_list_position is None,
        ensures
            layout_ok(final(self).records@, final(self).buckets@, final(self).handles@),
            ({
                let g = grown(old(self).bucket_seqs(), index as int);
                &&& final(self).bucket_seqs() == g.update(index as int, g[index as int].push(id))
                &&& final(self).records@ == old(self).records@.update(
                    id as int,
                    StatRecord {
                        bucket_list_position: Some((index, g[index as int].len() as usize)),
                        ..old(self).records@[id as int]
                    },
                )
            }),
            final(self).handles@ == old(self).handles@,
            final(self).global_recv_queue_length == old(self).global_recv_queue_length,
            final(self).avg_global_recv_queue_length == old(self).avg_global_recv_queue_length,
            final(self).threshold == old(self).threshold,
            final(self).max_migrations == old(self).max_migrations,
    {
        self.get_bucket_mut(index);
        let ghost mid = *self;
        let sub_index = self.buckets[index].len();
        let mut r = self.records[id];
        r.bucket_list_position = Some((index, sub_index));
        self.records.set(id, r);
        self.buckets[index].push(id);
        proof {
            let b0 = mid.buckets@;
            let b1 = self.buckets@;
            let recs0 = mid.records@;
            let recs1 = self.records@;
            let h = self.handles@;
            assert(b1.len() == b0.len());
            assert forall|x: int, i: int| 0 <= x < b1.len() && 0 <= i < b1[x]@.len() implies {
                let e = #[trigger] b1[x]@[i];
                &&& h.contains(e)
                &&& e < recs1.len()
                &&& recs1[e as int].bucket_list_position matches Some((px, pi)) && px == x && pi == i
            } by {
                if x == index && i == sub_index {
                } else {
                    assert(b1[x]@[i] == b0[x]@[i]);
                    let e = b0[x]@[i];
                    assert(recs0[e as int].bucket_list_position matches Some((px, pi)) && px == x && pi == i);
                    assert(e != id);
                }
            }
            assert forall|j: int| 0 <= j < h.len() implies #[trigger] h[j] < recs1.len() && match recs1[h[j] as int].bucket_list_position {
                Some((x, i)) => x < b1.len() && i < b1[x as int]@.len() && b1[x as int]@[i as int] == h[j],
                None => true,
            } by {
                if h[j] != id {
                    assert(recs1[h[j] as int] == recs0[h[j] as int]);
                    match recs0[h[j] as int].bucket_list_position {
                        Some((x, i)) => {
                            assert(b0[x as int]@[i as int] == h[j]);
                            assert(b1[x as int]@[i as int] == b0[x as int]@[i as int]);
                        },
                        None => {},
                    }
                }
            }
            let g = grown(old(self).bucket_seqs(), index as int);
            assert(self.bucket_seqs() =~= g.update(index as int, g[index as int].push(id)));
        }
    }

    /// Takes the handle at `position` out of the bucket list, moving the bucket's last
    /// handle into its place; returns it.
    fn bucket_remove(&mut self, position: (usize, usize)) -> (removed: usize)
        requires
            layout_ok(old(self).records@, old(self).buckets@, old(self).handles@),
            position.0 < old(self).buckets@.len(),
            position.1 < old(self).buckets@[position.0 as int]@.len(),
        ensures
            layout_ok(final(self).records@, final(self).buckets@, final(self).handles@),
            removed == old(self).bucket_seqs()[position.0 as int][position.1 as int],
            removed < old(self).records@.len(),
            final(self).records@.len() == old(self).records@.len(),
            final(self).records@[removed as int].bucket_list_position is None,
            forall|k: usize|
                k < old(self).records@.len() && !old(self).handles@.contains(k) ==> #[trigger] final(self).records@[k as int]
                    == old(self).records@[k as int],
            forall|k: int|
                0 <= k < old(self).records@.len() ==> same_but_position(
                    #[trigger] final(self).records@[k],
                    old(self).records@[k],
                ),
            forall|k: int|
                0 <= k < old(self).records@.len() && k != removed ==> same_bucket(
                    #[trigger] final(self).records@[k].bucket_list_position,
                    old(self).records@[k].bucket_list_position,
                ),
            ({
                let bs = old(self).bucket_seqs()[position.0 as int];
                final(self).bucket_seqs() == old(self).bucket_seqs().update(
                    position.0 as int,
                    bs.update(position.1 as int, bs.last()).drop_last(),
                )
            }),
            final(self).handles@ == old(self).handles@,
            final(self).global_recv_queue_length == old(self).global_recv_queue_length,
            final(self).avg_global_recv_queue_length == old(self).avg_global_recv_queue_length,
            final(self).threshold == old(self).threshold,
            final(self).max_migrations == old(self).max_migrations,
    {
        let (index, sub_index) = position;
        let ghost b0 = self.buckets@;
        let ghost recs0 = self.records@;
        let ghost last = b0[index as int]@.len() - 1;
        let ghost moved_id = b0[index as int]@[last];
        assert(self.bucket_seqs()[index as int] == b0[index as int]@);
        let removed = self.buckets[index].swap_remove(sub_index);
        let mut r = self.records[removed];
        r.bucket_list_position = None;
        self.records.set(removed, r);
        if sub_index < self.buckets[index].len() {
            let moved = self.buckets[index][sub_index];
            assert(moved == moved_id);
            let mut m = self.records[moved];
            m.bucket_list_position = Some((index, sub_index));
            self.records.set(moved, m);
        }
        proof {
            let b1 = self.buckets@;
            let recs1 = self.records@;
            let h = self.handles@;
            let moves = sub_index < b1[index as int]@.len();
            assert(b1.len() == b0.len());
            assert(recs0[removed as int].bucket_list_position == Some((index, sub_index)));
            if moves {
                assert(recs0[moved_id as int].bucket_list_position == Some((index, last as usize)));
                assert(moved_id != removed);
            }
            assert forall|x: int, i: int| 0 <= x < b1.len() && 0 <= i < b1[x]@.len() implies {
                let e = #[trigger] b1[x]@[i];
                &&& h.contains(e)
                &&& e < recs1.len()
                &&& recs1[e as int].bucket_list_position matches Some((px, pi)) && px == x && pi == i
            } by {
                if x == index && i == sub_index {
                    assert(b1[x]@[i] == moved_id);
                } else if x == index {
                    assert(b1[x]@[i] == b0[x]@[i]);
                    let e = b0[x]@[i];
                    assert(recs0[e as int].bucket_list_position matches Some((px, pi)) && px == x && pi == i);
                    assert(e != removed);
                    assert(e != moved_id);
                } else {
                    assert(b1[x]@[i] == b0[x]@[i]);
                    let e = b0[x]@[i];
                    assert(recs0[e as int].bucket_list_position matches Some((px, pi)) && px == x && pi == i);
                    assert(e != removed);
                    if moves {
                        assert(e != moved_id);
                    }
                }
            }
            assert forall|j: int| 0 <= j < h.len() implies #[trigger] h[j] < recs1.len() && match recs1[h[j] as int].bucket_list_position {
                Some((x, i)) => x < b1.len() && i < b1[x as int]@.len() && b1[x as int]@[i as int] == h[j],
                None => true,
            } by {
                let e = h[j];
                if e == removed {
                } else if moves && e == moved_id {
                } else {
                    assert(recs1[e as int] == recs0[e as int]);
                    match recs0[e as int].bucket_list_position {
                        Some((x, i)) => {
                            assert(b0[x as int]@[i as int] == e);
                            if x == index {
                                assert(i != sub_index);
                                assert(i != last);
                            }
                            assert(b1[x as int]@[i as int] == b0[x as int]@[i as int]);
                        },
                        None => {},
                    }
                }
            }
            let bs = old(self).bucket_seqs()[index as int];
            assert(self.bucket_seqs() =~= old(self).bucket_seqs().update(index as int, bs.update(sub_index as int, bs.last()).drop_last()));
        }
        removed
    }
}

impl StatsHandle {
    /// A disabled handle for connection `conn`, added to `stats`.
    pub fn new(stats: &mut Stats, conn: Connection) -> (h: StatsHandle)
        requires
            old(stats).wf(),
        ensures
            final(stats).wf(),
            h.id() == old(stats).handle_count(),
            final(stats).handle_count() == old(stats).handle_count() + 1,
            final(stats).conn_of(h.id()) == conn,
            final(stats).stat_of(h.id()) is Disabled,
            final(stats).pending_of(h.id()) is None,
            final(stats).bucket_position(h.id()) is None,
            forall|id: usize| id < old(stats).handle_count() ==> same_handle(*old(stats), *final(stats), id),
            same_tables(*old(stats), *final(stats)),
    {
        let id = stats.records.len();
        stats.records.push(
            StatRecord {
                conn,
                queue_len: Stat::Disabled,
                queue_len_to_update: None,
                bucket_list_position: None,
                handles_index: None,
            },
        );
        proof {
            let h = stats.handles@;
            assert forall|t: int| 0 <= t < h.len() implies stat_len(#[trigger] stats.stat_of(h[t])) == stat_len(old(stats).stat_of(h[t])) by {
                assert(h[t] < old(stats).records@.len());
            }
            lemma_stat_sum_frame(*stats, *old(stats), h);
        }
        StatsHandle { id }
    }

    /// Reports queue length `val`; it is taken at the next poll. Ignored unless the
    /// handle is enabled.
    pub fn set(&self, stats: &mut Stats, val: usize)
        requires
            old(stats).wf(),
            self.id() < old(stats).handle_count(),
        ensures
            final(stats).wf(),
            final(stats).handle_count() == old(stats).handle_count(),
            final(stats).pending_of(self.id()) == if old(stats).stat_of(self.id()) is Enabled {
                Some(val)
            } else {
                old(stats).pending_of(self.id())
            },
            final(stats).conn_of(self.id()) == old(stats).conn_of(self.id()),
            final(stats).stat_of(self.id()) == old(stats).stat_of(self.id()),
            final(stats).bucket_position(self.id()) == old(stats).bucket_position(self.id()),
            forall|id: usize| id < old(stats).handle_count() && id != self.id() ==> same_handle(*old(stats), *final(stats), id),
            same_tables(*old(stats), *final(stats)),
    {
        let id = self.id;
        match stats.records[id].queue_len {
            Stat::Enabled(..) => {
                let mut r = stats.records[id];
                r.queue_len_to_update = Some(val);
                stats.records.set(id, r);
                proof {
                    let h = stats.handles@;
                    assert forall|t: int| 0 <= t < h.len() implies stat_len(#[trigger] stats.stat_of(h[t])) == stat_len(old(stats).stat_of(h[t])) by {
                        assert(h[t] < old(stats).records@.len());
                    }
                    lemma_stat_sum_frame(*stats, *old(stats), h);
                }
            },
            _ => {},
        }
    }

    /// Starts polling the handle with queue length `initial_val`: it joins the polled
    /// handles, the bucket of its length when that is not zero, and the global length.
    pub fn enable(&self, stats: &mut Stats, initial_val: usize)
        requires
            old(stats).wf(),
            self.id() < old(stats).handle_count(),
            !old(stats).polled().contains(self.id()),
            initial_val > 0 || old(stats).bucket_position(self.id()) is None,
            old(stats).global() + initial_val <= usize::MAX,
        ensures
            final(stats).wf(),
            final(stats).handle_count() == old(stats).handle_count(),
            final(stats).stat_of(self.id()) == Stat::Enabled(initial_val),
            final(stats).conn_of(self.id()) == old(stats).conn_of(self.id()),
            final(stats).pending_of(self.id()) == old(stats).pending_of(self.id()),
            final(stats).polled() == old(stats).polled().push(self.id()),
            final(stats).global() == old(stats).global() + initial_val,
            ({
                let g = grown(old(stats).bucket_seqs(), bucket_of_len(initial_val));
                let b = bucket_of_len(initial_val);
                if initial_val > 0 {
                    &&& final(stats).bucket_seqs() == g.update(b, g[b].push(self.id()))
                    &&& final(stats).bucket_position(self.id()) == Some((b as usize, g[b].len() as usize))
                } else {
                    &&& final(stats).bucket_seqs() == old(stats).bucket_seqs()
                    &&& final(stats).bucket_position(self.id()) is None
                }
            }),
            forall|id: usize| id < old(stats).handle_count() && id != self.id() ==> same_handle(*old(stats), *final(stats), id),
            final(stats).avg_window() == old(stats).avg_window(),
            final(stats).threshold() == old(stats).threshold(),
            final(stats).max_migrations() == old(stats).max_migrations(),
    {
        let id = self.id;
        let ghost s0 = *stats;
        let mut r = stats.records[id];
        r.queue_len = Stat::Enabled(initial_val);
        r.handles_index = Some(stats.handles.len());
        if initial_val > 0 {
            r.bucket_list_position = None;
        }
        stats.records.set(id, r);
        stats.handles.push(id);
        proof {
            let h0 = s0.handles@;
            let h1 = stats.handles@;
            assert(h1 == h0.push(id));
            assert forall|t: int| 0 <= t < h0.len() implies stat_len(#[trigger] stats.stat_of(h0[t])) == stat_len(s0.stat_of(h0[t])) by {
                assert(h0[t] != id);
            }
            lemma_stat_sum_frame(*stats, s0, h0);
            assert(h1.drop_last() =~= h0);
            assert(h1.contains(id)) by {
                assert(h1[h0.len() as int] == id);
            }
            // The layout still holds: the handle was in no bucket, or is moved out of its
            // stale position before being put in one.
            assert forall|x: int, i: int|
                0 <= x < stats.buckets@.len() && 0 <= i < stats.buckets@[x]@.len() implies {
                    let e = #[trigger] stats.buckets@[x]@[i];
                    &&& h1.contains(e)
                    &&& e < stats.records@.len()
                    &&& stats.records@[e as int].bucket_list_position matches Some((px, pi)) && px == x && pi == i
                } by {
                let e = stats.buckets@[x]@[i];
                assert(h0.contains(e));
                assert(e != id);
                let k = choose|k: int| 0 <= k < h0.len() && h0[k] == e;
                assert(h1[k] == e);
            }
            assert forall|j: int| 0 <= j < h1.len() implies #[trigger] h1[j] < stats.records@.len() && match stats.records@[h1[j] as int].bucket_list_position {
                Some((x, i)) => x < stats.buckets@.len() && i < stats.buckets@[x as int]@.len() && stats.buckets@[x as int]@[i as int] == h1[j],
                None => true,
            } by {
                if j < h0.len() {
                    assert(h1[j] == h0[j]);
                    assert(h0[j] < s0.records@.len());
                }
            }
        }
        if initial_val > 0 {
            stats.push_into_bucket(initial_val >> BUCKET_SIZE_LOG2, id);
        }
        stats.global_recv_queue_length = stats.global_recv_queue_length + initial_val;
        proof {
            let h1 = stats.handles@;
            assert((initial_val >> BUCKET_SIZE_LOG2) == initial_val / 8) by (bit_vector);
            assert forall|j: int, k: int| 0 <= j < k < h1.len() implies #[trigger] h1[j] != #[trigger] h1[k] by {
                if k == h1.len() - 1 {
                    assert(s0.handles@.contains(h1[j]));
                }
            }
            assert(handles_ok(stats.records@, h1));
            assert(layout_ok(stats.records@, stats.buckets@, h1));
            assert(lens_ok_except(stats.records@, h1, -1));
            let h0 = s0.handles@;
            assert forall|t: int| 0 <= t < h0.len() implies stat_len(#[trigger] stats.stat_of(h0[t])) == stat_len(s0.stat_of(h0[t])) by {
                assert(h0[t] != id);
                assert(h0[t] < s0.records@.len());
            }
            lemma_stat_sum_frame(*stats, s0, h0);
            assert(h1.drop_last() =~= h0);
            assert(stat_sum(*stats, h1) == stat_sum(*stats, h1.drop_last()) + stat_len(stats.stat_of(h1.last())));
            assert(stats.global_recv_queue_length == stat_sum(*stats, h1));
        }
    }

    /// Marks an enabled handle for removal at the next poll.
    pub fn disable(&self, stats: &mut Stats)
        requires
            old(stats).wf(),
            self.id() < old(stats).handle_count(),
        ensures
            final(stats).wf(),
            final(stats).handle_count() == old(stats).handle_count(),
            final(stats).stat_of(self.id()) == match old(stats).stat_of(self.id()) {
                Stat::Enabled(v) => Stat::MarkedForDisable(v),
                s => s,
            },
            final(stats).conn_of(self.id()) == old(stats).conn_of(self.id()),
            final(stats).pending_of(self.id()) == old(stats).pending_of(self.id()),
            final(stats).bucket_position(self.id()) == old(stats).bucket_position(self.id()),
            forall|id: usize| id < old(stats).handle_count() && id != self.id() ==> same_handle(*old(stats), *final(stats), id),
            same_tables(*old(stats), *final(stats)),
    {
        let id = self.id;
        match stats.records[id].queue_len {
            Stat::Enabled(val) => {
                let mut r = stats.records[id];
                r.queue_len = Stat::MarkedForDisable(val);
                r.handles_index = None;
                stats.records.set(id, r);
                proof {
                    let h = stats.handles@;
                    assert forall|t: int| 0 <= t < h.len() implies stat_len(#[trigger] stats.stat_of(h[t])) == stat_len(old(stats).stat_of(h[t])) by {
                        assert(h[t] < old(stats).records@.len());
                    }
                    lemma_stat_sum_frame(*stats, *old(stats), h);
                }
            },
            _ => {},
        }
    }
}

/// The length a polled handle has after a poll: the one reported since the last poll, if
/// any, for an enabled handle.
pub open spec fn polled_len(s: Stats, id: usize) -> usize {
    match s.stat_of(id) {
        Stat::Enabled(l) => match s.pending_of(id) {
            Some(p) => p,
            None => l,
        },
        other => stat_len(other),
    }
}

/// The length reported since the last poll through an enabled handle, or zero.
pub open spec fn pending_len(s: Stats, id: usize) -> int {
    match s.stat_of(id) {
        Stat::Enabled(_) => match s.pending_of(id) {
            Some(p) => p as int,
            None => 0,
        },
        _ => 0,
    }
}

/// The sum of `pending_len` over the handles `ids`.
pub open spec fn pending_sum(s: Stats, ids: Seq<usize>) -> int
    decreases ids.len(),
{
    if ids.len() == 0 {
        0
    } else {
        pending_sum(s, ids.drop_last()) + pending_len(s, ids.last())
    }
}

/// Summing from the front gives the same sum.
proof fn lemma_pending_sum_front(s: Stats, ids: Seq<usize>)
    requires
        ids.len() > 0,
    ensures
        pending_sum(s, ids) == pending_len(s, ids[0]) + pending_sum(s, ids.drop_first()),
    decreases ids.len(),
{
    if ids.len() > 1 {
        lemma_pending_sum_front(s, ids.drop_last());
        assert(ids.drop_last().drop_first() =~= ids.drop_first().drop_last());
    } else {
        assert(ids.drop_first() =~= Seq::<usize>::empty());
        assert(ids.drop_last() =~= Seq::<usize>::empty());
    }
}

/// Replacing the handle at index `i` changes the sum by the difference.
proof fn lemma_pending_sum_update(s: Stats, ids: Seq<usize>, i: int, v: usize)
    requires
        0 <= i < ids.len(),
    ensures
        pending_sum(s, ids.update(i, v)) == pending_sum(s, ids) - pending_len(s, ids[i]) + pending_len(s, v),
    decreases ids.len(),
{
    let u = ids.update(i, v);
    if i == ids.len() - 1 {
        assert(u.drop_last() =~= ids.drop_last());
    } else {
        lemma_pending_sum_update(s, ids.drop_last(), i, v);
        assert(u.drop_last() =~= ids.drop_last().update(i, v));
    }
}

/// The sum of pending lengths is not negative.
proof fn lemma_pending_sum_nonneg(s: Stats, ids: Seq<usize>)
    ensures
        pending_sum(s, ids) >= 0,
    decreases ids.len(),
{
    if ids.len() > 0 {
        lemma_pending_sum_nonneg(s, ids.drop_last());
    }
}

/// Changing the length of the handle at index `i` only changes the sum by the difference.
proof fn lemma_stat_sum_change_one(a: Stats, b: Stats, ids: Seq<usize>, i: int)
    requires
        0 <= i < ids.len(),
        forall|t: int| 0 <= t < ids.len() && t != i ==> stat_len(#[trigger] a.stat_of(ids[t])) == stat_len(b.stat_of(ids[t])),
    ensures
        stat_sum(b, ids) == stat_sum(a, ids) - stat_len(a.stat_of(ids[i])) + stat_len(b.stat_of(ids[i])),
    decreases ids.len(),
{
    let t = ids.drop_last();
    if i == ids.len() - 1 {
        assert forall|k: int| 0 <= k < t.len() implies stat_len(#[trigger] a.stat_of(t[k])) == stat_len(b.stat_of(t[k])) by {
            assert(t[k] == ids[k]);
        }
        lemma_stat_sum_frame(a, b, t);
    } else {
        assert forall|k: int| 0 <= k < t.len() && k != i implies stat_len(#[trigger] a.stat_of(t[k])) == stat_len(b.stat_of(t[k])) by {
            assert(t[k] == ids[k]);
        }
        lemma_stat_sum_change_one(a, b, t, i);
        assert(stat_len(a.stat_of(ids[ids.len() - 1])) == stat_len(b.stat_of(ids[ids.len() - 1])));
    }
}

impl Stats {
    /// Moves polled handle `id`, whose length was just set to `val`, to the bucket of
    /// `val`, or out of the bucket list when `val` is zero.
    fn bucket_update(&mut self, id: usize, val: usize)
        requires
            layout_ok(old(self).records@, old(self).buckets@, old(self).handles@),
            lens_ok_except(old(self).records@, old(self).handles@, id as int),
            old(self).handles@.contains(id),
            id < old(self).records@.len(),
            stat_len(old(self).records@[id as int].queue_len) == val,
        ensures
            layout_ok(final(self).records@, final(self).buckets@, final(self).handles@),
            lens_ok_except(final(self).records@, final(self).handles@, -1),
            final(self).records@.len() == old(self).records@.len(),
            forall|k: int|
                0 <= k < old(self).records@.len() ==> same_but_position(
                    #[trigger] final(self).records@[k],
                    old(self).records@[k],
                ),
            forall|k: usize|
                k < old(self).records@.len() && !old(self).handles@.contains(k) ==> #[trigger] final(self).records@[k as int]
                    == old(self).records@[k as int],
            final(self).handles@ == old(self).handles@,
            final(self).global_recv_queue_length == old(self).global_recv_queue_length,
            final(self).avg_global_recv_queue_length == old(self).avg_global_recv_queue_length,
            final(self).threshold == old(self).threshold,
            final(self).max_migrations == old(self).max_migrations,
    {
        let position = self.records[id].bucket_list_position;
        let new_index = val >> BUCKET_SIZE_LOG2;
        proof {
            assert((val >> BUCKET_SIZE_LOG2) == val / 8) by (bit_vector);
        }
        let ghost s0 = *self;
        match position {
            None => {
                if val > 0 {
                    self.push_into_bucket(new_index, id);
                }
            },
            Some((index, sub_index)) => {
                if val == 0 || index != new_index {
                    proof {
                        let h = self.handles@;
                        let j = choose|j: int| 0 <= j < h.len() && h[j] == id;
                        assert(h[j] < self.records@.len());
                    }
                    let removed = self.bucket_remove((index, sub_index));
                    if val > 0 {
                        self.push_into_bucket(new_index, id);
                    }
                }
            },
        }
        proof {
            let h = self.handles@;
            let r0 = s0.records@;
            let r1 = self.records@;
            assert forall|j: int| 0 <= j < h.len() && h[j] != -1 implies {
                let r = #[trigger] r1[h[j] as int];
                match r.bucket_list_position {
                    Some((x, _)) => stat_len(r.queue_len) > 0 && x as int == bucket_of_len(stat_len(r.queue_len)),
                    None => stat_len(r.queue_len) == 0,
                }
            } by {
                assert(h[j] < r0.len());
                if h[j] != id {
                    assert(same_bucket(r1[h[j] as int].bucket_list_position, r0[h[j] as int].bucket_list_position));
                    assert(same_but_position(r1[h[j] as int], r0[h[j] as int]));
                }
            }
        }
    }
}

/// Changing handle `id`'s report or length but not its position keeps the layout, the
/// polled list consistent and the other handles' bucket facts.
proof fn lemma_records_frame(r1: Seq<StatRecord>, r2: Seq<StatRecord>, b: Seq<Vec<usize>>, h: Seq<usize>, id: int)
    requires
        r1.len() == r2.len(),
        0 <= id < r1.len(),
        forall|k: int| 0 <= k < r1.len() && k != id ==> #[trigger] r2[k] == r1[k],
        r2[id].bucket_list_position == r1[id].bucket_list_position,
        r2[id].handles_index == r1[id].handles_index,
        r2[id].queue_len is Enabled,
        r1[id].queue_len is Enabled,
        layout_ok(r1, b, h),
        handles_ok(r1, h),
        lens_ok_except(r1, h, -1),
    ensures
        layout_ok(r2, b, h),
        handles_ok(r2, h),
        lens_ok_except(r2, h, id),
        stat_len(r2[id].queue_len) == stat_len(r1[id].queue_len) ==> lens_ok_except(r2, h, -1),
{
    assert forall|x: int, i: int| 0 <= x < b.len() && 0 <= i < b[x]@.len() implies {
        let e = #[trigger] b[x]@[i];
        &&& h.contains(e)
        &&& e < r2.len()
        &&& r2[e as int].bucket_list_position matches Some((px, pi)) && px == x && pi == i
    } by {
        let e = b[x]@[i];
        assert(r1[e as int].bucket_list_position matches Some((px, pi)) && px == x && pi == i);
    }
    assert forall|j: int| 0 <= j < h.len() implies #[trigger] h[j] < r2.len() && match r2[h[j] as int].bucket_list_position {
        Some((x, i)) => x < b.len() && i < b[x as int]@.len() && b[x as int]@[i as int] == h[j],
        None => true,
    } by {
        assert(h[j] < r1.len());
    }
    assert forall|j: int| 0 <= j < h.len() implies {
        &&& #[trigger] h[j] < r2.len()
        &&& !(r2[h[j] as int].queue_len is Disabled)
        &&& r2[h[j] as int].queue_len is Enabled ==> (r2[h[j] as int].handles_index matches Some(hj) && hj == j)
    } by {
        assert(h[j] < r1.len());
    }
    assert forall|j: int| 0 <= j < h.len() && h[j] != id implies {
        let r = #[trigger] r2[h[j] as int];
        match r.bucket_list_position {
            Some((x, _)) => stat_len(r.queue_len) > 0 && x as int == bucket_of_len(stat_len(r.queue_len)),
            None => stat_len(r.queue_len) == 0,
        }
    } by {
        assert(h[j] < r1.len());
        assert(r2[h[j] as int] == r1[h[j] as int]);
    }
    if stat_len(r2[id].queue_len) == stat_len(r1[id].queue_len) {
        assert forall|j: int| 0 <= j < h.len() && h[j] != -1 implies {
            let r = #[trigger] r2[h[j] as int];
            match r.bucket_list_position {
                Some((x, _)) => stat_len(r.queue_len) > 0 && x as int == bucket_of_len(stat_len(r.queue_len)),
                None => stat_len(r.queue_len) == 0,
            }
        } by {
            assert(h[j] < r1.len());
            if h[j] != id {
                assert(r2[h[j] as int] == r1[h[j] as int]);
            }
        }
    }
}

/// Taking the polled handle at index `hi` out of the polled list, by moving the last one
/// into its place, keeps the table consistent when the bucket list no longer holds it.
proof fn lemma_unlist(
    rb: Seq<StatRecord>,
    rc: Seq<StatRecord>,
    bsc: Seq<Vec<usize>>,
    hb: Seq<usize>,
    hi: int,
)
    requires
        0 <= hi < hb.len(),
        handles_ok(rb, hb),
        lens_ok_except(rb, hb, hb[hi] as int),
        rc.len() == rb.len(),
        forall|k: int|
            0 <= k < rb.len() && !(hi < hb.len() - 1 && k == hb.last()) ==> #[trigger] rc[k] == rb[k],
        hi < hb.len() - 1 ==> rc[hb.last() as int] == (StatRecord { handles_index: Some(hi as usize), ..rb[hb.last() as int] }),
        forall|y: int, k: int|
            0 <= y < bsc.len() && 0 <= k < bsc[y]@.len() ==> {
                let e = #[trigger] bsc[y]@[k];
                &&& hb.contains(e)
                &&& e != hb[hi]
                &&& rb[e as int].bucket_list_position matches Some((px, pi)) && px == y && pi == k
            },
        forall|j: int|
            0 <= j < hb.len() && j != hi ==> match #[trigger] rb[hb[j] as int].bucket_list_position {
                Some((y, k)) => y < bsc.len() && k < bsc[y as int]@.len() && bsc[y as int]@[k as int] == hb[j],
                None => true,
            },
    ensures
        ({
            let h1 = hb.update(hi, hb.last()).drop_last();
            &&& handles_ok(rc, h1)
            &&& layout_ok(rc, bsc, h1)
            &&& lens_ok_except(rc, h1, -1)
        }),
{
    let h1 = hb.update(hi, hb.last()).drop_last();
    let n = hb.len();
    let id = hb[hi];
    lemma_swap_remove_members(hb, hi);
    assert forall|j: int| 0 <= j < h1.len() implies {
        &&& #[trigger] h1[j] < rc.len()
        &&& !(rc[h1[j] as int].queue_len is Disabled)
        &&& rc[h1[j] as int].queue_len is Enabled ==> (rc[h1[j] as int].handles_index matches Some(hj) && hj == j)
    } by {
        if j == hi {
            assert(h1[j] == hb[n - 1]);
            assert(hb[n - 1] < rb.len());
        } else {
            assert(h1[j] == hb[j]);
            assert(hb[j] < rb.len());
            if hi < h1.len() {
                assert(hb[n - 1] != hb[j]);
            }
        }
    }
    assert forall|y: int, k: int| 0 <= y < bsc.len() && 0 <= k < bsc[y]@.len() implies {
        let e = #[trigger] bsc[y]@[k];
        &&& h1.contains(e)
        &&& e < rc.len()
        &&& rc[e as int].bucket_list_position matches Some((px, pi)) && px == y && pi == k
    } by {
        let e = bsc[y]@[k];
        let jj = choose|jj: int| 0 <= jj < hb.len() && hb[jj] == e;
        assert(hb[jj] < rb.len());
    }
    assert forall|j: int| 0 <= j < h1.len() implies #[trigger] h1[j] < rc.len() && match rc[h1[j] as int].bucket_list_position {
        Some((y, k)) => y < bsc.len() && k < bsc[y as int]@.len() && bsc[y as int]@[k as int] == h1[j],
        None => true,
    } by {
        if j == hi {
            assert(h1[j] == hb[n - 1]);
            assert(hb[n - 1] < rb.len());
            assert(n - 1 != hi);
        } else {
            assert(h1[j] == hb[j]);
            assert(hb[j] < rb.len());
        }
    }
    assert forall|j: int| 0 <= j < h1.len() && h1[j] != -1 implies {
        let r = #[trigger] rc[h1[j] as int];
        match r.bucket_list_position {
            Some((y, _)) => stat_len(r.queue_len) > 0 && y as int == bucket_of_len(stat_len(r.queue_len)),
            None => stat_len(r.queue_len) == 0,
        }
    } by {
        if j == hi {
            assert(h1[j] == hb[n - 1]);
            assert(hb[n - 1] < rb.len());
            assert(hb[n - 1] != hb[hi]);
        } else {
            assert(h1[j] == hb[j]);
            assert(hb[j] < rb.len());
            assert(hb[j] != hb[hi]);
        }
    }
}

/// Removing index `i` of a sequence without repeats, by moving its last item into its
/// place, removes exactly that item and keeps the others once each.
proof fn lemma_swap_remove_members(h: Seq<usize>, i: int)
    requires
        0 <= i < h.len(),
        forall|j: int, k: int| 0 <= j < k < h.len() ==> #[trigger] h[j] != #[trigger] h[k],
    ensures
        ({
            let r = h.update(i, h.last()).drop_last();
            &&& forall|j: int, k: int| 0 <= j < k < r.len() ==> #[trigger] r[j] != #[trigger] r[k]
            &&& !r.contains(h[i])
            &&& forall|x: usize| #[trigger] r.contains(x) <==> (h.contains(x) && x != h[i])
        }),
{
    let r = h.update(i, h.last()).drop_last();
    let n = h.len();
    assert forall|j: int, k: int| 0 <= j < k < r.len() implies #[trigger] r[j] != #[trigger] r[k] by {
        if j == i {
            assert(r[j] == h[n - 1]);
            assert(r[k] == h[k]);
        } else if k == i {
            assert(r[k] == h[n - 1]);
            assert(r[j] == h[j]);
        } else {
            assert(r[j] == h[j]);
            assert(r[k] == h[k]);
        }
    }
    assert forall|x: usize| #[trigger] r.contains(x) <==> (h.contains(x) && x != h[i]) by {
        if r.contains(x) {
            let k = choose|k: int| 0 <= k < r.len() && r[k] == x;
            if k == i {
                assert(h[n - 1] == x);
                assert(i != n - 1);
            } else {
                assert(h[k] == x);
            }
        }
        if h.contains(x) && x != h[i] {
            let k = choose|k: int| 0 <= k < h.len() && h[k] == x;
            if k == n - 1 {
                assert(r[i] == x);
            } else {
                assert(r[k] == x);
            }
        }
    }
}

impl Stats {
    /// Where a poll that started from `s0` stands before handling the polled handle at
    /// index `i`: the handles before `i` took their reports, those from `i` on are as they
    /// were, and the handles marked for disabling that were met have left.
    spec fn poll_inv(&self, s0: Stats, i: int) -> bool {
        let h0 = s0.handles@;
        let r0 = s0.records@;
        let h = self.handles@;
        let rc = self.records@;
        &&& s0.wf()
        &&& s0.global_recv_queue_length + pending_sum(s0, h0) <= usize::MAX
        &&& handles_ok(rc, h)
        &&& layout_ok(rc, self.buckets@, h)
        &&& lens_ok_except(rc, h, -1)
        &&& self.global_recv_queue_length == stat_sum(*self, h)
        &&& self.avg_global_recv_queue_length == s0.avg_global_recv_queue_length
        &&& self.threshold == s0.threshold
        &&& self.max_migrations == s0.max_migrations
        &&& rc.len() == r0.len()
        &&& 0 <= i <= h.len()
        &&& self.global_recv_queue_length + pending_sum(s0, h.subrange(i, h.len() as int))
            <= s0.global_recv_queue_length + pending_sum(s0, h0)
        &&& forall|k: int|
            0 <= k < i ==> {
                let id = #[trigger] h[k];
                &&& h0.contains(id)
                &&& r0[id as int].queue_len is Enabled
                &&& rc[id as int].queue_len == Stat::Enabled(polled_len(s0, id))
                &&& rc[id as int].queue_len_to_update is None
                &&& rc[id as int].conn == r0[id as int].conn
            }
        &&& forall|k: int|
            i <= k < h.len() ==> {
                let id = #[trigger] h[k];
                &&& h0.contains(id)
                &&& rc[id as int].queue_len == r0[id as int].queue_len
                &&& rc[id as int].queue_len_to_update == r0[id as int].queue_len_to_update
                &&& rc[id as int].conn == r0[id as int].conn
            }
        &&& forall|id: usize|
            #[trigger] h0.contains(id) && !h.contains(id) ==> {
                &&& r0[id as int].queue_len is MarkedForDisable
                &&& rc[id as int].queue_len == r0[id as int].queue_len
                &&& rc[id as int].queue_len_to_update == r0[id as int].queue_len_to_update
                &&& rc[id as int].conn == r0[id as int].conn
                &&& rc[id as int].bucket_list_position is None
            }
        &&& forall|id: usize| #[trigger] h.contains(id) ==> h0.contains(id)
        &&& forall|id: usize| id < r0.len() && !h0.contains(id) ==> #[trigger] rc[id as int] == r0[id as int]
    }

    /// Takes the handle at index `i`, marked for disabling, out of the polled handles,
    /// the bucket list and the global length.
    #[verifier::spinoff_prover]
    #[verifier::rlimit(90)]
    fn poll_remove_marked(&mut self, i: usize, Ghost(s0): Ghost<Stats>)
        requires
            old(self).poll_inv(s0, i as int),
            i < old(self).handles@.len(),
            old(self).records@[old(self).handles@[i as int] as int].queue_len is MarkedForDisable,
        ensures
            final(self).poll_inv(s0, i as int),
            final(self).handles@.len() == old(self).handles@.len() - 1,
    {
        let ghost h0 = s0.handles@;
        let ghost r0 = s0.records@;
        let ghost sb = *self;
        let ghost hb = self.handles@;
        let ghost rb = self.records@;
        let ghost suffix = hb.subrange(i as int, hb.len() as int);
        let id = self.handles[i];
        let rec = self.records[id];
        proof {
            assert(hb[i as int] == id);
            assert(h0.contains(id));
        }
        let len = match rec.queue_len {
            Stat::MarkedForDisable(len) => len,
            _ => {
                assert(false);
                0
            },
        };
        match rec.bucket_list_position {
            Some(position) => {
                let _ = self.bucket_remove(position);
            },
            None => {},
        }
        let ghost sm = *self;
        self.handles.swap_remove(i);
        if i < self.handles.len() {
            let moved = self.handles[i];
            let mut m = self.records[moved];
            m.handles_index = Some(i);
            self.records.set(moved, m);
        }
        proof {
            lemma_stat_sum_member(sb, hb, i as int);
        }
        self.global_recv_queue_length = self.global_recv_queue_length - len;
        proof {
            let h1 = self.handles@;
            let rm = sm.records@;
            let rc = self.records@;
            let n = hb.len();
            lemma_swap_remove_members(hb, i as int);
            assert(h1 =~= hb.update(i as int, hb.last()).drop_last());
            assert(rm[id as int].bucket_list_position is None);
            assert(hb[i as int] == id);
            assert(handles_ok(rm, hb)) by {
                assert forall|j: int| 0 <= j < hb.len() implies {
                    &&& #[trigger] hb[j] < rm.len()
                    &&& !(rm[hb[j] as int].queue_len is Disabled)
                    &&& rm[hb[j] as int].queue_len is Enabled ==> (rm[hb[j] as int].handles_index matches Some(hj) && hj == j)
                } by {
                    assert(hb[j] < rb.len());
                    assert(same_but_position(rm[hb[j] as int], rb[hb[j] as int]));
                }
            }
            assert(lens_ok_except(rm, hb, id as int)) by {
                assert forall|j: int| 0 <= j < hb.len() && hb[j] != id as int implies {
                    let r = #[trigger] rm[hb[j] as int];
                    match r.bucket_list_position {
                        Some((y, _)) => stat_len(r.queue_len) > 0 && y as int == bucket_of_len(stat_len(r.queue_len)),
                        None => stat_len(r.queue_len) == 0,
                    }
                } by {
                    assert(hb[j] < rb.len());
                    assert(same_but_position(rm[hb[j] as int], rb[hb[j] as int]));
                    assert(same_bucket(rm[hb[j] as int].bucket_list_position, rb[hb[j] as int].bucket_list_position));
                }
            }
            assert forall|y: int, k: int|
                0 <= y < self.buckets@.len() && 0 <= k < self.buckets@[y]@.len() implies {
                    let e = #[trigger] self.buckets@[y]@[k];
                    &&& hb.contains(e)
                    &&& e != hb[i as int]
                    &&& rm[e as int].bucket_list_position matches Some((px, pi)) && px == y && pi == k
                } by {
                let e = self.buckets@[y]@[k];
                assert(e == sm.buckets@[y]@[k]);
            }
            assert forall|j: int| 0 <= j < hb.len() && j != i implies match #[trigger] rm[hb[j] as int].bucket_list_position {
                Some((y, k)) => y < self.buckets@.len() && k < self.buckets@[y as int]@.len() && self.buckets@[y as int]@[k as int] == hb[j],
                None => true,
            } by {
                assert(hb[j] < rm.len());
            }
            lemma_unlist(rm, rc, self.buckets@, hb, i as int);
            assert forall|t: int| 0 <= t < h1.len() implies stat_len(#[trigger] self.stat_of(h1[t])) == stat_len(sb.stat_of(h1[t])) by {
                assert(hb.contains(h1[t]));
                let jj = choose|jj: int| 0 <= jj < hb.len() && hb[jj] == h1[t];
                assert(hb[jj] < sb.records@.len());
            }
            lemma_stat_sum_frame(*self, sb, h1);
            lemma_stat_sum_swap_remove(sb, hb, i as int);
            // The pending lengths left to take are those of the others.
            let suffix1 = h1.subrange(i as int, h1.len() as int);
            assert(suffix[0] == id);
            assert(suffix1 =~= suffix.update(0, suffix.last()).drop_last());
            lemma_pending_sum_update(s0, suffix, 0, suffix.last());
            assert(pending_len(s0, id) == 0);
            assert(suffix.update(0, suffix.last()).last() == suffix.last());
            assert forall|k: int| 0 <= k < i implies {
                let e = #[trigger] h1[k];
                &&& h0.contains(e)
                &&& r0[e as int].queue_len is Enabled
                &&& rc[e as int].queue_len == Stat::Enabled(polled_len(s0, e))
                &&& rc[e as int].queue_len_to_update is None
                &&& rc[e as int].conn == r0[e as int].conn
            } by {
                assert(h1[k] == hb[k]);
                assert(hb[k] < sb.records@.len());
            }
            assert forall|k: int| i <= k < h1.len() implies {
                let e = #[trigger] h1[k];
                &&& h0.contains(e)
                &&& rc[e as int].queue_len == r0[e as int].queue_len
                &&& rc[e as int].queue_len_to_update == r0[e as int].queue_len_to_update
                &&& rc[e as int].conn == r0[e as int].conn
            } by {
                if k == i {
                    assert(h1[k] == hb[n - 1]);
                    assert(hb[n - 1] < sb.records@.len());
                } else {
                    assert(h1[k] == hb[k]);
                    assert(hb[k] < sb.records@.len());
                }
            }
            assert forall|e: usize| #[trigger] h0.contains(e) && !h1.contains(e) implies {
                &&& r0[e as int].queue_len is MarkedForDisable
                &&& rc[e as int].queue_len == r0[e as int].queue_len
                &&& rc[e as int].queue_len_to_update == r0[e as int].queue_len_to_update
                &&& rc[e as int].conn == r0[e as int].conn
                &&& rc[e as int].bucket_list_position is None
            } by {
                if e != id {
                    assert(!hb.contains(e));
                    let jj = choose|jj: int| 0 <= jj < h0.len() && h0[jj] == e;
                    assert(h0[jj] < r0.len());
                }
            }
            assert forall|e: usize| e < r0.len() && !h0.contains(e) implies #[trigger] rc[e as int] == r0[e as int] by {
                assert(!hb.contains(e));
            }
        }
    }

    /// Makes the enabled handle at index `i` take the length reported since the last
    /// poll, if any.
    #[verifier::spinoff_prover]
    #[verifier::rlimit(90)]
    fn poll_take_report(&mut self, i: usize, Ghost(s0): Ghost<Stats>)
        requires
            old(self).poll_inv(s0, i as int),
            i < old(self).handles@.len(),
            old(self).records@[old(self).handles@[i as int] as int].queue_len is Enabled,
        ensures
            final(self).poll_inv(s0, i + 1),
            final(self).handles@.len() == old(self).handles@.len(),
    {
        let ghost h0 = s0.handles@;
        let ghost r0 = s0.records@;
        let ghost sb = *self;
        let ghost hb = self.handles@;
        let ghost rb = self.records@;
        let ghost suffix = hb.subrange(i as int, hb.len() as int);
        let id = self.handles[i];
        let mut r = self.records[id];
        proof {
            assert(hb[i as int] == id);
            assert(h0.contains(id));
            assert(id < rb.len());
            assert(suffix[0] == id);
            lemma_pending_sum_front(s0, suffix);
            assert(suffix.drop_first() =~= hb.subrange(i + 1, hb.len() as int));
            lemma_pending_sum_nonneg(s0, suffix.drop_first());
            lemma_stat_sum_member(sb, hb, i as int);
        }
        let queue_len = match r.queue_len {
            Stat::Enabled(l) => l,
            _ => {
                assert(false);
                0
            },
        };
        let update = r.queue_len_to_update;
        r.queue_len_to_update = None;
        self.records.set(id, r);
        proof {
            lemma_records_frame(rb, self.records@, self.buckets@, hb, id as int);
        }
        let ghost sc = *self;
        match update {
            Some(v) => {
                if v != queue_len {
                    self.global_recv_queue_length = (self.global_recv_queue_length + v) - queue_len;
                    let mut r2 = self.records[id];
                    r2.queue_len = Stat::Enabled(v);
                    self.records.set(id, r2);
                    proof {
                        lemma_records_frame(sc.records@, self.records@, self.buckets@, hb, id as int);
                    }
                    self.bucket_update(id, v);
                }
            },
            None => {},
        }
        proof {
            let h = self.handles@;
            let rc = self.records@;
            assert(h == hb);
            assert forall|t: int| 0 <= t < h.len() && t != i implies stat_len(#[trigger] sb.stat_of(h[t])) == stat_len(self.stat_of(h[t])) by {
                assert(h[t] != id);
                assert(h[t] < rb.len());
            }
            lemma_stat_sum_change_one(sb, *self, h, i as int);
            assert forall|k: int| 0 <= k < i + 1 implies {
                let e = #[trigger] h[k];
                &&& h0.contains(e)
                &&& r0[e as int].queue_len is Enabled
                &&& rc[e as int].queue_len == Stat::Enabled(polled_len(s0, e))
                &&& rc[e as int].queue_len_to_update is None
                &&& rc[e as int].conn == r0[e as int].conn
            } by {
                if k < i {
                    assert(h[k] != id);
                    assert(h[k] < rb.len());
                }
            }
            assert forall|k: int| i + 1 <= k < h.len() implies {
                let e = #[trigger] h[k];
                &&& h0.contains(e)
                &&& rc[e as int].queue_len == r0[e as int].queue_len
                &&& rc[e as int].queue_len_to_update == r0[e as int].queue_len_to_update
                &&& rc[e as int].conn == r0[e as int].conn
            } by {
                assert(h[k] != id);
                assert(h[k] < rb.len());
            }
            assert forall|e: usize| #[trigger] h0.contains(e) && !h.contains(e) implies {
                &&& r0[e as int].queue_len is MarkedForDisable
                &&& rc[e as int].queue_len == r0[e as int].queue_len
                &&& rc[e as int].queue_len_to_update == r0[e as int].queue_len_to_update
                &&& rc[e as int].conn == r0[e as int].conn
                &&& rc[e as int].bucket_list_position is None
            } by {
                let jj = choose|jj: int| 0 <= jj < h0.len() && h0[jj] == e;
                assert(h0[jj] < r0.len());
            }
            assert forall|e: usize| e < r0.len() && !h0.contains(e) implies #[trigger] rc[e as int] == r0[e as int] by {
                assert(!hb.contains(e));
            }
        }
    }

    /// Takes the reports of the polled handles: a handle marked for disabling leaves the
    /// polled list and the bucket list and its length leaves the global length; an enabled
    /// handle takes the length reported since the last poll, if any, and moves to the
    /// bucket of it. The new global length enters the rolling average.
    ///
    /// The global length plus every reported length, and the rolling sum with them, must
    /// fit in a `usize`: then no intermediate sum overflows, whatever the order.
    pub fn poll(&mut self)
        requires
            old(self).wf(),
            seq_sum(old(self).avg_window()) - old(self).avg_window()[0] + old(self).global() + pending_sum(
                *old(self),
                old(self).polled(),
            ) <= usize::MAX,
        ensures
            final(self).wf(),
            final(self).handle_count() == old(self).handle_count(),
            forall|id: usize|
                old(self).polled().contains(id) && old(self).stat_of(id) is Enabled ==> {
                    &&& #[trigger] final(self).polled().contains(id)
                    &&& final(self).stat_of(id) == Stat::Enabled(polled_len(*old(self), id))
                    &&& final(self).pending_of(id) is None
                    &&& final(self).conn_of(id) == old(self).conn_of(id)
                },
            forall|id: usize|
                old(self).polled().contains(id) && !(old(self).stat_of(id) is Enabled) ==> {
                    &&& !(#[trigger] final(self).polled().contains(id))
                    &&& final(self).stat_of(id) == old(self).stat_of(id)
                    &&& final(self).pending_of(id) == old(self).pending_of(id)
                    &&& final(self).conn_of(id) == old(self).conn_of(id)
                    &&& final(self).bucket_position(id) is None
                },
            forall|id: usize|
                id < old(self).handle_count() && !old(self).polled().contains(id) ==> {
                    &&& same_handle(*old(self), *final(self), id)
                    &&& !(#[trigger] final(self).polled().contains(id))
                },
            final(self).global() == stat_sum(*final(self), final(self).polled()),
            final(self).avg_window() == old(self).avg_window().drop_first().push(final(self).global()),
            final(self).threshold() == old(self).threshold(),
            final(self).max_migrations() == old(self).max_migrations(),
    {
        let ghost s0 = *self;
        let mut i: usize = 0;
        proof {
            assert(self.handles@.subrange(0, self.handles@.len() as int) =~= s0.handles@);
            lemma_seq_sum_front(s0.avg_window());
            lemma_seq_sum_nonneg(s0.avg_window().drop_first());
        }
        while i < self.handles.len()
            invariant
                self.poll_inv(s0, i as int),
                seq_sum(s0.avg_window()) - s0.avg_window()[0] + s0.global() + pending_sum(s0, s0.polled()) <= usize::MAX,
            decreases self.handles@.len() - i,
        {
            let id = self.handles[i];
            match self.records[id].queue_len {
                Stat::MarkedForDisable(..) => {
                    self.poll_remove_marked(i, Ghost(s0));
                },
                Stat::Enabled(..) => {
                    self.poll_take_report(i, Ghost(s0));
                    i = i + 1;
                },
                Stat::Disabled => {
                    assert(self.handles@[i as int] == id);
                    assert(false);
                },
            }
        }
        proof {
            let h = self.handles@;
            assert(h.subrange(h.len() as int, h.len() as int) =~= Seq::<usize>::empty());
        }
        let ghost se = *self;
        self.avg_global_recv_queue_length.update(self.global_recv_queue_length);
        proof {
            let h = self.handles@;
            lemma_stat_sum_frame(*self, se, h);
            let h0 = s0.handles@;
            let r0 = s0.records@;
            let rc = self.records@;
            assert forall|id: usize| s0.polled().contains(id) && s0.stat_of(id) is Enabled implies {
                &&& #[trigger] self.polled().contains(id)
                &&& self.stat_of(id) == Stat::Enabled(polled_len(s0, id))
                &&& self.pending_of(id) is None
                &&& self.conn_of(id) == s0.conn_of(id)
            } by {
                assert(h0.contains(id));
                if !h.contains(id) {
                    assert(r0[id as int].queue_len is MarkedForDisable);
                }
                let k = choose|k: int| 0 <= k < h.len() && h[k] == id;
            }
            assert forall|id: usize| s0.polled().contains(id) && !(s0.stat_of(id) is Enabled) implies {
                &&& !(#[trigger] self.polled().contains(id))
                &&& self.stat_of(id) == s0.stat_of(id)
                &&& self.pending_of(id) == s0.pending_of(id)
                &&& self.conn_of(id) == s0.conn_of(id)
                &&& self.bucket_position(id) is None
            } by {
                assert(h0.contains(id));
                if h.contains(id) {
                    let k = choose|k: int| 0 <= k < h.len() && h[k] == id;
                    assert(r0[id as int].queue_len is Enabled);
                }
            }
            assert forall|id: usize| id < s0.handle_count() && !s0.polled().contains(id) implies {
                &&& same_handle(s0, *self, id)
                &&& !(#[trigger] self.polled().contains(id))
            } by {
                assert(rc[id as int] == r0[id as int]);
            }
        }
    }
}

/// The bucket visited at step `t` when taking connections out of `n` buckets from bucket
/// `base`: `base`, `base + 1`, ..., `n - 1`, then `base - 1`, ..., `0`.
pub open spec fn visit(base: int, n: int, t: int) -> int {
    if t < n - base {
        base + t
    } else {
        base - 1 - (t - (n - base))
    }
}

/// The step at which bucket `x` is visited.
pub open spec fn visit_step(base: int, n: int, x: int) -> int {
    if x >= base {
        x - base
    } else {
        (n - base) + (base - 1 - x)
    }
}

/// The handles taken from the first `t` buckets visited, in the order they are taken:
/// each bucket from its back.
pub open spec fn take_order(bs: Seq<Seq<usize>>, base: int, n: int, t: int) -> Seq<usize>
    decreases t,
{
    if t <= 0 {
        Seq::empty()
    } else {
        take_order(bs, base, n, t - 1) + bs[visit(base, n, t - 1)].reverse()
    }
}

/// Whether a migration is due: the migration limit is not used up, and both the average
/// and the current global queue length are above the threshold.
pub open spec fn migration_due(s: Stats) -> bool {
    &&& !(s.max_migrations() matches Some(m) && m <= 0)
    &&& seq_sum(s.avg_window()) / ROLLING_AVG_WINDOW as int > s.threshold()
    &&& s.global() > s.threshold()
}

/// The first bucket visited: that of the excess of the global length over the threshold,
/// or the number of buckets if there are fewer.
pub open spec fn extraction_base(s: Stats) -> int {
    let b = bucket_of_len((s.global() - s.threshold()) as usize);
    if b < s.bucket_seqs().len() {
        b
    } else {
        s.bucket_seqs().len() as int
    }
}

/// All the handles in the bucket list, in the order they would be taken.
pub open spec fn candidates(s: Stats) -> Seq<usize> {
    let n = s.bucket_seqs().len() as int;
    take_order(s.bucket_seqs(), extraction_base(s), n, n)
}

/// Whether taking stops after the first `j` handles of `ids`: the global length fell below
/// the threshold, the most connections were taken, or the migration limit is used up.
pub open spec fn stops_after(s: Stats, ids: Seq<usize>, j: int) -> bool {
    ||| s.global() - stat_sum(s, ids.take(j)) < s.threshold()
    ||| j == MAX_EXTRACTED_CONNECTIONS
    ||| (s.max_migrations() matches Some(m) && m - j <= 0)
}

/// The number of handles of `ids` taken, counting from `from`: up to the first after
/// which taking stops, or all of them.
pub open spec fn taken_count(s: Stats, ids: Seq<usize>, from: int) -> int
    decreases ids.len() - from,
{
    if from >= ids.len() {
        ids.len() as int
    } else if stops_after(s, ids, from + 1) {
        from + 1
    } else {
        taken_count(s, ids, from + 1)
    }
}

/// The handles `connections_to_migrate` takes out of `s`.
pub open spec fn taken(s: Stats) -> Seq<usize> {
    let p = candidates(s);
    p.take(taken_count(s, p, 0))
}

/// Visiting steps and buckets correspond one to one.
proof fn lemma_visit(base: int, n: int)
    requires
        0 <= base <= n,
    ensures
        forall|t: int| 0 <= t < n ==> 0 <= #[trigger] visit(base, n, t) < n && visit_step(base, n, visit(base, n, t)) == t,
        forall|x: int| 0 <= x < n ==> 0 <= #[trigger] visit_step(base, n, x) < n && visit(base, n, visit_step(base, n, x)) == x,
{
}

/// The handles taken from the first `t` buckets come first among those taken from the
/// first `u`.
proof fn lemma_take_order_prefix(bs: Seq<Seq<usize>>, base: int, n: int, t: int, u: int)
    requires
        0 <= t <= u,
    ensures
        take_order(bs, base, n, t).len() <= take_order(bs, base, n, u).len(),
        take_order(bs, base, n, u).take(take_order(bs, base, n, t).len() as int) == take_order(bs, base, n, t),
    decreases u - t,
{
    if t < u {
        lemma_take_order_prefix(bs, base, n, t, u - 1);
        let a = take_order(bs, base, n, t);
        let b = take_order(bs, base, n, u - 1);
        let c = take_order(bs, base, n, u);
        assert(c == b + bs[visit(base, n, u - 1)].reverse());
        assert(c.take(a.len() as int) =~= b.take(a.len() as int));
    } else {
        assert(take_order(bs, base, n, u).take(take_order(bs, base, n, u).len() as int) =~= take_order(bs, base, n, u));
    }
}

/// The handle taken `q`-th from the bucket visited at step `t` is `q`-th from its back.
proof fn lemma_take_order_item(bs: Seq<Seq<usize>>, base: int, n: int, t: int, q: int)
    requires
        0 <= t < n,
        0 <= q < bs[visit(base, n, t)].len(),
    ensures
        take_order(bs, base, n, t + 1).len() == take_order(bs, base, n, t).len() + bs[visit(base, n, t)].len(),
        take_order(bs, base, n, n)[take_order(bs, base, n, t).len() + q] == bs[visit(base, n, t)][bs[visit(base, n, t)].len() - 1 - q],
{
    let a = take_order(bs, base, n, t);
    let x = visit(base, n, t);
    let r = bs[x].reverse();
    assert(take_order(bs, base, n, t + 1) == a + r);
    assert(r.len() == bs[x].len());
    assert(r[q] == bs[x][bs[x].len() - 1 - q]);
    lemma_take_order_prefix(bs, base, n, t + 1, n);
    let full = take_order(bs, base, n, n);
    assert(full.take((a + r).len() as int) == a + r);
    assert((a + r)[a.len() + q] == r[q]);
    assert(full.take((a + r).len() as int)[a.len() + q] == full[a.len() + q]);
}

/// Without a stop before `c`, the count from 0 is the count from `c`.
proof fn lemma_taken_count_skip(s: Stats, ids: Seq<usize>, from: int, c: int)
    requires
        0 <= from <= c <= ids.len(),
        forall|j: int| from < j <= c ==> !#[trigger] stops_after(s, ids, j),
    ensures
        taken_count(s, ids, from) == taken_count(s, ids, c),
    decreases c - from,
{
    if from < c {
        lemma_taken_count_skip(s, ids, from + 1, c);
        assert(!stops_after(s, ids, from + 1));
    }
}

/// The count from `from` takes at least one more handle, when there is one.
proof fn lemma_taken_count_more(s: Stats, ids: Seq<usize>, from: int)
    requires
        0 <= from < ids.len(),
    ensures
        from < taken_count(s, ids, from) <= ids.len(),
    decreases ids.len() - from,
{
    if from + 1 < ids.len() && !stops_after(s, ids, from + 1) {
        lemma_taken_count_more(s, ids, from + 1);
    } else if !stops_after(s, ids, from + 1) {
        assert(taken_count(s, ids, from + 1) == ids.len());
    }
}

/// What the count from `from` is: the first step after which taking stops, or all.
proof fn lemma_taken_count_props(s: Stats, ids: Seq<usize>, from: int)
    requires
        0 <= from <= ids.len(),
    ensures
        ({
            let r = taken_count(s, ids, from);
            &&& from <= r <= ids.len()
            &&& r == ids.len() || stops_after(s, ids, r)
            &&& forall|j: int| from < j < r ==> !#[trigger] stops_after(s, ids, j)
            &&& from < MAX_EXTRACTED_CONNECTIONS ==> r <= MAX_EXTRACTED_CONNECTIONS
        }),
    decreases ids.len() - from,
{
    if from < ids.len() && !stops_after(s, ids, from + 1) {
        lemma_taken_count_props(s, ids, from + 1);
        if from + 1 == MAX_EXTRACTED_CONNECTIONS {
            assert(stops_after(s, ids, MAX_EXTRACTED_CONNECTIONS as int));
        }
    }
}

/// Taking connections stops as soon as the global length is below the threshold,
/// `MAX_EXTRACTED_CONNECTIONS` were taken or the migration limit is used up, and
/// otherwise only once every handle in the bucket list was taken.
pub proof fn lemma_extraction_stops(s: Stats)
    ensures
        ({
            let p = candidates(s);
            let k = taken(s).len() as int;
            &&& k <= MAX_EXTRACTED_CONNECTIONS
            &&& taken(s) == p.take(k)
            &&& stops_after(s, p, k) || k == p.len()
            &&& forall|j: int| 1 <= j < k ==> !#[trigger] stops_after(s, p, j)
        }),
{
    let p = candidates(s);
    lemma_taken_count_props(s, p, 0);
}

/// `r1` and `r2` differ at most in their index in the polled list.
spec fn same_but_index(r1: StatRecord, r2: StatRecord) -> bool {
    &&& r1.conn == r2.conn
    &&& r1.queue_len == r2.queue_len
    &&& r1.queue_len_to_update == r2.queue_len_to_update
    &&& r1.bucket_list_position == r2.bucket_list_position
}

impl Stats {
    /// Where taking connections out of `s0` stands after `c` handles were taken and the
    /// buckets before step `t` were emptied; `done` when taking stopped.
    spec fn extract_inv(&self, s0: Stats, items: Seq<Connection>, t: int, c: int, done: bool) -> bool {
        let bs0 = s0.bucket_seqs();
        let n = bs0.len() as int;
        let base = extraction_base(s0);
        let p = candidates(s0);
        let h0 = s0.handles@;
        let r0 = s0.records@;
        let h = self.handles@;
        let rc = self.records@;
        &&& s0.wf()
        &&& migration_due(s0)
        &&& 0 <= base <= n
        &&& forall|j: int| 0 <= j < taken(s0).len() ==> s0.stat_of(#[trigger] taken(s0)[j]) is Enabled
        &&& handles_ok(rc, h)
        &&& layout_ok(rc, self.buckets@, h)
        &&& lens_ok_except(rc, h, -1)
        &&& self.global_recv_queue_length == stat_sum(*self, h)
        &&& self.global_recv_queue_length == s0.global() - stat_sum(s0, p.take(c))
        &&& self.avg_global_recv_queue_length.inv()
        &&& self.avg_global_recv_queue_length.window() == Seq::new(ROLLING_AVG_WINDOW as nat, |i: int| 0usize)
        &&& self.threshold == s0.threshold
        &&& self.max_migrations == match s0.max_migrations {
            Some(m) => Some((m - c) as i32),
            None => None,
        }
        &&& rc.len() == r0.len()
        &&& forall|k: int| 0 <= k < rc.len() ==> same_but_index(#[trigger] rc[k], r0[k])
        &&& forall|id: usize| #[trigger] h.contains(id) <==> (h0.contains(id) && !p.take(c).contains(id))
        &&& self.buckets@.len() == n
        &&& 0 <= t <= n
        &&& 0 <= c <= p.len()
        &&& items == p.take(c).map_values(|id: usize| s0.conn_of(id))
        &&& t < n ==> {
            let x = visit(base, n, t);
            let off = take_order(bs0, base, n, t).len() as int;
            &&& off <= c <= off + bs0[x].len()
            &&& self.buckets@[x]@ == bs0[x].take(bs0[x].len() - (c - off))
        }
        &&& t == n ==> c == p.len()
        &&& forall|y: int| 0 <= y < n && visit_step(base, n, y) > t ==> #[trigger] self.buckets@[y]@ == bs0[y]
        &&& done ==> 1 <= c && stops_after(s0, p, c)
        &&& forall|j: int| 1 <= j <= c && !(done && j == c) ==> !#[trigger] stops_after(s0, p, j)
        &&& !done ==> (s0.max_migrations matches Some(m) ==> m - c > 0)
    }

    /// Takes the handle at the back of bucket `b`, visited at step `t`, out of the bucket
    /// list and the polled list; returns whether taking stops.
    #[verifier::spinoff_prover]
    #[verifier::rlimit(90)]
    fn take_one(
        &mut self,
        conns: &mut ArrayVec<Connection, 20>,
        t: usize,
        b: usize,
        Ghost(s0): Ghost<Stats>,
        Ghost(c): Ghost<int>,
    ) -> (done: bool)
        requires
            old(self).extract_inv(s0, extracted_items(*old(conns)), t as int, c, false),
            t < old(self).buckets@.len(),
            b == visit(extraction_base(s0), s0.bucket_seqs().len() as int, t as int),
            old(self).buckets@[b as int]@.len() > 0,
        ensures
            final(self).extract_inv(s0, extracted_items(*final(conns)), t as int, c + 1, done),
    {
        let ghost bs0 = s0.bucket_seqs();
        let ghost nn = bs0.len() as int;
        let ghost bb = extraction_base(s0);
        let ghost p = candidates(s0);
        let ghost h0 = s0.handles@;
        let ghost r0 = s0.records@;
        let ghost sb = *self;
        let ghost hb = self.handles@;
        let ghost rb = self.records@;
        let ghost x = b as int;
        let ghost off = take_order(bs0, bb, nn, t as int).len() as int;
        let ghost q = c - off;
        let ghost len_x = bs0[x].len() as int;
        proof {
            lemma_visit(bb, nn);
            assert(self.buckets@[x]@ == bs0[x].take(len_x - q));
            assert(q < len_x);
            lemma_take_order_item(bs0, bb, nn, t as int, q);
            lemma_take_order_prefix(bs0, bb, nn, t + 1, nn);
            assert(c < p.len());
            lemma_taken_count_skip(s0, p, 0, c);
            lemma_taken_count_more(s0, p, c);
            assert(taken(s0)[c] == p[c]);
        }
        let id = self.buckets[b].pop().unwrap();
        proof {
            assert(id == bs0[x][len_x - q - 1]);
            assert(id == p[c]);
            assert(s0.stat_of(id) is Enabled);
            // The handle was the last of its bucket, and is polled.
            assert(sb.buckets@[x]@[len_x - q - 1] == id);
            assert(hb.contains(id));
            assert(id < rb.len());
        }
        let rec = self.records[id];
        let handle_index = match rec.handles_index {
            Some(j) => j,
            None => {
                proof {
                    let j = choose|j: int| 0 <= j < hb.len() && hb[j] == id;
                    assert(rb[hb[j] as int].queue_len is Enabled);
                }
                assert(false);
                0
            },
        };
        proof {
            let j = choose|j: int| 0 <= j < hb.len() && hb[j] == id;
            assert(rb[hb[j] as int].handles_index matches Some(hj) && hj == j);
            assert(handle_index == j);
        }
        let ghost sm = *self;
        self.handles.swap_remove(handle_index);
        if handle_index < self.handles.len() {
            let moved = self.handles[handle_index];
            let mut m = self.records[moved];
            m.handles_index = Some(handle_index);
            self.records.set(moved, m);
        }
        proof {
            lemma_stat_sum_member(sb, hb, handle_index as int);
        }
        let len = rec.queue_len.expect_enabled("bucket list stat not enabled");
        self.global_recv_queue_length = self.global_recv_queue_length - len;
        proof {
            if c >= MAX_EXTRACTED_CONNECTIONS {
                assert(!stops_after(s0, p, MAX_EXTRACTED_CONNECTIONS as int));
            }
            assert(extracted_items(*conns).len() == c);
        }
        extracted_push(conns, rec.conn);
        let remaining = extracted_remaining_capacity(conns);
        let mut done = self.global_recv_queue_length < self.threshold || remaining == 0;
        match self.max_migrations {
            Some(val) => {
                let new_val = val - 1;
                self.max_migrations = Some(new_val);
                if new_val <= 0 {
                    done = true;
                }
            },
            None => {},
        }
        proof {
            let h1 = self.handles@;
            let rc = self.records@;
            let hi = handle_index as int;
            let n = hb.len();
            lemma_swap_remove_members(hb, hi);
            assert(h1 =~= hb.update(hi, hb.last()).drop_last());
            assert forall|k: int| 0 <= k < rc.len() implies same_but_index(#[trigger] rc[k], r0[k]) by {
                assert(same_but_index(rb[k], r0[k]));
            }
            assert forall|y: int, k: int|
                0 <= y < self.buckets@.len() && 0 <= k < self.buckets@[y]@.len() implies {
                    let e = #[trigger] self.buckets@[y]@[k];
                    &&& hb.contains(e)
                    &&& e != hb[hi]
                    &&& rb[e as int].bucket_list_position matches Some((px, pi)) && px == y && pi == k
                } by {
                let e = self.buckets@[y]@[k];
                assert(e == sb.buckets@[y]@[k]);
                assert(rb[id as int].bucket_list_position matches Some((px, pi)) && px == x && pi == len_x - q - 1);
            }
            assert forall|j: int| 0 <= j < hb.len() && j != hi implies match #[trigger] rb[hb[j] as int].bucket_list_position {
                Some((y, k)) => y < self.buckets@.len() && k < self.buckets@[y as int]@.len() && self.buckets@[y as int]@[k as int] == hb[j],
                None => true,
            } by {
                assert(hb[j] != id);
                match rb[hb[j] as int].bucket_list_position {
                    Some((y, k)) => {
                        if y as int == x {
                            assert(k != len_x - q - 1);
                        }
                    },
                    None => {},
                }
            }
            assert(lens_ok_except(rb, hb, hb[hi] as int)) by {
                assert forall|j: int| 0 <= j < hb.len() && hb[j] != hb[hi] as int implies {
                    let r = #[trigger] rb[hb[j] as int];
                    match r.bucket_list_position {
                        Some((y, _)) => stat_len(r.queue_len) > 0 && y as int == bucket_of_len(stat_len(r.queue_len)),
                        None => stat_len(r.queue_len) == 0,
                    }
                } by {
                    assert(hb[j] != -1);
                }
            }
            lemma_unlist(rb, rc, self.buckets@, hb, hi);
            assert forall|k: int| 0 <= k < h1.len() implies stat_len(#[trigger] self.stat_of(h1[k])) == stat_len(sb.stat_of(h1[k])) by {
                assert(hb.contains(h1[k]));
                let jj = choose|jj: int| 0 <= jj < hb.len() && hb[jj] == h1[k];
                assert(hb[jj] < rb.len());
            }
            lemma_stat_sum_frame(*self, sb, h1);
            lemma_stat_sum_swap_remove(sb, hb, hi);
            // The taken handles are those of the candidates up to this one.
            let pt = p.take(c + 1);
            assert(pt.drop_last() =~= p.take(c));
            assert(pt.last() == id);
            assert(stat_sum(s0, pt) == stat_sum(s0, p.take(c)) + stat_len(s0.stat_of(id)));
            assert(rec.queue_len == r0[id as int].queue_len);
            assert(extracted_items(*conns) =~= pt.map_values(|e: usize| s0.conn_of(e)));
            assert forall|e: usize| #[trigger] h1.contains(e) <==> (h0.contains(e) && !pt.contains(e)) by {
                if pt.contains(e) && !p.take(c).contains(e) {
                    let k = choose|k: int| 0 <= k < pt.len() && pt[k] == e;
                    if k < c {
                        assert(p.take(c)[k] == e);
                    }
                }
                if p.take(c).contains(e) {
                    let k = choose|k: int| 0 <= k < c && p.take(c)[k] == e;
                    assert(pt[k] == e);
                }
            }
            assert(self.buckets@[x]@ =~= bs0[x].take(len_x - (c + 1 - off)));
            assert forall|y: int| 0 <= y < nn && visit_step(bb, nn, y) > t implies #[trigger] self.buckets@[y]@ == bs0[y] by {
                assert(y != x);
                assert(self.buckets@[y] == sb.buckets@[y]);
            }
            assert(remaining == 0 <==> c + 1 == MAX_EXTRACTED_CONNECTIONS);
        }
        done
    }
}

impl Stats {
    /// Takes connections out of the statistics so that the global receive-queue length
    /// goes below the threshold: `None` when no migration is due. Otherwise it visits the
    /// buckets from the one of the excess of the global length over the threshold up to the
    /// last, then down from the one before it, taking each bucket's handles from its back
    /// until the global length is below the threshold, `MAX_EXTRACTED_CONNECTIONS` were
    /// taken or the migration limit is used up. The taken handles leave the polled list,
    /// the bucket list and the global length; the rolling average restarts from zeros and
    /// the new global length.
    pub fn connections_to_migrate(&mut self) -> (r: Option<ArrayVec<Connection, 20>>)
        requires
            old(self).wf(),
            migration_due(*old(self)) ==> forall|j: int|
                0 <= j < taken(*old(self)).len() ==> old(self).stat_of(#[trigger] taken(*old(self))[j]) is Enabled,
        ensures
            final(self).wf(),
            !migration_due(*old(self)) ==> r is None && *final(self) == *old(self),
            migration_due(*old(self)) ==> r is Some && {
                let taken = taken(*old(self));
                &&& extracted_items(r->0) == taken.map_values(|id: usize| old(self).conn_of(id))
                &&& final(self).global() == old(self).global() - stat_sum(*old(self), taken)
                &&& forall|id: usize| #[trigger] final(self).polled().contains(id) <==> (old(self).polled().contains(id) && !taken.contains(id))
                &&& final(self).avg_window() == Seq::new((ROLLING_AVG_WINDOW - 1) as nat, |i: int| 0usize).push(final(self).global())
                &&& final(self).max_migrations() == match old(self).max_migrations() {
                    Some(m) => Some((m - taken.len()) as i32),
                    None => None,
                }
                &&& final(self).handle_count() == old(self).handle_count()
                &&& forall|id: usize| id < old(self).handle_count() ==> same_handle(*old(self), *final(self), id)
                &&& final(self).threshold() == old(self).threshold()
            },
    {
        match self.max_migrations {
            Some(val) => {
                if val <= 0 {
                    return None;
                }
            },
            None => {},
        }
        if self.avg_global_recv_queue_length.get() <= self.threshold || self.global_recv_queue_length <= self.threshold {
            return None;
        }
        let ghost s0 = *self;
        // Reset global avg.
        self.avg_global_recv_queue_length.force_set(0);
        let mut conns = extracted_new();
        let n = self.buckets.len();
        let excess = (self.global_recv_queue_length - self.threshold) >> BUCKET_SIZE_LOG2;
        let base = if excess < n {
            excess
        } else {
            n
        };
        let ghost mut c: int = 0;
        let mut t: usize = 0;
        let mut done = false;
        proof {
            let d = (s0.global_recv_queue_length - s0.threshold) as usize;
            assert((d >> BUCKET_SIZE_LOG2) == d / 8) by (bit_vector);
            assert(s0.bucket_seqs().len() == n);
            assert(base == extraction_base(s0));
            assert(self.bucket_seqs() == s0.bucket_seqs());
            lemma_visit(base as int, n as int);
            lemma_stat_sum_frame(*self, s0, self.handles@);
            let p = candidates(s0);
            assert(p.take(0) =~= Seq::<usize>::empty());
            assert(extracted_items(conns) =~= p.take(0).map_values(|id: usize| s0.conn_of(id)));
            assert forall|id: usize| #[trigger] self.handles@.contains(id) <==> (s0.handles@.contains(id) && !p.take(0).contains(id)) by {
            }
            assert forall|y: int| 0 <= y < n && visit_step(base as int, n as int, y) > 0 implies #[trigger] self.buckets@[y]@ == s0.bucket_seqs()[y] by {
                assert(s0.bucket_seqs()[y] == s0.buckets@[y]@);
            }
            if 0 < n {
                let x = visit(base as int, n as int, 0);
                assert(s0.bucket_seqs()[x] == self.buckets@[x]@);
                assert(self.buckets@[x]@ == s0.bucket_seqs()[x].take(s0.bucket_seqs()[x].len() as int));
            }
            assert(self.extract_inv(s0, extracted_items(conns), 0, 0, false));
        }
        while t < n && !done
            invariant
                self.extract_inv(s0, extracted_items(conns), t as int, c, done),
                n == s0.bucket_seqs().len(),
                base == extraction_base(s0),
                0 <= base <= n,
            decreases candidates(s0).len() - c + (n - t),
        {
            let b = if t < n - base {
                base + t
            } else {
                base - 1 - (t - (n - base))
            };
            if self.buckets[b].len() == 0 {
                proof {
                    let bs0 = s0.bucket_seqs();
                    let nn = n as int;
                    let bb = base as int;
                    lemma_visit(bb, nn);
                    let x = visit(bb, nn, t as int);
                    assert(b as int == x);
                    let off = take_order(bs0, bb, nn, t as int).len() as int;
                    assert(take_order(bs0, bb, nn, t + 1) == take_order(bs0, bb, nn, t as int) + bs0[x].reverse());
                    assert(c == off + bs0[x].len());
                    if t + 1 < n {
                        let x1 = visit(bb, nn, t + 1);
                        assert(visit_step(bb, nn, x1) == t + 1);
                        assert(self.buckets@[x1]@ == bs0[x1]);
                        assert(bs0[x1].take(bs0[x1].len() as int) =~= bs0[x1]);
                    }
                }
                t = t + 1;
            } else {
                done = self.take_one(&mut conns, t, b, Ghost(s0), Ghost(c));
                proof {
                    c = c + 1;
                }
            }
        }
        proof {
            let p = candidates(s0);
            if done {
                lemma_taken_count_skip(s0, p, 0, c - 1);
                assert(taken_count(s0, p, c - 1) == c);
            } else {
                lemma_taken_count_skip(s0, p, 0, c);
            }
            assert(taken(s0) == p.take(c));
            lemma_seq_sum_repeat(0, ROLLING_AVG_WINDOW as nat);
        }
        let ghost se = *self;
        self.avg_global_recv_queue_length.update(self.global_recv_queue_length);
        proof {
            lemma_stat_sum_frame(*self, se, self.handles@);
            assert(self.avg_window() =~= Seq::new((ROLLING_AVG_WINDOW - 1) as nat, |i: int| 0usize).push(self.global()));
            assert(self.max_migrations() == match s0.max_migrations() {
                Some(m) => Some((m - taken(s0).len()) as i32),
                None => None,
            });
        }
        Some(conns)
    }
}

} // verus!
