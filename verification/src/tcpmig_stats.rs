//! Receive-queue statistics of the TCP migration layer: the global receive-queue length,
//! its rolling average over a long window, the connections tracked, and a bucket list
//! that groups connections by queue length, from which a connection to migrate out is
//! chosen.

use crate::tcp_stats::{lemma_seq_sum_front, lemma_seq_sum_nonneg, lemma_seq_sum_repeat, lemma_seq_sum_slide, seq_sum};
use std::collections::VecDeque;
use vstd::prelude::*;

verus! {

/// log2 of the number of values the rolling average covers.
pub const WINDOW_LOG_2: usize = 7;

/// The number of values the rolling average covers.
pub const WINDOW: usize = 128;

/// The window of a rolling average holding `w` after it took `vs`, in order.
pub open spec fn window_after(w: Seq<usize>, vs: Seq<usize>) -> Seq<usize>
    decreases vs.len(),
{
    if vs.len() == 0 {
        w
    } else {
        window_after(w, vs.drop_last()).drop_first().push(vs.last())
    }
}

/// A rolling average that took values `vs` since it was made holds the last `WINDOW` of
/// them, the missing ones taken as zeros, so that `get` gives their mean rounded down.
pub proof fn lemma_window_holds_last_values(vs: Seq<usize>)
    ensures
        ({
            let zeros = Seq::new(WINDOW as nat, |i: int| 0usize);
            window_after(zeros, vs) == (zeros + vs).subrange(vs.len() as int, vs.len() + WINDOW)
        }),
    decreases vs.len(),
{
    let zeros = Seq::new(WINDOW as nat, |i: int| 0usize);
    if vs.len() == 0 {
        assert((zeros + vs).subrange(0, WINDOW as int) =~= zeros);
    } else {
        let n = vs.len() as int;
        lemma_window_holds_last_values(vs.drop_last());
        let prev = (zeros + vs.drop_last()).subrange(n - 1, n - 1 + WINDOW);
        assert(prev.drop_first().push(vs.last()) =~= (zeros + vs).subrange(n, n + WINDOW));
    }
}

/// Rolling average of the last `WINDOW` values.
pub struct RollingAverage {
    values: VecDeque<usize>,
    sum: usize,
}

impl RollingAverage {
    /// The window is full and the running sum is its sum.
    pub closed spec fn inv(&self) -> bool {
        &&& self.values@.len() == WINDOW
        &&& self.sum == seq_sum(self.values@)
    }

    /// The values in the window, oldest first.
    pub closed spec fn window(&self) -> Seq<usize> {
        self.values@
    }

    /// A window of zeros.
    pub fn new() -> (r: RollingAverage)
        ensures
            r.inv(),
            r.window() == Seq::new(WINDOW as nat, |i: int| 0usize),
    {
        let mut values: VecDeque<usize> = VecDeque::with_capacity(WINDOW);
        let mut i: usize = 0;
        while i < WINDOW
            invariant
                i <= WINDOW,
                values@ == Seq::new(i as nat, |k: int| 0usize),
            decreases WINDOW - i,
        {
            values.push_back(0);
            i = i + 1;
            assert(values@ =~= Seq::new(i as nat, |k: int| 0usize));
        }
        proof {
            lemma_seq_sum_repeat(0, WINDOW as nat);
        }
        RollingAverage { values, sum: 0 }
    }

    /// Slides the window: drops the oldest value and takes `value`.
    pub fn update(&mut self, value: usize)
        requires
            old(self).inv(),
            seq_sum(old(self).window()) - old(self).window()[0] + value <= usize::MAX,
        ensures
            final(self).inv(),
            final(self).window() == old(self).window().drop_first().push(value),
    {
        proof {
            lemma_seq_sum_slide(self.values@, value);
            lemma_seq_sum_front(self.values@);
            lemma_seq_sum_nonneg(self.values@.drop_first());
        }
        let oldest = self.values.pop_front().unwrap();
        self.sum = self.sum - oldest;
        self.sum = self.sum + value;
        self.values.push_back(value);
    }

    /// The average of the window, rounded down.
    pub fn get(&self) -> (avg: usize)
        requires
            self.inv(),
        ensures
            avg == seq_sum(self.window()) / WINDOW as int,
    {
        proof {
            vstd::bits::lemma_usize_shr_is_div(self.sum, WINDOW_LOG_2);
            vstd::arithmetic::power2::lemma2_to64();
        }
        self.sum >> WINDOW_LOG_2
    }
}

} // verus!

use crate::addr::{octets_to_u32, SocketAddrV4};
use crate::tcp_stats::lemma_seq_sum_nonneg as lemma_window_sum_nonneg;
use std::collections::HashMap;

verus! {

broadcast use vstd::std_specs::hash::group_hash_axioms;

/// A connection: (local address, client address).
pub type Connection = (SocketAddrV4, SocketAddrV4);

/// The 96-bit number that identifies a connection: local address, local port, client
/// address and client port, most significant first.
pub open spec fn conn_key(c: Connection) -> u128 {
    (octets_to_u32(c.0.ip.octets) * 0x1_0000_0000_0000_0000_0000 + c.0.port as int
        * 0x1_0000_0000_0000_0000 + octets_to_u32(c.1.ip.octets) * 0x1_0000 + c.1.port as int) as u128
}

/// Computes the number that identifies a connection.
pub fn connection_key(c: &Connection) -> (k: u128)
    ensures
        k == conn_key(*c),
{
    let l = c.0.ip.octets;
    let r = c.1.ip.octets;
    let local_ip: u128 = (l[0] as u128) * 0x100_0000 + (l[1] as u128) * 0x1_0000 + (l[2] as u128)
        * 0x100 + (l[3] as u128);
    let client_ip: u128 = (r[0] as u128) * 0x100_0000 + (r[1] as u128) * 0x1_0000 + (r[2] as u128)
        * 0x100 + (r[3] as u128);
    local_ip * 0x1_0000_0000_0000_0000_0000 + (c.0.port as u128) * 0x1_0000_0000_0000_0000
        + client_ip * 0x1_0000 + (c.1.port as u128)
}

/// Number of queue lengths per bucket.
pub const BUCKET_SIZE: usize = 10;

/// Connections grouped by receive-queue length: bucket 0 holds lengths 1-9 (connections
/// with an empty queue are not held), bucket 1 lengths 10-19, and so on.
pub struct BucketList {
    buckets: Vec<Vec<Connection>>,
    /// Where each connection is held: (bucket, index in the bucket).
    positions: HashMap<u128, (usize, usize)>,
}

impl BucketList {
    /// Every connection held is found at its recorded position, and every recorded
    /// position holds its connection.
    pub closed spec fn wf(&self) -> bool {
        &&& indexed_except(self.buckets@, self.positions@, -1, -1)
        &&& located(self.buckets@, self.positions@)
    }

    /// The bucket of each connection held, by connection number.
    pub closed spec fn bucket_of(&self) -> Map<u128, usize> {
        Map::new(|k: u128| self.positions@.contains_key(k), |k: u128| self.positions@[k].0)
    }

    /// The number of buckets.
    pub closed spec fn bucket_count(&self) -> nat {
        self.buckets@.len()
    }

    /// The connection at the back of bucket `b`, the one `pop_connection` takes from it.
    pub closed spec fn back_of(&self, b: int) -> Connection {
        self.buckets@[b]@.last()
    }

    /// No connections.
    pub fn new() -> (l: BucketList)
        ensures
            l.wf(),
            l.bucket_of() == Map::<u128, usize>::empty(),
            l.bucket_count() == 0,
    {
        let l = BucketList { buckets: Vec::new(), positions: HashMap::new() };
        assert(l.bucket_of() =~= Map::<u128, usize>::empty());
        l
    }

    /// Makes sure bucket `index` exists, adding empty buckets as needed.
    fn get_bucket_mut(&mut self, index: usize)
        requires
            old(self).wf(),
        ensures
            final(self).wf(),
            final(self).bucket_of() == old(self).bucket_of(),
            final(self).bucket_count() == if index < old(self).bucket_count() {
                old(self).bucket_count() as int
            } else {
                index + 1
            },
            forall|b: int| 0 <= b < old(self).bucket_count() ==> #[trigger] final(self).buckets@[b] == old(self).buckets@[b],
            forall|b: int| old(self).bucket_count() <= b < final(self).bucket_count() ==> #[trigger] final(self).buckets@[b]@.len() == 0,
            final(self).positions@ == old(self).positions@,
    {
        while self.buckets.len() <= index
            invariant
                self.wf(),
                self.positions@ == old(self).positions@,
                old(self).buckets@.len() <= self.buckets@.len(),
                self.buckets@.len() <= if index < old(self).buckets@.len() {
                    old(self).buckets@.len() as int
                } else {
                    index + 1
                },
                forall|b: int| 0 <= b < old(self).buckets@.len() ==> #[trigger] self.buckets@[b] == old(self).buckets@[b],
                forall|b: int| old(self).buckets@.len() <= b < self.buckets@.len() ==> #[trigger] self.buckets@[b]@.len() == 0,
            decreases index + 1 - self.buckets@.len(),
        {
            self.buckets.push(Vec::new());
        }
        assert(self.bucket_of() =~= old(self).bucket_of());
    }

    /// Appends `connection`, which is not held, to bucket `index`, which exists.
    fn push_into_bucket(&mut self, index: usize, connection: Connection)
        requires
            old(self).wf(),
            index < old(self).bucket_count(),
            !old(self).bucket_of().contains_key(conn_key(connection)),
        ensures
            final(self).wf(),
            final(self).bucket_of() == old(self).bucket_of().insert(conn_key(connection), index),
            final(self).bucket_count() == old(self).bucket_count(),
    {
        let k = connection_key(&connection);
        let sub_index = self.buckets[index].len();
        self.positions.insert(k, (index, sub_index));
        self.buckets[index].push(connection);
        proof {
            let ob = old(self).buckets@;
            let nb = self.buckets@;
            assert forall|b: int, i: int| 0 <= b < nb.len() && 0 <= i < nb[b]@.len() implies {
                let kk = conn_key(#[trigger] nb[b]@[i]);
                &&& self.positions@.contains_key(kk)
                &&& self.positions@[kk] == (b as usize, i as usize)
            } by {
                if b == index && i == sub_index {
                } else {
                    assert(nb[b]@[i] == ob[b]@[i]);
                    assert(conn_key(ob[b]@[i]) != k);
                }
            }
        }
        assert(self.bucket_of() =~= old(self).bucket_of().insert(k, index));
    }

    /// Removes `connection` if it is held.
    fn remove(&mut self, connection: &Connection)
        requires
            old(self).wf(),
        ensures
            final(self).wf(),
            final(self).bucket_of() == old(self).bucket_of().remove(conn_key(*connection)),
            final(self).bucket_count() == old(self).bucket_count(),
    {
        let k = connection_key(connection);
        match self.positions.remove(&k) {
            Some((bucket_index, index)) => {
                proof {
                    lemma_forget(old(self).buckets@, old(self).positions@, k);
                }
                self.remove_from_bucket(bucket_index, index, Ghost(k));
            },
            None => {},
        }
        assert(self.bucket_of() =~= old(self).bucket_of().remove(k));
    }

    /// Takes out the connection at `index` of bucket `bucket_index`, whose position was
    /// just forgotten, moving the bucket's last connection into its place.
    fn remove_from_bucket(&mut self, bucket_index: usize, index: usize, Ghost(k): Ghost<u128>)
        requires
            bucket_index < old(self).buckets@.len(),
            index < old(self).buckets@[bucket_index as int]@.len(),
            conn_key(old(self).buckets@[bucket_index as int]@[index as int]) == k,
            !old(self).positions@.contains_key(k),
            indexed_except(old(self).buckets@, old(self).positions@, bucket_index as int, index as int),
            located(old(self).buckets@, old(self).positions@),
        ensures
            final(self).wf(),
            final(self).positions@.dom() == old(self).positions@.dom(),
            forall|kk: u128| #[trigger] final(self).positions@.contains_key(kk) ==> final(self).positions@[kk].0 == old(self).positions@[kk].0,
            final(self).buckets@.len() == old(self).buckets@.len(),
    {
        let ghost ob = self.buckets@;
        let ghost op = self.positions@;
        let ghost bi = bucket_index as int;
        let ghost last = ob[bi]@.len() - 1;
        let _ = self.buckets[bucket_index].swap_remove(index);
        let moves = index < self.buckets[bucket_index].len();
        if moves {
            let moved = self.buckets[bucket_index][index];
            let mk = connection_key(&moved);
            self.positions.insert(mk, (bucket_index, index));
        }
        proof {
            let nb = self.buckets@;
            let np = self.positions@;
            let mk = conn_key(ob[bi]@[last]);
            assert(nb.len() == ob.len());
            assert(nb[bi]@.len() == last);
            if moves {
                assert(nb[bi]@[index as int] == ob[bi]@[last]);
                assert(op.contains_key(mk) && op[mk].0 == bi && op[mk].1 == last);
                assert(np == op.insert(mk, (bucket_index, index)));
            } else {
                assert(np == op);
            }
            assert forall|b: int, i: int| 0 <= b < nb.len() && 0 <= i < nb[b]@.len() implies {
                let kk = conn_key(#[trigger] nb[b]@[i]);
                &&& np.contains_key(kk)
                &&& np[kk].0 == b
                &&& np[kk].1 == i
            } by {
                if b == bi && i == index {
                } else {
                    assert(nb[b]@[i] == ob[b]@[i]);
                    let kk = conn_key(ob[b]@[i]);
                    assert(op.contains_key(kk) && op[kk].0 == b && op[kk].1 == i);
                    if moves {
                        assert(b != bi || i != last);
                        assert(kk != mk);
                    }
                }
            }
            assert forall|kk: u128| #[trigger] np.contains_key(kk) implies {
                let (b, i) = np[kk];
                &&& b < nb.len()
                &&& i < nb[b as int]@.len()
                &&& conn_key(nb[b as int]@[i as int]) == kk
            } by {
                if moves && kk == mk {
                } else {
                    assert(op.contains_key(kk));
                    let (b, i) = op[kk];
                    assert(conn_key(ob[b as int]@[i as int]) == kk);
                    if b == bucket_index {
                        assert(i != index);
                        if i == last {
                            assert(kk == mk);
                        }
                        assert(nb[b as int]@[i as int] == ob[b as int]@[i as int]);
                    } else {
                        assert(nb[b as int] == ob[b as int]);
                    }
                }
            }
        }
    }

    /// Moves `connection` to the bucket of `new_queue_len`, removing it when the length
    /// is zero.
    pub fn update(&mut self, connection: Connection, new_queue_len: usize)
        requires
            old(self).wf(),
        ensures
            final(self).wf(),
            final(self).bucket_of() == bucket_update(old(self).bucket_of(), conn_key(connection), new_queue_len),
    {
        if new_queue_len == 0 {
            // Remove connection if connection existed previously.
            self.remove(&connection);
            return;
        }
        let bucket_index = new_queue_len / BUCKET_SIZE;
        self.get_bucket_mut(bucket_index);
        let k = connection_key(&connection);
        match self.positions.get(&k) {
            Some(position) => {
                if position.0 == bucket_index {
                    assert(self.bucket_of() =~= old(self).bucket_of().insert(k, bucket_index));
                    return;
                }
                self.remove(&connection);
            },
            None => {},
        }
        self.push_into_bucket(bucket_index, connection);
        assert(self.bucket_of() =~= old(self).bucket_of().insert(k, bucket_index));
    }

    /// A connection held is in an existing bucket.
    pub proof fn lemma_held_in_bucket(&self, k: u128)
        requires
            self.wf(),
            self.bucket_of().contains_key(k),
        ensures
            self.bucket_of()[k] < self.bucket_count(),
    {
    }

    /// Whether some connection is held in bucket `start` or a later one.
    pub fn holds_from(&self, start: usize) -> (r: bool)
        requires
            self.wf(),
        ensures
            r == exists|k: u128| #[trigger] self.bucket_of().contains_key(k) && self.bucket_of()[k] >= start,
    {
        let mut b = start;
        while b < self.buckets.len()
            invariant
                self.wf(),
                start <= b || b >= self.buckets@.len(),
                forall|c: int| start <= c < b && c < self.buckets@.len() ==> #[trigger] self.buckets@[c]@.len() == 0,
            decreases self.buckets@.len() - b,
        {
            if self.buckets[b].len() > 0 {
                proof {
                    let k = conn_key(self.buckets@[b as int]@[0]);
                    assert(self.bucket_of().contains_key(k));
                }
                return true;
            }
            b = b + 1;
        }
        proof {
            assert forall|k: u128| #[trigger] self.bucket_of().contains_key(k) implies self.bucket_of()[k] < start by {
                let (c, i) = self.positions@[k];
                assert(self.positions@.contains_key(k));
                if c >= start {
                    assert(self.buckets@[c as int]@.len() == 0);
                }
            }
        }
        false
    }

    /// Whether no connection is held.
    pub fn is_empty(&self) -> (r: bool)
        ensures
            r == self.bucket_of().is_empty(),
    {
        let r = self.positions.is_empty();
        assert(self.bucket_of().dom() =~= self.positions@.dom());
        r
    }

    /// Removes and returns a connection from the first non-empty bucket at or after the
    /// one for `queue_length` (or the last bucket, if there are fewer).
    pub fn pop_connection(&mut self, queue_length: usize) -> (c: Connection)
        requires
            old(self).wf(),
            old(self).bucket_count() > 0,
            exists|k: u128|
                #[trigger] old(self).bucket_of().contains_key(k) && old(self).bucket_of()[k]
                    >= start_bucket(queue_length, old(self).bucket_count()),
        ensures
            final(self).wf(),
            ({
                let b = old(self).bucket_of()[conn_key(c)];
                &&& old(self).bucket_of().contains_key(conn_key(c))
                &&& b >= start_bucket(queue_length, old(self).bucket_count())
                &&& forall|k: u128|
                    #[trigger] old(self).bucket_of().contains_key(k) && old(self).bucket_of()[k]
                        >= start_bucket(queue_length, old(self).bucket_count()) ==> old(
                        self,
                    ).bucket_of()[k] >= b
                &&& c == old(self).back_of(b as int)
            }),
            final(self).bucket_of() == old(self).bucket_of().remove(conn_key(c)),
            final(self).bucket_count() == old(self).bucket_count(),
    {
        let ghost w = old(self).bucket_of();
        let start_index = if queue_length / BUCKET_SIZE < self.buckets.len() - 1 {
            queue_length / BUCKET_SIZE
        } else {
            self.buckets.len() - 1
        };
        let mut b: usize = start_index;
        while b < self.buckets.len()
            invariant
                *self == *old(self),
                self.wf(),
                w == self.bucket_of(),
                start_index == start_bucket(queue_length, self.bucket_count()),
                start_index <= b,
                forall|k: u128|
                    #[trigger] w.contains_key(k) && w[k] >= start_index ==> w[k] >= b,
                exists|k: u128| #[trigger] w.contains_key(k) && w[k] >= start_index,
            decreases self.buckets@.len() - b,
        {
            if self.buckets[b].len() > 0 {
                let ghost last = self.buckets@[b as int]@.last();
                let ghost i = self.buckets@[b as int]@.len() - 1;
                assert(self.buckets@[b as int]@[i] == last);
                let c = self.buckets[b].pop().unwrap();
                assert(c == last);
                let _ = self.positions.remove(&connection_key(&c));
                proof {
                    assert(self.bucket_of() =~= w.remove(conn_key(c)));
                    assert(w[conn_key(c)] == b);
                }
                return c;
            }
            proof {
                assert forall|k: u128| #[trigger] w.contains_key(k) && w[k] >= start_index implies w[k]
                    >= b + 1 by {
                    if w[k] == b {
                        let (bb, i) = self.positions@[k];
                        assert(i < self.buckets@[b as int]@.len());
                    }
                }
            }
            b = b + 1;
        }
        proof {
            let k = choose|k: u128| #[trigger] w.contains_key(k) && w[k] >= start_index;
            assert(w[k] < self.buckets@.len());
        }
        assert(false);
        self.buckets[0][0]
    }
}

/// Every connection in `bs`, but the one at (`skip_b`, `skip_i`), is recorded in `p` at
/// its position.
spec fn indexed_except(bs: Seq<Vec<Connection>>, p: Map<u128, (usize, usize)>, skip_b: int, skip_i: int) -> bool {
    forall|b: int, i: int|
        0 <= b < bs.len() && 0 <= i < bs[b]@.len() && (b != skip_b || i != skip_i) ==> {
            let k = conn_key(#[trigger] bs[b]@[i]);
            &&& p.contains_key(k)
            &&& p[k].0 == b
            &&& p[k].1 == i
        }
}

/// Every position recorded in `p` holds the connection it is recorded for.
spec fn located(bs: Seq<Vec<Connection>>, p: Map<u128, (usize, usize)>) -> bool {
    forall|k: u128| #[trigger]
        p.contains_key(k) ==> {
            let (b, i) = p[k];
            &&& b < bs.len()
            &&& i < bs[b as int]@.len()
            &&& conn_key(bs[b as int]@[i as int]) == k
        }
}

/// Forgetting the position of a held connection leaves every other one recorded.
proof fn lemma_forget(bs: Seq<Vec<Connection>>, p: Map<u128, (usize, usize)>, k: u128)
    requires
        indexed_except(bs, p, -1, -1),
        located(bs, p),
        p.contains_key(k),
    ensures
        indexed_except(bs, p.remove(k), p[k].0 as int, p[k].1 as int),
        located(bs, p.remove(k)),
        conn_key(bs[p[k].0 as int]@[p[k].1 as int]) == k,
{
    let q = p.remove(k);
    assert forall|b: int, i: int|
        0 <= b < bs.len() && 0 <= i < bs[b]@.len() && (b != p[k].0 || i != p[k].1) implies {
        let kk = conn_key(#[trigger] bs[b]@[i]);
        &&& q.contains_key(kk)
        &&& q[kk].0 == b
        &&& q[kk].1 == i
    } by {
        let kk = conn_key(bs[b]@[i]);
        assert(p.contains_key(kk) && p[kk].0 == b && p[kk].1 == i);
    }
}

/// The buckets after the queue length of connection `k` became `len`: a connection with
/// an empty queue is not held; any other is held in bucket `len / BUCKET_SIZE`.
pub open spec fn bucket_update(m: Map<u128, usize>, k: u128, len: usize) -> Map<u128, usize> {
    if len == 0 {
        m.remove(k)
    } else {
        m.insert(k, len / BUCKET_SIZE)
    }
}

/// The bucket that `pop_connection` starts looking from for `queue_length`.
pub open spec fn start_bucket(queue_length: usize, bucket_count: nat) -> int {
    if queue_length / BUCKET_SIZE < bucket_count - 1 {
        (queue_length / BUCKET_SIZE) as int
    } else {
        bucket_count - 1
    }
}

/// `s1` is `s0` after `c` was picked to migrate out: `c` is the connection at the back
/// of the first non-empty bucket at or after the one for the excess of the average over
/// the threshold, and it left the bucket list.
pub open spec fn picked(s0: TcpMigStats, s1: TcpMigStats, c: Connection) -> bool {
    let start = start_bucket((s0.avg() - s0.threshold()) as usize, s0.bucket_count());
    let b = s0.buckets()[conn_key(c)];
    &&& s0.buckets().contains_key(conn_key(c))
    &&& b >= start
    &&& forall|k: u128|
        #[trigger] s0.buckets().contains_key(k) && s0.buckets()[k] >= start ==> s0.buckets()[k] >= b
    &&& c == s0.back_of(b as int)
    &&& s1.buckets() == s0.buckets().remove(conn_key(c))
    &&& s1.bucket_count() == s0.bucket_count()
    &&& s1.global() == s0.global()
    &&& s1.avg_window() == s0.avg_window()
    &&& s1.tracked_connections() == s0.tracked_connections()
    &&& s1.threshold() == s0.threshold()
    &&& s1.granularity() == s0.granularity()
}

/// Receive-queue statistics of the migration layer: the global receive-queue length, its
/// rolling average, the connections being tracked, and the connections grouped by their
/// own queue length.
pub struct TcpMigStats {
    global_recv_queue_length: usize,
    avg_global_recv_queue_length: RollingAverage,
    threshold: usize,
    recv_queue_stats: BucketList,
    /// Tracked connections, by connection number.
    recv_queue_lengths: HashMap<u128, RollingAverage>,
    /// The number of queue updates between two bucket updates.
    granularity: i32,
}

impl TcpMigStats {
    /// The internal structures are consistent.
    pub closed spec fn wf(&self) -> bool {
        &&& self.avg_global_recv_queue_length.inv()
        &&& self.recv_queue_stats.wf()
    }

    /// The global receive-queue length.
    pub closed spec fn global(&self) -> usize {
        self.global_recv_queue_length
    }

    /// The last `WINDOW` global receive-queue lengths, oldest first.
    pub closed spec fn avg_window(&self) -> Seq<usize> {
        self.avg_global_recv_queue_length.window()
    }

    /// The migration threshold on the average global receive-queue length.
    pub closed spec fn threshold(&self) -> usize {
        self.threshold
    }

    /// The number of queue updates between two bucket updates.
    pub closed spec fn granularity(&self) -> i32 {
        self.granularity
    }

    /// The numbers of the tracked connections.
    pub closed spec fn tracked_connections(&self) -> Set<u128> {
        self.recv_queue_lengths@.dom()
    }

    /// The bucket of each connection in the bucket list.
    pub closed spec fn buckets(&self) -> Map<u128, usize> {
        self.recv_queue_stats.bucket_of()
    }

    /// The number of buckets in the bucket list.
    pub closed spec fn bucket_count(&self) -> nat {
        self.recv_queue_stats.bucket_count()
    }

    /// The connection at the back of bucket `b`.
    pub closed spec fn back_of(&self, b: int) -> Connection {
        self.recv_queue_stats.back_of(b)
    }

    /// The average of the global receive-queue length over the window.
    pub open spec fn avg(&self) -> int {
        seq_sum(self.avg_window()) / WINDOW as int
    }

    /// No connection tracked, empty queues; `granularity` is the number of queue updates
    /// between two bucket updates.
    pub fn new(threshold: usize, granularity: i32) -> (s: TcpMigStats)
        ensures
            s.wf(),
            s.global() == 0,
            s.avg_window() == Seq::new(WINDOW as nat, |i: int| 0usize),
            s.threshold() == threshold,
            s.granularity() == granularity,
            s.tracked_connections() == Set::<u128>::empty(),
            s.buckets() == Map::<u128, usize>::empty(),
            s.bucket_count() == 0,
    {
        let s = TcpMigStats {
            global_recv_queue_length: 0,
            avg_global_recv_queue_length: RollingAverage::new(),
            threshold,
            recv_queue_stats: BucketList::new(),
            recv_queue_lengths: HashMap::new(),
            granularity,
        };
        assert(s.tracked_connections() =~= Set::<u128>::empty());
        s
    }

    /// The number of tracked connections.
    pub fn num_of_connections(&self) -> (n: usize)
        ensures
            n == self.tracked_connections().len(),
    {
        self.recv_queue_lengths.len()
    }

    /// Counts one packet pushed to (`is_increment`) or popped from the receive queue of
    /// `connection`, whose queue now holds `new_queue_len` packets, and records the global
    /// length in the rolling average. Every `granularity` calls, as counted by
    /// `granularity_counter`, the connection is moved to the bucket of its new length.
    pub fn recv_queue_update(
        &mut self,
        connection: Connection,
        is_increment: bool,
        new_queue_len: usize,
        granularity_counter: &mut i32,
    )
        requires
            old(self).wf(),
            is_increment ==> old(self).global() < usize::MAX,
            !is_increment ==> old(self).global() > 0,
            seq_sum(old(self).avg_window()) - old(self).avg_window()[0] + (if is_increment {
                old(self).global() + 1
            } else {
                old(self).global() - 1
            }) <= usize::MAX,
            *old(granularity_counter) < i32::MAX,
        ensures
            final(self).wf(),
            final(self).global() == if is_increment {
                old(self).global() + 1
            } else {
                old(self).global() - 1
            },
            final(self).avg_window() == old(self).avg_window().drop_first().push(final(self).global()),
            *old(granularity_counter) + 1 >= old(self).granularity() ==> {
                &&& *final(granularity_counter) == 0
                &&& final(self).buckets() == bucket_update(old(self).buckets(), conn_key(connection), new_queue_len)
            },
            *old(granularity_counter) + 1 < old(self).granularity() ==> {
                &&& *final(granularity_counter) == *old(granularity_counter) + 1
                &&& final(self).buckets() == old(self).buckets()
                &&& final(self).bucket_count() == old(self).bucket_count()
            },
            final(self).tracked_connections() == old(self).tracked_connections(),
            final(self).threshold() == old(self).threshold(),
            final(self).granularity() == old(self).granularity(),
    {
        if is_increment {
            self.global_recv_queue_length = self.global_recv_queue_length + 1;
        } else {
            self.global_recv_queue_length = self.global_recv_queue_length - 1;
        }
        self.avg_global_recv_queue_length.update(self.global_recv_queue_length);
        let counter = *granularity_counter + 1;
        if counter >= self.granularity {
            *granularity_counter = 0;
            self.recv_queue_stats.update(connection, new_queue_len);
        } else {
            *granularity_counter = counter;
        }
    }

    /// The global receive-queue length.
    pub fn global_recv_queue_length(&self) -> (n: usize)
        ensures
            n == self.global(),
    {
        self.global_recv_queue_length
    }

    /// The rolling average of the global receive-queue length, rounded down.
    pub fn avg_global_recv_queue_length(&self) -> (n: usize)
        requires
            self.wf(),
        ensures
            n == self.avg(),
    {
        self.avg_global_recv_queue_length.get()
    }

    /// The migration threshold on the average global receive-queue length.
    pub fn recv_queue_threshold(&self) -> (t: usize)
        ensures
            t == self.threshold(),
    {
        self.threshold
    }

    /// Whether `get_connection_to_migrate_out` can pick a connection: if any is held, one
    /// is held at or after the bucket for the excess of the average over the threshold.
    pub open spec fn can_pick(&self) -> bool {
        !self.buckets().is_empty() ==> exists|k: u128|
            #[trigger] self.buckets().contains_key(k) && self.buckets()[k]
                >= start_bucket((self.avg() - self.threshold()) as usize, self.bucket_count())
    }

    /// Whether `get_connection_to_migrate_out` can pick a connection.
    pub fn can_pick_connection(&self) -> (b: bool)
        requires
            self.wf(),
            self.avg() >= self.threshold(),
        ensures
            b == self.can_pick(),
    {
        if self.recv_queue_stats.is_empty() {
            return true;
        }
        proof {
            let k = choose|k: u128| #[trigger] self.buckets().contains_key(k);
            self.recv_queue_stats.lemma_held_in_bucket(k);
        }
        let pivot = self.avg_global_recv_queue_length() - self.threshold;
        let last = self.recv_queue_stats.buckets.len() - 1;
        let start = if pivot / BUCKET_SIZE < last {
            pivot / BUCKET_SIZE
        } else {
            last
        };
        self.recv_queue_stats.holds_from(start)
    }

    /// Chooses and removes from the bucket list a connection to migrate out: `None` if the
    /// list is empty, else the last connection of the first non-empty bucket at or after
    /// the one for the excess of the average global queue length over the threshold.
    pub fn get_connection_to_migrate_out(&mut self) -> (r: Option<Connection>)
        requires
            old(self).wf(),
            old(self).avg() >= old(self).threshold(),
            old(self).can_pick(),
        ensures
            final(self).wf(),
            old(self).buckets().is_empty() ==> r is None && *final(self) == *old(self),
            !old(self).buckets().is_empty() ==> (r matches Some(c) && picked(*old(self), *final(self), c)),
    {
        if self.recv_queue_stats.is_empty() {
            return None;
        }
        proof {
            let k = choose|k: u128| #[trigger] self.buckets().contains_key(k);
            assert(self.recv_queue_stats.bucket_of().contains_key(k));
            self.recv_queue_stats.lemma_held_in_bucket(k);
        }
        let pivot = self.avg_global_recv_queue_length() - self.threshold;
        Some(self.recv_queue_stats.pop_connection(pivot))
    }

    /// Starts tracking the connection (`local`, `client`), which is not tracked.
    pub fn start_tracking_connection(&mut self, local: SocketAddrV4, client: SocketAddrV4)
        requires
            old(self).wf(),
            !old(self).tracked_connections().contains(conn_key((local, client))),
        ensures
            final(self).wf(),
            final(self).tracked_connections() == old(self).tracked_connections().insert(conn_key((local, client))),
            final(self).buckets() == old(self).buckets(),
            final(self).bucket_count() == old(self).bucket_count(),
            final(self).global() == old(self).global(),
            final(self).avg_window() == old(self).avg_window(),
            final(self).threshold() == old(self).threshold(),
            final(self).granularity() == old(self).granularity(),
    {
        let k = connection_key(&(local, client));
        let _ = self.recv_queue_lengths.insert(k, RollingAverage::new());
    }

    /// Stops tracking the connection (`local`, `client`) and takes it out of the bucket
    /// list. The queue length it had is not subtracted from the global length.
    pub fn stop_tracking_connection(&mut self, local: SocketAddrV4, client: SocketAddrV4, recv_queue_len: usize)
        requires
            old(self).wf(),
        ensures
            final(self).wf(),
            final(self).tracked_connections() == old(self).tracked_connections().remove(conn_key((local, client))),
            final(self).buckets() == old(self).buckets().remove(conn_key((local, client))),
            final(self).bucket_count() == old(self).bucket_count(),
            final(self).global() == old(self).global(),
            final(self).avg_window() == old(self).avg_window(),
            final(self).threshold() == old(self).threshold(),
            final(self).granularity() == old(self).granularity(),
    {
        let connection = (local, client);
        let k = connection_key(&connection);
        let _ = self.recv_queue_lengths.remove(&k);
        self.recv_queue_stats.remove(&connection);
    }

    /// Lowers the global receive-queue length by `by` packets, down to zero at most, and
    /// records it in the rolling average.
    pub fn decrease_global_queue_length(&mut self, by: usize)
        requires
            old(self).wf(),
            seq_sum(old(self).avg_window()) - old(self).avg_window()[0] + (if old(self).global() <= by {
                0
            } else {
                old(self).global() - by
            }) <= usize::MAX,
        ensures
            final(self).wf(),
            final(self).global() == if old(self).global() <= by {
                0
            } else {
                old(self).global() - by
            },
            final(self).avg_window() == old(self).avg_window().drop_first().push(final(self).global()),
            final(self).tracked_connections() == old(self).tracked_connections(),
            final(self).buckets() == old(self).buckets(),
            final(self).bucket_count() == old(self).bucket_count(),
            final(self).threshold() == old(self).threshold(),
            final(self).granularity() == old(self).granularity(),
    {
        if self.global_recv_queue_length <= by {
            self.global_recv_queue_length = 0;
        } else {
            self.global_recv_queue_length = self.global_recv_queue_length - by;
        }
        self.avg_global_recv_queue_length.update(self.global_recv_queue_length);
    }
}

} // verus!
