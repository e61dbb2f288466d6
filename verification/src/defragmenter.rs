//! Reassembly of TCPMig segments that were split into fragments.

use crate::buffer::Buffer;
use crate::tcpmig_header::TcpMigHeader;
use vstd::prelude::*;

verus! {

/// A received fragment: its header and its payload bytes.
pub type FragmentView = (TcpMigHeader, Seq<u8>);

/// Collects the fragments of one TCPMig segment until all have arrived.
///
/// The fragments are held ordered by their header's `fragment_offset`; fragments with
/// equal offsets are held in the order they arrived.
pub struct TcpMigDefragmenter {
    fragment_count: Option<usize>,
    fragments: Vec<(TcpMigHeader, Buffer)>,
}

/// `s` is ordered by fragment offset.
pub open spec fn sorted_by_offset(s: Seq<FragmentView>) -> bool {
    forall|i: int, j: int|
        0 <= i < j < s.len() ==> s[i].0.fragment_offset <= s[j].0.fragment_offset
}

/// Where a fragment with offset `off` goes in the ordered sequence `s`: after every
/// fragment whose offset is at most `off`.
pub open spec fn insert_position(s: Seq<FragmentView>, off: u16) -> int
    decreases s.len(),
{
    if s.len() == 0 {
        0
    } else if s.last().0.fragment_offset <= off {
        s.len() as int
    } else {
        insert_position(s.drop_last(), off)
    }
}

/// `s` with fragment `f` added at its place in offset order.
pub open spec fn insert_fragment(s: Seq<FragmentView>, f: FragmentView) -> Seq<FragmentView> {
    s.insert(insert_position(s, f.0.fragment_offset), f)
}

/// The payloads of `s`, one after another.
pub open spec fn concat_payloads(s: Seq<FragmentView>) -> Seq<u8>
    decreases s.len(),
{
    if s.len() == 0 {
        Seq::empty()
    } else {
        concat_payloads(s.drop_last()) + s.last().1
    }
}

/// The header of a reassembled segment: the header of its first fragment, with no
/// fragment offset and no next-fragment flag.
pub open spec fn reassembled_header(first: TcpMigHeader) -> TcpMigHeader {
    TcpMigHeader { flag_next_fragment: false, fragment_offset: 0, ..first }
}

/// The fragment count after receiving `hdr`: known once the last fragment (the one
/// without the next-fragment flag) has arrived, as its offset plus one.
pub open spec fn count_after(count: Option<usize>, hdr: TcpMigHeader) -> Option<usize> {
    if count is None && !hdr.flag_next_fragment {
        Some((hdr.fragment_offset + 1) as usize)
    } else {
        count
    }
}

/// Whether receiving `hdr` completes the segment, given the fragments held with it.
pub open spec fn completes(count: Option<usize>, hdr: TcpMigHeader, held: Seq<FragmentView>) -> bool {
    count_after(count, hdr) matches Some(c) && c == held.len()
}

proof fn lemma_insert_position(s: Seq<FragmentView>, off: u16)
    requires
        sorted_by_offset(s),
    ensures
        0 <= insert_position(s, off) <= s.len(),
        forall|i: int| 0 <= i < insert_position(s, off) ==> s[i].0.fragment_offset <= off,
        forall|i: int| insert_position(s, off) <= i < s.len() ==> s[i].0.fragment_offset > off,
    decreases s.len(),
{
    if s.len() > 0 {
        let t = s.drop_last();
        assert(forall|i: int| 0 <= i < t.len() ==> t[i] == s[i]);
        if s.last().0.fragment_offset > off {
            lemma_insert_position(t, off);
        } else {
            assert(forall|i: int| 0 <= i < s.len() ==> #[trigger] s[i].0.fragment_offset <= s[s.len() - 1].0.fragment_offset);
        }
    }
}

proof fn lemma_insert_sorted(s: Seq<FragmentView>, f: FragmentView)
    requires
        sorted_by_offset(s),
    ensures
        sorted_by_offset(insert_fragment(s, f)),
        insert_fragment(s, f).len() == s.len() + 1,
{
    lemma_insert_position(s, f.0.fragment_offset);
}


/// One step of the defragmenter on fragment `f`: the count, the fragments held, and the
/// reassembled segment when `f` completes it.
pub open spec fn defrag_step(count: Option<usize>, held: Seq<FragmentView>, f: FragmentView) -> (
    Option<usize>,
    Seq<FragmentView>,
    Option<(TcpMigHeader, Seq<u8>)>,
) {
    let with_f = insert_fragment(held, f);
    if completes(count, f.0, with_f) {
        (None, Seq::empty(), Some((reassembled_header(with_f[0].0), concat_payloads(with_f))))
    } else {
        (count_after(count, f.0), with_f, None)
    }
}

/// A fresh defragmenter fed `frags` in order: its count, the fragments it holds, and what
/// the last call returned.
pub open spec fn defrag_run(frags: Seq<FragmentView>) -> (
    Option<usize>,
    Seq<FragmentView>,
    Option<(TcpMigHeader, Seq<u8>)>,
)
    decreases frags.len(),
{
    if frags.len() == 0 {
        (None, Seq::empty(), None)
    } else {
        let prev = defrag_run(frags.drop_last());
        defrag_step(prev.0, prev.1, frags.last())
    }
}

/// `frags` are the `n` fragments of one segment, in some order: their offsets are
/// `0..n` without repetition, and every fragment but the one at offset `n - 1` says
/// another follows.
pub open spec fn complete_fragment_set(frags: Seq<FragmentView>, n: nat) -> bool {
    &&& 1 <= n
    &&& frags.len() == n
    &&& forall|i: int| 0 <= i < n ==> #[trigger] frags[i].0.fragment_offset < n
    &&& forall|i: int, j: int|
        0 <= i < j < n ==> #[trigger] frags[i].0.fragment_offset != #[trigger] frags[j].0.fragment_offset
    &&& forall|i: int|
        0 <= i < n ==> #[trigger] frags[i].0.flag_next_fragment == (frags[i].0.fragment_offset + 1
            != n)
}

/// The fragment of `frags` at offset `off`.
pub open spec fn fragment_at(frags: Seq<FragmentView>, off: int) -> FragmentView {
    frags[choose|j: int| 0 <= j < frags.len() && frags[j].0.fragment_offset == off]
}

/// The payloads of the fragments at offsets `0..k`, in offset order.
pub open spec fn payloads_in_offset_order(frags: Seq<FragmentView>, k: int) -> Seq<u8>
    decreases k,
{
    if k <= 0 {
        Seq::empty()
    } else {
        payloads_in_offset_order(frags, k - 1) + fragment_at(frags, k - 1).1
    }
}

/// `s` is ordered by fragment offset, without repeated offsets.
pub open spec fn strictly_sorted_by_offset(s: Seq<FragmentView>) -> bool {
    forall|i: int, j: int|
        0 <= i < j < s.len() ==> #[trigger] s[i].0.fragment_offset < #[trigger] s[j].0.fragment_offset
}

proof fn lemma_insert_strictly_sorted(s: Seq<FragmentView>, f: FragmentView)
    requires
        strictly_sorted_by_offset(s),
        forall|i: int| 0 <= i < s.len() ==> #[trigger] s[i].0.fragment_offset != f.0.fragment_offset,
    ensures
        strictly_sorted_by_offset(insert_fragment(s, f)),
        insert_fragment(s, f).len() == s.len() + 1,
        forall|x: FragmentView| #[trigger] insert_fragment(s, f).contains(x) <==> (x == f || s.contains(x)),
{
    let off = f.0.fragment_offset;
    assert(sorted_by_offset(s));
    lemma_insert_position(s, off);
    let p = insert_position(s, off);
    let t = insert_fragment(s, f);
    s.insert_ensures(p, f);
    assert forall|i: int, j: int| 0 <= i < j < t.len() implies #[trigger] t[i].0.fragment_offset
        < #[trigger] t[j].0.fragment_offset by {
        if j < p {
        } else if j == p {
            assert(s[i].0.fragment_offset <= off);
        } else if i < p {
            assert(t[j] == s[j - 1]);
        } else if i == p {
            assert(t[j] == s[j - 1]);
        } else {
            assert(t[j] == s[j - 1]);
            assert(t[i] == s[i - 1]);
        }
    }
    assert forall|x: FragmentView| #[trigger] t.contains(x) <==> (x == f || s.contains(x)) by {
        if t.contains(x) {
            let i = choose|i: int| 0 <= i < t.len() && #[trigger] t[i] == x;
            if i < p {
                assert(s[i] == x);
            } else if i > p {
                assert(s[i - 1] == x);
            }
        }
        if s.contains(x) {
            let i = choose|i: int| 0 <= i < s.len() && #[trigger] s[i] == x;
            if i < p {
                assert(t[i] == x);
            } else {
                assert(t[i + 1] == x);
            }
        }
        if x == f {
            assert(t[p] == x);
        }
    }
}

/// A strictly increasing sequence of `n` offsets below `n` is `0, 1, ..., n - 1`.
proof fn lemma_offsets_are_positions(s: Seq<FragmentView>)
    requires
        strictly_sorted_by_offset(s),
        forall|i: int| 0 <= i < s.len() ==> #[trigger] s[i].0.fragment_offset < s.len(),
    ensures
        forall|i: int| 0 <= i < s.len() ==> #[trigger] s[i].0.fragment_offset == i,
{
    assert forall|i: int| 0 <= i < s.len() implies #[trigger] s[i].0.fragment_offset >= i by {
        lemma_offset_lower(s, i);
    }
    assert forall|i: int| 0 <= i < s.len() implies #[trigger] s[i].0.fragment_offset <= i by {
        lemma_offset_upper(s, i);
    }
}

proof fn lemma_offset_lower(s: Seq<FragmentView>, i: int)
    requires
        strictly_sorted_by_offset(s),
        0 <= i < s.len(),
    ensures
        s[i].0.fragment_offset >= i,
    decreases i,
{
    if i > 0 {
        lemma_offset_lower(s, i - 1);
        assert(s[i - 1].0.fragment_offset < s[i].0.fragment_offset);
    }
}

proof fn lemma_offset_upper(s: Seq<FragmentView>, i: int)
    requires
        strictly_sorted_by_offset(s),
        forall|k: int| 0 <= k < s.len() ==> #[trigger] s[k].0.fragment_offset < s.len(),
        0 <= i < s.len(),
    ensures
        s[i].0.fragment_offset <= i,
    decreases s.len() - i,
{
    if i < s.len() - 1 {
        lemma_offset_upper(s, i + 1);
        assert(s[i].0.fragment_offset < s[i + 1].0.fragment_offset);
    }
}

/// Before the last fragment arrives, a fresh defragmenter fed the first `k` fragments of
/// a complete set returns nothing, holds exactly those fragments in offset order, and
/// knows the count once the fragment at offset `n - 1` is among them.
proof fn lemma_run_prefix(frags: Seq<FragmentView>, n: nat, k: int)
    requires
        complete_fragment_set(frags, n),
        0 <= k < n,
    ensures
        ({
            let (c, h, r) = defrag_run(frags.take(k));
            &&& r is None
            &&& h.len() == k
            &&& strictly_sorted_by_offset(h)
            &&& forall|x: FragmentView| #[trigger] h.contains(x) <==> frags.take(k).contains(x)
            &&& (c is Some <==> exists|j: int| 0 <= j < k && #[trigger] frags[j].0.fragment_offset + 1 == n)
            &&& c is Some ==> c == Some(n as usize)
        }),
    decreases k,
{
    let t = frags.take(k);
    if k == 0 {
        assert(t =~= Seq::<FragmentView>::empty());
    } else {
        lemma_run_prefix(frags, n, k - 1);
        assert(t.drop_last() =~= frags.take(k - 1));
        assert(t.last() == frags[k - 1]);
        let (c0, h0, r0) = defrag_run(frags.take(k - 1));
        let f = frags[k - 1];
        assert forall|i: int| 0 <= i < h0.len() implies #[trigger] h0[i].0.fragment_offset
            != f.0.fragment_offset by {
            assert(h0.contains(h0[i]));
            let j = choose|j: int| 0 <= j < k - 1 && #[trigger] frags.take(k - 1)[j] == h0[i];
            assert(frags[j] == h0[i]);
        }
        lemma_insert_strictly_sorted(h0, f);
        let h1 = insert_fragment(h0, f);
        assert forall|x: FragmentView| #[trigger] h1.contains(x) <==> t.contains(x) by {
            if t.contains(x) {
                let j = choose|j: int| 0 <= j < k && #[trigger] t[j] == x;
                if j < k - 1 {
                    assert(frags.take(k - 1)[j] == x);
                }
            }
            if frags.take(k - 1).contains(x) {
                let j = choose|j: int| 0 <= j < k - 1 && #[trigger] frags.take(k - 1)[j] == x;
                assert(t[j] == x);
            }
            if x == f {
                assert(t[k - 1] == x);
            }
        }
        let c1 = count_after(c0, f.0);
        if c1 is Some {
            if c0 is None {
                assert(frags[k - 1].0.fragment_offset + 1 == n);
            }
        }
        if exists|j: int| 0 <= j < k && #[trigger] frags[j].0.fragment_offset + 1 == n {
            let j = choose|j: int| 0 <= j < k && #[trigger] frags[j].0.fragment_offset + 1 == n;
            if j == k - 1 {
                assert(!f.0.flag_next_fragment);
            }
        }
    }
}

/// Reassembly: a fresh defragmenter fed the `n` fragments of a segment, in any order,
/// returns nothing until the last one arrives, and then returns the segment: the header
/// of the fragment at offset 0 without fragment offset or next-fragment flag, and the
/// payloads in offset order; it then holds nothing again.
pub proof fn lemma_reassembly(frags: Seq<FragmentView>, n: nat)
    requires
        complete_fragment_set(frags, n),
    ensures
        forall|k: int| 0 <= k < n ==> (#[trigger] defrag_run(frags.take(k))).2 is None,
        defrag_run(frags).2 == Some(
            (reassembled_header(fragment_at(frags, 0).0), payloads_in_offset_order(frags, n as int)),
        ),
        defrag_run(frags).0 is None,
        defrag_run(frags).1 == Seq::<FragmentView>::empty(),
{
    assert forall|k: int| 0 <= k < n implies (#[trigger] defrag_run(frags.take(k))).2 is None by {
        lemma_run_prefix(frags, n, k);
    }
    let k = n - 1;
    lemma_run_prefix(frags, n, k);
    assert(frags.take(n as int) =~= frags);
    assert(frags.drop_last() =~= frags.take(k));
    let (c0, h0, r0) = defrag_run(frags.take(k));
    let f = frags[k];
    assert forall|i: int| 0 <= i < h0.len() implies #[trigger] h0[i].0.fragment_offset
        != f.0.fragment_offset by {
        assert(h0.contains(h0[i]));
        let j = choose|j: int| 0 <= j < k && #[trigger] frags.take(k)[j] == h0[i];
        assert(frags[j] == h0[i]);
    }
    lemma_insert_strictly_sorted(h0, f);
    let h1 = insert_fragment(h0, f);
    // Every fragment held is one of `frags`, so its offset is below `n`.
    assert forall|i: int| 0 <= i < h1.len() implies exists|j: int| 0 <= j < n && frags[j] == #[trigger] h1[i] by {
        assert(h1.contains(h1[i]));
        if h1[i] != f {
            assert(h0.contains(h1[i]));
            let j = choose|j: int| 0 <= j < k && #[trigger] frags.take(k)[j] == h1[i];
            assert(frags[j] == h1[i]);
        } else {
            assert(frags[k] == h1[i]);
        }
    }
    assert forall|i: int| 0 <= i < h1.len() implies #[trigger] h1[i].0.fragment_offset < h1.len() by {
        let j = choose|j: int| 0 <= j < n && #[trigger] frags[j] == h1[i];
        assert(frags[j].0.fragment_offset < n);
    }
    lemma_offsets_are_positions(h1);
    // The fragment at offset `n - 1` has arrived, so the count is known and complete.
    let jl = choose|j: int| 0 <= j < n && #[trigger] frags[j] == h1[n - 1];
    assert(frags[jl].0.fragment_offset + 1 == n);
    if jl < k {
        assert(c0 == Some(n as usize));
    } else {
        assert(!f.0.flag_next_fragment);
    }
    assert(completes(c0, f.0, h1));
    // Held in offset order, the fragments are the fragments at each offset.
    assert forall|i: int| 0 <= i < n implies #[trigger] h1[i] == fragment_at(frags, i) by {
        let j = choose|j: int| 0 <= j < n && #[trigger] frags[j] == h1[i];
        let j2 = choose|j2: int| 0 <= j2 < frags.len() && frags[j2].0.fragment_offset == i;
        assert(frags[j].0.fragment_offset == i);
        if j != j2 {
            if j < j2 {
                assert(frags[j].0.fragment_offset != frags[j2].0.fragment_offset);
            } else {
                assert(frags[j2].0.fragment_offset != frags[j].0.fragment_offset);
            }
        }
    }
    lemma_concat_in_offset_order(frags, h1, n as int);
    assert(h1.take(n as int) =~= h1);
}

proof fn lemma_concat_in_offset_order(frags: Seq<FragmentView>, h: Seq<FragmentView>, i: int)
    requires
        0 <= i <= h.len(),
        forall|k: int| 0 <= k < h.len() ==> #[trigger] h[k] == fragment_at(frags, k),
    ensures
        concat_payloads(h.take(i)) == payloads_in_offset_order(frags, i),
    decreases i,
{
    if i > 0 {
        lemma_concat_in_offset_order(frags, h, i - 1);
        assert(h.take(i).drop_last() =~= h.take(i - 1));
        assert(h.take(i).last() == h[i - 1]);
    } else {
        assert(h.take(0) =~= Seq::<FragmentView>::empty());
    }
}

impl TcpMigDefragmenter {
    #[verifier::type_invariant]
    spec fn fragments_ordered(self) -> bool {
        sorted_by_offset(self.fragments@.map_values(|f: (TcpMigHeader, Buffer)| (f.0, f.1@)))
    }

    /// The fragments held, in offset order.
    pub closed spec fn held(&self) -> Seq<FragmentView> {
        self.fragments@.map_values(|f: (TcpMigHeader, Buffer)| (f.0, f.1@))
    }

    /// The number of fragments of the segment, once its last fragment has arrived.
    pub closed spec fn count(&self) -> Option<usize> {
        self.fragment_count
    }

    /// The number of fragments of the segment, once its last fragment has arrived.
    pub fn fragment_count(&self) -> (c: Option<usize>)
        ensures
            c == self.count(),
    {
        self.fragment_count
    }

    /// The number of fragments held.
    pub fn held_len(&self) -> (n: usize)
        ensures
            n == self.held().len(),
    {
        self.fragments.len()
    }

    /// A defragmenter holding no fragments.
    pub fn new() -> (d: TcpMigDefragmenter)
        ensures
            d.count() is None,
            d.held() == Seq::<FragmentView>::empty(),
    {
        let d = TcpMigDefragmenter { fragment_count: None, fragments: Vec::new() };
        assert(d.held() =~= Seq::<FragmentView>::empty());
        d
    }

    /// Takes fragment `(hdr, buf)`. Returns the reassembled segment once all its
    /// fragments have arrived, and `None` until then.
    pub fn defragment(&mut self, hdr: TcpMigHeader, buf: Buffer) -> (r: Option<(TcpMigHeader, Buffer)>)
        requires
            old(self).count() is None && !hdr.flag_next_fragment ==> hdr.fragment_offset + 1
                >= old(self).held().len(),
            old(self).held().len() + 1 <= usize::MAX,
        ensures
            ({
                let (count, held, result) = defrag_step(old(self).count(), old(self).held(), (hdr, buf@));
                &&& final(self).count() == count
                &&& final(self).held() == held
                &&& match result {
                    Some((h, bytes)) => r matches Some((rh, rb)) && rh == h && rb@ == bytes,
                    None => r is None,
                }
            }),
    {
        proof {
            use_type_invariant(&*self);
        }
        if self.fragment_count.is_none() {
            if !hdr.flag_next_fragment {
                let count = hdr.fragment_offset as usize + 1;
                self.fragment_count = Some(count);
            }
        }
        let ghost old_held = old(self).held();
        let pos = Self::position_for(&self.fragments, hdr.fragment_offset);
        let ghost held = insert_fragment(old_held, (hdr, buf@));
        let mut fragments: Vec<(TcpMigHeader, Buffer)> = Vec::new();
        std::mem::swap(&mut fragments, &mut self.fragments);
        proof {
            lemma_insert_position(old_held, hdr.fragment_offset);
            assert(fragments@.map_values(|f: (TcpMigHeader, Buffer)| (f.0, f.1@)) == old_held);
        }
        let ghost before = fragments@;
        fragments.insert(pos, (hdr, buf));
        assert(fragments@ == before.insert(pos as int, (hdr, buf)));
        assert(fragments@.map_values(|f: (TcpMigHeader, Buffer)| (f.0, f.1@)) =~= held);
        proof {
            lemma_insert_sorted(old_held, (hdr, buf@));
        }
        self.fragments = fragments;
        let count = match self.fragment_count {
            Some(c) => c,
            None => return None,
        };
        if count != self.fragments.len() {
            None
        } else {
            let mut first = self.fragments[0].0;
            first.flag_next_fragment = false;
            first.fragment_offset = 0;
            let bytes = Self::concat_all(&self.fragments);
            self.reset();
            Some((first, Buffer::from_slice(bytes.as_slice())))
        }
    }

    /// The index at which a fragment with offset `off` goes in the ordered `fragments`.
    fn position_for(fragments: &Vec<(TcpMigHeader, Buffer)>, off: u16) -> (pos: usize)
        requires
            sorted_by_offset(fragments@.map_values(|f: (TcpMigHeader, Buffer)| (f.0, f.1@))),
        ensures
            pos == insert_position(
                fragments@.map_values(|f: (TcpMigHeader, Buffer)| (f.0, f.1@)),
                off,
            ),
    {
        let ghost v = fragments@.map_values(|f: (TcpMigHeader, Buffer)| (f.0, f.1@));
        let mut pos: usize = fragments.len();
        while pos > 0 && fragments[pos - 1].0.fragment_offset > off
            invariant
                pos <= fragments@.len(),
                v == fragments@.map_values(|f: (TcpMigHeader, Buffer)| (f.0, f.1@)),
                sorted_by_offset(v),
                forall|i: int| pos <= i < v.len() ==> v[i].0.fragment_offset > off,
            decreases pos,
        {
            pos = pos - 1;
        }
        proof {
            lemma_insert_position(v, off);
            if pos < insert_position(v, off) {
                assert(v[pos as int].0.fragment_offset > off);
            }
            if pos > insert_position(v, off) {
                assert(v[pos - 1].0.fragment_offset <= off);
            }
        }
        pos
    }

    /// The payloads of `fragments`, one after another, in a new vector.
    fn concat_all(fragments: &Vec<(TcpMigHeader, Buffer)>) -> (bytes: Vec<u8>)
        ensures
            bytes@ == concat_payloads(
                fragments@.map_values(|f: (TcpMigHeader, Buffer)| (f.0, f.1@)),
            ),
    {
        let ghost held = fragments@.map_values(|f: (TcpMigHeader, Buffer)| (f.0, f.1@));
        let mut bytes: Vec<u8> = Vec::new();
        let mut k: usize = 0;
        while k < fragments.len()
            invariant
                k <= fragments@.len(),
                held == fragments@.map_values(|f: (TcpMigHeader, Buffer)| (f.0, f.1@)),
                bytes@ == concat_payloads(held.subrange(0, k as int)),
            decreases fragments@.len() - k,
        {
            let piece: &[u8] = fragments[k].1.as_slice();
            let ghost before = bytes@;
            let mut j: usize = 0;
            while j < piece.len()
                invariant
                    j <= piece@.len(),
                    bytes@ == before + piece@.subrange(0, j as int),
                decreases piece@.len() - j,
            {
                bytes.push(piece[j]);
                j = j + 1;
                assert(bytes@ =~= before + piece@.subrange(0, j as int));
            }
            assert(piece@ == held[k as int].1);
            assert(held.subrange(0, k + 1).drop_last() =~= held.subrange(0, k as int));
            assert(bytes@ =~= before + piece@);
            k = k + 1;
        }
        assert(held.subrange(0, held.len() as int) =~= held);
        bytes
    }

    /// Forgets the fragment count and every fragment held.
    fn reset(&mut self)
        ensures
            final(self).count() is None,
            final(self).held() == Seq::<FragmentView>::empty(),
    {
        proof {
            use_type_invariant(&*self);
        }
        self.fragment_count = None;
        self.fragments = Vec::new();
        assert(self.held() =~= Seq::<FragmentView>::empty());
    }
}

} // verus!
