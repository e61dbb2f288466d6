//! Byte buffers whose front and back can be cut off without copying.

use vstd::prelude::*;

verus! {

/// A heap buffer: a window `[offset, offset + len)` onto an owned byte vector.
#[derive(Debug)]
pub struct DataBuffer {
    data: Vec<u8>,
    offset: usize,
    len: usize,
}

impl DataBuffer {
    #[verifier::type_invariant]
    spec fn window_in_bounds(self) -> bool {
        self.offset + self.len <= self.data@.len()
    }
}

impl View for DataBuffer {
    type V = Seq<u8>;

    closed spec fn view(&self) -> Seq<u8> {
        self.data@.subrange(self.offset as int, self.offset + self.len)
    }
}

impl DataBuffer {
    /// A buffer holding no bytes.
    pub fn empty() -> (b: DataBuffer)
        ensures
            b@ == Seq::<u8>::empty(),
    {
        let b = DataBuffer { data: Vec::new(), offset: 0, len: 0 };
        assert(b@ =~= Seq::<u8>::empty());
        b
    }

    /// A buffer holding a copy of `bytes`.
    pub fn from_slice(bytes: &[u8]) -> (b: DataBuffer)
        ensures
            b@ == bytes@,
    {
        let mut data: Vec<u8> = Vec::with_capacity(bytes.len());
        let mut i: usize = 0;
        while i < bytes.len()
            invariant
                i <= bytes@.len(),
                data@ == bytes@.subrange(0, i as int),
            decreases bytes@.len() - i,
        {
            data.push(bytes[i]);
            i = i + 1;
            assert(data@ =~= bytes@.subrange(0, i as int));
        }
        let n = data.len();
        let b = DataBuffer { data, offset: 0, len: n };
        assert(b@ =~= bytes@);
        b
    }

    /// Number of bytes in the buffer.
    pub fn len(&self) -> (n: usize)
        ensures
            n == self@.len(),
    {
        proof {
            use_type_invariant(self);
        }
        self.len
    }

    /// The bytes of the buffer.
    pub fn as_slice(&self) -> (s: &[u8])
        ensures
            s@ == self@,
    {
        proof {
            use_type_invariant(self);
        }
        let _total: usize = self.data.len();
        &self.data.as_slice()[self.offset..self.offset + self.len]
    }

    /// Removes `nbytes` bytes from the front of the buffer.
    pub fn adjust(&mut self, nbytes: usize)
        requires
            nbytes <= old(self)@.len(),
        ensures
            final(self)@ == old(self)@.subrange(nbytes as int, old(self)@.len() as int),
    {
        proof {
            use_type_invariant(&*self);
        }
        let _total: usize = self.data.len();
        self.len = self.len - nbytes;
        self.offset = self.offset + nbytes;
        assert(self@ =~= old(self)@.subrange(nbytes as int, old(self)@.len() as int));
    }

    /// Removes `nbytes` bytes from the end of the buffer.
    pub fn trim(&mut self, nbytes: usize)
        requires
            nbytes <= old(self)@.len(),
        ensures
            final(self)@ == old(self)@.subrange(0, old(self)@.len() - nbytes),
    {
        proof {
            use_type_invariant(&*self);
        }
        self.len = self.len - nbytes;
        assert(self@ =~= old(self)@.subrange(0, old(self)@.len() - nbytes));
    }
}

impl Clone for DataBuffer {
    fn clone(&self) -> (r: DataBuffer)
        ensures
            r@ == self@,
    {
        DataBuffer::from_slice(self.as_slice())
    }
}

/// A network buffer. Packets read from and written to the wire live in one.
#[derive(Debug, Clone)]
pub enum Buffer {
    Heap(DataBuffer),
}

impl View for Buffer {
    type V = Seq<u8>;

    open spec fn view(&self) -> Seq<u8> {
        match self {
            Buffer::Heap(d) => d@,
        }
    }
}

impl Buffer {
    /// A heap buffer holding a copy of `bytes`.
    pub fn from_slice(bytes: &[u8]) -> (b: Buffer)
        ensures
            b@ == bytes@,
    {
        Buffer::Heap(DataBuffer::from_slice(bytes))
    }

    /// A heap buffer holding no bytes.
    pub fn empty() -> (b: Buffer)
        ensures
            b@ == Seq::<u8>::empty(),
    {
        Buffer::Heap(DataBuffer::empty())
    }

    /// Number of bytes in the buffer.
    pub fn len(&self) -> (n: usize)
        ensures
            n == self@.len(),
    {
        match self {
            Buffer::Heap(d) => d.len(),
        }
    }

    /// The bytes of the buffer.
    pub fn as_slice(&self) -> (s: &[u8])
        ensures
            s@ == self@,
    {
        match self {
            Buffer::Heap(d) => d.as_slice(),
        }
    }

    /// A vector holding a copy of the bytes of the buffer.
    pub fn to_vec(&self) -> (v: Vec<u8>)
        ensures
            v@ == self@,
    {
        let s = self.as_slice();
        let mut v: Vec<u8> = Vec::with_capacity(s.len());
        let mut i: usize = 0;
        while i < s.len()
            invariant
                i <= s@.len(),
                v@ == s@.subrange(0, i as int),
            decreases s@.len() - i,
        {
            v.push(s[i]);
            i = i + 1;
            assert(v@ =~= s@.subrange(0, i as int));
        }
        assert(v@ =~= s@);
        v
    }

    /// Removes bytes from the front of the target data buffer.
    pub fn adjust(&mut self, nbytes: usize)
        requires
            nbytes <= old(self)@.len(),
        ensures
            final(self)@ == old(self)@.subrange(nbytes as int, old(self)@.len() as int),
    {
        match self {
            Buffer::Heap(d) => d.adjust(nbytes),
        }
    }

    /// Removes bytes from the end of the target data buffer.
    pub fn trim(&mut self, nbytes: usize)
        requires
            nbytes <= old(self)@.len(),
        ensures
            final(self)@ == old(self)@.subrange(0, old(self)@.len() - nbytes),
    {
        match self {
            Buffer::Heap(d) => d.trim(nbytes),
        }
    }
}

/// Two buffers are equal when they hold the same bytes.
impl PartialEq for Buffer {
    fn eq(&self, other: &Self) -> (r: bool) {
        let a = self.as_slice();
        let b = other.as_slice();
        if a.len() != b.len() {
            return false;
        }
        let mut i: usize = 0;
        while i < a.len()
            invariant
                a@ == self@,
                b@ == other@,
                a@.len() == b@.len(),
                i <= a@.len(),
                forall|k: int| 0 <= k < i ==> a@[k] == b@[k],
            decreases a@.len() - i,
        {
            if a[i] != b[i] {
                return false;
            }
            i = i + 1;
        }
        assert(a@ =~= b@);
        true
    }
}

impl vstd::std_specs::cmp::PartialEqSpecImpl for Buffer {
    open spec fn obeys_eq_spec() -> bool {
        true
    }

    open spec fn eq_spec(&self, other: &Self) -> bool {
        self@ == other@
    }
}

impl Eq for Buffer {}

} // verus!
