use vstd::prelude::*;

verus! {

/// A bump allocator used to store uniforms: values are stored one after
/// the other as bytes, and all are dropped at once.
pub struct BumpAllocator {
    data: Vec<u8>,
}

/// Where a stored value's bytes start, and how many there are.
#[derive(Clone, Copy, Debug)]
pub struct BumpHandle {
    offset: usize,
    size: usize,
}

impl BumpHandle {
    pub closed spec fn offset(&self) -> int {
        self.offset as int
    }

    pub closed spec fn size(&self) -> int {
        self.size as int
    }
}

/// The bytes of a stored value: what it holds, then zeros, as many as
/// `size * offset % 4`.
pub open spec fn stored(offset: int, bytes: Seq<u8>) -> Seq<u8> {
    bytes + Seq::new(((bytes.len() * offset) % 4) as nat, |i: int| 0u8)
}

impl BumpAllocator {
    /// The bytes stored so far.
    pub closed spec fn data(&self) -> Seq<u8> {
        self.data@
    }

    pub fn new() -> (r: Self)
        ensures
            r.data() == Seq::<u8>::empty(),
    {
        Self { data: Vec::new() }
    }

    /// Drops everything stored.
    pub fn clear(&mut self)
        ensures
            final(self).data() == Seq::<u8>::empty(),
    {
        self.data.clear();
    }

    /// Stores a value given by its bytes and gives back where it went.
    pub fn push(&mut self, item: &[u8]) -> (h: BumpHandle)
        requires
            item@.len() * old(self).data().len() <= usize::MAX,
            old(self).data().len() + item@.len() + 3 <= usize::MAX,
        ensures
            h.offset() == old(self).data().len(),
            h.size() == item@.len(),
            final(self).data() == old(self).data() + stored(h.offset(), item@),
    {
        let offset = self.data.len();
        let size = item.len();
        let mut i: usize = 0;
        while i < size
            invariant
                i <= size,
                size == item@.len(),
                offset == old(self).data().len(),
                self.data@ == old(self).data() + item@.take(i as int),
            decreases size - i,
        {
            self.data.push(item[i]);
            i += 1;
            assert(self.data@ =~= old(self).data() + item@.take(i as int));
        }
        assert(item@.take(size as int) =~= item@);
        let byte_align_remainder = (size * offset) % 4;
        let mut k: usize = 0;
        while k < byte_align_remainder
            invariant
                k <= byte_align_remainder,
                byte_align_remainder == (item@.len() * old(self).data().len()) % 4,
                self.data@ == old(self).data() + item@ + Seq::new(k as nat, |j: int| 0u8),
            decreases byte_align_remainder - k,
        {
            self.data.push(0);
            k += 1;
            assert(self.data@ =~= old(self).data() + item@ + Seq::new(k as nat, |j: int| 0u8));
        }
        assert(self.data@ =~= old(self).data() + stored(offset as int, item@));
        BumpHandle { offset, size }
    }

    /// The bytes of a stored value.
    pub fn get_any(&self, handle: &BumpHandle) -> (r: Vec<u8>)
        requires
            handle.offset() + handle.size() <= self.data().len(),
        ensures
            r@ == self.data().subrange(handle.offset(), handle.offset() + handle.size()),
    {
        let mut r: Vec<u8> = Vec::new();
        let mut i: usize = 0;
        let n = self.data.len();
        while i < handle.size
            invariant
                i <= handle.size,
                n == self.data@.len(),
                handle.offset() + handle.size() <= n,
                r@ == self.data@.subrange(handle.offset(), handle.offset() + i),
            decreases handle.size - i,
        {
            r.push(self.data[handle.offset + i]);
            i += 1;
            assert(r@ =~= self.data@.subrange(handle.offset(), handle.offset() + i));
        }
        r
    }
}

/// Storing a value leaves what was stored before in place, and reading it
/// back through its handle gives its bytes.
pub proof fn lemma_push_then_get(before: Seq<u8>, item: Seq<u8>, after: Seq<u8>, h: BumpHandle)
    requires
        h.offset() == before.len(),
        h.size() == item.len(),
        after == before + stored(h.offset(), item),
    ensures
        after.subrange(h.offset(), h.offset() + h.size()) == item,
        after.subrange(0, before.len() as int) == before,
{
    assert(after.subrange(h.offset(), h.offset() + h.size()) =~= item);
    assert(after.subrange(0, before.len() as int) =~= before);
}

} // verus!
