//! Byte buffers for text being built, with an optional fixed capacity.
use vstd::prelude::*;
use vstd::array::*;

verus! {

/// A place to keep the bytes of a token being built.
/// Some users want strict limits on the length of a token, so pushing may fail.
pub trait DatumBuffer: Sized {
    /// The bytes held, in order.
    spec fn bytes(&self) -> Seq<u8>;

    /// Whether one more byte fits.
    spec fn has_room(&self) -> bool;

    /// Truncates the buffer's contents to be at most the given length.
    fn truncate(&mut self, len: usize)
        ensures
            len < old(self).bytes().len() ==> final(self).bytes() == old(self).bytes().subrange(0, len as int),
            len >= old(self).bytes().len() ==> final(self).bytes() == old(self).bytes(),
    ;

    /// Attempts to push a byte to the end of this buffer; returns true on success.
    fn push(&mut self, byte: u8) -> (r: bool)
        ensures
            r == old(self).has_room(),
            r ==> final(self).bytes() == old(self).bytes().push(byte),
            !r ==> final(self).bytes() == old(self).bytes(),
    ;

    /// The number of bytes held.
    fn len(&self) -> (r: usize)
        ensures
            r == self.bytes().len(),
    ;
}

impl DatumBuffer for Vec<u8> {
    open spec fn bytes(&self) -> Seq<u8> {
        self@
    }

    open spec fn has_room(&self) -> bool {
        true
    }

    fn truncate(&mut self, len: usize) {
        Vec::truncate(self, len);
    }

    fn push(&mut self, byte: u8) -> (r: bool) {
        Vec::push(self, byte);
        true
    }

    fn len(&self) -> (r: usize) {
        Vec::len(self)
    }
}

/// Fixed-capacity byte buffer: a preallocated array of `SIZE` bytes, of which the
/// first `len` are held.
#[derive(Copy, Debug)]
pub struct DatumFixedBuffer<const SIZE: usize> {
    len: usize,
    data: [u8; SIZE],
}

impl<const SIZE: usize> DatumFixedBuffer<SIZE> {
    #[verifier::type_invariant]
    spec fn inv(&self) -> bool {
        self.len <= SIZE
    }

    /// An empty buffer.
    pub fn new() -> (r: Self)
        ensures
            r.bytes() == Seq::<u8>::empty(),
    {
        let r = DatumFixedBuffer { len: 0, data: [0u8; SIZE] };
        assert(r.data@.subrange(0, 0) =~= Seq::<u8>::empty());
        r
    }

    /// The bytes held.
    pub fn as_slice(&self) -> (r: &[u8])
        ensures
            r@ == self.bytes(),
    {
        proof {
            use_type_invariant(self);
        }
        vstd::slice::slice_subrange(self.data.as_slice(), 0, self.len)
    }
}

impl<const SIZE: usize> Clone for DatumFixedBuffer<SIZE> {
    fn clone(&self) -> (r: Self)
        ensures
            r == *self,
    {
        *self
    }
}

impl<const SIZE: usize> Default for DatumFixedBuffer<SIZE> {
    fn default() -> (r: Self)
        ensures
            r.bytes() == Seq::<u8>::empty(),
    {
        Self::new()
    }
}

impl<const SIZE: usize> DatumBuffer for DatumFixedBuffer<SIZE> {
    closed spec fn bytes(&self) -> Seq<u8> {
        self.data@.subrange(0, self.len as int)
    }

    closed spec fn has_room(&self) -> bool {
        self.len < SIZE
    }

    fn truncate(&mut self, len: usize) {
        proof {
            use_type_invariant(&*self);
        }
        if len < self.len {
            self.len = len;
            assert(self.data@.subrange(0, len as int) =~= old(self).bytes().subrange(0, len as int));
        }
    }

    fn push(&mut self, byte: u8) -> (r: bool) {
        proof {
            use_type_invariant(&*self);
        }
        if self.len >= SIZE {
            false
        } else {
            let mut data = self.data;
            data.set(self.len, byte);
            self.data = data;
            self.len = self.len + 1;
            assert(self.data@.subrange(0, self.len as int) =~= old(self).bytes().push(byte));
            true
        }
    }

    fn len(&self) -> (r: usize) {
        proof {
            use_type_invariant(self);
        }
        self.len
    }
}

} // verus!
