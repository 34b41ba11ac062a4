//! The storage capability that stages rely on, and a fixed-capacity array.
use vstd::prelude::*;

use vstd::array::*;

use crate::text::push_char;

verus! {

/// Indicates there was no room in whatever you were trying to push the value into.
#[derive(Clone, Copy, PartialEq, Eq, PartialOrd, Ord, Debug, Structural)]
pub struct DatumNoRoomError;

/// Fallible push.
pub trait DatumPushable<V>: Sized {
    /// The elements held, in order.
    spec fn items(&self) -> Seq<V>;

    /// Whether one more element fits.
    spec fn has_room(&self) -> bool;

    /// Appends an element where there is room; else fails and changes nothing.
    fn push(&mut self, entry: V) -> (r: Result<(), DatumNoRoomError>)
        ensures
            old(self).has_room() ==> r is Ok && final(self).items() == old(self).items().push(entry),
            !old(self).has_room() ==> r is Err && final(self).items() == old(self).items(),
    ;
}

/// Array-like entity.
/// Implemented for vec and Datum's own fixed-array type.
pub trait DatumArray<V>: DatumPushable<V> {
    /// Pops the last element.
    fn pop(&mut self) -> (r: Option<V>)
        ensures
            old(self).items().len() == 0 ==> r is None && final(self).items() == old(self).items(),
            old(self).items().len() > 0 ==> r == Some(old(self).items().last()) && final(self).items()
                == old(self).items().drop_last(),
    ;

    /// Returns the array length.
    fn len(&self) -> (r: usize)
        ensures
            r == self.items().len(),
    ;

    /// Returns true if the array is empty.
    fn is_empty(&self) -> (r: bool)
        ensures
            r == (self.items().len() == 0),
    {
        self.len() == 0
    }
}

impl DatumPushable<char> for String {
    open spec fn items(&self) -> Seq<char> {
        self@
    }

    open spec fn has_room(&self) -> bool {
        true
    }

    fn push(&mut self, entry: char) -> (r: Result<(), DatumNoRoomError>) {
        push_char(self, entry);
        Ok(())
    }
}

impl<V> DatumPushable<V> for Vec<V> {
    open spec fn items(&self) -> Seq<V> {
        self@
    }

    open spec fn has_room(&self) -> bool {
        true
    }

    fn push(&mut self, entry: V) -> (r: Result<(), DatumNoRoomError>) {
        Vec::push(self, entry);
        Ok(())
    }
}

impl<V> DatumArray<V> for Vec<V> {
    fn pop(&mut self) -> (r: Option<V>) {
        Vec::pop(self)
    }

    fn len(&self) -> (r: usize) {
        Vec::len(self)
    }
}

/// A buffer for the text of a token being built: characters are pushed where
/// there is room, and the text is taken out whole.
pub trait DatumTextBuffer: DatumPushable<char> {
    /// Whether a buffer of `len` characters is within its capacity.
    spec fn holds(len: nat) -> bool;

    /// Room for one more character is room for one more within the capacity; an
    /// empty buffer is within it.
    proof fn lemma_room(&self)
        ensures
            self.has_room() == Self::holds(self.items().len() + 1),
            Self::holds(0),
    ;

    /// An empty buffer.
    fn empty() -> (r: Self)
        ensures
            r.items() == Seq::<char>::empty(),
    ;

    /// Takes the text out, leaving the buffer empty.
    fn take_text(&mut self) -> (r: String)
        ensures
            r@ == old(self).items(),
            final(self).items() == Seq::<char>::empty(),
    ;
}

impl DatumTextBuffer for String {
    open spec fn holds(len: nat) -> bool {
        true
    }

    proof fn lemma_room(&self) {
    }

    fn empty() -> (r: Self) {
        String::new()
    }

    fn take_text(&mut self) -> (r: String) {
        let mut text = String::new();
        core::mem::swap(&mut text, self);
        text
    }
}

/// Fixed-capacity array: a preallocated array of `SIZE` slots, of which the first
/// `len` hold elements.
#[derive(Copy, Debug)]
pub struct DatumFixedArray<V: Copy + Default, const SIZE: usize> {
    len: usize,
    slots: [V; SIZE],
}

impl<V: Copy + Default, const SIZE: usize> DatumFixedArray<V, SIZE> {
    #[verifier::type_invariant]
    spec fn inv(&self) -> bool {
        self.len <= SIZE
    }

    /// An empty array.
    pub fn new() -> (r: Self)
        ensures
            r.items() == Seq::<V>::empty(),
    {
        let r = DatumFixedArray { len: 0, slots: [V::default(); SIZE] };
        assert(r.slots@.subrange(0, 0) =~= Seq::<V>::empty());
        r
    }

    /// Consumes the array into an iterator over its elements, in order.
    pub fn into_iter(self) -> (r: DatumFixedArrayIter<V, SIZE>)
        ensures
            r.rest() == self.items(),
    {
        proof {
            use_type_invariant(&self);
        }
        let r = DatumFixedArrayIter { next: 0, array: self };
        assert(r.array.slots@.subrange(0, r.array.len as int) =~= self.items());
        r
    }
}

impl<V: Copy + Default, const SIZE: usize> Clone for DatumFixedArray<V, SIZE> {
    fn clone(&self) -> (r: Self)
        ensures
            r == *self,
    {
        *self
    }
}

impl<V: Copy + Default, const SIZE: usize> Default for DatumFixedArray<V, SIZE> {
    fn default() -> (r: Self)
        ensures
            r.items() == Seq::<V>::empty(),
    {
        Self::new()
    }
}

impl<V: Copy + Default, const SIZE: usize> DatumPushable<V> for DatumFixedArray<V, SIZE> {
    closed spec fn items(&self) -> Seq<V> {
        self.slots@.subrange(0, self.len as int)
    }

    closed spec fn has_room(&self) -> bool {
        self.items().len() < SIZE
    }

    fn push(&mut self, entry: V) -> (r: Result<(), DatumNoRoomError>) {
        proof {
            use_type_invariant(&*self);
        }
        if self.len >= SIZE {
            Err(DatumNoRoomError)
        } else {
            let mut slots = self.slots;
            slots.set(self.len, entry);
            self.slots = slots;
            self.len = self.len + 1;
            assert(self.slots@.subrange(0, self.len as int) =~= old(self).items().push(entry));
            Ok(())
        }
    }
}

impl<V: Copy + Default, const SIZE: usize> DatumArray<V> for DatumFixedArray<V, SIZE> {
    fn pop(&mut self) -> (r: Option<V>) {
        proof {
            use_type_invariant(&*self);
        }
        if self.len == 0 {
            None
        } else {
            self.len = self.len - 1;
            let v = self.slots[self.len];
            assert(self.slots@.subrange(0, self.len as int) =~= old(self).items().drop_last());
            Some(v)
        }
    }

    fn len(&self) -> (r: usize) {
        proof {
            use_type_invariant(self);
        }
        self.len
    }
}

impl<const SIZE: usize> DatumTextBuffer for DatumFixedArray<char, SIZE> {
    open spec fn holds(len: nat) -> bool {
        len <= SIZE
    }

    proof fn lemma_room(&self) {
    }

    fn empty() -> (r: Self) {
        Self::new()
    }

    fn take_text(&mut self) -> (r: String) {
        proof {
            use_type_invariant(&*self);
        }
        let mut text = String::new();
        let mut i: usize = 0;
        while i < self.len
            invariant
                self.len <= SIZE,
                i <= self.len,
                self.items() == old(self).items(),
                text@ == self.slots@.subrange(0, i as int),
            decreases self.len - i,
        {
            push_char(&mut text, self.slots[i]);
            i = i + 1;
            assert(text@ =~= self.slots@.subrange(0, i as int));
        }
        self.len = 0;
        assert(self.slots@.subrange(0, 0) =~= Seq::<char>::empty());
        text
    }
}

/// Iterator for DatumFixedArray: hands out the elements in order.
pub struct DatumFixedArrayIter<V: Copy + Default, const SIZE: usize> {
    next: usize,
    array: DatumFixedArray<V, SIZE>,
}

impl<V: Copy + Default, const SIZE: usize> DatumFixedArrayIter<V, SIZE> {
    #[verifier::type_invariant]
    spec fn inv(&self) -> bool {
        self.next <= self.array.len
    }

    /// The elements not handed out yet.
    pub closed spec fn rest(&self) -> Seq<V> {
        self.array.slots@.subrange(self.next as int, self.array.len as int)
    }

    /// The next element, if any.
    pub fn next(&mut self) -> (r: Option<V>)
        ensures
            old(self).rest().len() == 0 ==> r is None && final(self).rest() == old(self).rest(),
            old(self).rest().len() > 0 ==> r == Some(old(self).rest()[0]) && final(self).rest()
                == old(self).rest().drop_first(),
    {
        proof {
            use_type_invariant(&*self);
            use_type_invariant(&self.array);
        }
        if self.next >= self.array.len {
            None
        } else {
            let v = self.array.slots[self.next];
            self.next = self.next + 1;
            assert(self.rest() =~= old(self).rest().drop_first());
            Some(v)
        }
    }
}

} // verus!
