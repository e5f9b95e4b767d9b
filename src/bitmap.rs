//! Fixed-size bitmaps for tracking marked objects and used lines.
use vstd::prelude::*;

verus! {

/// The number of bits in an object map: one per object slot of a block.
pub const OBJECT_MAP_BITS: usize = 1024;

/// The number of bits in a line map: one per line of a block.
pub const LINE_MAP_BITS: usize = 256;

/// The number of set bits in `s`.
pub open spec fn count_set(s: Seq<bool>) -> nat
    decreases s.len(),
{
    if s.len() == 0 {
        0
    } else {
        count_set(s.drop_last()) + if s.last() {
            1nat
        } else {
            0nat
        }
    }
}

/// A sequence with no bit set counts zero, and only such a sequence does.
pub proof fn lemma_count_set_zero(s: Seq<bool>)
    ensures
        (count_set(s) == 0) <==> (forall|i: int| 0 <= i < s.len() ==> !s[i]),
    decreases s.len(),
{
    if s.len() > 0 {
        lemma_count_set_zero(s.drop_last());
        if count_set(s) == 0 {
            assert forall|i: int| 0 <= i < s.len() implies !s[i] by {
                if i < s.len() - 1 {
                    assert(s.drop_last()[i] == s[i]);
                }
            }
        }
        if forall|i: int| 0 <= i < s.len() ==> !s[i] {
            assert forall|i: int| 0 <= i < s.drop_last().len() implies !s.drop_last()[i] by {
                assert(s.drop_last()[i] == s[i]);
            }
        }
    }
}

/// No more bits are set than there are bits.
pub proof fn lemma_count_set_bound(s: Seq<bool>)
    ensures
        count_set(s) <= s.len(),
    decreases s.len(),
{
    if s.len() > 0 {
        lemma_count_set_bound(s.drop_last());
    }
}

/// A bitmap of a fixed number of bits.
pub struct Bitmap {
    bits: Vec<bool>,
}

/// A bitmap with one bit per object slot.
pub type ObjectMap = Bitmap;

/// A bitmap with one bit per line.
pub type LineMap = Bitmap;

impl View for Bitmap {
    type V = Seq<bool>;

    closed spec fn view(&self) -> Seq<bool> {
        self.bits@
    }
}

impl Bitmap {
    /// A bitmap of `size` bits, none of them set.
    pub fn with_size(size: usize) -> (r: Self)
        ensures
            r@.len() == size,
            forall|i: int| 0 <= i < size ==> !r@[i],
    {
        let mut bits: Vec<bool> = Vec::new();
        let mut i: usize = 0;
        while i < size
            invariant
                i <= size,
                bits@.len() == i,
                forall|j: int| 0 <= j < i ==> !bits@[j],
            decreases size - i,
        {
            bits.push(false);
            i = i + 1;
        }
        Bitmap { bits }
    }

    /// An object map: one bit for each slot of a block.
    pub fn object_map() -> (r: ObjectMap)
        ensures
            r@.len() == OBJECT_MAP_BITS,
            forall|i: int| 0 <= i < OBJECT_MAP_BITS ==> !r@[i],
    {
        Bitmap::with_size(OBJECT_MAP_BITS)
    }

    /// A line map: one bit for each line of a block.
    pub fn line_map() -> (r: LineMap)
        ensures
            r@.len() == LINE_MAP_BITS,
            forall|i: int| 0 <= i < LINE_MAP_BITS ==> !r@[i],
    {
        Bitmap::with_size(LINE_MAP_BITS)
    }

    /// The number of bits of this bitmap.
    pub fn size(&self) -> (r: usize)
        ensures
            r == self@.len(),
    {
        self.bits.len()
    }

    pub fn set(&mut self, index: usize)
        requires
            index < old(self)@.len(),
        ensures
            final(self)@ == old(self)@.update(index as int, true),
    {
        self.bits.set(index, true);
    }

    pub fn unset(&mut self, index: usize)
        requires
            index < old(self)@.len(),
        ensures
            final(self)@ == old(self)@.update(index as int, false),
    {
        self.bits.set(index, false);
    }

    pub fn is_set(&self, index: usize) -> (r: bool)
        requires
            index < self@.len(),
        ensures
            r == self@[index as int],
    {
        self.bits[index]
    }

    /// Clears every bit.
    pub fn reset(&mut self)
        ensures
            final(self)@.len() == old(self)@.len(),
            forall|i: int| 0 <= i < final(self)@.len() ==> !final(self)@[i],
    {
        let n = self.bits.len();
        let mut i: usize = 0;
        while i < n
            invariant
                i <= n,
                self.bits@.len() == n,
                n == old(self)@.len(),
                forall|j: int| 0 <= j < i ==> !self.bits@[j],
            decreases n - i,
        {
            self.bits.set(i, false);
            i = i + 1;
        }
    }

    /// The number of set bits.
    pub fn len(&self) -> (r: usize)
        ensures
            r == count_set(self@),
    {
        let n = self.bits.len();
        let mut count: usize = 0;
        let mut i: usize = 0;
        while i < n
            invariant
                i <= n,
                n == self@.len(),
                count == count_set(self@.subrange(0, i as int)),
            decreases n - i,
        {
            proof {
                assert(self@.subrange(0, i + 1).drop_last() =~= self@.subrange(0, i as int));
                lemma_count_set_bound(self@.subrange(0, i as int));
            }
            if self.bits[i] {
                count = count + 1;
            }
            i = i + 1;
        }
        assert(self@.subrange(0, n as int) =~= self@);
        count
    }

    /// Returns true when no bit is set.
    pub fn is_empty(&self) -> (r: bool)
        ensures
            r == (count_set(self@) == 0),
            r == (forall|i: int| 0 <= i < self@.len() ==> !self@[i]),
    {
        proof {
            lemma_count_set_zero(self@);
        }
        self.len() == 0
    }
}

} // verus!
