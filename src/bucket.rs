//! Buckets: collections of blocks of one age, and how objects are allocated
//! into them.
use vstd::prelude::*;

use crate::block::{Block, BlockStatus, MAILBOX, hole_count};
use crate::global_allocator::{
    GlobalAllocator,
    apart,
    distinct,
    lemma_apart_after_request,
    pool_shrunk,
};
use crate::object::{BYTES_PER_OBJECT, Object, ObjectPointer, block_of};

verus! {

/// A block is considered fragmented when it has more holes than this.
pub const FRAGMENTATION_HOLES: usize = 8;

/// The most blocks marked for evacuation in one collection cycle.
pub const MAX_EVACUATED_BLOCKS: usize = 4;

/// An address lies in the block that masking it gives.
pub proof fn lemma_block_of_range(p: usize)
    ensures
        block_of(p) <= p,
        p - block_of(p) < 32768,
        block_of(p) % 32768 == 0,
{
    assert(p & !0x7FFFusize <= p) by (bit_vector);
    assert(p - (p & !0x7FFFusize) < 32768) by (bit_vector);
    assert((p & !0x7FFFusize) % 32768 == 0) by (bit_vector);
}

pub struct Bucket {
    /// The age of the objects in this bucket.
    pub age: u8,
    pub blocks: Vec<Block>,
    /// The index of the block allocations go to.
    pub current_block: usize,
}

impl Bucket {
    pub open spec fn wf(&self) -> bool {
        &&& forall|i: int| 0 <= i < self.blocks@.len() ==> (#[trigger] self.blocks@[i]).wf()
        &&& forall|i: int|
            0 <= i < self.blocks@.len() ==> #[trigger] self.blocks@[i].bucket == Some(self.age)
        &&& distinct(self.blocks@)
        &&& (self.current_block < self.blocks@.len() || self.current_block == 0)
    }

    /// Whether one of the blocks starts at address `a`.
    pub open spec fn has_block(&self, a: int) -> bool {
        exists|k: int| 0 <= k < self.blocks@.len() && self.blocks@[k].lines == a
    }

    /// The index of the block that starts at address `a`.
    pub open spec fn index_of(&self, a: int) -> int {
        choose|k: int| 0 <= k < self.blocks@.len() && self.blocks@[k].lines == a
    }

    /// The object that `p` points to in this bucket, if any.
    pub open spec fn object_of(&self, p: ObjectPointer) -> Option<Object> {
        let a = block_of(p.raw) as int;
        if self.has_block(a) {
            let b = self.blocks@[self.index_of(a)];
            b.objects@[b.slot_of(p.raw as int)]
        } else {
            None
        }
    }

    pub fn with_age(age: u8) -> (r: Self)
        ensures
            r.wf(),
            r.age == age,
            r.blocks@.len() == 0,
    {
        Bucket { age, blocks: Vec::new(), current_block: 0 }
    }

    /// The index of the block that starts at `address`, if there is one.
    pub fn find_block(&self, address: usize) -> (r: Option<usize>)
        requires
            self.wf(),
        ensures
            match r {
                Some(k) => self.has_block(address as int) && k == self.index_of(address as int)
                    && k < self.blocks@.len(),
                None => !self.has_block(address as int),
            },
    {
        let mut k: usize = 0;
        while k < self.blocks.len()
            invariant
                self.wf(),
                k <= self.blocks@.len(),
                forall|i: int| 0 <= i < k ==> self.blocks@[i].lines != address,
            decreases self.blocks@.len() - k,
        {
            if self.blocks[k].lines == address {
                assert(self.has_block(address as int));
                let ghost c = self.index_of(address as int);
                assert(self.blocks@[c].lines == address);
                return Some(k);
            }
            k = k + 1;
        }
        None
    }

    /// The object that `pointer` points to, if it lies in this bucket.
    pub fn object(&self, pointer: ObjectPointer) -> (r: Option<&Object>)
        requires
            self.wf(),
        ensures
            match r {
                Some(o) => self.object_of(pointer) == Some(*o),
                None => self.object_of(pointer) is None,
            },
    {
        let address = pointer.block_address();
        match self.find_block(address) {
            Some(k) => {
                proof {
                    lemma_block_of_range(pointer.raw);
                }
                let slot = (pointer.raw - self.blocks[k].lines) / BYTES_PER_OBJECT;
                self.blocks[k].objects[slot].as_ref()
            },
            None => None,
        }
    }

    /// Allocates `object` in the current block, in a hole of it, in the next
    /// available block, or in a block taken from `global`, in that order.
    /// Returns whether a block was taken from `global`, and the pointer.
    /// Fails only when `global` can supply no block.
    pub fn allocate(&mut self, global: &mut GlobalAllocator, object: Object) -> (r: Option<
        (bool, ObjectPointer),
    >)
        requires
            old(self).wf(),
            old(global).wf(),
            apart(old(self).blocks@, *old(global)),
        ensures
            final(self).wf(),
            final(global).wf(),
            apart(final(self).blocks@, *final(global)),
            final(self).age == old(self).age,
            old(global).next_address <= final(global).next_address <= old(global).next_address
                + 32768,
            pool_shrunk(*old(global), *final(global)),
            forall|i: int|
                0 <= i < old(self).blocks@.len() ==> #[trigger] final(self).blocks@[i].lines
                    == old(self).blocks@[i].lines,
            r is None ==> !old(global).can_supply() && !final(global).can_supply()
                && final(self).blocks@.len() == old(self).blocks@.len(),
            final(self).blocks@.len() > old(self).blocks@.len() ==> fresh_address(
                final(self).blocks@[old(self).blocks@.len() as int].lines as int,
                *old(global),
            ),
            r matches Some((new_block, p)) ==> {
                &&& final(self).object_of(p) == Some(object)
                &&& p.spec_is_mailbox() == (old(self).age == MAILBOX)
                &&& final(self).blocks@.len() == old(self).blocks@.len() + if new_block {
                    1int
                } else {
                    0int
                }
            },
    {
        let ghost g0 = *global;
        if self.blocks.len() > 0 {
            let i = self.current_block;
            if !self.blocks[i].can_bump_allocate() {
                self.blocks[i].find_available_hole();
            }
            if self.blocks[i].can_bump_allocate() {
                let p = self.blocks[i].bump_allocate(object);
                proof {
                    self.lemma_allocated_at(i as int, p);
                    lemma_apart_after_request(self.blocks@, g0, *global);
                }
                return Some((false, p));
            }
            let mut j = i + 1;
            while j < self.blocks.len()
                invariant
                    self.wf(),
                    *global == g0,
                    g0 == *old(global),
                    global.wf(),
                    apart(self.blocks@, *global),
                    self.age == old(self).age,
                    self.blocks@.len() == old(self).blocks@.len(),
                    forall|k: int|
                        0 <= k < old(self).blocks@.len() ==> #[trigger] self.blocks@[k].lines
                            == old(self).blocks@[k].lines,
                decreases self.blocks@.len() - j,
            {
                if self.blocks[j].is_available() {
                    if !self.blocks[j].can_bump_allocate() {
                        self.blocks[j].find_available_hole();
                    }
                    if self.blocks[j].can_bump_allocate() {
                        self.current_block = j;
                        let p = self.blocks[j].bump_allocate(object);
                        proof {
                            self.lemma_allocated_at(j as int, p);
                            lemma_apart_after_request(self.blocks@, g0, *global);
                        }
                        return Some((false, p));
                    }
                }
                j = j + 1;
            }
        }
        match global.request_block() {
            Some(mut block) => {
                block.set_bucket(self.age);
                let p = block.bump_allocate(object);
                let ghost before = self.blocks@;
                self.blocks.push(block);
                self.current_block = self.blocks.len() - 1;
                proof {
                    let n = before.len() as int;
                    assert forall|i: int, k: int|
                        0 <= i < self.blocks@.len() && 0 <= k < self.blocks@.len() && i != k implies #[trigger] self.blocks@[i].lines
                        != #[trigger] self.blocks@[k].lines by {
                        if i < n && k < n {
                            assert(before[i] == self.blocks@[i] && before[k] == self.blocks@[k]);
                        } else if i < n {
                            assert(before[i] == self.blocks@[i]);
                            if g0.blocks@.len() > 0 {
                                let m = choose|m: int|
                                    0 <= m < g0.blocks@.len() && g0.blocks@[m].lines
                                        == self.blocks@[k].lines;
                                assert(before[i].lines != g0.blocks@[m].lines);
                            }
                        } else if k < n {
                            assert(before[k] == self.blocks@[k]);
                            if g0.blocks@.len() > 0 {
                                let m = choose|m: int|
                                    0 <= m < g0.blocks@.len() && g0.blocks@[m].lines
                                        == self.blocks@[i].lines;
                                assert(before[k].lines != g0.blocks@[m].lines);
                            }
                        }
                    }
                    assert forall|i: int| 0 <= i < self.blocks@.len() implies #[trigger] self.blocks@[i].lines
                        < global.next_address by {
                        if i < n {
                            assert(before[i] == self.blocks@[i]);
                        }
                    }
                    assert forall|i: int, j: int|
                        0 <= i < self.blocks@.len() && 0 <= j < global.blocks@.len() implies #[trigger] self.blocks@[i].lines
                        != #[trigger] global.blocks@[j].lines by {
                        if i < n {
                            assert(before[i] == self.blocks@[i]);
                            let m = choose|m: int|
                                0 <= m < g0.blocks@.len() && global.blocks@[j].lines
                                    == g0.blocks@[m].lines;
                            assert(before[i].lines != g0.blocks@[m].lines);
                        }
                    }
                    assert(forall|i: int|
                        0 <= i < n ==> #[trigger] self.blocks@[i] == before[i]);
                    self.lemma_allocated_at(n, p);
                }
                Some((true, p))
            },
            None => None,
        }
    }

    /// A pointer that a block of this bucket handed out points into that
    /// block.
    proof fn lemma_allocated_at(&self, i: int, p: ObjectPointer)
        requires
            self.wf(),
            0 <= i < self.blocks@.len(),
            block_of(p.raw) == self.blocks@[i].lines,
        ensures
            self.has_block(block_of(p.raw) as int),
            self.index_of(block_of(p.raw) as int) == i,
    {
        let a = block_of(p.raw) as int;
        assert(self.blocks@[i].lines == a);
        let c = self.index_of(a);
        assert(self.blocks@[c].lines == a);
    }
    /// Decides whether this cycle evacuates: up to `MAX_EVACUATED_BLOCKS`
    /// blocks with the most holes, each over `FRAGMENTATION_HOLES`, are marked
    /// fragmented. Returns true when any block was marked.
    pub fn prepare_for_collection(&mut self) -> (r: bool)
        requires
            old(self).wf(),
        ensures
            final(self).wf(),
            final(self).age == old(self).age,
            final(self).current_block == old(self).current_block,
            final(self).blocks@.len() == old(self).blocks@.len(),
            forall|i: int|
                0 <= i < old(self).blocks@.len() ==> #[trigger] final(self).blocks@[i] == old(
                    self,
                ).blocks@[i] || (marked_now(old(self).blocks@[i], final(self).blocks@[i])),
            r == exists|i: int| 0 <= i < old(self).blocks@.len() && eligible(#[trigger] old(self).blocks@[i]),
            forall|i: int, j: int|
                0 <= i < old(self).blocks@.len() && 0 <= j < old(self).blocks@.len()
                    && marked_now(old(self).blocks@[i], #[trigger] final(self).blocks@[i])
                    && eligible(#[trigger] final(self).blocks@[j]) ==> final(self).blocks@[j].holes
                    <= final(self).blocks@[i].holes,
            marked_count(old(self).blocks@, final(self).blocks@, old(self).blocks@.len() as int)
                <= MAX_EVACUATED_BLOCKS,
            marked_count(old(self).blocks@, final(self).blocks@, old(self).blocks@.len() as int)
                < MAX_EVACUATED_BLOCKS ==> forall|i: int|
                0 <= i < old(self).blocks@.len() ==> !eligible(#[trigger] final(self).blocks@[i]),
    {
        proof {
            lemma_marked_count_none(old(self).blocks@, self.blocks@, self.blocks@.len() as int);
        }
        let mut evacuate = false;
        let mut round: usize = 0;
        while round < MAX_EVACUATED_BLOCKS
            invariant
                self.wf(),
                self.age == old(self).age,
                self.current_block == old(self).current_block,
                self.blocks@.len() == old(self).blocks@.len(),
                forall|i: int|
                    0 <= i < old(self).blocks@.len() ==> #[trigger] self.blocks@[i] == old(
                        self,
                    ).blocks@[i] || (marked_now(old(self).blocks@[i], self.blocks@[i])),
                evacuate == exists|i: int|
                    0 <= i < old(self).blocks@.len() && marked_now(
                        old(self).blocks@[i],
                        #[trigger] self.blocks@[i],
                    ),
                round > 0 ==> evacuate,
                !evacuate ==> forall|i: int|
                    0 <= i < old(self).blocks@.len() ==> #[trigger] self.blocks@[i] == old(
                        self,
                    ).blocks@[i],
                forall|i: int, j: int|
                    0 <= i < old(self).blocks@.len() && 0 <= j < old(self).blocks@.len()
                        && marked_now(old(self).blocks@[i], #[trigger] self.blocks@[i])
                        && eligible(#[trigger] self.blocks@[j]) ==> self.blocks@[j].holes
                        <= self.blocks@[i].holes,
                marked_count(old(self).blocks@, self.blocks@, old(self).blocks@.len() as int)
                    == round,
                round <= MAX_EVACUATED_BLOCKS,
            ensures
                marked_count(old(self).blocks@, self.blocks@, old(self).blocks@.len() as int)
                    <= MAX_EVACUATED_BLOCKS,
                marked_count(old(self).blocks@, self.blocks@, old(self).blocks@.len() as int)
                    < MAX_EVACUATED_BLOCKS ==> forall|i: int|
                    0 <= i < old(self).blocks@.len() ==> !eligible(#[trigger] self.blocks@[i]),
                evacuate == exists|i: int|
                    0 <= i < old(self).blocks@.len() && marked_now(
                        old(self).blocks@[i],
                        #[trigger] self.blocks@[i],
                    ),
                !evacuate ==> forall|i: int|
                    0 <= i < old(self).blocks@.len() ==> !eligible(#[trigger] self.blocks@[i]),
                !evacuate ==> forall|i: int|
                    0 <= i < old(self).blocks@.len() ==> #[trigger] self.blocks@[i] == old(
                        self,
                    ).blocks@[i],
            decreases MAX_EVACUATED_BLOCKS - round,
        {
            let mut best: Option<usize> = None;
            let mut k: usize = 0;
            while k < self.blocks.len()
                invariant
                    self.wf(),
                    k <= self.blocks@.len(),
                    match best {
                        Some(b) => b < k && eligible(self.blocks@[b as int]) && forall|i: int|
                            0 <= i < k && eligible(#[trigger] self.blocks@[i])
                                ==> self.blocks@[i].holes <= self.blocks@[b as int].holes,
                        None => forall|i: int| 0 <= i < k ==> !eligible(#[trigger] self.blocks@[i]),
                    },
                decreases self.blocks@.len() - k,
            {
                let block = &self.blocks[k];
                if block.status != BlockStatus::Fragmented && block.holes > FRAGMENTATION_HOLES {
                    match best {
                        Some(b) => {
                            if block.holes > self.blocks[b].holes {
                                best = Some(k);
                            }
                        },
                        None => {
                            best = Some(k);
                        },
                    }
                }
                k = k + 1;
            }
            match best {
                Some(b) => {
                    let ghost before = self.blocks@;
                    self.blocks[b].set_fragmented();
                    proof {
                        assert(before[b as int] == old(self).blocks@[b as int]);
                        assert(self.blocks@ == before.update(b as int, self.blocks@[b as int]));
                        lemma_marked_count_step(
                            old(self).blocks@,
                            before,
                            b as int,
                            self.blocks@[b as int],
                            before.len() as int,
                        );
                        assert(marked_now(old(self).blocks@[b as int], self.blocks@[b as int]));
                        assert forall|i: int| 0 <= i < old(self).blocks@.len() && i != b implies self.blocks@[i] == before[i] by {}
                    }
                    evacuate = true;
                },
                None => {
                    break;
                },
            }
            round = round + 1;
        }
        proof {
            if evacuate {
                let i = choose|i: int|
                    0 <= i < old(self).blocks@.len() && marked_now(
                        old(self).blocks@[i],
                        #[trigger] self.blocks@[i],
                    );
                assert(eligible(old(self).blocks@[i]));
            } else {
                assert forall|i: int| 0 <= i < old(self).blocks@.len() implies !eligible(
                    #[trigger] old(self).blocks@[i],
                ) by {
                    assert(self.blocks@[i] == old(self).blocks@[i]);
                }
            }
        }
        evacuate
    }

    /// After marking: returns the blocks with no line in use, and counts the
    /// holes of the others, which become recyclable when they have holes and
    /// full when they have none.
    pub fn reclaim_blocks(&mut self) -> (r: Vec<Block>)
        requires
            old(self).wf(),
        ensures
            final(self).wf(),
            final(self).age == old(self).age,
            r@.len() + final(self).blocks@.len() == old(self).blocks@.len(),
            forall|i: int|
                0 <= i < r@.len() ==> (#[trigger] r@[i]).wf() && r@[i].used_lines_bitmap@
                    =~= Seq::new(256, |l: int| false),
            forall|i: int|
                0 <= i < final(self).blocks@.len() ==> reclaimed(#[trigger] final(self).blocks@[i]),
            forall|i: int|
                0 <= i < final(self).blocks@.len() ==> exists|k: int|
                    0 <= k < old(self).blocks@.len() && #[trigger] final(self).blocks@[i].lines
                        == old(self).blocks@[k].lines,
            forall|i: int|
                0 <= i < r@.len() ==> exists|k: int|
                    0 <= k < old(self).blocks@.len() && #[trigger] r@[i].lines
                        == old(self).blocks@[k].lines,
            distinct(r@),
            forall|i: int, j: int|
                0 <= i < r@.len() && 0 <= j < final(self).blocks@.len() ==> #[trigger] r@[i].lines
                    != #[trigger] final(self).blocks@[j].lines,
            all_lines_marked(old(self).blocks@) ==> all_lines_marked(final(self).blocks@),
            forall|i: int|
                0 <= i < final(self).blocks@.len() ==> exists|k: int|
                    0 <= k < old(self).blocks@.len() && same_contents(#[trigger] final(self).blocks@[i], old(self).blocks@[k]),
            forall|i: int|
                0 <= i < r@.len() ==> exists|k: int|
                    0 <= k < old(self).blocks@.len() && #[trigger] r@[i] == old(self).blocks@[k],
            forall|k: int|
                0 <= k < old(self).blocks@.len() && in_use(#[trigger] old(self).blocks@[k])
                    ==> exists|i: int|
                    0 <= i < final(self).blocks@.len() && final(self).blocks@[i].lines == old(
                        self,
                    ).blocks@[k].lines,
    {
        let ghost all = self.blocks@;
        let mut taken: Vec<Block> = Vec::new();
        std::mem::swap(&mut taken, &mut self.blocks);
        let mut kept: Vec<Block> = Vec::new();
        let mut freed: Vec<Block> = Vec::new();
        while taken.len() > 0
            invariant
                all == old(self).blocks@,
                self.age == old(self).age,
                taken@ == all.subrange(0, taken@.len() as int),
                taken@.len() <= all.len(),
                kept@.len() + freed@.len() + taken@.len() == all.len(),
                forall|i: int| 0 <= i < all.len() ==> (#[trigger] all[i]).wf(),
                forall|i: int| 0 <= i < all.len() ==> #[trigger] all[i].bucket == Some(self.age),
                distinct(all),
                forall|i: int|
                    0 <= i < kept@.len() ==> reclaimed(#[trigger] kept@[i]) && kept@[i].bucket
                        == Some(self.age),
                forall|i: int|
                    0 <= i < freed@.len() ==> (#[trigger] freed@[i]).wf() && freed@[i].used_lines_bitmap@
                        =~= Seq::new(256, |l: int| false),
                forall|i: int|
                    0 <= i < kept@.len() ==> exists|k: int|
                        taken@.len() <= k < all.len() && #[trigger] kept@[i].lines == all[k].lines,
                forall|i: int|
                    0 <= i < freed@.len() ==> exists|k: int|
                        taken@.len() <= k < all.len() && #[trigger] freed@[i].lines == all[k].lines,
                distinct(kept@),
                distinct(freed@),
                forall|i: int, j: int|
                    0 <= i < freed@.len() && 0 <= j < kept@.len() ==> #[trigger] freed@[i].lines
                        != #[trigger] kept@[j].lines,
                all_lines_marked(all) ==> all_lines_marked(kept@),
                forall|i: int|
                    0 <= i < kept@.len() ==> exists|k: int|
                        taken@.len() <= k < all.len() && same_contents(#[trigger] kept@[i], all[k]),
                forall|i: int|
                    0 <= i < freed@.len() ==> exists|k: int|
                        taken@.len() <= k < all.len() && #[trigger] freed@[i] == all[k],
                forall|k: int|
                    taken@.len() <= k < all.len() && in_use(#[trigger] all[k]) ==> exists|i: int|
                        0 <= i < kept@.len() && kept@[i].lines == all[k].lines,
            decreases taken@.len(),
        {
            let ghost m = taken@.len() - 1;
            let mut block = taken.pop().unwrap();
            assert(block == all[m]);
            assert(taken@ =~= all.subrange(0, m));
            assert forall|i: int| 0 <= i < kept@.len() implies #[trigger] kept@[i].lines != block.lines by {
                let k = choose|k: int| m + 1 <= k < all.len() && kept@[i].lines == all[k].lines;
                assert(all[k].lines != all[m].lines);
            }
            assert forall|i: int| 0 <= i < freed@.len() implies #[trigger] freed@[i].lines != block.lines by {
                let k = choose|k: int| m + 1 <= k < all.len() && freed@[i].lines == all[k].lines;
                assert(all[k].lines != all[m].lines);
            }
            if block.is_empty() {
                let ghost before = freed@;
                freed.push(block);
                proof {
                    assert(block.used_lines_bitmap@ =~= Seq::new(256, |l: int| false));
                    assert forall|i: int| 0 <= i < freed@.len() implies exists|k: int|
                        taken@.len() <= k < all.len() && #[trigger] freed@[i].lines == all[k].lines by {
                        if i < before.len() {
                            assert(freed@[i] == before[i]);
                        } else {
                            assert(freed@[i].lines == all[m].lines);
                        }
                    }
                    assert forall|i: int| 0 <= i < kept@.len() implies exists|k: int|
                        taken@.len() <= k < all.len() && #[trigger] kept@[i].lines == all[k].lines by {
                        let k = choose|k: int| m + 1 <= k < all.len() && kept@[i].lines == all[k].lines;
                    }
                    assert forall|i: int| 0 <= i < kept@.len() implies exists|k: int|
                        taken@.len() <= k < all.len() && same_contents(#[trigger] kept@[i], all[k]) by {
                        let k = choose|k: int| m + 1 <= k < all.len() && same_contents(kept@[i], all[k]);
                    }
                    assert forall|i: int| 0 <= i < freed@.len() implies exists|k: int|
                        taken@.len() <= k < all.len() && #[trigger] freed@[i] == all[k] by {
                        if i < before.len() {
                            assert(freed@[i] == before[i]);
                            let k = choose|k: int| m + 1 <= k < all.len() && before[i] == all[k];
                        } else {
                            assert(freed@[i] == all[m]);
                        }
                    }
                    assert forall|k: int|
                        taken@.len() <= k < all.len() && in_use(#[trigger] all[k]) implies exists|i: int|
                        0 <= i < kept@.len() && kept@[i].lines == all[k].lines by {
                        if k == m {
                            let l = choose|l: int| 0 <= l < 256 && all[m].used_lines_bitmap@[l];
                            assert(!block.used_lines_bitmap@[l]);
                        }
                    }
                }
            } else {
                assert(!(forall|l: int| 0 <= l < 256 ==> !block.used_lines_bitmap@[l]));
                assert(in_use(block));
                block.update_hole_count();
                if block.holes > 0 {
                    block.set_recyclable();
                } else {
                    block.set_full();
                }
                proof {
                    assert(block.wf());
                    assert(in_use(block));
                    assert(block.holes == hole_count(block.used_lines_bitmap@));
                    assert(reclaimed(block));
                }
                let ghost before = kept@;
                kept.push(block);
                proof {
                    assert forall|i: int| 0 <= i < kept@.len() implies reclaimed(#[trigger] kept@[i])
                        && kept@[i].bucket == Some(self.age) by {
                        if i < before.len() {
                            assert(kept@[i] == before[i]);
                        }
                    }
                    if all_lines_marked(all) {
                        assert(lines_marked(all[m]));
                        assert forall|i: int| 0 <= i < kept@.len() implies lines_marked(
                            #[trigger] kept@[i],
                        ) by {
                            if i < before.len() {
                                assert(kept@[i] == before[i]);
                            } else {
                                assert(kept@[i].used_lines_bitmap == all[m].used_lines_bitmap);
                                assert(kept@[i].marked_objects_bitmap == all[m].marked_objects_bitmap);
                            }
                        }
                    }
                    assert forall|i: int| 0 <= i < kept@.len() implies exists|k: int|
                        taken@.len() <= k < all.len() && #[trigger] kept@[i].lines == all[k].lines by {
                        if i < before.len() {
                            assert(kept@[i] == before[i]);
                        } else {
                            assert(kept@[i].lines == all[m].lines);
                        }
                    }
                    assert forall|i: int| 0 <= i < freed@.len() implies exists|k: int|
                        taken@.len() <= k < all.len() && #[trigger] freed@[i].lines == all[k].lines by {
                        let k = choose|k: int| m + 1 <= k < all.len() && freed@[i].lines == all[k].lines;
                    }
                    assert forall|i: int| 0 <= i < kept@.len() implies exists|k: int|
                        taken@.len() <= k < all.len() && same_contents(#[trigger] kept@[i], all[k]) by {
                        if i < before.len() {
                            assert(kept@[i] == before[i]);
                            let k = choose|k: int| m + 1 <= k < all.len() && same_contents(before[i], all[k]);
                        } else {
                            assert(same_contents(kept@[i], all[m]));
                        }
                    }
                    assert forall|i: int| 0 <= i < freed@.len() implies exists|k: int|
                        taken@.len() <= k < all.len() && #[trigger] freed@[i] == all[k] by {
                        let k = choose|k: int| m + 1 <= k < all.len() && freed@[i] == all[k];
                    }
                    assert forall|k: int|
                        taken@.len() <= k < all.len() && in_use(#[trigger] all[k]) implies exists|i: int|
                        0 <= i < kept@.len() && kept@[i].lines == all[k].lines by {
                        if k == m {
                            assert(kept@[before.len() as int].lines == all[m].lines);
                        } else {
                            let i = choose|i: int| 0 <= i < before.len() && before[i].lines == all[k].lines;
                            assert(kept@[i] == before[i]);
                        }
                    }
                }
            }
        }
        self.blocks = kept;
        self.current_block = 0;
        proof {
            assert forall|i: int|
                0 <= i < self.blocks@.len() implies exists|k: int|
                0 <= k < all.len() && same_contents(#[trigger] self.blocks@[i], all[k]) by {
                let k = choose|k: int| 0 <= k < all.len() && same_contents(kept@[i], all[k]);
            }
            assert forall|i: int|
                0 <= i < freed@.len() implies exists|k: int|
                0 <= k < all.len() && #[trigger] freed@[i] == all[k] by {
                let k = choose|k: int| 0 <= k < all.len() && freed@[i] == all[k];
            }
        }
        freed
    }
    /// Writes `object` into the slot `pointer` points to, when it lies in
    /// this bucket. Returns whether it does.
    pub fn set_object(&mut self, pointer: ObjectPointer, object: Object) -> (ok: bool)
        requires
            old(self).wf(),
        ensures
            final(self).wf(),
            final(self).age == old(self).age,
            final(self).blocks@.len() == old(self).blocks@.len(),
            forall|i: int|
                0 <= i < old(self).blocks@.len() ==> #[trigger] final(self).blocks@[i].lines
                    == old(self).blocks@[i].lines,
            ok == old(self).has_block(block_of(pointer.raw) as int),
            ok ==> final(self).object_of(pointer) == Some(object),
    {
        let address = pointer.block_address();
        match self.find_block(address) {
            Some(k) => {
                proof {
                    lemma_block_of_range(pointer.raw);
                }
                let slot = (pointer.raw - self.blocks[k].lines) / BYTES_PER_OBJECT;
                self.blocks[k].objects.set(slot, Some(object));
                proof {
                    self.lemma_allocated_at(k as int, pointer);
                }
                true
            },
            None => false,
        }
    }

    /// Puts `object` in the slot `pointer` points to, when it lies in this
    /// bucket, and returns what the slot held.
    pub fn replace_object(&mut self, pointer: ObjectPointer, object: Object) -> (r: Option<Object>)
        requires
            old(self).wf(),
        ensures
            final(self).wf(),
            final(self).age == old(self).age,
            final(self).blocks@.len() == old(self).blocks@.len(),
            forall|i: int|
                0 <= i < old(self).blocks@.len() ==> #[trigger] final(self).blocks@[i].lines
                    == old(self).blocks@[i].lines,
            r == old(self).object_of(pointer),
            old(self).has_block(block_of(pointer.raw) as int) ==> final(self).object_of(pointer)
                == Some(object),
    {
        let address = pointer.block_address();
        match self.find_block(address) {
            Some(k) => {
                proof {
                    lemma_block_of_range(pointer.raw);
                }
                let slot = (pointer.raw - self.blocks[k].lines) / BYTES_PER_OBJECT;
                let mut content = Some(object);
                self.blocks[k].objects.set_and_swap(slot, &mut content);
                proof {
                    self.lemma_allocated_at(k as int, pointer);
                }
                content
            },
            None => None,
        }
    }

    /// Marks the object `pointer` points to as live: its slot in the object
    /// map and its line in the line map. Returns false, marking nothing, when
    /// the pointer points into no block of this bucket, or into a block's
    /// reserved first line.
    pub fn mark(&mut self, pointer: ObjectPointer) -> (r: bool)
        requires
            old(self).wf(),
        ensures
            final(self).wf(),
            final(self).age == old(self).age,
            final(self).blocks@.len() == old(self).blocks@.len(),
            forall|i: int|
                0 <= i < old(self).blocks@.len() ==> #[trigger] final(self).blocks@[i].lines
                    == old(self).blocks@[i].lines,
            forall|i: int|
                0 <= i < old(self).blocks@.len() ==> #[trigger] final(self).blocks@[i].objects
                    == old(self).blocks@[i].objects,
            all_lines_marked(old(self).blocks@) ==> all_lines_marked(final(self).blocks@),
            r ==> final(self).object_of(pointer) == old(self).object_of(pointer),
    {
        let address = pointer.block_address();
        match self.find_block(address) {
            Some(k) => {
                proof {
                    lemma_block_of_range(pointer.raw);
                }
                let slot = (pointer.raw - self.blocks[k].lines) / BYTES_PER_OBJECT;
                if slot < 4 {
                    return false;
                }
                let ghost before = self.blocks@;
                self.blocks[k].marked_objects_bitmap.set(slot);
                self.blocks[k].used_lines_bitmap.set(slot / 4);
                proof {
                    let b = self.blocks@[k as int];
                    let b0 = before[k as int];
                    if all_lines_marked(before) {
                        assert(lines_marked(b0));
                        assert forall|l: int|
                            0 <= l < 256 && #[trigger] b.used_lines_bitmap@[l] implies exists|s: int|
                            4 * l <= s < 4 * l + 4 && b.marked_objects_bitmap@[s] by {
                            if l == slot / 4 {
                                assert(b.marked_objects_bitmap@[slot as int]);
                            } else {
                                assert(b0.used_lines_bitmap@[l]);
                                let s = choose|s: int|
                                    4 * l <= s < 4 * l + 4 && b0.marked_objects_bitmap@[s];
                                assert(b.marked_objects_bitmap@[s]);
                            }
                        }
                        assert forall|i: int| 0 <= i < self.blocks@.len() implies lines_marked(
                            #[trigger] self.blocks@[i],
                        ) by {
                            if i != k {
                                assert(self.blocks@[i] == before[i]);
                            }
                        }
                    }
                    self.lemma_allocated_at(k as int, pointer);
                    assert(forall|i: int| 0 <= i < before.len() && i != k ==> self.blocks@[i] == before[i]);
                }
                true
            },
            None => false,
        }
    }

    /// Clears the bitmaps of every block.
    pub fn reset_bitmaps(&mut self)
        requires
            old(self).wf(),
        ensures
            final(self).wf(),
            final(self).age == old(self).age,
            final(self).blocks@.len() == old(self).blocks@.len(),
            forall|i: int|
                0 <= i < old(self).blocks@.len() ==> #[trigger] final(self).blocks@[i].lines
                    == old(self).blocks@[i].lines,
            forall|i: int|
                0 <= i < old(self).blocks@.len() ==> #[trigger] final(self).blocks@[i].objects
                    == old(self).blocks@[i].objects,
            all_lines_marked(final(self).blocks@),
    {
        let mut i: usize = 0;
        while i < self.blocks.len()
            invariant
                self.wf(),
                self.age == old(self).age,
                i <= self.blocks@.len(),
                self.blocks@.len() == old(self).blocks@.len(),
                forall|j: int|
                    0 <= j < old(self).blocks@.len() ==> #[trigger] self.blocks@[j].lines
                        == old(self).blocks@[j].lines,
                forall|j: int|
                    0 <= j < old(self).blocks@.len() ==> #[trigger] self.blocks@[j].objects
                        == old(self).blocks@[j].objects,
                forall|j: int| 0 <= j < i ==> lines_marked(#[trigger] self.blocks@[j]),
            decreases self.blocks@.len() - i,
        {
            let ghost before = self.blocks@;
            self.blocks[i].reset_bitmaps();
            proof {
                assert forall|j: int| 0 <= j < i + 1 implies lines_marked(#[trigger] self.blocks@[j]) by {
                    if j < i {
                        assert(self.blocks@[j] == before[j]);
                    }
                }
            }
            i = i + 1;
        }
    }

    /// Hands the blocks with no line in use back to `global`; the others
    /// become recyclable or full.
    pub fn reclaim_into(&mut self, global: &mut GlobalAllocator)
        requires
            old(self).wf(),
            old(global).wf(),
            apart(old(self).blocks@, *old(global)),
        ensures
            final(self).wf(),
            final(self).age == old(self).age,
            final(global).wf(),
            apart(final(self).blocks@, *final(global)),
            final(global).blocks@.len() + final(self).blocks@.len() == old(global).blocks@.len()
                + old(self).blocks@.len(),
            forall|i: int|
                0 <= i < final(self).blocks@.len() ==> reclaimed(#[trigger] final(self).blocks@[i]),
            forall|i: int|
                0 <= i < final(self).blocks@.len() ==> exists|k: int|
                    0 <= k < old(self).blocks@.len() && #[trigger] final(self).blocks@[i].lines
                        == old(self).blocks@[k].lines,
            all_lines_marked(old(self).blocks@) ==> all_lines_marked(final(self).blocks@),
            final(global).next_address == old(global).next_address,
            final(global).blocks@.len() >= old(global).blocks@.len(),
            forall|j: int|
                0 <= j < old(global).blocks@.len() ==> #[trigger] final(global).blocks@[j]
                    == old(global).blocks@[j],
            forall|j: int|
                old(global).blocks@.len() <= j < final(global).blocks@.len() ==> exists|k: int|
                    0 <= k < old(self).blocks@.len() && #[trigger] final(global).blocks@[j].lines
                        == old(self).blocks@[k].lines,
            forall|j: int|
                old(global).blocks@.len() <= j < final(global).blocks@.len() ==> !in_use(
                    #[trigger] final(global).blocks@[j],
                ) && exists|k: int|
                    0 <= k < old(self).blocks@.len() && final(global).blocks@[j]
                        == old(self).blocks@[k],
            contents_kept(final(self).blocks@, old(self).blocks@),
            forall|k: int|
                0 <= k < old(self).blocks@.len() && in_use(#[trigger] old(self).blocks@[k])
                    ==> exists|i: int|
                    0 <= i < final(self).blocks@.len() && final(self).blocks@[i].lines == old(
                        self,
                    ).blocks@[k].lines,
    {
        let ghost b0 = self.blocks@;
        let freed = self.reclaim_blocks();
        let ghost kept = self.blocks@;
        proof {
            assert forall|i: int| 0 <= i < kept.len() implies #[trigger] kept[i].lines
                < global.next_address by {
                let k = choose|k: int| 0 <= k < b0.len() && kept[i].lines == b0[k].lines;
            }
            assert forall|i: int, j: int|
                0 <= i < kept.len() && 0 <= j < global.blocks@.len() implies #[trigger] kept[i].lines
                != #[trigger] global.blocks@[j].lines by {
                let k = choose|k: int| 0 <= k < b0.len() && kept[i].lines == b0[k].lines;
                assert(b0[k].lines != global.blocks@[j].lines);
            }
            assert forall|a: int| 0 <= a < freed@.len() implies !in_use(#[trigger] freed@[a]) by {
                if in_use(freed@[a]) {
                    let l = choose|l: int| 0 <= l < 256 && freed@[a].used_lines_bitmap@[l];
                    assert(freed@[a].used_lines_bitmap@ =~= Seq::new(256, |l: int| false));
                }
            }
        }
        let mut freed = freed;
        while freed.len() > 0
            invariant
                global.wf(),
                apart(kept, *global),
                kept == self.blocks@,
                self.wf(),
                global.blocks@.len() + kept.len() + freed@.len() == old(global).blocks@.len()
                    + b0.len(),
                forall|j: int| 0 <= j < freed@.len() ==> (#[trigger] freed@[j]).wf(),
                forall|j: int|
                    0 <= j < freed@.len() ==> exists|k: int|
                        0 <= k < b0.len() && #[trigger] freed@[j].lines == b0[k].lines,
                apart(b0, *old(global)),
                b0 == old(self).blocks@,
                global.next_address == old(global).next_address,
                forall|j: int|
                    0 <= j < old(global).blocks@.len() ==> #[trigger] global.blocks@[j]
                        == old(global).blocks@[j],
                global.blocks@.len() >= old(global).blocks@.len(),
                forall|j: int|
                    old(global).blocks@.len() <= j < global.blocks@.len() ==> exists|k: int|
                        0 <= k < b0.len() && #[trigger] global.blocks@[j].lines == b0[k].lines,
                crate::global_allocator::distinct(freed@),
                forall|a: int| 0 <= a < freed@.len() ==> !in_use(#[trigger] freed@[a]),
                forall|a: int|
                    0 <= a < freed@.len() ==> exists|k: int|
                        0 <= k < b0.len() && #[trigger] freed@[a] == b0[k],
                forall|j: int|
                    old(global).blocks@.len() <= j < global.blocks@.len() ==> !in_use(
                        #[trigger] global.blocks@[j],
                    ) && exists|k: int| 0 <= k < b0.len() && global.blocks@[j] == b0[k],
                forall|a: int, c: int|
                    0 <= a < freed@.len() && 0 <= c < kept.len() ==> #[trigger] freed@[a].lines
                        != #[trigger] kept[c].lines,
                forall|a: int, j: int|
                    0 <= a < freed@.len() && 0 <= j < global.blocks@.len() ==> #[trigger] freed@[a].lines
                        != #[trigger] global.blocks@[j].lines,
            decreases freed@.len(),
        {
            let ghost pool = global.blocks@;
            let ghost rest = freed@;
            let block = freed.pop().unwrap();
            let ghost popped = block;
            proof {
                assert(block == rest[rest.len() - 1]);
                assert(freed@ =~= rest.drop_last());
                let k = choose|k: int| 0 <= k < b0.len() && block.lines == b0[k].lines;
                assert(b0[k].lines < old(global).next_address);
                assert forall|j: int| 0 <= j < pool.len() implies #[trigger] pool[j].lines
                    != block.lines by {
                    assert(rest[rest.len() - 1].lines != pool[j].lines);
                }
            }
            global.add_block(block);
            proof {
                assert forall|j: int| 0 <= j < old(global).blocks@.len() implies #[trigger] global.blocks@[j]
                    == old(global).blocks@[j] by {
                    assert(global.blocks@[j] == pool[j]);
                }
                assert forall|j: int| old(global).blocks@.len() <= j < global.blocks@.len() implies exists|k: int|
                    0 <= k < b0.len() && #[trigger] global.blocks@[j].lines == b0[k].lines by {
                    if j < pool.len() {
                        assert(global.blocks@[j] == pool[j]);
                    } else {
                        assert(global.blocks@[j] == popped);
                        let k = choose|k: int| 0 <= k < b0.len() && popped.lines == b0[k].lines;
                    }
                }
                assert forall|a: int, j: int|
                    0 <= a < freed@.len() && 0 <= j < global.blocks@.len() implies #[trigger] freed@[a].lines
                    != #[trigger] global.blocks@[j].lines by {
                    assert(freed@[a] == rest[a]);
                    if j < pool.len() {
                        assert(global.blocks@[j] == pool[j]);
                    } else {
                        assert(rest[a].lines != rest[rest.len() - 1].lines);
                    }
                }
                assert forall|a: int| 0 <= a < freed@.len() implies exists|k: int|
                    0 <= k < b0.len() && #[trigger] freed@[a].lines == b0[k].lines by {
                    assert(freed@[a] == rest[a]);
                }
                assert forall|a: int| 0 <= a < freed@.len() implies exists|k: int|
                    0 <= k < b0.len() && #[trigger] freed@[a] == b0[k] by {
                    assert(freed@[a] == rest[a]);
                }
                assert forall|a: int| 0 <= a < freed@.len() implies !in_use(#[trigger] freed@[a]) by {
                    assert(freed@[a] == rest[a]);
                }
                assert forall|j: int|
                    old(global).blocks@.len() <= j < global.blocks@.len() implies !in_use(
                        #[trigger] global.blocks@[j],
                    ) && exists|k: int| 0 <= k < b0.len() && global.blocks@[j] == b0[k] by {
                    if j < pool.len() {
                        assert(global.blocks@[j] == pool[j]);
                    } else {
                        assert(global.blocks@[j] == rest[rest.len() - 1]);
                    }
                }
                assert forall|i: int, j: int|
                    0 <= i < kept.len() && 0 <= j < global.blocks@.len() implies #[trigger] kept[i].lines
                    != #[trigger] global.blocks@[j].lines by {
                    if j < pool.len() {
                        assert(global.blocks@[j] == pool[j]);
                    } else {
                        assert(rest[rest.len() - 1].lines != kept[i].lines);
                    }
                }
            }
        }
    }

    /// Resets every block and hands it back to `global`, leaving the bucket
    /// empty.
    pub fn release(&mut self, global: &mut GlobalAllocator)
        requires
            old(self).wf(),
            old(global).wf(),
            apart(old(self).blocks@, *old(global)),
        ensures
            final(self).wf(),
            final(self).age == old(self).age,
            final(self).blocks@.len() == 0,
            final(global).wf(),
            final(global).next_address == old(global).next_address,
            final(global).blocks@.len() == old(global).blocks@.len() + old(self).blocks@.len(),
            forall|j: int|
                0 <= j < old(global).blocks@.len() ==> #[trigger] final(global).blocks@[j]
                    == old(global).blocks@[j],
            forall|j: int|
                old(global).blocks@.len() <= j < final(global).blocks@.len() ==> exists|i: int|
                    0 <= i < old(self).blocks@.len() && #[trigger] final(global).blocks@[j].lines
                        == old(self).blocks@[i].lines,
            forall|j: int|
                old(global).blocks@.len() <= j < final(global).blocks@.len() ==> (
                #[trigger] final(global).blocks@[j]).is_pristine(),
    {
        let ghost g0 = global.blocks@;
        while self.blocks.len() > 0
            invariant
                self.age == old(self).age,
                forall|i: int| 0 <= i < self.blocks@.len() ==> (#[trigger] self.blocks@[i]).wf(),
                distinct(self.blocks@),
                global.wf(),
                apart(self.blocks@, *global),
                global.next_address == old(global).next_address,
                global.blocks@.len() + self.blocks@.len() == old(global).blocks@.len() + old(
                    self,
                ).blocks@.len(),
                global.blocks@.len() >= g0.len(),
                g0 == old(global).blocks@,
                forall|j: int| 0 <= j < g0.len() ==> #[trigger] global.blocks@[j] == g0[j],
                self.blocks@ == old(self).blocks@.subrange(0, self.blocks@.len() as int),
                self.blocks@.len() <= old(self).blocks@.len(),
                forall|j: int|
                    g0.len() <= j < global.blocks@.len() ==> exists|i: int|
                        0 <= i < old(self).blocks@.len() && #[trigger] global.blocks@[j].lines
                            == old(self).blocks@[i].lines,
                forall|j: int|
                    g0.len() <= j < global.blocks@.len() ==> (
                    #[trigger] global.blocks@[j]).is_pristine(),
            decreases self.blocks@.len(),
        {
            let ghost before = self.blocks@;
            let ghost pool = global.blocks@;
            let mut block = self.blocks.pop().unwrap();
            assert(block == before[before.len() - 1]);
            assert(self.blocks@ =~= before.drop_last());
            block.reset();
            global.add_block(block);
            proof {
                assert forall|i: int, j: int|
                    0 <= i < self.blocks@.len() && 0 <= j < global.blocks@.len() implies #[trigger] self.blocks@[i].lines
                    != #[trigger] global.blocks@[j].lines by {
                    assert(self.blocks@[i] == before[i]);
                    if j < pool.len() {
                        assert(global.blocks@[j] == pool[j]);
                    }
                }
                assert forall|i: int| 0 <= i < self.blocks@.len() implies #[trigger] self.blocks@[i].lines
                    < global.next_address by {
                    assert(self.blocks@[i] == before[i]);
                }
                assert forall|j: int| 0 <= j < g0.len() implies #[trigger] global.blocks@[j] == g0[j] by {
                    assert(global.blocks@[j] == pool[j]);
                }
                assert forall|j: int| g0.len() <= j < global.blocks@.len() implies exists|i: int|
                    0 <= i < old(self).blocks@.len() && #[trigger] global.blocks@[j].lines
                        == old(self).blocks@[i].lines by {
                    if j < pool.len() {
                        assert(global.blocks@[j] == pool[j]);
                    } else {
                        let last = before.len() - 1;
                        assert(before[last] == old(self).blocks@[last]);
                        assert(global.blocks@[j].lines == old(self).blocks@[last].lines);
                    }
                }
                assert forall|j: int| g0.len() <= j < global.blocks@.len() implies (
                #[trigger] global.blocks@[j]).is_pristine() by {
                    if j < pool.len() {
                        assert(global.blocks@[j] == pool[j]);
                    }
                }
            }
        }
        self.current_block = 0;
    }
}

/// Every object of a bucket lies in exactly one of its blocks: the block whose
/// start is the pointer masked with `!0x7FFF`. That block is owned by the
/// bucket, and every cursor of every block stays between the block's first
/// object slot and its end.
pub proof fn lemma_allocated_in_one_block(bucket: Bucket, p: ObjectPointer)
    requires
        bucket.wf(),
        bucket.object_of(p) is Some,
    ensures
        bucket.has_block(block_of(p.raw) as int),
        ({
            let k = bucket.index_of(block_of(p.raw) as int);
            &&& bucket.blocks@[k].lines == p.raw & crate::object::BLOCK_MASK
            &&& bucket.blocks@[k].bucket == Some(bucket.age)
            &&& bucket.blocks@[k].lines <= p.raw < bucket.blocks@[k].lines + 32768
            &&& forall|i: int|
                0 <= i < bucket.blocks@.len() && bucket.blocks@[i].lines == block_of(p.raw) ==> i
                    == k
        }),
        forall|i: int|
            0 <= i < bucket.blocks@.len() ==> #[trigger] bucket.blocks@[i].start()
                <= bucket.blocks@[i].free_pointer <= bucket.blocks@[i].end(),
{
    let a = block_of(p.raw) as int;
    let k = bucket.index_of(a);
    lemma_block_of_range(p.raw);
    assert(bucket.blocks@[k].wf());
}

/// An address that `global` hands out: one of its pooled blocks', or its
/// next fresh one.
pub open spec fn fresh_address(a: int, global: GlobalAllocator) -> bool {
    a == global.next_address || exists|k: int|
        0 <= k < global.blocks@.len() && global.blocks@[k].lines == a
}

/// Blocks that a bucket and the pool keep apart are apart from whatever the
/// pool hands out.
pub proof fn lemma_fresh_apart(blocks: Seq<Block>, global: GlobalAllocator, a: int)
    requires
        apart(blocks, global),
        fresh_address(a, global),
    ensures
        forall|i: int| 0 <= i < blocks.len() ==> #[trigger] blocks[i].lines != a,
{
    assert forall|i: int| 0 <= i < blocks.len() implies #[trigger] blocks[i].lines != a by {
        if a != global.next_address {
            let k = choose|k: int| 0 <= k < global.blocks@.len() && global.blocks@[k].lines == a;
            assert(blocks[i].lines != global.blocks@[k].lines);
        }
    }
}

/// Every line of `b` in use holds an object whose mark bit is set.
pub open spec fn lines_marked(b: Block) -> bool {
    forall|l: int|
        0 <= l < 256 && #[trigger] b.used_lines_bitmap@[l] ==> exists|s: int|
            4 * l <= s < 4 * l + 4 && b.marked_objects_bitmap@[s]
}

/// Every line in use in `blocks` holds a marked object.
pub open spec fn all_lines_marked(blocks: Seq<Block>) -> bool {
    forall|i: int| 0 <= i < blocks.len() ==> lines_marked(#[trigger] blocks[i])
}

/// `a` holds what `b` holds: the same address, bitmaps and objects.
pub open spec fn same_contents(a: Block, b: Block) -> bool {
    &&& a.lines == b.lines
    &&& a.used_lines_bitmap == b.used_lines_bitmap
    &&& a.marked_objects_bitmap == b.marked_objects_bitmap
    &&& a.objects == b.objects
}

/// Every block of `after` holds what some block of `before` holds.
pub open spec fn contents_kept(after: Seq<Block>, before: Seq<Block>) -> bool {
    forall|i: int|
        0 <= i < after.len() ==> exists|k: int|
            0 <= k < before.len() && same_contents(#[trigger] after[i], before[k])
}

/// Some line of `b` is in use.
pub open spec fn in_use(b: Block) -> bool {
    exists|l: int| 0 <= l < 256 && b.used_lines_bitmap@[l]
}

/// A block that is not fragmented and has more holes than the threshold.
pub open spec fn eligible(b: Block) -> bool {
    b.status != BlockStatus::Fragmented && b.holes > FRAGMENTATION_HOLES
}

/// The number of indices below `n` where `after` is `before` marked
/// fragmented by this cycle.
pub open spec fn marked_count(before: Seq<Block>, after: Seq<Block>, n: int) -> nat
    decreases n,
{
    if n <= 0 {
        0
    } else {
        marked_count(before, after, n - 1) + if marked_now(before[n - 1], after[n - 1]) {
            1nat
        } else {
            0nat
        }
    }
}

/// Marking one more block raises the count by one.
pub proof fn lemma_marked_count_step(
    before: Seq<Block>,
    after: Seq<Block>,
    b: int,
    x: Block,
    n: int,
)
    requires
        0 <= b < after.len(),
        !marked_now(before[b], after[b]),
        marked_now(before[b], x),
        0 <= n <= after.len(),
    ensures
        marked_count(before, after.update(b, x), n) == marked_count(before, after, n) + if b < n {
            1nat
        } else {
            0nat
        },
    decreases n,
{
    if n > 0 {
        lemma_marked_count_step(before, after, b, x, n - 1);
    }
}

/// Nothing is counted where nothing was marked.
pub proof fn lemma_marked_count_none(before: Seq<Block>, after: Seq<Block>, n: int)
    requires
        forall|i: int| 0 <= i < n ==> !marked_now(before[i], after[i]),
    ensures
        marked_count(before, after, n) == 0,
    decreases n,
{
    if n > 0 {
        lemma_marked_count_none(before, after, n - 1);
    }
}

/// `after` is `before` marked fragmented by this cycle.
pub open spec fn marked_now(before: Block, after: Block) -> bool {
    &&& eligible(before)
    &&& after == (Block { status: BlockStatus::Fragmented, ..before })
}

/// A block that survived a collection: some line is in use, its hole count
/// is up to date, and its status follows from it.
pub open spec fn reclaimed(b: Block) -> bool {
    &&& b.wf()
    &&& exists|l: int| 0 <= l < 256 && b.used_lines_bitmap@[l]
    &&& b.holes == hole_count(b.used_lines_bitmap@)
    &&& b.status == if b.holes > 0 {
        BlockStatus::Recyclable
    } else {
        BlockStatus::Full
    }
}

} // verus!
