//! The allocator of a process's own heap: a young and a mature generation.
use vstd::prelude::*;

use crate::block::{MATURE, YOUNG};
use crate::bucket::{Bucket, all_lines_marked, lemma_fresh_apart, reclaimed};
use crate::global_allocator::{GlobalAllocator, apart, lemma_apart_after_request, pool_shrunk};
use crate::mailbox_allocator::{scale_threshold, scaled_threshold};
use crate::copy_object::position;
use crate::object::{Object, ObjectPointer, ObjectValue, block_of};

verus! {

/// No block of `a` starts where a block of `b` does.
pub open spec fn separate(a: Bucket, b: Bucket) -> bool {
    forall|i: int, j: int|
        0 <= i < a.blocks@.len() && 0 <= j < b.blocks@.len() ==> #[trigger] a.blocks@[i].lines
            != #[trigger] b.blocks@[j].lines
}

/// An object of a process's heap lies in a block of exactly one of its two
/// generations, and that block is tagged with that generation's age.
pub proof fn lemma_owned_by_one_generation(heap: LocalAllocator, p: ObjectPointer)
    requires
        heap.wf(),
        heap.object_of(p) is Some,
    ensures
        heap.young.has_block(block_of(p.raw) as int) != heap.mature.has_block(
            block_of(p.raw) as int,
        ),
        heap.young.has_block(block_of(p.raw) as int) ==> heap.young.blocks@[heap.young.index_of(
            block_of(p.raw) as int,
        )].bucket == Some(YOUNG),
        heap.mature.has_block(block_of(p.raw) as int) ==> heap.mature.blocks@[heap.mature.index_of(
            block_of(p.raw) as int,
        )].bucket == Some(MATURE),
{
    let a = block_of(p.raw) as int;
    if heap.young.has_block(a) && heap.mature.has_block(a) {
        let i = heap.young.index_of(a);
        let j = heap.mature.index_of(a);
        assert(heap.young.blocks@[i].lines != heap.mature.blocks@[j].lines);
    }
    if heap.young.has_block(a) {
        let i = heap.young.index_of(a);
        assert(heap.young.blocks@[i].bucket == Some(heap.young.age));
    }
    if heap.mature.has_block(a) {
        let j = heap.mature.index_of(a);
        assert(heap.mature.blocks@[j].bucket == Some(heap.mature.age));
    }
}

pub struct LocalAllocator {
    pub young: Bucket,
    pub mature: Bucket,
    /// The number of young blocks allocated since the last collection.
    pub young_block_allocations: usize,
    /// The number of young blocks that can be allocated before a collection
    /// is due.
    pub young_block_allocation_threshold: usize,
}

impl LocalAllocator {
    pub open spec fn wf(&self) -> bool {
        &&& self.young.wf()
        &&& self.young.age == YOUNG
        &&& self.mature.wf()
        &&& self.mature.age == MATURE
        &&& separate(self.young, self.mature)
    }

    /// The blocks of both generations are apart from the pool of `global`.
    pub open spec fn apart_from(&self, global: GlobalAllocator) -> bool {
        apart(self.young.blocks@, global) && apart(self.mature.blocks@, global)
    }

    /// The object `p` points to in either generation.
    pub open spec fn object_of(&self, p: ObjectPointer) -> Option<Object> {
        if self.young.has_block(block_of(p.raw) as int) {
            self.young.object_of(p)
        } else {
            self.mature.object_of(p)
        }
    }

    pub fn new() -> (r: Self)
        ensures
            r.wf(),
            r.young.blocks@.len() == 0,
            r.mature.blocks@.len() == 0,
            r.young_block_allocations == 0,
            r.young_block_allocation_threshold == 256,
    {
        LocalAllocator {
            young: Bucket::with_age(YOUNG),
            mature: Bucket::with_age(MATURE),
            young_block_allocations: 0,
            young_block_allocation_threshold: (8 * 1024 * 1024) / crate::object::BLOCK_SIZE,
        }
    }

    /// Allocates `object` in the young generation. Fails only when `global`
    /// can supply no block.
    pub fn allocate_object(&mut self, global: &mut GlobalAllocator, object: Object) -> (r: Option<
        ObjectPointer,
    >)
        requires
            old(self).wf(),
            old(global).wf(),
            old(self).apart_from(*old(global)),
        ensures
            final(self).wf(),
            final(global).wf(),
            final(self).apart_from(*final(global)),
            final(self).mature == old(self).mature,
            old(global).next_address <= final(global).next_address <= old(global).next_address
                + 32768,
            pool_shrunk(*old(global), *final(global)),
            final(self).young_block_allocation_threshold == old(
                self,
            ).young_block_allocation_threshold,
            r is None ==> !old(global).can_supply() && !final(global).can_supply(),
            r matches Some(p) ==> final(self).object_of(p) == Some(object) && !p.spec_is_mailbox(),
            final(self).young.blocks@.len() >= old(self).young.blocks@.len(),
            forall|i: int|
                0 <= i < old(self).young.blocks@.len() ==> #[trigger] final(self).young.blocks@[i].lines
                    == old(self).young.blocks@[i].lines,
    {
        let ghost g0 = *global;
        let ghost y0 = self.young.blocks@;
        let result = self.young.allocate(global, object);
        proof {
            lemma_apart_after_request(self.mature.blocks@, g0, *global);
            let n = y0.len() as int;
            if self.young.blocks@.len() > n {
                lemma_fresh_apart(self.mature.blocks@, g0, self.young.blocks@[n].lines as int);
            }
            assert forall|i: int, j: int|
                0 <= i < self.young.blocks@.len() && 0 <= j < self.mature.blocks@.len() implies #[trigger] self.young.blocks@[i].lines
                != #[trigger] self.mature.blocks@[j].lines by {
                if i < n {
                    assert(self.young.blocks@[i].lines == y0[i].lines);
                }
            }
        }
        match result {
            Some((new_block, pointer)) => {
                if new_block && self.young_block_allocations < usize::MAX {
                    self.young_block_allocations = self.young_block_allocations + 1;
                }
                Some(pointer)
            },
            None => None,
        }
    }

    /// Allocates an object holding `value` whose prototype is `prototype`.
    pub fn allocate(
        &mut self,
        global: &mut GlobalAllocator,
        value: ObjectValue,
        prototype: ObjectPointer,
    ) -> (r: Option<ObjectPointer>)
        requires
            old(self).wf(),
            old(global).wf(),
            old(self).apart_from(*old(global)),
        ensures
            final(self).wf(),
            final(global).wf(),
            final(self).apart_from(*final(global)),
            old(global).next_address <= final(global).next_address <= old(global).next_address
                + 32768,
            pool_shrunk(*old(global), *final(global)),
            r is None ==> !old(global).can_supply(),
            r matches Some(p) ==> final(self).object_of(p) == Some(
                Object { value: value, prototype: Some(prototype) },
            ),
    {
        self.allocate_object(global, Object::with_prototype(value, prototype))
    }

    /// Allocates an object holding `value`, without a prototype.
    pub fn allocate_without_prototype(&mut self, global: &mut GlobalAllocator, value: ObjectValue) -> (r:
        Option<ObjectPointer>)
        requires
            old(self).wf(),
            old(global).wf(),
            old(self).apart_from(*old(global)),
        ensures
            final(self).wf(),
            final(global).wf(),
            final(self).apart_from(*final(global)),
            old(global).next_address <= final(global).next_address <= old(global).next_address
                + 32768,
            pool_shrunk(*old(global), *final(global)),
            r is None ==> !old(global).can_supply(),
            r matches Some(p) ==> final(self).object_of(p) == Some(
                Object { value: value, prototype: None },
            ),
    {
        self.allocate_object(global, Object::new(value))
    }

    /// Allocates an object holding nothing.
    pub fn allocate_empty(&mut self, global: &mut GlobalAllocator) -> (r: Option<ObjectPointer>)
        requires
            old(self).wf(),
            old(global).wf(),
            old(self).apart_from(*old(global)),
        ensures
            final(self).wf(),
            final(global).wf(),
            final(self).apart_from(*final(global)),
            old(global).next_address <= final(global).next_address <= old(global).next_address
                + 32768,
            pool_shrunk(*old(global), *final(global)),
            r is None ==> !old(global).can_supply(),
            r matches Some(p) ==> final(self).object_of(p) == Some(
                Object { value: ObjectValue::Nil, prototype: None },
            ),
    {
        self.allocate_without_prototype(global, ObjectValue::Nil)
    }

    /// The object `pointer` points to in either generation.
    pub fn object(&self, pointer: ObjectPointer) -> (r: Option<&Object>)
        requires
            self.wf(),
        ensures
            match r {
                Some(o) => self.object_of(pointer) == Some(*o),
                None => self.object_of(pointer) is None,
            },
    {
        match self.young.find_block(pointer.block_address()) {
            Some(_) => self.young.object(pointer),
            None => self.mature.object(pointer),
        }
    }

    /// Writes `object` into the slot `pointer` points to. Returns whether the
    /// slot lies in this heap.
    pub fn set_object(&mut self, pointer: ObjectPointer, object: Object) -> (ok: bool)
        requires
            old(self).wf(),
        ensures
            final(self).wf(),
            ok == (old(self).object_of(pointer) is Some || old(self).young.has_block(
                block_of(pointer.raw) as int,
            ) || old(self).mature.has_block(block_of(pointer.raw) as int)),
            ok ==> final(self).object_of(pointer) == Some(object),
            forall|a: GlobalAllocator| old(self).apart_from(a) ==> final(self).apart_from(a),
            final(self).young.blocks@.len() == old(self).young.blocks@.len(),
            final(self).mature.blocks@.len() == old(self).mature.blocks@.len(),
            forall|i: int|
                0 <= i < old(self).young.blocks@.len() ==> #[trigger] final(self).young.blocks@[i].lines
                    == old(self).young.blocks@[i].lines,
            forall|i: int|
                0 <= i < old(self).mature.blocks@.len() ==> #[trigger] final(self).mature.blocks@[i].lines
                    == old(self).mature.blocks@[i].lines,
    {
        let ghost y0 = self.young.blocks@;
        let ghost m0 = self.mature.blocks@;
        let ok = match self.young.find_block(pointer.block_address()) {
            Some(_) => self.young.set_object(pointer, object),
            None => self.mature.set_object(pointer, object),
        };
        proof {
            assert(forall|i: int| 0 <= i < y0.len() ==> #[trigger] self.young.blocks@[i].lines == y0[i].lines);
            assert(forall|i: int| 0 <= i < m0.len() ==> #[trigger] self.mature.blocks@[i].lines == m0[i].lines);
            if self.young.has_block(block_of(pointer.raw) as int) {
                let k = self.young.index_of(block_of(pointer.raw) as int);
                assert(y0[k].lines == block_of(pointer.raw));
            }
        }
        ok
    }

    /// Moves the young object `pointer` points to into the mature generation,
    /// leaving in its slot a forwarding object that holds the new pointer.
    /// Returns the new pointer; `None` when `pointer` points to no young
    /// object, or when no block can be had.
    pub fn promote(&mut self, global: &mut GlobalAllocator, pointer: ObjectPointer) -> (r: Option<
        ObjectPointer,
    >)
        requires
            old(self).wf(),
            old(global).wf(),
            old(self).apart_from(*old(global)),
        ensures
            final(self).wf(),
            final(global).wf(),
            final(self).apart_from(*final(global)),
            r is None ==> old(self).young.object_of(pointer) is None || !old(global).can_supply(),
            r matches Some(q) ==> {
                &&& old(self).young.object_of(pointer) matches Some(o)
                &&& final(self).mature.object_of(q) == Some(o)
                &&& final(self).object_of(q) == Some(o)
                &&& final(self).young.object_of(pointer) == Some(
                    Object { value: ObjectValue::Forwarded(q), prototype: None },
                )
            },
    {
        if self.young.object(pointer).is_none() {
            return None;
        }
        let ghost g0 = *global;
        let ghost m0 = self.mature.blocks@;
        let target = match self.mature.allocate(global, Object::new(ObjectValue::Nil)) {
            Some((_, q)) => q,
            None => {
                proof {
                    lemma_apart_after_request(self.young.blocks@, g0, *global);
                }
                return None;
            },
        };
        proof {
            lemma_apart_after_request(self.young.blocks@, g0, *global);
            let n = m0.len() as int;
            if self.mature.blocks@.len() > n {
                lemma_fresh_apart(self.young.blocks@, g0, self.mature.blocks@[n].lines as int);
            }
            assert forall|i: int, j: int|
                0 <= i < self.young.blocks@.len() && 0 <= j < self.mature.blocks@.len() implies #[trigger] self.young.blocks@[i].lines
                != #[trigger] self.mature.blocks@[j].lines by {
                if j < n {
                    assert(self.mature.blocks@[j].lines == m0[j].lines);
                }
            }
        }
        let ghost m1 = self.mature.blocks@;
        let ghost y1 = self.young.blocks@;
        let moved = self.young.replace_object(
            pointer,
            Object { value: ObjectValue::Forwarded(target), prototype: None },
        );
        proof {
            self.lemma_same_lines(y1, m1);
        }
        match moved {
            Some(object) => {
                let ghost o = object;
                let ghost y2 = self.young.blocks@;
                let ghost m2 = self.mature.blocks@;
                self.mature.set_object(target, object);
                proof {
                    self.lemma_same_lines(y2, m2);
                    let a = block_of(target.raw) as int;
                    assert(self.mature.has_block(a));
                    let km = self.mature.index_of(a);
                    if self.young.has_block(a) {
                        let ky = self.young.index_of(a);
                        assert(self.young.blocks@[ky].lines != self.mature.blocks@[km].lines);
                    }
                }
                Some(target)
            },
            None => None,
        }
    }

    /// Where the object `pointer` points to lives: the pointer its forwarding
    /// object holds when it moved, else `pointer` itself.
    pub fn resolve(&self, pointer: ObjectPointer) -> (r: ObjectPointer)
        requires
            self.wf(),
        ensures
            r == match self.object_of(pointer) {
                Some(o) => match o.value {
                    ObjectValue::Forwarded(q) => q,
                    _ => pointer,
                },
                None => pointer,
            },
    {
        match self.object(pointer) {
            Some(object) => match object.value {
                ObjectValue::Forwarded(q) => q,
                _ => pointer,
            },
            None => pointer,
        }
    }

    /// Whether enough young blocks were allocated for a collection to be due.
    pub fn allocation_threshold_exceeded(&self) -> (r: bool)
        ensures
            r == (self.young_block_allocations >= self.young_block_allocation_threshold),
    {
        self.young_block_allocations >= self.young_block_allocation_threshold
    }

    /// Multiplies the allocation threshold by `numerator / denominator`,
    /// rounding up.
    pub fn increment_threshold(&mut self, numerator: usize, denominator: usize)
        requires
            denominator > 0,
        ensures
            final(self).young_block_allocation_threshold == scaled_threshold(
                old(self).young_block_allocation_threshold as int,
                numerator as int,
                denominator as int,
            ),
            final(self).young == old(self).young,
            final(self).mature == old(self).mature,
            final(self).young_block_allocations == old(self).young_block_allocations,
    {
        self.young_block_allocation_threshold = scale_threshold(
            self.young_block_allocation_threshold,
            numerator,
            denominator,
        );
    }

    /// Returns every block of both generations to `global`, reset.
    pub fn release(&mut self, global: &mut GlobalAllocator)
        requires
            old(self).wf(),
            old(global).wf(),
            old(self).apart_from(*old(global)),
        ensures
            final(self).wf(),
            final(self).young.blocks@.len() == 0,
            final(self).mature.blocks@.len() == 0,
            final(global).wf(),
            final(global).blocks@.len() == old(global).blocks@.len() + old(
                self,
            ).young.blocks@.len() + old(self).mature.blocks@.len(),
            final(global).next_address == old(global).next_address,
            forall|j: int|
                0 <= j < old(global).blocks@.len() ==> #[trigger] final(global).blocks@[j]
                    == old(global).blocks@[j],
            forall|j: int|
                old(global).blocks@.len() <= j < final(global).blocks@.len() ==> (exists|k: int|
                    0 <= k < old(self).young.blocks@.len() && #[trigger] final(global).blocks@[j].lines
                        == old(self).young.blocks@[k].lines) || (exists|k: int|
                    0 <= k < old(self).mature.blocks@.len() && final(global).blocks@[j].lines
                        == old(self).mature.blocks@[k].lines),
    {
        let ghost g0 = *global;
        let ghost y0 = self.young.blocks@;
        let ghost m0 = self.mature.blocks@;
        self.young.release(global);
        proof {
            assert forall|i: int, j: int|
                0 <= i < self.mature.blocks@.len() && 0 <= j < global.blocks@.len() implies #[trigger] self.mature.blocks@[i].lines
                != #[trigger] global.blocks@[j].lines by {
                if j < g0.blocks@.len() {
                    assert(global.blocks@[j] == g0.blocks@[j]);
                } else {
                    let k = choose|k: int|
                        0 <= k < y0.len() && global.blocks@[j].lines == y0[k].lines;
                    assert(y0[k].lines != self.mature.blocks@[i].lines);
                }
            }
        }
        let ghost g1 = *global;
        self.mature.release(global);
        proof {
            assert forall|j: int| 0 <= j < g0.blocks@.len() implies #[trigger] global.blocks@[j]
                == g0.blocks@[j] by {
                assert(global.blocks@[j] == g1.blocks@[j]);
            }
            assert forall|j: int|
                g0.blocks@.len() <= j < global.blocks@.len() implies (exists|k: int|
                    0 <= k < y0.len() && #[trigger] global.blocks@[j].lines == y0[k].lines) || (exists|k: int|
                    0 <= k < m0.len() && global.blocks@[j].lines == m0[k].lines) by {
                if j < g1.blocks@.len() {
                    assert(global.blocks@[j] == g1.blocks@[j]);
                }
            }
        }
    }
    /// The pointers that the object `pointer` points to holds.
    fn children(&self, pointer: ObjectPointer) -> (r: Vec<ObjectPointer>)
        requires
            self.wf(),
    {
        let mut out: Vec<ObjectPointer> = Vec::new();
        if let Some(object) = self.object(pointer) {
            if let ObjectValue::Array(values) = &object.value {
                let mut i: usize = 0;
                while i < values.len()
                    invariant
                        i <= values@.len(),
                    decreases values@.len() - i,
                {
                    out.push(values[i]);
                    i = i + 1;
                }
            }
        }
        out
    }

    /// Marks the object `pointer` points to in whichever generation holds
    /// it. Returns whether it was marked.
    fn mark(&mut self, pointer: ObjectPointer) -> (r: bool)
        requires
            old(self).wf(),
            all_lines_marked(old(self).young.blocks@),
            all_lines_marked(old(self).mature.blocks@),
        ensures
            final(self).wf(),
            all_lines_marked(final(self).young.blocks@),
            all_lines_marked(final(self).mature.blocks@),
            final(self).young.blocks@.len() == old(self).young.blocks@.len(),
            final(self).mature.blocks@.len() == old(self).mature.blocks@.len(),
            forall|i: int|
                0 <= i < old(self).young.blocks@.len() ==> #[trigger] final(self).young.blocks@[i].lines
                    == old(self).young.blocks@[i].lines,
            forall|i: int|
                0 <= i < old(self).mature.blocks@.len() ==> #[trigger] final(self).mature.blocks@[i].lines
                    == old(self).mature.blocks@[i].lines,
            final(self).young_block_allocations == old(self).young_block_allocations,
            final(self).young_block_allocation_threshold == old(
                self,
            ).young_block_allocation_threshold,
    {
        let ghost y0 = self.young.blocks@;
        let ghost m0 = self.mature.blocks@;
        let r = match self.young.find_block(pointer.block_address()) {
            Some(_) => self.young.mark(pointer),
            None => self.mature.mark(pointer),
        };
        proof {
            self.lemma_same_lines(y0, m0);
        }
        r
    }

    /// Blocks whose addresses did not change stay apart from each other.
    proof fn lemma_same_lines(&self, y0: Seq<crate::block::Block>, m0: Seq<crate::block::Block>)
        requires
            self.young.blocks@.len() == y0.len(),
            self.mature.blocks@.len() == m0.len(),
            forall|i: int| 0 <= i < y0.len() ==> #[trigger] self.young.blocks@[i].lines == y0[i].lines,
            forall|i: int| 0 <= i < m0.len() ==> #[trigger] self.mature.blocks@[i].lines == m0[i].lines,
            forall|i: int, j: int|
                0 <= i < y0.len() && 0 <= j < m0.len() ==> #[trigger] y0[i].lines != #[trigger] m0[j].lines,
        ensures
            separate(self.young, self.mature),
            forall|g: GlobalAllocator| apart(y0, g) ==> #[trigger] apart(self.young.blocks@, g),
            forall|g: GlobalAllocator| apart(m0, g) ==> #[trigger] apart(self.mature.blocks@, g),
    {
        assert forall|i: int, j: int|
            0 <= i < self.young.blocks@.len() && 0 <= j < self.mature.blocks@.len() implies #[trigger] self.young.blocks@[i].lines
            != #[trigger] self.mature.blocks@[j].lines by {
            assert(y0[i].lines != m0[j].lines);
        }
        assert forall|g: GlobalAllocator| apart(y0, g) implies #[trigger] apart(self.young.blocks@, g) by {
            assert forall|i: int, j: int|
                0 <= i < self.young.blocks@.len() && 0 <= j < g.blocks@.len() implies #[trigger] self.young.blocks@[i].lines
                != #[trigger] g.blocks@[j].lines by {
                assert(y0[i].lines != g.blocks@[j].lines);
            }
            assert forall|i: int| 0 <= i < self.young.blocks@.len() implies #[trigger] self.young.blocks@[i].lines
                < g.next_address by {
                assert(y0[i].lines < g.next_address);
            }
        }
        assert forall|g: GlobalAllocator| apart(m0, g) implies #[trigger] apart(self.mature.blocks@, g) by {
            assert forall|i: int, j: int|
                0 <= i < self.mature.blocks@.len() && 0 <= j < g.blocks@.len() implies #[trigger] self.mature.blocks@[i].lines
                != #[trigger] g.blocks@[j].lines by {
                assert(m0[i].lines != g.blocks@[j].lines);
            }
            assert forall|i: int| 0 <= i < self.mature.blocks@.len() implies #[trigger] self.mature.blocks@[i].lines
                < g.next_address by {
                assert(m0[i].lines < g.next_address);
            }
        }
    }

    /// Collects this heap, stopping the world: clears the bitmaps, marks
    /// every object reachable from `roots` (its slot, and the line it lies
    /// in), hands every block without a marked line back to `global`, and
    /// makes the others recyclable or full. Objects are not moved. Afterwards
    /// every line in use holds a marked object, and every block left holds at
    /// least one.
    pub fn collect(&mut self, global: &mut GlobalAllocator, roots: &Vec<ObjectPointer>)
        requires
            old(self).wf(),
            old(global).wf(),
            old(self).apart_from(*old(global)),
        ensures
            final(self).wf(),
            final(global).wf(),
            final(self).apart_from(*final(global)),
            all_lines_marked(final(self).young.blocks@),
            all_lines_marked(final(self).mature.blocks@),
            forall|i: int|
                0 <= i < final(self).young.blocks@.len() ==> reclaimed(
                    #[trigger] final(self).young.blocks@[i],
                ),
            forall|i: int|
                0 <= i < final(self).mature.blocks@.len() ==> reclaimed(
                    #[trigger] final(self).mature.blocks@[i],
                ),
            final(global).blocks@.len() + final(self).young.blocks@.len()
                + final(self).mature.blocks@.len() == old(global).blocks@.len()
                + old(self).young.blocks@.len() + old(self).mature.blocks@.len(),
            final(self).young_block_allocations == 0,
            final(global).next_address == old(global).next_address,
            forall|j: int|
                0 <= j < old(global).blocks@.len() ==> #[trigger] final(global).blocks@[j]
                    == old(global).blocks@[j],
            forall|j: int|
                old(global).blocks@.len() <= j < final(global).blocks@.len() ==> (exists|k: int|
                    0 <= k < old(self).young.blocks@.len() && #[trigger] final(global).blocks@[j].lines
                        == old(self).young.blocks@[k].lines) || (exists|k: int|
                    0 <= k < old(self).mature.blocks@.len() && final(global).blocks@[j].lines
                        == old(self).mature.blocks@[k].lines),
    {
        let ghost y0 = self.young.blocks@;
        let ghost m0 = self.mature.blocks@;
        self.young.reset_bitmaps();
        self.mature.reset_bitmaps();
        proof {
            self.lemma_same_lines(y0, m0);
        }
        let ghost y1 = self.young.blocks@;
        let ghost m1 = self.mature.blocks@;
        let blocks = self.young.blocks.len() as u128 + self.mature.blocks.len() as u128;
        let limit: u128 = blocks * 1024;
        let mut work: Vec<ObjectPointer> = Vec::new();
        let mut k: usize = 0;
        while k < roots.len()
            invariant
                k <= roots@.len(),
            decreases roots@.len() - k,
        {
            work.push(roots[k]);
            k = k + 1;
        }
        let mut seen: Vec<ObjectPointer> = Vec::new();
        while work.len() > 0 && (seen.len() as u128) < limit
            invariant
                self.wf(),
                all_lines_marked(self.young.blocks@),
                all_lines_marked(self.mature.blocks@),
                self.young.blocks@.len() == y1.len(),
                self.mature.blocks@.len() == m1.len(),
                forall|i: int| 0 <= i < y1.len() ==> #[trigger] self.young.blocks@[i].lines == y1[i].lines,
                forall|i: int| 0 <= i < m1.len() ==> #[trigger] self.mature.blocks@[i].lines == m1[i].lines,
                forall|i: int| 0 <= i < y1.len() ==> #[trigger] y1[i].lines == y0[i].lines,
                forall|i: int| 0 <= i < m1.len() ==> #[trigger] m1[i].lines == m0[i].lines,
                y1.len() == y0.len(),
                m1.len() == m0.len(),
                separate(old(self).young, old(self).mature),
                old(self).young.blocks@ == y0,
                old(self).mature.blocks@ == m0,
                *global == *old(global),
                seen@.len() <= limit,
            decreases limit - seen@.len(), work@.len(),
        {
            let pointer = work.pop().unwrap();
            if position(&seen, pointer).is_none() {
                seen.push(pointer);
                let children = self.children(pointer);
                self.mark(pointer);
                let mut c: usize = 0;
                while c < children.len()
                    invariant
                        c <= children@.len(),
                    decreases children@.len() - c,
                {
                    work.push(children[c]);
                    c = c + 1;
                }
            }
        }
        proof {
            assert forall|i: int, j: int|
                0 <= i < y0.len() && 0 <= j < m0.len() implies #[trigger] y0[i].lines != #[trigger] m0[j].lines by {
                assert(old(self).young.blocks@[i].lines != old(self).mature.blocks@[j].lines);
            }
            self.lemma_same_lines(y0, m0);
        }
        let ghost y2 = self.young.blocks@;
        let ghost g0 = *global;
        self.young.reclaim_into(global);
        proof {
            assert forall|i: int, j: int|
                0 <= i < self.mature.blocks@.len() && 0 <= j < global.blocks@.len() implies #[trigger] self.mature.blocks@[i].lines
                != #[trigger] global.blocks@[j].lines by {
                if j < g0.blocks@.len() {
                    assert(global.blocks@[j] == g0.blocks@[j]);
                } else {
                    let k = choose|k: int| 0 <= k < y2.len() && global.blocks@[j].lines == y2[k].lines;
                    assert(y2[k].lines != self.mature.blocks@[i].lines);
                }
            }
            assert forall|i: int, j: int|
                0 <= i < self.young.blocks@.len() && 0 <= j < self.mature.blocks@.len() implies #[trigger] self.young.blocks@[i].lines
                != #[trigger] self.mature.blocks@[j].lines by {
                let k = choose|k: int| 0 <= k < y2.len() && self.young.blocks@[i].lines == y2[k].lines;
                assert(y2[k].lines != self.mature.blocks@[j].lines);
            }
        }
        let ghost m2 = self.mature.blocks@;
        let ghost g1 = *global;
        self.mature.reclaim_into(global);
        proof {
            assert forall|i: int, j: int|
                0 <= i < self.young.blocks@.len() && 0 <= j < global.blocks@.len() implies #[trigger] self.young.blocks@[i].lines
                != #[trigger] global.blocks@[j].lines by {
                if j < g1.blocks@.len() {
                    assert(global.blocks@[j] == g1.blocks@[j]);
                } else {
                    let k = choose|k: int| 0 <= k < m2.len() && global.blocks@[j].lines == m2[k].lines;
                    assert(m2[k].lines != self.young.blocks@[i].lines);
                }
            }
            assert forall|i: int, j: int|
                0 <= i < self.young.blocks@.len() && 0 <= j < self.mature.blocks@.len() implies #[trigger] self.young.blocks@[i].lines
                != #[trigger] self.mature.blocks@[j].lines by {
                let k = choose|k: int| 0 <= k < m2.len() && self.mature.blocks@[j].lines == m2[k].lines;
                assert(m2[k].lines != self.young.blocks@[i].lines);
            }
        }
        proof {
            assert forall|j: int| 0 <= j < old(global).blocks@.len() implies #[trigger] global.blocks@[j]
                == old(global).blocks@[j] by {
                assert(global.blocks@[j] == g1.blocks@[j]);
            }
            assert forall|j: int|
                old(global).blocks@.len() <= j < global.blocks@.len() implies (exists|k: int|
                    0 <= k < y0.len() && #[trigger] global.blocks@[j].lines == y0[k].lines) || (exists|k: int|
                    0 <= k < m0.len() && global.blocks@[j].lines == m0[k].lines) by {
                if j < g1.blocks@.len() {
                    assert(global.blocks@[j] == g1.blocks@[j]);
                    let k = choose|k: int| 0 <= k < y2.len() && g1.blocks@[j].lines == y2[k].lines;
                    assert(y2[k].lines == y0[k].lines);
                } else {
                    let k = choose|k: int| 0 <= k < m2.len() && global.blocks@[j].lines == m2[k].lines;
                    assert(m2[k].lines == m0[k].lines);
                }
            }
        }
        self.young_block_allocations = 0;
    }
}

} // verus!
