//! Deep copies of object graphs from one heap into another, such as when a
//! message is sent to a process.
use vstd::prelude::*;

use crate::global_allocator::{
    GlobalAllocator,
    apart,
    lemma_taken_from_refl,
    lemma_taken_from_trans,
    taken_from,
};
use crate::local_allocator::LocalAllocator;
use crate::mailbox_allocator::MailboxAllocator;
use crate::object::{Object, ObjectPointer, ObjectValue, block_of};

verus! {

/// A heap objects can be read from.
pub trait Heap {
    spec fn heap_wf(&self) -> bool;

    /// The object `p` points to, if any.
    spec fn object_at(&self, p: ObjectPointer) -> Option<Object>;

    fn read_object(&self, p: ObjectPointer) -> (r: Option<&Object>)
        requires
            self.heap_wf(),
        ensures
            match r {
                Some(o) => self.object_at(p) == Some(*o),
                None => self.object_at(p) is None,
            },
    ;
}

/// A heap copies can be allocated into.
pub trait CopyObject {
    /// The heap is well formed, and apart from the pool of `global`.
    spec fn target_wf(&self, global: GlobalAllocator) -> bool;

    /// The object `p` points to, if any.
    spec fn copy_at(&self, p: ObjectPointer) -> Option<Object>;

    /// Whether `p` points into a block of this heap.
    spec fn owns(&self, p: ObjectPointer) -> bool;

    /// Whether `p` carries the tags that pointers into this heap carry.
    spec fn tagged(&self, p: ObjectPointer) -> bool;

    /// Allocates the copy of an object.
    fn allocate_copy(&mut self, global: &mut GlobalAllocator, object: Object) -> (r: Option<
        ObjectPointer,
    >)
        requires
            old(self).target_wf(*old(global)),
            old(global).wf(),
        ensures
            final(self).target_wf(*final(global)),
            final(global).wf(),
            taken_from(*old(global), *final(global)),
            r is None ==> !old(global).can_supply() && !final(global).can_supply(),
            r matches Some(p) ==> final(self).copy_at(p) == Some(object) && final(self).owns(p)
                && final(self).tagged(p),
            forall|q: ObjectPointer| old(self).tagged(q) == #[trigger] final(self).tagged(q),
            forall|q: ObjectPointer| old(self).owns(q) ==> #[trigger] final(self).owns(q),
    ;

    /// Overwrites the object `p` points to.
    fn write_copy(&mut self, global: &GlobalAllocator, p: ObjectPointer, object: Object) -> (ok:
        bool)
        requires
            old(self).target_wf(*global),
        ensures
            final(self).target_wf(*global),
            ok == old(self).owns(p),
            ok ==> final(self).copy_at(p) == Some(object),
            forall|q: ObjectPointer| old(self).owns(q) ==> #[trigger] final(self).owns(q),
            forall|q: ObjectPointer| old(self).tagged(q) == #[trigger] final(self).tagged(q),
    ;
}

/// The pointers held by the object `p` points to.
pub open spec fn children<H: Heap>(source: &H, p: ObjectPointer) -> Seq<ObjectPointer> {
    match source.object_at(p) {
        Some(o) => match o.value {
            ObjectValue::Array(v) => v@,
            _ => Seq::empty(),
        },
        None => Seq::empty(),
    }
}

/// `p` can be reached from `root` in `source` by following at most `steps`
/// pointers held by arrays.
pub open spec fn reaches<H: Heap>(source: &H, root: ObjectPointer, p: ObjectPointer, steps: nat) -> bool
    decreases steps,
{
    p == root || (steps > 0 && exists|q: ObjectPointer, k: int|
        reaches(source, root, q, (steps - 1) as nat) && 0 <= k < children(source, q).len()
            && #[trigger] children(source, q)[k] == p)
}

/// Some pointer that can be reached from `root` points to no object.
pub open spec fn dangling<H: Heap>(source: &H, root: ObjectPointer) -> bool {
    exists|p: ObjectPointer, steps: nat|
        #[trigger] reaches(source, root, p, steps) && source.object_at(p) is None
}

/// Each pointer of `nodes` can be reached from `root` in the number of steps
/// `steps` gives for it.
pub open spec fn reached_in<H: Heap>(
    source: &H,
    root: ObjectPointer,
    nodes: Seq<ObjectPointer>,
    steps: Seq<nat>,
) -> bool {
    &&& steps.len() == nodes.len()
    &&& forall|j: int| 0 <= j < nodes.len() ==> #[trigger] reaches(source, root, nodes[j], steps[j])
}

/// The graph reachable from `root` has more objects than a vector can count.
pub open spec fn too_large<H: Heap>(source: &H, root: ObjectPointer) -> bool {
    exists|nodes: Seq<ObjectPointer>, steps: Seq<nat>|
        nodes.len() >= usize::MAX && (forall|a: int, b: int|
            0 <= a < b < nodes.len() ==> nodes[a] != nodes[b]) && #[trigger] reached_in(
            source,
            root,
            nodes,
            steps,
        )
}

/// The first index at or after `i` where `nodes` holds `p`, or -1.
pub open spec fn find_in(nodes: Seq<ObjectPointer>, p: ObjectPointer, i: int) -> int
    decreases nodes.len() - i,
{
    if i >= nodes.len() || i < 0 {
        -1
    } else if nodes[i] == p {
        i
    } else {
        find_in(nodes, p, i + 1)
    }
}

/// Where the copy of `p` lives: the copy of the same index, or `p` itself for
/// a pointer that was not copied.
pub open spec fn copied_pointer(
    p: ObjectPointer,
    nodes: Seq<ObjectPointer>,
    copies: Seq<ObjectPointer>,
) -> ObjectPointer {
    let k = find_in(nodes, p, 0);
    if 0 <= k < copies.len() {
        copies[k]
    } else {
        p
    }
}

/// `copy` is `value` with every pointer it holds replaced by the pointer
/// to its copy; other values are copied as they are.
pub open spec fn is_copy(
    value: ObjectValue,
    copy: ObjectValue,
    nodes: Seq<ObjectPointer>,
    copies: Seq<ObjectPointer>,
) -> bool {
    match (value, copy) {
        (ObjectValue::Nil, ObjectValue::Nil) => true,
        (ObjectValue::Integer(a), ObjectValue::Integer(b)) => a == b,
        (ObjectValue::String(a), ObjectValue::String(b)) => a == b,
        (ObjectValue::Error(a), ObjectValue::Error(b)) => a == b,
        (ObjectValue::Array(a), ObjectValue::Array(b)) => b@ == a@.map_values(
            |e: ObjectPointer| copied_pointer(e, nodes, copies),
        ),
        (ObjectValue::Forwarded(a), ObjectValue::Forwarded(b)) => b == copied_pointer(
            a,
            nodes,
            copies,
        ),
        _ => false,
    }
}

/// Copying a value twice gives the value back, up to where its pointers
/// lead: a value without pointers comes back equal, and an array comes back
/// with each element replaced by the copy of its copy.
pub proof fn lemma_copy_twice(
    value: ObjectValue,
    once: ObjectValue,
    twice: ObjectValue,
    nodes1: Seq<ObjectPointer>,
    copies1: Seq<ObjectPointer>,
    nodes2: Seq<ObjectPointer>,
    copies2: Seq<ObjectPointer>,
)
    requires
        is_copy(value, once, nodes1, copies1),
        is_copy(once, twice, nodes2, copies2),
    ensures
        match value {
            ObjectValue::Array(a) => twice matches ObjectValue::Array(b) && b@ == a@.map_values(
                |e: ObjectPointer| copied_pointer(copied_pointer(e, nodes1, copies1), nodes2, copies2),
            ),
            ObjectValue::Forwarded(a) => twice == ObjectValue::Forwarded(
                copied_pointer(copied_pointer(a, nodes1, copies1), nodes2, copies2),
            ),
            _ => twice == value,
        },
{
    match value {
        ObjectValue::Array(a) => {
            let b = twice->Array_0;
            assert(b@ =~= a@.map_values(
                |e: ObjectPointer| copied_pointer(copied_pointer(e, nodes1, copies1), nodes2, copies2),
            ));
        },
        _ => {},
    }
}

/// The graph `nodes` of `source`: distinct pointers to objects, starting at
/// `root`, and holding every pointer its objects hold.
pub open spec fn is_graph<H: Heap>(source: &H, root: ObjectPointer, nodes: Seq<ObjectPointer>) -> bool {
    &&& nodes.len() >= 1
    &&& nodes[0] == root
    &&& forall|a: int, b: int| 0 <= a < b < nodes.len() ==> nodes[a] != nodes[b]
    &&& forall|j: int| 0 <= j < nodes.len() ==> source.object_at(#[trigger] nodes[j]) is Some
    &&& forall|j: int, k: int|
        0 <= j < nodes.len() && 0 <= k < children(source, nodes[j]).len() ==> nodes.contains(
            #[trigger] children(source, nodes[j])[k],
        )
}

/// The index of `p` in `nodes`, if it is there.
pub fn position(nodes: &Vec<ObjectPointer>, p: ObjectPointer) -> (r: Option<usize>)
    ensures
        match r {
            Some(k) => k == find_in(nodes@, p, 0) && k < nodes@.len() && nodes@[k as int] == p,
            None => find_in(nodes@, p, 0) == -1 && !nodes@.contains(p),
        },
{
    let mut i: usize = 0;
    while i < nodes.len()
        invariant
            i <= nodes@.len(),
            find_in(nodes@, p, 0) == find_in(nodes@, p, i as int),
            forall|j: int| 0 <= j < i ==> nodes@[j] != p,
        decreases nodes@.len() - i,
    {
        if nodes[i] == p {
            return Some(i);
        }
        i = i + 1;
    }
    None
}

/// Collects the graph reachable from `root` in `source`, each object once.
/// Returns `None` when a pointer of the graph points to no object.
pub fn reachable<H: Heap>(source: &H, root: ObjectPointer) -> (r: Option<Vec<ObjectPointer>>)
    requires
        source.heap_wf(),
    ensures
        source.object_at(root) is None ==> r is None,
        r matches Some(nodes) ==> is_graph(source, root, nodes@),
        r is None ==> dangling(source, root) || too_large(source, root),
{
    if source.read_object(root).is_none() {
        assert(reaches(source, root, root, 0));
        return None;
    }
    let limit = usize::MAX;
    let mut nodes: Vec<ObjectPointer> = Vec::new();
    nodes.push(root);
    let ghost mut steps: Seq<nat> = seq![0nat];
    assert(reaches(source, root, nodes@[0], 0));
    let mut i: usize = 0;
    while i < nodes.len()
        invariant
            source.heap_wf(),
            limit == usize::MAX,
            nodes@.len() >= 1,
            nodes@[0] == root,
            i <= nodes@.len(),
            nodes@.len() <= limit || nodes@.len() == 1,
            forall|a: int, b: int| 0 <= a < b < nodes@.len() ==> nodes@[a] != nodes@[b],
            forall|j: int| 0 <= j < nodes@.len() ==> source.object_at(#[trigger] nodes@[j]) is Some,
            forall|j: int, k: int|
                0 <= j < i && 0 <= k < children(source, nodes@[j]).len() ==> nodes@.contains(
                    #[trigger] children(source, nodes@[j])[k],
                ),
            reached_in(source, root, nodes@, steps),
        decreases limit + 1 - nodes@.len(), nodes@.len() - i,
    {
        let current = nodes[i];
        let object = source.read_object(current);
        let ghost before = nodes@;
        if let Some(o) = object {
            if let ObjectValue::Array(values) = &o.value {
                let mut k: usize = 0;
                while k < values.len()
                    invariant
                        source.heap_wf(),
                        limit == usize::MAX,
                        nodes@.len() >= before.len(),
                        nodes@.subrange(0, before.len() as int) == before,
                        nodes@.len() >= 1,
                        nodes@[0] == root,
                        i < before.len(),
                        nodes@.len() <= limit || nodes@.len() == 1,
                        values@ == children(source, current),
                        current == nodes@[i as int],
                        k <= values@.len(),
                        forall|a: int, b: int| 0 <= a < b < nodes@.len() ==> nodes@[a] != nodes@[b],
                        forall|j: int|
                            0 <= j < nodes@.len() ==> source.object_at(#[trigger] nodes@[j]) is Some,
                        forall|m: int| 0 <= m < k ==> nodes@.contains(#[trigger] values@[m]),
                        reached_in(source, root, nodes@, steps),
                    decreases values@.len() - k,
                {
                    let value = values[k];
                    proof {
                        let n = steps[i as int];
                        assert(reaches(source, root, current, n) && children(source, current)[k as int]
                            == value);
                        assert(reaches(source, root, value, n + 1));
                    }
                    if position(&nodes, value).is_none() {
                        if source.read_object(value).is_none() {
                            return None;
                        }
                        if nodes.len() >= limit {
                            assert(reached_in(source, root, nodes@, steps));
                            return None;
                        }
                        let ghost prev = nodes@;
                        nodes.push(value);
                        proof {
                            let n = steps[i as int];
                            steps = steps.push(n + 1);
                            assert forall|j: int| 0 <= j < nodes@.len() implies #[trigger] reaches(
                                source,
                                root,
                                nodes@[j],
                                steps[j],
                            ) by {
                                if j < prev.len() {
                                    assert(nodes@[j] == prev[j]);
                                    assert(reaches(source, root, prev[j], steps[j]));
                                } else {
                                    assert(nodes@[j] == value);
                                }
                            }
                            assert forall|m: int| 0 <= m <= k implies nodes@.contains(
                                #[trigger] values@[m],
                            ) by {
                                if m < k {
                                    let w = choose|w: int| 0 <= w < prev.len() && prev[w] == values@[m];
                                    assert(nodes@[w] == values@[m]);
                                } else {
                                    assert(nodes@[prev.len() as int] == values@[m]);
                                }
                            }
                        }
                    }
                    k = k + 1;
                }
            }
        }
        proof {
            assert forall|j: int, k: int|
                0 <= j < i + 1 && 0 <= k < children(source, nodes@[j]).len() implies nodes@.contains(
                #[trigger] children(source, nodes@[j])[k],
            ) by {
                if j < i {
                    assert(nodes@[j] == before[j]);
                    let w = choose|w: int| 0 <= w < before.len() && before[w] == children(source, before[j])[k];
                    assert(nodes@[w] == before[w]);
                }
            }
        }
        i = i + 1;
    }
    Some(nodes)
}

/// Copies `value`, replacing each pointer it holds by the pointer to its copy.
pub fn copy_value(value: &ObjectValue, nodes: &Vec<ObjectPointer>, copies: &Vec<ObjectPointer>) -> (r:
    ObjectValue)
    requires
        nodes@.len() == copies@.len(),
    ensures
        is_copy(*value, r, nodes@, copies@),
{
    match value {
        ObjectValue::Nil => ObjectValue::Nil,
        ObjectValue::Integer(i) => ObjectValue::Integer(*i),
        ObjectValue::String(s) => ObjectValue::String(s.clone()),
        ObjectValue::Error(e) => ObjectValue::Error(*e),
        ObjectValue::Forwarded(p) => ObjectValue::Forwarded(
            match position(nodes, *p) {
                Some(j) => copies[j],
                None => *p,
            },
        ),
        ObjectValue::Array(values) => {
            let mut copied: Vec<ObjectPointer> = Vec::new();
            let mut k: usize = 0;
            while k < values.len()
                invariant
                    k <= values@.len(),
                    nodes@.len() == copies@.len(),
                    copied@ == values@.subrange(0, k as int).map_values(
                        |e: ObjectPointer| copied_pointer(e, nodes@, copies@),
                    ),
                decreases values@.len() - k,
            {
                let target = match position(nodes, values[k]) {
                    Some(j) => copies[j],
                    None => values[k],
                };
                copied.push(target);
                k = k + 1;
                assert(copied@ =~= values@.subrange(0, k as int).map_values(
                    |e: ObjectPointer| copied_pointer(e, nodes@, copies@),
                ));
            }
            assert(values@.subrange(0, k as int) =~= values@);
            ObjectValue::Array(copied)
        },
    }
}

/// Deep-copies the graph reachable from `root` in `source` into `dest`. Each
/// object is copied once, so shared objects stay shared and cycles stay
/// cycles. Returns the pointer to the copy of `root`: it holds the root's
/// value with each pointer replaced by the pointer to the copy of its target,
/// and the root's prototype. Returns `None` when `root`, or a pointer of its
/// graph, points to no object, or when `global` runs out of blocks.
pub fn copy_object<H: Heap, T: CopyObject>(
    dest: &mut T,
    global: &mut GlobalAllocator,
    source: &H,
    root: ObjectPointer,
) -> (r: Option<ObjectPointer>)
    requires
        source.heap_wf(),
        old(global).wf(),
        old(dest).target_wf(*old(global)),
    ensures
        final(global).wf(),
        final(dest).target_wf(*final(global)),
        taken_from(*old(global), *final(global)),
        source.object_at(root) is None ==> r is None,
        r matches Some(p) ==> copy_made(source, root, *final(dest), p) && final(dest).tagged(p),
        r is None ==> dangling(source, root) || too_large(source, root)
            || !final(global).can_supply(),
{
    proof {
        lemma_taken_from_refl(*global);
    }
    let nodes = match reachable(source, root) {
        Some(nodes) => nodes,
        None => return None,
    };
    let mut copies: Vec<ObjectPointer> = Vec::new();
    let mut i: usize = 0;
    while i < nodes.len()
        invariant
            global.wf(),
            dest.target_wf(*global),
            is_graph(source, root, nodes@),
            i <= nodes@.len(),
            copies@.len() == i,
            taken_from(*old(global), *global),
            forall|j: int| 0 <= j < i ==> dest.owns(#[trigger] copies@[j]),
            forall|j: int| 0 <= j < i ==> dest.tagged(#[trigger] copies@[j]),
        decreases nodes@.len() - i,
    {
        let ghost before = *global;
        let copy = dest.allocate_copy(global, Object::new(ObjectValue::Nil));
        proof {
            lemma_taken_from_trans(*old(global), before, *global);
        }
        match copy {
            Some(p) => {
                let ghost before = copies@;
                copies.push(p);
                assert forall|j: int| 0 <= j < i + 1 implies dest.owns(#[trigger] copies@[j]) by {
                    if j < i {
                        assert(copies@[j] == before[j]);
                    }
                }
                assert forall|j: int| 0 <= j < i + 1 implies dest.tagged(#[trigger] copies@[j]) by {
                    if j < i {
                        assert(copies@[j] == before[j]);
                    }
                }
            },
            None => return None,
        }
        i = i + 1;
    }
    let mut i: usize = nodes.len() - 1;
    while i > 0
        invariant
            global.wf(),
            dest.target_wf(*global),
            source.heap_wf(),
            is_graph(source, root, nodes@),
            i < nodes@.len(),
            copies@.len() == nodes@.len(),
            taken_from(*old(global), *global),
            forall|j: int| 0 <= j < nodes@.len() ==> dest.owns(#[trigger] copies@[j]),
            forall|j: int| 0 <= j < nodes@.len() ==> dest.tagged(#[trigger] copies@[j]),
        decreases i,
    {
        match source.read_object(nodes[i]) {
            Some(o) => {
                let value = copy_value(&o.value, &nodes, &copies);
                if !dest.write_copy(global, copies[i], Object { value, prototype: o.prototype }) {
                    return None;
                }
            },
            None => return None,
        }
        i = i - 1;
    }
    match source.read_object(root) {
        Some(o) => {
            let value = copy_value(&o.value, &nodes, &copies);
            let copy = Object { value, prototype: o.prototype };
            if !dest.write_copy(global, copies[0], copy) {
                return None;
            }
            let result = copies[0];
            assert(is_graph(source, root, nodes@) && copies@.len() == nodes@.len() && copies@[0]
                == result && copied_root(source, root, *dest, result, nodes@, copies@));
            assert(copy_made(source, root, *dest, result));
            Some(result)
        },
        None => None,
    }
}

/// `p` points to the copy in `dest` of the graph `root` points to in
/// `source`: the graph's objects `nodes` were each given a copy in `copies`,
/// and the copy of the root holds its value with each pointer replaced by the
/// pointer to its target's copy.
pub open spec fn copy_made<H: Heap, T: CopyObject>(
    source: &H,
    root: ObjectPointer,
    dest: T,
    p: ObjectPointer,
) -> bool {
    exists|nodes: Seq<ObjectPointer>, copies: Seq<ObjectPointer>|
        {
            &&& is_graph(source, root, nodes)
            &&& copies.len() == nodes.len()
            &&& copies[0] == p
            &&& #[trigger] copied_root(source, root, dest, p, nodes, copies)
        }
}

/// The object `p` points to in `dest` is a copy of the object `root` points
/// to in `source`, with the prototype kept.
pub open spec fn copied_root<H: Heap, T: CopyObject>(
    source: &H,
    root: ObjectPointer,
    dest: T,
    p: ObjectPointer,
    nodes: Seq<ObjectPointer>,
    copies: Seq<ObjectPointer>,
) -> bool {
    match (source.object_at(root), dest.copy_at(p)) {
        (Some(o), Some(c)) => is_copy(o.value, c.value, nodes, copies) && c.prototype
            == o.prototype,
        _ => false,
    }
}

impl Heap for LocalAllocator {
    open spec fn heap_wf(&self) -> bool {
        self.wf()
    }

    open spec fn object_at(&self, p: ObjectPointer) -> Option<Object> {
        self.object_of(p)
    }

    fn read_object(&self, p: ObjectPointer) -> (r: Option<&Object>) {
        self.object(p)
    }
}

impl Heap for MailboxAllocator {
    open spec fn heap_wf(&self) -> bool {
        self.wf()
    }

    open spec fn object_at(&self, p: ObjectPointer) -> Option<Object> {
        self.bucket.object_of(p)
    }

    fn read_object(&self, p: ObjectPointer) -> (r: Option<&Object>) {
        self.object(p)
    }
}

impl CopyObject for LocalAllocator {
    open spec fn target_wf(&self, global: GlobalAllocator) -> bool {
        self.wf() && self.apart_from(global)
    }

    open spec fn copy_at(&self, p: ObjectPointer) -> Option<Object> {
        self.object_of(p)
    }

    open spec fn owns(&self, p: ObjectPointer) -> bool {
        self.young.has_block(block_of(p.raw) as int) || self.mature.has_block(
            block_of(p.raw) as int,
        )
    }

    open spec fn tagged(&self, p: ObjectPointer) -> bool {
        !p.spec_is_mailbox()
    }

    fn allocate_copy(&mut self, global: &mut GlobalAllocator, object: Object) -> (r: Option<
        ObjectPointer,
    >) {
        let ghost before = *self;
        let r = self.allocate_object(global, object);
        proof {
            assert forall|q: ObjectPointer| before.owns(q) implies #[trigger] self.owns(q) by {
                let a = block_of(q.raw) as int;
                if before.young.has_block(a) {
                    let k = before.young.index_of(a);
                    assert(self.young.blocks@[k].lines == a);
                }
            }
        }
        r
    }

    fn write_copy(&mut self, global: &GlobalAllocator, p: ObjectPointer, object: Object) -> (ok:
        bool) {
        let ghost before = *self;
        let ok = self.set_object(p, object);
        proof {
            assert forall|q: ObjectPointer| before.owns(q) implies #[trigger] self.owns(q) by {
                let a = block_of(q.raw) as int;
                if before.young.has_block(a) {
                    let k = before.young.index_of(a);
                    assert(self.young.blocks@[k].lines == a);
                } else {
                    let k = before.mature.index_of(a);
                    assert(self.mature.blocks@[k].lines == a);
                }
            }
        }
        ok
    }
}

impl CopyObject for MailboxAllocator {
    open spec fn target_wf(&self, global: GlobalAllocator) -> bool {
        self.wf() && apart(self.bucket.blocks@, global)
    }

    open spec fn copy_at(&self, p: ObjectPointer) -> Option<Object> {
        self.bucket.object_of(p)
    }

    open spec fn owns(&self, p: ObjectPointer) -> bool {
        self.bucket.has_block(block_of(p.raw) as int)
    }

    open spec fn tagged(&self, p: ObjectPointer) -> bool {
        p.spec_is_mailbox()
    }

    fn allocate_copy(&mut self, global: &mut GlobalAllocator, object: Object) -> (r: Option<
        ObjectPointer,
    >) {
        let ghost before = *self;
        let r = self.allocate(global, object);
        proof {
            assert forall|q: ObjectPointer| before.owns(q) implies #[trigger] self.owns(q) by {
                let a = block_of(q.raw) as int;
                let k = before.bucket.index_of(a);
                assert(self.bucket.blocks@[k].lines == a);
            }
        }
        r
    }

    fn write_copy(&mut self, global: &GlobalAllocator, p: ObjectPointer, object: Object) -> (ok:
        bool) {
        let ghost b0 = self.bucket.blocks@;
        let ok = self.bucket.set_object(p, object);
        proof {
            assert forall|i: int| 0 <= i < self.bucket.blocks@.len() implies #[trigger] self.bucket.blocks@[i].lines
                < global.next_address by {
                assert(self.bucket.blocks@[i].lines == b0[i].lines);
            }
            assert forall|i: int, j: int|
                0 <= i < self.bucket.blocks@.len() && 0 <= j < global.blocks@.len() implies #[trigger] self.bucket.blocks@[i].lines
                != #[trigger] global.blocks@[j].lines by {
                assert(self.bucket.blocks@[i].lines == b0[i].lines);
            }
            assert forall|q: ObjectPointer| old(self).owns(q) implies #[trigger] self.owns(q) by {
                let a = block_of(q.raw) as int;
                let k = old(self).bucket.index_of(a);
                assert(self.bucket.blocks@[k].lines == a);
            }
        }
        ok
    }
}

impl MailboxAllocator {
    /// Copies the object graph `root` points to in `source`, a process's own
    /// heap, into this mailbox heap.
    pub fn copy_object(
        &mut self,
        global: &mut GlobalAllocator,
        source: &LocalAllocator,
        root: ObjectPointer,
    ) -> (r: Option<ObjectPointer>)
        requires
            source.wf(),
            old(global).wf(),
            old(self).wf(),
            apart(old(self).bucket.blocks@, *old(global)),
        ensures
            final(global).wf(),
            taken_from(*old(global), *final(global)),
            final(self).wf(),
            apart(final(self).bucket.blocks@, *final(global)),
            source.object_of(root) is None ==> r is None,
            r matches Some(p) ==> copy_made(source, root, *final(self), p) && p.spec_is_mailbox(),
            r is None ==> dangling(source, root) || too_large(source, root)
                || !final(global).can_supply(),
    {
        copy_object(self, global, source, root)
    }
}

impl LocalAllocator {
    /// Copies the object graph `root` points to in `source`, a mailbox heap,
    /// into this heap.
    pub fn copy_object(
        &mut self,
        global: &mut GlobalAllocator,
        source: &MailboxAllocator,
        root: ObjectPointer,
    ) -> (r: Option<ObjectPointer>)
        requires
            source.wf(),
            old(global).wf(),
            old(self).wf(),
            old(self).apart_from(*old(global)),
        ensures
            final(global).wf(),
            taken_from(*old(global), *final(global)),
            final(self).wf(),
            final(self).apart_from(*final(global)),
            source.bucket.object_of(root) is None ==> r is None,
            r matches Some(p) ==> copy_made(source, root, *final(self), p) && !p.spec_is_mailbox(),
            r is None ==> dangling(source, root) || too_large(source, root)
                || !final(global).can_supply(),
    {
        copy_object(self, global, source, root)
    }
}

} // verus!
