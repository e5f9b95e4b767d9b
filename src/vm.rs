//! The parts of the virtual machine that instructions work on: instructions,
//! processes with their registers and heaps, and the machine itself.
use vstd::prelude::*;

use crate::block::PERMANENT;
use crate::bucket::{Bucket, all_lines_marked, reclaimed};
use crate::global_allocator::{GlobalAllocator, apart, lemma_apart_after_request, taken_from};
use crate::local_allocator::{LocalAllocator, separate};
use crate::mailbox_allocator::MailboxAllocator;
use crate::object::{Object, ObjectPointer, ObjectValue};

verus! {

/// What the interpreter does after an instruction.
#[derive(Debug, Clone, Copy, PartialEq, Eq, Structural)]
pub enum Action {
    /// Go on with the next instruction.
    Proceed,
    /// Suspend the process; the instruction runs again when it resumes.
    Suspend,
}

pub type InstructionResult = Result<Action, String>;

#[derive(Debug, Clone, Copy, PartialEq, Eq, Structural)]
pub enum InstructionType {
    SetArray,
    ArrayInsert,
    ArrayAt,
    ArrayRemove,
    ArrayLength,
    ArrayClear,
    IsError,
    ErrorToInteger,
    SendProcessMessage,
    ReceiveProcessMessage,
    GetCurrentPid,
}

pub struct Instruction {
    pub instruction_type: InstructionType,
    pub arguments: Vec<usize>,
}

/// The argument at `index`, if the instruction has one.
pub open spec fn spec_arg(instruction: &Instruction, index: int) -> Option<usize> {
    if 0 <= index < instruction.arguments@.len() {
        Some(instruction.arguments@[index])
    } else {
        None
    }
}

impl Instruction {
    pub fn new(instruction_type: InstructionType, arguments: Vec<usize>) -> (r: Self)
        ensures
            r.instruction_type == instruction_type,
            r.arguments@ == arguments@,
    {
        Instruction { instruction_type, arguments }
    }

    /// The argument at `index`, or an error when there is none.
    pub fn arg(&self, index: usize) -> (r: Result<usize, String>)
        ensures
            match spec_arg(self, index as int) {
                Some(a) => r == Ok::<usize, String>(a),
                None => r is Err,
            },
    {
        if index < self.arguments.len() {
            Ok(self.arguments[index])
        } else {
            Err("the instruction lacks an argument".to_string())
        }
    }
}

pub struct Process {
    pub pid: usize,
    /// The register file: the object each register holds, if any.
    pub registers: Vec<Option<ObjectPointer>>,
    /// The process's own heap.
    pub local: LocalAllocator,
    /// The heap messages sent to this process are copied into.
    pub mailbox: MailboxAllocator,
    /// Messages not received yet, oldest first; they live in the mailbox heap.
    pub messages: Vec<ObjectPointer>,
}

impl Process {
    /// The heaps are well formed and apart from the pool of `global`.
    pub open spec fn wf_with(&self, global: GlobalAllocator) -> bool {
        &&& self.local.wf()
        &&& self.local.apart_from(global)
        &&& self.mailbox.wf()
        &&& apart(self.mailbox.bucket.blocks@, global)
    }

    /// No block of the mailbox heap starts where a block of the process's own
    /// heap does: each block belongs to one heap.
    pub open spec fn heaps_separate(&self) -> bool {
        &&& separate(self.local.young, self.mailbox.bucket)
        &&& separate(self.local.mature, self.mailbox.bucket)
    }

    /// The object register `index` holds, if any.
    pub open spec fn register(&self, index: int) -> Option<ObjectPointer> {
        if 0 <= index < self.registers@.len() {
            self.registers@[index]
        } else {
            None
        }
    }

    pub fn new(pid: usize) -> (r: Self)
        ensures
            r.pid == pid,
            forall|g: GlobalAllocator| #[trigger] r.wf_with(g),
            r.heaps_separate(),
            forall|i: int| r.register(i) is None,
            r.messages@.len() == 0,
    {
        Process {
            pid,
            registers: Vec::new(),
            local: LocalAllocator::new(),
            mailbox: MailboxAllocator::new(),
            messages: Vec::new(),
        }
    }

    /// The object register `index` holds, or an error when it holds none.
    pub fn get_register(&self, index: usize) -> (r: Result<ObjectPointer, String>)
        ensures
            match self.register(index as int) {
                Some(p) => r == Ok::<ObjectPointer, String>(p),
                None => r is Err,
            },
    {
        if index < self.registers.len() {
            match self.registers[index] {
                Some(p) => Ok(p),
                None => Err("the register is not defined".to_string()),
            }
        } else {
            Err("the register is not defined".to_string())
        }
    }

    /// Stores `pointer` in register `index`.
    pub fn set_register(&mut self, index: usize, pointer: ObjectPointer)
        requires
            index < usize::MAX,
        ensures
            forall|i: int| #[trigger] final(self).register(i) == if i == index {
                Some(pointer)
            } else {
                old(self).register(i)
            },
            final(self).pid == old(self).pid,
            final(self).local == old(self).local,
            final(self).mailbox == old(self).mailbox,
            final(self).messages == old(self).messages,
    {
        while self.registers.len() <= index
            invariant
                index < usize::MAX,
                forall|i: int| #[trigger] self.register(i) == old(self).register(i),
                self.pid == old(self).pid,
                self.local == old(self).local,
                self.mailbox == old(self).mailbox,
                self.messages == old(self).messages,
            decreases index + 1 - self.registers@.len(),
        {
            let ghost before = *self;
            self.registers.push(None);
            assert forall|i: int| #[trigger] self.register(i) == old(self).register(i) by {
                assert(self.register(i) == before.register(i));
            }
        }
        let ghost before = *self;
        self.registers.set(index, Some(pointer));
        assert forall|i: int| #[trigger] self.register(i) == if i == index {
            Some(pointer)
        } else {
            old(self).register(i)
        } by {
            assert(i != index ==> self.register(i) == before.register(i));
        }
    }

    /// The object `pointer` points to in this process's heap, or an error.
    pub fn object(&self, pointer: ObjectPointer) -> (r: Result<&Object, String>)
        requires
            self.local.wf(),
        ensures
            match self.local.object_of(pointer) {
                Some(o) => r matches Ok(x) && *x == o,
                None => r is Err,
            },
    {
        match self.local.object(pointer) {
            Some(o) => Ok(o),
            None => Err("the pointer points to no object".to_string()),
        }
    }

    /// Allocates an object holding `value` with `prototype` in this
    /// process's heap, or returns an error when no block can be had.
    pub fn allocate(
        &mut self,
        global: &mut GlobalAllocator,
        value: ObjectValue,
        prototype: Option<ObjectPointer>,
    ) -> (r: Result<ObjectPointer, String>)
        requires
            old(self).wf_with(*old(global)),
            old(global).wf(),
        ensures
            final(self).wf_with(*final(global)),
            final(global).wf(),
            grown(*old(global), *final(global)),
            final(self).registers == old(self).registers,
            final(self).pid == old(self).pid,
            final(self).messages == old(self).messages,
            r is Err ==> !old(global).can_supply(),
            r matches Ok(p) ==> final(self).local.object_of(p) == Some(
                Object { value: value, prototype: prototype },
            ),
    {
        let ghost g0 = *global;
        let r = self.local.allocate_object(global, Object { value, prototype });
        proof {
            lemma_apart_after_request(self.mailbox.bucket.blocks@, g0, *global);
        }
        match r {
            Some(p) => Ok(p),
            None => Err("no memory is left to allocate objects in".to_string()),
        }
    }

    pub fn allocate_without_prototype(&mut self, global: &mut GlobalAllocator, value: ObjectValue) -> (r:
        Result<ObjectPointer, String>)
        requires
            old(self).wf_with(*old(global)),
            old(global).wf(),
        ensures
            final(self).wf_with(*final(global)),
            final(global).wf(),
            grown(*old(global), *final(global)),
            final(self).registers == old(self).registers,
            r is Err ==> !old(global).can_supply(),
            r matches Ok(p) ==> final(self).local.object_of(p) == Some(
                Object { value: value, prototype: None },
            ),
    {
        self.allocate(global, value, None)
    }

    /// The objects the registers hold: the roots of a collection.
    pub fn roots(&self) -> (r: Vec<ObjectPointer>)
        ensures
            forall|i: int| 0 <= i < self.registers@.len() && self.registers@[i] is Some ==> r@.contains(
                self.registers@[i]->0,
            ),
    {
        let mut roots: Vec<ObjectPointer> = Vec::new();
        let mut i: usize = 0;
        while i < self.registers.len()
            invariant
                i <= self.registers@.len(),
                forall|j: int| 0 <= j < i && self.registers@[j] is Some ==> roots@.contains(
                    self.registers@[j]->0,
                ),
            decreases self.registers@.len() - i,
        {
            if let Some(p) = self.registers[i] {
                let ghost before = roots@;
                roots.push(p);
                proof {
                    assert(roots@[before.len() as int] == p);
                    assert forall|j: int| 0 <= j < i && self.registers@[j] is Some implies roots@.contains(
                        self.registers@[j]->0,
                    ) by {
                        let w = choose|w: int| 0 <= w < before.len() && before[w] == self.registers@[j]->0;
                        assert(roots@[w] == before[w]);
                    }
                }
            }
            i = i + 1;
        }
        roots
    }

    /// Collects the process's own heap, with the registers as roots.
    /// Afterwards every line in use holds a marked object, and every block
    /// without one is back in `global`.
    pub fn collect(&mut self, global: &mut GlobalAllocator)
        requires
            old(self).wf_with(*old(global)),
            old(self).heaps_separate(),
            old(global).wf(),
        ensures
            final(self).wf_with(*final(global)),
            final(global).wf(),
            final(self).registers == old(self).registers,
            final(self).messages == old(self).messages,
            all_lines_marked(final(self).local.young.blocks@),
            all_lines_marked(final(self).local.mature.blocks@),
            forall|i: int|
                0 <= i < final(self).local.young.blocks@.len() ==> reclaimed(
                    #[trigger] final(self).local.young.blocks@[i],
                ),
            forall|i: int|
                0 <= i < final(self).local.mature.blocks@.len() ==> reclaimed(
                    #[trigger] final(self).local.mature.blocks@[i],
                ),
    {
        let roots = self.roots();
        let ghost g0 = *global;
        let ghost y0 = self.local.young.blocks@;
        let ghost m0 = self.local.mature.blocks@;
        self.local.collect(global, &roots);
        proof {
            let b = self.mailbox.bucket.blocks@;
            assert forall|i: int, j: int|
                0 <= i < b.len() && 0 <= j < global.blocks@.len() implies #[trigger] b[i].lines
                != #[trigger] global.blocks@[j].lines by {
                if j < g0.blocks@.len() {
                    assert(global.blocks@[j] == g0.blocks@[j]);
                } else if exists|k: int|
                    0 <= k < y0.len() && #[trigger] global.blocks@[j].lines == y0[k].lines {
                    let k = choose|k: int| 0 <= k < y0.len() && global.blocks@[j].lines == y0[k].lines;
                    assert(y0[k].lines != b[i].lines);
                } else {
                    let k = choose|k: int| 0 <= k < m0.len() && global.blocks@[j].lines == m0[k].lines;
                    assert(m0[k].lines != b[i].lines);
                }
            }
        }
    }

    /// Whether a collection of this process is due: either heap allocated
    /// as many blocks as its threshold allows.
    pub fn should_collect(&self) -> (r: bool)
        ensures
            r == (self.local.young_block_allocations >= self.local.young_block_allocation_threshold
                || self.mailbox.block_allocations >= self.mailbox.block_allocation_threshold),
    {
        self.local.allocation_threshold_exceeded() || self.mailbox.allocation_threshold_exceeded()
    }

    /// Returns every block of both heaps to `global` when the process exits.
    pub fn exit(&mut self, global: &mut GlobalAllocator)
        requires
            old(self).wf_with(*old(global)),
            old(self).heaps_separate(),
            old(global).wf(),
        ensures
            final(self).wf_with(*final(global)),
            final(global).wf(),
            final(self).local.young.blocks@.len() == 0,
            final(self).local.mature.blocks@.len() == 0,
            final(self).mailbox.bucket.blocks@.len() == 0,
            final(global).blocks@.len() == old(global).blocks@.len() + old(
                self,
            ).local.young.blocks@.len() + old(self).local.mature.blocks@.len() + old(
                self,
            ).mailbox.bucket.blocks@.len(),
    {
        let ghost g0 = *global;
        let ghost y0 = self.local.young.blocks@;
        let ghost m0 = self.local.mature.blocks@;
        self.local.release(global);
        proof {
            let b = self.mailbox.bucket.blocks@;
            assert forall|i: int, j: int|
                0 <= i < b.len() && 0 <= j < global.blocks@.len() implies #[trigger] b[i].lines
                != #[trigger] global.blocks@[j].lines by {
                if j < g0.blocks@.len() {
                    assert(global.blocks@[j] == g0.blocks@[j]);
                } else if exists|k: int|
                    0 <= k < y0.len() && #[trigger] global.blocks@[j].lines == y0[k].lines {
                    let k = choose|k: int| 0 <= k < y0.len() && global.blocks@[j].lines == y0[k].lines;
                    assert(y0[k].lines != b[i].lines);
                } else {
                    let k = choose|k: int| 0 <= k < m0.len() && global.blocks@[j].lines == m0[k].lines;
                    assert(m0[k].lines != b[i].lines);
                }
            }
        }
        self.mailbox.release(global);
    }

    pub fn allocate_empty(&mut self, global: &mut GlobalAllocator) -> (r: Result<ObjectPointer, String>)
        requires
            old(self).wf_with(*old(global)),
            old(global).wf(),
        ensures
            final(self).wf_with(*final(global)),
            final(global).wf(),
            grown(*old(global), *final(global)),
            final(self).registers == old(self).registers,
            r is Err ==> !old(global).can_supply(),
            r matches Ok(p) ==> final(self).local.object_of(p) == Some(
                Object { value: ObjectValue::Nil, prototype: None },
            ),
    {
        self.allocate(global, ObjectValue::Nil, None)
    }
}

/// `after` is `before` after blocks were taken from it: no new address in
/// its pool, and a next fresh address no lower.
pub open spec fn grown(before: GlobalAllocator, after: GlobalAllocator) -> bool {
    &&& taken_from(before, after)
    &&& after.next_address <= before.next_address + 32768
}

/// A process whose heaps are apart from a pool stays so when blocks are taken
/// from the pool.
pub proof fn lemma_process_apart(p: Process, before: GlobalAllocator, after: GlobalAllocator)
    requires
        p.wf_with(before),
        taken_from(before, after),
    ensures
        p.wf_with(after),
{
    lemma_apart_after_request(p.local.young.blocks@, before, after);
    lemma_apart_after_request(p.local.mature.blocks@, before, after);
    lemma_apart_after_request(p.mailbox.bucket.blocks@, before, after);
}

/// The objects every process shares.
pub struct State {
    pub integer_prototype: ObjectPointer,
    pub array_prototype: ObjectPointer,
    pub true_object: ObjectPointer,
    pub false_object: ObjectPointer,
}

pub struct Machine {
    pub state: State,
    pub global: GlobalAllocator,
    /// The heap of objects that are never collected, such as prototypes.
    pub permanent: Bucket,
    /// The processes messages can be sent to.
    pub process_table: Vec<Process>,
}

impl Machine {
    pub open spec fn wf(&self) -> bool {
        &&& self.global.wf()
        &&& self.permanent.wf()
        &&& apart(self.permanent.blocks@, self.global)
        &&& forall|k: int|
            0 <= k < self.process_table@.len() ==> (#[trigger] self.process_table@[k]).wf_with(
                self.global,
            )
    }

    /// A machine with a fresh pool and the shared objects allocated in its
    /// permanent heap.
    pub fn new() -> (r: Self)
        ensures
            r.wf(),
            r.process_table@.len() == 0,
    {
        let mut global = GlobalAllocator::without_preallocated_blocks();
        let mut permanent = Bucket::with_age(PERMANENT);
        let integer_prototype = permanent_object(&mut permanent, &mut global);
        let array_prototype = permanent_object(&mut permanent, &mut global);
        let true_object = permanent_object(&mut permanent, &mut global);
        let false_object = permanent_object(&mut permanent, &mut global);
        Machine {
            state: State { integer_prototype, array_prototype, true_object, false_object },
            global,
            permanent,
            process_table: Vec::new(),
        }
    }
}

/// Allocates an empty object in the permanent heap of a young machine.
fn permanent_object(permanent: &mut Bucket, global: &mut GlobalAllocator) -> (r: ObjectPointer)
    requires
        old(permanent).wf(),
        old(global).wf(),
        apart(old(permanent).blocks@, *old(global)),
        old(global).next_address <= 4 * 32768,
    ensures
        final(permanent).wf(),
        final(global).wf(),
        apart(final(permanent).blocks@, *final(global)),
        final(global).next_address <= old(global).next_address + 32768,
{
    match permanent.allocate(global, Object::new(ObjectValue::Nil)) {
        Some((_, p)) => p,
        None => {
            assert(false);
            ObjectPointer { raw: 0 }
        },
    }
}

} // verus!
