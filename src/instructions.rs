//! Instruction handlers for arrays, errors and processes.
use vstd::prelude::*;

use crate::copy_object::{copy_made, dangling, too_large};
use crate::local_allocator::LocalAllocator;
use crate::object::{Object, ObjectPointer, ObjectValue};
use crate::global_allocator::{
    GlobalAllocator,
    lemma_apart_after_request,
    lemma_taken_from_refl,
    taken_from,
};
use crate::vm::{
    Action,
    Instruction,
    InstructionResult,
    Machine,
    Process,
    grown,
    lemma_process_apart,
    spec_arg,
};

verus! {

/// The object that the register named by argument `a` holds.
pub open spec fn arg_register(p: Process, ins: Instruction, a: int) -> Option<ObjectPointer> {
    match spec_arg(&ins, a) {
        Some(r) => p.register(r as int),
        None => None,
    }
}

/// The elements of the array `ptr` points to.
pub open spec fn array_of(p: Process, ptr: ObjectPointer) -> Option<Seq<ObjectPointer>> {
    match p.local.object_of(ptr) {
        Some(o) => match o.value {
            ObjectValue::Array(v) => Some(v@),
            _ => None,
        },
        None => None,
    }
}

/// The integer the object `ptr` points to holds.
pub open spec fn integer_of(p: Process, ptr: ObjectPointer) -> Option<i64> {
    match p.local.object_of(ptr) {
        Some(o) => match o.value {
            ObjectValue::Integer(i) => Some(i),
            _ => None,
        },
        None => None,
    }
}

/// The position an index names in a vector of `len` elements: a negative
/// index counts from the end, so -1 names the last element.
pub open spec fn vector_index(len: int, index: i64) -> int {
    if index >= 0 {
        index as int
    } else {
        len + index
    }
}

/// `new` is `old` with register `reg` holding `value`, and nothing else
/// changed.
pub open spec fn register_set(old: Process, new: Process, reg: int, value: ObjectPointer) -> bool {
    &&& forall|i: int| #[trigger] new.register(i) == if i == reg {
        Some(value)
    } else {
        old.register(i)
    }
    &&& new.pid == old.pid
    &&& new.local == old.local
    &&& new.mailbox == old.mailbox
    &&& new.messages == old.messages
}

/// The target register of an instruction: its first argument, when it can
/// name a register.
pub open spec fn target(ins: Instruction) -> Option<int> {
    match spec_arg(&ins, 0) {
        Some(r) => if r < usize::MAX {
            Some(r as int)
        } else {
            None
        },
        None => None,
    }
}

/// The position `index` names in a vector of `len` elements, when it names
/// one at or before the end.
pub fn int_to_vector_index(len: usize, index: i64) -> (r: Option<usize>)
    ensures
        match r {
            Some(k) => k == vector_index(len as int, index) && k <= len,
            None => !(0 <= vector_index(len as int, index) <= len),
        },
{
    if index >= 0 {
        if index as u64 <= len as u64 {
            Some(index as usize)
        } else {
            None
        }
    } else {
        let back = (-(index as i128)) as u128;
        if back <= len as u128 {
            Some(len - back as usize)
        } else {
            None
        }
    }
}

/// The target register, or an error.
fn target_register(instruction: &Instruction) -> (r: Result<usize, String>)
    ensures
        match target(*instruction) {
            Some(reg) => r == Ok::<usize, String>(reg as usize),
            None => r is Err,
        },
{
    let register = instruction.arg(0)?;
    if register == usize::MAX {
        return Err("the register index is out of range".to_string());
    }
    Ok(register)
}

/// The object the register named by argument `a` holds, or an error.
fn argument_register(process: &Process, instruction: &Instruction, a: usize) -> (r: Result<
    ObjectPointer,
    String,
>)
    ensures
        match arg_register(*process, *instruction, a as int) {
            Some(p) => r == Ok::<ObjectPointer, String>(p),
            None => r is Err,
        },
{
    let index = instruction.arg(a)?;
    process.get_register(index)
}

/// The elements of the array `pointer` points to, copied, and its
/// prototype.
fn array_elements(process: &Process, pointer: ObjectPointer) -> (r: Result<
    (Vec<ObjectPointer>, Option<ObjectPointer>),
    String,
>)
    requires
        process.local.wf(),
    ensures
        match array_of(*process, pointer) {
            Some(v) => r matches Ok((e, proto)) && e@ == v && (process.local.object_of(pointer)
                matches Some(o) && o.prototype == proto),
            None => r is Err,
        },
{
    let object = process.object(pointer)?;
    let values = object.value.as_array()?;
    let mut elements: Vec<ObjectPointer> = Vec::new();
    let mut i: usize = 0;
    while i < values.len()
        invariant
            i <= values@.len(),
            elements@ == values@.subrange(0, i as int),
        decreases values@.len() - i,
    {
        elements.push(values[i]);
        i = i + 1;
        assert(elements@ =~= values@.subrange(0, i as int));
    }
    assert(values@.subrange(0, i as int) =~= values@);
    Ok((elements, object.prototype))
}

/// The integer the object `pointer` points to holds, or an error.
fn integer_value(process: &Process, pointer: ObjectPointer) -> (r: Result<i64, String>)
    requires
        process.local.wf(),
    ensures
        match integer_of(*process, pointer) {
            Some(i) => r == Ok::<i64, String>(i),
            None => r is Err,
        },
{
    let object = process.object(pointer)?;
    object.value.as_integer()
}

/// What `array_at` stores, and where: the element the index names.
pub open spec fn array_at_outcome(p: Process, ins: Instruction) -> Option<(int, ObjectPointer)> {
    match (target(ins), arg_register(p, ins, 1), arg_register(p, ins, 2)) {
        (Some(reg), Some(a), Some(x)) => match (array_of(p, a), integer_of(p, x)) {
            (Some(v), Some(i)) => {
                let k = vector_index(v.len() as int, i);
                if 0 <= k < v.len() {
                    Some((reg, v[k]))
                } else {
                    None
                }
            },
            _ => None,
        },
        _ => None,
    }
}

/// Gets the value of an array index.
///
/// Arguments: the register to store the value in, the register holding the
/// array, and the register holding the index. A negative index counts from
/// the end; an index out of bounds is an error.
pub fn array_at(_machine: &Machine, process: &mut Process, instruction: &Instruction) -> (r:
    InstructionResult)
    requires
        old(process).local.wf(),
    ensures
        match array_at_outcome(*old(process), *instruction) {
            Some((reg, value)) => r == Ok::<Action, String>(Action::Proceed) && register_set(
                *old(process),
                *final(process),
                reg,
                value,
            ),
            None => r is Err && *final(process) == *old(process),
        },
{
    let register = target_register(instruction)?;
    let array_ptr = argument_register(process, instruction, 1)?;
    let index_ptr = argument_register(process, instruction, 2)?;
    let (vector, _) = array_elements(process, array_ptr)?;
    let index = integer_value(process, index_ptr)?;
    let position = match int_to_vector_index(vector.len(), index) {
        Some(k) => k,
        None => return Err("the array index is out of bounds".to_string()),
    };
    if position >= vector.len() {
        return Err("the array index is out of bounds".to_string());
    }
    let value = vector[position];
    process.set_register(register, value);
    Ok(Action::Proceed)
}

/// `new` is `old` with the array `a` points to holding `elements`, its
/// prototype kept, and the registers, mailbox and messages unchanged.
pub open spec fn array_stored(old: Process, new: Process, a: ObjectPointer, elements: Seq<ObjectPointer>) -> bool {
    &&& new.local.object_of(a) matches Some(o) && (o.value matches ObjectValue::Array(w) && w@
        == elements) && (old.local.object_of(a) matches Some(o0) && o.prototype == o0.prototype)
    &&& new.pid == old.pid
    &&& new.mailbox == old.mailbox
    &&& new.messages == old.messages
    &&& forall|g: GlobalAllocator| old.wf_with(g) ==> #[trigger] new.wf_with(g)
}

/// `new` is `old` after an allocation that left the pool `global`, with the
/// machine otherwise unchanged and still well formed.
pub open spec fn machine_allocated(old: Machine, new: Machine) -> bool {
    &&& new.wf()
    &&& new.state == old.state
    &&& new.permanent == old.permanent
    &&& new.process_table == old.process_table
    &&& grown(old.global, new.global)
}

/// The processes of a machine, and its permanent heap, stay apart from the
/// pool when blocks are taken from it.
pub proof fn lemma_machine_grown(m: Machine, global: GlobalAllocator)
    requires
        m.wf(),
        global.wf(),
        taken_from(m.global, global),
    ensures
        (Machine { global: global, ..m }).wf(),
{
    lemma_apart_after_request(m.permanent.blocks@, m.global, global);
    assert forall|k: int| 0 <= k < m.process_table@.len() implies (#[trigger] m.process_table@[k]).wf_with(
        global,
    ) by {
        lemma_process_apart(m.process_table@[k], m.global, global);
    }
}

/// Allocates an object in the heap of `process`, keeping `machine` well
/// formed.
fn allocate_in(
    machine: &mut Machine,
    process: &mut Process,
    value: ObjectValue,
    prototype: Option<ObjectPointer>,
) -> (r: Result<ObjectPointer, String>)
    requires
        old(machine).wf(),
        old(process).wf_with(old(machine).global),
    ensures
        machine_allocated(*old(machine), *final(machine)),
        final(process).wf_with(final(machine).global),
        final(process).registers == old(process).registers,
        final(process).pid == old(process).pid,
        final(process).messages == old(process).messages,
        r is Err ==> !old(machine).global.can_supply(),
        r matches Ok(p) ==> final(process).local.object_of(p) == Some(
            Object { value: value, prototype: prototype },
        ),
{
    let ghost m0 = *machine;
    let r = process.allocate(&mut machine.global, value, prototype);
    proof {
        lemma_machine_grown(m0, machine.global);
        assert(*machine == (Machine { global: machine.global, ..m0 }));
    }
    r
}

/// Stores `elements` in the array `pointer` points to, keeping its prototype.
fn store_array(
    process: &mut Process,
    pointer: ObjectPointer,
    elements: Vec<ObjectPointer>,
    prototype: Option<ObjectPointer>,
)
    requires
        old(process).local.wf(),
        old(process).local.object_of(pointer) matches Some(o) && o.prototype == prototype,
    ensures
        array_stored(*old(process), *final(process), pointer, elements@),
        final(process).registers == old(process).registers,
        final(process).local.wf(),
{
    process.local.set_object(pointer, Object { value: ObjectValue::Array(elements), prototype });
}

/// What `array_insert` does: the register it stores the value in, the array,
/// the value, and the elements the array ends up with. An index before the
/// end replaces the element there; the index just past the end appends.
pub open spec fn array_insert_outcome(p: Process, ins: Instruction) -> Option<
    (int, ObjectPointer, ObjectPointer, Seq<ObjectPointer>),
> {
    match (target(ins), arg_register(p, ins, 1), arg_register(p, ins, 2), arg_register(p, ins, 3)) {
        (Some(reg), Some(a), Some(x), Some(value)) => match (array_of(p, a), integer_of(p, x)) {
            (Some(v), Some(i)) => {
                let k = vector_index(v.len() as int, i);
                if 0 <= k < v.len() {
                    Some((reg, a, value, v.update(k, value)))
                } else if k == v.len() {
                    Some((reg, a, value, v.push(value)))
                } else {
                    None
                }
            },
            _ => None,
        },
        _ => None,
    }
}

/// Inserts a value in an array.
///
/// Arguments: the register to store the inserted value in, the register
/// holding the array, the register holding the index, and the register
/// holding the value. A negative index counts from the end. An index before
/// the end replaces the element there; the index just past the end appends;
/// an index beyond that is an error.
pub fn array_insert(_machine: &Machine, process: &mut Process, instruction: &Instruction) -> (r:
    InstructionResult)
    requires
        old(process).local.wf(),
    ensures
        final(process).local.wf(),
        match array_insert_outcome(*old(process), *instruction) {
            Some((reg, a, value, elements)) => {
                &&& r == Ok::<Action, String>(Action::Proceed)
                &&& array_stored(*old(process), *final(process), a, elements)
                &&& forall|i: int| #[trigger] final(process).register(i) == if i == reg {
                    Some(value)
                } else {
                    old(process).register(i)
                }
            },
            None => r is Err && *final(process) == *old(process),
        },
{
    let register = target_register(instruction)?;
    let array_ptr = argument_register(process, instruction, 1)?;
    let index_ptr = argument_register(process, instruction, 2)?;
    let value_ptr = argument_register(process, instruction, 3)?;
    let (mut vector, prototype) = array_elements(process, array_ptr)?;
    let index = integer_value(process, index_ptr)?;
    let position = match int_to_vector_index(vector.len(), index) {
        Some(k) => k,
        None => return Err("the array index is out of bounds".to_string()),
    };
    if position < vector.len() {
        vector.set(position, value_ptr);
    } else {
        vector.push(value_ptr);
    }
    store_array(process, array_ptr, vector, prototype);
    let ghost stored = *process;
    process.set_register(register, value_ptr);
    proof {
        assert forall|g: GlobalAllocator| old(process).wf_with(g) implies #[trigger] process.wf_with(
            g,
        ) by {
            assert(stored.wf_with(g));
        }
    }
    Ok(Action::Proceed)
}

/// What `array_remove` does: the register it stores the removed element in,
/// the array, the element, and the elements left.
pub open spec fn array_remove_outcome(p: Process, ins: Instruction) -> Option<
    (int, ObjectPointer, ObjectPointer, Seq<ObjectPointer>),
> {
    match (target(ins), arg_register(p, ins, 1), arg_register(p, ins, 2)) {
        (Some(reg), Some(a), Some(x)) => match (array_of(p, a), integer_of(p, x)) {
            (Some(v), Some(i)) => {
                let k = vector_index(v.len() as int, i);
                if 0 <= k < v.len() {
                    Some((reg, a, v[k], v.remove(k)))
                } else {
                    None
                }
            },
            _ => None,
        },
        _ => None,
    }
}

/// Removes a value from an array.
///
/// Arguments: the register to store the removed value in, the register
/// holding the array, and the register holding the index. A negative index
/// counts from the end; an index out of bounds is an error.
pub fn array_remove(_machine: &Machine, process: &mut Process, instruction: &Instruction) -> (r:
    InstructionResult)
    requires
        old(process).local.wf(),
    ensures
        final(process).local.wf(),
        match array_remove_outcome(*old(process), *instruction) {
            Some((reg, a, value, elements)) => {
                &&& r == Ok::<Action, String>(Action::Proceed)
                &&& array_stored(*old(process), *final(process), a, elements)
                &&& forall|i: int| #[trigger] final(process).register(i) == if i == reg {
                    Some(value)
                } else {
                    old(process).register(i)
                }
            },
            None => r is Err && *final(process) == *old(process),
        },
{
    let register = target_register(instruction)?;
    let array_ptr = argument_register(process, instruction, 1)?;
    let index_ptr = argument_register(process, instruction, 2)?;
    let (mut vector, prototype) = array_elements(process, array_ptr)?;
    let index = integer_value(process, index_ptr)?;
    let position = match int_to_vector_index(vector.len(), index) {
        Some(k) => k,
        None => return Err("the array index is out of bounds".to_string()),
    };
    if position >= vector.len() {
        return Err("the array index is out of bounds".to_string());
    }
    let value = vector.remove(position);
    store_array(process, array_ptr, vector, prototype);
    let ghost stored = *process;
    process.set_register(register, value);
    proof {
        assert forall|g: GlobalAllocator| old(process).wf_with(g) implies #[trigger] process.wf_with(
            g,
        ) by {
            assert(stored.wf_with(g));
        }
    }
    Ok(Action::Proceed)
}

/// The array `array_clear` empties.
pub open spec fn array_clear_outcome(p: Process, ins: Instruction) -> Option<ObjectPointer> {
    match arg_register(p, ins, 0) {
        Some(a) => match array_of(p, a) {
            Some(_) => Some(a),
            None => None,
        },
        None => None,
    }
}

/// Removes all elements from an array.
///
/// Argument: the register holding the array.
pub fn array_clear(_machine: &Machine, process: &mut Process, instruction: &Instruction) -> (r:
    InstructionResult)
    requires
        old(process).local.wf(),
    ensures
        final(process).local.wf(),
        match array_clear_outcome(*old(process), *instruction) {
            Some(a) => {
                &&& r == Ok::<Action, String>(Action::Proceed)
                &&& array_stored(*old(process), *final(process), a, Seq::empty())
                &&& final(process).registers == old(process).registers
            },
            None => r is Err && *final(process) == *old(process),
        },
{
    let array_ptr = argument_register(process, instruction, 0)?;
    let (mut vector, prototype) = array_elements(process, array_ptr)?;
    vector.clear();
    store_array(process, array_ptr, vector, prototype);
    Ok(Action::Proceed)
}

/// The register `array_length` stores into, and the length it stores.
pub open spec fn array_length_outcome(p: Process, ins: Instruction) -> Option<(int, int)> {
    match (target(ins), arg_register(p, ins, 1)) {
        (Some(reg), Some(a)) => match array_of(p, a) {
            Some(v) => Some((reg, v.len() as int)),
            None => None,
        },
        _ => None,
    }
}

/// Register `reg` of `new` points to a new object holding `value` with the
/// prototype `prototype`, and no other register changed.
pub open spec fn allocated_into(old: Process, new: Process, reg: int, value: ObjectValue, prototype: ObjectPointer) -> bool {
    &&& new.register(reg) matches Some(p) && new.local.object_of(p) == Some(
        Object { value: value, prototype: Some(prototype) },
    )
    &&& forall|i: int| i != reg ==> #[trigger] new.register(i) == old.register(i)
    &&& new.pid == old.pid
    &&& new.messages == old.messages
}

/// Gets the number of elements in an array.
///
/// Arguments: the register to store the length in, as an integer, and the
/// register holding the array.
pub fn array_length(machine: &mut Machine, process: &mut Process, instruction: &Instruction) -> (r:
    InstructionResult)
    requires
        old(machine).wf(),
        old(process).wf_with(old(machine).global),
    ensures
        final(process).wf_with(final(machine).global),
        machine_allocated(*old(machine), *final(machine)),
        match array_length_outcome(*old(process), *instruction) {
            Some((reg, len)) => (r == Ok::<Action, String>(Action::Proceed) && allocated_into(
                *old(process),
                *final(process),
                reg,
                ObjectValue::Integer(len as i64),
                old(machine).state.integer_prototype,
            )) || (r is Err && !old(machine).global.can_supply()),
            None => r is Err && *final(process) == *old(process),
        },
{
    proof {
        lemma_taken_from_refl(machine.global);
    }
    let register = target_register(instruction)?;
    let array_ptr = argument_register(process, instruction, 1)?;
    let (vector, _) = array_elements(process, array_ptr)?;
    let length = vector.len() as i64;
    let prototype = machine.state.integer_prototype;
    let object = allocate_in(machine, process, ObjectValue::Integer(length), Some(prototype))?;
    process.set_register(register, object);
    Ok(Action::Proceed)
}

/// The pointers that the registers named by arguments `1..n` hold, when all
/// of them hold one.
pub open spec fn argument_values(p: Process, ins: Instruction, n: int) -> Option<Seq<ObjectPointer>>
    decreases n,
{
    if n <= 1 {
        Some(Seq::empty())
    } else {
        match (argument_values(p, ins, n - 1), arg_register(p, ins, n - 1)) {
            (Some(s), Some(v)) => Some(s.push(v)),
            _ => None,
        }
    }
}

/// Once an argument names an empty register, no longer run of arguments
/// yields values.
pub proof fn lemma_argument_values_none(p: Process, ins: Instruction, n: int, m: int)
    requires
        1 <= n <= m,
        argument_values(p, ins, n) is None,
    ensures
        argument_values(p, ins, m) is None,
    decreases m - n,
{
    if m > n {
        lemma_argument_values_none(p, ins, n, m - 1);
    }
}

/// The register `set_array` stores into, and the elements of the array.
pub open spec fn set_array_outcome(p: Process, ins: Instruction) -> Option<(int, Seq<ObjectPointer>)> {
    match target(ins) {
        Some(reg) => match argument_values(p, ins, ins.arguments@.len() as int) {
            Some(values) => Some((reg, values)),
            None => None,
        },
        None => None,
    }
}

/// Register `reg` of `new` points to a new array of `values` with the
/// prototype `prototype`, and no other register changed.
pub open spec fn array_made(
    old: Process,
    new: Process,
    reg: int,
    values: Seq<ObjectPointer>,
    prototype: ObjectPointer,
) -> bool {
    &&& new.register(reg) matches Some(p) && (new.local.object_of(p) matches Some(o) && (o.value
        matches ObjectValue::Array(w) && w@ == values) && o.prototype == Some(prototype))
    &&& forall|i: int| i != reg ==> #[trigger] new.register(i) == old.register(i)
    &&& new.pid == old.pid
    &&& new.messages == old.messages
}

/// Makes an array of the objects the registers named by the arguments after
/// the first hold.
///
/// Arguments: the register to store the array in, then any number of
/// registers whose objects become the array's elements.
pub fn set_array(machine: &mut Machine, process: &mut Process, instruction: &Instruction) -> (r:
    InstructionResult)
    requires
        old(machine).wf(),
        old(process).wf_with(old(machine).global),
    ensures
        final(process).wf_with(final(machine).global),
        machine_allocated(*old(machine), *final(machine)),
        match set_array_outcome(*old(process), *instruction) {
            Some((reg, values)) => (r == Ok::<Action, String>(Action::Proceed) && array_made(
                *old(process),
                *final(process),
                reg,
                values,
                old(machine).state.array_prototype,
            )) || (r is Err && !old(machine).global.can_supply()),
            None => r is Err && *final(process) == *old(process),
        },
{
    proof {
        lemma_taken_from_refl(machine.global);
    }
    let register = target_register(instruction)?;
    let count = instruction.arguments.len();
    let mut values: Vec<ObjectPointer> = Vec::new();
    let mut a: usize = 1;
    while a < count
        invariant
            1 <= a,
            count == instruction.arguments@.len(),
            a <= count || count == 0,
            argument_values(*process, *instruction, a as int) == Some(values@),
            *process == *old(process),
            *machine == *old(machine),
            machine.wf(),
            process.wf_with(machine.global),
            taken_from(machine.global, machine.global),
        decreases count - a,
    {
        let value = match argument_register(process, instruction, a) {
            Ok(v) => v,
            Err(e) => {
                proof {
                    lemma_argument_values_none(*process, *instruction, a + 1, count as int);
                }
                return Err(e);
            },
        };
        values.push(value);
        a = a + 1;
    }
    proof {
        if count == 0 {
            assert(target(*instruction) is None);
        }
    }
    let prototype = machine.state.array_prototype;
    let object = allocate_in(machine, process, ObjectValue::Array(values), Some(prototype))?;
    process.set_register(register, object);
    Ok(Action::Proceed)
}

/// The register `is_error` stores into, and whether the object is an error.
pub open spec fn is_error_outcome(p: Process, ins: Instruction) -> Option<(int, bool)> {
    match (target(ins), arg_register(p, ins, 1)) {
        (Some(reg), Some(x)) => match p.local.object_of(x) {
            Some(o) => Some((reg, o.value is Error)),
            None => None,
        },
        _ => None,
    }
}

/// Checks whether an object is an error object.
///
/// Arguments: the register to store the boolean result in, and the register
/// holding the object.
pub fn is_error(machine: &Machine, process: &mut Process, instruction: &Instruction) -> (r:
    InstructionResult)
    requires
        old(process).local.wf(),
    ensures
        match is_error_outcome(*old(process), *instruction) {
            Some((reg, error)) => r == Ok::<Action, String>(Action::Proceed) && register_set(
                *old(process),
                *final(process),
                reg,
                if error {
                    machine.state.true_object
                } else {
                    machine.state.false_object
                },
            ),
            None => r is Err && *final(process) == *old(process),
        },
{
    let register = target_register(instruction)?;
    let pointer = argument_register(process, instruction, 1)?;
    let object = process.object(pointer)?;
    let result = if object.value.is_error() {
        machine.state.true_object
    } else {
        machine.state.false_object
    };
    process.set_register(register, result);
    Ok(Action::Proceed)
}

/// The register `error_to_integer` stores into, and the error's code.
pub open spec fn error_to_integer_outcome(p: Process, ins: Instruction) -> Option<(int, u16)> {
    match (target(ins), arg_register(p, ins, 1)) {
        (Some(reg), Some(x)) => match p.local.object_of(x) {
            Some(o) => match o.value {
                ObjectValue::Error(code) => Some((reg, code)),
                _ => None,
            },
            None => None,
        },
        _ => None,
    }
}

/// Converts an error object to an integer.
///
/// Arguments: the register to store the integer in, and the register holding
/// the error.
pub fn error_to_integer(machine: &mut Machine, process: &mut Process, instruction: &Instruction) -> (r:
    InstructionResult)
    requires
        old(machine).wf(),
        old(process).wf_with(old(machine).global),
    ensures
        final(process).wf_with(final(machine).global),
        machine_allocated(*old(machine), *final(machine)),
        match error_to_integer_outcome(*old(process), *instruction) {
            Some((reg, code)) => (r == Ok::<Action, String>(Action::Proceed) && allocated_into(
                *old(process),
                *final(process),
                reg,
                ObjectValue::Integer(code as i64),
                old(machine).state.integer_prototype,
            )) || (r is Err && !old(machine).global.can_supply()),
            None => r is Err && *final(process) == *old(process),
        },
{
    proof {
        lemma_taken_from_refl(machine.global);
    }
    let register = target_register(instruction)?;
    let pointer = argument_register(process, instruction, 1)?;
    let object = process.object(pointer)?;
    let code = object.value.as_error()?;
    let prototype = machine.state.integer_prototype;
    let integer = allocate_in(machine, process, ObjectValue::Integer(code as i64), Some(prototype))?;
    process.set_register(register, integer);
    Ok(Action::Proceed)
}

/// Gets the PID of the running process.
///
/// Argument: the register to store the PID in, as an integer.
pub fn get_current_pid(machine: &mut Machine, process: &mut Process, instruction: &Instruction) -> (r:
    InstructionResult)
    requires
        old(machine).wf(),
        old(process).wf_with(old(machine).global),
    ensures
        final(process).wf_with(final(machine).global),
        machine_allocated(*old(machine), *final(machine)),
        match target(*instruction) {
            Some(reg) => (r == Ok::<Action, String>(Action::Proceed) && allocated_into(
                *old(process),
                *final(process),
                reg,
                ObjectValue::Integer(old(process).pid as i64),
                old(machine).state.integer_prototype,
            )) || (r is Err && !old(machine).global.can_supply()),
            None => r is Err && *final(process) == *old(process),
        },
{
    proof {
        lemma_taken_from_refl(machine.global);
    }
    let register = target_register(instruction)?;
    let pid = process.pid as i64;
    let prototype = machine.state.integer_prototype;
    let object = allocate_in(machine, process, ObjectValue::Integer(pid), Some(prototype))?;
    process.set_register(register, object);
    Ok(Action::Proceed)
}

/// The index of the first process of `table` at or after `i` whose PID is
/// `pid`, or -1.
pub open spec fn process_index(table: Seq<Process>, pid: usize, i: int) -> int
    decreases table.len() - i,
{
    if i >= table.len() || i < 0 {
        -1
    } else if table[i].pid == pid {
        i
    } else {
        process_index(table, pid, i + 1)
    }
}

/// The index of the first process in `table` whose PID is `pid`.
pub fn find_process(table: &Vec<Process>, pid: usize) -> (r: Option<usize>)
    ensures
        match r {
            Some(k) => k == process_index(table@, pid, 0) && k < table@.len(),
            None => process_index(table@, pid, 0) == -1,
        },
{
    let mut i: usize = 0;
    while i < table.len()
        invariant
            i <= table@.len(),
            process_index(table@, pid, 0) == process_index(table@, pid, i as int),
        decreases table@.len() - i,
    {
        if table[i].pid == pid {
            return Some(i);
        }
        i = i + 1;
    }
    None
}

/// What `send_process_message` works with: the register it stores the
/// message in, the message, and the PID of the receiver.
pub open spec fn send_outcome(p: Process, ins: Instruction) -> Option<(int, ObjectPointer, usize)> {
    match (target(ins), arg_register(p, ins, 1), arg_register(p, ins, 2)) {
        (Some(reg), Some(pid_ptr), Some(msg)) => match integer_of(p, pid_ptr) {
            Some(i) => Some((reg, msg, i as usize)),
            None => None,
        },
        _ => None,
    }
}

/// The target register, the message, and the receiver's PID, or an error.
fn send_arguments(process: &Process, instruction: &Instruction) -> (r: Result<
    (usize, ObjectPointer, usize),
    String,
>)
    requires
        process.local.wf(),
    ensures
        match send_outcome(*process, *instruction) {
            Some((reg, msg, pid)) => r == Ok::<(usize, ObjectPointer, usize), String>(
                (reg as usize, msg, pid),
            ),
            None => r is Err,
        },
{
    let register = target_register(instruction)?;
    let pid_ptr = argument_register(process, instruction, 1)?;
    let msg_ptr = argument_register(process, instruction, 2)?;
    let pid = integer_value(process, pid_ptr)? as usize;
    Ok((register, msg_ptr, pid))
}

/// `new` is `old` with a copy of the message `msg` of `source` queued for
/// the first process whose PID is `pid`; with no such process, the table is
/// unchanged.
pub open spec fn delivered(
    old: Machine,
    new: Machine,
    pid: usize,
    source: LocalAllocator,
    msg: ObjectPointer,
) -> bool {
    let k = process_index(old.process_table@, pid, 0);
    &&& new.wf()
    &&& new.state == old.state
    &&& new.permanent == old.permanent
    &&& new.process_table@.len() == old.process_table@.len()
    &&& forall|i: int|
        0 <= i < old.process_table@.len() && i != k ==> #[trigger] new.process_table@[i]
            == old.process_table@[i]
    &&& k >= 0 ==> {
        let before = old.process_table@[k];
        let after = new.process_table@[k];
        &&& after.pid == before.pid
        &&& after.registers == before.registers
        &&& after.local == before.local
        &&& exists|c: ObjectPointer|
            after.messages@ == before.messages@.push(c) && #[trigger] copy_made(
                &source,
                msg,
                after.mailbox,
                c,
            )
    }
    &&& k < 0 ==> new.global == old.global
}

/// Sends a message to a process.
///
/// Arguments: the register to store the message in, the register holding the
/// receiver's PID, and the register holding the message. The message is
/// copied into the receiver's mailbox heap and queued for it; when no
/// process has the PID, nothing is sent.
pub fn send_process_message(machine: &mut Machine, process: &mut Process, instruction: &Instruction) -> (r:
    InstructionResult)
    requires
        old(machine).wf(),
        old(process).wf_with(old(machine).global),
    ensures
        final(machine).wf(),
        final(process).wf_with(final(machine).global),
        match send_outcome(*old(process), *instruction) {
            Some((reg, msg, pid)) => (r == Ok::<Action, String>(Action::Proceed) && register_set(
                *old(process),
                *final(process),
                reg,
                msg,
            ) && delivered(*old(machine), *final(machine), pid, old(process).local, msg)) || (r
                is Err && process_index(old(machine).process_table@, pid, 0) >= 0 && (dangling(
                &old(process).local,
                msg,
            ) || too_large(&old(process).local, msg) || !final(machine).global.can_supply())),
            None => r is Err && *final(process) == *old(process) && *final(machine) == *old(
                machine,
            ),
        },
{
    let (register, msg_ptr, pid) = send_arguments(process, instruction)?;
    let ghost m0 = *machine;
    if let Some(k) = find_process(&machine.process_table, pid) {
        let mut receiver = machine.process_table.remove(k);
        assert(receiver == m0.process_table@[k as int]);
        let ghost g0 = machine.global;
        let copy = receiver.mailbox.copy_object(&mut machine.global, &process.local, msg_ptr);
        proof {
            lemma_apart_after_request(receiver.local.young.blocks@, g0, machine.global);
            lemma_apart_after_request(receiver.local.mature.blocks@, g0, machine.global);
            lemma_apart_after_request(machine.permanent.blocks@, g0, machine.global);
            lemma_process_apart(*process, g0, machine.global);
            assert forall|i: int| 0 <= i < m0.process_table@.len() && i != k implies (
            #[trigger] m0.process_table@[i]).wf_with(machine.global) by {
                lemma_process_apart(m0.process_table@[i], g0, machine.global);
            }
        }
        match copy {
            Some(c) => {
                let ghost before = receiver;
                receiver.messages.push(c);
                machine.process_table.insert(k, receiver);
                proof {
                    assert(machine.process_table@ =~= m0.process_table@.update(k as int, receiver));
                    assert(receiver.messages@ == before.messages@.push(c));
                    assert(copy_made(&process.local, msg_ptr, receiver.mailbox, c));
                }
            },
            None => {
                machine.process_table.insert(k, receiver);
                proof {
                    assert(machine.process_table@ =~= m0.process_table@.update(k as int, receiver));
                }
                return Err("the message could not be copied".to_string());
            },
        }
    }
    process.set_register(register, msg_ptr);
    Ok(Action::Proceed)
}

/// Receives a message for the running process.
///
/// Argument: the register to store the message in. The oldest message is
/// copied from the mailbox heap into the process's own heap. Without a
/// message the process suspends, and the instruction runs again when it
/// resumes.
pub fn receive_process_message(machine: &mut Machine, process: &mut Process, instruction: &Instruction) -> (r:
    InstructionResult)
    requires
        old(machine).wf(),
        old(process).wf_with(old(machine).global),
    ensures
        final(machine).wf(),
        final(process).wf_with(final(machine).global),
        final(machine).state == old(machine).state,
        final(machine).process_table == old(machine).process_table,
        match target(*instruction) {
            Some(reg) => if old(process).messages@.len() == 0 {
                r == Ok::<Action, String>(Action::Suspend) && *final(process) == *old(process)
                    && *final(machine) == *old(machine)
            } else {
                (r == Ok::<Action, String>(Action::Proceed) && received(
                    *old(process),
                    *final(process),
                    reg,
                )) || (r is Err && (dangling(&old(process).mailbox, old(process).messages@[0])
                    || too_large(&old(process).mailbox, old(process).messages@[0])
                    || !final(machine).global.can_supply()))
            },
            None => r is Err && *final(process) == *old(process) && *final(machine) == *old(
                machine,
            ),
        },
{
    let register = target_register(instruction)?;
    if process.messages.len() == 0 {
        return Ok(Action::Suspend);
    }
    let ghost p0 = *process;
    let ghost m0 = *machine;
    let message = process.messages.remove(0);
    let copy = process.local.copy_object(&mut machine.global, &process.mailbox, message);
    proof {
        lemma_apart_after_request(process.mailbox.bucket.blocks@, m0.global, machine.global);
        assert(Machine { global: machine.global, ..m0 } == *machine);
        lemma_machine_grown(m0, machine.global);
    }
    match copy {
        Some(c) => {
            let ghost copied = *process;
            process.set_register(register, c);
            proof {
                assert(process.messages@ =~= p0.messages@.drop_first());
                assert(copy_made(&p0.mailbox, p0.messages@[0], copied.local, c));
            }
            Ok(Action::Proceed)
        },
        None => Err("the message could not be copied".to_string()),
    }
}

/// `new` is `old` after receiving its oldest message: the message left the
/// queue, and register `reg` points to its copy in the process's own heap.
pub open spec fn received(old: Process, new: Process, reg: int) -> bool {
    &&& new.messages@ == old.messages@.drop_first()
    &&& new.pid == old.pid
    &&& new.mailbox == old.mailbox
    &&& new.register(reg) matches Some(c) && copy_made(&old.mailbox, old.messages@[0], new.local, c)
    &&& forall|i: int| i != reg ==> #[trigger] new.register(i) == old.register(i)
}

/// The pool a process is scheduled on when the instruction names none.
pub const PRIMARY_POOL: usize = 0;

/// The code a new process runs.
pub enum SpawnCode {
    /// The code object at this index of the running code.
    Literal(usize),
    /// The code object this pointer points to.
    Object(ObjectPointer),
}

/// What the scheduler is asked to do: run `code` in a new process on pool
/// `pool`, and store the new PID in register `register`.
pub struct SpawnRequest {
    pub register: usize,
    pub code: SpawnCode,
    pub pool: usize,
}

/// The pool named by argument 2, or the primary pool.
pub open spec fn literal_pool(ins: Instruction) -> usize {
    match spec_arg(&ins, 2) {
        Some(p) => p,
        None => PRIMARY_POOL,
    }
}

/// Decodes an instruction that runs a literal code object in a new process.
///
/// Arguments: the register to store the PID in, the index of the code
/// object, and optionally the pool to schedule the process on.
pub fn spawn_literal_process(instruction: &Instruction) -> (r: Result<SpawnRequest, String>)
    ensures
        match (spec_arg(instruction, 0), spec_arg(instruction, 1)) {
            (Some(reg), Some(code)) => r matches Ok(req) && req.register == reg && req.code
                == SpawnCode::Literal(code) && req.pool == literal_pool(*instruction),
            _ => r is Err,
        },
{
    let register = instruction.arg(0)?;
    let code_index = instruction.arg(1)?;
    let pool = match instruction.arg(2) {
        Ok(pool) => pool,
        Err(_) => PRIMARY_POOL,
    };
    Ok(SpawnRequest { register, code: SpawnCode::Literal(code_index), pool })
}

/// The pool `spawn_process` names: the integer the register named by
/// argument 2 holds, or the primary pool without that argument; `None` when
/// that register holds no integer.
pub open spec fn spawn_pool(p: Process, ins: Instruction) -> Option<usize> {
    match spec_arg(&ins, 2) {
        Some(_) => match arg_register(p, ins, 2) {
            Some(ptr) => match integer_of(p, ptr) {
                Some(i) => Some(i as usize),
                None => None,
            },
            None => None,
        },
        None => Some(PRIMARY_POOL),
    }
}

/// Decodes an instruction that runs a code object made at run time in a new
/// process.
///
/// Arguments: the register to store the PID in, the register holding the
/// code object, and optionally the register holding the pool's number.
pub fn spawn_process(process: &Process, instruction: &Instruction) -> (r: Result<
    SpawnRequest,
    String,
>)
    requires
        process.local.wf(),
    ensures
        match (spec_arg(instruction, 0), arg_register(*process, *instruction, 1), spawn_pool(
            *process,
            *instruction,
        )) {
            (Some(reg), Some(code), Some(pool)) => r matches Ok(req) && req.register == reg
                && req.code == SpawnCode::Object(code) && req.pool == pool,
            _ => r is Err,
        },
{
    let register = instruction.arg(0)?;
    let code = argument_register(process, instruction, 1)?;
    let pool = if instruction.arguments.len() > 2 {
        let pointer = argument_register(process, instruction, 2)?;
        integer_value(process, pointer)? as usize
    } else {
        PRIMARY_POOL
    };
    Ok(SpawnRequest { register, code: SpawnCode::Object(code), pool })
}

} // verus!
