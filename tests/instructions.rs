use inko::instructions::{
    array_at,
    array_clear,
    array_insert,
    array_length,
    array_remove,
    error_to_integer,
    get_current_pid,
    is_error,
    receive_process_message,
    send_process_message,
    set_array,
    spawn_literal_process,
    spawn_process,
    SpawnCode,
    PRIMARY_POOL,
};
use inko::object::{ObjectPointer, ObjectValue};
use inko::vm::{Action, Instruction, InstructionType, Machine, Process};

fn setup() -> (Machine, Process) {
    (Machine::new(), Process::new(0))
}

fn new_instruction(instruction_type: InstructionType, arguments: Vec<usize>) -> Instruction {
    Instruction::new(instruction_type, arguments)
}

fn allocate(machine: &mut Machine, process: &mut Process, value: ObjectValue) -> ObjectPointer {
    process.allocate_without_prototype(&mut machine.global, value).unwrap()
}

fn allocate_empty(machine: &mut Machine, process: &mut Process) -> ObjectPointer {
    process.allocate_empty(&mut machine.global).unwrap()
}

fn integer_in(process: &Process, register: usize) -> i64 {
    let pointer = process.get_register(register).unwrap();
    let object = process.object(pointer).unwrap();

    assert!(object.value.is_integer());

    object.value.as_integer().unwrap()
}

fn array_len(process: &Process, pointer: ObjectPointer) -> usize {
    process.object(pointer).unwrap().value.as_array().unwrap().len()
}

#[test]
fn array_test_without_arguments() {
    let (mut machine, mut process) = setup();
    let instruction = new_instruction(InstructionType::SetArray, Vec::new());
    assert!(set_array(&mut machine, &mut process, &instruction).is_err());

    let (machine, mut process) = setup();
    let instruction = new_instruction(InstructionType::ArrayInsert, Vec::new());
    assert!(array_insert(&machine, &mut process, &instruction).is_err());

    let (machine, mut process) = setup();
    let instruction = new_instruction(InstructionType::ArrayAt, Vec::new());
    assert!(array_at(&machine, &mut process, &instruction).is_err());

    let (machine, mut process) = setup();
    let instruction = new_instruction(InstructionType::ArrayRemove, Vec::new());
    assert!(array_remove(&machine, &mut process, &instruction).is_err());

    let (mut machine, mut process) = setup();
    let instruction = new_instruction(InstructionType::ArrayLength, Vec::new());
    assert!(array_length(&mut machine, &mut process, &instruction).is_err());

    let (machine, mut process) = setup();
    let instruction = new_instruction(InstructionType::ArrayClear, Vec::new());
    assert!(array_clear(&machine, &mut process, &instruction).is_err());
}

#[test]
fn array_test_with_valid_arguments() {
    // set_array
    let (mut machine, mut process) = setup();
    let instruction = new_instruction(InstructionType::SetArray, vec![0]);
    let result = set_array(&mut machine, &mut process, &instruction);

    assert!(result.is_ok());

    let pointer = process.get_register(0).unwrap();
    let object = process.object(pointer).unwrap();

    assert!(object.value.is_array());
    assert!(object.prototype == Some(machine.state.array_prototype));

    // array_insert
    let (mut machine, mut process) = setup();
    let instruction = new_instruction(InstructionType::ArrayInsert, vec![3, 0, 1, 2]);
    let array = allocate(&mut machine, &mut process, ObjectValue::Array(Vec::new()));
    let index = allocate(&mut machine, &mut process, ObjectValue::Integer(0));
    let value = allocate(&mut machine, &mut process, ObjectValue::Integer(5));

    process.set_register(0, array);
    process.set_register(1, index);
    process.set_register(2, value);

    let result = array_insert(&machine, &mut process, &instruction);

    assert!(result.is_ok());
    assert_eq!(integer_in(&process, 3), 5);

    // array_at
    let (mut machine, mut process) = setup();
    let instruction = new_instruction(InstructionType::ArrayAt, vec![2, 0, 1]);
    let value = allocate(&mut machine, &mut process, ObjectValue::Integer(5));
    let array = allocate(&mut machine, &mut process, ObjectValue::Array(vec![value]));
    let index = allocate(&mut machine, &mut process, ObjectValue::Integer(0));

    process.set_register(0, array);
    process.set_register(1, index);

    let result = array_at(&machine, &mut process, &instruction);

    assert!(result.is_ok());
    assert_eq!(integer_in(&process, 2), 5);

    // array_remove
    let (mut machine, mut process) = setup();
    let instruction = new_instruction(InstructionType::ArrayRemove, vec![2, 0, 1]);
    let value = allocate(&mut machine, &mut process, ObjectValue::Integer(5));
    let array = allocate(&mut machine, &mut process, ObjectValue::Array(vec![value]));
    let index = allocate(&mut machine, &mut process, ObjectValue::Integer(0));

    process.set_register(0, array);
    process.set_register(1, index);

    let result = array_remove(&machine, &mut process, &instruction);

    assert!(result.is_ok());
    assert_eq!(integer_in(&process, 2), 5);
    assert_eq!(array_len(&process, array), 0);

    // array_length
    let (mut machine, mut process) = setup();
    let instruction = new_instruction(InstructionType::ArrayLength, vec![1, 0]);
    let value = allocate_empty(&mut machine, &mut process);
    let array = allocate(&mut machine, &mut process, ObjectValue::Array(vec![value]));

    process.set_register(0, array);

    let result = array_length(&mut machine, &mut process, &instruction);

    assert!(result.is_ok());
    assert_eq!(integer_in(&process, 1), 1);

    // array_clear
    let (mut machine, mut process) = setup();
    let instruction = new_instruction(InstructionType::ArrayClear, vec![0]);
    let value = allocate_empty(&mut machine, &mut process);
    let array = allocate(&mut machine, &mut process, ObjectValue::Array(vec![value]));

    process.set_register(0, array);

    let result = array_clear(&machine, &mut process, &instruction);

    assert!(result.is_ok());
    assert_eq!(array_len(&process, array), 0);
}

#[test]
fn test_with_multiple_valid_arguments() {
    let (mut machine, mut process) = setup();
    let instruction = new_instruction(InstructionType::SetArray, vec![2, 0, 1]);

    let value1 = allocate_empty(&mut machine, &mut process);
    let value2 = allocate_empty(&mut machine, &mut process);

    process.set_register(0, value1);
    process.set_register(1, value2);

    let result = set_array(&mut machine, &mut process, &instruction);

    assert!(result.is_ok());

    let pointer = process.get_register(2).unwrap();
    let object = process.object(pointer).unwrap();

    assert!(object.value.is_array());

    let values = object.value.as_array().unwrap();

    assert_eq!(values.len(), 2);

    assert!(values[0] == value1);
    assert!(values[1] == value2);
}

#[test]
fn array_test_without_array_argument() {
    let (machine, mut process) = setup();
    let instruction = new_instruction(InstructionType::ArrayInsert, vec![3]);
    assert!(array_insert(&machine, &mut process, &instruction).is_err());

    let (machine, mut process) = setup();
    let instruction = new_instruction(InstructionType::ArrayAt, vec![2]);
    assert!(array_at(&machine, &mut process, &instruction).is_err());

    let (machine, mut process) = setup();
    let instruction = new_instruction(InstructionType::ArrayRemove, vec![2]);
    assert!(array_remove(&machine, &mut process, &instruction).is_err());

    let (mut machine, mut process) = setup();
    let instruction = new_instruction(InstructionType::ArrayLength, vec![1]);
    assert!(array_length(&mut machine, &mut process, &instruction).is_err());
}

#[test]
fn array_test_without_index_argument() {
    let (machine, mut process) = setup();
    let instruction = new_instruction(InstructionType::ArrayInsert, vec![3, 0]);
    assert!(array_insert(&machine, &mut process, &instruction).is_err());

    let (machine, mut process) = setup();
    let instruction = new_instruction(InstructionType::ArrayAt, vec![2, 0]);
    assert!(array_at(&machine, &mut process, &instruction).is_err());

    let (machine, mut process) = setup();
    let instruction = new_instruction(InstructionType::ArrayRemove, vec![2, 0]);
    assert!(array_remove(&machine, &mut process, &instruction).is_err());
}

#[test]
fn test_without_value_index() {
    let (machine, mut process) = setup();
    let instruction = new_instruction(InstructionType::ArrayInsert, vec![3, 0, 1]);

    let result = array_insert(&machine, &mut process, &instruction);

    assert!(result.is_err());
}

#[test]
fn array_test_with_undefined_registers() {
    let (machine, mut process) = setup();
    let instruction = new_instruction(InstructionType::ArrayInsert, vec![3, 0, 1, 2]);
    assert!(array_insert(&machine, &mut process, &instruction).is_err());

    let (machine, mut process) = setup();
    let instruction = new_instruction(InstructionType::ArrayAt, vec![2, 0, 1]);
    assert!(array_at(&machine, &mut process, &instruction).is_err());

    let (machine, mut process) = setup();
    let instruction = new_instruction(InstructionType::ArrayRemove, vec![2, 0, 1]);
    assert!(array_remove(&machine, &mut process, &instruction).is_err());

    let (mut machine, mut process) = setup();
    let instruction = new_instruction(InstructionType::ArrayLength, vec![1, 0]);
    assert!(array_length(&mut machine, &mut process, &instruction).is_err());

    let (machine, mut process) = setup();
    let instruction = new_instruction(InstructionType::ArrayClear, vec![0]);
    assert!(array_clear(&machine, &mut process, &instruction).is_err());
}

fn array_of_three(machine: &mut Machine, process: &mut Process) -> (ObjectPointer, Vec<ObjectPointer>) {
    let a = allocate(machine, process, ObjectValue::Integer(1));
    let b = allocate(machine, process, ObjectValue::Integer(2));
    let c = allocate(machine, process, ObjectValue::Integer(3));
    let array = allocate(machine, process, ObjectValue::Array(vec![a, b, c]));

    (array, vec![a, b, c])
}

#[test]
fn test_array_at_negative_index_counts_from_the_end() {
    let (mut machine, mut process) = setup();
    let (array, _) = array_of_three(&mut machine, &mut process);
    let index = allocate(&mut machine, &mut process, ObjectValue::Integer(-1));

    process.set_register(0, array);
    process.set_register(1, index);

    let instruction = new_instruction(InstructionType::ArrayAt, vec![2, 0, 1]);

    assert_eq!(array_at(&machine, &mut process, &instruction), Ok(Action::Proceed));
    assert_eq!(integer_in(&process, 2), 3);
}

#[test]
fn test_array_at_out_of_bounds() {
    let (mut machine, mut process) = setup();
    let (array, _) = array_of_three(&mut machine, &mut process);
    let past_end = allocate(&mut machine, &mut process, ObjectValue::Integer(3));
    let before_start = allocate(&mut machine, &mut process, ObjectValue::Integer(-4));

    process.set_register(0, array);
    process.set_register(1, past_end);
    process.set_register(3, before_start);

    let instruction = new_instruction(InstructionType::ArrayAt, vec![2, 0, 1]);
    assert!(array_at(&machine, &mut process, &instruction).is_err());

    let instruction = new_instruction(InstructionType::ArrayAt, vec![2, 0, 3]);
    assert!(array_at(&machine, &mut process, &instruction).is_err());
    assert!(process.get_register(2).is_err());
}

#[test]
fn test_array_insert_replaces_and_appends() {
    let (mut machine, mut process) = setup();
    let (array, elements) = array_of_three(&mut machine, &mut process);
    let index = allocate(&mut machine, &mut process, ObjectValue::Integer(1));
    let end = allocate(&mut machine, &mut process, ObjectValue::Integer(3));
    let value = allocate(&mut machine, &mut process, ObjectValue::Integer(9));

    process.set_register(0, array);
    process.set_register(1, index);
    process.set_register(2, value);
    process.set_register(4, end);

    let replace = new_instruction(InstructionType::ArrayInsert, vec![3, 0, 1, 2]);
    assert!(array_insert(&machine, &mut process, &replace).is_ok());

    let append = new_instruction(InstructionType::ArrayInsert, vec![3, 0, 4, 2]);
    assert!(array_insert(&machine, &mut process, &append).is_ok());

    let object = process.object(array).unwrap();
    let values = object.value.as_array().unwrap();

    assert_eq!(values.len(), 4);
    assert!(values[0] == elements[0]);
    assert!(values[1] == value);
    assert!(values[2] == elements[2]);
    assert!(values[3] == value);
}

#[test]
fn test_array_insert_beyond_the_end() {
    let (mut machine, mut process) = setup();
    let (array, _) = array_of_three(&mut machine, &mut process);
    let index = allocate(&mut machine, &mut process, ObjectValue::Integer(4));

    process.set_register(0, array);
    process.set_register(1, index);
    process.set_register(2, array);

    let instruction = new_instruction(InstructionType::ArrayInsert, vec![3, 0, 1, 2]);

    assert!(array_insert(&machine, &mut process, &instruction).is_err());
    assert_eq!(array_len(&process, array), 3);
}

#[test]
fn test_array_on_a_non_array() {
    let (mut machine, mut process) = setup();
    let number = allocate(&mut machine, &mut process, ObjectValue::Integer(4));

    process.set_register(0, number);

    let instruction = new_instruction(InstructionType::ArrayLength, vec![1, 0]);
    assert!(array_length(&mut machine, &mut process, &instruction).is_err());
}

#[test]
fn test_is_error() {
    let (mut machine, mut process) = setup();
    let error = allocate(&mut machine, &mut process, ObjectValue::Error(3));
    let number = allocate(&mut machine, &mut process, ObjectValue::Integer(3));

    process.set_register(0, error);
    process.set_register(1, number);

    let instruction = new_instruction(InstructionType::IsError, vec![2, 0]);
    assert!(is_error(&machine, &mut process, &instruction).is_ok());
    assert!(process.get_register(2).unwrap() == machine.state.true_object);

    let instruction = new_instruction(InstructionType::IsError, vec![2, 1]);
    assert!(is_error(&machine, &mut process, &instruction).is_ok());
    assert!(process.get_register(2).unwrap() == machine.state.false_object);

    let instruction = new_instruction(InstructionType::IsError, vec![2, 5]);
    assert!(is_error(&machine, &mut process, &instruction).is_err());
}

#[test]
fn test_error_to_integer() {
    let (mut machine, mut process) = setup();
    let error = allocate(&mut machine, &mut process, ObjectValue::Error(7));
    let number = allocate(&mut machine, &mut process, ObjectValue::Integer(3));

    process.set_register(0, error);
    process.set_register(1, number);

    let instruction = new_instruction(InstructionType::ErrorToInteger, vec![2, 0]);
    assert!(error_to_integer(&mut machine, &mut process, &instruction).is_ok());
    assert_eq!(integer_in(&process, 2), 7);

    let pointer = process.get_register(2).unwrap();
    assert!(process.object(pointer).unwrap().prototype == Some(machine.state.integer_prototype));

    let instruction = new_instruction(InstructionType::ErrorToInteger, vec![3, 1]);
    assert!(error_to_integer(&mut machine, &mut process, &instruction).is_err());
}

#[test]
fn test_get_current_pid() {
    let mut machine = Machine::new();
    let mut process = Process::new(42);

    let instruction = new_instruction(InstructionType::GetCurrentPid, vec![0]);
    assert!(get_current_pid(&mut machine, &mut process, &instruction).is_ok());
    assert_eq!(integer_in(&process, 0), 42);

    let instruction = new_instruction(InstructionType::GetCurrentPid, Vec::new());
    assert!(get_current_pid(&mut machine, &mut process, &instruction).is_err());
}

#[test]
fn test_send_and_receive_messages_in_order() {
    let mut machine = Machine::new();
    let mut sender = Process::new(1);

    machine.process_table.push(Process::new(2));

    let pid = allocate(&mut machine, &mut sender, ObjectValue::Integer(2));
    let first = allocate(&mut machine, &mut sender, ObjectValue::Integer(10));
    let second = allocate(&mut machine, &mut sender, ObjectValue::Integer(20));

    sender.set_register(0, pid);
    sender.set_register(1, first);
    sender.set_register(2, second);

    let send_first = new_instruction(InstructionType::SendProcessMessage, vec![3, 0, 1]);
    let send_second = new_instruction(InstructionType::SendProcessMessage, vec![3, 0, 2]);

    assert_eq!(send_process_message(&mut machine, &mut sender, &send_first), Ok(Action::Proceed));
    assert!(sender.get_register(3).unwrap() == first);
    assert_eq!(send_process_message(&mut machine, &mut sender, &send_second), Ok(Action::Proceed));

    let mut receiver = machine.process_table.remove(0);

    assert_eq!(receiver.messages.len(), 2);
    assert!(receiver.messages[0].is_mailbox());

    let receive = new_instruction(InstructionType::ReceiveProcessMessage, vec![0]);

    assert_eq!(receive_process_message(&mut machine, &mut receiver, &receive), Ok(Action::Proceed));
    assert_eq!(integer_in(&receiver, 0), 10);
    assert_eq!(receive_process_message(&mut machine, &mut receiver, &receive), Ok(Action::Proceed));
    assert_eq!(integer_in(&receiver, 0), 20);
    assert_eq!(receive_process_message(&mut machine, &mut receiver, &receive), Ok(Action::Suspend));
}

#[test]
fn test_send_to_unknown_process() {
    let mut machine = Machine::new();
    let mut sender = Process::new(1);
    let pid = allocate(&mut machine, &mut sender, ObjectValue::Integer(99));
    let message = allocate_empty(&mut machine, &mut sender);

    sender.set_register(0, pid);
    sender.set_register(1, message);

    let send = new_instruction(InstructionType::SendProcessMessage, vec![2, 0, 1]);

    assert_eq!(send_process_message(&mut machine, &mut sender, &send), Ok(Action::Proceed));
    assert!(sender.get_register(2).unwrap() == message);

    let missing = new_instruction(InstructionType::SendProcessMessage, vec![2, 0]);

    assert!(send_process_message(&mut machine, &mut sender, &missing).is_err());
}

#[test]
fn test_spawn_literal_process_arguments() {
    let instruction = new_instruction(InstructionType::GetCurrentPid, vec![1, 3]);
    let request = spawn_literal_process(&instruction).unwrap();

    assert_eq!(request.register, 1);
    assert!(matches!(request.code, SpawnCode::Literal(3)));
    assert_eq!(request.pool, PRIMARY_POOL);

    let instruction = new_instruction(InstructionType::GetCurrentPid, vec![1, 3, 2]);
    assert_eq!(spawn_literal_process(&instruction).unwrap().pool, 2);

    let instruction = new_instruction(InstructionType::GetCurrentPid, vec![1]);
    assert!(spawn_literal_process(&instruction).is_err());
}

#[test]
fn test_spawn_process_arguments() {
    let (mut machine, mut process) = setup();
    let code = allocate_empty(&mut machine, &mut process);
    let pool = allocate(&mut machine, &mut process, ObjectValue::Integer(1));

    process.set_register(0, code);
    process.set_register(1, pool);

    let instruction = new_instruction(InstructionType::GetCurrentPid, vec![2, 0, 1]);
    let request = spawn_process(&process, &instruction).unwrap();

    assert_eq!(request.register, 2);
    assert!(matches!(request.code, SpawnCode::Object(p) if p == code));
    assert_eq!(request.pool, 1);

    let instruction = new_instruction(InstructionType::GetCurrentPid, vec![2, 0]);
    assert_eq!(spawn_process(&process, &instruction).unwrap().pool, PRIMARY_POOL);

    let instruction = new_instruction(InstructionType::GetCurrentPid, vec![2, 0, 0]);
    assert!(spawn_process(&process, &instruction).is_err());
}
