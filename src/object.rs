//! Objects, their values, and the pointers that refer to them.
use vstd::prelude::*;

verus! {

/// The number of bytes in a block.
pub const BLOCK_SIZE: usize = 32768;

/// The number of bytes in a single line.
pub const LINE_SIZE: usize = 128;

/// The number of bytes taken by a single object.
pub const BYTES_PER_OBJECT: usize = 32;

/// The mask that turns an address into the start of its block.
pub const BLOCK_MASK: usize = !0x7FFF;

/// The mask that turns an address into the start of its line.
pub const LINE_MASK: usize = !0x7F;

/// The bit of a pointer that says its object lives in a mailbox heap.
pub const MAILBOX_TAG: usize = 1;

/// A pointer to an object slot. Slots are 32 bytes apart, which leaves the
/// low bits free for tags.
#[derive(Debug, Clone, Copy, PartialEq, Eq, Structural)]
pub struct ObjectPointer {
    pub raw: usize,
}

/// The start of the block that holds the address `p`.
pub open spec fn block_of(p: usize) -> usize {
    p & BLOCK_MASK
}

/// Masking an address that lies `offset` bytes into a block gives the block's
/// start.
pub proof fn lemma_block_mask(base: usize, offset: usize)
    requires
        base % 32768 == 0,
        offset < 32768,
        base + offset <= usize::MAX,
    ensures
        (base + offset) as usize & BLOCK_MASK == base,
{
    assert(base % 32768 == 0 ==> base & 0x7FFF == 0) by (bit_vector);
    assert(base & 0x7FFF == 0 && offset < 32768 ==> (base + offset) as usize & !0x7FFFusize
        == base) by (bit_vector);
}

/// Masking an address gives the start of its line: the address rounded down
/// to a multiple of the line size.
pub proof fn lemma_line_mask(p: usize)
    ensures
        p & LINE_MASK == p - p % 128,
{
    assert(p & !0x7Fusize == p - p % 128) by (bit_vector);
}

impl ObjectPointer {
    /// The address of the slot, without tags.
    pub open spec fn address(self) -> int {
        self.raw - self.raw % 32
    }

    pub open spec fn spec_is_mailbox(self) -> bool {
        self.raw % 2 == 1
    }

    /// Returns true when the object lives in a mailbox heap.
    pub fn is_mailbox(&self) -> (r: bool)
        ensures
            r == self.spec_is_mailbox(),
    {
        self.raw % 2 == 1
    }

    /// The start of the block this pointer points into.
    pub fn block_address(&self) -> (r: usize)
        ensures
            r == block_of(self.raw),
    {
        self.raw & BLOCK_MASK
    }

    /// The index of the line of its block that this pointer points into.
    pub fn line_index(&self) -> (r: usize)
        ensures
            r == (self.raw % 32768) / 128,
            r < 256,
    {
        (self.raw % BLOCK_SIZE) / LINE_SIZE
    }
}

/// The value an object holds.
#[derive(Debug)]
pub enum ObjectValue {
    Nil,
    Integer(i64),
    String(String),
    Array(Vec<ObjectPointer>),
    Error(u16),
    /// Left in the slot of an object that moved: where it moved to.
    Forwarded(ObjectPointer),
}

impl ObjectValue {
    pub fn is_none(&self) -> (r: bool)
        ensures
            r == (*self is Nil),
    {
        match self {
            ObjectValue::Nil => true,
            _ => false,
        }
    }

    pub fn is_integer(&self) -> (r: bool)
        ensures
            r == (*self is Integer),
    {
        match self {
            ObjectValue::Integer(_) => true,
            _ => false,
        }
    }

    pub fn is_array(&self) -> (r: bool)
        ensures
            r == (*self is Array),
    {
        match self {
            ObjectValue::Array(_) => true,
            _ => false,
        }
    }

    pub fn is_error(&self) -> (r: bool)
        ensures
            r == (*self is Error),
    {
        match self {
            ObjectValue::Error(_) => true,
            _ => false,
        }
    }

    pub fn as_integer(&self) -> (r: Result<i64, String>)
        ensures
            match *self {
                ObjectValue::Integer(i) => r == Ok::<i64, String>(i),
                _ => r is Err,
            },
    {
        match self {
            ObjectValue::Integer(i) => Ok(*i),
            _ => Err("the object is not an integer".to_string()),
        }
    }

    pub fn as_error(&self) -> (r: Result<u16, String>)
        ensures
            match *self {
                ObjectValue::Error(e) => r == Ok::<u16, String>(e),
                _ => r is Err,
            },
    {
        match self {
            ObjectValue::Error(e) => Ok(*e),
            _ => Err("the object is not an error".to_string()),
        }
    }

    pub fn as_array(&self) -> (r: Result<&Vec<ObjectPointer>, String>)
        ensures
            match *self {
                ObjectValue::Array(v) => r matches Ok(a) && a@ == v@,
                _ => r is Err,
            },
    {
        match self {
            ObjectValue::Array(v) => Ok(v),
            _ => Err("the object is not an array".to_string()),
        }
    }
}

/// A value with the prototype that methods are looked up in.
#[derive(Debug)]
pub struct Object {
    pub value: ObjectValue,
    pub prototype: Option<ObjectPointer>,
}

impl Object {
    pub fn new(value: ObjectValue) -> (r: Object)
        ensures
            r.value == value,
            r.prototype is None,
    {
        Object { value, prototype: None }
    }

    pub fn with_prototype(value: ObjectValue, prototype: ObjectPointer) -> (r: Object)
        ensures
            r.value == value,
            r.prototype == Some(prototype),
    {
        Object { value, prototype: Some(prototype) }
    }
}

} // verus!
