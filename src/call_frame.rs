//! Call frames: where a method was called from, and the registers and local
//! variables of the call.
use vstd::prelude::*;

use crate::object::ObjectPointer;

verus! {

pub struct CallFrame {
    pub name: String,
    pub file: String,
    pub line: usize,
    /// The frame of the caller.
    pub parent: Option<Box<CallFrame>>,
    /// The object each register holds, if any.
    pub register: Vec<Option<ObjectPointer>>,
    /// The object each local variable holds, if any.
    pub variables: Vec<Option<ObjectPointer>>,
}

impl CallFrame {
    pub fn new(name: String, file: String, line: usize) -> (r: CallFrame)
        ensures
            r.name == name,
            r.file == file,
            r.line == line,
            r.parent is None,
            r.register@.len() == 0,
            r.variables@.len() == 0,
    {
        CallFrame {
            name: name,
            file: file,
            line: line,
            parent: None,
            register: Vec::new(),
            variables: Vec::new(),
        }
    }

    /// Makes `parent` the frame of the caller.
    pub fn set_parent(&mut self, parent: CallFrame)
        ensures
            final(self).parent == Some(Box::new(parent)),
            final(self).name == old(self).name,
            final(self).file == old(self).file,
            final(self).line == old(self).line,
            final(self).register == old(self).register,
            final(self).variables == old(self).variables,
    {
        self.parent = Some(Box::new(parent));
    }
}

} // verus!
