//! The core of a virtual machine for a language with lightweight processes:
//! an Immix memory manager (blocks of lines, buckets of blocks, a shared pool
//! of free blocks, per-process heaps and mailbox heaps, copying of object
//! graphs between heaps, and collection), the instructions that work on it,
//! and the compiler's lexer and parser.
pub mod bitmap;
pub mod block;
pub mod bucket;
pub mod call_frame;
pub mod copy_object;
pub mod global_allocator;
pub mod instructions;
pub mod lexer;
pub mod local_allocator;
pub mod mailbox_allocator;
pub mod object;
pub mod parser;
pub mod vm;
