//! Code generation for the Java virtual machine: the class-file encoding of a
//! compiled program, with its constant pool, methods and bytecode.
pub mod bytes;
pub mod ir;
pub mod class_file;
pub mod codegen;
pub mod laws;
