//! A small embeddable scripting language: a single-pass compiler from source
//! text to a compact variable-length bytecode, and a stack machine that runs it.
//!
//! A host loads a source into a [`script::BakhtScript`], calls a function with
//! `fcall` and then serves the machine: wherever the machine stops, its
//! [`machine::Signal`] tells why. Arithmetic on numbers is the host's to
//! compute, since the library holds a number only as the bit pattern of a
//! binary32 value; natives are the host's to run, through [`native`]; and a
//! run that has used up its budget of steps is the host's to resume or to
//! give up.
//!
//! What the compiler and the machine do is laid down twice: as mathematics,
//! in [`grammar`] and [`machine`], and as code, in [`compiler`] and [`vm`],
//! whose every function is proved to do what the mathematics says.

pub mod assemble;
pub mod bin;
pub mod compiler;
pub mod error;
pub mod grammar;
pub mod machine;
pub mod native;
pub mod number;
pub mod scanner;
pub mod script;
pub mod text;
pub mod value;
pub mod vm;
