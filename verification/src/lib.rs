//! A grammar-driven compiler for byte-level state machines: a declarative
//! grammar of states, pattern-matching arms and transitions goes in, and a
//! deterministic decision artifact comes out — a closed state identifier
//! space, a dispatch table, and the capability surface the host must
//! supply. Multi-byte literal runs are expanded into chains of implicit
//! states; arms dispatch in declaration order, first match wins; the
//! one-shot entry prelude fires once per activation; and end-of-chunk is
//! kept strictly apart from end-of-stream.

use vstd::prelude::*;

pub mod compile;
pub mod emit;
pub mod grammar;
pub mod machine;
pub mod parse;
pub mod pattern;

verus! {

pub use crate::grammar::{ActionRef, Arm, CompileError, Directive, Grammar, State};
pub use crate::machine::{ActionCall, Branch, Guard, Machine, MachineState, Run, StepOutput};
pub use crate::parse::ParseError;
pub use crate::pattern::{ClassPattern, InputStatePattern, Pattern, SequencePattern};

} // verus!
