//! A small interpreter for an eight-instruction tape language.
//!
//! The crate is split into a loader (`program`), which turns source text into
//! an instruction stream and checks that loop brackets pair up, and a virtual
//! machine (`machine`), which executes the stream against a tape of byte
//! cells.  The `semantics` module gives the machine a small-step mathematical
//! model that the executable code is proved to follow.

pub mod decimal;
pub mod machine;
pub mod program;
pub mod semantics;

pub use machine::CellKind;
pub use machine::InputBuffer;
pub use machine::VMError;
pub use machine::VirtualMachine;
pub use program::BrainFuckProgram;
pub use program::IntructionPosition;
pub use program::RawInstructions;
