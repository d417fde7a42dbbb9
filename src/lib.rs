/// Error kinds of every stage.
pub mod error;
/// The byte tape and its unchecked view.
pub mod tape;
/// The IR and the parser with its peephole rules.
pub mod ir;
/// The pointer-range analysis.
pub mod range;
/// The bytecode and its lowering from IR.
pub mod bytecode;
/// What each instruction does, and runs across tiers.
pub mod semantics;
/// The program state and its view.
pub mod program;
/// The shared instruction executor and the two tiers.
pub mod interpret;
/// The tier dispatcher, input, and the whole pipeline.
pub mod runtime;
/// Properties of the semantics and the peephole rules.
pub mod laws;
