//! Bytecode as the Solidity compiler reports it: fully linked bytes, or hex text that still
//! holds placeholders for library addresses, with the link references that say where each
//! library goes. Linking replaces the placeholders of a library by its address; once no
//! library is left, the text is read as hex and the bytecode is fully linked.

pub mod bytecode;
pub mod deployed;
pub mod hex;
pub mod laws;
pub mod multi_replace;
pub mod object;
pub mod placeholder;
pub mod str_map;
pub mod text;
pub mod types;

pub use bytecode::{Bytecode, CompactBytecode, LinkReferences};
pub use deployed::{CompactDeployedBytecode, DeployedBytecode};
pub use object::{serialize_bytecode_without_prefix, BytecodeObject};
pub use str_map::StrMap;
pub use types::{Address, FunctionDebugData, GeneratedSource, Offsets};
