//! What holds of the library as a whole, proved from the definitions of its
//! parts: what is written reads back, what is found for an interface leaves
//! nothing out and holds nothing unneeded, what is generated for a type can
//! stand in code, and the two ways to the literal of a type agree.

pub mod closure;
pub mod declaration;
pub mod defaults;
pub mod interface_block;
pub mod literals;
pub mod type_text;
pub mod world_block;
