//! A simulator for a small grid of message-passing processors.
//!
//! Each grid cell holds a computing node, a storage node or a disabled node.
//! Nodes exchange single integers through directional ports with a blocking
//! handshake: a write stays pending until a neighbour consumes it, and a value
//! written during one tick becomes readable only from the next tick on.

pub mod instruction;
pub mod machine;
pub mod node;
pub mod program;
pub mod puzzle;
