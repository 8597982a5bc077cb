//! The message layer of a block-exchange protocol: the message that a peer builds or
//! receives, the rules by which repeated wants merge, and its two wire formats.

pub mod block;
pub mod codec;
pub mod content_id;
pub mod error;
pub mod instant;
pub mod laws;
pub mod maps;
pub mod message;
pub mod pb;
pub mod roundtrip;
pub mod size;
pub mod varint;
pub mod wire;

pub use block::Block;
pub use content_id::{ContentId, Prefix, Version};
pub use error::Error;
pub use instant::Instant;
pub use message::{BitswapMessage, BlockPresence, BlockPresenceType, Entry, Priority, WantType};
