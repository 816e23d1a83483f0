use vstd::prelude::*;

verus! {

/// Two-byte constant that every well-formed frame carries: 'U' then 'C'.
pub const UNICLIP_MAGIC: u16 = 0x5543;

/// Wire protocol revision; frames from other revisions are rejected.
pub const UNICLIP_PROTO_VERSION: u8 = 1;

/// Largest payload text, in UTF-8 bytes, that travels inline in one
/// `Update`; anything longer goes through the chunked big transfer.
pub const UNICLIP_DATA_LIMIT: usize = 5120;

} // verus!

pub mod datatype;
pub mod codec;
pub mod crypto;
pub mod packer;
pub mod mesh;
pub mod dispatch;
pub mod requests;
pub mod hotkey;
pub mod cli;
