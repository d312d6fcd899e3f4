//! A MessagePack wire codec over a fixed, pre-sized byte buffer.
//!
//! The crate is organised around a bounds-checked cursor ([`data_view::DataView`])
//! that owns the buffer for the duration of one pass.  On top of it stand a
//! sequential decoder ([`read_decoder::ReadDecoder`]), a size-computing encoder
//! ([`write_sizer::WriteSizer`]) that accounts for every byte a later write pass
//! will emit, and the byte-writing encoder itself
//! ([`write_encoder::WriteEncoder`]).  The wire grammar — tag bytes, fixed
//! families, big-endian payloads — is stated once, as specification functions in
//! [`wire`], and every reader, sizer and writer is proved against it.

pub mod bigint;
pub mod data_view;
pub mod error;
pub mod nullable;
pub mod read_decoder;
pub mod tag;
pub mod utils;
pub mod wire;
pub mod write_encoder;
pub mod write_sizer;
