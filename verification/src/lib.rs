//! Decoder for SBF music containers.
//!
//! A container holds a header, an index of chunk records and the chunk
//! payloads. Chunks that carry the same track name form a track; decoded and
//! joined in a chosen order they are the audio of that track.
//!
//! - [`sbf`] reads the header and the index and checks their invariants;
//!   [`ident`] recovers track name and suffix from the identifier field, and
//!   [`group`] gathers the chunks of each track.
//! - [`codec`] turns encoded payload blocks into 16-bit PCM samples.
//! - [`timeline`] assembles the samples of a track in a chosen chunk order
//!   and tells where each chunk starts.
//! - [`config`] holds the persisted chunk orders, [`order`] applies them, and
//!   [`editor`] decides what each key of the interactive editor does.
//! - [`wav`] and [`export`] produce the audio file of a track.
//! - [`source`], [`cmd`] and [`buttons`] hold the decisions of the playback
//!   cursor, of command handling and of the button list.
//!
//! Every function states what it returns; the statements are proved.

pub mod buttons;
pub mod bytes;
pub mod cmd;
pub mod codec;
pub mod config;
pub mod editor;
pub mod error;
pub mod export;
pub mod group;
pub mod ident;
pub mod order;
pub mod sbf;
pub mod source;
pub mod sums;
pub mod text;
pub mod timeline;
pub mod wav;
