//! The soul file: a player's progression record and its binary format.
//!
//! A record holds a level, experience, eight quest slots and hit points.
//! On disk it is a fixed 62-byte little-endian header followed by a run of
//! bytes whose length, not content, is the record's hit points.
//!
//! - [`soul`]: the record, its derived values and its validity rule;
//! - [`quests`]: the quest slots of a record;
//! - [`codec`]: the record as bytes, and back;
//! - [`bytes`]: little-endian integers;
//! - [`error`]: the failures, each by name;
//! - [`journal`]: which quest to offer a player next;
//! - [`quest_data`]: quest descriptions and the text they are read from;
//! - [`text`]: the text tools the above are built on.
//!
//! This library reads and writes no file: it turns records into bytes and
//! bytes into records, and leaves the storing to its caller.

pub mod bytes;
pub mod codec;
pub mod equality;
pub mod error;
pub mod journal;
pub mod quest_data;
pub mod quests;
pub mod soul;
pub mod text;

pub use error::SoulError;
pub use soul::{Soul, SoulView, HEADER_SIZE, MAGIC, MAX_LEVEL, QUEST_SLOTS, VERSION};
