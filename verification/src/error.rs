//! The named failures of loading, saving and changing a soul record.

use crate::text::{decimal, push_decimal};
use vstd::prelude::*;
use vstd::string::*;

verus! {

/// `std::io::Error`, carried through as an opaque value.
#[verifier::external_type_specification]
#[verifier::external_body]
pub struct ExIoError(std::io::Error);

/// Everything that can go wrong with a soul record. Each condition has a
/// variant of its own; none is retried by this library.
#[derive(Debug)]
pub enum SoulError {
    /// An underlying read, write or metadata operation failed.
    Io(std::io::Error),
    /// The source is shorter than the fixed header; carries its length.
    FileTooSmall(u64),
    /// The first four bytes are not the magic tag; carries the bytes found.
    InvalidMagic([u8; 4]),
    /// The version field is not the supported one; carries the value found.
    UnsupportedVersion(u16),
    /// The level exceeds the maximum; carries the level.
    InvalidLevel(u32),
    /// The hit points exceed the ceiling of the level.
    InvalidHP { hp: u32, max: u32 },
    /// Quest id 0 marks an empty slot and cannot be added.
    InvalidQuest,
    /// The quest already occupies an unlocked slot.
    QuestAlreadyActive,
    /// Every unlocked slot is occupied.
    NoQuestSlots,
}

/// What `std::io::Error` prints of itself, through its `Display`. Nothing
/// is claimed of the text.
#[verifier::external_body]
fn io_error_text(e: &std::io::Error) -> (text: String) {
    format!("{}", e)
}

impl SoulError {
    /// The message of every failure but `Io`, whose text comes from the
    /// operating system.
    pub open spec fn spec_message(self) -> Seq<char> {
        match self {
            SoulError::Io(_) => "I/O error: "@,
            SoulError::FileTooSmall(size) => "File too small: "@ + decimal(size as nat)
                + " bytes (need >= 62)"@,
            SoulError::InvalidMagic(magic) => "Invalid magic bytes: ["@ + decimal(magic[0] as nat)
                + ", "@ + decimal(magic[1] as nat) + ", "@ + decimal(magic[2] as nat) + ", "@
                + decimal(magic[3] as nat) + "]"@,
            SoulError::UnsupportedVersion(v) => "Unsupported version: "@ + decimal(v as nat),
            SoulError::InvalidLevel(l) => "Invalid level: "@ + decimal(l as nat) + " (max 42)"@,
            SoulError::InvalidHP { hp, max } => "Invalid HP: "@ + decimal(hp as nat) + " (max "@
                + decimal(max as nat) + " for level)"@,
            SoulError::InvalidQuest => "Invalid quest ID (cannot be 0)"@,
            SoulError::QuestAlreadyActive => "Quest already active"@,
            SoulError::NoQuestSlots => "No available quest slots"@,
        }
    }

    /// The message of this failure, for people to read. For `Io` it is
    /// `I/O error: ` followed by the text of the underlying error.
    pub fn to_string(&self) -> (text: String)
        ensures
            !(self is Io) ==> text@ == self.spec_message(),
            self is Io ==> text@.len() >= self.spec_message().len() && text@.take(
                self.spec_message().len() as int,
            ) == self.spec_message(),
    {
        match self {
            SoulError::Io(e) => {
                let mut text = String::from_str("I/O error: ");
                let cause = io_error_text(e);
                text.append(cause.as_str());
                assert(text@.take("I/O error: "@.len() as int) =~= "I/O error: "@);
                text
            },
            SoulError::FileTooSmall(size) => {
                let mut text = String::from_str("File too small: ");
                push_decimal(&mut text, *size);
                text.append(" bytes (need >= 62)");
                text
            },
            SoulError::InvalidMagic(magic) => {
                let mut text = String::from_str("Invalid magic bytes: [");
                push_decimal(&mut text, magic[0] as u64);
                text.append(", ");
                push_decimal(&mut text, magic[1] as u64);
                text.append(", ");
                push_decimal(&mut text, magic[2] as u64);
                text.append(", ");
                push_decimal(&mut text, magic[3] as u64);
                text.append("]");
                text
            },
            SoulError::UnsupportedVersion(v) => {
                let mut text = String::from_str("Unsupported version: ");
                push_decimal(&mut text, *v as u64);
                text
            },
            SoulError::InvalidLevel(l) => {
                let mut text = String::from_str("Invalid level: ");
                push_decimal(&mut text, *l as u64);
                text.append(" (max 42)");
                text
            },
            SoulError::InvalidHP { hp, max } => {
                let mut text = String::from_str("Invalid HP: ");
                push_decimal(&mut text, *hp as u64);
                text.append(" (max ");
                push_decimal(&mut text, *max as u64);
                text.append(" for level)");
                text
            },
            SoulError::InvalidQuest => String::from_str("Invalid quest ID (cannot be 0)"),
            SoulError::QuestAlreadyActive => String::from_str("Quest already active"),
            SoulError::NoQuestSlots => String::from_str("No available quest slots"),
        }
    }
}

impl From<std::io::Error> for SoulError {
    fn from(e: std::io::Error) -> (r: SoulError) {
        SoulError::Io(e)
    }
}

impl vstd::std_specs::convert::FromSpecImpl<std::io::Error> for SoulError {
    open spec fn obeys_from_spec() -> bool {
        true
    }

    open spec fn from_spec(e: std::io::Error) -> SoulError {
        SoulError::Io(e)
    }
}

} // verus!
