//! The errors of a conversion.

use vstd::prelude::*;

verus! {

/// Why a text is not a decimal number that fits in `usize`.
#[derive(Debug, Clone, Copy, PartialEq, Eq)]
pub enum IntErrorKind {
    /// The text is empty.
    Empty,
    /// A character is not a decimal digit, or a lone sign stands for the number.
    InvalidDigit,
    /// The number is too large.
    PosOverflow,
}

/// What is wrong with one field of a line.
#[derive(Debug, Clone, Copy, PartialEq, Eq)]
pub enum FieldFault {
    /// A time that is not made of four parts.
    Shape,
    /// A part that is not a number.
    Number(IntErrorKind),
}

/// The fields of a dialogue line that hold numbers.
#[derive(Debug, Clone, Copy, PartialEq, Eq)]
pub enum DialogueField {
    StartTime,
    EndTime,
    KaraokeDuration,
}

/// A text that does not have the shape its format asks for.
#[derive(Debug, Clone, Copy, PartialEq, Eq)]
pub enum FormatError {
    /// A time that is not written as `H:MM:SS.cs`: it is not made of four
    /// parts, or a part of it is no number.
    Time { cause: FieldFault },
    /// A line that was taken for a dialogue and does not have the fields of
    /// one.
    Structure { line_number: usize },
    /// A field of the dialogue on line `line_number`.
    Dialogue { line_number: usize, field: DialogueField, cause: FieldFault },
}

/// Why a conversion, or a step of one, failed.
#[derive(Debug, PartialEq)]
pub enum ConversionError {
    /// The regex engine refused a pattern of the grammar.
    Regex(regex::Error),
    /// A text of the wrong shape.
    InvalidFormat(FormatError),
}

/// The error that a fault in a free-standing time is reported as.
pub open spec fn time_error(fault: FieldFault) -> ConversionError {
    ConversionError::InvalidFormat(FormatError::Time { cause: fault })
}

/// The error of a line that does not have the fields of a dialogue.
pub open spec fn structure_error(line_number: usize) -> ConversionError {
    ConversionError::InvalidFormat(FormatError::Structure { line_number })
}

/// The error that a fault in `field` of the dialogue on line `line_number`
/// is reported as.
pub open spec fn dialogue_error(line_number: usize, field: DialogueField, cause: FieldFault) -> ConversionError {
    ConversionError::InvalidFormat(FormatError::Dialogue { line_number, field, cause })
}

} // verus!
