//! What a command line decides before any file is read: which conversion a
//! direction or a file extension asks for, and how the output is named.

use crate::text::{
    chars_of, lowercase, same_ignoring_ascii_case, spells, spells_ignoring_ascii_case, string_of,
};
use vstd::prelude::*;
use vstd::slice::*;
use vstd::string::*;

verus! {

/// The extension of a file of ASS.
pub const ASS_EXTENSION: &'static str = ".ass";

/// The extension of a file of QRC.
pub const QRC_EXTENSION: &'static str = ".qrc";

/// The extension of a file of LYS.
pub const LYRICIFY_EXTENSION: &'static str = ".lys";

/// The four conversions.
#[derive(PartialEq, Eq, Debug, Clone, Copy, Structural)]
pub enum Direction {
    AssToQrc,
    QrcToAss,
    AssToLys,
    LysToAss,
}

/// The conversion that a direction in lower case stands for: `ass2qrc` or
/// `2q`, `qrc2ass` or `2a`, `ass2lys` or `2l`, `lys2ass` or `l2a`.
pub open spec fn direction_of_lowered(lower: Seq<char>) -> Option<Direction> {
    if lower == "ass2qrc"@ || lower == "2q"@ {
        Some(Direction::AssToQrc)
    } else if lower == "qrc2ass"@ || lower == "2a"@ {
        Some(Direction::QrcToAss)
    } else if lower == "ass2lys"@ || lower == "2l"@ {
        Some(Direction::AssToLys)
    } else if lower == "lys2ass"@ || lower == "l2a"@ {
        Some(Direction::LysToAss)
    } else {
        None
    }
}

/// The conversion that a direction stands for, in any case of its letters.
pub open spec fn direction_of(direction: Seq<char>) -> Option<Direction> {
    direction_of_lowered(lowercase(direction))
}

/// The conversion for a file with the extension `lower`, written in lower
/// case and without its dot. A file of ASS goes to LYS where it holds role
/// tags that LYS can tell apart, and to QRC where it does not.
pub open spec fn direction_for_lowered(lower: Seq<char>, special_names: bool) -> Option<Direction> {
    if lower == "lys"@ {
        Some(Direction::LysToAss)
    } else if lower == "ass"@ {
        if special_names {
            Some(Direction::AssToLys)
        } else {
            Some(Direction::AssToQrc)
        }
    } else if lower == "qrc"@ {
        Some(Direction::QrcToAss)
    } else {
        None
    }
}

/// The conversion for a file with the extension `extension`, written
/// without its dot, in any case of its letters.
pub open spec fn direction_for(extension: Seq<char>, special_names: bool) -> Option<Direction> {
    direction_for_lowered(lowercase(extension), special_names)
}

/// `s` without the `c` it begins with, if it begins with one.
pub open spec fn without_first(s: Seq<char>, c: char) -> Option<Seq<char>> {
    if s.len() > 0 && s[0] == c {
        Some(s.skip(1))
    } else {
        None
    }
}

/// `s` without the `c` it ends with, if it ends with one.
pub open spec fn without_last(s: Seq<char>, c: char) -> Option<Seq<char>> {
    if s.len() > 0 && s.last() == c {
        Some(s.drop_last())
    } else {
        None
    }
}

/// `cut` where there is one, and `whole` where there is none.
pub open spec fn cut_or(cut: Option<Seq<char>>, whole: Seq<char>) -> Seq<char> {
    match cut {
        Some(cut) => cut,
        None => whole,
    }
}

/// A path as it was typed, without the quotes around it. Four cuts are
/// tried in turn: a double quote in front, one behind, a single quote in
/// front, one behind. A cut that finds no quote gives the path as it was
/// typed, with whatever the cuts before it took put back.
pub open spec fn cleaned_path(typed: Seq<char>) -> Seq<char> {
    let a = cut_or(without_first(typed, '"'), typed);
    let b = cut_or(without_last(a, '"'), typed);
    let c = cut_or(without_first(b, '\''), typed);
    cut_or(without_last(c, '\''), typed)
}

/// The extension, with its dot, of what a conversion writes.
pub open spec fn output_extension(direction: Direction) -> Seq<char> {
    match direction {
        Direction::AssToQrc => QRC_EXTENSION@,
        Direction::AssToLys => LYRICIFY_EXTENSION@,
        Direction::QrcToAss => ASS_EXTENSION@,
        Direction::LysToAss => ASS_EXTENSION@,
    }
}

/// The name of the output for an input whose name, without its extension,
/// is `file_stem`: `output` stands in for a name that is missing.
pub open spec fn output_name(file_stem: Option<Seq<char>>, extension: Seq<char>) -> Seq<char> {
    (match file_stem {
        Some(stem) => stem,
        None => "output"@,
    }) + "_converted"@ + extension
}

/// Reads a direction that is written in lower case.
pub fn direction_of_lowered_text(lower: &str) -> (r: Option<Direction>)
    ensures
        r == direction_of_lowered(lower@),
{
    let lower = chars_of(lower);
    let lower = lower.as_slice();
    if spells(lower, "ass2qrc") || spells(lower, "2q") {
        Some(Direction::AssToQrc)
    } else if spells(lower, "qrc2ass") || spells(lower, "2a") {
        Some(Direction::QrcToAss)
    } else if spells(lower, "ass2lys") || spells(lower, "2l") {
        Some(Direction::AssToLys)
    } else if spells(lower, "lys2ass") || spells(lower, "l2a") {
        Some(Direction::LysToAss)
    } else {
        None
    }
}

/// Reads a direction.
pub fn parse_direction(direction: &str) -> (r: Option<Direction>)
    ensures
        r == direction_of(direction@),
{
    let lower_dir = direction.to_lowercase();
    direction_of_lowered_text(lower_dir.as_str())
}

/// Chooses the conversion for a file by its extension, written in lower
/// case.
pub fn direction_for_lowered_extension(lower: &str, special_names: bool) -> (r: Option<Direction>)
    ensures
        r == direction_for_lowered(lower@, special_names),
{
    let lower = chars_of(lower);
    let lower = lower.as_slice();
    if spells(lower, "lys") {
        Some(Direction::LysToAss)
    } else if spells(lower, "ass") {
        if special_names {
            Some(Direction::AssToLys)
        } else {
            Some(Direction::AssToQrc)
        }
    } else if spells(lower, "qrc") {
        Some(Direction::QrcToAss)
    } else {
        None
    }
}

/// Chooses the conversion for a file by its extension.
pub fn direction_for_extension(extension: &str, special_names: bool) -> (r: Option<Direction>)
    ensures
        r == direction_for(extension@, special_names),
{
    let lower_ext = extension.to_lowercase();
    direction_for_lowered_extension(lower_ext.as_str(), special_names)
}

/// Whether an extension, written without its dot, is that of a file of ASS
/// when its letters are put in lower case.
pub fn is_ass_extension(extension: &str) -> (yes: bool)
    ensures
        yes == (lowercase(extension@) == "ass"@),
{
    let lower_ext = extension.to_lowercase();
    let lower = chars_of(lower_ext.as_str());
    spells(lower.as_slice(), "ass")
}

/// Whether an extension, written without its dot, is that of a file of
/// ASS, in any case of its ASCII letters.
pub fn names_ass(extension: &str) -> (yes: bool)
    ensures
        yes == same_ignoring_ascii_case(extension@, "ass"@),
{
    let cs = chars_of(extension);
    spells_ignoring_ascii_case(cs.as_slice(), "ass")
}

/// Takes the quotes off a path as it was typed.
pub fn clean_file_path(typed: &str) -> (cleaned: String)
    ensures
        cleaned@ == cleaned_path(typed@),
{
    let cs = chars_of(typed);
    let whole = cs.as_slice();
    let a = if whole.len() > 0 && whole[0] == '"' {
        slice_subrange(whole, 1, whole.len())
    } else {
        whole
    };
    let b = if a.len() > 0 && a[a.len() - 1] == '"' {
        slice_subrange(a, 0, a.len() - 1)
    } else {
        whole
    };
    let c = if b.len() > 0 && b[0] == '\'' {
        slice_subrange(b, 1, b.len())
    } else {
        whole
    };
    let d = if c.len() > 0 && c[c.len() - 1] == '\'' {
        slice_subrange(c, 0, c.len() - 1)
    } else {
        whole
    };
    string_of(d)
}

/// The extension, with its dot, of what a conversion writes.
pub fn extension_of_output(direction: Direction) -> (extension: &'static str)
    ensures
        extension@ == output_extension(direction),
{
    match direction {
        Direction::AssToQrc => QRC_EXTENSION,
        Direction::AssToLys => LYRICIFY_EXTENSION,
        Direction::QrcToAss => ASS_EXTENSION,
        Direction::LysToAss => ASS_EXTENSION,
    }
}

/// Names the output of a conversion after its input: the input's name
/// without its extension, then `_converted`, then the extension of the
/// output, with its dot. The output stands beside the input.
pub fn auto_output_path(file_stem: Option<&str>, output_ext_with_dot: &str) -> (new_file_name: String)
    ensures
        new_file_name@ == output_name(
            match file_stem {
                Some(stem) => Some(stem@),
                None => None,
            },
            output_ext_with_dot@,
        ),
{
    let mut new_file_name = match file_stem {
        Some(stem) => stem.to_owned(),
        None => "output".to_owned(),
    };
    new_file_name.append("_converted");
    new_file_name.append(output_ext_with_dot);
    new_file_name
}

} // verus!
