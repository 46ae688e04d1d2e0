//! The metadata extractor: the comment lines of an ASS file that carry a
//! title, the artists, an album or the editor, as tag lines of the output.

use crate::matcher::{captures, group_str, group_text, regex_captures, Matchers};
use crate::text::{
    chars_of, find_char, first_index_of, push_chars, spells, text_option, trim, trimmed,
};
use vstd::prelude::*;
use vstd::slice::*;
use vstd::string::*;

verus! {

/// The short tag that stands for a known key.
pub open spec fn metadata_tag(key: Seq<char>) -> Option<Seq<char>> {
    if key == "musicName"@ {
        Some("ti"@)
    } else if key == "artists"@ {
        Some("ar"@)
    } else if key == "album"@ {
        Some("al"@)
    } else if key == "ttmlAuthorGithubLogin"@ {
        Some("by"@)
    } else {
        None
    }
}

/// The tag line for the text of a metadata comment, `key:value`. The text
/// is cut at its first colon; key and value lose the white space around
/// them. There is a line where the key is known and the value is not empty:
/// `[tag:value]`.
pub open spec fn metadata_line(text: Seq<char>) -> Option<Seq<char>> {
    match first_index_of(text, ':') {
        Some(colon) if 0 <= colon < text.len() => {
            let value = trim(text.skip(colon + 1));
            match metadata_tag(trim(text.take(colon))) {
                Some(tag) if value.len() > 0 => Some(
                    seq!['['] + tag + seq![':'] + value + seq![']'],
                ),
                _ => None,
            }
        },
        _ => None,
    }
}

/// What a line says as a metadata comment: nothing where the comment
/// pattern does not match it; else the tag line of its text, if it has one.
pub open spec fn metadata_of_line(m: Matchers, line: Seq<char>) -> Option<Option<Seq<char>>> {
    match regex_captures(m.meta_comment, line) {
        Some(groups) => Some(metadata_line(group_text(line, groups, 1))),
        None => None,
    }
}

/// The short tag for `key`, if the key is known.
fn tag_for(key: &[char]) -> (tag: Option<&'static str>)
    ensures
        match tag {
            Some(tag) => metadata_tag(key@) == Some(tag@),
            None => metadata_tag(key@) is None,
        },
{
    if spells(key, "musicName") {
        Some("ti")
    } else if spells(key, "artists") {
        Some("ar")
    } else if spells(key, "album") {
        Some("al")
    } else if spells(key, "ttmlAuthorGithubLogin") {
        Some("by")
    } else {
        None
    }
}

/// Turns the text of a metadata comment into a tag line. Unknown keys and
/// empty values give none.
pub fn parse_ass_metadata_text(text: &str) -> (r: Option<String>)
    ensures
        text_option(r) == metadata_line(text@),
{
    let cs = chars_of(text);
    let len = cs.len();
    let colon_pos = match find_char(cs.as_slice(), ':') {
        Some(i) => i,
        None => {
            return None;
        },
    };
    let key = trimmed(slice_subrange(cs.as_slice(), 0, colon_pos));
    let value = trimmed(slice_subrange(cs.as_slice(), colon_pos + 1, len));
    let tag = match tag_for(key) {
        Some(tag) => tag,
        None => {
            return None;
        },
    };
    if value.len() == 0 {
        return None;
    }
    let mut line = String::new();
    line.push('[');
    line.append(tag);
    line.push(':');
    push_chars(&mut line, value);
    line.push(']');
    assert(line@ =~= seq!['['] + tag@ + seq![':'] + value@ + seq![']']);
    Some(line)
}

/// Reads a line as a metadata comment.
pub fn read_metadata_comment(m: &Matchers, line: &str) -> (r: Option<Option<String>>)
    requires
        m.wf(),
    ensures
        match r {
            Some(text) => metadata_of_line(*m, line@) == Some(text_option(text)),
            None => metadata_of_line(*m, line@) is None,
        },
{
    match captures(&m.meta_comment, line) {
        Some(groups) => Some(parse_ass_metadata_text(group_str(line, &groups, 1))),
        None => None,
    }
}

} // verus!
