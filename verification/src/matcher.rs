//! The tag grammars of the three formats, as regular expressions, and the
//! matching itself, which the `regex` crate does.
//!
//! A match is handed out as the byte spans of its capture groups in the
//! UTF-8 form of the searched text, as the crate reports them. What a span
//! holds is cut out of the text here.

use crate::error::ConversionError;
use regex::Regex;
use vstd::prelude::*;
use vstd::string::*;
use vstd::utf8::*;

verus! {

/// A compiled regular expression of the `regex` crate, carried through as
/// it is.
#[verifier::external_type_specification]
#[verifier::external_body]
pub struct ExRegex(regex::Regex);

/// The refusal of a pattern by the `regex` crate, carried through as it is.
#[verifier::external_type_specification]
#[verifier::external_body]
pub struct ExRegexError(regex::Error);

/// An ASS dialogue line: layer, start, end, style, name, three margins,
/// effect, text.
pub const DIALOGUE_PATTERN: &'static str =
    r"^Dialogue:\s*[^,]+,(?P<start_time>\d+:\d+:\d+\.\d+),(?P<end_time>\d+:\d+:\d+\.\d+),(?P<style>[^,]*),(?P<name>[^,]*),[^,]*,[^,]*,[^,]*,[^,]*,(?P<text>.*)";

/// A karaoke tag, `{\kN}` or `{\kfN}`, and the text up to the next tag.
pub const K_TAG_PATTERN: &'static str = r"\{\\k[f]?(\d+)\}([^\\{]*)";

/// The header of a QRC line, `[start,duration]`.
pub const QRC_TIMESTAMP_PATTERN: &'static str = r"\[(\d+),(\d+)\]";

/// The time of one word in a QRC or LYS line, `(start,duration)`.
pub const WORD_TIME_TAG_PATTERN: &'static str = r"\((?P<start>\d+),(?P<duration>\d+)\)";

/// The property of a LYS line, `[N]`, and what follows it.
pub const LYS_PROPERTY_PATTERN: &'static str = r"\[(\d+)\](.*)";

/// An ASS comment that carries metadata.
pub const META_COMMENT_PATTERN: &'static str =
    r"^Comment:\s*\d+,0:00:00\.00,0:00:00\.00,meta,,0,0,0,,(.*)";

/// The language tag in the name of a translation line.
pub const LANG_TAG_PATTERN: &'static str = r"^x-lang:(?P<lang_code>.+)$";

/// Any override block of ASS, `{...}`.
pub const ASS_TAG_PATTERN: &'static str = r"\{[^}]*\}";

/// The capture groups of one match: for each group of the pattern, the span
/// of bytes it took, if it took part. The first stands for the whole match.
pub type Groups = Vec<Option<(usize, usize)>>;

/// The pattern text that a compiled expression was made from
/// (`Regex::as_str`).
pub uninterp spec fn regex_source(re: Regex) -> Seq<char>;

/// Whether the regex engine accepts a pattern (`Regex::new` gives an
/// expression for it, with the limits it sets itself).
pub uninterp spec fn regex_accepts(pattern: Seq<char>) -> bool;

/// The groups of the leftmost match of `re` in `text` (`Regex::captures`).
pub uninterp spec fn regex_captures(re: Regex, text: Seq<char>) -> Option<Seq<Option<(usize, usize)>>>;

/// The groups of the successive matches of `re` in `text`
/// (`Regex::captures_iter`).
pub uninterp spec fn regex_captures_iter(re: Regex, text: Seq<char>) -> Seq<
    Seq<Option<(usize, usize)>>,
>;

/// A span lies inside the UTF-8 form of the text and cuts no character.
pub open spec fn span_fits(span: (usize, usize), text: Seq<char>) -> bool {
    &&& span.0 <= span.1 <= encode_utf8(text).len()
    &&& is_char_boundary(encode_utf8(text), span.0 as int)
    &&& is_char_boundary(encode_utf8(text), span.1 as int)
}

/// The groups of a match: the whole match is there, and every span fits.
pub open spec fn groups_fit(groups: Seq<Option<(usize, usize)>>, text: Seq<char>) -> bool {
    &&& groups.len() > 0
    &&& groups[0] is Some
    &&& forall|i: int|
        0 <= i < groups.len() ==> ((#[trigger] groups[i]) matches Some(span) ==> span_fits(
            span,
            text,
        ))
}

/// Successive matches: each fits, and none begins before the one before it
/// has ended.
pub open spec fn matches_fit(found: Seq<Seq<Option<(usize, usize)>>>, text: Seq<char>) -> bool {
    &&& forall|i: int| 0 <= i < found.len() ==> groups_fit(#[trigger] found[i], text)
    &&& forall|i: int, j: int|
        0 <= i < j < found.len() ==> (#[trigger] found[i])[0].unwrap().1 <= (#[trigger] found[j])[0].unwrap().0
}

/// The spans of matches held in vectors.
pub open spec fn spans_of(found: Seq<Groups>) -> Seq<Seq<Option<(usize, usize)>>> {
    found.map_values(|groups: Groups| groups@)
}

/// The characters whose UTF-8 form takes the bytes from `start` up to `end`
/// in that of `text`.
pub open spec fn span_text(text: Seq<char>, start: int, end: int) -> Seq<char> {
    decode_utf8(encode_utf8(text).subrange(start, end))
}

/// What group `i` of a match took of `text`; nothing where the match has no
/// such group or the group took no part.
pub open spec fn group_text(text: Seq<char>, groups: Seq<Option<(usize, usize)>>, i: int) -> Seq<
    char,
> {
    if 0 <= i < groups.len() {
        match groups[i] {
            Some(span) => span_text(text, span.0 as int, span.1 as int),
            None => Seq::empty(),
        }
    } else {
        Seq::empty()
    }
}

/// What is left of `bytes` from `from` on when the whole of each match is
/// cut out.
pub open spec fn bytes_between(
    bytes: Seq<u8>,
    found: Seq<Seq<Option<(usize, usize)>>>,
    from: int,
) -> Seq<u8>
    decreases found.len(),
{
    if found.len() == 0 {
        bytes.subrange(from, bytes.len() as int)
    } else {
        let span = found[0][0].unwrap();
        bytes.subrange(from, span.0 as int) + bytes_between(
            bytes,
            found.drop_first(),
            span.1 as int,
        )
    }
}

/// `text` without what the matches `found` took of it.
pub open spec fn text_without(text: Seq<char>, found: Seq<Seq<Option<(usize, usize)>>>) -> Seq<
    char,
> {
    decode_utf8(bytes_between(encode_utf8(text), found, 0))
}

/// `Regex::new`: compiles `pattern`, or says why it cannot. Whether it can
/// depends on the pattern alone. A compiled expression gives back the text
/// it was made from.
#[verifier::external_body]
pub(crate) fn compile(pattern: &str) -> (made: Result<Regex, regex::Error>)
    ensures
        made is Ok == regex_accepts(pattern@),
        made matches Ok(re) ==> regex_source(re) == pattern@,
{
    Regex::new(pattern)
}

/// `Regex::captures`: the leftmost match of `re` in `text`, as the byte
/// spans of its groups. The crate documents that a match always holds its
/// group 0, that a span's start is not behind its end, and that both fall
/// on character boundaries of the searched text.
#[verifier::external_body]
pub(crate) fn captures(re: &Regex, text: &str) -> (found: Option<Groups>)
    ensures
        match found {
            Some(groups) => regex_captures(*re, text@) == Some(groups@) && groups_fit(
                groups@,
                text@,
            ),
            None => regex_captures(*re, text@) is None,
        },
{
    re.captures(text).map(|c| c.iter().map(|g| g.map(|m| (m.start(), m.end()))).collect())
}

/// `Regex::captures_iter`: the successive non-overlapping matches of `re`
/// in `text`, each as the byte spans of its groups, in the order in which
/// they stand in the text. Of each match holds what holds of the one that
/// `Regex::captures` gives, and none begins before the one in front of it
/// has ended.
#[verifier::external_body]
pub(crate) fn captures_iter(re: &Regex, text: &str) -> (found: Vec<Groups>)
    ensures
        spans_of(found@) == regex_captures_iter(*re, text@),
        matches_fit(spans_of(found@), text@),
{
    re.captures_iter(text).map(
        |c| c.iter().map(|g| g.map(|m| (m.start(), m.end()))).collect(),
    ).collect()
}

/// `Regex::replace_all` with an empty replacement: `text` with every match
/// of `re` cut out. The matches are the successive non-overlapping ones, the
/// same that `Regex::captures_iter` goes through.
#[verifier::external_body]
pub(crate) fn remove_all(re: &Regex, text: &str) -> (out: String)
    ensures
        out@ == text_without(text@, regex_captures_iter(*re, text@)),
{
    re.replace_all(text, "").into_owned()
}

/// The part of `text` that the span from `start` to `end` takes.
pub(crate) fn span_str<'a>(text: &'a str, start: usize, end: usize) -> (part: &'a str)
    requires
        span_fits((start, end), text@),
    ensures
        part@ == span_text(text@, start as int, end as int),
{
    let ghost bytes = encode_utf8(text@);
    let (head, _) = text.split_at(end);
    proof {
        encode_utf8_valid_utf8(text@);
        encode_utf8_valid_utf8(head@);
        if start < end {
            is_char_boundary_iff_not_is_continuation_byte(bytes, start as int);
            is_char_boundary_iff_not_is_continuation_byte(head.spec_bytes(), start as int);
        } else {
            is_char_boundary_start_end_of_seq(head.spec_bytes());
        }
    }
    let (_, part) = head.split_at(start);
    proof {
        assert(part.spec_bytes() =~= bytes.subrange(start as int, end as int));
        encode_utf8_decode_utf8(part@);
    }
    part
}

/// What group `i` of a match took of `text`.
pub(crate) fn group_str<'a>(text: &'a str, groups: &Groups, i: usize) -> (part: &'a str)
    requires
        groups_fit(groups@, text@),
    ensures
        part@ == group_text(text@, groups@, i as int),
{
    if i < groups.len() {
        match groups[i] {
            Some((start, end)) => {
                return span_str(text, start, end);
            },
            None => {},
        }
    }
    proof {
        reveal_strlit("");
    }
    assert(""@ =~= Seq::<char>::empty());
    ""
}

/// Compiles a pattern. There is an expression exactly where the regex
/// engine accepts the pattern; its refusal is the error.
pub fn compile_pattern(pattern: &str) -> (made: Result<Regex, ConversionError>)
    ensures
        made is Ok == regex_accepts(pattern@),
        match made {
            Ok(re) => regex_source(re) == pattern@,
            Err(e) => e is Regex,
        },
{
    match compile(pattern) {
        Ok(re) => Ok(re),
        Err(e) => Err(ConversionError::Regex(e)),
    }
}

/// Whether the regex engine accepts every pattern of the grammar.
pub open spec fn grammar_accepted() -> bool {
    &&& regex_accepts(DIALOGUE_PATTERN@)
    &&& regex_accepts(K_TAG_PATTERN@)
    &&& regex_accepts(QRC_TIMESTAMP_PATTERN@)
    &&& regex_accepts(WORD_TIME_TAG_PATTERN@)
    &&& regex_accepts(LYS_PROPERTY_PATTERN@)
    &&& regex_accepts(META_COMMENT_PATTERN@)
    &&& regex_accepts(LANG_TAG_PATTERN@)
    &&& regex_accepts(ASS_TAG_PATTERN@)
}

/// The compiled patterns of the grammar.
#[derive(Debug)]
pub struct Matchers {
    pub dialogue: Regex,
    pub k_tag: Regex,
    pub qrc_timestamp: Regex,
    pub word_time_tag: Regex,
    pub lys_property: Regex,
    pub meta_comment: Regex,
    pub lang_tag: Regex,
    pub ass_tag: Regex,
}

impl Matchers {
    /// Each expression was made from the pattern of its name: these are the
    /// matchers of the grammar, which every function that matches asks for.
    pub open spec fn wf(&self) -> bool {
        &&& regex_source(self.dialogue) == DIALOGUE_PATTERN@
        &&& regex_source(self.k_tag) == K_TAG_PATTERN@
        &&& regex_source(self.qrc_timestamp) == QRC_TIMESTAMP_PATTERN@
        &&& regex_source(self.word_time_tag) == WORD_TIME_TAG_PATTERN@
        &&& regex_source(self.lys_property) == LYS_PROPERTY_PATTERN@
        &&& regex_source(self.meta_comment) == META_COMMENT_PATTERN@
        &&& regex_source(self.lang_tag) == LANG_TAG_PATTERN@
        &&& regex_source(self.ass_tag) == ASS_TAG_PATTERN@
    }

    /// Compiles the patterns of the grammar. There are matchers exactly where
    /// the regex engine accepts every pattern; else the refusal of the first
    /// that it does not accept is the error.
    pub fn new() -> (made: Result<Matchers, ConversionError>)
        ensures
            made is Ok == grammar_accepted(),
            match made {
                Ok(m) => m.wf(),
                Err(e) => e is Regex,
            },
    {
        let dialogue = match compile_pattern(DIALOGUE_PATTERN) {
            Ok(re) => re,
            Err(e) => {
                return Err(e);
            },
        };
        let k_tag = match compile_pattern(K_TAG_PATTERN) {
            Ok(re) => re,
            Err(e) => {
                return Err(e);
            },
        };
        let qrc_timestamp = match compile_pattern(QRC_TIMESTAMP_PATTERN) {
            Ok(re) => re,
            Err(e) => {
                return Err(e);
            },
        };
        let word_time_tag = match compile_pattern(WORD_TIME_TAG_PATTERN) {
            Ok(re) => re,
            Err(e) => {
                return Err(e);
            },
        };
        let lys_property = match compile_pattern(LYS_PROPERTY_PATTERN) {
            Ok(re) => re,
            Err(e) => {
                return Err(e);
            },
        };
        let meta_comment = match compile_pattern(META_COMMENT_PATTERN) {
            Ok(re) => re,
            Err(e) => {
                return Err(e);
            },
        };
        let lang_tag = match compile_pattern(LANG_TAG_PATTERN) {
            Ok(re) => re,
            Err(e) => {
                return Err(e);
            },
        };
        let ass_tag = match compile_pattern(ASS_TAG_PATTERN) {
            Ok(re) => re,
            Err(e) => {
                return Err(e);
            },
        };
        Ok(
            Matchers {
                dialogue,
                k_tag,
                qrc_timestamp,
                word_time_tag,
                lys_property,
                meta_comment,
                lang_tag,
                ass_tag,
            },
        )
    }
}

} // verus!
