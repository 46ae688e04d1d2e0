//! The four conversions, each from the lines of one file to the lines of
//! another and a flag that says whether a line called for a warning.

use crate::ass_reader::{
    ass_events_warn, ass_metadata, ass_records, lines_view, read_events, records_view,
};
use crate::dialogue::{auxiliary_style, is_auxiliary_style, DialogueView};
use crate::emit::{lys_line, lys_line_text, qrc_line, qrc_line_text};
use crate::matcher::{
    captures, captures_iter, group_str, group_text, regex_captures, regex_captures_iter, span_str,
    span_text, Matchers,
};
use crate::number::{parse_number, parsed_number};
use crate::rebuild::{
    read_tokens, rebuild_text, rebuilt_text, remove_zero_tags, saturating, saturating_sum,
    token_end, tokens_view, without_zero_tags, words_of, words_view, TokenView, WordToken,
};
use crate::role::{
    calculate_lys_property, category_of, lemma_lys_properties_prefix, lemma_lys_property_at,
    lys_properties, lys_property, previous_category, AssNameCategory, LYS_PROPERTY_BACK_LEFT,
    LYS_PROPERTY_BACK_RIGHT, LYS_PROPERTY_BACK_UNSET, LYS_PROPERTY_LEFT, LYS_PROPERTY_NO_BACK_LEFT,
    LYS_PROPERTY_NO_BACK_RIGHT, LYS_PROPERTY_RIGHT, LYS_PROPERTY_UNSET,
};
use crate::text::{chars_of, text_option, trim, trimmed};
use crate::time::{ass_time_text, milliseconds_to_time};
use vstd::prelude::*;
use vstd::string::*;
use vstd::utf8::*;

verus! {

/// The outcome of a conversion.
#[derive(Debug, Clone, PartialEq, Eq)]
pub struct Conversion {
    /// The lines of the output, in order.
    pub lines: Vec<String>,
    /// Whether a line of the input called for a warning.
    pub warned: bool,
}

/// The QRC line of a record.
pub open spec fn qrc_of_record() -> spec_fn(DialogueView) -> Seq<char> {
    |d: DialogueView| qrc_line_text(d)
}

/// The lines of the QRC file for a file of ASS: the metadata, then one line
/// for each dialogue record.
pub open spec fn ass_to_qrc_lines(m: Matchers, lines: Seq<Seq<char>>) -> Seq<Seq<char>> {
    ass_metadata(m, lines) + ass_records(m, lines).map_values(qrc_of_record())
}

/// The record before the last of `records`, if there is one.
pub open spec fn record_before_last(records: Seq<DialogueView>) -> Option<DialogueView> {
    if records.len() >= 2 {
        Some(records[records.len() - 2])
    } else {
        None
    }
}

/// The property that was last given to a line when `records` have been
/// gone through: lines of an auxiliary style are given none.
pub open spec fn last_property(records: Seq<DialogueView>) -> usize
    decreases records.len(),
{
    if records.len() == 0 {
        LYS_PROPERTY_UNSET
    } else if is_auxiliary_style(records.last().style) {
        last_property(records.drop_last())
    } else {
        lys_property(
            category_of(records.last().name).0,
            previous_category(record_before_last(records)),
            last_property(records.drop_last()),
        )
    }
}

/// The LYS lines of `records`: one for each record that is of no auxiliary
/// style, with the property that its role tag, the role tag of the record
/// before it and the property given last decide.
pub open spec fn lys_lines(records: Seq<DialogueView>) -> Seq<Seq<char>>
    decreases records.len(),
{
    if records.len() == 0 {
        Seq::empty()
    } else if is_auxiliary_style(records.last().style) {
        lys_lines(records.drop_last())
    } else {
        lys_lines(records.drop_last()).push(lys_line_text(last_property(records), records.last()))
    }
}

/// Whether the role tag of a record calls for a warning.
pub open spec fn role_warns(d: DialogueView) -> bool {
    !is_auxiliary_style(d.style) && category_of(d.name).1
}

/// Whether a role tag among `records` calls for a warning.
pub open spec fn roles_warn(records: Seq<DialogueView>) -> bool {
    exists|i: int| 0 <= i < records.len() && role_warns(#[trigger] records[i])
}

/// The categories of the role tags of records.
pub open spec fn categories_of(records: Seq<DialogueView>) -> Seq<AssNameCategory> {
    records.map_values(|d: DialogueView| category_of(d.name).0)
}

/// Background inheritance. A background line that stands behind a
/// background line is given the property that was last given before it:
/// every line of a run of background lines has the property of the first.
pub proof fn lemma_background_keeps_last_property(records: Seq<DialogueView>)
    requires
        records.len() >= 2,
        !is_auxiliary_style(records.last().style),
        category_of(records.last().name).0 == AssNameCategory::Background,
        category_of(records[records.len() - 2].name).0 == AssNameCategory::Background,
    ensures
        last_property(records) == last_property(records.drop_last()),
{
}

/// Two background lines behind a line of the primary singer are both given
/// the property background-left, the same that a single background line
/// behind that line is given.
pub proof fn lemma_background_behind_left(records: Seq<DialogueView>)
    requires
        records.len() >= 3,
        !is_auxiliary_style(records[records.len() - 1].style),
        !is_auxiliary_style(records[records.len() - 2].style),
        category_of(records[records.len() - 1].name).0 == AssNameCategory::Background,
        category_of(records[records.len() - 2].name).0 == AssNameCategory::Background,
        category_of(records[records.len() - 3].name).0 == AssNameCategory::LeftV1,
    ensures
        last_property(records.drop_last()) == LYS_PROPERTY_BACK_LEFT,
        last_property(records) == LYS_PROPERTY_BACK_LEFT,
{
    let pair = records.drop_last();
    assert(pair.last() == records[records.len() - 2]);
    assert(record_before_last(pair) == Some(records[records.len() - 3]));
    assert(last_property(pair) == LYS_PROPERTY_BACK_LEFT);
    lemma_background_keeps_last_property(records);
}

/// Where no record is of an auxiliary style, the property given last is
/// the one that the categories of the role tags alone decide.
pub proof fn lemma_properties_of_plain_records(records: Seq<DialogueView>)
    requires
        records.len() > 0,
        forall|i: int| 0 <= i < records.len() ==> !is_auxiliary_style((#[trigger] records[i]).style),
    ensures
        lys_properties(categories_of(records)).len() == records.len(),
        last_property(records) == lys_properties(categories_of(records)).last(),
    decreases records.len(),
{
    let before = records.drop_last();
    let categories = categories_of(records);
    assert(categories.drop_last() =~= categories_of(before));
    lemma_lys_property_at(categories, categories.len() - 1);
    lemma_lys_properties_prefix(categories, categories.len() - 1);
    assert(categories.take(categories.len() - 1) =~= categories.drop_last());
    if before.len() > 0 {
        assert forall|i: int| 0 <= i < before.len() implies !is_auxiliary_style(
            (#[trigger] before[i]).style,
        ) by {
            assert(before[i] == records[i]);
        }
        lemma_properties_of_plain_records(before);
        assert(lys_properties(categories)[categories.len() - 2] == lys_properties(
            categories_of(before),
        ).last());
    }
}

/// The lines of the LYS file for a file of ASS: the metadata, then the LYS
/// lines of its dialogue records.
pub open spec fn ass_to_lys_lines(m: Matchers, lines: Seq<Seq<char>>) -> Seq<Seq<char>> {
    ass_metadata(m, lines) + lys_lines(ass_records(m, lines))
}

/// The script information, the one style and the column header that every
/// written file of ASS begins with.
pub open spec fn ass_header() -> Seq<Seq<char>> {
    seq![
        "[Script Info]"@,
        "PlayResX: 1920"@,
        "PlayResY: 1440"@,
        ""@,
        "[V4+ Styles]"@,
        "Format: Name, Fontname, Fontsize, PrimaryColour, SecondaryColour, OutlineColour, BackColour, Bold, Italic, Underline, StrikeOut, ScaleX, ScaleY, Spacing, Angle, BorderStyle, Outline, Shadow, Alignment, MarginL, MarginR, MarginV, Encoding"@,
        "Style: Default,微软雅黑,100,&H00FFFFFF,&H004E503F,&H00000000,&H00000000,0,0,0,0,100,100,0,0,1,1.5,0.5,2,10,10,60,1"@,
        ""@,
        "[Events]"@,
        "Format: Layer, Start, End, Style, Name, MarginL, MarginR, MarginV, Effect, Text"@,
    ]
}

/// A dialogue line of ASS in the default style.
pub open spec fn ass_dialogue_text(start: usize, end: usize, name: Seq<char>, text: Seq<char>) -> Seq<
    char,
> {
    "Dialogue: 0,"@ + ass_time_text(start as nat) + seq![','] + ass_time_text(end as nat)
        + ",Default,"@ + name + ",0,0,0,,"@ + text
}

/// What a line of QRC becomes, from the texts of the two numbers of its
/// header and the timed words behind the header, and whether it calls for a
/// warning. A number of the header that cannot be read, or words of which
/// a number could not be read, give nothing, with a warning. Else the line
/// lasts from the start of the header for its duration, the text is
/// reconstructed from the words, every tag of zero that the words brought
/// with them in their texts is cut out of it, and there is a dialogue line
/// if what is left is not empty.
pub open spec fn qrc_line_from(
    start: Seq<char>,
    duration: Seq<char>,
    words: Option<(Seq<TokenView>, Seq<char>)>,
) -> (Option<Seq<char>>, bool) {
    match (parsed_number(start), parsed_number(duration), words) {
        (Ok(start_ms), Ok(duration_ms), Some((tokens, trailing))) => {
            let end_ms = saturating_sum(start_ms, duration_ms);
            let text = without_zero_tags(rebuilt_text(tokens, start_ms, end_ms, trailing));
            if text.len() == 0 {
                (None, false)
            } else {
                (Some(ass_dialogue_text(start_ms, end_ms, Seq::empty(), text)), false)
            }
        },
        _ => (None, true),
    }
}

/// What a line of QRC becomes, and whether it calls for a warning. A line
/// in which the header pattern finds nothing gives nothing. Else the header
/// is the first that the pattern finds, and the words are those that the
/// word-time pattern finds behind it.
#[verifier::opaque]
pub open spec fn qrc_line_to_ass(m: Matchers, line: Seq<char>) -> (Option<Seq<char>>, bool) {
    match regex_captures(m.qrc_timestamp, line) {
        None => (None, false),
        Some(groups) => {
            let content = span_text(
                line,
                groups[0].unwrap().1 as int,
                encode_utf8(line).len() as int,
            );
            qrc_line_from(
                group_text(line, groups, 1),
                group_text(line, groups, 2),
                words_of(content, regex_captures_iter(m.word_time_tag, content)),
            )
        },
    }
}

/// The dialogue line that a line of QRC becomes, if it becomes one.
pub open spec fn ass_of_qrc_line(m: Matchers) -> spec_fn(Seq<char>) -> Option<Seq<char>> {
    |line: Seq<char>| qrc_line_to_ass(m, line).0
}

/// The lines of the file of ASS for a file of QRC.
pub open spec fn qrc_to_ass_lines(m: Matchers, lines: Seq<Seq<char>>) -> Seq<Seq<char>> {
    ass_header() + lines.filter_map(ass_of_qrc_line(m))
}

/// Whether a line of a file of QRC calls for a warning.
pub open spec fn qrc_lines_warn(m: Matchers, lines: Seq<Seq<char>>) -> bool {
    exists|i: int| 0 <= i < lines.len() && qrc_line_to_ass(m, #[trigger] lines[i]).1
}

/// The earliest start among `tokens`; the largest `usize` where there are
/// none.
pub open spec fn first_start(tokens: Seq<TokenView>) -> usize
    decreases tokens.len(),
{
    if tokens.len() == 0 {
        usize::MAX
    } else {
        let before = first_start(tokens.drop_last());
        if tokens.last().start_ms < before {
            tokens.last().start_ms
        } else {
            before
        }
    }
}

/// The latest end among `tokens`; zero where there are none.
pub open spec fn last_end(tokens: Seq<TokenView>) -> usize
    decreases tokens.len(),
{
    if tokens.len() == 0 {
        0
    } else {
        let before = last_end(tokens.drop_last());
        if token_end(tokens.last()) > before {
            token_end(tokens.last())
        } else {
            before
        }
    }
}

/// The role tag that stands for a LYS property.
pub open spec fn role_name(property: usize) -> Seq<char> {
    if property == LYS_PROPERTY_LEFT || property == LYS_PROPERTY_NO_BACK_LEFT || property
        == LYS_PROPERTY_BACK_LEFT {
        "左"@
    } else if property == LYS_PROPERTY_RIGHT || property == LYS_PROPERTY_NO_BACK_RIGHT || property
        == LYS_PROPERTY_BACK_RIGHT {
        "右"@
    } else if property == LYS_PROPERTY_BACK_UNSET {
        "背"@
    } else {
        ""@
    }
}

/// What a line of LYS becomes, from the text of its property and the timed
/// words behind the property, and whether it calls for a warning. Words of
/// which a number could not be read, or words that all begin at the largest
/// `usize`, give nothing, with a warning. No words at all give nothing.
/// Else the line lasts from the earliest start to the latest end of its
/// words, the text is reconstructed from them, and there is a dialogue line
/// if that text is not empty; its role tag stands for the property. A
/// property that cannot be read counts as `LYS_PROPERTY_UNSET`.
pub open spec fn lys_line_from(property: Seq<char>, words: Option<(Seq<TokenView>, Seq<char>)>) -> (
    Option<Seq<char>>,
    bool,
) {
    match words {
        None => (None, true),
        Some((tokens, trailing)) => {
            let start_ms = first_start(tokens);
            let end_ms = last_end(tokens);
            let text = rebuilt_text(tokens, start_ms, end_ms, trailing);
            if tokens.len() == 0 {
                (None, false)
            } else if start_ms == usize::MAX {
                (None, true)
            } else if text.len() == 0 {
                (None, false)
            } else {
                (
                    Some(
                        ass_dialogue_text(
                            start_ms,
                            end_ms,
                            role_name(
                                match parsed_number(property) {
                                    Ok(property) => property,
                                    Err(_) => LYS_PROPERTY_UNSET,
                                },
                            ),
                            text,
                        ),
                    ),
                    false,
                )
            }
        },
    }
}

/// Whether a line that has no property calls for a warning: it does unless
/// it is blank or begins with `[`.
pub open spec fn is_stray_line(line: Seq<char>) -> bool {
    trim(line).len() > 0 && !(line.len() > 0 && line[0] == '[')
}

/// What a line of LYS becomes, and whether it calls for a warning. The
/// property is the first that the property pattern finds in the line, and
/// the words are those that the word-time pattern finds behind it.
#[verifier::opaque]
pub open spec fn lys_line_to_ass(m: Matchers, line: Seq<char>) -> (Option<Seq<char>>, bool) {
    match regex_captures(m.lys_property, line) {
        None => (None, is_stray_line(line)),
        Some(groups) => {
            let content = group_text(line, groups, 2);
            lys_line_from(
                group_text(line, groups, 1),
                words_of(content, regex_captures_iter(m.word_time_tag, content)),
            )
        },
    }
}

/// The dialogue line that a line of LYS becomes, if it becomes one.
pub open spec fn ass_of_lys_line(m: Matchers) -> spec_fn(Seq<char>) -> Option<Seq<char>> {
    |line: Seq<char>| lys_line_to_ass(m, line).0
}

/// The lines of the file of ASS for a file of LYS.
pub open spec fn lys_to_ass_lines(m: Matchers, lines: Seq<Seq<char>>) -> Seq<Seq<char>> {
    ass_header() + lines.filter_map(ass_of_lys_line(m))
}

/// Whether a line of a file of LYS calls for a warning.
pub open spec fn lys_lines_warn(m: Matchers, lines: Seq<Seq<char>>) -> bool {
    exists|i: int| 0 <= i < lines.len() && lys_line_to_ass(m, #[trigger] lines[i]).1
}

/// Converts the lines of a file of ASS to those of a file of QRC.
pub fn convert_ass_to_qrc(m: &Matchers, lines: &Vec<String>) -> (out: Conversion)
    requires
        m.wf(),
    ensures
        lines_view(out.lines@) == ass_to_qrc_lines(*m, lines_view(lines@)),
        out.warned == ass_events_warn(*m, lines_view(lines@)),
{
    let read = read_events(m, lines);
    let ghost metadata = lines_view(read.metadata@);
    let ghost records = records_view(read.records@);
    let mut out = read.metadata;
    let mut i: usize = 0;
    assert(out@ == read.metadata@);
    assert(records.take(0).map_values(qrc_of_record()) =~= Seq::empty());
    assert(lines_view(out@) =~= metadata + records.take(0).map_values(qrc_of_record()));
    while i < read.records.len()
        invariant
            i <= read.records.len(),
            records == records_view(read.records@),
            forall|j: int| 0 <= j < read.records@.len() ==> (#[trigger] read.records@[j])@.wf(),
            lines_view(out@) == metadata + records.take(i as int).map_values(qrc_of_record()),
        decreases read.records.len() - i,
    {
        let ghost before = lines_view(out@);
        let line = qrc_line(&read.records[i]);
        out.push(line);
        assert(lines_view(out@) =~= before.push(line@));
        assert(records.take(i + 1).map_values(qrc_of_record()) =~= records.take(
            i as int,
        ).map_values(qrc_of_record()).push(qrc_line_text(records[i as int])));
        i += 1;
    }
    assert(records.take(i as int) =~= records);
    Conversion { lines: out, warned: read.warned }
}

/// Converts the lines of a file of ASS to those of a file of LYS. The
/// records are all read first: the property of a line depends on the line
/// before it.
pub fn convert_ass_to_lys(m: &Matchers, lines: &Vec<String>) -> (out: Conversion)
    requires
        m.wf(),
    ensures
        lines_view(out.lines@) == ass_to_lys_lines(*m, lines_view(lines@)),
        out.warned == (ass_events_warn(*m, lines_view(lines@)) || roles_warn(
            ass_records(*m, lines_view(lines@)),
        )),
{
    let read = read_events(m, lines);
    let ghost metadata = lines_view(read.metadata@);
    let ghost records = records_view(read.records@);
    let mut out = read.metadata;
    let mut warned = false;
    let mut last_calculated_property = LYS_PROPERTY_UNSET;
    let mut i: usize = 0;
    assert(records.take(0) =~= Seq::empty());
    assert(lines_view(out@) =~= metadata + lys_lines(records.take(0)));
    while i < read.records.len()
        invariant
            i <= read.records.len(),
            records == records_view(read.records@),
            forall|j: int| 0 <= j < read.records@.len() ==> (#[trigger] read.records@[j])@.wf(),
            lines_view(out@) == metadata + lys_lines(records.take(i as int)),
            last_calculated_property == last_property(records.take(i as int)),
            warned == (exists|j: int| 0 <= j < i && role_warns(#[trigger] records[j])),
        decreases read.records.len() - i,
    {
        let ghost before = lines_view(out@);
        let ghost next = records.take(i + 1);
        let ghost old_warned = warned;
        assert(next.drop_last() =~= records.take(i as int));
        assert(next.last() == records[i as int]);
        let current_dialogue = &read.records[i];
        assert(current_dialogue@ == records[i as int]);
        if !auxiliary_style(current_dialogue.style.as_str()) {
            let previous_dialogue = if i > 0 {
                Some(&read.records[i - 1])
            } else {
                None
            };
            assert(record_before_last(next) == (match previous_dialogue {
                Some(d) => Some(d@),
                None => None,
            })) by {
                if i > 0 {
                    assert(next[i - 1] == records[i - 1]);
                }
            }
            let (property, calc_warned) = calculate_lys_property(
                current_dialogue,
                previous_dialogue,
                last_calculated_property,
            );
            if calc_warned {
                warned = true;
            }
            last_calculated_property = property;
            let line = lys_line(property, current_dialogue);
            out.push(line);
            assert(lines_view(out@) =~= before.push(line@));
        }
        assert(warned == (old_warned || role_warns(records[i as int])));
        i += 1;
        assert(lines_view(out@) =~= metadata + lys_lines(next));
    }
    assert(records.take(i as int) =~= records);
    Conversion { lines: out, warned: read.warned || warned }
}

/// The lines that a written file of ASS begins with.
pub fn write_ass_header() -> (lines: Vec<String>)
    ensures
        lines_view(lines@) == ass_header(),
{
    let mut lines: Vec<String> = Vec::new();
    lines.push("[Script Info]".to_owned());
    lines.push("PlayResX: 1920".to_owned());
    lines.push("PlayResY: 1440".to_owned());
    lines.push("".to_owned());
    lines.push("[V4+ Styles]".to_owned());
    lines.push(
        "Format: Name, Fontname, Fontsize, PrimaryColour, SecondaryColour, OutlineColour, BackColour, Bold, Italic, Underline, StrikeOut, ScaleX, ScaleY, Spacing, Angle, BorderStyle, Outline, Shadow, Alignment, MarginL, MarginR, MarginV, Encoding".to_owned(),
    );
    lines.push(
        "Style: Default,微软雅黑,100,&H00FFFFFF,&H004E503F,&H00000000,&H00000000,0,0,0,0,100,100,0,0,1,1.5,0.5,2,10,10,60,1".to_owned(),
    );
    lines.push("".to_owned());
    lines.push("[Events]".to_owned());
    lines.push(
        "Format: Layer, Start, End, Style, Name, MarginL, MarginR, MarginV, Effect, Text".to_owned(),
    );
    assert(lines_view(lines@) =~= ass_header());
    lines
}

/// Writes a dialogue line of ASS in the default style.
pub fn ass_dialogue_line(start: usize, end: usize, name: &str, text: &str) -> (line: String)
    ensures
        line@ == ass_dialogue_text(start, end, name@, text@),
{
    let mut line = "Dialogue: 0,".to_owned();
    line.append(milliseconds_to_time(start).as_str());
    line.push(',');
    line.append(milliseconds_to_time(end).as_str());
    line.append(",Default,");
    line.append(name);
    line.append(",0,0,0,,");
    line.append(text);
    assert(line@ =~= ass_dialogue_text(start, end, name@, text@));
    line
}

/// Makes the dialogue line for a line of QRC from the texts of the two
/// numbers of its header and the timed words behind the header, as far as
/// they could be read.
pub fn qrc_line_from_parts(start: &str, duration: &str, words: Option<(Vec<WordToken>, &str)>) -> (r: (
    Option<String>,
    bool,
))
    ensures
        (text_option(r.0), r.1) == qrc_line_from(start@, duration@, words_view(words)),
{
    let start_chars = chars_of(start);
    let duration_chars = chars_of(duration);
    let (header_start_ms, header_duration_ms) = match (
        parse_number(start_chars.as_slice()),
        parse_number(duration_chars.as_slice()),
    ) {
        (Ok(start), Ok(duration)) => (start, duration),
        _ => {
            return (None, true);
        },
    };
    let (tokens, trailing) = match words {
        Some(words) => words,
        None => {
            return (None, true);
        },
    };
    let header_end_ms = saturating(header_start_ms, header_duration_ms);
    let ass_text = rebuild_text(header_start_ms, header_end_ms, &tokens, trailing);
    let final_ass_text = remove_zero_tags(ass_text.as_str());
    if final_ass_text.as_str().is_empty() {
        return (None, false);
    }
    proof {
        reveal_strlit("");
    }
    assert(""@ =~= Seq::<char>::empty());
    (Some(ass_dialogue_line(header_start_ms, header_end_ms, "", final_ass_text.as_str())), false)
}

/// Converts one line of QRC.
pub fn convert_qrc_line(m: &Matchers, line: &str) -> (r: (Option<String>, bool))
    requires
        m.wf(),
    ensures
        (text_option(r.0), r.1) == qrc_line_to_ass(*m, line@),
{
    reveal(qrc_line_to_ass);
    let groups = match captures(&m.qrc_timestamp, line) {
        Some(groups) => groups,
        None => {
            return (None, false);
        },
    };
    let header_end = match groups[0] {
        Some(span) => span.1,
        None => 0,
    };
    proof {
        encode_utf8_valid_utf8(line@);
        is_char_boundary_start_end_of_seq(encode_utf8(line@));
    }
    let content_part = span_str(line, header_end, line.as_bytes().len());
    let found = captures_iter(&m.word_time_tag, content_part);
    qrc_line_from_parts(
        group_str(line, &groups, 1),
        group_str(line, &groups, 2),
        read_tokens(content_part, &found),
    )
}

/// Converts the lines of a file of QRC to those of a file of ASS.
pub fn convert_qrc_to_ass(m: &Matchers, lines: &Vec<String>) -> (out: Conversion)
    requires
        m.wf(),
    ensures
        lines_view(out.lines@) == qrc_to_ass_lines(*m, lines_view(lines@)),
        out.warned == qrc_lines_warn(*m, lines_view(lines@)),
{
    let ghost all = lines_view(lines@);
    let mut out = write_ass_header();
    let mut warned = false;
    let mut i: usize = 0;
    assert(all.take(0) =~= Seq::empty());
    assert(lines_view(out@) =~= ass_header() + all.take(0).filter_map(ass_of_qrc_line(*m)));
    while i < lines.len()
        invariant
            m.wf(),
            i <= lines.len(),
            all == lines_view(lines@),
            lines_view(out@) == ass_header() + all.take(i as int).filter_map(ass_of_qrc_line(*m)),
            warned == (exists|j: int| 0 <= j < i && qrc_line_to_ass(*m, #[trigger] all[j]).1),
        decreases lines.len() - i,
    {
        let ghost before = lines_view(out@);
        let ghost old_warned = warned;
        assert(all[i as int] == lines@[i as int]@);
        proof {
            all.lemma_filter_map_take_succ(ass_of_qrc_line(*m), i as int);
        }
        let (converted, line_warned) = convert_qrc_line(m, lines[i].as_str());
        assert(text_option(converted) == ass_of_qrc_line(*m)(all[i as int]));
        match converted {
            Some(line) => {
                out.push(line);
                assert(lines_view(out@) =~= before.push(line@));
            },
            None => {},
        }
        if line_warned {
            warned = true;
        }
        assert(warned == (old_warned || qrc_line_to_ass(*m, all[i as int]).1));
        i += 1;
        assert(lines_view(out@) =~= ass_header() + all.take(i as int).filter_map(
            ass_of_qrc_line(*m),
        ));
    }
    assert(all.take(i as int) =~= all);
    Conversion { lines: out, warned }
}

/// The earliest start and the latest end among `tokens`.
pub fn line_bounds(tokens: &Vec<WordToken>) -> (bounds: (usize, usize))
    ensures
        bounds.0 == first_start(tokens_view(tokens@)),
        bounds.1 == last_end(tokens_view(tokens@)),
{
    let ghost all = tokens_view(tokens@);
    let mut min_start_ms = usize::MAX;
    let mut max_end_ms: usize = 0;
    let mut i: usize = 0;
    assert(all.take(0) =~= Seq::empty());
    while i < tokens.len()
        invariant
            i <= tokens.len(),
            all == tokens_view(tokens@),
            min_start_ms == first_start(all.take(i as int)),
            max_end_ms == last_end(all.take(i as int)),
        decreases tokens.len() - i,
    {
        let ghost next = all.take(i + 1);
        assert(next.drop_last() =~= all.take(i as int));
        assert(next.last() == tokens@[i as int]@);
        if tokens[i].start_ms < min_start_ms {
            min_start_ms = tokens[i].start_ms;
        }
        let current_end_ms = saturating(tokens[i].start_ms, tokens[i].duration_ms);
        if current_end_ms > max_end_ms {
            max_end_ms = current_end_ms;
        }
        i += 1;
    }
    assert(all.take(i as int) =~= all);
    (min_start_ms, max_end_ms)
}

/// The role tag that stands for a LYS property.
pub fn role_name_of(property: usize) -> (name: &'static str)
    ensures
        name@ == role_name(property),
{
    if property == LYS_PROPERTY_LEFT || property == LYS_PROPERTY_NO_BACK_LEFT || property
        == LYS_PROPERTY_BACK_LEFT {
        "左"
    } else if property == LYS_PROPERTY_RIGHT || property == LYS_PROPERTY_NO_BACK_RIGHT || property
        == LYS_PROPERTY_BACK_RIGHT {
        "右"
    } else if property == LYS_PROPERTY_BACK_UNSET {
        "背"
    } else {
        ""
    }
}

/// Whether a line that has no property calls for a warning.
pub fn stray_line(line: &str) -> (warn: bool)
    ensures
        warn == is_stray_line(line@),
{
    let cs = chars_of(line);
    trimmed(cs.as_slice()).len() > 0 && !(cs.len() > 0 && cs[0] == '[')
}

/// Makes the dialogue line for a line of LYS from the text of its property
/// and the timed words behind the property, as far as they could be read.
pub fn lys_line_from_parts(property: &str, words: Option<(Vec<WordToken>, &str)>) -> (r: (
    Option<String>,
    bool,
))
    ensures
        (text_option(r.0), r.1) == lys_line_from(property@, words_view(words)),
{
    let (tokens, trailing) = match words {
        Some(words) => words,
        None => {
            return (None, true);
        },
    };
    if tokens.len() == 0 {
        return (None, false);
    }
    let (min_start_ms, max_end_ms) = line_bounds(&tokens);
    if min_start_ms == usize::MAX {
        return (None, true);
    }
    let final_ass_text = rebuild_text(min_start_ms, max_end_ms, &tokens, trailing);
    if final_ass_text.as_str().is_empty() {
        return (None, false);
    }
    let property_chars = chars_of(property);
    let property = match parse_number(property_chars.as_slice()) {
        Ok(property) => property,
        Err(_) => LYS_PROPERTY_UNSET,
    };
    (
        Some(
            ass_dialogue_line(
                min_start_ms,
                max_end_ms,
                role_name_of(property),
                final_ass_text.as_str(),
            ),
        ),
        false,
    )
}

/// Converts one line of LYS.
pub fn convert_lys_line(m: &Matchers, line: &str) -> (r: (Option<String>, bool))
    requires
        m.wf(),
    ensures
        (text_option(r.0), r.1) == lys_line_to_ass(*m, line@),
{
    reveal(lys_line_to_ass);
    let groups = match captures(&m.lys_property, line) {
        Some(groups) => groups,
        None => {
            return (None, stray_line(line));
        },
    };
    let content = group_str(line, &groups, 2);
    let found = captures_iter(&m.word_time_tag, content);
    lys_line_from_parts(group_str(line, &groups, 1), read_tokens(content, &found))
}

/// Converts the lines of a file of LYS to those of a file of ASS.
pub fn convert_lys_to_ass(m: &Matchers, lines: &Vec<String>) -> (out: Conversion)
    requires
        m.wf(),
    ensures
        lines_view(out.lines@) == lys_to_ass_lines(*m, lines_view(lines@)),
        out.warned == lys_lines_warn(*m, lines_view(lines@)),
{
    let ghost all = lines_view(lines@);
    let mut out = write_ass_header();
    let mut warned = false;
    let mut i: usize = 0;
    assert(all.take(0) =~= Seq::empty());
    assert(lines_view(out@) =~= ass_header() + all.take(0).filter_map(ass_of_lys_line(*m)));
    while i < lines.len()
        invariant
            m.wf(),
            i <= lines.len(),
            all == lines_view(lines@),
            lines_view(out@) == ass_header() + all.take(i as int).filter_map(ass_of_lys_line(*m)),
            warned == (exists|j: int| 0 <= j < i && lys_line_to_ass(*m, #[trigger] all[j]).1),
        decreases lines.len() - i,
    {
        let ghost before = lines_view(out@);
        let ghost old_warned = warned;
        assert(all[i as int] == lines@[i as int]@);
        proof {
            all.lemma_filter_map_take_succ(ass_of_lys_line(*m), i as int);
        }
        let (converted, line_warned) = convert_lys_line(m, lines[i].as_str());
        assert(text_option(converted) == ass_of_lys_line(*m)(all[i as int]));
        match converted {
            Some(line) => {
                out.push(line);
                assert(lines_view(out@) =~= before.push(line@));
            },
            None => {},
        }
        if line_warned {
            warned = true;
        }
        assert(warned == (old_warned || lys_line_to_ass(*m, all[i as int]).1));
        i += 1;
        assert(lines_view(out@) =~= ass_header() + all.take(i as int).filter_map(
            ass_of_lys_line(*m),
        ));
    }
    assert(all.take(i as int) =~= all);
    Conversion { lines: out, warned }
}

} // verus!
