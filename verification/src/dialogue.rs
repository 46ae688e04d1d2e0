//! The dialogue parser: one ASS dialogue line as a record of its times, its
//! style, its role tag and the timed segments of its karaoke tags.

use crate::error::{
    dialogue_error, structure_error, ConversionError, DialogueField, FieldFault, FormatError,
    IntErrorKind,
};
use crate::matcher::{
    captures, captures_iter, group_str, group_text, groups_fit, matches_fit, regex_captures,
    regex_captures_iter, spans_of, Groups, Matchers,
};
use crate::number::{parse_number, parsed_number};
use crate::text::{chars_of, same_ignoring_ascii_case, spells_ignoring_ascii_case, string_of, trim, trimmed};
use crate::time::{parse_time, time_value, K_TAG_MULTIPLIER};
use vstd::prelude::*;
use vstd::string::*;

verus! {

/// One dialogue line of an ASS file.
#[derive(Debug, Clone, PartialEq, Eq)]
pub struct ParsedDialogue {
    /// The number of the line in its file, counted from one.
    pub line_number: usize,
    /// When the line begins, in milliseconds.
    pub start_ms: usize,
    /// When the line ends, in milliseconds.
    pub end_ms: usize,
    /// The role tag, the `Name` field of the line; `None` where it is empty.
    pub name: Option<String>,
    /// The style of the line, without white space around it.
    pub style: String,
    /// The text behind each karaoke tag, with the tag's duration in
    /// milliseconds, in the order of the line.
    pub segments: Vec<(String, usize)>,
    /// The sum of the durations of the segments, in milliseconds.
    pub sum_k_ms: usize,
}

/// What a `ParsedDialogue` holds, as plain values.
pub struct DialogueView {
    pub line_number: usize,
    pub start_ms: usize,
    pub end_ms: usize,
    pub name: Option<Seq<char>>,
    pub style: Seq<char>,
    pub segments: Seq<(Seq<char>, usize)>,
    pub sum_k_ms: usize,
}

/// The segments of a record as plain values.
pub open spec fn segments_view(segments: Seq<(String, usize)>) -> Seq<(Seq<char>, usize)> {
    segments.map_values(|segment: (String, usize)| (segment.0@, segment.1))
}

impl View for ParsedDialogue {
    type V = DialogueView;

    open spec fn view(&self) -> DialogueView {
        DialogueView {
            line_number: self.line_number,
            start_ms: self.start_ms,
            end_ms: self.end_ms,
            name: match self.name {
                Some(name) => Some(name@),
                None => None,
            },
            style: self.style@,
            segments: segments_view(self.segments@),
            sum_k_ms: self.sum_k_ms,
        }
    }
}

/// The sum of the durations of `segments`.
pub open spec fn sum_ms(segments: Seq<(Seq<char>, usize)>) -> nat
    decreases segments.len(),
{
    if segments.len() == 0 {
        0
    } else {
        sum_ms(segments.drop_last()) + segments.last().1 as nat
    }
}

impl DialogueView {
    /// The last segment ends at a time that `usize` holds.
    pub open spec fn fits(self) -> bool {
        self.start_ms + sum_ms(self.segments) <= usize::MAX
    }

    /// The recorded sum is the sum of the segments, and the last segment ends
    /// at a time that `usize` holds.
    pub open spec fn wf(self) -> bool {
        &&& self.sum_k_ms == sum_ms(self.segments)
        &&& self.fits()
    }

    /// How long the line lasts: from its start to its end, and nothing where
    /// the end stands before the start.
    pub open spec fn duration_ms(self) -> nat {
        if self.end_ms >= self.start_ms {
            (self.end_ms - self.start_ms) as nat
        } else {
            0
        }
    }
}

impl ParsedDialogue {
    /// How long the line lasts, in milliseconds: from its start to its end,
    /// and nothing where the end stands before the start.
    pub fn duration_ms(&self) -> (duration: usize)
        ensures
            duration == self@.duration_ms(),
            self.end_ms < self.start_ms ==> duration == 0,
    {
        self.end_ms.saturating_sub(self.start_ms)
    }
}

/// Whether a style marks a line as an auxiliary track, a translation or a
/// romanisation, which carries no karaoke timing.
pub open spec fn is_auxiliary_style(style: Seq<char>) -> bool {
    ||| same_ignoring_ascii_case(style, "roma"@)
    ||| same_ignoring_ascii_case(style, "trans"@)
    ||| same_ignoring_ascii_case(style, "ts"@)
}

/// The segment of one karaoke tag, from the count of centiseconds that the
/// tag holds and the text behind the tag: the text, and the count as
/// milliseconds. A count that is no number, or whose milliseconds `usize`
/// does not hold, is the fault.
pub open spec fn segment_from(count: Seq<char>, text: Seq<char>) -> Result<
    (Seq<char>, usize),
    IntErrorKind,
> {
    match parsed_number(count) {
        Err(kind) => Err(kind),
        Ok(count) => if count * 10 > usize::MAX {
            Err(IntErrorKind::PosOverflow)
        } else {
            Ok((text, (count * 10) as usize))
        },
    }
}

/// The segment of one match of the karaoke pattern in `text`.
pub open spec fn segment_of(text: Seq<char>, groups: Seq<Option<(usize, usize)>>) -> Result<
    (Seq<char>, usize),
    IntErrorKind,
> {
    segment_from(group_text(text, groups, 1), group_text(text, groups, 2))
}

/// The segments of the karaoke tags `found` in `text`, in order; the first
/// tag whose count cannot be read decides the fault.
pub open spec fn karaoke_segments(text: Seq<char>, found: Seq<Seq<Option<(usize, usize)>>>) -> Result<
    Seq<(Seq<char>, usize)>,
    IntErrorKind,
>
    decreases found.len(),
{
    if found.len() == 0 {
        Ok(Seq::empty())
    } else {
        match karaoke_segments(text, found.drop_last()) {
            Err(kind) => Err(kind),
            Ok(before) => match segment_of(text, found.last()) {
                Err(kind) => Err(kind),
                Ok(segment) => Ok(before.push(segment)),
            },
        }
    }
}

/// The record of a dialogue line, from its number, the texts of its start,
/// end, style and role fields, and the segments of its karaoke tags. The
/// first of these that cannot be taken decides the error: a start or an end
/// that is no time, a karaoke count that could not be read, karaoke
/// durations that run past what `usize` holds. The error names the line,
/// the field and the fault. In the record the style has lost the white space
/// around it, and an empty role is no role.
pub open spec fn dialogue_from_fields(
    line_number: usize,
    start: Seq<char>,
    end: Seq<char>,
    style: Seq<char>,
    name: Seq<char>,
    segments: Result<Seq<(Seq<char>, usize)>, IntErrorKind>,
) -> Result<DialogueView, ConversionError> {
    match time_value(start) {
        Err(cause) => Err(dialogue_error(line_number, DialogueField::StartTime, cause)),
        Ok(start_ms) => match time_value(end) {
            Err(cause) => Err(dialogue_error(line_number, DialogueField::EndTime, cause)),
            Ok(end_ms) => match segments {
                Err(kind) => Err(
                    dialogue_error(
                        line_number,
                        DialogueField::KaraokeDuration,
                        FieldFault::Number(kind),
                    ),
                ),
                Ok(segments) => if start_ms + sum_ms(segments) > usize::MAX {
                    Err(
                        dialogue_error(
                            line_number,
                            DialogueField::KaraokeDuration,
                            FieldFault::Number(IntErrorKind::PosOverflow),
                        ),
                    )
                } else {
                    Ok(
                        DialogueView {
                            line_number,
                            start_ms,
                            end_ms,
                            name: if name.len() == 0 {
                                None
                            } else {
                                Some(name)
                            },
                            style: trim(style),
                            segments,
                            sum_k_ms: sum_ms(segments) as usize,
                        },
                    )
                },
            },
        },
    }
}

/// What a line is read as. A line in which the dialogue pattern finds
/// nothing does not have the fields of a dialogue: that is an error of
/// structure, with the number of the line. Else the line is the record of
/// the fields that the pattern finds in it, with the segments of the
/// karaoke tags that the karaoke pattern finds in its text.
pub open spec fn dialogue_of(m: Matchers, line: Seq<char>, line_number: usize) -> Result<
    DialogueView,
    ConversionError,
> {
    match regex_captures(m.dialogue, line) {
        None => Err(structure_error(line_number)),
        Some(groups) => {
            let text = group_text(line, groups, 5);
            dialogue_from_fields(
                line_number,
                group_text(line, groups, 1),
                group_text(line, groups, 2),
                group_text(line, groups, 3),
                group_text(line, groups, 4),
                karaoke_segments(text, regex_captures_iter(m.k_tag, text)),
            )
        },
    }
}

/// Segments that were read, or the fault, as plain values.
pub open spec fn segments_outcome(r: Result<Vec<(String, usize)>, IntErrorKind>) -> Result<
    Seq<(Seq<char>, usize)>,
    IntErrorKind,
> {
    match r {
        Ok(segments) => Ok(segments_view(segments@)),
        Err(kind) => Err(kind),
    }
}

/// A record that was read, or the error, as plain values.
pub open spec fn record_outcome(r: Result<ParsedDialogue, ConversionError>) -> Result<
    DialogueView,
    ConversionError,
> {
    match r {
        Ok(d) => Ok(d@),
        Err(e) => Err(e),
    }
}

/// A fault among the first tags is the fault of the whole run.
pub proof fn lemma_karaoke_fault_stays(
    text: Seq<char>,
    found: Seq<Seq<Option<(usize, usize)>>>,
    n: int,
)
    requires
        0 <= n <= found.len(),
        karaoke_segments(text, found.take(n)) is Err,
    ensures
        karaoke_segments(text, found) == karaoke_segments(text, found.take(n)),
    decreases found.len() - n,
{
    if n == found.len() {
        assert(found.take(n) =~= found);
    } else {
        assert(found.drop_last().take(n) =~= found.take(n));
        lemma_karaoke_fault_stays(text, found.drop_last(), n);
    }
}

/// The sum of the first segments is no more than the sum of all.
pub proof fn lemma_sum_ms_prefix(segments: Seq<(Seq<char>, usize)>, n: int)
    requires
        0 <= n <= segments.len(),
    ensures
        sum_ms(segments.take(n)) <= sum_ms(segments),
    decreases segments.len() - n,
{
    if n == segments.len() {
        assert(segments.take(n) =~= segments);
    } else {
        lemma_sum_ms_prefix(segments.drop_last(), n);
        assert(segments.drop_last().take(n) =~= segments.take(n));
    }
}

/// Reads the segment of one karaoke tag from the count that the tag holds
/// and the text behind the tag.
pub fn read_segment(count: &str, text: &str) -> (r: Result<(String, usize), IntErrorKind>)
    ensures
        match r {
            Ok(segment) => segment_from(count@, text@) == Ok::<(Seq<char>, usize), IntErrorKind>(
                (segment.0@, segment.1),
            ),
            Err(kind) => segment_from(count@, text@) == Err::<(Seq<char>, usize), IntErrorKind>(
                kind,
            ),
        },
{
    let count_chars = chars_of(count);
    let k_cs = match parse_number(count_chars.as_slice()) {
        Ok(n) => n,
        Err(kind) => {
            return Err(kind);
        },
    };
    match k_cs.checked_mul(K_TAG_MULTIPLIER) {
        Some(seg_ms) => Ok((text.to_owned(), seg_ms)),
        None => Err(IntErrorKind::PosOverflow),
    }
}

/// Reads the segments of the karaoke tags `found` in `text`: the matches of
/// the karaoke pattern, in their order.
pub fn read_segments(text: &str, found: &Vec<Groups>) -> (r: Result<Vec<(String, usize)>, IntErrorKind>)
    requires
        matches_fit(spans_of(found@), text@),
    ensures
        segments_outcome(r) == karaoke_segments(text@, spans_of(found@)),
{
    let ghost spans = spans_of(found@);
    let mut segments: Vec<(String, usize)> = Vec::new();
    let mut i: usize = 0;
    assert(spans.take(0) =~= Seq::empty());
    assert(segments_view(segments@) =~= Seq::empty());
    while i < found.len()
        invariant
            i <= found.len(),
            spans == spans_of(found@),
            matches_fit(spans, text@),
            karaoke_segments(text@, spans.take(i as int)) == Ok::<
                Seq<(Seq<char>, usize)>,
                IntErrorKind,
            >(segments_view(segments@)),
        decreases found.len() - i,
    {
        let groups = &found[i];
        assert(spans[i as int] == groups@);
        assert(groups_fit(spans[i as int], text@));
        let ghost next = spans.take(i + 1);
        assert(next.drop_last() =~= spans.take(i as int));
        assert(next.last() == groups@);
        let segment = match read_segment(group_str(text, groups, 1), group_str(text, groups, 2)) {
            Ok(segment) => segment,
            Err(kind) => {
                proof {
                    lemma_karaoke_fault_stays(text@, spans, i + 1);
                }
                return Err(kind);
            },
        };
        let ghost before = segments_view(segments@);
        let ghost added = (segment.0@, segment.1);
        segments.push(segment);
        assert(segments_view(segments@) =~= before.push(added));
        i += 1;
    }
    assert(spans.take(i as int) =~= spans);
    Ok(segments)
}

/// The sum of the durations of `segments`, where `start` plus that sum fits.
fn sum_from(start: usize, segments: &Vec<(String, usize)>) -> (r: Option<usize>)
    ensures
        match r {
            Some(sum) => sum == sum_ms(segments_view(segments@)) && start + sum <= usize::MAX,
            None => start + sum_ms(segments_view(segments@)) > usize::MAX,
        },
{
    let ghost all = segments_view(segments@);
    let mut end: usize = start;
    let mut i: usize = 0;
    assert(all.take(0) =~= Seq::empty());
    while i < segments.len()
        invariant
            i <= segments.len(),
            all == segments_view(segments@),
            end == start + sum_ms(all.take(i as int)),
        decreases segments.len() - i,
    {
        let ghost next = all.take(i + 1);
        assert(next.drop_last() =~= all.take(i as int));
        assert(next.last() == all[i as int]);
        proof {
            lemma_sum_ms_prefix(all, i + 1);
        }
        end = match end.checked_add(segments[i].1) {
            Some(e) => e,
            None => {
                return None;
            },
        };
        i += 1;
    }
    assert(all.take(i as int) =~= all);
    Some(end - start)
}

/// Makes the record of a dialogue line from its number, the texts of its
/// start, end, style and role fields, and the segments of its karaoke tags
/// as far as they could be read.
pub fn read_dialogue_fields(
    line_number: usize,
    start: &str,
    end: &str,
    style: &str,
    name: &str,
    segments: Result<Vec<(String, usize)>, IntErrorKind>,
) -> (r: Result<ParsedDialogue, ConversionError>)
    ensures
        record_outcome(r) == dialogue_from_fields(
            line_number,
            start@,
            end@,
            style@,
            name@,
            segments_outcome(segments),
        ),
        r matches Ok(d) ==> d@.wf(),
{
    let start_chars = chars_of(start);
    let start_ms = match parse_time(start_chars.as_slice()) {
        Ok(ms) => ms,
        Err(cause) => {
            return Err(
                ConversionError::InvalidFormat(
                    FormatError::Dialogue { line_number, field: DialogueField::StartTime, cause },
                ),
            );
        },
    };
    let end_chars = chars_of(end);
    let end_ms = match parse_time(end_chars.as_slice()) {
        Ok(ms) => ms,
        Err(cause) => {
            return Err(
                ConversionError::InvalidFormat(
                    FormatError::Dialogue { line_number, field: DialogueField::EndTime, cause },
                ),
            );
        },
    };
    let segments = match segments {
        Ok(segments) => segments,
        Err(kind) => {
            return Err(
                ConversionError::InvalidFormat(
                    FormatError::Dialogue {
                        line_number,
                        field: DialogueField::KaraokeDuration,
                        cause: FieldFault::Number(kind),
                    },
                ),
            );
        },
    };
    let sum_k_ms = match sum_from(start_ms, &segments) {
        Some(sum) => sum,
        None => {
            return Err(
                ConversionError::InvalidFormat(
                    FormatError::Dialogue {
                        line_number,
                        field: DialogueField::KaraokeDuration,
                        cause: FieldFault::Number(IntErrorKind::PosOverflow),
                    },
                ),
            );
        },
    };
    let style_chars = chars_of(style);
    let style = string_of(trimmed(style_chars.as_slice()));
    let name = if name.is_empty() {
        None
    } else {
        Some(name.to_owned())
    };
    Ok(ParsedDialogue { line_number, start_ms, end_ms, name, style, segments, sum_k_ms })
}

/// Reads one ASS dialogue line with its line number. A line that does not
/// have the fields of a dialogue is an error of structure, which tells a
/// caller that the line is no dialogue.
pub fn parse_ass_dialogue_line(m: &Matchers, line: &str, line_number: usize) -> (r: Result<
    ParsedDialogue,
    ConversionError,
>)
    requires
        m.wf(),
    ensures
        record_outcome(r) == dialogue_of(*m, line@, line_number),
        r matches Ok(d) ==> d@.wf(),
{
    let groups = match captures(&m.dialogue, line) {
        Some(groups) => groups,
        None => {
            return Err(ConversionError::InvalidFormat(FormatError::Structure { line_number }));
        },
    };
    let ass_text = group_str(line, &groups, 5);
    let found = captures_iter(&m.k_tag, ass_text);
    read_dialogue_fields(
        line_number,
        group_str(line, &groups, 1),
        group_str(line, &groups, 2),
        group_str(line, &groups, 3),
        group_str(line, &groups, 4),
        read_segments(ass_text, &found),
    )
}

/// Whether `style` marks an auxiliary track.
pub fn auxiliary_style(style: &str) -> (yes: bool)
    ensures
        yes == is_auxiliary_style(style@),
{
    let cs = chars_of(style);
    spells_ignoring_ascii_case(cs.as_slice(), "roma") || spells_ignoring_ascii_case(
        cs.as_slice(),
        "trans",
    ) || spells_ignoring_ascii_case(cs.as_slice(), "ts")
}

/// Whether the duration that a line declares is the sum of its karaoke
/// durations. The line number tells a caller's report which line was checked.
pub fn check_time_consistency(expected_duration: usize, actual_duration: usize, line_number: usize) -> (same: bool)
    ensures
        same == (expected_duration == actual_duration),
{
    expected_duration == actual_duration
}

/// Whether a record's timing calls for a warning: it is no auxiliary track
/// and its declared duration is not the sum of its karaoke durations.
pub open spec fn timing_mismatch(d: DialogueView) -> bool {
    !is_auxiliary_style(d.style) && d.duration_ms() != d.sum_k_ms
}

/// Checks the timing of a record, unless its style marks an auxiliary track.
pub fn has_timing_mismatch(d: &ParsedDialogue) -> (warn: bool)
    ensures
        warn == timing_mismatch(d@),
{
    !auxiliary_style(d.style.as_str()) && !check_time_consistency(
        d.duration_ms(),
        d.sum_k_ms,
        d.line_number,
    )
}

} // verus!
