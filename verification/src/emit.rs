//! Writing a dialogue record as a line of QRC or LYS: a header, then each
//! segment as its text and, in brackets, when it begins and how long it
//! lasts.

use crate::dialogue::{
    dialogue_of, has_timing_mismatch, parse_ass_dialogue_line, segments_view, sum_ms,
    timing_mismatch, DialogueView, ParsedDialogue,
};
use crate::error::{ConversionError, FormatError};
use crate::matcher::Matchers;
use crate::number::{decimal, push_decimal};
use vstd::prelude::*;
use vstd::string::*;

verus! {

/// One timed word: `text(start,duration)`.
pub open spec fn timed_token(text: Seq<char>, start: nat, duration: nat) -> Seq<char> {
    text + seq!['('] + decimal(start) + seq![','] + decimal(duration) + seq![')']
}

/// The segments of a line that begins at `start`, one timed word each. Each
/// begins where the one before it ended. A segment with no text and no
/// duration is left out.
pub open spec fn timed_text(segments: Seq<(Seq<char>, usize)>, start: nat) -> Seq<char>
    decreases segments.len(),
{
    if segments.len() == 0 {
        Seq::empty()
    } else {
        let before = segments.drop_last();
        let segment = segments.last();
        timed_text(before, start) + (if segment.0.len() > 0 || segment.1 > 0 {
            timed_token(segment.0, start + sum_ms(before), segment.1 as nat)
        } else {
            Seq::empty()
        })
    }
}

/// A record as a QRC line: `[start,duration]`, then its timed words.
pub open spec fn qrc_line_text(d: DialogueView) -> Seq<char> {
    seq!['['] + decimal(d.start_ms as nat) + seq![','] + decimal(d.duration_ms()) + seq![']']
        + timed_text(d.segments, d.start_ms as nat)
}

/// A record as a LYS line: `[property]`, then its timed words.
pub open spec fn lys_line_text(property: usize, d: DialogueView) -> Seq<char> {
    seq!['['] + decimal(property as nat) + seq![']'] + timed_text(d.segments, d.start_ms as nat)
}

/// Whether an error is that of a line without the fields of a dialogue.
pub open spec fn is_structure_error(e: ConversionError) -> bool {
    e matches ConversionError::InvalidFormat(FormatError::Structure { .. })
}

/// The QRC line of a line of ASS: that of its record where it can be read
/// as a dialogue, none where it does not have the fields of one, and else
/// the parser's error.
pub open spec fn qrc_of_line(m: Matchers, line: Seq<char>, line_number: usize) -> Result<
    Option<Seq<char>>,
    ConversionError,
> {
    match dialogue_of(m, line, line_number) {
        Ok(d) => Ok(Some(qrc_line_text(d))),
        Err(e) => if is_structure_error(e) {
            Ok(None)
        } else {
            Err(e)
        },
    }
}

/// Whether a line taken for a dialogue calls for a warning: it does when
/// it does not have the fields of a dialogue, or when its timing does not
/// add up.
pub open spec fn qrc_line_warns(m: Matchers, line: Seq<char>, line_number: usize) -> bool {
    match dialogue_of(m, line, line_number) {
        Ok(d) => timing_mismatch(d),
        Err(e) => is_structure_error(e),
    }
}

/// An outcome that may hold a text, as plain values.
pub open spec fn text_outcome(r: Result<Option<String>, ConversionError>) -> Result<
    Option<Seq<char>>,
    ConversionError,
> {
    match r {
        Ok(Some(text)) => Ok(Some(text@)),
        Ok(None) => Ok(None),
        Err(e) => Err(e),
    }
}

/// Appends the timed words of `segments` to `out`.
pub fn push_timed_segments(out: &mut String, start: usize, segments: &Vec<(String, usize)>)
    requires
        start + sum_ms(segments_view(segments@)) <= usize::MAX,
    ensures
        final(out)@ == old(out)@ + timed_text(segments_view(segments@), start as nat),
{
    let ghost all = segments_view(segments@);
    let mut at: usize = start;
    let mut i: usize = 0;
    assert(all.take(0) =~= Seq::empty());
    assert(out@ =~= old(out)@ + timed_text(all.take(0), start as nat));
    while i < segments.len()
        invariant
            i <= segments.len(),
            all == segments_view(segments@),
            start + sum_ms(all) <= usize::MAX,
            at == start + sum_ms(all.take(i as int)),
            out@ == old(out)@ + timed_text(all.take(i as int), start as nat),
        decreases segments.len() - i,
    {
        let ghost next = all.take(i + 1);
        let ghost written = out@;
        assert(next.drop_last() =~= all.take(i as int));
        assert(next.last() == all[i as int]);
        proof {
            crate::dialogue::lemma_sum_ms_prefix(all, i + 1);
        }
        let duration = segments[i].1;
        if !segments[i].0.as_str().is_empty() || duration > 0 {
            out.append(segments[i].0.as_str());
            out.push('(');
            push_decimal(out, at);
            out.push(',');
            push_decimal(out, duration);
            out.push(')');
            assert(out@ =~= written + timed_token(all[i as int].0, at as nat, duration as nat));
        }
        at = at + duration;
        i += 1;
        assert(out@ =~= old(out)@ + timed_text(next, start as nat));
    }
    assert(all.take(i as int) =~= all);
}

/// Writes a record as a QRC line.
pub fn qrc_line(d: &ParsedDialogue) -> (line: String)
    requires
        d@.fits(),
    ensures
        line@ == qrc_line_text(d@),
{
    let mut line = String::new();
    line.push('[');
    push_decimal(&mut line, d.start_ms);
    line.push(',');
    push_decimal(&mut line, d.duration_ms());
    line.push(']');
    push_timed_segments(&mut line, d.start_ms, &d.segments);
    assert(line@ =~= qrc_line_text(d@));
    line
}

/// Writes a record as a LYS line with the property `property`.
pub fn lys_line(property: usize, d: &ParsedDialogue) -> (line: String)
    requires
        d@.fits(),
    ensures
        line@ == lys_line_text(property, d@),
{
    let mut line = String::new();
    line.push('[');
    push_decimal(&mut line, property);
    line.push(']');
    push_timed_segments(&mut line, d.start_ms, &d.segments);
    assert(line@ == lys_line_text(property, d@));
    line
}

/// Turns one line of ASS that is taken for a dialogue into a line of QRC.
/// `warning_occurred` is set where the line calls for a warning, and left as
/// it is where it does not.
pub fn process_dialogue_for_qrc(
    m: &Matchers,
    line: &str,
    line_number: usize,
    warning_occurred: &mut bool,
) -> (r: Result<Option<String>, ConversionError>)
    requires
        m.wf(),
    ensures
        text_outcome(r) == qrc_of_line(*m, line@, line_number),
        *final(warning_occurred) == (*old(warning_occurred) || qrc_line_warns(
            *m,
            line@,
            line_number,
        )),
{
    match parse_ass_dialogue_line(m, line, line_number) {
        Ok(parsed_data) => {
            if has_timing_mismatch(&parsed_data) {
                *warning_occurred = true;
            }
            Ok(Some(qrc_line(&parsed_data)))
        },
        Err(ConversionError::InvalidFormat(FormatError::Structure { .. })) => {
            *warning_occurred = true;
            Ok(None)
        },
        Err(e) => Err(e),
    }
}

} // verus!
