//! The round trips: a line of ASS without silences, written as a line of
//! QRC or LYS and converted back, comes back as it went.

use crate::convert::{
    ass_dialogue_text, first_start, last_end, lys_line_to_ass, qrc_line_to_ass, role_name,
};
use crate::dialogue::{lemma_sum_ms_prefix, sum_ms, DialogueView};
use crate::emit::{lys_line_text, qrc_line_text};
use crate::matcher::{group_text, regex_captures, regex_captures_iter, span_text, Matchers};
use crate::number::{decimal, lemma_decimal_reads_back};
use crate::rebuild::{
    karaoke_text, lemma_karaoke_text_has_no_zero_tag, lemma_round_trip, texts_without_braces, lemma_tokens_written_end, lemma_written_tokens_rebuild,
    rebuilt_text, token_end, tokens_written, words_of,
};
use crate::time::lemma_parsed_digits;
use vstd::prelude::*;
use vstd::utf8::*;

verus! {

/// Whether the patterns find in the QRC line of a record what was written
/// into it: the header with its two numbers, behind it the timed words of
/// the record, and nothing behind the last word.
pub open spec fn qrc_line_is_found(m: Matchers, d: DialogueView) -> bool {
    let line = qrc_line_text(d);
    match regex_captures(m.qrc_timestamp, line) {
        None => false,
        Some(groups) => {
            let content = span_text(
                line,
                groups[0].unwrap().1 as int,
                encode_utf8(line).len() as int,
            );
            &&& group_text(line, groups, 1) == decimal(d.start_ms as nat)
            &&& group_text(line, groups, 2) == decimal(d.duration_ms())
            &&& words_of(content, regex_captures_iter(m.word_time_tag, content)) == Some(
                (tokens_written(d.segments, d.start_ms), Seq::<char>::empty()),
            )
        },
    }
}

/// From ASS to QRC and back. Take a record whose karaoke durations add up
/// to the duration of its line, so that the line has no silence in it, and
/// whose texts hold no `{`, as the texts of a line that was read never do;
/// let the patterns find in its QRC line what was written there. Then the
/// QRC line becomes a dialogue line with the start and the end of the
/// record and the karaoke text of its segments: the same texts in the same
/// order, each behind the tag of its duration. It calls for no warning.
/// Where that text is empty there is no line.
pub proof fn lemma_qrc_round_trip(m: Matchers, d: DialogueView)
    requires
        d.wf(),
        d.end_ms >= d.start_ms,
        d.duration_ms() == d.sum_k_ms,
        texts_without_braces(d.segments),
        qrc_line_is_found(m, d),
    ensures
        qrc_line_to_ass(m, qrc_line_text(d)) == (
            if karaoke_text(d.segments).len() == 0 {
                None
            } else {
                Some(ass_dialogue_text(d.start_ms, d.end_ms, Seq::empty(), karaoke_text(d.segments)))
            },
            false,
        ),
{
    reveal(qrc_line_to_ass);
    let line = qrc_line_text(d);
    let groups = regex_captures(m.qrc_timestamp, line).unwrap();
    let content = span_text(line, groups[0].unwrap().1 as int, encode_utf8(line).len() as int);
    let found = regex_captures_iter(m.word_time_tag, content);
    lemma_decimal_reads_back(d.start_ms as nat);
    lemma_decimal_reads_back(d.duration_ms());
    lemma_parsed_digits(decimal(d.start_ms as nat));
    lemma_parsed_digits(decimal(d.duration_ms()));
    lemma_round_trip(d);
    lemma_karaoke_text_has_no_zero_tag(d.segments);
}

/// The words that a record is written as begin at the start of the record
/// and end where its segments end; a record that is written as no words
/// has segments of no duration.
pub proof fn lemma_bounds_of_written_tokens(segments: Seq<(Seq<char>, usize)>, start: usize)
    requires
        start + sum_ms(segments) <= usize::MAX,
    ensures
        tokens_written(segments, start).len() == 0 ==> sum_ms(segments) == 0,
        tokens_written(segments, start).len() > 0 ==> {
            &&& first_start(tokens_written(segments, start)) == start
            &&& last_end(tokens_written(segments, start)) == start + sum_ms(segments)
        },
    decreases segments.len(),
{
    if segments.len() > 0 {
        let before = segments.drop_last();
        let segment = segments.last();
        lemma_sum_ms_prefix(segments, segments.len() - 1);
        assert(segments.take(segments.len() - 1) =~= before);
        lemma_bounds_of_written_tokens(before, start);
        if segment.0.len() > 0 || segment.1 > 0 {
            let tokens = tokens_written(segments, start);
            let earlier = tokens_written(before, start);
            assert(tokens.drop_last() =~= earlier);
            assert(tokens.last().start_ms == start + sum_ms(before));
            assert(token_end(tokens.last()) == start + sum_ms(segments));
            if earlier.len() == 0 {
                assert(first_start(earlier) == usize::MAX);
                assert(last_end(earlier) == 0);
            }
        } else {
            assert(sum_ms(segments) == sum_ms(before));
        }
    }
}

/// Whether the patterns find in the LYS line of a record what was written
/// into it: the property, behind it the timed words of the record, and
/// nothing behind the last word.
pub open spec fn lys_line_is_found(m: Matchers, property: usize, d: DialogueView) -> bool {
    let line = lys_line_text(property, d);
    match regex_captures(m.lys_property, line) {
        None => false,
        Some(groups) => {
            let content = group_text(line, groups, 2);
            &&& group_text(line, groups, 1) == decimal(property as nat)
            &&& words_of(content, regex_captures_iter(m.word_time_tag, content)) == Some(
                (tokens_written(d.segments, d.start_ms), Seq::<char>::empty()),
            )
        },
    }
}

/// From ASS to LYS and back. Take a record that does not begin at the
/// largest `usize`, with a segment that is written, and let the patterns
/// find in its LYS line what was written there. Then the LYS line becomes a
/// dialogue line that begins at the start of the record and lasts as long
/// as its karaoke durations, with the role tag that stands for the property
/// and the karaoke text of the segments. It calls for no warning. Where
/// that text is empty there is no line.
pub proof fn lemma_lys_round_trip(m: Matchers, property: usize, d: DialogueView)
    requires
        d.wf(),
        d.start_ms < usize::MAX,
        tokens_written(d.segments, d.start_ms).len() > 0,
        lys_line_is_found(m, property, d),
    ensures
        lys_line_to_ass(m, lys_line_text(property, d)) == (
            if karaoke_text(d.segments).len() == 0 {
                None
            } else {
                Some(
                    ass_dialogue_text(
                        d.start_ms,
                        (d.start_ms + d.sum_k_ms) as usize,
                        role_name(property),
                        karaoke_text(d.segments),
                    ),
                )
            },
            false,
        ),
{
    reveal(lys_line_to_ass);
    let tokens = tokens_written(d.segments, d.start_ms);
    lemma_decimal_reads_back(property as nat);
    lemma_parsed_digits(decimal(property as nat));
    lemma_bounds_of_written_tokens(d.segments, d.start_ms);
    lemma_written_tokens_rebuild(d.segments, d.start_ms);
    lemma_tokens_written_end(d.segments, d.start_ms);
    assert(rebuilt_text(tokens, d.start_ms, (d.start_ms + d.sum_k_ms) as usize, Seq::empty())
        =~= karaoke_text(d.segments));
}

} // verus!
