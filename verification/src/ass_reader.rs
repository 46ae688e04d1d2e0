//! Reading the events of an ASS file: the lines behind the column header of
//! the events, sorted into metadata, dialogue records and the rest.

use crate::dialogue::{
    dialogue_of, has_timing_mismatch, parse_ass_dialogue_line, timing_mismatch, DialogueView,
    ParsedDialogue,
};
use crate::matcher::{captures, group_str, group_text, regex_captures, Matchers};
use crate::metadata::{metadata_of_line, read_metadata_comment};
use crate::text::{chars_of, spells, starts_with, text_option, trim_start, trimmed_start};
use vstd::prelude::*;
use vstd::string::*;

verus! {

/// How the column header of the events begins.
pub const FORMAT_LINE_PREFIX: &'static str = "Format: Layer, Start, End, Style, Name,";

/// How a dialogue line begins.
pub const DIALOGUE_PREFIX: &'static str = "Dialogue:";

/// The lines of a file as plain values.
pub open spec fn lines_view(lines: Seq<String>) -> Seq<Seq<char>> {
    lines.map_values(|line: String| line@)
}

/// The records of a file as plain values.
pub open spec fn records_view(records: Seq<ParsedDialogue>) -> Seq<DialogueView> {
    records.map_values(|d: ParsedDialogue| d@)
}

/// Whether a line is the column header of the events: white space may
/// stand before it.
pub open spec fn is_format_line(line: Seq<char>) -> bool {
    FORMAT_LINE_PREFIX@.is_prefix_of(trim_start(line))
}

/// Whether a line is taken for a dialogue.
pub open spec fn is_dialogue_line(line: Seq<char>) -> bool {
    DIALOGUE_PREFIX@.is_prefix_of(line)
}

/// Where the events begin: behind the first column header. Without a
/// column header there are no events.
pub open spec fn events_start(lines: Seq<Seq<char>>) -> int
    decreases lines.len(),
{
    if lines.len() == 0 {
        0
    } else if is_format_line(lines[0]) {
        1
    } else {
        1 + events_start(lines.drop_first())
    }
}

/// Each line with its number in the file, counted from one.
pub open spec fn numbered(lines: Seq<Seq<char>>) -> Seq<(Seq<char>, usize)> {
    Seq::new(lines.len(), |i: int| (lines[i], (i + 1) as usize))
}

/// The lines of the events, each with its number in the file.
pub open spec fn events(lines: Seq<Seq<char>>) -> Seq<(Seq<char>, usize)> {
    numbered(lines).skip(events_start(lines))
}

/// The tag line of an event, where it is a metadata comment that has one.
#[verifier::opaque]
pub open spec fn event_metadata(m: Matchers, event: (Seq<char>, usize)) -> Option<Seq<char>> {
    match metadata_of_line(m, event.0) {
        Some(Some(text)) => Some(text),
        _ => None,
    }
}

/// The record of an event, where it is no metadata comment, is taken for a
/// dialogue and can be read as one.
#[verifier::opaque]
pub open spec fn event_record(m: Matchers, event: (Seq<char>, usize)) -> Option<DialogueView> {
    if metadata_of_line(m, event.0) is None && is_dialogue_line(event.0) {
        match dialogue_of(m, event.0, event.1) {
            Ok(d) => Some(d),
            Err(_) => None,
        }
    } else {
        None
    }
}

/// The tag line of an event, if it has one.
pub open spec fn metadata_of_event(m: Matchers) -> spec_fn((Seq<char>, usize)) -> Option<Seq<char>> {
    |event: (Seq<char>, usize)| event_metadata(m, event)
}

/// The record of an event, if it has one.
pub open spec fn record_of_event(m: Matchers) -> spec_fn((Seq<char>, usize)) -> Option<DialogueView> {
    |event: (Seq<char>, usize)| event_record(m, event)
}

/// Whether an event calls for a warning: it does when it is taken for a
/// dialogue and cannot be read as one, or when the timing of its record
/// does not add up.
#[verifier::opaque]
pub open spec fn event_warns(m: Matchers, event: (Seq<char>, usize)) -> bool {
    metadata_of_line(m, event.0) is None && is_dialogue_line(event.0) && match dialogue_of(
        m,
        event.0,
        event.1,
    ) {
        Ok(d) => timing_mismatch(d),
        Err(_) => true,
    }
}

/// The tag lines of the metadata of a file, in its order.
pub open spec fn ass_metadata(m: Matchers, lines: Seq<Seq<char>>) -> Seq<Seq<char>> {
    events(lines).filter_map(metadata_of_event(m))
}

/// The dialogue records of a file, in its order.
pub open spec fn ass_records(m: Matchers, lines: Seq<Seq<char>>) -> Seq<DialogueView> {
    events(lines).filter_map(record_of_event(m))
}

/// Whether reading a file calls for a warning.
pub open spec fn ass_events_warn(m: Matchers, lines: Seq<Seq<char>>) -> bool {
    exists|i: int| 0 <= i < events(lines).len() && event_warns(m, #[trigger] events(lines)[i])
}

/// The events begin behind the first line that is a column header.
pub proof fn lemma_events_start(lines: Seq<Seq<char>>, n: int)
    requires
        0 <= n <= lines.len(),
        forall|j: int| 0 <= j < n ==> !is_format_line(#[trigger] lines[j]),
        n < lines.len() ==> is_format_line(lines[n]),
    ensures
        events_start(lines) == (if n < lines.len() { n + 1 } else { n }),
    decreases n,
{
    if n > 0 {
        let rest = lines.drop_first();
        assert forall|j: int| 0 <= j < n - 1 implies !is_format_line(#[trigger] rest[j]) by {
            assert(rest[j] == lines[j + 1]);
        }
        lemma_events_start(rest, n - 1);
    }
}

/// What was read of a file of ASS.
#[derive(Debug, Clone, PartialEq, Eq)]
pub struct AssEvents {
    /// The tag lines of its metadata.
    pub metadata: Vec<String>,
    /// Its dialogue records.
    pub records: Vec<ParsedDialogue>,
    /// Whether a line called for a warning.
    pub warned: bool,
}

/// Whether `line` is the column header of the events.
pub fn format_line(line: &str) -> (yes: bool)
    ensures
        yes == is_format_line(line@),
{
    let cs = chars_of(line);
    starts_with(trimmed_start(cs.as_slice()), FORMAT_LINE_PREFIX)
}

/// Whether `line` is taken for a dialogue.
pub fn dialogue_line(line: &str) -> (yes: bool)
    ensures
        yes == is_dialogue_line(line@),
{
    let cs = chars_of(line);
    starts_with(cs.as_slice(), DIALOGUE_PREFIX)
}

/// Finds where the events of a file begin.
pub fn find_events(lines: &Vec<String>) -> (start: usize)
    ensures
        start == events_start(lines_view(lines@)),
        start <= lines.len(),
{
    let ghost all = lines_view(lines@);
    let mut n: usize = 0;
    while n < lines.len()
        invariant
            n <= lines.len(),
            all == lines_view(lines@),
            forall|j: int| 0 <= j < n ==> !is_format_line(#[trigger] all[j]),
        decreases lines.len() - n,
    {
        if format_line(lines[n].as_str()) {
            proof {
                lemma_events_start(all, n as int);
            }
            return n + 1;
        }
        n += 1;
    }
    proof {
        lemma_events_start(all, n as int);
    }
    n
}

/// What one event was read as.
#[derive(Debug, Clone, PartialEq, Eq)]
pub struct AssEvent {
    /// Its tag line, where it is a metadata comment that has one.
    pub metadata: Option<String>,
    /// Its record, where it is a dialogue that can be read.
    pub record: Option<ParsedDialogue>,
    /// Whether it calls for a warning.
    pub warned: bool,
}

/// A record that may be there, as plain values.
pub open spec fn record_option(record: Option<ParsedDialogue>) -> Option<DialogueView> {
    match record {
        Some(d) => Some(d@),
        None => None,
    }
}

/// Reads one event with its line number.
pub fn read_event(m: &Matchers, line: &str, line_number: usize) -> (read: AssEvent)
    requires
        m.wf(),
    ensures
        text_option(read.metadata) == event_metadata(*m, (line@, line_number)),
        record_option(read.record) == event_record(*m, (line@, line_number)),
        read.warned == event_warns(*m, (line@, line_number)),
        read.record matches Some(d) ==> d@.wf(),
{
    reveal(event_warns);
    reveal(event_metadata);
    reveal(event_record);
    match read_metadata_comment(m, line) {
        Some(metadata) => AssEvent { metadata, record: None, warned: false },
        None => {
            if dialogue_line(line) {
                match parse_ass_dialogue_line(m, line, line_number) {
                    Ok(d) => {
                        let warned = has_timing_mismatch(&d);
                        AssEvent { metadata: None, record: Some(d), warned }
                    },
                    Err(_) => AssEvent { metadata: None, record: None, warned: true },
                }
            } else {
                AssEvent { metadata: None, record: None, warned: false }
            }
        },
    }
}

/// Reads the events of a file of ASS. A line that is taken for a dialogue
/// and cannot be read as one is left out, with a warning.
pub fn read_events(m: &Matchers, lines: &Vec<String>) -> (read: AssEvents)
    requires
        m.wf(),
    ensures
        lines_view(read.metadata@) == ass_metadata(*m, lines_view(lines@)),
        records_view(read.records@) == ass_records(*m, lines_view(lines@)),
        read.warned == ass_events_warn(*m, lines_view(lines@)),
        forall|i: int| 0 <= i < read.records@.len() ==> (#[trigger] read.records@[i])@.wf(),
{
    let ghost all = lines_view(lines@);
    let ghost ev = events(all);
    let start = find_events(lines);
    let mut metadata: Vec<String> = Vec::new();
    let mut records: Vec<ParsedDialogue> = Vec::new();
    let mut warned = false;
    let mut i: usize = start;
    assert(ev.take(0) =~= Seq::empty());
    assert(lines_view(metadata@) =~= Seq::empty());
    assert(records_view(records@) =~= Seq::empty());
    while i < lines.len()
        invariant
            m.wf(),
            start <= i <= lines.len(),
            all == lines_view(lines@),
            ev == events(all),
            start == events_start(all),
            ev.len() == lines.len() - start,
            lines_view(metadata@) == ev.take(i - start).filter_map(metadata_of_event(*m)),
            records_view(records@) == ev.take(i - start).filter_map(record_of_event(*m)),
            warned == (exists|j: int| 0 <= j < i - start && event_warns(*m, #[trigger] ev[j])),
            forall|j: int| 0 <= j < records@.len() ==> (#[trigger] records@[j])@.wf(),
        decreases lines.len() - i,
    {
        let ghost k = i - start;
        let ghost old_metadata = lines_view(metadata@);
        let ghost old_records = records_view(records@);
        let ghost old_warned = warned;
        assert(ev[k] == (all[i as int], (i + 1) as usize));
        assert(all[i as int] == lines@[i as int]@);
        proof {
            ev.lemma_filter_map_take_succ(metadata_of_event(*m), k);
            ev.lemma_filter_map_take_succ(record_of_event(*m), k);
        }
        let event = read_event(m, lines[i].as_str(), i + 1);
        match event.metadata {
            Some(text) => {
                metadata.push(text);
                assert(lines_view(metadata@) =~= old_metadata.push(text@));
            },
            None => {},
        }
        match event.record {
            Some(d) => {
                records.push(d);
                assert(records_view(records@) =~= old_records.push(d@));
            },
            None => {},
        }
        if event.warned {
            warned = true;
        }
        assert(warned == (old_warned || event_warns(*m, ev[k])));
        i += 1;
        assert(lines_view(metadata@) =~= ev.take(i - start).filter_map(metadata_of_event(*m)));
        assert(records_view(records@) =~= ev.take(i - start).filter_map(record_of_event(*m)));
    }
    assert(ev.take(i - start) =~= ev);
    AssEvents { metadata, records, warned }
}

/// Whether a role tag, as it is written, is one that the LYS format can
/// tell apart: empty, or one of the keywords for a singer or a background.
pub open spec fn is_special_name(name: Seq<char>) -> bool {
    ||| name.len() == 0
    ||| name == "v1"@
    ||| name == "左"@
    ||| name == "右"@
    ||| name == "v2"@
    ||| name == "x-duet"@
    ||| name == "x-anti"@
    ||| name == "背"@
    ||| name == "x-bg"@
}

/// Whether a line is a dialogue with such a role tag.
pub open spec fn has_special_name(m: Matchers, line: Seq<char>) -> bool {
    is_dialogue_line(line) && match regex_captures(m.dialogue, line) {
        Some(groups) => is_special_name(group_text(line, groups, 4)),
        None => false,
    }
}

/// Whether a dialogue among the events of a file has such a role tag.
pub open spec fn ass_has_special_names(m: Matchers, lines: Seq<Seq<char>>) -> bool {
    exists|i: int|
        0 <= i < events(lines).len() && has_special_name(m, (#[trigger] events(lines)[i]).0)
}

/// Whether a role tag, as it is written, is one that the LYS format can
/// tell apart.
pub fn special_name(name: &str) -> (yes: bool)
    ensures
        yes == is_special_name(name@),
{
    let name = chars_of(name);
    let name = name.as_slice();
    name.len() == 0 || spells(name, "v1") || spells(name, "左") || spells(name, "右") || spells(
        name,
        "v2",
    ) || spells(name, "x-duet") || spells(name, "x-anti") || spells(name, "背") || spells(
        name,
        "x-bg",
    )
}

/// Whether `line` is a dialogue whose role tag the LYS format can tell
/// apart.
pub fn line_has_special_name(m: &Matchers, line: &str) -> (yes: bool)
    requires
        m.wf(),
    ensures
        yes == has_special_name(*m, line@),
{
    if !dialogue_line(line) {
        return false;
    }
    match captures(&m.dialogue, line) {
        Some(groups) => special_name(group_str(line, &groups, 4)),
        None => false,
    }
}

/// Whether a file of ASS holds a dialogue whose role tag the LYS format can
/// tell apart: such a file is better converted to LYS than to QRC.
pub fn check_ass_has_special_names(m: &Matchers, lines: &Vec<String>) -> (yes: bool)
    requires
        m.wf(),
    ensures
        yes == ass_has_special_names(*m, lines_view(lines@)),
{
    let ghost all = lines_view(lines@);
    let ghost ev = events(all);
    let start = find_events(lines);
    let mut i: usize = start;
    while i < lines.len()
        invariant
            m.wf(),
            start <= i <= lines.len(),
            all == lines_view(lines@),
            ev == events(all),
            start == events_start(all),
            ev.len() == lines.len() - start,
            forall|j: int| 0 <= j < i - start ==> !has_special_name(*m, (#[trigger] ev[j]).0),
        decreases lines.len() - i,
    {
        assert(ev[i - start] == (all[i as int], (i + 1) as usize));
        assert(all[i as int] == lines@[i as int]@);
        if line_has_special_name(m, lines[i].as_str()) {
            return true;
        }
        i += 1;
    }
    false
}

} // verus!
