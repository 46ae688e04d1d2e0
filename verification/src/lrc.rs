//! The auxiliary tracks of an ASS file, its translations and its
//! romanisation, as lines of LRC: a time, then the text without its tags.

use crate::ass_reader::{
    dialogue_line, events, events_start, find_events, is_dialogue_line, lines_view,
};
use crate::error::FieldFault;
use crate::matcher::{
    captures, group_str, group_text, regex_captures, regex_captures_iter, remove_all, text_without,
    Matchers,
};
use crate::text::{
    chars_of, lowercase, same_ignoring_ascii_case, spells, spells_ignoring_ascii_case, string_of,
    trim, trimmed,
};
use crate::time::{lrc_time_text, milliseconds_to_lrc_time, parse_time, time_value};
use vstd::prelude::*;
use vstd::string::*;

verus! {

/// `text` without its override blocks, `{...}`.
pub open spec fn without_tags(m: Matchers, text: Seq<char>) -> Seq<char> {
    text_without(text, regex_captures_iter(m.ass_tag, text))
}

/// Takes the override blocks of ASS, `{...}`, out of a text.
pub fn strip_ass_tags(m: &Matchers, text: &str) -> (plain: String)
    requires
        m.wf(),
    ensures
        plain@ == without_tags(*m, text@),
{
    remove_all(&m.ass_tag, text)
}

/// A line of an auxiliary track: when it begins, in milliseconds, and its
/// text.
pub type Entry = (usize, String);

/// The entries of a track as plain values.
pub open spec fn entries_view(entries: Seq<Entry>) -> Seq<(usize, Seq<char>)> {
    entries.map_values(|entry: Entry| (entry.0, entry.1@))
}

/// What a line gives to an auxiliary track, from the text of its start and
/// its text without tags: an entry where the text is not empty, and the
/// fault where the start is no time.
pub open spec fn entry_from(start: Seq<char>, plain: Seq<char>) -> Result<
    Option<(usize, Seq<char>)>,
    FieldFault,
> {
    match time_value(start) {
        Ok(start_ms) => if plain.len() > 0 {
            Ok(Some((start_ms, plain)))
        } else {
            Ok(None)
        },
        Err(fault) => Err(fault),
    }
}

/// What a line gives to an auxiliary track, from the texts of its start and
/// its text as they stand in the line.
pub open spec fn timed_plain_text(m: Matchers, start: Seq<char>, text: Seq<char>) -> Result<
    Option<(usize, Seq<char>)>,
    FieldFault,
> {
    entry_from(start, without_tags(m, text))
}

/// An entry that may be there, or a fault, as plain values.
pub open spec fn entry_outcome(r: Result<Option<Entry>, FieldFault>) -> Result<
    Option<(usize, Seq<char>)>,
    FieldFault,
> {
    match r {
        Ok(Some(entry)) => Ok(Some((entry.0, entry.1@))),
        Ok(None) => Ok(None),
        Err(fault) => Err(fault),
    }
}

/// What a line gives to the romanisation, and whether it calls for a
/// warning. A line gives something where it is a dialogue of the style
/// `roma`, in any case of the letters; it warns where its start cannot be
/// read.
#[verifier::opaque]
pub open spec fn roma_of_line(m: Matchers, line: Seq<char>) -> (Option<(usize, Seq<char>)>, bool) {
    if !is_dialogue_line(line) {
        (None, false)
    } else {
        match regex_captures(m.dialogue, line) {
            Some(groups) if same_ignoring_ascii_case(trim(group_text(line, groups, 3)), "roma"@) => {
                match timed_plain_text(
                    m,
                    group_text(line, groups, 1),
                    group_text(line, groups, 5),
                ) {
                    Ok(entry) => (entry, false),
                    Err(_) => (None, true),
                }
            },
            _ => (None, false),
        }
    }
}

/// Whether a style is one of the two that mark a translation.
pub open spec fn is_translation_style(style: Seq<char>) -> bool {
    style == "ts"@ || style == "trans"@
}

/// What a line gives to the translations, with its language, and whether it
/// calls for a warning. A line gives something where it is a dialogue of a
/// translation style whose role tag names a language, `x-lang:code`; the
/// language is the code in lower case. It warns where its start cannot be
/// read.
#[verifier::opaque]
pub open spec fn translation_of_line(m: Matchers, line: Seq<char>) -> (
    Option<(Seq<char>, (usize, Seq<char>))>,
    bool,
) {
    if !is_dialogue_line(line) {
        (None, false)
    } else {
        match regex_captures(m.dialogue, line) {
            Some(groups) if is_translation_style(trim(group_text(line, groups, 3))) => {
                let name = trim(group_text(line, groups, 4));
                match regex_captures(m.lang_tag, name) {
                    Some(lang) => match timed_plain_text(
                        m,
                        group_text(line, groups, 1),
                        group_text(line, groups, 5),
                    ) {
                        Ok(Some(entry)) => (Some((lowercase(group_text(name, lang, 1)), entry)), false),
                        Ok(None) => (None, false),
                        Err(_) => (None, true),
                    },
                    None => (None, false),
                }
            },
            _ => (None, false),
        }
    }
}

/// `entry` set into entries that are in the order of their starts: behind
/// every entry that begins no later.
pub open spec fn insert_by_start(sorted: Seq<(usize, Seq<char>)>, entry: (usize, Seq<char>)) -> Seq<
    (usize, Seq<char>),
>
    decreases sorted.len(),
{
    if sorted.len() > 0 && sorted.last().0 > entry.0 {
        insert_by_start(sorted.drop_last(), entry).push(sorted.last())
    } else {
        sorted.push(entry)
    }
}

/// The entries in the order of their starts; entries that begin together
/// keep their order.
pub open spec fn sorted_by_start(entries: Seq<(usize, Seq<char>)>) -> Seq<(usize, Seq<char>)>
    decreases entries.len(),
{
    if entries.len() == 0 {
        Seq::empty()
    } else {
        insert_by_start(sorted_by_start(entries.drop_last()), entries.last())
    }
}

/// Whether no entry begins before the one in front of it.
pub open spec fn in_order(entries: Seq<(usize, Seq<char>)>) -> bool {
    forall|i: int, j: int| 0 <= i <= j < entries.len() ==> entries[i].0 <= entries[j].0
}

/// An entry as a line of LRC.
pub open spec fn lrc_line_text() -> spec_fn((usize, Seq<char>)) -> Seq<char> {
    |entry: (usize, Seq<char>)| lrc_time_text(entry.0 as nat) + entry.1
}

/// The lines of LRC for the entries of a track, in the order of their
/// starts.
pub open spec fn lrc_lines(entries: Seq<(usize, Seq<char>)>) -> Seq<Seq<char>> {
    sorted_by_start(entries).map_values(lrc_line_text())
}

/// The entry of a line for the romanisation.
pub open spec fn roma_entry() -> spec_fn(Matchers) -> spec_fn((Seq<char>, usize)) -> Option<
    (usize, Seq<char>),
> {
    |m: Matchers| |event: (Seq<char>, usize)| roma_of_line(m, event.0).0
}

/// The entries of the romanisation of a file, in its order.
pub open spec fn roma_entries(m: Matchers, lines: Seq<Seq<char>>) -> Seq<(usize, Seq<char>)> {
    events(lines).filter_map(roma_entry()(m))
}

/// Whether a line of the romanisation of a file calls for a warning.
pub open spec fn roma_warns(m: Matchers, lines: Seq<Seq<char>>) -> bool {
    exists|i: int| 0 <= i < events(lines).len() && roma_of_line(m, (#[trigger] events(lines)[i]).0).1
}

/// The entry of a line for the translations, with its language.
pub open spec fn translation_entry() -> spec_fn(Matchers) -> spec_fn((Seq<char>, usize)) -> Option<
    (Seq<char>, (usize, Seq<char>)),
> {
    |m: Matchers| |event: (Seq<char>, usize)| translation_of_line(m, event.0).0
}

/// The entries of the translations of a file, each with its language, in
/// its order.
pub open spec fn translation_entries(m: Matchers, lines: Seq<Seq<char>>) -> Seq<
    (Seq<char>, (usize, Seq<char>)),
> {
    events(lines).filter_map(translation_entry()(m))
}

/// Whether a line of the translations of a file calls for a warning.
pub open spec fn translation_warns(m: Matchers, lines: Seq<Seq<char>>) -> bool {
    exists|i: int|
        0 <= i < events(lines).len() && translation_of_line(m, (#[trigger] events(lines)[i]).0).1
}

/// The languages of entries, each once, in the order in which they first
/// come.
pub open spec fn languages(entries: Seq<(Seq<char>, (usize, Seq<char>))>) -> Seq<Seq<char>>
    decreases entries.len(),
{
    if entries.len() == 0 {
        Seq::empty()
    } else {
        let before = languages(entries.drop_last());
        if before.contains(entries.last().0) {
            before
        } else {
            before.push(entries.last().0)
        }
    }
}

/// The entries of one language, in their order.
pub open spec fn entries_in(entries: Seq<(Seq<char>, (usize, Seq<char>))>, language: Seq<char>) -> Seq<
    (usize, Seq<char>),
>
    decreases entries.len(),
{
    if entries.len() == 0 {
        Seq::empty()
    } else if entries.last().0 == language {
        entries_in(entries.drop_last(), language).push(entries.last().1)
    } else {
        entries_in(entries.drop_last(), language)
    }
}

/// Setting an entry into ordered entries at the place behind the last
/// entry that begins no later.
pub proof fn lemma_insert_by_start(sorted: Seq<(usize, Seq<char>)>, entry: (usize, Seq<char>), at: int)
    requires
        0 <= at <= sorted.len(),
        forall|j: int| at <= j < sorted.len() ==> (#[trigger] sorted[j]).0 > entry.0,
        at > 0 ==> sorted[at - 1].0 <= entry.0,
    ensures
        insert_by_start(sorted, entry) == sorted.insert(at, entry),
    decreases sorted.len() - at,
{
    if at == sorted.len() {
        assert(sorted.insert(at, entry) =~= sorted.push(entry));
    } else {
        lemma_insert_by_start(sorted.drop_last(), entry, at);
        assert(sorted.drop_last().insert(at, entry).push(sorted.last()) =~= sorted.insert(
            at,
            entry,
        ));
    }
}

/// Setting an entry into ordered entries keeps them ordered and adds that
/// entry alone.
pub proof fn lemma_insert_keeps_order(sorted: Seq<(usize, Seq<char>)>, entry: (usize, Seq<char>))
    requires
        in_order(sorted),
    ensures
        in_order(insert_by_start(sorted, entry)),
        insert_by_start(sorted, entry).to_multiset() == sorted.to_multiset().insert(entry),
        insert_by_start(sorted, entry).len() == sorted.len() + 1,
    decreases sorted.len(),
{
    broadcast use vstd::seq_lib::group_to_multiset_ensures;

    if sorted.len() > 0 && sorted.last().0 > entry.0 {
        let front = sorted.drop_last();
        assert forall|i: int, j: int| 0 <= i <= j < front.len() implies front[i].0 <= front[j].0 by {
            assert(front[i] == sorted[i] && front[j] == sorted[j]);
        }
        lemma_insert_keeps_order(front, entry);
        let merged = insert_by_start(front, entry);
        let out = merged.push(sorted.last());
        assert forall|i: int, j: int| 0 <= i <= j < out.len() implies out[i].0 <= out[j].0 by {
            if j == out.len() - 1 && i < j {
                assert(merged.to_multiset().count(merged[i]) > 0);
                if merged[i] != entry {
                    assert(front.to_multiset().count(merged[i]) > 0);
                    let k = choose|k: int| 0 <= k < front.len() && front[k] == merged[i];
                    assert(sorted[k].0 <= sorted[sorted.len() - 1].0);
                }
            }
        }
        assert(sorted =~= front.push(sorted.last()));
    } else {
        let out = sorted.push(entry);
        assert forall|i: int, j: int| 0 <= i <= j < out.len() implies out[i].0 <= out[j].0 by {
            if j == out.len() - 1 && i < j {
                assert(sorted[i].0 <= sorted[sorted.len() - 1].0);
            }
        }
    }
}

/// Ordering by start gives the same entries, none begins before the one in
/// front of it.
pub proof fn lemma_sorted_by_start(entries: Seq<(usize, Seq<char>)>)
    ensures
        in_order(sorted_by_start(entries)),
        sorted_by_start(entries).to_multiset() == entries.to_multiset(),
        sorted_by_start(entries).len() == entries.len(),
    decreases entries.len(),
{
    broadcast use vstd::seq_lib::group_to_multiset_ensures;

    if entries.len() > 0 {
        lemma_sorted_by_start(entries.drop_last());
        lemma_insert_keeps_order(sorted_by_start(entries.drop_last()), entries.last());
        assert(entries =~= entries.drop_last().push(entries.last()));
    }
}

/// Puts entries in the order of their starts.
pub fn sort_by_start(entries: &Vec<Entry>) -> (sorted: Vec<Entry>)
    ensures
        entries_view(sorted@) == sorted_by_start(entries_view(entries@)),
{
    let ghost all = entries_view(entries@);
    let mut sorted: Vec<Entry> = Vec::new();
    let mut i: usize = 0;
    assert(all.take(0) =~= Seq::empty());
    assert(entries_view(sorted@) =~= Seq::empty());
    while i < entries.len()
        invariant
            i <= entries.len(),
            all == entries_view(entries@),
            sorted@.len() == i,
            entries_view(sorted@) == sorted_by_start(all.take(i as int)),
        decreases entries.len() - i,
    {
        let ghost next = all.take(i + 1);
        let ghost before = entries_view(sorted@);
        assert(next.drop_last() =~= all.take(i as int));
        assert(next.last() == all[i as int]);
        let start = entries[i].0;
        let text = entries[i].1.clone();
        let mut at: usize = sorted.len();
        while at > 0 && sorted[at - 1].0 > start
            invariant
                at <= sorted.len(),
                before == entries_view(sorted@),
                forall|j: int| at <= j < sorted@.len() ==> (#[trigger] before[j]).0 > start,
            decreases at,
        {
            at -= 1;
        }
        proof {
            if at > 0 {
                assert(before[at - 1].0 == sorted@[at - 1].0);
            }
            lemma_insert_by_start(before, all[i as int], at as int);
        }
        sorted.insert(at, (start, text));
        assert(entries_view(sorted@) =~= before.insert(at as int, all[i as int]));
        i += 1;
    }
    assert(all.take(i as int) =~= all);
    sorted
}

/// Writes the entries of a track as lines of LRC, in the order of their
/// starts.
pub fn write_lrc_lines(entries: &Vec<Entry>) -> (lines: Vec<String>)
    ensures
        lines_view(lines@) == lrc_lines(entries_view(entries@)),
{
    let sorted = sort_by_start(entries);
    let ghost all = entries_view(sorted@);
    let mut lines: Vec<String> = Vec::new();
    let mut i: usize = 0;
    assert(lines_view(lines@) =~= all.take(0).map_values(lrc_line_text()));
    while i < sorted.len()
        invariant
            i <= sorted.len(),
            all == entries_view(sorted@),
            lines_view(lines@) == all.take(i as int).map_values(lrc_line_text()),
        decreases sorted.len() - i,
    {
        let ghost before = lines_view(lines@);
        let mut line = milliseconds_to_lrc_time(sorted[i].0);
        line.append(sorted[i].1.as_str());
        lines.push(line);
        assert(lines_view(lines@) =~= before.push(line@));
        i += 1;
        assert(lines_view(lines@) =~= all.take(i as int).map_values(lrc_line_text()));
    }
    assert(all.take(i as int) =~= all);
    lines
}

/// Makes the entry of a line of an auxiliary track from the text of its
/// start and its text without tags.
pub fn read_entry(start: &str, plain_text: String) -> (r: Result<Option<Entry>, FieldFault>)
    ensures
        entry_outcome(r) == entry_from(start@, plain_text@),
{
    let start_chars = chars_of(start);
    match parse_time(start_chars.as_slice()) {
        Ok(start_ms) => {
            if !plain_text.as_str().is_empty() {
                Ok(Some((start_ms, plain_text)))
            } else {
                Ok(None)
            }
        },
        Err(fault) => Err(fault),
    }
}

/// Reads the start and the text of a line of an auxiliary track.
fn read_timed_plain_text(m: &Matchers, start: &str, text: &str) -> (r: Result<
    Option<Entry>,
    FieldFault,
>)
    requires
        m.wf(),
    ensures
        entry_outcome(r) == timed_plain_text(*m, start@, text@),
{
    read_entry(start, strip_ass_tags(m, text))
}

/// What a line gives to the romanisation, and whether it calls for a
/// warning.
pub fn read_roma_line(m: &Matchers, line: &str) -> (r: (Option<Entry>, bool))
    requires
        m.wf(),
    ensures
        match r.0 {
            Some(entry) => roma_of_line(*m, line@).0 == Some((entry.0, entry.1@)),
            None => roma_of_line(*m, line@).0 is None,
        },
        r.1 == roma_of_line(*m, line@).1,
{
    reveal(roma_of_line);
    if !dialogue_line(line) {
        return (None, false);
    }
    let groups = match captures(&m.dialogue, line) {
        Some(groups) => groups,
        None => {
            return (None, false);
        },
    };
    let style_chars = chars_of(group_str(line, &groups, 3));
    if !spells_ignoring_ascii_case(trimmed(style_chars.as_slice()), "roma") {
        return (None, false);
    }
    match read_timed_plain_text(m, group_str(line, &groups, 1), group_str(line, &groups, 5)) {
        Ok(entry) => (entry, false),
        Err(_) => (None, true),
    }
}

/// What a line gives to the translations, with its language, and whether
/// it calls for a warning.
pub fn read_translation_line(m: &Matchers, line: &str) -> (r: (Option<(String, Entry)>, bool))
    requires
        m.wf(),
    ensures
        match r.0 {
            Some(found) => translation_of_line(*m, line@).0 == Some(
                (found.0@, (found.1.0, found.1.1@)),
            ),
            None => translation_of_line(*m, line@).0 is None,
        },
        r.1 == translation_of_line(*m, line@).1,
{
    reveal(translation_of_line);
    if !dialogue_line(line) {
        return (None, false);
    }
    let groups = match captures(&m.dialogue, line) {
        Some(groups) => groups,
        None => {
            return (None, false);
        },
    };
    let style_chars = chars_of(group_str(line, &groups, 3));
    let style = trimmed(style_chars.as_slice());
    if !(spells(style, "ts") || spells(style, "trans")) {
        return (None, false);
    }
    let name_chars = chars_of(group_str(line, &groups, 4));
    let name = string_of(trimmed(name_chars.as_slice()));
    let lang = match captures(&m.lang_tag, name.as_str()) {
        Some(lang) => lang,
        None => {
            return (None, false);
        },
    };
    let lang_code = group_str(name.as_str(), &lang, 1).to_lowercase();
    match read_timed_plain_text(m, group_str(line, &groups, 1), group_str(line, &groups, 5)) {
        Ok(Some(entry)) => (Some((lang_code, entry)), false),
        Ok(None) => (None, false),
        Err(_) => (None, true),
    }
}

/// The lines of LRC for the romanisation of a file of ASS, and whether a
/// line of it called for a warning.
pub fn extract_roma_to_lrc(m: &Matchers, lines: &Vec<String>) -> (r: (Vec<String>, bool))
    requires
        m.wf(),
    ensures
        lines_view(r.0@) == lrc_lines(roma_entries(*m, lines_view(lines@))),
        r.1 == roma_warns(*m, lines_view(lines@)),
{
    let ghost all = lines_view(lines@);
    let ghost ev = events(all);
    let start = find_events(lines);
    let mut roma_lines: Vec<Entry> = Vec::new();
    let mut warned = false;
    let mut i: usize = start;
    assert(ev.take(0) =~= Seq::empty());
    assert(entries_view(roma_lines@) =~= Seq::empty());
    while i < lines.len()
        invariant
            m.wf(),
            start <= i <= lines.len(),
            all == lines_view(lines@),
            ev == events(all),
            start == events_start(all),
            ev.len() == lines.len() - start,
            entries_view(roma_lines@) == ev.take(i - start).filter_map(roma_entry()(*m)),
            warned == (exists|j: int| 0 <= j < i - start && roma_of_line(*m, (#[trigger] ev[j]).0).1),
        decreases lines.len() - i,
    {
        let ghost k = i - start;
        let ghost before = entries_view(roma_lines@);
        let ghost old_warned = warned;
        assert(ev[k] == (all[i as int], (i + 1) as usize));
        assert(all[i as int] == lines@[i as int]@);
        proof {
            ev.lemma_filter_map_take_succ(roma_entry()(*m), k);
        }
        let (entry, line_warned) = read_roma_line(m, lines[i].as_str());
        match entry {
            Some(entry) => {
                roma_lines.push(entry);
                assert(entries_view(roma_lines@) =~= before.push((entry.0, entry.1@)));
            },
            None => {},
        }
        if line_warned {
            warned = true;
        }
        assert(warned == (old_warned || roma_of_line(*m, ev[k].0).1));
        i += 1;
        assert(entries_view(roma_lines@) =~= ev.take(i - start).filter_map(roma_entry()(*m)));
    }
    assert(ev.take(i - start) =~= ev);
    (write_lrc_lines(&roma_lines), warned)
}

/// The translations of one language: the language, and its lines of LRC.
pub type Track = (String, Vec<String>);

/// The tracks of a file as plain values.
pub open spec fn tracks_view(tracks: Seq<Track>) -> Seq<(Seq<char>, Seq<Seq<char>>)> {
    tracks.map_values(|track: Track| (track.0@, lines_view(track.1@)))
}

/// The track of one language among `entries`.
pub open spec fn track_of(entries: Seq<(Seq<char>, (usize, Seq<char>))>) -> spec_fn(Seq<char>) -> (
    Seq<char>,
    Seq<Seq<char>>,
) {
    |language: Seq<char>| (language, lrc_lines(entries_in(entries, language)))
}

/// The tracks of the translations `entries`: one for each language, in the
/// order in which the languages first come.
pub open spec fn translation_tracks(entries: Seq<(Seq<char>, (usize, Seq<char>))>) -> Seq<
    (Seq<char>, Seq<Seq<char>>),
> {
    languages(entries).map_values(track_of(entries))
}

/// The entries gathered for one language.
type Gathered = (String, Vec<Entry>);

/// What has been gathered holds, for each language of `entries`, in the
/// order in which the languages first come, the entries of that language.
spec fn gathered_is(gathered: Seq<Gathered>, entries: Seq<(Seq<char>, (usize, Seq<char>))>) -> bool {
    &&& gathered.len() == languages(entries).len()
    &&& forall|g: int|
        0 <= g < gathered.len() ==> {
            &&& (#[trigger] gathered[g]).0@ == languages(entries)[g]
            &&& entries_view(gathered[g].1@) == entries_in(entries, gathered[g].0@)
        }
}

/// Where the entries of `language` are gathered, if any are.
fn find_language(gathered: &Vec<Gathered>, language: &String) -> (found: Option<usize>)
    ensures
        match found {
            Some(g) => g < gathered@.len() && gathered@[g as int].0@ == language@,
            None => forall|g: int| 0 <= g < gathered@.len() ==> (#[trigger] gathered@[g]).0@ != language@,
        },
{
    let mut g: usize = 0;
    while g < gathered.len()
        invariant
            g <= gathered.len(),
            forall|j: int| 0 <= j < g ==> (#[trigger] gathered@[j]).0@ != language@,
        decreases gathered.len() - g,
    {
        if gathered[g].0 == *language {
            return Some(g);
        }
        g += 1;
    }
    None
}

/// Adds an entry of `language` to what has been gathered.
fn gather(
    gathered: &mut Vec<Gathered>,
    language: String,
    entry: Entry,
    Ghost(entries): Ghost<Seq<(Seq<char>, (usize, Seq<char>))>>,
)
    requires
        gathered_is(old(gathered)@, entries),
    ensures
        gathered_is(final(gathered)@, entries.push((language@, (entry.0, entry.1@)))),
{
    let ghost added = (language@, (entry.0, entry.1@));
    let ghost next = entries.push(added);
    let ghost before = gathered@;
    assert(next.drop_last() =~= entries);
    assert(next.last() == added);
    match find_language(gathered, &language) {
        Some(g) => {
            assert(languages(entries)[g as int] == language@);
            assert(languages(entries).contains(language@));
            let mut group = gathered.remove(g);
            let ghost held = entries_view(group.1@);
            group.1.push(entry);
            assert(entries_view(group.1@) =~= held.push((entry.0, entry.1@)));
            gathered.insert(g, group);
            assert forall|j: int| 0 <= j < gathered@.len() implies {
                &&& (#[trigger] gathered@[j]).0@ == languages(next)[j]
                &&& entries_view(gathered@[j].1@) == entries_in(next, gathered@[j].0@)
            } by {
                if j != g {
                    assert(gathered@[j] == before[j]);
                    assert(before[j].0@ == languages(entries)[j]);
                    if before[j].0@ == language@ {
                        lemma_languages_differ(entries, j, g as int);
                    }
                }
            }
        },
        None => {
            assert(!languages(entries).contains(language@)) by {
                if languages(entries).contains(language@) {
                    let j = choose|j: int|
                        0 <= j < languages(entries).len() && languages(entries)[j] == language@;
                    assert(before[j].0@ == languages(entries)[j]);
                }
            }
            let mut held: Vec<Entry> = Vec::new();
            held.push(entry);
            assert(entries_view(held@) =~= seq![(entry.0, entry.1@)]);
            proof {
                lemma_entries_of_new_language(entries, language@);
            }
            gathered.push((language, held));
            assert forall|j: int| 0 <= j < gathered@.len() implies {
                &&& (#[trigger] gathered@[j]).0@ == languages(next)[j]
                &&& entries_view(gathered@[j].1@) == entries_in(next, gathered@[j].0@)
            } by {
                if j < before.len() {
                    assert(gathered@[j] == before[j]);
                    assert(before[j].0@ == languages(entries)[j]);
                } else {
                    assert(entries_view(gathered@[j].1@) =~= entries_in(next, language@));
                }
            }
        },
    }
}

/// No language comes twice among the languages of entries.
pub proof fn lemma_languages_differ(entries: Seq<(Seq<char>, (usize, Seq<char>))>, i: int, j: int)
    requires
        0 <= i < languages(entries).len(),
        0 <= j < languages(entries).len(),
        i != j,
    ensures
        languages(entries)[i] != languages(entries)[j],
    decreases entries.len(),
{
    if entries.len() > 0 {
        let before = languages(entries.drop_last());
        if before.contains(entries.last().0) {
            lemma_languages_differ(entries.drop_last(), i, j);
        } else if i < before.len() && j < before.len() {
            lemma_languages_differ(entries.drop_last(), i, j);
        } else if i < before.len() {
            assert(before.contains(before[i]));
        } else {
            assert(before.contains(before[j]));
        }
    }
}

/// Every language of an entry is among the languages of the entries.
pub proof fn lemma_language_is_listed(entries: Seq<(Seq<char>, (usize, Seq<char>))>, i: int)
    requires
        0 <= i < entries.len(),
    ensures
        languages(entries).contains(entries[i].0),
    decreases entries.len(),
{
    let before = languages(entries.drop_last());
    if i < entries.len() - 1 {
        lemma_language_is_listed(entries.drop_last(), i);
        let k = choose|k: int| 0 <= k < before.len() && before[k] == entries[i].0;
        assert(languages(entries)[k] == entries[i].0);
    } else if before.contains(entries.last().0) {
    } else {
        assert(languages(entries)[before.len() as int] == entries.last().0);
    }
}

/// A language that is not among the languages of entries has no entries
/// among them.
pub proof fn lemma_entries_of_new_language(entries: Seq<(Seq<char>, (usize, Seq<char>))>, language: Seq<char>)
    requires
        !languages(entries).contains(language),
    ensures
        entries_in(entries, language) == Seq::<(usize, Seq<char>)>::empty(),
    decreases entries.len(),
{
    if entries.len() > 0 {
        let front = entries.drop_last();
        lemma_language_is_listed(entries, entries.len() - 1);
        if languages(front).contains(language) {
            let k = choose|k: int| 0 <= k < languages(front).len() && languages(front)[k] == language;
            assert(languages(entries)[k] == language);
        }
        lemma_entries_of_new_language(front, language);
    }
}

/// The tracks of LRC for the translations of a file of ASS, one for each
/// language, and whether a line of them called for a warning.
pub fn extract_translations_to_lrc(m: &Matchers, lines: &Vec<String>) -> (r: (Vec<Track>, bool))
    requires
        m.wf(),
    ensures
        tracks_view(r.0@) == translation_tracks(translation_entries(*m, lines_view(lines@))),
        r.1 == translation_warns(*m, lines_view(lines@)),
{
    let ghost all = lines_view(lines@);
    let ghost ev = events(all);
    let start = find_events(lines);
    let mut translations: Vec<Gathered> = Vec::new();
    let mut warned = false;
    let mut i: usize = start;
    let ghost mut entries: Seq<(Seq<char>, (usize, Seq<char>))> = Seq::empty();
    assert(ev.take(0) =~= Seq::empty());
    while i < lines.len()
        invariant
            m.wf(),
            start <= i <= lines.len(),
            all == lines_view(lines@),
            ev == events(all),
            start == events_start(all),
            ev.len() == lines.len() - start,
            entries == ev.take(i - start).filter_map(translation_entry()(*m)),
            gathered_is(translations@, entries),
            warned == (exists|j: int|
                0 <= j < i - start && translation_of_line(*m, (#[trigger] ev[j]).0).1),
        decreases lines.len() - i,
    {
        let ghost k = i - start;
        let ghost old_warned = warned;
        assert(ev[k] == (all[i as int], (i + 1) as usize));
        assert(all[i as int] == lines@[i as int]@);
        proof {
            ev.lemma_filter_map_take_succ(translation_entry()(*m), k);
        }
        let (found, line_warned) = read_translation_line(m, lines[i].as_str());
        match found {
            Some((language, entry)) => {
                let ghost added = (language@, (entry.0, entry.1@));
                gather(&mut translations, language, entry, Ghost(entries));
                proof {
                    entries = entries.push(added);
                }
            },
            None => {},
        }
        if line_warned {
            warned = true;
        }
        assert(warned == (old_warned || translation_of_line(*m, ev[k].0).1));
        i += 1;
        assert(entries =~= ev.take(i - start).filter_map(translation_entry()(*m)));
    }
    assert(ev.take(i - start) =~= ev);
    let mut tracks: Vec<Track> = Vec::new();
    let mut g: usize = 0;
    assert(tracks_view(tracks@) =~= languages(entries).take(0).map_values(track_of(entries)));
    while g < translations.len()
        invariant
            m.wf(),
            g <= translations.len(),
            gathered_is(translations@, entries),
            tracks_view(tracks@) == languages(entries).take(g as int).map_values(track_of(entries)),
        decreases translations.len() - g,
    {
        let ghost before = tracks_view(tracks@);
        let language = translations[g].0.clone();
        let track = write_lrc_lines(&translations[g].1);
        assert(translations@[g as int].0@ == languages(entries)[g as int]);
        tracks.push((language, track));
        assert(tracks_view(tracks@) =~= before.push((language@, lines_view(track@))));
        g += 1;
        assert(tracks_view(tracks@) =~= languages(entries).take(g as int).map_values(
            track_of(entries),
        ));
    }
    assert(languages(entries).take(g as int) =~= languages(entries));
    (tracks, warned)
}

} // verus!
