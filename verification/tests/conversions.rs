use lyric_convert::convert::{
    ass_dialogue_line, convert_ass_to_lys, convert_ass_to_qrc, convert_lys_line, convert_lys_to_ass,
    convert_qrc_line, convert_qrc_to_ass, lys_line_from_parts, qrc_line_from_parts, write_ass_header,
};
use lyric_convert::error::{FieldFault, IntErrorKind};
use lyric_convert::lrc::{read_entry, sort_by_start, write_lrc_lines};
use lyric_convert::matcher::Matchers;
use lyric_convert::rebuild::{
    read_tokens, read_word_token, rebuild_text, remove_zero_tags, WordToken,
};

fn matchers() -> Matchers {
    Matchers::new().unwrap()
}

fn lines(text: &[&str]) -> Vec<String> {
    text.iter().map(|l| l.to_string()).collect()
}

fn token(text: &str, start_ms: usize, duration_ms: usize) -> WordToken {
    WordToken { text_before: text.to_string(), start_ms, duration_ms }
}

const FORMAT: &str = "Format: Layer, Start, End, Style, Name, MarginL, MarginR, MarginV, Effect, Text";

#[test]
fn silence_between_and_behind_words_gets_tags_of_its_own() {
    let m = matchers();
    let (line, warned) = convert_qrc_line(&m, "[500,2500]word1(1000,500)word2(2000,500)");
    assert_eq!(
        line,
        Some(
            "Dialogue: 0,0:00:00.50,0:00:03.00,Default,,0,0,0,,{\\k50}{\\k50}word1{\\k50}{\\k50}word2{\\k50}"
                .to_string()
        )
    );
    assert!(!warned);
}

#[test]
fn line_that_begins_with_its_first_word_has_no_tag_in_front() {
    let m = matchers();
    let (line, _) = convert_qrc_line(&m, "[1000,2000]word1(1000,500)word2(2000,500)");
    assert_eq!(
        line,
        Some(
            "Dialogue: 0,0:00:01.00,0:00:03.00,Default,,0,0,0,,{\\k50}word1{\\k50}{\\k50}word2{\\k50}"
                .to_string()
        )
    );
}

#[test]
fn reconstruction_from_tokens() {
    let tokens = vec![token("word1", 1000, 500), token("word2", 2000, 500)];
    assert_eq!(
        rebuild_text(500, 3000, &tokens, ""),
        "{\\k50}{\\k50}word1{\\k50}{\\k50}word2{\\k50}"
    );
    assert_eq!(rebuild_text(1000, 2500, &tokens, ""), "{\\k50}word1{\\k50}{\\k50}word2");
}

#[test]
fn silence_shorter_than_half_a_centisecond_gets_no_tag() {
    let tokens = vec![token("a", 1004, 100), token("b", 1108, 100)];
    assert_eq!(rebuild_text(1000, 1212, &tokens, ""), "{\\k10}a{\\k10}b");
    let tokens = vec![token("a", 1005, 100), token("b", 1110, 100)];
    assert_eq!(rebuild_text(1000, 1215, &tokens, ""), "{\\k1}{\\k10}a{\\k1}{\\k10}b{\\k1}");
}

#[test]
fn word_without_duration_keeps_its_text_and_gets_no_tag() {
    let tokens = vec![token("a", 0, 0), token("", 0, 0), token("b", 0, 4), token("c", 4, 6)];
    assert_eq!(rebuild_text(0, 10, &tokens, ""), "ab{\\k1}c");
}

#[test]
fn text_behind_the_last_word_is_tagged_with_the_rest_of_the_line() {
    let tokens = vec![token("a", 0, 100)];
    assert_eq!(rebuild_text(0, 300, &tokens, "tail"), "{\\k10}a{\\k20}tail");
    assert_eq!(rebuild_text(0, 100, &tokens, "tail"), "{\\k10}atail");
    assert_eq!(rebuild_text(0, 50, &tokens, "tail"), "{\\k10}atail");
    assert_eq!(rebuild_text(0, 104, &tokens, "tail"), "{\\k10}atail");
}

#[test]
fn line_without_words() {
    let none: Vec<WordToken> = Vec::new();
    assert_eq!(rebuild_text(0, 0, &none, ""), "");
    assert_eq!(rebuild_text(0, 1000, &none, ""), "{\\k100}");
    assert_eq!(rebuild_text(0, 1000, &none, "text"), "{\\k100}text");
    assert_eq!(rebuild_text(1000, 0, &none, "text"), "text");
}

#[test]
fn word_that_overlaps_the_one_before_gets_no_silence() {
    let tokens = vec![token("a", 0, 500), token("b", 300, 500)];
    assert_eq!(rebuild_text(0, 800, &tokens, ""), "{\\k50}a{\\k50}b");
}

#[test]
fn end_of_a_word_saturates() {
    let tokens = vec![token("a", usize::MAX - 10, 100)];
    assert_eq!(rebuild_text(usize::MAX - 10, usize::MAX, &tokens, ""), "{\\k10}a");
}

#[test]
fn qrc_line_without_header_gives_nothing() {
    let m = matchers();
    assert_eq!(convert_qrc_line(&m, "[ti:Song]"), (None, false));
    assert_eq!(convert_qrc_line(&m, ""), (None, false));
    assert_eq!(convert_qrc_line(&m, "plain text"), (None, false));
}

#[test]
fn qrc_header_may_stand_inside_the_line() {
    let m = matchers();
    let (line, warned) = convert_qrc_line(&m, "junk[0,1000]a(0,1000)");
    assert_eq!(
        line,
        Some("Dialogue: 0,0:00:00.00,0:00:01.00,Default,,0,0,0,,{\\k100}a".to_string())
    );
    assert!(!warned);
}

#[test]
fn qrc_line_with_numbers_that_do_not_fit_is_left_out_with_a_warning() {
    let m = matchers();
    assert_eq!(convert_qrc_line(&m, "[99999999999999999999999,10]a(0,10)"), (None, true));
    assert_eq!(convert_qrc_line(&m, "[0,10]a(0,99999999999999999999999)"), (None, true));
    assert_eq!(convert_qrc_line(&m, "[0,10]a(٣,10)"), (None, true));
}

#[test]
fn qrc_line_that_leaves_no_text_gives_nothing() {
    let m = matchers();
    assert_eq!(convert_qrc_line(&m, "[1000,0]"), (None, false));
    assert_eq!(convert_qrc_line(&m, "[1000,4](1000,4)"), (None, false));
}

#[test]
fn qrc_line_with_text_outside_ascii() {
    let m = matchers();
    let (line, warned) = convert_qrc_line(&m, "[0,1000]你(0,400)好 (400,600)世界");
    assert_eq!(
        line,
        Some("Dialogue: 0,0:00:00.00,0:00:01.00,Default,,0,0,0,,{\\k40}你{\\k60}好 世界".to_string())
    );
    assert!(!warned);
}

#[test]
fn qrc_file_becomes_an_ass_file() {
    let m = matchers();
    let out = convert_qrc_to_ass(
        &m,
        &lines(&["[ti:Song]", "[0,1000]a(0,400)b(400,600)", "", "[2000,500]c(2000,500)"]),
    );
    let mut expected = write_ass_header();
    expected.push("Dialogue: 0,0:00:00.00,0:00:01.00,Default,,0,0,0,,{\\k40}a{\\k60}b".to_string());
    expected.push("Dialogue: 0,0:00:02.00,0:00:02.50,Default,,0,0,0,,{\\k50}c".to_string());
    assert_eq!(out.lines, expected);
    assert!(!out.warned);
}

#[test]
fn qrc_file_with_an_unreadable_line_goes_on_with_a_warning() {
    let m = matchers();
    let out = convert_qrc_to_ass(
        &m,
        &lines(&["[0,1000]a(0,99999999999999999999999)", "[2000,500]c(2000,500)"]),
    );
    assert_eq!(out.lines.len(), 11);
    assert_eq!(out.lines[10], "Dialogue: 0,0:00:02.00,0:00:02.50,Default,,0,0,0,,{\\k50}c");
    assert!(out.warned);
}

#[test]
fn written_ass_file_begins_with_the_fixed_header() {
    let header = write_ass_header();
    assert_eq!(header.len(), 10);
    assert_eq!(header[0], "[Script Info]");
    assert_eq!(header[1], "PlayResX: 1920");
    assert_eq!(header[2], "PlayResY: 1440");
    assert_eq!(header[3], "");
    assert_eq!(header[4], "[V4+ Styles]");
    assert!(header[5].starts_with("Format: Name, Fontname, Fontsize,"));
    assert!(header[6].starts_with("Style: Default,微软雅黑,100,"));
    assert_eq!(header[7], "");
    assert_eq!(header[8], "[Events]");
    assert_eq!(header[9], FORMAT);
    let m = matchers();
    assert_eq!(convert_qrc_to_ass(&m, &Vec::new()).lines, header);
    assert_eq!(convert_lys_to_ass(&m, &Vec::new()).lines, header);
}

#[test]
fn dialogue_line_in_the_default_style() {
    assert_eq!(
        ass_dialogue_line(1000, 3_723_450, "右", "{\\k10}a"),
        "Dialogue: 0,0:00:01.00,1:02:03.45,Default,右,0,0,0,,{\\k10}a"
    );
}

#[test]
fn lys_line_lasts_from_its_first_word_to_its_last() {
    let m = matchers();
    let (line, warned) = convert_lys_line(&m, "[4]word1(1000,500)word2(2000,500)");
    assert_eq!(
        line,
        Some("Dialogue: 0,0:00:01.00,0:00:02.50,Default,左,0,0,0,,{\\k50}word1{\\k50}{\\k50}word2".to_string())
    );
    assert!(!warned);
}

#[test]
fn lys_property_becomes_a_role() {
    let m = matchers();
    let role_of = |property: &str| {
        let (line, _) = convert_lys_line(&m, &format!("[{}]a(0,100)", property));
        let line = line.unwrap();
        let fields: Vec<&str> = line.split(',').collect();
        fields[4].to_string()
    };
    assert_eq!(role_of("0"), "");
    assert_eq!(role_of("1"), "左");
    assert_eq!(role_of("2"), "右");
    assert_eq!(role_of("3"), "");
    assert_eq!(role_of("4"), "左");
    assert_eq!(role_of("5"), "右");
    assert_eq!(role_of("6"), "背");
    assert_eq!(role_of("7"), "左");
    assert_eq!(role_of("8"), "右");
    assert_eq!(role_of("9"), "");
    assert_eq!(role_of("99999999999999999999999"), "");
}

#[test]
fn lys_line_without_words_gives_nothing() {
    let m = matchers();
    assert_eq!(convert_lys_line(&m, "[4]just text"), (None, false));
    assert_eq!(convert_lys_line(&m, "[4]"), (None, false));
}

#[test]
fn line_that_is_no_lys_warns_unless_blank_or_bracketed() {
    let m = matchers();
    assert_eq!(convert_lys_line(&m, "stray words"), (None, true));
    assert_eq!(convert_lys_line(&m, ""), (None, false));
    assert_eq!(convert_lys_line(&m, "   "), (None, false));
    assert_eq!(convert_lys_line(&m, "[ti:Song]"), (None, false));
    assert_eq!(convert_lys_line(&m, " [ti:Song]"), (None, true));
}

#[test]
fn lys_line_with_a_number_that_does_not_fit_is_left_out_with_a_warning() {
    let m = matchers();
    assert_eq!(convert_lys_line(&m, "[4]a(99999999999999999999999,10)"), (None, true));
}

#[test]
fn lys_line_whose_words_all_begin_at_the_largest_time_is_left_out_with_a_warning() {
    let m = matchers();
    assert_eq!(convert_lys_line(&m, &format!("[4]a({},10)", usize::MAX)), (None, true));
}

#[test]
fn lys_words_out_of_order() {
    let m = matchers();
    let (line, _) = convert_lys_line(&m, "[5]b(2000,500)a(1000,500)");
    assert_eq!(
        line,
        Some("Dialogue: 0,0:00:01.00,0:00:02.50,Default,右,0,0,0,,{\\k100}{\\k50}b{\\k50}a{\\k100}".to_string())
    );
}

#[test]
fn lys_file_becomes_an_ass_file() {
    let m = matchers();
    let out = convert_lys_to_ass(&m, &lines(&["[ti:Song]", "[4]a(0,400)b(400,600)", "oops", "[8]c(2000,500)"]));
    let mut expected = write_ass_header();
    expected.push("Dialogue: 0,0:00:00.00,0:00:01.00,Default,左,0,0,0,,{\\k40}a{\\k60}b".to_string());
    expected.push("Dialogue: 0,0:00:02.00,0:00:02.50,Default,右,0,0,0,,{\\k50}c".to_string());
    assert_eq!(out.lines, expected);
    assert!(out.warned);
}

#[test]
fn ass_file_becomes_a_qrc_file() {
    let m = matchers();
    let out = convert_ass_to_qrc(
        &m,
        &lines(&[
            "[Script Info]",
            "Dialogue: 0,0:00:09.00,0:00:09.50,orig,,0,0,0,,{\\k50}early",
            "[Events]",
            FORMAT,
            "Dialogue: 0,0:00:01.00,0:00:03.00,orig,,0,0,0,,{\\k50}he{\\k150}llo",
            "Comment: 0,0:00:00.00,0:00:00.00,meta,,0,0,0,,musicName:Song",
            "Comment: 0,0:00:00.00,0:00:00.00,meta,,0,0,0,,mood:blue",
            "Comment: 0,0:00:00.00,0:00:00.00,note,,0,0,0,,artists:Nobody",
            "",
            "Dialogue: 0,0:00:03.00,0:00:04.00,orig,,0,0,0,,{\\k100}world",
            "Comment: 0,0:00:00.00,0:00:00.00,meta,,0,0,0,,artists:A",
        ]),
    );
    assert_eq!(
        out.lines,
        lines(&[
            "[ti:Song]",
            "[ar:A]",
            "[1000,2000]he(1000,500)llo(1500,1500)",
            "[3000,1000]world(3000,1000)",
        ])
    );
    assert!(!out.warned);
}

#[test]
fn ass_file_without_column_header_has_no_events() {
    let m = matchers();
    let out = convert_ass_to_qrc(
        &m,
        &lines(&["Dialogue: 0,0:00:01.00,0:00:03.00,orig,,0,0,0,,{\\k50}he{\\k150}llo"]),
    );
    assert!(out.lines.is_empty());
    assert!(!out.warned);
}

#[test]
fn column_header_may_be_indented() {
    let m = matchers();
    let out = convert_ass_to_qrc(
        &m,
        &lines(&[
            "  Format: Layer, Start, End, Style, Name, MarginL, MarginR, MarginV, Effect, Text",
            "Dialogue: 0,0:00:01.00,0:00:02.00,orig,,0,0,0,,{\\k100}a",
        ]),
    );
    assert_eq!(out.lines, lines(&["[1000,1000]a(1000,1000)"]));
}

#[test]
fn ass_to_qrc_warns_of_timing_that_does_not_add_up() {
    let m = matchers();
    let out = convert_ass_to_qrc(
        &m,
        &lines(&[FORMAT, "Dialogue: 0,0:00:01.00,0:00:03.00,orig,,0,0,0,,{\\k50}he{\\k100}llo"]),
    );
    assert_eq!(out.lines, lines(&["[1000,2000]he(1000,500)llo(1500,1000)"]));
    assert!(out.warned);
}

#[test]
fn ass_to_qrc_leaves_out_an_unreadable_line_and_goes_on() {
    let m = matchers();
    let out = convert_ass_to_qrc(
        &m,
        &lines(&[
            FORMAT,
            "Dialogue: 0,0:00:01.00,0:00:03.00,orig,,0,0,0,,{\\k99999999999999999999999}he",
            "Dialogue: broken",
            "Dialogue: 0,0:00:03.00,0:00:04.00,orig,,0,0,0,,{\\k100}world",
        ]),
    );
    assert_eq!(out.lines, lines(&["[3000,1000]world(3000,1000)"]));
    assert!(out.warned);
}

#[test]
fn line_numbers_count_from_the_top_of_the_file() {
    let m = matchers();
    let file = lines(&["[Events]", FORMAT, "", "Dialogue: 0,0:00:01.00,0:00:02.00,orig,,0,0,0,,{\\k100}a"]);
    let read = lyric_convert::ass_reader::read_events(&m, &file);
    assert_eq!(read.records.len(), 1);
    assert_eq!(read.records[0].line_number, 4);
}

#[test]
fn ass_file_becomes_a_lys_file() {
    let m = matchers();
    let out = convert_ass_to_lys(
        &m,
        &lines(&[
            FORMAT,
            "Comment: 0,0:00:00.00,0:00:00.00,meta,,0,0,0,,album:Record",
            "Dialogue: 0,0:00:01.00,0:00:02.00,orig,左,0,0,0,,{\\k100}a",
            "Dialogue: 0,0:00:01.00,0:00:02.00,orig,背,0,0,0,,{\\k100}b",
            "Dialogue: 0,0:00:02.00,0:00:03.00,orig,背,0,0,0,,{\\k100}c",
            "Dialogue: 0,0:00:03.00,0:00:04.00,orig,右,0,0,0,,{\\k100}d",
            "Dialogue: 0,0:00:03.00,0:00:04.00,orig,x-bg,0,0,0,,{\\k100}e",
            "Dialogue: 0,0:00:04.00,0:00:05.00,orig,,0,0,0,,{\\k100}f",
        ]),
    );
    assert_eq!(
        out.lines,
        lines(&[
            "[al:Record]",
            "[4]a(1000,1000)",
            "[7]b(1000,1000)",
            "[7]c(2000,1000)",
            "[5]d(3000,1000)",
            "[8]e(3000,1000)",
            "[4]f(4000,1000)",
        ])
    );
    assert!(!out.warned);
}

#[test]
fn background_lines_behind_left_share_one_property() {
    let m = matchers();
    let three = convert_ass_to_lys(
        &m,
        &lines(&[
            FORMAT,
            "Dialogue: 0,0:00:01.00,0:00:02.00,orig,左,0,0,0,,{\\k100}a",
            "Dialogue: 0,0:00:01.00,0:00:02.00,orig,背,0,0,0,,{\\k100}b",
            "Dialogue: 0,0:00:02.00,0:00:03.00,orig,背,0,0,0,,{\\k100}c",
        ]),
    );
    let two = convert_ass_to_lys(
        &m,
        &lines(&[
            FORMAT,
            "Dialogue: 0,0:00:01.00,0:00:02.00,orig,左,0,0,0,,{\\k100}a",
            "Dialogue: 0,0:00:01.00,0:00:02.00,orig,背,0,0,0,,{\\k100}b",
        ]),
    );
    assert!(three.lines[1].starts_with("[7]"));
    assert!(three.lines[2].starts_with("[7]"));
    assert_eq!(two.lines[1], three.lines[1]);
}

#[test]
fn lines_of_auxiliary_tracks_are_left_out_of_a_lys_file() {
    let m = matchers();
    let out = convert_ass_to_lys(
        &m,
        &lines(&[
            FORMAT,
            "Dialogue: 0,0:00:01.00,0:00:02.00,orig,右,0,0,0,,{\\k100}a",
            "Dialogue: 0,0:00:01.00,0:00:02.00,ts,x-lang:en,0,0,0,,translation",
            "Dialogue: 0,0:00:01.00,0:00:02.00,roma,,0,0,0,,romaji",
            "Dialogue: 0,0:00:01.00,0:00:02.00,Trans,路人甲,0,0,0,,translation",
            "Dialogue: 0,0:00:02.00,0:00:03.00,orig,背,0,0,0,,{\\k100}b",
        ]),
    );
    assert_eq!(out.lines, lines(&["[5]a(1000,1000)", "[6]b(2000,1000)"]));
    assert!(!out.warned);
}

#[test]
fn background_behind_a_left_out_background_line_keeps_the_last_property() {
    let m = matchers();
    let out = convert_ass_to_lys(
        &m,
        &lines(&[
            FORMAT,
            "Dialogue: 0,0:00:01.00,0:00:02.00,orig,右,0,0,0,,{\\k100}a",
            "Dialogue: 0,0:00:01.00,0:00:02.00,ts,背,0,0,0,,translation",
            "Dialogue: 0,0:00:02.00,0:00:03.00,orig,背,0,0,0,,{\\k100}b",
        ]),
    );
    assert_eq!(out.lines, lines(&["[5]a(1000,1000)", "[5]b(2000,1000)"]));
}

#[test]
fn unknown_role_warns_and_the_conversion_goes_on() {
    let m = matchers();
    let out = convert_ass_to_lys(
        &m,
        &lines(&[
            FORMAT,
            "Dialogue: 0,0:00:01.00,0:00:02.00,orig,路人甲,0,0,0,,{\\k100}a",
            "Dialogue: 0,0:00:02.00,0:00:03.00,orig,背,0,0,0,,{\\k100}b",
            "Dialogue: 0,0:00:03.00,0:00:04.00,orig,左,0,0,0,,{\\k100}c",
        ]),
    );
    assert_eq!(out.lines, lines(&["[0]a(1000,1000)", "[6]b(2000,1000)", "[4]c(3000,1000)"]));
    assert!(out.warned);
}

#[test]
fn ass_to_lys_leaves_out_an_unreadable_line_and_goes_on() {
    let m = matchers();
    let out = convert_ass_to_lys(
        &m,
        &lines(&[
            FORMAT,
            "Dialogue: 0,0:00:01.00,0:00:03.00,orig,,0,0,0,,{\\k99999999999999999999999}he",
            "Dialogue: 0,0:00:03.00,0:00:04.00,orig,,0,0,0,,{\\k100}world",
        ]),
    );
    assert_eq!(out.lines, lines(&["[4]world(3000,1000)"]));
    assert!(out.warned);
}

#[test]
fn line_without_silence_comes_back_from_qrc() {
    let m = matchers();
    let text = "{\\k50}he{\\k150}llo {\\k25}wor{\\k75}ld";
    let ass = format!("Dialogue: 0,0:00:01.00,0:00:04.00,Default,,0,0,0,,{}", text);
    let qrc = convert_ass_to_qrc(&m, &lines(&[FORMAT, &ass]));
    assert!(!qrc.warned);
    assert_eq!(qrc.lines, lines(&["[1000,3000]he(1000,500)llo (1500,1500)wor(3000,250)ld(3250,750)"]));
    let back = convert_qrc_to_ass(&m, &qrc.lines);
    assert!(!back.warned);
    assert_eq!(back.lines.len(), 11);
    assert_eq!(back.lines[10], ass);
}

#[test]
fn line_without_silence_comes_back_from_lys() {
    let m = matchers();
    let text = "{\\k50}he{\\k150}llo";
    let ass = format!("Dialogue: 0,0:00:01.00,0:00:03.00,Default,右,0,0,0,,{}", text);
    let lys = convert_ass_to_lys(&m, &lines(&[FORMAT, &ass]));
    assert_eq!(lys.lines, lines(&["[5]he(1000,500)llo(1500,1500)"]));
    let back = convert_lys_to_ass(&m, &lys.lines);
    assert_eq!(back.lines[10], ass);
}

#[test]
fn romanisation_becomes_lines_of_lrc_in_the_order_of_their_starts() {
    let m = matchers();
    let (lrc, warned) = lyric_convert::lrc::extract_roma_to_lrc(
        &m,
        &lines(&[
            "Dialogue: 0,0:00:00.00,0:00:01.00,roma,,0,0,0,,before the events",
            FORMAT,
            "Dialogue: 0,0:01:02.34,0:01:03.00,Roma,,0,0,0,,{\\k10}ko{\\k20}nni{\\i1}chi",
            "Dialogue: 0,0:00:05.00,0:00:06.00,orig,,0,0,0,,{\\k100}sung",
            "Dialogue: 0,0:00:05.00,0:00:06.00,roma,,0,0,0,,{\\an8}",
            "Dialogue: 0,0:00:05.00,0:00:06.00,ROMA,x,0,0,0,,wa",
            "Dialogue: 0,0:00:05.00,0:00:06.00,roma,,0,0,0,,ha",
        ]),
    );
    assert_eq!(lrc, lines(&["[00:05.00]wa", "[00:05.00]ha", "[01:02.34]konnichi"]));
    assert!(!warned);
}

#[test]
fn romanisation_with_an_unreadable_start_warns() {
    let m = matchers();
    let (lrc, warned) = lyric_convert::lrc::extract_roma_to_lrc(
        &m,
        &lines(&[FORMAT, "Dialogue: 0,99999999999999999999999:00:00.00,0:00:01.00,roma,,0,0,0,,a"]),
    );
    assert!(lrc.is_empty());
    assert!(warned);
}

#[test]
fn translations_become_one_track_for_each_language() {
    let m = matchers();
    let (tracks, warned) = lyric_convert::lrc::extract_translations_to_lrc(
        &m,
        &lines(&[
            FORMAT,
            "Dialogue: 0,0:00:03.00,0:00:04.00,ts,x-lang:EN,0,0,0,,second",
            "Dialogue: 0,0:00:01.00,0:00:02.00,trans, x-lang:zh-CN ,0,0,0,,{\\b1}第一",
            "Dialogue: 0,0:00:01.00,0:00:02.00,ts,x-lang:en,0,0,0,,first",
            "Dialogue: 0,0:00:01.00,0:00:02.00,TS,x-lang:en,0,0,0,,style in capitals",
            "Dialogue: 0,0:00:01.00,0:00:02.00,ts,lang:en,0,0,0,,no language",
            "Dialogue: 0,0:00:01.00,0:00:02.00,ts,x-lang:,0,0,0,,no code",
            "Dialogue: 0,0:00:01.00,0:00:02.00,ts,x-lang:fr,0,0,0,,{only a tag}",
            "Dialogue: 0,0:00:01.00,0:00:02.00,roma,x-lang:en,0,0,0,,romaji",
        ]),
    );
    assert_eq!(
        tracks,
        vec![
            ("en".to_string(), lines(&["[00:01.00]first", "[00:03.00]second"])),
            ("zh-cn".to_string(), lines(&["[00:01.00]第一"])),
        ]
    );
    assert!(!warned);
}

#[test]
fn tags_are_taken_out_of_a_text() {
    let m = matchers();
    assert_eq!(lyric_convert::lrc::strip_ass_tags(&m, "{\\k10}a{\\k20}b"), "ab");
    assert_eq!(lyric_convert::lrc::strip_ass_tags(&m, "plain"), "plain");
    assert_eq!(lyric_convert::lrc::strip_ass_tags(&m, "{}{x}"), "");
    assert_eq!(lyric_convert::lrc::strip_ass_tags(&m, "a{b{c}d}e"), "ad}e");
    assert_eq!(lyric_convert::lrc::strip_ass_tags(&m, "你{\\k1}好{"), "你好{");
}

#[test]
fn file_with_a_known_role_has_special_names() {
    let m = matchers();
    let check = |role: &str| {
        lyric_convert::ass_reader::check_ass_has_special_names(
            &m,
            &lines(&[FORMAT, &format!("Dialogue: 0,0:00:01.00,0:00:02.00,orig,{},0,0,0,,a", role)]),
        )
    };
    for role in ["", "v1", "左", "右", "v2", "x-duet", "x-anti", "背", "x-bg"] {
        assert!(check(role));
    }
    for role in ["路人甲", " 左", "左 x", "合", "v1000", "V1"] {
        assert!(!check(role));
    }
}

#[test]
fn special_names_are_looked_for_among_the_events_only() {
    let m = matchers();
    assert!(!lyric_convert::ass_reader::check_ass_has_special_names(
        &m,
        &lines(&["Dialogue: 0,0:00:01.00,0:00:02.00,orig,左,0,0,0,,a", FORMAT, "Dialogue: broken"]),
    ));
    assert!(!lyric_convert::ass_reader::check_ass_has_special_names(&m, &Vec::new()));
}

#[test]
fn word_token_from_its_texts() {
    let t = read_word_token("word", "1000", "500").unwrap();
    assert_eq!((t.text_before.as_str(), t.start_ms, t.duration_ms), ("word", 1000, 500));
    assert!(read_word_token("word", "", "500").is_none());
    assert!(read_word_token("word", "1000", "5 0").is_none());
    assert!(read_word_token("word", "1000", "99999999999999999999999").is_none());
}

#[test]
fn qrc_line_from_its_parts() {
    let words = vec![token("word1", 1000, 500), token("word2", 2000, 500)];
    assert_eq!(
        qrc_line_from_parts("500", "2500", Some((words, ""))),
        (
            Some(
                "Dialogue: 0,0:00:00.50,0:00:03.00,Default,,0,0,0,,{\\k50}{\\k50}word1{\\k50}{\\k50}word2{\\k50}"
                    .to_string()
            ),
            false
        )
    );
    assert_eq!(qrc_line_from_parts("500", "2500", None), (None, true));
    assert_eq!(qrc_line_from_parts("x", "2500", Some((Vec::new(), "a"))), (None, true));
    assert_eq!(qrc_line_from_parts("500", "", Some((Vec::new(), "a"))), (None, true));
    assert_eq!(qrc_line_from_parts("500", "0", Some((Vec::new(), ""))), (None, false));
    assert_eq!(
        qrc_line_from_parts("500", "0", Some((Vec::new(), "a"))),
        (Some("Dialogue: 0,0:00:00.50,0:00:00.50,Default,,0,0,0,,a".to_string()), false)
    );
    assert_eq!(
        qrc_line_from_parts(&format!("{}", usize::MAX), "10", Some((Vec::new(), "a"))).1,
        false
    );
}

#[test]
fn lys_line_from_its_parts() {
    let words = vec![token("a", 1000, 500)];
    assert_eq!(
        lys_line_from_parts("7", Some((words, ""))),
        (Some("Dialogue: 0,0:00:01.00,0:00:01.50,Default,左,0,0,0,,{\\k50}a".to_string()), false)
    );
    assert_eq!(lys_line_from_parts("7", None), (None, true));
    assert_eq!(lys_line_from_parts("7", Some((Vec::new(), "text"))), (None, false));
    assert_eq!(lys_line_from_parts("7", Some((vec![token("a", usize::MAX, 1)], ""))), (None, true));
    assert_eq!(lys_line_from_parts("7", Some((vec![token("", 5, 4)], ""))), (None, false));
    assert_eq!(
        lys_line_from_parts("x", Some((vec![token("a", 0, 10)], ""))),
        (Some("Dialogue: 0,0:00:00.00,0:00:00.01,Default,,0,0,0,,{\\k1}a".to_string()), false)
    );
}

#[test]
fn entry_of_an_auxiliary_track() {
    assert_eq!(read_entry("0:01:02.34", "text".to_string()), Ok(Some((62_340, "text".to_string()))));
    assert_eq!(read_entry("0:01:02.34", String::new()), Ok(None));
    assert_eq!(read_entry("0:01:02", "text".to_string()), Err(FieldFault::Shape));
    assert_eq!(
        read_entry("0:01:02.", "text".to_string()),
        Err(FieldFault::Number(IntErrorKind::Empty))
    );
}

#[test]
fn entries_are_written_in_the_order_of_their_starts() {
    let entries = vec![
        (3000, "c".to_string()),
        (1000, "a1".to_string()),
        (2000, "b".to_string()),
        (1000, "a2".to_string()),
        (0, "z".to_string()),
    ];
    assert_eq!(
        sort_by_start(&entries),
        vec![
            (0, "z".to_string()),
            (1000, "a1".to_string()),
            (1000, "a2".to_string()),
            (2000, "b".to_string()),
            (3000, "c".to_string()),
        ]
    );
    assert_eq!(
        write_lrc_lines(&entries),
        lines(&["[00:00.00]z", "[00:01.00]a1", "[00:01.00]a2", "[00:02.00]b", "[00:03.00]c"])
    );
    assert!(write_lrc_lines(&Vec::new()).is_empty());
}

#[test]
fn words_of_given_matches() {
    let content = "你(0,400)好 (400,600)世界";
    let found = vec![
        vec![Some((3, 10)), Some((4, 5)), Some((6, 9))],
        vec![Some((14, 23)), Some((15, 18)), Some((19, 22))],
    ];
    let (tokens, trailing) = read_tokens(content, &found).unwrap();
    assert_eq!(tokens, vec![token("你", 0, 400), token("好 ", 400, 600)]);
    assert_eq!(trailing, "世界");
    let (tokens, trailing) = read_tokens(content, &Vec::new()).unwrap();
    assert!(tokens.is_empty());
    assert_eq!(trailing, content);
    let found = vec![vec![Some((3, 10)), Some((3, 5)), Some((6, 9))]];
    assert!(read_tokens(content, &found).is_none());
}

#[test]
fn tags_of_zero_are_cut_out() {
    assert_eq!(remove_zero_tags("{\\k0}a{\\k0}{\\k10}b{\\k0}"), "a{\\k10}b");
    assert_eq!(remove_zero_tags("plain"), "plain");
    assert_eq!(remove_zero_tags(""), "");
    assert_eq!(remove_zero_tags("{\\k0"), "{\\k0");
    assert_eq!(remove_zero_tags("{\\k{\\k0}0}"), "{\\k0}");
    assert_eq!(remove_zero_tags("{\\k00}{\\kf0}"), "{\\k00}{\\kf0}");
}

#[test]
fn tag_of_zero_in_the_text_of_a_qrc_line_is_not_written() {
    let m = matchers();
    let (line, warned) = convert_qrc_line(&m, "[0,1000]a{\\k0}b(0,1000)");
    assert_eq!(
        line,
        Some("Dialogue: 0,0:00:00.00,0:00:01.00,Default,,0,0,0,,{\\k100}ab".to_string())
    );
    assert!(!warned);
    assert_eq!(convert_qrc_line(&m, "[0,0]{\\k0}"), (None, false));
    assert_eq!(
        qrc_line_from_parts("0", "0", Some((Vec::new(), "{\\k0}x{\\k0}"))),
        (Some("Dialogue: 0,0:00:00.00,0:00:00.00,Default,,0,0,0,,x".to_string()), false)
    );
}
