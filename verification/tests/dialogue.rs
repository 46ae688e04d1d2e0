use lyric_convert::ass_reader::{read_event, special_name};
use lyric_convert::dialogue::{
    auxiliary_style, check_time_consistency, parse_ass_dialogue_line, read_dialogue_fields,
    read_segment, read_segments, ParsedDialogue,
};
use lyric_convert::emit::{lys_line, process_dialogue_for_qrc, qrc_line};
use lyric_convert::error::{ConversionError, DialogueField, FieldFault, FormatError, IntErrorKind};
use lyric_convert::matcher::Matchers;

fn matchers() -> Matchers {
    Matchers::new().unwrap()
}

fn malformed(line_number: usize, field: DialogueField, cause: FieldFault) -> ConversionError {
    ConversionError::InvalidFormat(FormatError::Dialogue { line_number, field, cause })
}

#[test]
fn grammar_compiles() {
    assert!(Matchers::new().is_ok());
}

#[test]
fn dialogue_line_is_read_as_a_record() {
    let m = matchers();
    let line = "Dialogue: 0,0:00:01.00,0:00:03.00,Default,左,0,0,0,,{\\k50}he{\\kf150}llo";
    let d = parse_ass_dialogue_line(&m, line, 7).unwrap();
    assert_eq!(d.duration_ms(), 2000);
    assert_eq!(
        d,
        ParsedDialogue {
            line_number: 7,
            start_ms: 1000,
            end_ms: 3000,
            name: Some("左".to_string()),
            style: "Default".to_string(),
            segments: vec![("he".to_string(), 500), ("llo".to_string(), 1500)],
            sum_k_ms: 2000,
        }
    );
}

#[test]
fn empty_role_is_no_role_and_style_is_trimmed() {
    let m = matchers();
    let line = "Dialogue: 0,0:00:00.00,0:00:01.00,  orig ,,0,0,0,,{\\k100}la";
    let d = parse_ass_dialogue_line(&m, line, 1).unwrap();
    assert_eq!(d.name, None);
    assert_eq!(d.style, "orig");
}

#[test]
fn role_is_kept_as_written() {
    let m = matchers();
    let line = "Dialogue: 0,0:00:00.00,0:00:01.00,orig, 背 x ,0,0,0,,{\\k100}la";
    let d = parse_ass_dialogue_line(&m, line, 1).unwrap();
    assert_eq!(d.name, Some(" 背 x ".to_string()));
}

#[test]
fn text_before_the_first_tag_belongs_to_no_segment() {
    let m = matchers();
    let line = "Dialogue: 0,0:00:00.00,0:00:01.00,orig,,0,0,0,,intro{\\k30}a{\\k0}{\\k70}b, c";
    let d = parse_ass_dialogue_line(&m, line, 1).unwrap();
    assert_eq!(
        d.segments,
        vec![("a".to_string(), 300), ("".to_string(), 0), ("b, c".to_string(), 700)]
    );
    assert_eq!(d.sum_k_ms, 1000);
}

#[test]
fn line_without_tags_has_no_segments() {
    let m = matchers();
    let line = "Dialogue: 0,0:00:00.00,0:00:01.00,ts,x-lang:en,0,0,0,,plain words";
    let d = parse_ass_dialogue_line(&m, line, 1).unwrap();
    assert!(d.segments.is_empty());
    assert_eq!(d.sum_k_ms, 0);
}

#[test]
fn line_of_another_shape_is_an_error_of_structure() {
    let m = matchers();
    let structure = |line_number: usize| {
        ConversionError::InvalidFormat(FormatError::Structure { line_number })
    };
    assert_eq!(parse_ass_dialogue_line(&m, "Dialogue: broken", 1).unwrap_err(), structure(1));
    assert_eq!(
        parse_ass_dialogue_line(&m, "Comment: 0,0:00:00.00,0:00:00.00,meta,,0,0,0,,a:b", 2).unwrap_err(),
        structure(2)
    );
    assert_eq!(
        parse_ass_dialogue_line(&m, "Dialogue: 0,0:00:01,0:00:03.00,Default,,0,0,0,,x", 3).unwrap_err(),
        structure(3)
    );
    assert_eq!(
        parse_ass_dialogue_line(&m, "Dialogue: 0,bad,0:00:01.00,Default,,0,0,0,,x", 4).unwrap_err(),
        structure(4)
    );
    assert_eq!(parse_ass_dialogue_line(&m, "Dialogue: 0,0:00:01.00", 5).unwrap_err(), structure(5));
    assert_eq!(parse_ass_dialogue_line(&m, "", 6).unwrap_err(), structure(6));
}

#[test]
fn end_before_start_gives_no_duration() {
    let m = matchers();
    let line = "Dialogue: 0,0:00:05.00,0:00:03.00,Default,,0,0,0,,{\\k50}la";
    let d = parse_ass_dialogue_line(&m, line, 1).unwrap();
    assert_eq!(d.start_ms, 5000);
    assert_eq!(d.end_ms, 3000);
    assert_eq!(d.duration_ms(), 0);
}

#[test]
fn start_time_that_does_not_fit_is_an_error_with_the_line_number() {
    let m = matchers();
    let line = "Dialogue: 0,99999999999999999999999:00:00.00,0:00:03.00,Default,,0,0,0,,{\\k50}la";
    assert_eq!(
        parse_ass_dialogue_line(&m, line, 12).unwrap_err(),
        malformed(12, DialogueField::StartTime, FieldFault::Number(IntErrorKind::PosOverflow))
    );
}

#[test]
fn end_time_in_other_digits_is_an_error() {
    let m = matchers();
    let line = "Dialogue: 0,0:00:01.00,0:00:0٣.00,Default,,0,0,0,,{\\k50}la";
    assert_eq!(
        parse_ass_dialogue_line(&m, line, 3).unwrap_err(),
        malformed(3, DialogueField::EndTime, FieldFault::Number(IntErrorKind::InvalidDigit))
    );
}

#[test]
fn karaoke_count_that_does_not_fit_is_an_error() {
    let m = matchers();
    let line = "Dialogue: 0,0:00:01.00,0:00:03.00,Default,,0,0,0,,{\\k50}a{\\k99999999999999999999999}b";
    assert_eq!(
        parse_ass_dialogue_line(&m, line, 4).unwrap_err(),
        malformed(4, DialogueField::KaraokeDuration, FieldFault::Number(IntErrorKind::PosOverflow))
    );
    let count = usize::MAX / 10 + 1;
    let line = format!("Dialogue: 0,0:00:01.00,0:00:03.00,Default,,0,0,0,,{{\\k{}}}b", count);
    assert_eq!(
        parse_ass_dialogue_line(&m, &line, 5).unwrap_err(),
        malformed(5, DialogueField::KaraokeDuration, FieldFault::Number(IntErrorKind::PosOverflow))
    );
}

#[test]
fn karaoke_durations_past_the_largest_time_are_an_error() {
    let m = matchers();
    let count = usize::MAX / 10;
    let line = format!(
        "Dialogue: 0,0:00:01.00,0:00:03.00,Default,,0,0,0,,{{\\k{}}}a{{\\k{}}}b",
        count, count
    );
    assert_eq!(
        parse_ass_dialogue_line(&m, &line, 6).unwrap_err(),
        malformed(6, DialogueField::KaraokeDuration, FieldFault::Number(IntErrorKind::PosOverflow))
    );
}

#[test]
fn first_unreadable_field_decides_the_error() {
    let m = matchers();
    let line = "Dialogue: 0,0:00:0٣.00,0:00:0٣.00,Default,,0,0,0,,{\\k99999999999999999999999}b";
    assert_eq!(
        parse_ass_dialogue_line(&m, line, 3).unwrap_err(),
        malformed(3, DialogueField::StartTime, FieldFault::Number(IntErrorKind::InvalidDigit))
    );
}

#[test]
fn time_consistency_compares_the_two_durations() {
    assert!(check_time_consistency(2000, 2000, 1));
    assert!(check_time_consistency(0, 0, 1));
    assert!(!check_time_consistency(2000, 1990, 1));
    assert!(!check_time_consistency(0, 10, 9));
}

#[test]
fn auxiliary_styles_ignore_case() {
    for style in ["roma", "Roma", "ROMA", "trans", "Trans", "ts", "TS", "tS"] {
        assert!(auxiliary_style(style));
    }
    for style in ["", "Default", "orig", "romaji", "t", "tss", "trans "] {
        assert!(!auxiliary_style(style));
    }
}

#[test]
fn record_is_written_as_a_qrc_line() {
    let m = matchers();
    let line = "Dialogue: 0,0:00:01.00,0:00:03.00,Default,左,0,0,0,,{\\k50}he{\\kf150}llo";
    let d = parse_ass_dialogue_line(&m, line, 1).unwrap();
    assert_eq!(qrc_line(&d), "[1000,2000]he(1000,500)llo(1500,1500)");
}

#[test]
fn record_is_written_as_a_lys_line() {
    let m = matchers();
    let line = "Dialogue: 0,0:00:01.00,0:00:03.00,Default,左,0,0,0,,{\\k50}he{\\kf150}llo";
    let d = parse_ass_dialogue_line(&m, line, 1).unwrap();
    assert_eq!(lys_line(4, &d), "[4]he(1000,500)llo(1500,1500)");
}

#[test]
fn segment_without_text_and_duration_is_not_written() {
    let m = matchers();
    let line = "Dialogue: 0,0:00:00.00,0:00:01.00,orig,,0,0,0,,{\\k30}a{\\k0}{\\k0}b{\\k70}";
    let d = parse_ass_dialogue_line(&m, line, 1).unwrap();
    assert_eq!(qrc_line(&d), "[0,1000]a(0,300)b(300,0)(300,700)");
}

#[test]
fn qrc_line_of_a_dialogue_without_warning() {
    let m = matchers();
    let mut warned = false;
    let line = "Dialogue: 0,0:00:01.00,0:00:03.00,Default,,0,0,0,,{\\k50}he{\\k150}llo";
    assert_eq!(
        process_dialogue_for_qrc(&m, line, 1, &mut warned),
        Ok(Some("[1000,2000]he(1000,500)llo(1500,1500)".to_string()))
    );
    assert!(!warned);
}

#[test]
fn qrc_line_of_a_dialogue_whose_timing_does_not_add_up() {
    let m = matchers();
    let mut warned = false;
    let line = "Dialogue: 0,0:00:01.00,0:00:03.00,Default,,0,0,0,,{\\k50}he{\\k100}llo";
    assert_eq!(
        process_dialogue_for_qrc(&m, line, 1, &mut warned),
        Ok(Some("[1000,2000]he(1000,500)llo(1500,1000)".to_string()))
    );
    assert!(warned);
}

#[test]
fn qrc_line_of_an_auxiliary_track_is_not_checked() {
    let m = matchers();
    let mut warned = false;
    let line = "Dialogue: 0,0:00:01.00,0:00:03.00,Roma,,0,0,0,,{\\k50}he";
    assert_eq!(
        process_dialogue_for_qrc(&m, line, 1, &mut warned),
        Ok(Some("[1000,2000]he(1000,500)".to_string()))
    );
    assert!(!warned);
}

#[test]
fn qrc_line_of_a_malformed_dialogue() {
    let m = matchers();
    let mut warned = false;
    assert_eq!(process_dialogue_for_qrc(&m, "Dialogue: broken", 1, &mut warned), Ok(None));
    assert!(warned);
}

#[test]
fn qrc_line_keeps_an_earlier_warning() {
    let m = matchers();
    let mut warned = true;
    let line = "Dialogue: 0,0:00:01.00,0:00:03.00,Default,,0,0,0,,{\\k50}he{\\k150}llo";
    assert!(process_dialogue_for_qrc(&m, line, 1, &mut warned).is_ok());
    assert!(warned);
}

#[test]
fn qrc_line_of_an_unreadable_dialogue_is_an_error() {
    let m = matchers();
    let mut warned = false;
    let line = "Dialogue: 0,0:00:01.00,0:00:03.00,Default,,0,0,0,,{\\k99999999999999999999999}b";
    assert_eq!(
        process_dialogue_for_qrc(&m, line, 2, &mut warned),
        Err(malformed(2, DialogueField::KaraokeDuration, FieldFault::Number(IntErrorKind::PosOverflow)))
    );
    assert!(!warned);
}

#[test]
fn pattern_that_the_engine_refuses_is_an_error() {
    assert!(matches!(
        lyric_convert::matcher::compile_pattern("("),
        Err(ConversionError::Regex(_))
    ));
    assert!(matches!(
        lyric_convert::matcher::compile_pattern(r"\d{5000}{5000}"),
        Err(ConversionError::Regex(_))
    ));
}

#[test]
fn compiled_pattern_keeps_its_text() {
    let re = lyric_convert::matcher::compile_pattern(r"\((\d+),(\d+)\)").unwrap();
    assert_eq!(re.as_str(), r"\((\d+),(\d+)\)");
}

#[test]
fn time_that_is_not_in_four_parts_is_a_fault_of_shape() {
    let cs: Vec<char> = "1:2".chars().collect();
    assert_eq!(lyric_convert::time::parse_time(&cs), Err(FieldFault::Shape));
    let cs: Vec<char> = "1:2:3.x".chars().collect();
    assert_eq!(
        lyric_convert::time::parse_time(&cs),
        Err(FieldFault::Number(IntErrorKind::InvalidDigit))
    );
    let cs: Vec<char> = "1:2:3.4".chars().collect();
    assert_eq!(lyric_convert::time::parse_time(&cs), Ok(3_723_040));
}

#[test]
fn segment_of_a_karaoke_tag() {
    assert_eq!(read_segment("50", "he"), Ok(("he".to_string(), 500)));
    assert_eq!(read_segment("0", ""), Ok(("".to_string(), 0)));
    assert_eq!(read_segment("007", "a b"), Ok(("a b".to_string(), 70)));
    assert_eq!(read_segment("", "x"), Err(IntErrorKind::Empty));
    assert_eq!(read_segment("5x", "x"), Err(IntErrorKind::InvalidDigit));
    assert_eq!(read_segment(&format!("{}", usize::MAX), "x"), Err(IntErrorKind::PosOverflow));
    assert_eq!(read_segment(&format!("{}", usize::MAX / 10), "x"), Ok(("x".to_string(), usize::MAX / 10 * 10)));
}

#[test]
fn record_from_the_fields_of_a_line() {
    let d = read_dialogue_fields(
        3,
        "0:00:01.00",
        "0:00:03.00",
        " Default ",
        "背 x",
        Ok(vec![("he".to_string(), 500), ("llo".to_string(), 1500)]),
    )
    .unwrap();
    assert_eq!(d.line_number, 3);
    assert_eq!(d.start_ms, 1000);
    assert_eq!(d.end_ms, 3000);
    assert_eq!(d.style, "Default");
    assert_eq!(d.name, Some("背 x".to_string()));
    assert_eq!(d.sum_k_ms, 2000);
    assert_eq!(d.segments.len(), 2);
}

#[test]
fn record_from_fields_that_cannot_be_taken() {
    assert_eq!(
        read_dialogue_fields(1, "0:00:01", "x", "", "", Err(IntErrorKind::Empty)).unwrap_err(),
        malformed(1, DialogueField::StartTime, FieldFault::Shape)
    );
    assert_eq!(
        read_dialogue_fields(2, "0:00:01.00", "0:00:0x.00", "", "", Err(IntErrorKind::Empty)).unwrap_err(),
        malformed(2, DialogueField::EndTime, FieldFault::Number(IntErrorKind::InvalidDigit))
    );
    assert_eq!(
        read_dialogue_fields(3, "0:00:01.00", "0:00:02.00", "", "", Err(IntErrorKind::Empty)).unwrap_err(),
        malformed(3, DialogueField::KaraokeDuration, FieldFault::Number(IntErrorKind::Empty))
    );
    assert_eq!(
        read_dialogue_fields(4, "0:00:00.01", "0:00:02.00", "", "", Ok(vec![("a".to_string(), usize::MAX)]))
            .unwrap_err(),
        malformed(4, DialogueField::KaraokeDuration, FieldFault::Number(IntErrorKind::PosOverflow))
    );
    assert!(read_dialogue_fields(5, "0:00:00.00", "0:00:02.00", "", "", Ok(vec![("a".to_string(), usize::MAX)]))
        .is_ok());
}

#[test]
fn event_of_a_file() {
    let m = matchers();
    let event = read_event(&m, "Comment: 0,0:00:00.00,0:00:00.00,meta,,0,0,0,,album:Record", 2);
    assert_eq!(event.metadata, Some("[al:Record]".to_string()));
    assert!(event.record.is_none());
    assert!(!event.warned);
    let event = read_event(&m, "Dialogue: 0,0:00:01.00,0:00:02.00,orig,,0,0,0,,{\\k90}a", 5);
    assert!(event.metadata.is_none());
    assert_eq!(event.record.unwrap().line_number, 5);
    assert!(event.warned);
    let event = read_event(&m, "Dialogue: nothing", 5);
    assert!(event.record.is_none());
    assert!(event.warned);
    let event = read_event(&m, "; a remark", 5);
    assert!(event.metadata.is_none() && event.record.is_none() && !event.warned);
}

#[test]
fn role_tags_that_lys_can_tell_apart() {
    for role in ["", "v1", "左", "右", "v2", "x-duet", "x-anti", "背", "x-bg"] {
        assert!(special_name(role));
    }
    for role in [" ", "合", "v1000", "左 ", "other"] {
        assert!(!special_name(role));
    }
}

#[test]
fn segments_of_given_matches() {
    let text = "{\\k50}he{\\kf150}llo";
    let found = vec![
        vec![Some((0, 8)), Some((3, 5)), Some((6, 8))],
        vec![Some((8, 19)), Some((12, 15)), Some((16, 19))],
    ];
    assert_eq!(
        read_segments(text, &found),
        Ok(vec![("he".to_string(), 500), ("llo".to_string(), 1500)])
    );
    assert_eq!(read_segments(text, &Vec::new()), Ok(Vec::new()));
    let found = vec![
        vec![Some((0, 8)), Some((3, 5)), Some((6, 8))],
        vec![Some((8, 19)), Some((9, 11)), Some((16, 19))],
    ];
    assert_eq!(read_segments(text, &found), Err(IntErrorKind::InvalidDigit));
    let found = vec![vec![Some((0, 8)), None, Some((6, 8))]];
    assert_eq!(read_segments(text, &found), Err(IntErrorKind::Empty));
    let found = vec![vec![Some((0, 8)), Some((3, 5))]];
    assert_eq!(read_segments(text, &found), Ok(vec![("".to_string(), 500)]));
}
