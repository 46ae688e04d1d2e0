use lyric_convert::matcher::Matchers;
use lyric_convert::metadata::{parse_ass_metadata_text, read_metadata_comment};

#[test]
fn known_keys_become_short_tags() {
    assert_eq!(parse_ass_metadata_text("musicName:Song"), Some("[ti:Song]".to_string()));
    assert_eq!(parse_ass_metadata_text("artists:A/B"), Some("[ar:A/B]".to_string()));
    assert_eq!(parse_ass_metadata_text("album:Record"), Some("[al:Record]".to_string()));
    assert_eq!(parse_ass_metadata_text("ttmlAuthorGithubLogin:me"), Some("[by:me]".to_string()));
}

#[test]
fn key_and_value_lose_the_white_space_around_them() {
    assert_eq!(parse_ass_metadata_text("  musicName  :  My Song  "), Some("[ti:My Song]".to_string()));
}

#[test]
fn only_the_first_colon_parts_key_and_value() {
    assert_eq!(parse_ass_metadata_text("musicName:a:b"), Some("[ti:a:b]".to_string()));
}

#[test]
fn unknown_key_gives_nothing() {
    assert_eq!(parse_ass_metadata_text("composer:Someone"), None);
    assert_eq!(parse_ass_metadata_text("MusicName:Song"), None);
    assert_eq!(parse_ass_metadata_text(":Song"), None);
}

#[test]
fn empty_value_gives_nothing() {
    assert_eq!(parse_ass_metadata_text("musicName:"), None);
    assert_eq!(parse_ass_metadata_text("musicName:   "), None);
}

#[test]
fn text_without_a_colon_gives_nothing() {
    assert_eq!(parse_ass_metadata_text("musicName"), None);
    assert_eq!(parse_ass_metadata_text(""), None);
}

#[test]
fn metadata_comment_is_recognised() {
    let m = Matchers::new().unwrap();
    assert_eq!(
        read_metadata_comment(&m, "Comment: 0,0:00:00.00,0:00:00.00,meta,,0,0,0,,musicName:Song"),
        Some(Some("[ti:Song]".to_string()))
    );
    assert_eq!(
        read_metadata_comment(&m, "Comment: 0,0:00:00.00,0:00:00.00,meta,,0,0,0,,mood:blue"),
        Some(None)
    );
}

#[test]
fn other_comments_are_no_metadata() {
    let m = Matchers::new().unwrap();
    assert_eq!(
        read_metadata_comment(&m, "Comment: 0,0:00:01.00,0:00:00.00,meta,,0,0,0,,musicName:Song"),
        None
    );
    assert_eq!(
        read_metadata_comment(&m, "Comment: 0,0:00:00.00,0:00:00.00,note,,0,0,0,,musicName:Song"),
        None
    );
    assert_eq!(
        read_metadata_comment(&m, "Dialogue: 0,0:00:00.00,0:00:00.00,meta,,0,0,0,,musicName:Song"),
        None
    );
}
