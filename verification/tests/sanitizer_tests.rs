use mixed::sanitizer::{sanitize_terminal_title, sanitize_title};

#[test]
fn test_sanitize_title() {
    assert_eq!(sanitize_title("01 - Track_Name.mp3"), "Track Name");
    assert_eq!(sanitize_title("02. Track_Name.FLAC"), "Track Name");
    assert_eq!(sanitize_title("102 Track Name.ogg"), "Track Name");
    assert_eq!(sanitize_title("[01] Track Name"), "[01] Track Name");
    assert_eq!(sanitize_title("01-02 - Track Name.wav"), "Track Name");
    assert_eq!(sanitize_title("01 - "), "01 -");
    assert_eq!(sanitize_title("Track Without Number"), "Track Without Number");
    assert_eq!(sanitize_title("İstanbul Track_01.MP3"), "İstanbul Track 01");
}

#[test]
fn test_sanitize_terminal_title() {
    assert_eq!(
        sanitize_terminal_title("Track\x1b]0;hacked\x07Name"),
        "Track]0;hackedName"
    );
    assert_eq!(
        sanitize_terminal_title("Normal Title - Artist"),
        "Normal Title - Artist"
    );
}

#[test]
fn sanitize_title_keeps_unknown_extension() {
    assert_eq!(sanitize_title("03 Song.txt"), "Song.txt");
}

#[test]
fn sanitize_terminal_title_drops_c1_controls() {
    assert_eq!(sanitize_terminal_title("a\u{85}b\u{9f}c\u{a0}"), "abc\u{a0}");
}
