use mixed::lyrics::{parse_lrc_content, stamp_key};
use mixed::metadata::{parse_embedded_timed, LyricsKind};

/// Seconds of a timestamp tag `mm:ss.xx` or `hh:mm:ss`.
fn secs(stamp: &str) -> f64 {
    let parts: Vec<f64> = stamp.split(':').map(|p| p.parse::<f64>().unwrap()).collect();
    match parts.len() {
        2 => parts[0] * 60.0 + parts[1],
        3 => parts[0] * 3600.0 + parts[1] * 60.0 + parts[2],
        _ => panic!("not a timestamp: {}", stamp),
    }
}

#[test]
fn test_parse_enhanced_lrc_standard() {
    let lrc = r#"
[ti:Tum Hi Ho]
[ar:Arijit Singh]
[00:10.00]<00:10.00>Hum <00:10.50>tere <00:11.00>bin <00:11.80>ab <00:12.20>reh <00:12.60>nahi <00:13.00>sakte
[00:15.00]<00:15.00>Tere <00:15.50>bina <00:16.00>kya <00:16.50>wajood <00:17.00>mera
"#;
    let data = parse_lrc_content(lrc).expect("Should parse LRC");
    assert_eq!(data.lines.len(), 2);
    assert_eq!(secs(&data.lines[0].stamp), 10.0);
    assert_eq!(data.lines[0].text, "Hum tere bin ab reh nahi sakte");
    assert_eq!(secs(&data.lines[1].stamp), 15.0);
    assert_eq!(data.lines[1].text, "Tere bina kya wajood mera");

    assert!(data.has_word_timestamps());
    assert_eq!(data.word_timestamps[0].len(), 7);
    assert_eq!(data.word_timestamps[0][0].word.trim(), "Hum");
    assert_eq!(secs(&data.word_timestamps[0][0].stamp), 10.0);
    assert_eq!(data.word_timestamps[0][1].word.trim(), "tere");
    assert_eq!(secs(&data.word_timestamps[0][1].stamp), 10.5);
}

#[test]
fn test_parse_hindi_devanagari_word_by_word() {
    let lrc = r#"
[00:20.00]<00:20.00>क्योंकि <00:20.60>तुम <00:21.00>ही <00:21.50>हो <00:22.00>अब <00:22.50>तुम <00:23.00>ही <00:23.50>हो
[00:25.00]<00:25.00>जिंदगी <00:25.80>अब <00:26.30>तुम <00:26.80>ही <00:27.40>हो
"#;
    let data = parse_lrc_content(lrc).expect("Should parse Hindi LRC");
    assert_eq!(data.lines.len(), 2);
    assert_eq!(data.lines[0].text, "क्योंकि तुम ही हो अब तुम ही हो");
    assert_eq!(data.lines[1].text, "जिंदगी अब तुम ही हो");
    assert_eq!(data.word_timestamps[0].len(), 8);
    assert_eq!(data.word_timestamps[0][0].word.trim(), "क्योंकि");
    assert_eq!(data.word_timestamps[0][1].word.trim(), "तुम");
}

#[test]
fn test_parse_hindi_syllable_level_does_not_break_words() {
    let lrc = r#"
[00:10.00]<00:10.00>दि<00:10.25>ल <00:10.50>का <00:11.00>द<00:11.25>रि<00:11.40>या <00:11.50>ब<00:11.75>ह <00:12.00>ही <00:12.50>ग<00:12.75>या
"#;
    let data = parse_lrc_content(lrc).expect("Should parse syllable Hindi LRC");
    assert_eq!(data.lines[0].text, "दिल का दरिया बह ही गया");
    assert_eq!(data.word_timestamps[0].len(), 6);
    assert_eq!(data.word_timestamps[0][0].word.trim(), "दिल");
    assert_eq!(data.word_timestamps[0][1].word.trim(), "का");
    assert_eq!(data.word_timestamps[0][2].word.trim(), "दरिया");
    assert_eq!(data.word_timestamps[0][3].word.trim(), "बह");
    assert_eq!(data.word_timestamps[0][4].word.trim(), "ही");
    assert_eq!(data.word_timestamps[0][5].word.trim(), "गया");
}

#[test]
fn test_parse_inline_bracket_word_timestamps() {
    let lrc = r#"
[00:05.00][00:05.00]First [00:05.50]second [00:06.00]third
"#;
    let data = parse_lrc_content(lrc).expect("Should parse inline bracket timestamps");
    assert_eq!(data.lines[0].text, "First second third");
    assert_eq!(data.word_timestamps[0].len(), 3);
    assert_eq!(data.word_timestamps[0][0].word.trim(), "First");
    assert_eq!(data.word_timestamps[0][1].word.trim(), "second");
    assert_eq!(data.word_timestamps[0][2].word.trim(), "third");
}

#[test]
fn test_parse_qrc_and_karaoke_tags() {
    let lrc = r#"
[00:08.00]Hello(00:08.00,400) world(00:08.40,600)
[00:12.00]{\k50}Karaoke {\k80}style {\k100}line
"#;
    let data = parse_lrc_content(lrc).expect("Should parse QRC and karaoke LRC");
    assert_eq!(data.lines[0].text, "Hello world");
    assert_eq!(data.word_timestamps[0].len(), 2);
    assert_eq!(data.word_timestamps[0][0].word.trim(), "Hello");
    assert_eq!(secs(&data.word_timestamps[0][0].stamp), 8.0);
    assert_eq!(data.word_timestamps[0][1].word.trim(), "world");
    assert_eq!(secs(&data.word_timestamps[0][1].stamp), 8.4);
    assert_eq!(data.lines[1].text, "Karaoke style line");
}

#[test]
fn test_plain_lines_with_bracket_text_preserved() {
    let lrc = r#"
[00:01.00]Simple line (Guitar Solo) [Chorus]
"#;
    let data = parse_lrc_content(lrc).expect("Should parse plain line");
    assert_eq!(data.lines[0].text, "Simple line (Guitar Solo) [Chorus]");
    assert!(!data.has_word_timestamps());
}

#[test]
fn lrc_without_timed_lines_is_none() {
    assert!(parse_lrc_content("[ti:Title]\n[ar:Artist]\nno tags here\n").is_none());
    assert!(parse_lrc_content("").is_none());
}

#[test]
fn lrc_line_with_several_stamps_repeats() {
    let data = parse_lrc_content("[00:01.00][00:30.00]Chorus\n").unwrap();
    assert_eq!(data.lines.len(), 2);
    assert_eq!(data.lines[0].stamp, "00:01.00");
    assert_eq!(data.lines[1].stamp, "00:30.00");
    assert_eq!(data.lines[0].text, "Chorus");
    assert_eq!(data.lines[1].text, "Chorus");
}

#[test]
fn lrc_lines_are_ordered_by_time() {
    let data = parse_lrc_content("[01:00.00]C\n[00:30.50]<00:30.50>B1 <00:31.00>B2\n[00:05]A\n[1:00]C2\n").unwrap();
    let texts: Vec<&str> = data.lines.iter().map(|l| l.text.as_str()).collect();
    assert_eq!(texts, vec!["A", "B1 B2", "C", "C2"]);
    // The words travel with their line.
    assert!(data.word_timestamps[0].is_empty());
    assert_eq!(data.word_timestamps[1].len(), 2);
    assert!(data.word_timestamps[2].is_empty());
    // An hour stamp sorts after minutes.
    let data = parse_lrc_content("[1:00:00]late\n[59:59.99]early\n").unwrap();
    assert_eq!(data.lines[0].text, "early");
    assert_eq!(data.lines[1].text, "late");
}

#[test]
fn stamp_keys_in_milliseconds() {
    assert_eq!(stamp_key("00:30.50"), 30_500);
    assert_eq!(stamp_key("01:02.345"), 62_345);
    assert_eq!(stamp_key("1:00:00"), 3_600_000);
    assert_eq!(stamp_key("00:01.9999"), 1_999);
    assert_eq!(stamp_key("-1:00"), 0);
    assert_eq!(stamp_key("99999999999999999999:00"), u64::MAX);
}

#[test]
fn embedded_lyrics_are_ordered_by_time() {
    match parse_embedded_timed("[00:20.00]second\n[00:10.00]first\n") {
        LyricsKind::Timed(lines) => {
            assert_eq!(lines.len(), 2);
            assert_eq!(lines[0].text, "first");
            assert_eq!(lines[1].text, "second");
        }
        _ => panic!("expected timed lyrics"),
    }
}
