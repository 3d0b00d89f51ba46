use whisper_tool::srt_import::parse_srt_segments;

fn triples(content: &str) -> Vec<(String, String, String)> {
    parse_srt_segments(content).into_iter().map(|s| (s.start, s.end, s.text)).collect()
}

fn t(a: &str, b: &str, c: &str) -> (String, String, String) {
    (a.to_string(), b.to_string(), c.to_string())
}

#[test]
fn reads_cues_with_dotted_times() {
    let content = "1\n00:00:01,000 --> 00:00:02,500\nHello\n\n2\n00:01:00,000 --> 00:01:05,000\n  Second cue  \n\n";
    assert_eq!(
        triples(content),
        vec![
            t("00:00:01.000", "00:00:02.500", "Hello"),
            t("00:01:00.000", "00:01:05.000", "Second cue")
        ]
    );
}

#[test]
fn keeps_first_text_line_only() {
    let content = "1\n00:00:01,000 --> 00:00:02,000\nfirst line\nsecond line\n\n";
    assert_eq!(triples(content), vec![t("00:00:01.000", "00:00:02.000", "first line")]);
}

#[test]
fn reads_crlf_files() {
    let content = "1\r\n00:00:01,000 --> 00:00:02,000\r\nHi\r\n\r\n2\r\n00:00:03,000 --> 00:00:04,000\r\nThere\r\n";
    assert_eq!(
        triples(content),
        vec![t("00:00:01.000", "00:00:02.000", "Hi"), t("00:00:03.000", "00:00:04.000", "There")]
    );
}

#[test]
fn ignores_malformed_cues() {
    assert!(triples("").is_empty());
    assert!(triples("1\n00:00:01.000 --> 00:00:02,000\nx\n").is_empty());
    assert!(triples("1\n0:00:01,000 --> 00:00:02,000\nx\n").is_empty());
    assert!(triples("x1\n00:00:01,000 --> 00:00:02,000\nx\n").is_empty());
    assert!(triples("1\n00:00:01,000 -> 00:00:02,000\nx\n").is_empty());
    assert!(triples("1\n00:00:01,000 --> 00:00:02,000").is_empty());
}

#[test]
fn skips_text_before_a_cue() {
    let content = "WEBVTT-ish header\n\n7\n00:10:00,000 --> 00:10:01,000\nlate\n";
    assert_eq!(triples(content), vec![t("00:10:00.000", "00:10:01.000", "late")]);
}
