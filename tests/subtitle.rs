use whisper_tool::subtitle::{render_srt, Cue};

#[test]
fn renders_numbered_cues() {
    let cues = vec![
        Cue { start_ms: 0, end_ms: 500, text: " hello world ".to_string() },
        Cue { start_ms: 500, end_ms: 30_000, text: "next".to_string() },
    ];
    assert_eq!(
        render_srt(&cues),
        "1\n00:00:00,000 --> 00:00:00,500\nhello world\n\n2\n00:00:00,500 --> 00:00:30,000\nnext\n\n"
    );
}

#[test]
fn renders_nothing_for_no_cues() {
    assert_eq!(render_srt(&[]), "");
}
