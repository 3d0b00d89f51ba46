use whisper_tool::ai::{
    check_api_key, extract_json_array, reply_text, segments_prompt, storyboard_prompt,
    translate_prompt, AiError, Segment,
};

#[test]
fn empty_key_is_refused() {
    assert_eq!(check_api_key(""), Err(AiError::EmptyApiKey));
    assert_eq!(check_api_key("SECRET-REDACTED"), Ok(()));
}

#[test]
fn json_array_is_cut_out_of_a_reply() {
    assert_eq!(
        extract_json_array("```json\n[{\"start\": \"1\"}]\n```"),
        "[{\"start\": \"1\"}]"
    );
    assert_eq!(extract_json_array("no array here"), "no array here");
    assert_eq!(extract_json_array("[ open only"), "[ open only");
    assert_eq!(extract_json_array("] before ["), "] before [");
    assert_eq!(extract_json_array("x[1][2]y"), "[1][2]");
}

#[test]
fn prompts_embed_their_inputs() {
    let p = segments_prompt("find highlights", "a talk");
    assert!(p.starts_with("find highlights\n\nVideo Content/Context: a talk\n\nReturn JSON array"));
    let t = translate_prompt("hello", "French");
    assert!(t.starts_with("Translate the following subtitle text to French."));
    assert!(t.ends_with("Text:\nhello"));
    let s = storyboard_prompt("a beach");
    assert!(s.ends_with("Context:\na beach"));
}

#[test]
fn reply_text_is_trimmed_or_falls_back() {
    assert_eq!(reply_text(Some("  bonjour \n"), "Thinking..."), "bonjour");
    assert_eq!(reply_text(None, "Thinking..."), "Thinking...");
}

#[test]
fn segment_holds_its_fields() {
    let s = Segment { start: "00:00:01.000".into(), end: "00:00:02.000".into(), text: "x".into() };
    let c = s.clone();
    assert_eq!((c.start.as_str(), c.end.as_str(), c.text.as_str()), ("00:00:01.000", "00:00:02.000", "x"));
}
