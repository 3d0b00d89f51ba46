use whisper_tool::decoder::{
    segment_token_stream, Segmenter, TokenSegment, Vocabulary, DEFAULT_MAX_STEPS,
};

fn vocab() -> Vocabulary {
    Vocabulary::from_lookup(None, None, None, None)
}

const HELLO: u32 = 1000;
const WORLD: u32 = 1001;
const NEXT: u32 = 1002;

fn timestamp(v: &Vocabulary, ms: u32) -> u32 {
    v.no_timestamps + 1 + ms / 20
}

fn words(tokens: &[u32]) -> String {
    tokens
        .iter()
        .map(|t| match *t {
            HELLO => "hello",
            WORLD => "world",
            NEXT => "next",
            _ => "?",
        })
        .collect::<Vec<_>>()
        .join(" ")
}

fn triple(s: &TokenSegment) -> (u64, u64, String) {
    (s.start_ms, s.end_ms, words(&s.tokens))
}

#[test]
fn fallback_ids_are_used() {
    let v = vocab();
    assert_eq!((v.sot, v.eot, v.transcribe, v.no_timestamps), (50258, 50257, 50359, 50363));
    let w = Vocabulary::from_lookup(Some(1), None, Some(3), Some(4));
    assert_eq!((w.sot, w.eot, w.transcribe, w.no_timestamps), (1, 50257, 3, 4));
}

#[test]
fn timestamps_are_twenty_milliseconds_apart() {
    let v = vocab();
    assert!(!v.is_timestamp_token(50363));
    assert!(v.is_timestamp_token(50364));
    assert_eq!(v.timestamp_to_millis(50364), 0);
    assert_eq!(v.timestamp_to_millis(50364 + 25), 500);
    assert_eq!(v.timestamp_to_millis(50364 + 1500), 30_000);
}

#[test]
fn two_segments_from_synthetic_stream() {
    let v = vocab();
    let stream = [HELLO, WORLD, timestamp(&v, 500), NEXT, v.eot];
    let segs = segment_token_stream(v, &stream, DEFAULT_MAX_STEPS);
    let got: Vec<_> = segs.iter().map(triple).collect();
    assert_eq!(
        got,
        vec![(0, 500, "hello world".to_string()), (500, 30_000, "next".to_string())]
    );
}

#[test]
fn segmenter_drives_a_run_step_by_step() {
    let v = vocab();
    let mut seg = Segmenter::new(v, DEFAULT_MAX_STEPS);
    assert_eq!(seg.prompt(), &vec![v.sot, v.transcribe]);
    assert!(!seg.is_finished());
    assert!(!seg.push_token(HELLO));
    assert!(!seg.push_token(timestamp(&v, 1000)));
    assert_eq!(seg.prompt(), &vec![v.sot, v.transcribe, HELLO, timestamp(&v, 1000)]);
    assert_eq!(seg.segments().len(), 1);
    assert!(seg.push_token(v.eot));
    assert!(seg.is_finished());
    assert_eq!(seg.prompt().len(), 4);
    let segs = seg.into_segments();
    assert_eq!(segs.len(), 1);
    assert_eq!(triple(&segs[0]), (0, 1000, "hello".to_string()));
}

#[test]
fn cap_drops_unterminated_tail() {
    let v = vocab();
    let stream = [HELLO, timestamp(&v, 200), WORLD, NEXT, NEXT, NEXT];
    let segs = segment_token_stream(v, &stream, 4);
    let got: Vec<_> = segs.iter().map(triple).collect();
    assert_eq!(got, vec![(0, 200, "hello".to_string())]);
    let segs = segment_token_stream(v, &[WORLD; 2000], DEFAULT_MAX_STEPS);
    assert!(segs.is_empty());
}

#[test]
fn cap_stops_before_a_late_end_of_text() {
    let v = vocab();
    let stream = [HELLO, WORLD, v.eot];
    assert!(segment_token_stream(v, &stream, 2).is_empty());
    assert_eq!(segment_token_stream(v, &stream, 3).len(), 1);
    assert!(segment_token_stream(v, &stream, 0).is_empty());
}

#[test]
fn tokens_after_end_of_text_are_ignored() {
    let v = vocab();
    let stream = [HELLO, v.eot, WORLD, timestamp(&v, 800)];
    let segs = segment_token_stream(v, &stream, DEFAULT_MAX_STEPS);
    let got: Vec<_> = segs.iter().map(triple).collect();
    assert_eq!(got, vec![(0, 30_000, "hello".to_string())]);
}

#[test]
fn empty_text_between_timestamps_emits_nothing() {
    let v = vocab();
    let stream = [timestamp(&v, 0), timestamp(&v, 400), HELLO, timestamp(&v, 900), v.eot];
    let segs = segment_token_stream(v, &stream, DEFAULT_MAX_STEPS);
    let got: Vec<_> = segs.iter().map(triple).collect();
    assert_eq!(got, vec![(400, 900, "hello".to_string())]);
}

#[test]
fn ordered_timestamps_give_ordered_segments() {
    let v = vocab();
    let stream = [
        HELLO,
        timestamp(&v, 100),
        WORLD,
        timestamp(&v, 2000),
        timestamp(&v, 2500),
        NEXT,
        timestamp(&v, 2500),
        HELLO,
        v.eot,
    ];
    let segs = segment_token_stream(v, &stream, DEFAULT_MAX_STEPS);
    assert_eq!(segs.len(), 4);
    for s in &segs {
        assert!(s.start_ms <= s.end_ms);
    }
    for w in segs.windows(2) {
        assert!(w[0].start_ms <= w[1].start_ms);
        assert!(w[0].end_ms <= w[1].start_ms);
    }
}

#[test]
fn cap_reached_mid_text_keeps_only_closed_segments() {
    let v = vocab();
    let stream = [HELLO, WORLD, timestamp(&v, 300), NEXT, HELLO, WORLD, v.eot];
    let capped = segment_token_stream(v, &stream, 5);
    let got: Vec<_> = capped.iter().map(triple).collect();
    assert_eq!(got, vec![(0, 300, "hello world".to_string())]);
    let full = segment_token_stream(v, &stream, DEFAULT_MAX_STEPS);
    assert_eq!(full.len(), 2);
    assert_eq!(triple(&full[1]), (300, 30_000, "next hello world".to_string()));
}
