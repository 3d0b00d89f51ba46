use whisper_tool::cutter::{split_by_length, split_evenly, CutError, VideoCutter};

fn strs(v: &[String]) -> Vec<&str> {
    v.iter().map(|s| s.as_str()).collect()
}

#[test]
fn cut_with_stream_copy() {
    let args = VideoCutter::cut_segment_args(
        "in.mp4", "00:00:01.000", "00:00:05.500", "out.mp4", false, "23", "medium", false,
    );
    assert_eq!(
        strs(&args),
        vec!["-y", "-i", "in.mp4", "-ss", "00:00:01.000", "-to", "00:00:05.500", "-c", "copy", "out.mp4"]
    );
}

#[test]
fn cut_with_reencode_and_audio() {
    let args =
        VideoCutter::cut_segment_args("a", "1", "2", "b", true, "18", "slow", false);
    assert_eq!(
        strs(&args),
        vec![
            "-y", "-i", "a", "-ss", "1", "-to", "2", "-c:v", "libx264", "-crf", "18", "-preset",
            "slow", "-c:a", "aac", "b"
        ]
    );
}

#[test]
fn cut_muted() {
    let args = VideoCutter::cut_segment_args("a", "1", "2", "b", true, "18", "slow", true);
    assert_eq!(
        strs(&args),
        vec!["-y", "-i", "a", "-ss", "1", "-to", "2", "-an", "-c:v", "libx264", "-crf", "18", "-preset", "slow", "b"]
    );
    let args = VideoCutter::cut_segment_args("a", "1", "2", "b", false, "18", "slow", true);
    assert_eq!(strs(&args), vec!["-y", "-i", "a", "-ss", "1", "-to", "2", "-an", "-c", "copy", "b"]);
}

#[test]
fn other_command_lines() {
    assert_eq!(
        strs(&VideoCutter::burn_subtitles_args("v.mp4", "subs.srt", "o.mp4", "23", "fast")),
        vec![
            "-y", "-i", "v.mp4", "-vf", "subtitles=subs.srt", "-c:v", "libx264", "-crf", "23",
            "-preset", "fast", "-c:a", "copy", "o.mp4"
        ]
    );
    assert_eq!(
        strs(&VideoCutter::extract_audio_args("v.mp4", "a.mp3")),
        vec!["-y", "-i", "v.mp4", "-vn", "-acodec", "libmp3lame", "-q:a", "2", "a.mp3"]
    );
    assert_eq!(
        strs(&VideoCutter::merge_videos_args("list.txt", "o.mp4")),
        vec!["-y", "-f", "concat", "-safe", "0", "-i", "list.txt", "-c", "copy", "o.mp4"]
    );
    assert_eq!(
        strs(&VideoCutter::compress_video_args("v.mp4", "o.mp4", "28")),
        vec![
            "-y", "-i", "v.mp4", "-c:v", "libx264", "-crf", "28", "-preset", "medium", "-c:a",
            "aac", "-b:a", "128k", "o.mp4"
        ]
    );
    assert_eq!(
        strs(&VideoCutter::convert_format_copy_args("v.mov", "o.mp4")),
        vec!["-y", "-i", "v.mov", "-c", "copy", "-strict", "experimental", "o.mp4"]
    );
    assert_eq!(
        strs(&VideoCutter::convert_format_reencode_args("v.mov", "o.mp4")),
        vec!["-y", "-i", "v.mov", "o.mp4"]
    );
    assert_eq!(
        strs(&VideoCutter::generate_gif_args("v.mp4", "o.gif")),
        vec![
            "-y", "-i", "v.mp4", "-vf",
            "fps=10,scale=320:-1:flags=lanczos,split[s0][s1];[s0]palettegen[p];[s1][p]paletteuse",
            "o.gif"
        ]
    );
}

#[test]
fn concat_list_escapes_quotes() {
    let inputs = vec!["a.mp4".to_string(), "it's here.mp4".to_string()];
    assert_eq!(
        VideoCutter::concat_list(&inputs).unwrap(),
        "file 'a.mp4'\nfile 'it'\\''s here.mp4'\n"
    );
}

#[test]
fn concat_list_needs_inputs() {
    assert_eq!(VideoCutter::concat_list(&[]), Err(CutError::NoInputs));
}

#[test]
fn segment_names_follow_the_template() {
    assert_eq!(VideoCutter::segment_file_name("segment_{}", 3), "segment_3");
    assert_eq!(VideoCutter::segment_file_name("{}-of-{}", 12), "12-of-12");
    assert_eq!(VideoCutter::segment_file_name("clip", 1), "clip_1");
    assert_eq!(VideoCutter::segment_file_name("a{b}", 7), "a{b}_7");
    assert_eq!(VideoCutter::segment_file_name("{{}}", 5), "{5}");
}

#[test]
fn even_split_covers_the_duration() {
    assert_eq!(
        split_evenly(10_000, 3),
        Ok(vec![(0, 3_333), (3_333, 6_666), (6_666, 10_000)])
    );
    assert_eq!(split_evenly(7, 1), Ok(vec![(0, 7)]));
    assert_eq!(split_evenly(10_000, 0), Err(CutError::EmptyParts));
    let parts = split_evenly(u64::MAX, 4).unwrap();
    assert_eq!(parts.len(), 4);
    assert_eq!(parts[3].1, u64::MAX);
}

#[test]
fn length_split_skips_tiny_tails() {
    assert_eq!(
        split_by_length(25_000, 10_000),
        Ok(vec![(0, 10_000), (10_000, 20_000), (20_000, 25_000)])
    );
    assert_eq!(split_by_length(20_050, 10_000), Ok(vec![(0, 10_000), (10_000, 20_000)]));
    assert_eq!(split_by_length(5_000, 10_000), Ok(vec![(0, 5_000)]));
    assert_eq!(split_by_length(0, 10_000), Ok(vec![]));
    assert_eq!(split_by_length(5_000, 0), Err(CutError::EmptyParts));
}
