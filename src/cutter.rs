//! The ffmpeg command lines of the media cutter, the concat list of a merge,
//! and the file names of cut segments. Running ffmpeg is left to the caller.
use vstd::prelude::*;
use crate::text::push_char;
use crate::time_utils::{decimal, push_padded, zero_padded};

verus! {

/// The character views of a list of command-line arguments.
pub open spec fn arg_views(args: Seq<String>) -> Seq<Seq<char>> {
    args.map_values(|s: String| s@)
}

fn push_arg(args: &mut Vec<String>, s: &str)
    ensures
        arg_views(final(args)@) == arg_views(old(args)@).push(s@),
{
    let ghost before = args@;
    args.push(String::from_str(s));
    assert(arg_views(args@) =~= arg_views(before).push(s@));
}

/// The arguments of cutting `[start, end]` out of `input`.
pub open spec fn cut_segment_spec(
    input: Seq<char>,
    start: Seq<char>,
    end: Seq<char>,
    output: Seq<char>,
    reencode: bool,
    crf: Seq<char>,
    preset: Seq<char>,
    mute: bool,
) -> Seq<Seq<char>> {
    let head = seq!["-y"@, "-i"@, input, "-ss"@, start, "-to"@, end];
    let audio = if mute {
        seq!["-an"@]
    } else {
        Seq::empty()
    };
    let codec = if !reencode {
        seq!["-c"@, "copy"@]
    } else if mute {
        seq!["-c:v"@, "libx264"@, "-crf"@, crf, "-preset"@, preset]
    } else {
        seq!["-c:v"@, "libx264"@, "-crf"@, crf, "-preset"@, preset, "-c:a"@, "aac"@]
    };
    head + audio + codec + seq![output]
}

/// The `'`-escaping of a path inside a single-quoted concat-list entry: each
/// `'` becomes `'\''`.
pub open spec fn escape_quotes(s: Seq<char>) -> Seq<char>
    decreases s.len(),
{
    if s.len() == 0 {
        Seq::empty()
    } else if s.last() == '\'' {
        escape_quotes(s.drop_last()) + seq!['\'', '\\', '\'', '\'']
    } else {
        escape_quotes(s.drop_last()).push(s.last())
    }
}

/// The concat list of the paths `paths`: one line `file '<path>'` each.
pub open spec fn concat_list_text(paths: Seq<Seq<char>>) -> Seq<char>
    decreases paths.len(),
{
    if paths.len() == 0 {
        Seq::empty()
    } else {
        concat_list_text(paths.drop_last()) + "file '"@ + escape_quotes(paths.last()) + "'\n"@
    }
}

/// Whether `s` holds the placeholder `{}`.
pub open spec fn has_placeholder(s: Seq<char>) -> bool {
    exists|i: int| 0 <= i < s.len() - 1 && #[trigger] s[i] == '{' && s[i + 1] == '}'
}

/// `s` with every `{}`, read from left to right, replaced by `rep`.
pub open spec fn replace_placeholders(s: Seq<char>, rep: Seq<char>) -> Seq<char>
    decreases s.len(),
{
    if s.len() == 0 {
        Seq::empty()
    } else if s.len() >= 2 && s[0] == '{' && s[1] == '}' {
        rep + replace_placeholders(s.subrange(2, s.len() as int), rep)
    } else {
        seq![s[0]] + replace_placeholders(s.drop_first(), rep)
    }
}

/// The file name (without extension) of segment number `number` under the
/// naming template `template`.
pub open spec fn segment_name(template: Seq<char>, number: nat) -> Seq<char> {
    if has_placeholder(template) {
        replace_placeholders(template, decimal(number))
    } else {
        template + seq!['_'] + decimal(number)
    }
}

/// Why a command line cannot be built.
#[derive(Debug, Clone, Copy, PartialEq, Eq)]
pub enum CutError {
    /// A merge was asked for with no input file.
    NoInputs,
    /// A split was asked for into no parts, or into parts of no length.
    EmptyParts,
}

/// Part `i` of `parts` equal parts of a duration `d`: from `i * d / parts`
/// to `(i + 1) * d / parts`, the last part ending at `d` itself.
pub open spec fn even_part(d: nat, parts: nat, i: nat) -> (nat, nat) {
    (i * d / parts, if i + 1 == parts {
        d
    } else {
        (i + 1) * d / parts
    })
}

/// Gap below which a tail is not worth a part of its own, in milliseconds.
pub const MIN_TAIL_MILLIS: u64 = 100;

/// Consecutive parts of at most `len` from `start` to `d`; the split stops
/// once less than `MIN_TAIL_MILLIS` would remain.
pub open spec fn length_parts(d: nat, len: nat, start: nat) -> Seq<(nat, nat)>
    decreases d - start,
{
    if start >= d || len == 0 {
        Seq::empty()
    } else {
        let end = if start + len < d {
            start + len
        } else {
            d
        };
        if end + MIN_TAIL_MILLIS >= d {
            seq![(start, end)]
        } else {
            seq![(start, end)] + length_parts(d, len, end)
        }
    }
}

/// The media cutter's ffmpeg command lines. Every list starts with `-y`, so
/// an existing output is overwritten.
pub struct VideoCutter;

impl VideoCutter {
    /// Cuts `[start, end]` out of `input`. Without `reencode` the streams are
    /// copied; with it the video is re-encoded with x264 at `crf` and `preset`
    /// (and the audio as AAC unless `mute`). `mute` drops the audio.
    pub fn cut_segment_args(
        input: &str,
        start: &str,
        end: &str,
        output: &str,
        reencode: bool,
        crf: &str,
        preset: &str,
        mute: bool,
    ) -> (r: Vec<String>)
        ensures
            arg_views(r@) == cut_segment_spec(
                input@,
                start@,
                end@,
                output@,
                reencode,
                crf@,
                preset@,
                mute,
            ),
    {
        let mut args: Vec<String> = Vec::new();
        push_arg(&mut args, "-y");
        push_arg(&mut args, "-i");
        push_arg(&mut args, input);
        push_arg(&mut args, "-ss");
        push_arg(&mut args, start);
        push_arg(&mut args, "-to");
        push_arg(&mut args, end);
        if mute {
            push_arg(&mut args, "-an");
        }
        if !reencode {
            push_arg(&mut args, "-c");
            push_arg(&mut args, "copy");
        } else {
            push_arg(&mut args, "-c:v");
            push_arg(&mut args, "libx264");
            push_arg(&mut args, "-crf");
            push_arg(&mut args, crf);
            push_arg(&mut args, "-preset");
            push_arg(&mut args, preset);
            if !mute {
                push_arg(&mut args, "-c:a");
                push_arg(&mut args, "aac");
            }
        }
        push_arg(&mut args, output);
        assert(arg_views(args@) =~= cut_segment_spec(
            input@,
            start@,
            end@,
            output@,
            reencode,
            crf@,
            preset@,
            mute,
        ));
        args
    }

    /// Burns the subtitles of `subtitle_file` into the video of `input`
    /// (x264 at `crf` and `preset`), copying the audio.
    pub fn burn_subtitles_args(
        input: &str,
        subtitle_file: &str,
        output: &str,
        crf: &str,
        preset: &str,
    ) -> (r: Vec<String>)
        ensures
            arg_views(r@) == seq![
                "-y"@,
                "-i"@,
                input@,
                "-vf"@,
                "subtitles="@ + subtitle_file@,
                "-c:v"@,
                "libx264"@,
                "-crf"@,
                crf@,
                "-preset"@,
                preset@,
                "-c:a"@,
                "copy"@,
                output@,
            ],
    {
        let mut filter = String::from_str("subtitles=");
        filter.append(subtitle_file);
        let mut args: Vec<String> = Vec::new();
        push_arg(&mut args, "-y");
        push_arg(&mut args, "-i");
        push_arg(&mut args, input);
        push_arg(&mut args, "-vf");
        push_arg(&mut args, filter.as_str());
        push_arg(&mut args, "-c:v");
        push_arg(&mut args, "libx264");
        push_arg(&mut args, "-crf");
        push_arg(&mut args, crf);
        push_arg(&mut args, "-preset");
        push_arg(&mut args, preset);
        push_arg(&mut args, "-c:a");
        push_arg(&mut args, "copy");
        push_arg(&mut args, output);
        assert(arg_views(args@) =~= seq![
            "-y"@,
            "-i"@,
            input@,
            "-vf"@,
            "subtitles="@ + subtitle_file@,
            "-c:v"@,
            "libx264"@,
            "-crf"@,
            crf@,
            "-preset"@,
            preset@,
            "-c:a"@,
            "copy"@,
            output@,
        ]);
        args
    }

    /// Extracts the audio of `input` as high-quality MP3.
    pub fn extract_audio_args(input: &str, output: &str) -> (r: Vec<String>)
        ensures
            arg_views(r@) == seq![
                "-y"@,
                "-i"@,
                input@,
                "-vn"@,
                "-acodec"@,
                "libmp3lame"@,
                "-q:a"@,
                "2"@,
                output@,
            ],
    {
        let mut args: Vec<String> = Vec::new();
        push_arg(&mut args, "-y");
        push_arg(&mut args, "-i");
        push_arg(&mut args, input);
        push_arg(&mut args, "-vn");
        push_arg(&mut args, "-acodec");
        push_arg(&mut args, "libmp3lame");
        push_arg(&mut args, "-q:a");
        push_arg(&mut args, "2");
        push_arg(&mut args, output);
        assert(arg_views(args@) =~= seq![
            "-y"@,
            "-i"@,
            input@,
            "-vn"@,
            "-acodec"@,
            "libmp3lame"@,
            "-q:a"@,
            "2"@,
            output@,
        ]);
        args
    }

    /// Joins the files of the concat list `list_file` by stream copy.
    pub fn merge_videos_args(list_file: &str, output: &str) -> (r: Vec<String>)
        ensures
            arg_views(r@) == seq![
                "-y"@,
                "-f"@,
                "concat"@,
                "-safe"@,
                "0"@,
                "-i"@,
                list_file@,
                "-c"@,
                "copy"@,
                output@,
            ],
    {
        let mut args: Vec<String> = Vec::new();
        push_arg(&mut args, "-y");
        push_arg(&mut args, "-f");
        push_arg(&mut args, "concat");
        push_arg(&mut args, "-safe");
        push_arg(&mut args, "0");
        push_arg(&mut args, "-i");
        push_arg(&mut args, list_file);
        push_arg(&mut args, "-c");
        push_arg(&mut args, "copy");
        push_arg(&mut args, output);
        assert(arg_views(args@) =~= seq![
            "-y"@,
            "-f"@,
            "concat"@,
            "-safe"@,
            "0"@,
            "-i"@,
            list_file@,
            "-c"@,
            "copy"@,
            output@,
        ]);
        args
    }

    /// The concat list of a merge of `inputs`, in order; an empty list of
    /// inputs is refused.
    pub fn concat_list(inputs: &[String]) -> (r: Result<String, CutError>)
        ensures
            inputs@.len() == 0 ==> r == Err::<String, CutError>(CutError::NoInputs),
            inputs@.len() > 0 ==> r is Ok && r->Ok_0@ == concat_list_text(arg_views(inputs@)),
    {
        if inputs.len() == 0 {
            return Err(CutError::NoInputs);
        }
        let mut out = String::new();
        let n = inputs.len();
        let mut i: usize = 0;
        assert(arg_views(inputs@).take(0) =~= Seq::<Seq<char>>::empty());
        while i < n
            invariant
                n == inputs@.len(),
                i <= n,
                out@ == concat_list_text(arg_views(inputs@).take(i as int)),
            decreases n - i,
        {
            let path = inputs[i].as_str();
            out.append("file '");
            push_escaped(&mut out, path);
            out.append("'\n");
            let ghost views = arg_views(inputs@);
            assert(views.take(i + 1).drop_last() =~= views.take(i as int));
            assert(views.take(i + 1).last() == path@);
            i = i + 1;
        }
        assert(arg_views(inputs@).take(n as int) =~= arg_views(inputs@));
        Ok(out)
    }

    /// Re-encodes `input` with x264 at `crf` (preset `medium`) and 128 kb/s AAC.
    pub fn compress_video_args(input: &str, output: &str, crf: &str) -> (r: Vec<String>)
        ensures
            arg_views(r@) == seq![
                "-y"@,
                "-i"@,
                input@,
                "-c:v"@,
                "libx264"@,
                "-crf"@,
                crf@,
                "-preset"@,
                "medium"@,
                "-c:a"@,
                "aac"@,
                "-b:a"@,
                "128k"@,
                output@,
            ],
    {
        let mut args: Vec<String> = Vec::new();
        push_arg(&mut args, "-y");
        push_arg(&mut args, "-i");
        push_arg(&mut args, input);
        push_arg(&mut args, "-c:v");
        push_arg(&mut args, "libx264");
        push_arg(&mut args, "-crf");
        push_arg(&mut args, crf);
        push_arg(&mut args, "-preset");
        push_arg(&mut args, "medium");
        push_arg(&mut args, "-c:a");
        push_arg(&mut args, "aac");
        push_arg(&mut args, "-b:a");
        push_arg(&mut args, "128k");
        push_arg(&mut args, output);
        assert(arg_views(args@) =~= seq![
            "-y"@,
            "-i"@,
            input@,
            "-c:v"@,
            "libx264"@,
            "-crf"@,
            crf@,
            "-preset"@,
            "medium"@,
            "-c:a"@,
            "aac"@,
            "-b:a"@,
            "128k"@,
            output@,
        ]);
        args
    }

    /// The first attempt of a format conversion: a stream copy.
    pub fn convert_format_copy_args(input: &str, output: &str) -> (r: Vec<String>)
        ensures
            arg_views(r@) == seq![
                "-y"@,
                "-i"@,
                input@,
                "-c"@,
                "copy"@,
                "-strict"@,
                "experimental"@,
                output@,
            ],
    {
        let mut args: Vec<String> = Vec::new();
        push_arg(&mut args, "-y");
        push_arg(&mut args, "-i");
        push_arg(&mut args, input);
        push_arg(&mut args, "-c");
        push_arg(&mut args, "copy");
        push_arg(&mut args, "-strict");
        push_arg(&mut args, "experimental");
        push_arg(&mut args, output);
        assert(arg_views(args@) =~= seq![
            "-y"@,
            "-i"@,
            input@,
            "-c"@,
            "copy"@,
            "-strict"@,
            "experimental"@,
            output@,
        ]);
        args
    }

    /// The second attempt of a format conversion, when the copy failed: a
    /// re-encode with ffmpeg's defaults for the output's container.
    pub fn convert_format_reencode_args(input: &str, output: &str) -> (r: Vec<String>)
        ensures
            arg_views(r@) == seq!["-y"@, "-i"@, input@, output@],
    {
        let mut args: Vec<String> = Vec::new();
        push_arg(&mut args, "-y");
        push_arg(&mut args, "-i");
        push_arg(&mut args, input);
        push_arg(&mut args, output);
        assert(arg_views(args@) =~= seq!["-y"@, "-i"@, input@, output@]);
        args
    }

    /// Exports `input` as an animated GIF: 10 frames per second, 320 pixels
    /// wide, with a palette generated from the clip itself.
    pub fn generate_gif_args(input: &str, output: &str) -> (r: Vec<String>)
        ensures
            arg_views(r@) == seq!["-y"@, "-i"@, input@, "-vf"@, "fps=10,scale=320:-1:flags=lanczos,split[s0][s1];[s0]palettegen[p];[s1][p]paletteuse"@, output@],
    {
        let mut args: Vec<String> = Vec::new();
        push_arg(&mut args, "-y");
        push_arg(&mut args, "-i");
        push_arg(&mut args, input);
        push_arg(&mut args, "-vf");
        push_arg(&mut args, "fps=10,scale=320:-1:flags=lanczos,split[s0][s1];[s0]palettegen[p];[s1][p]paletteuse");
        push_arg(&mut args, output);
        assert(arg_views(args@) =~= seq!["-y"@, "-i"@, input@, "-vf"@, "fps=10,scale=320:-1:flags=lanczos,split[s0][s1];[s0]palettegen[p];[s1][p]paletteuse"@, output@]);
        args
    }

    /// The file name of segment number `number` under `template`: each `{}`
    /// replaced by the number, or `_<number>` appended when there is none.
    pub fn segment_file_name(template: &str, number: u64) -> (r: String)
        ensures
            r@ == segment_name(template@, number as nat),
    {
        let mut num = String::new();
        push_padded(&mut num, number, 0);
        assert(zero_padded(number as nat, 0) == decimal(number as nat));
        assert(num@ =~= decimal(number as nat));
        let n = template.unicode_len();
        let mut out = String::new();
        let mut i: usize = 0;
        let mut found = false;
        assert(template@.subrange(0, n as int) =~= template@);
        while i < n
            invariant
                n == template@.len(),
                i <= n,
                num@ == decimal(number as nat),
                out@ + replace_placeholders(template@.subrange(i as int, n as int), num@)
                    == replace_placeholders(template@, num@),
                found ==> has_placeholder(template@),
                !found ==> forall|k: int|
                    0 <= k < i - 1 ==> !(#[trigger] template@[k] == '{' && template@[k + 1] == '}'),
                !found && i > 0 ==> !(template@[i - 1] == '{' && i < n && template@[i as int]
                    == '}'),
                !found ==> out@ == template@.subrange(0, i as int),
            decreases n - i,
        {
            let ghost rest = template@.subrange(i as int, n as int);
            let c = template.get_char(i);
            if c == '{' && i + 1 < n && template.get_char(i + 1) == '}' {
                assert(rest.subrange(2, rest.len() as int) =~= template@.subrange(
                    i + 2,
                    n as int,
                ));
                assert(out@ + (num@ + replace_placeholders(
                    template@.subrange(i + 2, n as int),
                    num@,
                )) =~= out@ + num@ + replace_placeholders(template@.subrange(i + 2, n as int), num@));
                out.append(num.as_str());
                found = true;
                i = i + 2;
            } else {
                assert(rest.drop_first() =~= template@.subrange(i + 1, n as int));
                assert(out@ + (seq![c] + replace_placeholders(
                    template@.subrange(i + 1, n as int),
                    num@,
                )) =~= out@.push(c) + replace_placeholders(template@.subrange(i + 1, n as int), num@));
                let ghost prev = out@;
                push_char(&mut out, c);
                proof {
                    if !found {
                        assert(out@ =~= template@.subrange(0, i + 1));
                    }
                }
                i = i + 1;
            }
        }
        assert(template@.subrange(n as int, n as int) =~= Seq::<char>::empty());
        if found {
            assert(out@ + Seq::<char>::empty() =~= out@);
            out
        } else {
            let mut plain = String::from_str(template);
            push_char(&mut plain, '_');
            plain.append(num.as_str());
            assert(plain@ =~= template@ + seq!['_'] + decimal(number as nat));
            plain
        }
    }
}

/// Splits a duration of `duration_ms` into `parts` equal parts, in
/// milliseconds; zero parts are refused.
pub fn split_evenly(duration_ms: u64, parts: u64) -> (r: Result<Vec<(u64, u64)>, CutError>)
    ensures
        parts == 0 ==> r == Err::<Vec<(u64, u64)>, CutError>(CutError::EmptyParts),
        parts > 0 ==> r is Ok && r->Ok_0@.len() == parts && forall|i: int|
            0 <= i < parts ==> (#[trigger] r->Ok_0@[i]).0 as nat == even_part(
                duration_ms as nat,
                parts as nat,
                i as nat,
            ).0 && r->Ok_0@[i].1 as nat == even_part(duration_ms as nat, parts as nat, i as nat).1,
{
    if parts == 0 {
        return Err(CutError::EmptyParts);
    }
    let mut out: Vec<(u64, u64)> = Vec::new();
    let mut i: u64 = 0;
    let d = duration_ms as u128;
    let n = parts as u128;
    while i < parts
        invariant
            0 < parts,
            d == duration_ms,
            n == parts,
            i <= parts,
            out@.len() == i,
            forall|k: int|
                0 <= k < i ==> (#[trigger] out@[k]).0 as nat == even_part(
                    duration_ms as nat,
                    parts as nat,
                    k as nat,
                ).0 && out@[k].1 as nat == even_part(duration_ms as nat, parts as nat, k as nat).1,
        decreases parts - i,
    {
        let k = i as u128;
        assert(k * d <= n * d && (k + 1) * d <= n * d) by (nonlinear_arith)
            requires
                k < n,
        ;
        assert(n * d <= 0xffff_ffff_ffff_ffff * 0xffff_ffff_ffff_ffff) by (nonlinear_arith)
            requires
                n <= 0xffff_ffff_ffff_ffff,
                d <= 0xffff_ffff_ffff_ffff,
        ;
        assert((k as int) * (d as int) / (n as int) <= d as int && (k as int + 1) * (d as int) / (
        n as int) <= d as int) by (nonlinear_arith)
            requires
                k < n,
                0 < n,
        ;
        let start = (k * d / n) as u64;
        let end = if i + 1 == parts {
            duration_ms
        } else {
            ((k + 1) * d / n) as u64
        };
        out.push((start, end));
        i = i + 1;
    }
    Ok(out)
}

/// Splits a duration of `duration_ms` into consecutive parts of `part_ms`
/// (the last one shorter), in milliseconds, without a last part shorter
/// than `MIN_TAIL_MILLIS`; parts of no length are refused.
pub fn split_by_length(duration_ms: u64, part_ms: u64) -> (r: Result<Vec<(u64, u64)>, CutError>)
    ensures
        part_ms == 0 ==> r == Err::<Vec<(u64, u64)>, CutError>(CutError::EmptyParts),
        part_ms > 0 ==> r is Ok && r->Ok_0@.map_values(|p: (u64, u64)| (p.0 as nat, p.1 as nat))
            == length_parts(duration_ms as nat, part_ms as nat, 0),
{
    if part_ms == 0 {
        return Err(CutError::EmptyParts);
    }
    let mut out: Vec<(u64, u64)> = Vec::new();
    let mut start: u64 = 0;
    let mut more = start < duration_ms;
    let ghost whole = length_parts(duration_ms as nat, part_ms as nat, 0);
    assert(Seq::<(nat, nat)>::empty() + whole =~= whole);
    while more
        invariant
            part_ms > 0,
            start <= duration_ms,
            whole == length_parts(duration_ms as nat, part_ms as nat, 0),
            more ==> start < duration_ms,
            out@.map_values(|p: (u64, u64)| (p.0 as nat, p.1 as nat)) + (if more {
                length_parts(duration_ms as nat, part_ms as nat, start as nat)
            } else {
                Seq::empty()
            }) == whole,
        decreases (duration_ms - start) as int + if more {
            1int
        } else {
            0int
        },
    {
        let end = if part_ms < duration_ms - start {
            start + part_ms
        } else {
            duration_ms
        };
        let ghost before = out@.map_values(|p: (u64, u64)| (p.0 as nat, p.1 as nat));
        let ghost rest = length_parts(duration_ms as nat, part_ms as nat, start as nat);
        out.push((start, end));
        assert(out@.map_values(|p: (u64, u64)| (p.0 as nat, p.1 as nat)) =~= before.push(
            (start as nat, end as nat),
        ));
        if end >= duration_ms || duration_ms - end <= MIN_TAIL_MILLIS {
            assert(rest == seq![(start as nat, end as nat)]);
            assert(before + rest =~= before.push((start as nat, end as nat)) + Seq::empty());
            more = false;
        } else {
            assert(rest == seq![(start as nat, end as nat)] + length_parts(
                duration_ms as nat,
                part_ms as nat,
                end as nat,
            ));
            assert(before + rest =~= before.push((start as nat, end as nat)) + length_parts(
                duration_ms as nat,
                part_ms as nat,
                end as nat,
            ));
            start = end;
        }
    }
    Ok(out)
}

/// Appends `path` with each `'` escaped as `'\''`.
fn push_escaped(out: &mut String, path: &str)
    ensures
        final(out)@ == old(out)@ + escape_quotes(path@),
{
    let ghost start = out@;
    let n = path.unicode_len();
    let mut i: usize = 0;
    assert(path@.take(0) =~= Seq::<char>::empty());
    while i < n
        invariant
            n == path@.len(),
            i <= n,
            out@ == start + escape_quotes(path@.take(i as int)),
        decreases n - i,
    {
        let c = path.get_char(i);
        assert(path@.take(i + 1).drop_last() =~= path@.take(i as int));
        if c == '\'' {
            push_char(out, '\'');
            push_char(out, '\\');
            push_char(out, '\'');
            push_char(out, '\'');
        } else {
            push_char(out, c);
        }
        assert(out@ =~= start + escape_quotes(path@.take(i + 1)));
        i = i + 1;
    }
    assert(path@.take(n as int) =~= path@);
}

} // verus!
