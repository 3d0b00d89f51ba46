//! Reading cut points out of an SRT subtitle file. A cue is recognised at the
//! start of a line as: a number, whitespace, a `HH:MM:SS,mmm` time code,
//! whitespace, `-->`, whitespace, a second time code, whitespace, and the rest
//! of that line as its text. Times come back with `.` before the
//! milliseconds, which is how the cutter hands them to ffmpeg; only the first
//! text line of a cue is kept. Digits are ASCII digits; whitespace is Unicode
//! whitespace.
use vstd::prelude::*;
use crate::ai::Segment;
use crate::text::{
    chars_of, is_digit, is_digit_char, is_white_space, is_white_space_char, push_char, trim,
    trim_str,
};
use crate::time_utils::digit_run_end;

verus! {

/// Where the run of whitespace of `s` that begins at `from` ends.
pub open spec fn space_run_end(s: Seq<char>, from: int) -> int
    decreases s.len() - from,
{
    if 0 <= from < s.len() && is_white_space(s[from]) {
        space_run_end(s, from + 1)
    } else {
        from
    }
}

/// Where the line of `s` that goes on at `from` ends: at its `\n`, or at the
/// end of `s`.
pub open spec fn line_end(s: Seq<char>, from: int) -> int
    decreases s.len() - from,
{
    if 0 <= from < s.len() && s[from] != '\n' {
        line_end(s, from + 1)
    } else {
        from
    }
}

/// Whether a time code `DD:DD:DD,DDD` stands at `p` in `s`.
pub open spec fn is_cue_time_at(s: Seq<char>, p: int) -> bool {
    &&& 0 <= p && p + 12 <= s.len()
    &&& is_digit(s[p]) && is_digit(s[p + 1]) && s[p + 2] == ':'
    &&& is_digit(s[p + 3]) && is_digit(s[p + 4]) && s[p + 5] == ':'
    &&& is_digit(s[p + 6]) && is_digit(s[p + 7]) && s[p + 8] == ','
    &&& is_digit(s[p + 9]) && is_digit(s[p + 10]) && is_digit(s[p + 11])
}

/// Whether `p` is where a line of `s` begins.
pub open spec fn at_line_start(s: Seq<char>, p: int) -> bool {
    p == 0 || (0 < p <= s.len() && s[p - 1] == '\n')
}

/// Where the start time, the end time and the text of a cue whose header
/// begins at `p` stand, if one does.
pub open spec fn cue_header(s: Seq<char>, p: int) -> Option<(int, int, int)> {
    let a = digit_run_end(s, p);
    let b = space_run_end(s, a);
    let c = space_run_end(s, b + 12);
    let d = space_run_end(s, c + 3);
    let e = space_run_end(s, d + 12);
    if at_line_start(s, p) && a > p && b > a && is_cue_time_at(s, b) && c > b + 12 && c + 3
        <= s.len() && s[c] == '-' && s[c + 1] == '-' && s[c + 2] == '>' && d > c + 3
        && is_cue_time_at(s, d) && e > d + 12 {
        Some((b, d, e))
    } else {
        None
    }
}

/// A time code with `.` in place of `,`.
pub open spec fn with_dots(t: Seq<char>) -> Seq<char> {
    t.map_values(|c: char| if c == ',' { '.' } else { c })
}

/// The cues of `s` from position `p` on, as (start, end, text).
pub open spec fn srt_cues_from(s: Seq<char>, p: int) -> Seq<(Seq<char>, Seq<char>, Seq<char>)>
    decreases s.len() - p,
{
    if p < 0 || p >= s.len() {
        Seq::empty()
    } else {
        match cue_header(s, p) {
            Some(h) => {
                let le = line_end(s, h.2);
                if p < le <= s.len() {
                    seq![
                        (
                            with_dots(s.subrange(h.0, h.0 + 12)),
                            with_dots(s.subrange(h.1, h.1 + 12)),
                            trim(s.subrange(h.2, le)),
                        ),
                    ] + srt_cues_from(s, le)
                } else {
                    Seq::empty()
                }
            },
            None => srt_cues_from(s, p + 1),
        }
    }
}

/// The views of a list of segments.
pub open spec fn segment_triples(segs: Seq<Segment>) -> Seq<(Seq<char>, Seq<char>, Seq<char>)> {
    segs.map_values(|s: Segment| s@)
}

fn space_end(cs: &Vec<char>, from: usize) -> (r: usize)
    requires
        from <= cs@.len(),
    ensures
        r as int == space_run_end(cs@, from as int),
        from <= r <= cs@.len(),
{
    let n = cs.len();
    let mut i = from;
    while i < n && is_white_space_char(cs[i])
        invariant
            n == cs@.len(),
            from <= i <= n,
            space_run_end(cs@, from as int) == space_run_end(cs@, i as int),
        decreases n - i,
    {
        i = i + 1;
    }
    i
}

fn digits_end(cs: &Vec<char>, from: usize) -> (r: usize)
    requires
        from <= cs@.len(),
    ensures
        r as int == digit_run_end(cs@, from as int),
        from <= r <= cs@.len(),
{
    let n = cs.len();
    let mut i = from;
    while i < n && is_digit_char(cs[i])
        invariant
            n == cs@.len(),
            from <= i <= n,
            digit_run_end(cs@, from as int) == digit_run_end(cs@, i as int),
        decreases n - i,
    {
        i = i + 1;
    }
    i
}

fn line_end_at(cs: &Vec<char>, from: usize) -> (r: usize)
    requires
        from <= cs@.len(),
    ensures
        r as int == line_end(cs@, from as int),
        from <= r <= cs@.len(),
{
    let n = cs.len();
    let mut i = from;
    while i < n && cs[i] != '\n'
        invariant
            n == cs@.len(),
            from <= i <= n,
            line_end(cs@, from as int) == line_end(cs@, i as int),
        decreases n - i,
    {
        i = i + 1;
    }
    i
}

fn cue_time_at(cs: &Vec<char>, p: usize) -> (r: bool)
    ensures
        r == is_cue_time_at(cs@, p as int),
{
    let n = cs.len();
    if p > n || n - p < 12 {
        return false;
    }
    is_digit_char(cs[p]) && is_digit_char(cs[p + 1]) && cs[p + 2] == ':' && is_digit_char(
        cs[p + 3],
    ) && is_digit_char(cs[p + 4]) && cs[p + 5] == ':' && is_digit_char(cs[p + 6])
        && is_digit_char(cs[p + 7]) && cs[p + 8] == ',' && is_digit_char(cs[p + 9])
        && is_digit_char(cs[p + 10]) && is_digit_char(cs[p + 11])
}

fn header_at(cs: &Vec<char>, p: usize) -> (r: Option<(usize, usize, usize)>)
    requires
        p < cs@.len(),
    ensures
        match r {
            Some(h) => cue_header(cs@, p as int) == Some((h.0 as int, h.1 as int, h.2 as int))
                && p < h.2 <= cs@.len() && is_cue_time_at(cs@, h.0 as int) && is_cue_time_at(
                cs@,
                h.1 as int,
            ),
            None => cue_header(cs@, p as int) is None,
        },
{
    let n = cs.len();
    if !(p == 0 || cs[p - 1] == '\n') {
        return None;
    }
    let a = digits_end(cs, p);
    if a == p {
        return None;
    }
    let b = space_end(cs, a);
    if b == a || !cue_time_at(cs, b) {
        return None;
    }
    let c = space_end(cs, b + 12);
    if c == b + 12 || n - c < 3 || cs[c] != '-' || cs[c + 1] != '-' || cs[c + 2] != '>' {
        return None;
    }
    let d = space_end(cs, c + 3);
    if d == c + 3 || !cue_time_at(cs, d) {
        return None;
    }
    let e = space_end(cs, d + 12);
    if e == d + 12 {
        return None;
    }
    Some((b, d, e))
}

fn time_with_dots(cs: &Vec<char>, p: usize) -> (r: String)
    requires
        is_cue_time_at(cs@, p as int),
    ensures
        r@ == with_dots(cs@.subrange(p as int, p + 12)),
{
    let n = cs.len();
    let mut out = String::new();
    let mut i: usize = 0;
    while i < 12
        invariant
            n == cs@.len(),
            is_cue_time_at(cs@, p as int),
            i <= 12,
            out@ == with_dots(cs@.subrange(p as int, p + i)),
        decreases 12 - i,
    {
        let c = cs[p + i];
        if c == ',' {
            push_char(&mut out, '.');
        } else {
            push_char(&mut out, c);
        }
        assert(out@ =~= with_dots(cs@.subrange(p as int, p + i + 1)));
        i = i + 1;
    }
    out
}

fn text_between(cs: &Vec<char>, from: usize, to: usize) -> (r: String)
    requires
        from <= to <= cs@.len(),
    ensures
        r@ == cs@.subrange(from as int, to as int),
{
    let mut out = String::new();
    let mut i = from;
    while i < to
        invariant
            from <= i <= to <= cs@.len(),
            out@ == cs@.subrange(from as int, i as int),
        decreases to - i,
    {
        push_char(&mut out, cs[i]);
        assert(out@ =~= cs@.subrange(from as int, i + 1));
        i = i + 1;
    }
    out
}

/// The cut points of an SRT document: for each cue, its start and end time
/// codes with `.` before the milliseconds, and its first text line, trimmed.
pub fn parse_srt_segments(content: &str) -> (r: Vec<Segment>)
    ensures
        segment_triples(r@) == srt_cues_from(content@, 0),
{
    let cs = chars_of(content);
    let n = cs.len();
    let mut out: Vec<Segment> = Vec::new();
    let mut p: usize = 0;
    assert(segment_triples(out@) + srt_cues_from(cs@, 0) =~= srt_cues_from(cs@, 0));
    while p < n
        invariant
            n == cs@.len(),
            cs@ == content@,
            p <= n,
            segment_triples(out@) + srt_cues_from(cs@, p as int) == srt_cues_from(cs@, 0),
        decreases n - p,
    {
        match header_at(&cs, p) {
            Some(h) => {
                let (b, d, e) = h;
                let le = line_end_at(&cs, e);
                let start = time_with_dots(&cs, b);
                let end = time_with_dots(&cs, d);
                let line = text_between(&cs, e, le);
                let text = trim_str(line.as_str());
                let seg = Segment { start, end, text };
                let ghost before = segment_triples(out@);
                out.push(seg);
                assert(segment_triples(out@) =~= before.push(seg@));
                assert(before.push(seg@) + srt_cues_from(cs@, le as int) =~= before + (seq![seg@]
                    + srt_cues_from(cs@, le as int)));
                p = le;
            },
            None => {
                p = p + 1;
            },
        }
    }
    assert(segment_triples(out@) + Seq::empty() =~= segment_triples(out@));
    out
}

} // verus!
