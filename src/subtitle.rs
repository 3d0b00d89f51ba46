//! Rendering of decoded segments as an SRT subtitle document.
use vstd::prelude::*;
use crate::text::{push_char, trim, trim_str};
use crate::time_utils::{decimal, push_padded, seconds_to_time_str, time_code, zero_padded};

verus! {

/// One subtitle cue: start and end in milliseconds, and its text.
#[derive(Debug, Clone)]
pub struct Cue {
    pub start_ms: u64,
    pub end_ms: u64,
    pub text: String,
}

impl View for Cue {
    type V = (nat, nat, Seq<char>);

    open spec fn view(&self) -> (nat, nat, Seq<char>) {
        (self.start_ms as nat, self.end_ms as nat, self.text@)
    }
}

/// The SRT block of cue number `number`: the number, the time codes joined by
/// ` --> `, the trimmed text, and a blank line.
pub open spec fn srt_block(number: nat, cue: (nat, nat, Seq<char>)) -> Seq<char> {
    decimal(number) + seq!['\n'] + time_code(cue.0) + seq![' ', '-', '-', '>', ' '] + time_code(
        cue.1,
    ) + seq!['\n'] + trim(cue.2) + seq!['\n', '\n']
}

/// The SRT document of `cues`, numbered from 1.
pub open spec fn srt_document(cues: Seq<(nat, nat, Seq<char>)>) -> Seq<char>
    decreases cues.len(),
{
    if cues.len() == 0 {
        Seq::empty()
    } else {
        srt_document(cues.drop_last()) + srt_block(cues.len(), cues.last())
    }
}

/// The views of a list of cues.
pub open spec fn cue_views(cues: Seq<Cue>) -> Seq<(nat, nat, Seq<char>)> {
    cues.map_values(|c: Cue| c@)
}

fn push_str(out: &mut String, s: &str)
    ensures
        final(out)@ == old(out)@ + s@,
{
    let n = s.unicode_len();
    let ghost start = out@;
    let mut i: usize = 0;
    while i < n
        invariant
            n == s@.len(),
            i <= n,
            out@ == start + s@.take(i as int),
        decreases n - i,
    {
        push_char(out, s.get_char(i));
        assert(out@ =~= start + s@.take(i + 1));
        i = i + 1;
    }
    assert(s@.take(n as int) =~= s@);
}

fn push_one(out: &mut String, c: char)
    ensures
        final(out)@ == old(out)@ + seq![c],
{
    push_char(out, c);
    assert(final(out)@ =~= old(out)@ + seq![c]);
}

fn push_block(out: &mut String, number: u64, cue: &Cue)
    ensures
        final(out)@ == old(out)@ + srt_block(number as nat, cue@),
{
    let ghost before = out@;
    push_padded(out, number, 0);
    assert(zero_padded(number as nat, 0) == decimal(number as nat));
    push_one(out, '\n');
    let start = seconds_to_time_str(cue.start_ms);
    push_str(out, start.as_str());
    push_str(out, " --> ");
    let end = seconds_to_time_str(cue.end_ms);
    push_str(out, end.as_str());
    push_one(out, '\n');
    let text = trim_str(cue.text.as_str());
    push_str(out, text.as_str());
    push_one(out, '\n');
    push_one(out, '\n');
    proof {
        reveal_strlit(" --> ");
        assert(" --> "@ =~= seq![' ', '-', '-', '>', ' ']);
        assert(seq!['\n'] + seq!['\n'] =~= seq!['\n', '\n']);
    }
    assert(out@ =~= before + srt_block(number as nat, cue@));
}

/// Renders `cues` as an SRT document: for each cue, its number from 1, the
/// line `start --> end` in `HH:MM:SS,mmm` time codes, its trimmed text, and a
/// blank line.
pub fn render_srt(cues: &[Cue]) -> (r: String)
    requires
        cues@.len() < u64::MAX,
    ensures
        r@ == srt_document(cue_views(cues@)),
{
    let mut out = String::new();
    let n = cues.len();
    let mut i: usize = 0;
    assert(cue_views(cues@).take(0) =~= Seq::empty());
    while i < n
        invariant
            n == cues@.len(),
            n < u64::MAX,
            i <= n,
            out@ == srt_document(cue_views(cues@).take(i as int)),
        decreases n - i,
    {
        let cue = &cues[i];
        push_block(&mut out, (i + 1) as u64, cue);
        let ghost views = cue_views(cues@);
        assert(views.take(i + 1).drop_last() =~= views.take(i as int));
        assert(views.take(i + 1).last() == cue@);
        i = i + 1;
    }
    assert(cue_views(cues@).take(n as int) =~= cue_views(cues@));
    out
}

} // verus!
