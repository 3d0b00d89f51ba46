//! The timestamp-aware segmenter of greedy decoding. The model proposes one
//! token at a time; the segmenter decides what that token does: text tokens
//! accumulate, a timestamp token closes the pending text into a segment and
//! opens the next one, and the end-of-text token closes the pending text at
//! the end of the 30 s window and stops decoding. An iteration cap stops a
//! run that never produces end-of-text; its pending text is then dropped.
use vstd::prelude::*;

verus! {

/// Length of the decoded window in milliseconds: where a segment closed by the
/// end-of-text token ends.
pub const WINDOW_MILLIS: u64 = 30_000;

/// Milliseconds between two consecutive timestamp tokens.
pub const TIMESTAMP_STEP_MILLIS: u64 = 20;

/// The usual iteration cap of one decoding run.
pub const DEFAULT_MAX_STEPS: usize = 1000;

/// Start-of-transcript id used when the tokenizer does not name one.
pub const FALLBACK_SOT: u32 = 50258;

/// End-of-text id used when the tokenizer does not name one.
pub const FALLBACK_EOT: u32 = 50257;

/// Transcribe-task id used when the tokenizer does not name one.
pub const FALLBACK_TRANSCRIBE: u32 = 50359;

/// No-timestamps id used when the tokenizer does not name one.
pub const FALLBACK_NO_TIMESTAMPS: u32 = 50363;

/// The control token ids that the segmenter needs. Every id above
/// `no_timestamps` is a timestamp token.
#[derive(Debug, Clone, Copy, PartialEq, Eq)]
pub struct Vocabulary {
    pub sot: u32,
    pub eot: u32,
    pub transcribe: u32,
    pub no_timestamps: u32,
}

impl Vocabulary {
    /// Whether `t` is a timestamp token.
    pub open spec fn is_timestamp(self, t: u32) -> bool {
        t > self.no_timestamps
    }

    /// The time, from the start of the window, that the timestamp token `t` marks.
    pub open spec fn timestamp_millis(self, t: u32) -> nat {
        ((t - self.no_timestamps - 1) * TIMESTAMP_STEP_MILLIS) as nat
    }

    /// The vocabulary from the ids that a tokenizer gave, each missing one
    /// replaced by its usual value.
    pub fn from_lookup(
        sot: Option<u32>,
        eot: Option<u32>,
        transcribe: Option<u32>,
        no_timestamps: Option<u32>,
    ) -> (r: Vocabulary)
        ensures
            r.sot == match sot {
                Some(v) => v,
                None => FALLBACK_SOT,
            },
            r.eot == match eot {
                Some(v) => v,
                None => FALLBACK_EOT,
            },
            r.transcribe == match transcribe {
                Some(v) => v,
                None => FALLBACK_TRANSCRIBE,
            },
            r.no_timestamps == match no_timestamps {
                Some(v) => v,
                None => FALLBACK_NO_TIMESTAMPS,
            },
    {
        Vocabulary {
            sot: match sot {
                Some(v) => v,
                None => FALLBACK_SOT,
            },
            eot: match eot {
                Some(v) => v,
                None => FALLBACK_EOT,
            },
            transcribe: match transcribe {
                Some(v) => v,
                None => FALLBACK_TRANSCRIBE,
            },
            no_timestamps: match no_timestamps {
                Some(v) => v,
                None => FALLBACK_NO_TIMESTAMPS,
            },
        }
    }

    /// Whether `t` is a timestamp token.
    pub fn is_timestamp_token(&self, t: u32) -> (r: bool)
        ensures
            r == self.is_timestamp(t),
    {
        t > self.no_timestamps
    }

    /// The time in milliseconds that the timestamp token `t` marks.
    pub fn timestamp_to_millis(&self, t: u32) -> (r: u64)
        requires
            self.is_timestamp(t),
        ensures
            r == self.timestamp_millis(t),
    {
        ((t - self.no_timestamps - 1) as u64) * TIMESTAMP_STEP_MILLIS
    }
}

/// A decoded segment: its start and end in milliseconds from the start of the
/// window, and the text token ids between them.
#[derive(Debug, Clone)]
pub struct TokenSegment {
    pub start_ms: u64,
    pub end_ms: u64,
    pub tokens: Vec<u32>,
}

impl View for TokenSegment {
    type V = (nat, nat, Seq<u32>);

    open spec fn view(&self) -> (nat, nat, Seq<u32>) {
        (self.start_ms as nat, self.end_ms as nat, self.tokens@)
    }
}

/// The segmenter's state after some tokens.
pub struct DecodeModel {
    /// The segments emitted so far.
    pub segments: Seq<(nat, nat, Seq<u32>)>,
    /// Where the segment being read began.
    pub start: nat,
    /// The text tokens since the last timestamp.
    pub pending: Seq<u32>,
    /// Whether end-of-text was read.
    pub done: bool,
    /// The tokens that the model reads for its next step.
    pub history: Seq<u32>,
}

/// The state before any token: the history holds the start-of-transcript and
/// transcribe-task tokens.
pub open spec fn initial_model(v: Vocabulary) -> DecodeModel {
    DecodeModel {
        segments: Seq::empty(),
        start: 0,
        pending: Seq::empty(),
        done: false,
        history: seq![v.sot, v.transcribe],
    }
}

/// The segments of `s`, with the pending text closed at `end` if there is any.
pub open spec fn close_pending(s: DecodeModel, end: nat) -> Seq<(nat, nat, Seq<u32>)> {
    if s.pending.len() > 0 {
        s.segments.push((s.start, end, s.pending))
    } else {
        s.segments
    }
}

/// What reading the token `t` does to the state `s`.
pub open spec fn step_model(v: Vocabulary, s: DecodeModel, t: u32) -> DecodeModel {
    if s.done {
        s
    } else if t == v.eot {
        DecodeModel {
            segments: close_pending(s, WINDOW_MILLIS as nat),
            pending: Seq::empty(),
            done: true,
            ..s
        }
    } else if v.is_timestamp(t) {
        DecodeModel {
            segments: close_pending(s, v.timestamp_millis(t)),
            start: v.timestamp_millis(t),
            pending: Seq::empty(),
            history: s.history.push(t),
            ..s
        }
    } else {
        DecodeModel { pending: s.pending.push(t), history: s.history.push(t), ..s }
    }
}

/// The state after reading the tokens `toks` in order.
pub open spec fn run_model(v: Vocabulary, toks: Seq<u32>) -> DecodeModel
    decreases toks.len(),
{
    if toks.len() == 0 {
        initial_model(v)
    } else {
        step_model(v, run_model(v, toks.drop_last()), toks.last())
    }
}

/// The segments of a run that reads at most `max_steps` tokens of `stream`.
pub open spec fn stream_segments(v: Vocabulary, stream: Seq<u32>, max_steps: nat) -> Seq<
    (nat, nat, Seq<u32>),
> {
    let n = if stream.len() < max_steps {
        stream.len()
    } else {
        max_steps
    };
    run_model(v, stream.take(n as int)).segments
}

/// The views of a list of segments.
pub open spec fn segment_views(segs: Seq<TokenSegment>) -> Seq<(nat, nat, Seq<u32>)> {
    segs.map_values(|s: TokenSegment| s@)
}

/// The decision half of a greedy decoding run. The caller asks the model for
/// the next token given `prompt()`, hands it to `push_token`, and stops once
/// that reports the run finished.
pub struct Segmenter {
    vocab: Vocabulary,
    max_steps: usize,
    steps: usize,
    read: Ghost<Seq<u32>>,
    history: Vec<u32>,
    segments: Vec<TokenSegment>,
    start_ms: u64,
    pending: Vec<u32>,
    done: bool,
}

impl Segmenter {
    /// The control token ids in use.
    pub closed spec fn vocabulary(&self) -> Vocabulary {
        self.vocab
    }

    /// The iteration cap.
    pub closed spec fn cap(&self) -> nat {
        self.max_steps as nat
    }

    /// The tokens read so far.
    pub closed spec fn tokens(&self) -> Seq<u32> {
        self.read@
    }

    /// The state that the tokens read so far lead to.
    pub open spec fn model(&self) -> DecodeModel {
        run_model(self.vocabulary(), self.tokens())
    }

    /// Whether the run is over: end-of-text was read or the cap was reached.
    pub open spec fn finished(&self) -> bool {
        self.model().done || self.tokens().len() >= self.cap()
    }

    /// The fields hold the state that the tokens read so far lead to, and no
    /// more tokens were read than the cap allows.
    pub closed spec fn wf(&self) -> bool {
        let m = run_model(self.vocab, self.read@);
        &&& self.steps == self.read@.len()
        &&& self.steps <= self.max_steps
        &&& segment_views(self.segments@) == m.segments
        &&& self.start_ms == m.start
        &&& self.pending@ == m.pending
        &&& self.done == m.done
        &&& self.history@ == m.history
    }

    /// A segmenter that has read nothing and stops after `max_steps` tokens.
    pub fn new(vocab: Vocabulary, max_steps: usize) -> (r: Segmenter)
        ensures
            r.wf(),
            r.vocabulary() == vocab,
            r.cap() == max_steps,
            r.tokens() == Seq::<u32>::empty(),
    {
        let r = Segmenter {
            vocab,
            max_steps,
            steps: 0,
            read: Ghost(Seq::empty()),
            history: vec![vocab.sot, vocab.transcribe],
            segments: Vec::new(),
            start_ms: 0,
            pending: Vec::new(),
            done: false,
        };
        assert(segment_views(r.segments@) =~= Seq::empty());
        assert(r.history@ =~= seq![vocab.sot, vocab.transcribe]);
        r
    }

    /// Whether the run is over.
    pub fn is_finished(&self) -> (r: bool)
        requires
            self.wf(),
        ensures
            r == self.finished(),
    {
        self.done || self.steps >= self.max_steps
    }

    /// The tokens that the model reads to propose the next one.
    pub fn prompt(&self) -> (r: &Vec<u32>)
        requires
            self.wf(),
        ensures
            r@ == self.model().history,
    {
        &self.history
    }

    /// The segments emitted so far.
    pub fn segments(&self) -> (r: &Vec<TokenSegment>)
        requires
            self.wf(),
        ensures
            segment_views(r@) == self.model().segments,
    {
        &self.segments
    }

    /// The segments emitted by the run; pending text that no timestamp or
    /// end-of-text closed is dropped.
    pub fn into_segments(self) -> (r: Vec<TokenSegment>)
        requires
            self.wf(),
        ensures
            segment_views(r@) == self.model().segments,
    {
        self.segments
    }

    fn close_pending_at(&mut self, end: u64)
        ensures
            segment_views(final(self).segments@) == close_pending(
                DecodeModel {
                    segments: segment_views(old(self).segments@),
                    start: old(self).start_ms as nat,
                    pending: old(self).pending@,
                    done: old(self).done,
                    history: old(self).history@,
                },
                end as nat,
            ),
            final(self).pending@ == Seq::<u32>::empty(),
            final(self).vocab == old(self).vocab,
            final(self).max_steps == old(self).max_steps,
            final(self).steps == old(self).steps,
            final(self).read == old(self).read,
            final(self).history == old(self).history,
            final(self).start_ms == old(self).start_ms,
            final(self).done == old(self).done,
    {
        if self.pending.len() > 0 {
            let mut toks: Vec<u32> = Vec::new();
            std::mem::swap(&mut toks, &mut self.pending);
            let seg = TokenSegment { start_ms: self.start_ms, end_ms: end, tokens: toks };
            let ghost before = self.segments@;
            self.segments.push(seg);
            assert(segment_views(self.segments@) =~= segment_views(before).push(seg@));
        }
    }

    /// Reads the token that the model proposed and reports whether the run is
    /// now over.
    pub fn push_token(&mut self, token: u32) -> (finished: bool)
        requires
            old(self).wf(),
            !old(self).finished(),
        ensures
            final(self).wf(),
            final(self).vocabulary() == old(self).vocabulary(),
            final(self).cap() == old(self).cap(),
            final(self).tokens() == old(self).tokens().push(token),
            final(self).model() == step_model(old(self).vocabulary(), old(self).model(), token),
            finished == final(self).finished(),
    {
        let ghost prev = self.read@;
        self.read = Ghost(self.read@.push(token));
        assert(self.read@.drop_last() =~= prev);
        self.steps = self.steps + 1;
        if token == self.vocab.eot {
            self.close_pending_at(WINDOW_MILLIS);
            self.done = true;
        } else if self.vocab.is_timestamp_token(token) {
            let time = self.vocab.timestamp_to_millis(token);
            self.close_pending_at(time);
            self.start_ms = time;
            self.history.push(token);
        } else {
            self.pending.push(token);
            self.history.push(token);
        }
        self.done || self.steps >= self.max_steps
    }
}

proof fn lemma_done_stays(v: Vocabulary, toks: Seq<u32>, k: int, j: int)
    requires
        0 <= k <= j <= toks.len(),
        run_model(v, toks.take(k)).done,
    ensures
        run_model(v, toks.take(j)) == run_model(v, toks.take(k)),
    decreases j - k,
{
    if j > k {
        lemma_done_stays(v, toks, k, j - 1);
        assert(toks.take(j).drop_last() =~= toks.take(j - 1));
    }
}

/// Segments a token stream as a decoding run that reads at most `max_steps`
/// of its tokens would: the segments that timestamps and end-of-text close,
/// in order, without the pending text of a run cut short by the cap.
pub fn segment_token_stream(vocab: Vocabulary, stream: &[u32], max_steps: usize) -> (r: Vec<
    TokenSegment,
>)
    ensures
        segment_views(r@) == stream_segments(vocab, stream@, max_steps as nat),
{
    let mut seg = Segmenter::new(vocab, max_steps);
    let n = stream.len();
    let mut i: usize = 0;
    assert(stream@.take(0) =~= Seq::<u32>::empty());
    while i < n && !seg.is_finished()
        invariant
            seg.wf(),
            seg.vocabulary() == vocab,
            seg.cap() == max_steps,
            n == stream@.len(),
            i <= n,
            i <= max_steps,
            seg.tokens() == stream@.take(i as int),
        decreases n - i,
    {
        seg.push_token(stream[i]);
        assert(stream@.take(i + 1) =~= stream@.take(i as int).push(stream@[i as int]));
        i = i + 1;
    }
    let ghost m: int = if n < max_steps {
        n as int
    } else {
        max_steps as int
    };
    proof {
        if i < m {
            lemma_done_stays(vocab, stream@, i as int, m);
        }
    }
    seg.into_segments()
}

/// Whether, in `toks`, timestamp tokens never go back in time and none lies
/// past the end of the window.
pub open spec fn timestamps_in_order(v: Vocabulary, toks: Seq<u32>) -> bool {
    &&& forall|i: int, j: int|
        0 <= i < j < toks.len() && v.is_timestamp(toks[i]) && v.is_timestamp(toks[j])
            ==> v.timestamp_millis(toks[i]) <= v.timestamp_millis(toks[j])
    &&& forall|i: int|
        0 <= i < toks.len() && v.is_timestamp(toks[i]) ==> v.timestamp_millis(toks[i])
            <= WINDOW_MILLIS
}

proof fn lemma_order_kept(v: Vocabulary, toks: Seq<u32>)
    requires
        timestamps_in_order(v, toks),
    ensures
        ({
            let m = run_model(v, toks);
            &&& forall|k: int| 0 <= k < m.segments.len() ==> m.segments[k].0 <= m.segments[k].1
            &&& forall|k: int, l: int|
                0 <= k < l < m.segments.len() ==> m.segments[k].1 <= m.segments[l].0
            &&& !m.done ==> forall|k: int|
                0 <= k < m.segments.len() ==> m.segments[k].1 <= m.start
            &&& m.start <= WINDOW_MILLIS
            &&& m.start == 0 || exists|i: int|
                0 <= i < toks.len() && v.is_timestamp(toks[i]) && m.start == v.timestamp_millis(
                    toks[i],
                )
        }),
    decreases toks.len(),
{
    if toks.len() > 0 {
        let prev = toks.drop_last();
        let t = toks.last();
        assert forall|i: int, j: int|
            0 <= i < j < prev.len() && v.is_timestamp(prev[i]) && v.is_timestamp(
                prev[j],
            ) implies v.timestamp_millis(prev[i]) <= v.timestamp_millis(prev[j]) by {
            assert(prev[i] == toks[i] && prev[j] == toks[j]);
        }
        assert forall|i: int| 0 <= i < prev.len() && v.is_timestamp(prev[i]) implies v.timestamp_millis(
            prev[i],
        ) <= WINDOW_MILLIS by {
            assert(prev[i] == toks[i]);
        }
        lemma_order_kept(v, prev);
        let s = run_model(v, prev);
        let m = run_model(v, toks);
        if s.start != 0 {
            let i = choose|i: int|
                0 <= i < prev.len() && v.is_timestamp(prev[i]) && s.start == v.timestamp_millis(
                    prev[i],
                );
            assert(toks[i] == prev[i]);
            if !s.done && t != v.eot && v.is_timestamp(t) {
                assert(s.start <= v.timestamp_millis(t));
            }
        }
        if !s.done && t != v.eot && v.is_timestamp(t) {
            assert(toks[toks.len() - 1] == t);
            assert(v.timestamp_millis(t) <= WINDOW_MILLIS);
        }
    }
}

/// When the timestamps of a token stream never go back in time and stay within
/// the window, every segment starts no later than it ends, and a segment ends
/// no later than any later one starts: starts never decrease.
pub proof fn lemma_segments_ordered(v: Vocabulary, toks: Seq<u32>)
    requires
        timestamps_in_order(v, toks),
    ensures
        ({
            let segs = run_model(v, toks).segments;
            &&& forall|k: int| 0 <= k < segs.len() ==> segs[k].0 <= segs[k].1
            &&& forall|k: int, l: int| 0 <= k < l < segs.len() ==> segs[k].1 <= segs[l].0
            &&& forall|k: int, l: int| 0 <= k < l < segs.len() ==> segs[k].0 <= segs[l].0
        }),
{
    lemma_order_kept(v, toks);
}

/// Text that no timestamp or end-of-text closes never becomes a segment: in a
/// run without end-of-text, further text tokens change no segment and the run
/// is still not over.
pub proof fn lemma_unterminated_tail_dropped(v: Vocabulary, body: Seq<u32>, tail: Seq<u32>)
    requires
        !run_model(v, body).done,
        forall|i: int| 0 <= i < tail.len() ==> tail[i] != v.eot && !v.is_timestamp(#[trigger] tail[i]),
    ensures
        run_model(v, body + tail).segments == run_model(v, body).segments,
        !run_model(v, body + tail).done,
    decreases tail.len(),
{
    if tail.len() == 0 {
        assert(body + tail =~= body);
    } else {
        let shorter = tail.drop_last();
        assert forall|i: int| 0 <= i < shorter.len() implies shorter[i] != v.eot && !v.is_timestamp(
            #[trigger] shorter[i],
        ) by {
            assert(shorter[i] == tail[i]);
        }
        lemma_unterminated_tail_dropped(v, body, shorter);
        assert((body + tail).drop_last() =~= body + shorter);
        assert((body + tail).last() == tail[tail.len() - 1]);
    }
}

/// A run that reaches its iteration cap without end-of-text drops the text
/// read after its last closed segment: when the tokens from `k` up to the cap
/// are all text tokens and no end-of-text came before `k`, the run's segments
/// are those of its first `k` tokens.
pub proof fn lemma_cap_drops_pending(v: Vocabulary, stream: Seq<u32>, max_steps: nat, k: int)
    requires
        0 <= k <= max_steps <= stream.len(),
        !run_model(v, stream.take(k)).done,
        forall|i: int|
            k <= i < max_steps ==> stream[i] != v.eot && !v.is_timestamp(#[trigger] stream[i]),
    ensures
        stream_segments(v, stream, max_steps) == run_model(v, stream.take(k)).segments,
{
    let body = stream.take(k);
    let tail = stream.subrange(k, max_steps as int);
    assert forall|i: int| 0 <= i < tail.len() implies tail[i] != v.eot && !v.is_timestamp(
        #[trigger] tail[i],
    ) by {
        assert(tail[i] == stream[k + i]);
    }
    lemma_unterminated_tail_dropped(v, body, tail);
    assert(body + tail =~= stream.take(max_steps as int));
}

} // verus!
