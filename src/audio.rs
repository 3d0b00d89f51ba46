//! Canonical PCM preparation for the log-mel feature extractor: the narrow
//! 48 kHz decimation, the fixed 30 s analysis window, the framing of that window
//! and the shape check of the mel filterbank. The sample type is left generic:
//! what is shown here holds whatever the samples are.
use vstd::prelude::*;

verus! {

/// Samples per second of the canonical mono stream.
pub const SAMPLE_RATE: usize = 16000;

/// The one source rate that is decimated: three times the canonical rate.
pub const DECIMATED_RATE: u32 = 48000;

/// Length of the analysis window of one frame.
pub const N_FFT: usize = 400;

/// Distance between the starts of two consecutive frames.
pub const HOP_LENGTH: usize = 160;

/// Length of the analysis chunk, in seconds.
pub const CHUNK_LENGTH: usize = 30;

/// Samples in one analysis chunk.
pub const N_SAMPLES: usize = CHUNK_LENGTH * SAMPLE_RATE;

/// Frames in one analysis chunk.
pub const N_FRAMES: usize = N_SAMPLES / HOP_LENGTH;

/// Frequency bins kept of each frame's transform.
pub const N_FREQ_BINS: usize = N_FFT / 2 + 1;

/// Every third sample of `s`, starting with the first.
pub open spec fn decimated<T>(s: Seq<T>) -> Seq<T> {
    Seq::new(((s.len() + 2) / 3) as nat, |i: int| s[3 * i])
}

/// The canonical-rate stream of samples `s` recorded at `rate`: decimated from
/// 48 kHz, passed through unchanged at any other rate.
pub open spec fn canonical_pcm<T>(s: Seq<T>, rate: u32) -> Seq<T> {
    if rate == DECIMATED_RATE {
        decimated(s)
    } else {
        s
    }
}

/// Sample `i` of `s`, or `zero` past its end.
pub open spec fn sample_or<T>(s: Seq<T>, i: int, zero: T) -> T {
    if 0 <= i < s.len() {
        s[i]
    } else {
        zero
    }
}

/// The analysis chunk of `s`: its first `N_SAMPLES` samples, padded with
/// `zero` at the tail where `s` is shorter.
pub open spec fn analysis_chunk<T>(s: Seq<T>, zero: T) -> Seq<T> {
    Seq::new(N_SAMPLES as nat, |i: int| sample_or(s, i, zero))
}

/// Frame `f` of the chunk `c`: `N_FFT` samples from `f * HOP_LENGTH` on, with
/// `zero` past the chunk's end.
pub open spec fn frame_of<T>(c: Seq<T>, f: int, zero: T) -> Seq<T> {
    Seq::new(N_FFT as nat, |j: int| sample_or(c, f * HOP_LENGTH + j, zero))
}

/// The `N_FRAMES` frames that the feature extractor transforms, for samples `s`.
pub open spec fn analysis_frames<T>(s: Seq<T>, zero: T) -> Seq<Seq<T>> {
    Seq::new(N_FRAMES as nat, |f: int| frame_of(analysis_chunk(s, zero), f, zero))
}

/// Brings samples recorded at `sample_rate` to the canonical rate: at 48 kHz
/// every third sample is kept (indices 0, 3, 6, ...); at 16 kHz, and at any
/// other rate, the samples pass through unchanged.
pub fn to_canonical_rate<T: Copy>(pcm: Vec<T>, sample_rate: u32) -> (r: Vec<T>)
    ensures
        r@ == canonical_pcm(pcm@, sample_rate),
{
    if sample_rate != DECIMATED_RATE {
        return pcm;
    }
    let n = pcm.len();
    let m: usize = if n % 3 == 0 {
        n / 3
    } else {
        n / 3 + 1
    };
    assert(m == (n + 2) / 3);
    let mut out: Vec<T> = Vec::with_capacity(m);
    let mut k: usize = 0;
    while k < m
        invariant
            n == pcm.len(),
            m == (n + 2) / 3,
            k <= m,
            out.len() == k,
            forall|j: int| 0 <= j < k ==> out@[j] == pcm@[3 * j],
        decreases m - k,
    {
        assert(3 * k < n) by (nonlinear_arith)
            requires
                k < m,
                m == (n + 2) / 3,
        ;
        out.push(pcm[3 * k]);
        k = k + 1;
    }
    assert(out@ =~= decimated(pcm@));
    out
}

/// The fixed-length analysis chunk: the first `N_SAMPLES` samples of `pcm`,
/// padded with `zero` at the tail when `pcm` is shorter.
pub fn pad_or_trim<T: Copy>(pcm: &[T], zero: T) -> (r: Vec<T>)
    ensures
        r@ == analysis_chunk(pcm@, zero),
        r.len() == N_SAMPLES,
{
    let mut out: Vec<T> = Vec::with_capacity(N_SAMPLES);
    let n = pcm.len();
    let mut i: usize = 0;
    while i < N_SAMPLES
        invariant
            n == pcm@.len(),
            i <= N_SAMPLES,
            out.len() == i,
            forall|k: int| 0 <= k < i ==> out@[k] == sample_or(pcm@, k, zero),
        decreases N_SAMPLES - i,
    {
        if i < n {
            out.push(pcm[i]);
        } else {
            out.push(zero);
        }
        i = i + 1;
    }
    assert(out@ =~= analysis_chunk(pcm@, zero));
    out
}

/// Frame `frame` of the analysis chunk `chunk`: `N_FFT` samples starting at
/// `frame * HOP_LENGTH`, with `zero` where the frame runs past the chunk.
pub fn frame_samples<T: Copy>(chunk: &[T], frame: usize, zero: T) -> (r: Vec<T>)
    requires
        frame < N_FRAMES,
    ensures
        r@ == frame_of(chunk@, frame as int, zero),
        r.len() == N_FFT,
{
    let start = frame * HOP_LENGTH;
    let n = chunk.len();
    let mut out: Vec<T> = Vec::with_capacity(N_FFT);
    let mut j: usize = 0;
    while j < N_FFT
        invariant
            n == chunk@.len(),
            start == frame * HOP_LENGTH,
            start < N_SAMPLES,
            j <= N_FFT,
            out.len() == j,
            forall|k: int| 0 <= k < j ==> out@[k] == sample_or(chunk@, start + k, zero),
        decreases N_FFT - j,
    {
        if start + j < n {
            out.push(chunk[start + j]);
        } else {
            out.push(zero);
        }
        j = j + 1;
    }
    assert(out@ =~= frame_of(chunk@, frame as int, zero));
    out
}

/// The `N_FRAMES` frames of `N_FFT` samples that the feature extractor
/// transforms, for any number of input samples.
pub fn analysis_frames_of<T: Copy>(pcm: &[T], zero: T) -> (r: Vec<Vec<T>>)
    ensures
        r.len() == N_FRAMES,
        forall|f: int| 0 <= f < N_FRAMES ==> #[trigger] r@[f]@ == analysis_frames(pcm@, zero)[f],
        forall|f: int| 0 <= f < N_FRAMES ==> #[trigger] r@[f].len() == N_FFT,
{
    let chunk = pad_or_trim(pcm, zero);
    let mut frames: Vec<Vec<T>> = Vec::with_capacity(N_FRAMES);
    let mut f: usize = 0;
    while f < N_FRAMES
        invariant
            chunk@ == analysis_chunk(pcm@, zero),
            f <= N_FRAMES,
            frames.len() == f,
            forall|k: int| 0 <= k < f ==> #[trigger] frames@[k]@ == frame_of(chunk@, k, zero),
            forall|k: int| 0 <= k < f ==> #[trigger] frames@[k].len() == N_FFT,
        decreases N_FRAMES - f,
    {
        let fr = frame_samples(chunk.as_slice(), f, zero);
        frames.push(fr);
        f = f + 1;
    }
    frames
}

/// Why a mel filterbank cannot be used.
#[derive(Debug, Clone, Copy, PartialEq, Eq)]
pub enum FeatureError {
    /// The filterbank does not hold `n_mels` rows of `N_FREQ_BINS` weights.
    ShapeMismatch,
}

/// Checks that a row-major filterbank of `filters_len` weights has the shape
/// `(n_mels, N_FREQ_BINS)`.
pub fn check_mel_filters(n_mels: usize, filters_len: usize) -> (r: Result<(), FeatureError>)
    ensures
        r is Ok <==> filters_len == n_mels * N_FREQ_BINS,
        r is Err ==> r == Err::<(), FeatureError>(FeatureError::ShapeMismatch),
{
    if n_mels > usize::MAX / N_FREQ_BINS {
        assert(n_mels * N_FREQ_BINS > usize::MAX) by (nonlinear_arith)
            requires
                n_mels > usize::MAX / N_FREQ_BINS,
                N_FREQ_BINS == 201,
        ;
        return Err(FeatureError::ShapeMismatch);
    }
    assert(n_mels * N_FREQ_BINS <= usize::MAX) by (nonlinear_arith)
        requires
            n_mels <= usize::MAX / N_FREQ_BINS,
            N_FREQ_BINS == 201,
    ;
    if filters_len == n_mels * N_FREQ_BINS {
        Ok(())
    } else {
        Err(FeatureError::ShapeMismatch)
    }
}

/// Whatever the input length, the analysis chunk holds exactly `N_SAMPLES`
/// samples, the samples past a short input are `zero`, and there are exactly
/// `N_FRAMES` frames of `N_FFT` samples each.
pub proof fn lemma_padding<T>(s: Seq<T>, zero: T)
    ensures
        analysis_chunk(s, zero).len() == N_SAMPLES,
        forall|i: int| s.len() <= i < N_SAMPLES ==> #[trigger] analysis_chunk(s, zero)[i] == zero,
        forall|i: int| 0 <= i < s.len() && i < N_SAMPLES ==> #[trigger] analysis_chunk(s, zero)[i]
            == s[i],
        analysis_frames(s, zero).len() == N_FRAMES,
        forall|f: int| 0 <= f < N_FRAMES ==> (#[trigger] analysis_frames(s, zero)[f]).len() == N_FFT,
{
}

/// Only the first `N_SAMPLES` samples reach the frames: two inputs that agree
/// on them give the same frames, whatever follows.
pub proof fn lemma_truncation<T>(a: Seq<T>, b: Seq<T>, zero: T)
    requires
        a.len() >= N_SAMPLES,
        b.len() >= N_SAMPLES,
        a.take(N_SAMPLES as int) == b.take(N_SAMPLES as int),
    ensures
        analysis_chunk(a, zero) == analysis_chunk(b, zero),
        analysis_frames(a, zero) == analysis_frames(b, zero),
{
    assert forall|i: int| 0 <= i < N_SAMPLES implies a[i] == b[i] by {
        assert(a.take(N_SAMPLES as int)[i] == a[i]);
        assert(b.take(N_SAMPLES as int)[i] == b[i]);
    }
    assert(analysis_chunk(a, zero) =~= analysis_chunk(b, zero));
    assert(analysis_frames(a, zero) =~= analysis_frames(b, zero));
}

} // verus!
