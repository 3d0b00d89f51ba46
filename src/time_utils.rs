//! Subtitle time codes `HH:MM:SS,mmm`: rendering a time given in whole
//! milliseconds, parsing a time code back, and the file-name stamp of a time code.
use vstd::prelude::*;
use crate::text::{
    cut_at, digit_char, digit_to_char, digit_value, find_char, is_digit, is_digit_char,
    lemma_cut_at_take, push_char, trim, trim_end, trim_start, trim_str,
};

verus! {

/// The decimal digits of `n`, most significant first, without leading zeros.
pub open spec fn decimal(n: nat) -> Seq<char>
    decreases n,
{
    if n < 10 {
        seq![digit_char(n)]
    } else {
        decimal(n / 10).push(digit_char(n % 10))
    }
}

/// The decimal digits of `n`, with zeros in front up to `width` characters.
pub open spec fn zero_padded(n: nat, width: nat) -> Seq<char> {
    let d = decimal(n);
    if d.len() >= width {
        d
    } else {
        Seq::new((width - d.len()) as nat, |_i: int| '0') + d
    }
}

/// The time code `HH:MM:SS,mmm` of a time of `ms` milliseconds; the hours
/// take more than two digits where needed.
#[verifier::opaque]
pub open spec fn time_code(ms: nat) -> Seq<char> {
    let secs = ms / 1000;
    zero_padded(secs / 3600, 2) + seq![':'] + zero_padded((secs % 3600) / 60, 2) + seq![':']
        + zero_padded(secs % 60, 2) + seq![','] + zero_padded(ms % 1000, 3)
}

/// The number that the decimal digits `s` spell.
pub open spec fn digits_value(s: Seq<char>) -> nat
    decreases s.len(),
{
    if s.len() == 0 {
        0
    } else {
        digits_value(s.drop_last()) * 10 + digit_value(s.last())
    }
}

/// Where the run of digits of `s` that begins at `from` ends.
pub open spec fn digit_run_end(s: Seq<char>, from: int) -> int
    decreases s.len() - from,
{
    if 0 <= from < s.len() && is_digit(s[from]) {
        digit_run_end(s, from + 1)
    } else {
        from
    }
}

/// Why a text is not a time code.
#[derive(Debug, Clone, Copy, PartialEq, Eq)]
pub enum TimeFormatError {
    /// The text is not of the form `H:MM:SS` with an optional `,mmm` or `.mmm`.
    InvalidFormat,
    /// The hours do not fit in 32 bits.
    HoursOutOfRange,
}

/// The milliseconds of a fraction of a second written with one to three digits.
pub open spec fn fraction_millis(digits: Seq<char>) -> nat {
    if digits.len() == 1 {
        digits_value(digits) * 100
    } else if digits.len() == 2 {
        digits_value(digits) * 10
    } else {
        digits_value(digits)
    }
}

/// Whether `t` has the shape `H+:M{1,2}:S{1,2}` followed by nothing or by a
/// `,` or `.` and one to three digits.
pub open spec fn is_time_code_shape(t: Seq<char>) -> bool {
    let n = t.len() as int;
    let a = digit_run_end(t, 0);
    let b = digit_run_end(t, a + 1);
    let c = digit_run_end(t, b + 1);
    let d = digit_run_end(t, c + 1);
    &&& 1 <= a < n && t[a] == ':'
    &&& 1 <= b - (a + 1) <= 2 && b < n && t[b] == ':'
    &&& 1 <= c - (b + 1) <= 2
    &&& c == n || ((t[c] == ',' || t[c] == '.') && 1 <= d - (c + 1) <= 3 && d == n)
}

/// The time, in milliseconds, that the time code `t` (already trimmed) gives.
pub open spec fn parse_time_code(t: Seq<char>) -> Result<nat, TimeFormatError> {
    let n = t.len() as int;
    let a = digit_run_end(t, 0);
    let b = digit_run_end(t, a + 1);
    let c = digit_run_end(t, b + 1);
    let d = digit_run_end(t, c + 1);
    let hours = digits_value(t.subrange(0, a));
    let minutes = digits_value(t.subrange(a + 1, b));
    let seconds = digits_value(t.subrange(b + 1, c));
    let frac = if c == n {
        0
    } else {
        fraction_millis(t.subrange(c + 1, d))
    };
    if !is_time_code_shape(t) {
        Err(TimeFormatError::InvalidFormat)
    } else if hours > u32::MAX {
        Err(TimeFormatError::HoursOutOfRange)
    } else {
        Ok(hours * 3_600_000 + minutes * 60_000 + seconds * 1000 + frac)
    }
}

/// What a time text reads as: blank text is zero, anything else must be a
/// time code once surrounding whitespace is removed.
pub open spec fn time_str_value(s: Seq<char>) -> Result<nat, TimeFormatError> {
    let t = trim(s);
    if t.len() == 0 {
        Ok(0)
    } else {
        parse_time_code(t)
    }
}

/// The file-name stamp of a time code: the part before any `,` and then before
/// any `.`, with `:` turned into `_`; `00_00_00` for the empty text.
pub open spec fn filename_stamp(s: Seq<char>) -> Seq<char> {
    if s.len() == 0 {
        "00_00_00"@
    } else {
        cut_at(cut_at(s, ','), '.').map_values(|c: char| if c == ':' { '_' } else { c })
    }
}

proof fn lemma_decimal_step(n: nat, digits: Seq<char>)
    requires
        n >= 10,
    ensures
        decimal(n) + digits == decimal(n / 10) + (seq![digit_char(n % 10)] + digits),
{
    assert(decimal(n / 10).push(digit_char(n % 10)) + digits =~= decimal(n / 10) + (seq![
        digit_char(n % 10),
    ] + digits));
}

/// Appends the digits of `n`, zero-padded to `width`.
pub(crate) fn push_padded(out: &mut String, n: u64, width: usize)
    ensures
        final(out)@ == old(out)@ + zero_padded(n as nat, width as nat),
{
    let mut digits: Vec<char> = Vec::new();
    let mut cur: u64 = n;
    assert(decimal(n as nat) =~= decimal(n as nat) + digits@);
    while cur >= 10
        invariant
            decimal(n as nat) == decimal(cur as nat) + digits@,
            digits.len() + cur <= n + 20,
        decreases cur,
    {
        proof {
            lemma_decimal_step(cur as nat, digits@);
        }
        let c = digit_to_char(cur % 10);
        let ghost before = digits@;
        digits.insert(0, c);
        assert(digits@ =~= seq![digit_char((cur % 10) as nat)] + before);
        cur = cur / 10;
    }
    let c = digit_to_char(cur);
    digits.insert(0, c);
    assert(digits@ =~= decimal(n as nat));
    let ghost start = out@;
    let len = digits.len();
    let mut k: usize = len;
    while k < width
        invariant
            len <= k <= width || k == len,
            out@ == start + Seq::new((k - len) as nat, |_i: int| '0'),
        decreases width - k,
    {
        push_char(out, '0');
        assert(out@ =~= start + Seq::new((k + 1 - len) as nat, |_i: int| '0'));
        k = k + 1;
    }
    let ghost padded = out@;
    let mut i: usize = 0;
    while i < len
        invariant
            len == digits.len(),
            i <= len,
            out@ == padded + digits@.take(i as int),
        decreases len - i,
    {
        push_char(out, digits[i]);
        assert(out@ =~= padded + digits@.take(i + 1));
        i = i + 1;
    }
    assert(digits@.take(len as int) =~= digits@);
    if len >= width {
        assert(k == len);
        assert(Seq::new(0, |_i: int| '0') + digits@ =~= digits@);
        assert(out@ =~= start + zero_padded(n as nat, width as nat));
    } else {
        assert(out@ =~= start + zero_padded(n as nat, width as nat));
    }
}

/// Renders a time of `millis` milliseconds as the subtitle time code
/// `HH:MM:SS,mmm` (zero-padded; hours take more digits where needed).
pub fn seconds_to_time_str(millis: u64) -> (r: String)
    ensures
        r@ == time_code(millis as nat),
{
    let secs = millis / 1000;
    let mut out = String::new();
    push_padded(&mut out, secs / 3600, 2);
    push_char(&mut out, ':');
    push_padded(&mut out, (secs % 3600) / 60, 2);
    push_char(&mut out, ':');
    push_padded(&mut out, secs % 60, 2);
    push_char(&mut out, ',');
    push_padded(&mut out, millis % 1000, 3);
    reveal(time_code);
    assert(out@ =~= time_code(millis as nat));
    out
}

/// Where the run of digits of `s` that begins at `from` ends.
fn digit_run(s: &str, from: usize) -> (r: usize)
    requires
        from <= s@.len(),
    ensures
        r as int == digit_run_end(s@, from as int),
        from <= r <= s@.len(),
        forall|k: int| from <= k < r ==> is_digit(s@[k]),
{
    let n = s.unicode_len();
    let mut i: usize = from;
    while i < n && is_digit_char(s.get_char(i))
        invariant
            n == s@.len(),
            from <= i <= n,
            digit_run_end(s@, from as int) == digit_run_end(s@, i as int),
            forall|k: int| from <= k < i ==> is_digit(s@[k]),
        decreases n - i,
    {
        i = i + 1;
    }
    i
}

proof fn lemma_digits_value_grows(s: Seq<char>, from: int, i: int, to: int)
    requires
        0 <= from <= i <= to <= s.len(),
    ensures
        digits_value(s.subrange(from, i)) <= digits_value(s.subrange(from, to)),
    decreases to - i,
{
    if i < to {
        lemma_digits_value_grows(s, from, i, to - 1);
        assert(s.subrange(from, to).drop_last() =~= s.subrange(from, to - 1));
    }
}

proof fn lemma_short_digits_value(s: Seq<char>)
    requires
        s.len() <= 3,
        forall|k: int| 0 <= k < s.len() ==> is_digit(s[k]),
    ensures
        digits_value(s) <= 999,
        s.len() <= 2 ==> digits_value(s) <= 99,
        s.len() <= 1 ==> digits_value(s) <= 9,
    decreases s.len(),
{
    if s.len() > 0 {
        let p = s.drop_last();
        lemma_short_digits_value(p);
        assert(is_digit(s[s.len() - 1]));
    }
}

/// The number that the digits of `s` from `from` to `to` spell, or `None`
/// when it exceeds `u32::MAX`.
fn digits_number(s: &str, from: usize, to: usize) -> (r: Option<u64>)
    requires
        from <= to <= s@.len(),
        forall|k: int| from <= k < to ==> is_digit(s@[k]),
    ensures
        to - from <= 3 ==> r is Some,
        match r {
            Some(v) => v as nat == digits_value(s@.subrange(from as int, to as int)) && v
                <= u32::MAX,
            None => digits_value(s@.subrange(from as int, to as int)) > u32::MAX,
        },
{
    let mut v: u64 = 0;
    let mut i: usize = from;
    assert(s@.subrange(from as int, from as int) =~= Seq::<char>::empty());
    if to - from <= 3 {
        proof {
            lemma_short_digits_value(s@.subrange(from as int, to as int));
            lemma_digits_value_grows(s@, from as int, from as int, to as int);
        }
    }
    while i < to
        invariant
            from <= i <= to <= s@.len(),
            forall|k: int| from <= k < to ==> is_digit(s@[k]),
            v as nat == digits_value(s@.subrange(from as int, i as int)),
            to - from <= 3 ==> digits_value(s@.subrange(from as int, to as int)) <= 999,
        decreases to - i,
    {
        proof {
            lemma_digits_value_grows(s@, from as int, i as int, to as int);
        }
        if v > 4294967295 {
            return None;
        }
        let c = s.get_char(i);
        let d = (c as u32 - 48) as u64;
        assert(s@.subrange(from as int, i + 1).drop_last() =~= s@.subrange(from as int, i as int));
        v = v * 10 + d;
        i = i + 1;
    }
    if v > 4294967295 {
        None
    } else {
        Some(v)
    }
}

/// Reads a time text such as `00:00:10,500`, `0:00:10` or `1:2:3.5` and
/// returns the time in milliseconds. Surrounding whitespace is ignored and a
/// blank text reads as zero. A fraction of one or two digits counts tenths or
/// hundredths of a second.
pub fn time_str_to_seconds(time_str: &str) -> (r: Result<u64, TimeFormatError>)
    ensures
        time_str_value(time_str@) == match r {
            Ok(v) => Ok(v as nat),
            Err(e) => Err(e),
        },
{
    let owned = trim_str(time_str);
    let t = owned.as_str();
    let ghost ts = t@;
    let n = t.unicode_len();
    if n == 0 {
        return Ok(0);
    }
    let a = digit_run(t, 0);
    if !(1 <= a && a < n && t.get_char(a) == ':') {
        return Err(TimeFormatError::InvalidFormat);
    }
    let b = digit_run(t, a + 1);
    if !(1 <= b - (a + 1) && b - (a + 1) <= 2 && b < n && t.get_char(b) == ':') {
        return Err(TimeFormatError::InvalidFormat);
    }
    let c = digit_run(t, b + 1);
    if !(1 <= c - (b + 1) && c - (b + 1) <= 2) {
        return Err(TimeFormatError::InvalidFormat);
    }
    let mut frac: u64 = 0;
    if c < n {
        let sep = t.get_char(c);
        if !(sep == ',' || sep == '.') {
            return Err(TimeFormatError::InvalidFormat);
        }
        let d = digit_run(t, c + 1);
        if !(1 <= d - (c + 1) && d - (c + 1) <= 3 && d == n) {
            return Err(TimeFormatError::InvalidFormat);
        }
        match digits_number(t, c + 1, d) {
            Some(v) => {
                frac = if d - (c + 1) == 1 {
                    v * 100
                } else if d - (c + 1) == 2 {
                    v * 10
                } else {
                    v
                };
            },
            None => {
                return Err(TimeFormatError::InvalidFormat);
            },
        }
    } else {
        assert(digit_run_end(ts, c + 1) == c + 1);
    }
    assert(is_time_code_shape(ts));
    let hours = match digits_number(t, 0, a) {
        Some(v) => v,
        None => {
            return Err(TimeFormatError::HoursOutOfRange);
        },
    };
    let minutes = match digits_number(t, a + 1, b) {
        Some(v) => v,
        None => {
            return Err(TimeFormatError::InvalidFormat);
        },
    };
    let seconds = match digits_number(t, b + 1, c) {
        Some(v) => v,
        None => {
            return Err(TimeFormatError::InvalidFormat);
        },
    };
    assert(hours * 3_600_000 <= 4294967295 * 3_600_000) by (nonlinear_arith)
        requires
            hours <= 4294967295,
    ;
    assert(minutes * 60_000 <= 4294967295 * 60_000) by (nonlinear_arith)
        requires
            minutes <= 4294967295,
    ;
    assert(seconds * 1000 <= 4294967295 * 1000) by (nonlinear_arith)
        requires
            seconds <= 4294967295,
    ;
    Ok(hours * 3_600_000 + minutes * 60_000 + seconds * 1000 + frac)
}

/// Turns a time code into a stamp usable in a file name: `01:02:03,500`
/// gives `01_02_03`; the empty text gives `00_00_00`.
pub fn format_time_for_filename(t_str: &str) -> (r: String)
    ensures
        r@ == filename_stamp(t_str@),
{
    let n = t_str.unicode_len();
    if n == 0 {
        return String::from_str("00_00_00");
    }
    let k1 = find_char(t_str, 0, ',');
    proof {
        lemma_cut_at_take(t_str@, ',', k1 as int);
    }
    let head = t_str.substring_char(0, k1);
    let k2 = find_char(head, 0, '.');
    proof {
        lemma_cut_at_take(head@, '.', k2 as int);
    }
    let ghost stem = head@.take(k2 as int);
    let mut out = String::new();
    let mut i: usize = 0;
    while i < k2
        invariant
            k2 <= head@.len(),
            stem == head@.take(k2 as int),
            i <= k2,
            out@ == stem.take(i as int).map_values(|c: char| if c == ':' { '_' } else { c }),
        decreases k2 - i,
    {
        let c = head.get_char(i);
        if c == ':' {
            push_char(&mut out, '_');
        } else {
            push_char(&mut out, c);
        }
        assert(out@ =~= stem.take(i + 1).map_values(|c: char| if c == ':' { '_' } else { c }));
        i = i + 1;
    }
    assert(stem.take(k2 as int) =~= stem);
    out
}

proof fn lemma_decimal(n: nat)
    ensures
        decimal(n).len() >= 1,
        forall|k: int| 0 <= k < decimal(n).len() ==> is_digit(#[trigger] decimal(n)[k]),
        digits_value(decimal(n)) == n,
        n < 100 ==> decimal(n).len() <= 2,
        n < 1000 ==> decimal(n).len() <= 3,
    decreases n,
{
    let d = digit_char(n % 10);
    assert(is_digit(d) && digit_value(d) == n % 10);
    if n < 10 {
        assert(n % 10 == n);
        assert(decimal(n) == seq![d]);
        assert(seq![d].drop_last() =~= Seq::<char>::empty());
        assert(digits_value(seq![d]) == digits_value(Seq::<char>::empty()) * 10 + digit_value(d));
    } else {
        lemma_decimal(n / 10);
        assert(decimal(n).drop_last() =~= decimal(n / 10));
        assert(decimal(n).last() == d);
        vstd::arithmetic::div_mod::lemma_fundamental_div_mod(n as int, 10);
        assert(digits_value(decimal(n)) == digits_value(decimal(n / 10)) * 10 + digit_value(d));
    }
}

proof fn lemma_leading_zeros(k: nat, d: Seq<char>)
    ensures
        digits_value(Seq::new(k, |_i: int| '0') + d) == digits_value(d),
    decreases d.len() + k,
{
    let z = Seq::new(k, |_i: int| '0');
    if d.len() > 0 {
        lemma_leading_zeros(k, d.drop_last());
        assert((z + d).drop_last() =~= z + d.drop_last());
    } else if k > 0 {
        lemma_leading_zeros((k - 1) as nat, d);
        assert((z + d).drop_last() =~= Seq::new((k - 1) as nat, |_i: int| '0') + d);
    } else {
        assert(z + d =~= d);
    }
}

proof fn lemma_zero_padded(n: nat, width: nat)
    ensures
        forall|k: int| 0 <= k < zero_padded(n, width).len() ==> is_digit(
            #[trigger] zero_padded(n, width)[k],
        ),
        digits_value(zero_padded(n, width)) == n,
        zero_padded(n, width).len() >= 1,
        zero_padded(n, width).len() >= width,
        n < 100 && width == 2 ==> zero_padded(n, width).len() == 2,
        n < 1000 && width == 3 ==> zero_padded(n, width).len() == 3,
{
    lemma_decimal(n);
    let d = decimal(n);
    if d.len() < width {
        let z = Seq::new((width - d.len()) as nat, |_i: int| '0');
        lemma_leading_zeros((width - d.len()) as nat, d);
        assert forall|k: int| 0 <= k < (z + d).len() implies is_digit(#[trigger] (z + d)[k]) by {
            if k >= z.len() {
                assert((z + d)[k] == d[k - z.len()]);
            }
        }
    }
}

proof fn lemma_run_end(s: Seq<char>, from: int, k: int)
    requires
        0 <= from <= k <= s.len(),
        forall|j: int| from <= j < k ==> is_digit(s[j]),
        k == s.len() || !is_digit(s[k]),
    ensures
        digit_run_end(s, from) == k,
    decreases k - from,
{
    if from < k {
        lemma_run_end(s, from + 1, k);
    }
}

/// Rendering a time as a time code and reading that code back gives the same
/// number of milliseconds, for every time whose hours fit in 32 bits.
pub proof fn lemma_time_code_round_trip(ms: nat)
    requires
        ms / 1000 / 3600 <= u32::MAX,
    ensures
        time_str_value(time_code(ms)) == Ok::<nat, TimeFormatError>(ms),
{
    let secs = ms / 1000;
    let h = secs / 3600;
    let m = (secs % 3600) / 60;
    let sc = secs % 60;
    let f = ms % 1000;
    let hs = zero_padded(h, 2);
    let msq = zero_padded(m, 2);
    let ss = zero_padded(sc, 2);
    let fs = zero_padded(f, 3);
    lemma_zero_padded(h, 2);
    lemma_zero_padded(m, 2);
    lemma_zero_padded(sc, 2);
    lemma_zero_padded(f, 3);
    let t = time_code(ms);
    reveal(time_code);
    let a = hs.len() as int;
    let b = a + 3;
    let c = b + 3;
    let n = c + 4;
    assert(t =~= hs + seq![':'] + msq + seq![':'] + ss + seq![','] + fs);
    assert(t.len() == n);
    assert(t.subrange(0, a) =~= hs);
    assert(t.subrange(a + 1, b) =~= msq);
    assert(t.subrange(b + 1, c) =~= ss);
    assert(t.subrange(c + 1, n) =~= fs);
    assert(t[a] == ':' && t[b] == ':' && t[c] == ',');
    assert forall|j: int| 0 <= j < a implies is_digit(t[j]) by {
        assert(t[j] == hs[j]);
    }
    assert forall|j: int| a + 1 <= j < b implies is_digit(t[j]) by {
        assert(t[j] == msq[j - (a + 1)]);
    }
    assert forall|j: int| b + 1 <= j < c implies is_digit(t[j]) by {
        assert(t[j] == ss[j - (b + 1)]);
    }
    assert forall|j: int| c + 1 <= j < n implies is_digit(t[j]) by {
        assert(t[j] == fs[j - (c + 1)]);
    }
    lemma_run_end(t, 0, a);
    lemma_run_end(t, a + 1, b);
    lemma_run_end(t, b + 1, c);
    lemma_run_end(t, c + 1, n);
    assert(is_time_code_shape(t));
    assert(is_digit(t[0]) && is_digit(t[n - 1]));
    assert(trim_start(t) == t);
    assert(trim_end(t) == t);
    assert(ms == h * 3_600_000 + m * 60_000 + sc * 1000 + f) by {
        vstd::arithmetic::div_mod::lemma_fundamental_div_mod(ms as int, 1000);
        vstd::arithmetic::div_mod::lemma_fundamental_div_mod(secs as int, 3600);
        vstd::arithmetic::div_mod::lemma_fundamental_div_mod((secs % 3600) as int, 60);
        vstd::arithmetic::div_mod::lemma_mod_mod(secs as int, 60, 60);
    }
}

} // verus!
