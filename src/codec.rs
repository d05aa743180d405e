use rand::Rng;
use vstd::prelude::*;

verus! {

/// Largest magnitude, in hundredths, that a sample's value may have: fifteen
/// significant digits, which a JSON reader's double-precision number carries
/// exactly.
pub const MAX_HUNDREDTHS: u64 = 999_999_999_999_999;

/// One telemetry reading: who sent it and the value, in hundredths of a unit
/// (`2345` stands for `23.45`).
pub struct TelemetrySample {
    pub sender: String,
    pub hundredths: i64,
}

/// Why a payload could not be read as a sample.
#[derive(Clone, Copy, Debug, PartialEq, Eq, Structural)]
pub enum DecodeError {
    /// The bytes are not one JSON document.
    NotJson,
    /// The document has no `sender` field holding a string.
    MissingSender,
    /// The document has no `temperature` field holding a number.
    MissingValue,
    /// The `temperature` number is not a plain decimal within range.
    ValueOutOfRange,
}

#[verifier::external_type_specification]
#[verifier::external_body]
pub struct ExJsonError(serde_json::Error);

/// The JSON string literal, quotes and escapes included, that serde_json
/// writes for the text `s`.
pub uninterp spec fn json_quoted(s: Seq<char>) -> Seq<u8>;

/// Whether serde_json reads `b` as one JSON document.
pub uninterp spec fn json_accepts(b: Seq<u8>) -> bool;

/// The text of the member `key` of the JSON document `b`, where `b` is a
/// document, `key` a member of it, and that member a JSON string.
pub uninterp spec fn json_string_member(b: Seq<u8>, key: Seq<char>) -> Option<Seq<char>>;

/// The decimal text, as serde_json's `Number` prints it, of the member `key`
/// of the JSON document `b`, where `b` is a document, `key` a member of it,
/// and that member a JSON number.
pub uninterp spec fn json_number_text(b: Seq<u8>, key: Seq<char>) -> Option<Seq<u8>>;

/// Relies on serde_json::to_vec on a `str`: the JSON string literal of `s`.
/// Writing a string into a `Vec` cannot fail.
#[verifier::external_body]
fn quote_json(s: &str) -> (r: Result<Vec<u8>, serde_json::Error>)
    ensures
        r is Ok,
        r matches Ok(v) ==> v@ == json_quoted(s@),
{
    serde_json::to_vec(s)
}

/// Relies on serde_json::from_slice into a `Value`: it succeeds exactly on
/// the byte strings that are one JSON document.
#[verifier::external_body]
fn is_json(b: &[u8]) -> (r: bool)
    ensures
        r == json_accepts(b@),
{
    serde_json::from_slice::<serde_json::Value>(b).is_ok()
}

/// Relies on serde_json::from_slice into a `Value`, then Value::get and
/// Value::as_str: the text of the string member `key` of the document `b`.
#[verifier::external_body]
fn string_member(b: &[u8], key: &str) -> (r: Option<String>)
    ensures
        r is None ==> json_string_member(b@, key@) is None,
        r matches Some(t) ==> json_string_member(b@, key@) == Some(t@),
{
    let doc: serde_json::Value = serde_json::from_slice(b).ok()?;
    doc.get(key)?.as_str().map(|t| t.to_string())
}

/// Relies on serde_json::from_slice into a `Value`, then Value::get and
/// Value::as_number: the decimal text of the number member `key` of the
/// document `b`, as serde_json's `Number` prints it.
#[verifier::external_body]
fn number_member(b: &[u8], key: &str) -> (r: Option<Vec<u8>>)
    ensures
        r is None ==> json_number_text(b@, key@) is None,
        r matches Some(t) ==> json_number_text(b@, key@) == Some(t@),
{
    let doc: serde_json::Value = serde_json::from_slice(b).ok()?;
    doc.get(key)?.as_number().map(|n| n.to_string().into_bytes())
}

pub open spec fn is_digit(c: u8) -> bool {
    48 <= c <= 57
}

pub open spec fn all_digits(s: Seq<u8>) -> bool {
    forall|i: int| 0 <= i < s.len() ==> is_digit(#[trigger] s[i])
}

/// The number that a string of ASCII digits denotes.
pub open spec fn digits_value(s: Seq<u8>) -> nat
    decreases s.len(),
{
    if s.len() == 0 {
        0
    } else {
        digits_value(s.drop_last()) * 10 + (s.last() - 48) as nat
    }
}

/// The ASCII digits of `n`, without leading zeros.
pub open spec fn decimal_digits(n: nat) -> Seq<u8>
    decreases n,
{
    if n < 10 {
        seq![(n + 48) as u8]
    } else {
        decimal_digits(n / 10).push((n % 10 + 48) as u8)
    }
}

/// How many digits `s` starts with.
pub open spec fn leading_digits(s: Seq<u8>) -> nat
    decreases s.len(),
{
    if s.len() == 0 || !is_digit(s[0]) {
        0
    } else {
        1 + leading_digits(s.drop_first())
    }
}

/// The text of a value of `h` hundredths: an optional minus sign, the whole
/// part, a point, and exactly two decimals (`-0.05`, `23.45`).
pub open spec fn value_text(h: int) -> Seq<u8> {
    let m: nat = if h < 0 {
        (-h) as nat
    } else {
        h as nat
    };
    let sign: Seq<u8> = if h < 0 {
        seq![45u8]
    } else {
        Seq::empty()
    };
    sign + decimal_digits(m / 100) + seq![46u8, ((m % 100) / 10 + 48) as u8, (m % 10 + 48) as u8]
}

/// The hundredths that a decimal text denotes, rounded to two decimals with
/// halves away from zero: an optional minus sign, at least one digit, and
/// optionally a point followed by at least one digit. `None` for any other
/// text, and for a magnitude above `MAX_HUNDREDTHS`.
pub open spec fn parse_value(t: Seq<u8>) -> Option<int> {
    let neg = t.len() > 0 && t[0] == 45u8;
    let b = if neg {
        t.drop_first()
    } else {
        t
    };
    let k = leading_digits(b) as int;
    let whole = digits_value(b.take(k));
    let frac = b.skip(k + 1);
    let cents: nat = if k == b.len() {
        0
    } else if frac.len() == 1 {
        ((frac[0] - 48) * 10) as nat
    } else {
        ((frac[0] - 48) * 10 + (frac[1] - 48)) as nat
    };
    let round_up: nat = if k < b.len() && frac.len() > 2 && frac[2] >= 53u8 {
        1
    } else {
        0
    };
    let mag = whole * 100 + cents + round_up;
    if k == 0 || (k < b.len() && (b[k] != 46u8 || frac.len() == 0 || !all_digits(frac))) || mag
        > MAX_HUNDREDTHS {
        None
    } else if neg {
        Some(-mag)
    } else {
        Some(mag as int)
    }
}

/// The bytes of the record for `sender` and `h` hundredths:
/// `{"sender":<sender as a JSON string>,"temperature":<value text>}`.
pub open spec fn record_bytes(sender: Seq<char>, h: int) -> Seq<u8> {
    seq![123u8, 34u8, 115u8, 101u8, 110u8, 100u8, 101u8, 114u8, 34u8, 58u8] + json_quoted(sender)
        + seq![44u8, 34u8, 116u8, 101u8, 109u8, 112u8, 101u8, 114u8, 97u8, 116u8, 117u8, 114u8, 101u8, 34u8, 58u8]
        + value_text(h) + seq![125u8]
}

/// Appends the decimal digits of `n` to `out`.
fn push_digits(n: u64, out: &mut Vec<u8>)
    ensures
        final(out)@ == old(out)@ + decimal_digits(n as nat),
    decreases n,
{
    if n < 10 {
        out.push((n + 48) as u8);
    } else {
        push_digits(n / 10, out);
        out.push((n % 10 + 48) as u8);
    }
}

/// Appends the bytes of `s` to `out`.
fn push_all(out: &mut Vec<u8>, s: &[u8])
    ensures
        final(out)@ == old(out)@ + s@,
{
    let ghost start = out@;
    let mut i: usize = 0;
    while i < s.len()
        invariant
            i <= s@.len(),
            out@ == start + s@.take(i as int),
        decreases s@.len() - i,
    {
        out.push(s[i]);
        i = i + 1;
        proof {
            assert(s@.take(i as int) =~= s@.take(i as int - 1).push(s@[i as int - 1]));
        }
    }
    proof {
        assert(s@.take(i as int) =~= s@);
    }
}

/// The text of a value of `h` hundredths, with exactly two decimals.
pub fn format_value(h: i64) -> (r: Vec<u8>)
    ensures
        r@ == value_text(h as int),
{
    let m: u64 = if h < 0 {
        ((-(h + 1)) as u64) + 1
    } else {
        h as u64
    };
    let mut out: Vec<u8> = Vec::new();
    if h < 0 {
        out.push(45u8);
    }
    push_digits(m / 100, &mut out);
    out.push(46u8);
    out.push(((m % 100) / 10 + 48) as u8);
    out.push((m % 10 + 48) as u8);
    proof {
        let sign: Seq<u8> = if h < 0 {
            seq![45u8]
        } else {
            Seq::empty()
        };
        assert(out@ =~= sign + decimal_digits((m / 100) as nat) + seq![
            46u8,
            ((m % 100) / 10 + 48) as u8,
            (m % 10 + 48) as u8,
        ]);
    }
    out
}

/// Encodes a sample as the body of one stream: a JSON object with the
/// sender's text and the value with two decimals.
pub fn encode_sample(s: &TelemetrySample) -> (r: Vec<u8>)
    requires
        -(MAX_HUNDREDTHS as int) <= s.hundredths <= MAX_HUNDREDTHS,
    ensures
        r@ == record_bytes(s.sender@, s.hundredths as int),
{
    match quote_json(s.sender.as_str()) {
        Ok(quoted) => {
            let mut out: Vec<u8> = Vec::new();
            push_all(&mut out, &[123u8, 34u8, 115u8, 101u8, 110u8, 100u8, 101u8, 114u8, 34u8, 58u8]);
            push_all(&mut out, quoted.as_slice());
            push_all(
                &mut out,
                &[44u8, 34u8, 116u8, 101u8, 109u8, 112u8, 101u8, 114u8, 97u8, 116u8, 117u8, 114u8, 101u8, 34u8, 58u8],
            );
            let value = format_value(s.hundredths);
            push_all(&mut out, value.as_slice());
            out.push(125u8);
            proof {
                assert(out@ =~= record_bytes(s.sender@, s.hundredths as int));
            }
            out
        },
        Err(_) => {
            proof {
                assert(false);
            }
            Vec::new()
        },
    }
}

proof fn lemma_leading_at_least(s: Seq<u8>, m: int)
    requires
        0 <= m <= s.len(),
        all_digits(s.take(m)),
    ensures
        leading_digits(s) >= m,
    decreases m,
{
    if m > 0 {
        assert(s.take(m)[0] == s[0]);
        let r = s.drop_first();
        assert forall|i: int| 0 <= i < m - 1 implies is_digit(#[trigger] r.take(m - 1)[i]) by {
            assert(r.take(m - 1)[i] == s.take(m)[i + 1]);
        }
        lemma_leading_at_least(r, m - 1);
    }
}

proof fn lemma_leading_prefix(s: Seq<u8>)
    ensures
        leading_digits(s) <= s.len(),
        all_digits(s.take(leading_digits(s) as int)),
        leading_digits(s) < s.len() ==> !is_digit(s[leading_digits(s) as int]),
    decreases s.len(),
{
    if s.len() > 0 && is_digit(s[0]) {
        let r = s.drop_first();
        lemma_leading_prefix(r);
        let k = leading_digits(s) as int;
        assert forall|i: int| 0 <= i < k implies is_digit(#[trigger] s.take(k)[i]) by {
            if i > 0 {
                assert(s.take(k)[i] == r.take(k - 1)[i - 1]);
            }
        }
        if k < s.len() {
            assert(s[k] == r[k - 1]);
        }
    }
}

proof fn lemma_leading_exact(s: Seq<u8>, k: int)
    requires
        0 <= k <= s.len(),
        all_digits(s.take(k)),
        k == s.len() || !is_digit(s[k]),
    ensures
        leading_digits(s) == k,
{
    lemma_leading_at_least(s, k);
    lemma_leading_prefix(s);
    let l = leading_digits(s) as int;
    if l > k {
        assert(s.take(l)[k] == s[k]);
    }
}

proof fn lemma_digits_monotone(s: Seq<u8>, i: int, j: int)
    requires
        0 <= i <= j <= s.len(),
    ensures
        digits_value(s.take(i)) <= digits_value(s.take(j)),
    decreases j - i,
{
    if i < j {
        lemma_digits_monotone(s, i, j - 1);
        assert(s.take(j).drop_last() =~= s.take(j - 1));
    }
}

/// Whether every byte of `t` from `start` on is a digit.
fn digits_from(t: &[u8], start: usize) -> (r: bool)
    requires
        start <= t@.len(),
    ensures
        r == all_digits(t@.skip(start as int)),
{
    let mut j: usize = start;
    while j < t.len()
        invariant
            start <= j <= t@.len(),
            forall|q: int| start <= q < j ==> is_digit(#[trigger] t@[q]),
        decreases t@.len() - j,
    {
        if t[j] < 48u8 || t[j] > 57u8 {
            assert(t@.skip(start as int)[j - start] == t@[j as int]);
            return false;
        }
        j = j + 1;
    }
    assert forall|q: int| 0 <= q < t@.skip(start as int).len() implies is_digit(
        #[trigger] t@.skip(start as int)[q],
    ) by {
        assert(t@.skip(start as int)[q] == t@[start + q]);
    }
    true
}

proof fn lemma_decimal_digits(n: nat)
    ensures
        decimal_digits(n).len() >= 1,
        all_digits(decimal_digits(n)),
        digits_value(decimal_digits(n)) == n,
    decreases n,
{
    let d = decimal_digits(n);
    if n >= 10 {
        lemma_decimal_digits(n / 10);
        let p = decimal_digits(n / 10);
        assert(d.drop_last() =~= p);
        assert(d.last() == (n % 10 + 48) as u8);
        assert((n / 10) * 10 + n % 10 == n) by (nonlinear_arith);
        assert(digits_value(d) == digits_value(p) * 10 + (d.last() - 48) as nat);
        assert((d.last() - 48) as nat == n % 10);
        assert forall|i: int| 0 <= i < d.len() implies is_digit(#[trigger] d[i]) by {
            if i < p.len() {
                assert(d[i] == p[i]);
            }
        }
    } else {
        assert(d.drop_last() =~= Seq::<u8>::empty());
        assert(digits_value(d) == digits_value(d.drop_last()) * 10 + (d.last() - 48) as nat);
        assert(digits_value(Seq::<u8>::empty()) == 0);
    }
}

/// The text that `format_value` writes for a value reads back, through
/// `parse_value`, as the very same number of hundredths.
pub proof fn lemma_value_text_round_trip(h: int)
    requires
        -(MAX_HUNDREDTHS as int) <= h <= MAX_HUNDREDTHS,
    ensures
        parse_value(value_text(h)) == Some(h),
{
    let m: nat = if h < 0 {
        (-h) as nat
    } else {
        h as nat
    };
    let d = decimal_digits(m / 100);
    lemma_decimal_digits(m / 100);
    let tail = seq![46u8, ((m % 100) / 10 + 48) as u8, (m % 10 + 48) as u8];
    let b = d + tail;
    let t = value_text(h);
    if h < 0 {
        assert(t =~= seq![45u8] + b);
        assert(t.drop_first() =~= b);
    } else {
        assert(t =~= b);
        assert(is_digit(d[0]));
    }
    let k = d.len() as int;
    assert(b.take(k) =~= d);
    assert(b[k] == 46u8);
    lemma_leading_exact(b, k);
    let frac = b.skip(k + 1);
    assert(frac =~= seq![((m % 100) / 10 + 48) as u8, (m % 10 + 48) as u8]);
    assert(all_digits(frac));
    let cents: nat = ((frac[0] - 48) * 10 + (frac[1] - 48)) as nat;
    assert(cents == m % 100);
    assert((m / 100) * 100 + m % 100 == m) by (nonlinear_arith);
    let neg = t.len() > 0 && t[0] == 45u8;
    assert(neg == (h < 0));
    assert((if neg {
        t.drop_first()
    } else {
        t
    }) == b);
}

/// Reads a decimal text as hundredths, as `parse_value` describes: rounded
/// to two decimals, halves away from zero.
pub fn parse_value_text(t: &[u8]) -> (r: Option<i64>)
    ensures
        r.is_some() == parse_value(t@).is_some(),
        r matches Some(h) ==> parse_value(t@) == Some(h as int),
{
    let n = t.len();
    let neg = n > 0 && t[0] == 45u8;
    let p: usize = if neg {
        1
    } else {
        0
    };
    let ghost b = if neg {
        t@.drop_first()
    } else {
        t@
    };
    assert(b.len() == n - p);
    assert(forall|j: int| 0 <= j < b.len() ==> b[j] == t@[p + j]);
    let mut i: usize = p;
    let mut whole: u64 = 0;
    while i < n && 48u8 <= t[i] && t[i] <= 57u8
        invariant
            n == t@.len(),
            neg == (t@.len() > 0 && t@[0] == 45u8),
            b == (if neg {
                t@.drop_first()
            } else {
                t@
            }),
            p <= i <= n,
            b.len() == n - p,
            forall|j: int| 0 <= j < b.len() ==> b[j] == t@[p + j],
            all_digits(b.take(i - p)),
            whole == digits_value(b.take(i - p)),
            whole <= 100_000_000_000_000_000,
        decreases n - i,
    {
        let d = (t[i] - 48u8) as u64;
        assert(whole * 10 <= 1_000_000_000_000_000_000) by (nonlinear_arith)
            requires
                whole <= 100_000_000_000_000_000,
        ;
        let next = whole * 10 + d;
        proof {
            let m = i - p + 1;
            assert(b.take(m).drop_last() =~= b.take(m - 1));
            assert forall|q: int| 0 <= q < m implies is_digit(#[trigger] b.take(m)[q]) by {
                if q < m - 1 {
                    assert(b.take(m)[q] == b.take(m - 1)[q]);
                }
            }
        }
        if next > 100_000_000_000_000_000 {
            proof {
                let m = i - p + 1;
                lemma_leading_at_least(b, m);
                lemma_leading_prefix(b);
                let l = leading_digits(b) as int;
                lemma_digits_monotone(b, m, l);
                let w = digits_value(b.take(l));
                assert(b.take(m).last() == t@[i as int]);
                assert(next == digits_value(b.take(m)));
                assert(w * 100 > 10_000_000_000_000_000_000) by (nonlinear_arith)
                    requires
                        w > 100_000_000_000_000_000,
                ;
                assert(parse_value(t@) is None);
            }
            return None;
        }
        whole = next;
        i = i + 1;
    }
    let k = i - p;
    proof {
        lemma_leading_exact(b, k as int);
    }
    if k == 0 {
        return None;
    }
    let ghost frac = b.skip(k + 1);
    let mut cents: u64 = 0;
    if i < n {
        if t[i] != 46u8 || i + 1 == n {
            return None;
        }
        assert(frac =~= t@.skip(i + 1));
        if !digits_from(t, i + 1) {
            return None;
        }
        let c1 = (t[i + 1] - 48u8) as u64;
        let c2: u64 = if i + 2 < n {
            (t[i + 2] - 48u8) as u64
        } else {
            0
        };
        assert(is_digit(frac[0]));
        let c3: u64 = if n - i > 3 && t[i + 3] >= 53u8 {
            1
        } else {
            0
        };
        if i + 2 < n {
            assert(is_digit(frac[1]));
        }
        if n - i > 3 {
            assert(frac[2] == t@[i + 3]);
        }
        cents = c1 * 10 + c2 + c3;
    }
    assert(whole * 100 <= 10_000_000_000_000_000_000) by (nonlinear_arith)
        requires
            whole <= 100_000_000_000_000_000,
    ;
    let mag = whole * 100 + cents;
    if mag > MAX_HUNDREDTHS {
        return None;
    }
    if neg {
        Some(-(mag as i64))
    } else {
        Some(mag as i64)
    }
}

/// The text that `b` reads as, each invalid UTF-8 sequence replaced by U+FFFD.
pub uninterp spec fn lossy_text(b: Seq<u8>) -> Seq<char>;

/// Relies on String::from_utf8_lossy: the bytes as text, never failing.
#[verifier::external_body]
fn text_lossy(b: &[u8]) -> (r: String)
    ensures
        r@ == lossy_text(b@),
{
    String::from_utf8_lossy(b).into_owned()
}

/// Relies on rand's thread_rng and Rng::gen_range: a value in `[low, high)`.
#[verifier::external_body]
fn draw_between(low: i64, high: i64) -> (r: i64)
    requires
        low < high,
    ensures
        low <= r < high,
{
    rand::thread_rng().gen_range(low..high)
}

/// Lowest value, in hundredths, of a simulated reading.
pub const READING_LOW: i64 = 2000;

/// Bound, in hundredths, that a simulated reading stays below.
pub const READING_HIGH: i64 = 3500;

/// A fresh simulated reading from `sender`, drawn from `[20.00, 35.00)`.
pub fn draw_sample(sender: &String) -> (r: TelemetrySample)
    ensures
        r.sender@ == sender@,
        READING_LOW <= r.hundredths < READING_HIGH,
{
    let h = draw_between(READING_LOW, READING_HIGH);
    TelemetrySample { sender: sender.clone(), hundredths: h }
}

/// `Some` of the view of `o`'s text, or `None`.
pub open spec fn text_view(o: Option<String>) -> Option<Seq<char>> {
    match o {
        Some(t) => Some(t@),
        None => None,
    }
}

/// `Some` of the view of `o`'s bytes, or `None`.
pub open spec fn bytes_view(o: Option<Vec<u8>>) -> Option<Seq<u8>> {
    match o {
        Some(t) => Some(t@),
        None => None,
    }
}

/// A decoding result as the sender's text and the value in hundredths.
pub open spec fn sample_view(r: Result<TelemetrySample, DecodeError>) -> Result<
    (Seq<char>, int),
    DecodeError,
> {
    match r {
        Ok(s) => Ok((s.sender@, s.hundredths as int)),
        Err(e) => Err(e),
    }
}

/// The sample that a document's `sender` text and `temperature` number text
/// make, or why they make none.
pub open spec fn sample_outcome(sender: Option<Seq<char>>, number: Option<Seq<u8>>) -> Result<
    (Seq<char>, int),
    DecodeError,
> {
    match sender {
        None => Err(DecodeError::MissingSender),
        Some(name) => match number {
            None => Err(DecodeError::MissingValue),
            Some(t) => match parse_value(t) {
                None => Err(DecodeError::ValueOutOfRange),
                Some(h) => Ok((name, h)),
            },
        },
    }
}

/// What the body `b` of one stream decodes to.
pub open spec fn decoded(b: Seq<u8>) -> Result<(Seq<char>, int), DecodeError> {
    if !json_accepts(b) {
        Err(DecodeError::NotJson)
    } else {
        sample_outcome(
            json_string_member(b, "sender"@),
            json_number_text(b, "temperature"@),
        )
    }
}

/// Builds a sample from what a decoded document holds: the text of its
/// `sender` member and the decimal text of its `temperature` member, each
/// `None` where the member is missing or of another kind.
pub fn sample_from_fields(sender: Option<String>, number: Option<Vec<u8>>) -> (r: Result<
    TelemetrySample,
    DecodeError,
>)
    ensures
        sample_view(r) == sample_outcome(text_view(sender), bytes_view(number)),
{
    match sender {
        None => Err(DecodeError::MissingSender),
        Some(name) => match number {
            None => Err(DecodeError::MissingValue),
            Some(t) => match parse_value_text(t.as_slice()) {
                None => Err(DecodeError::ValueOutOfRange),
                Some(h) => Ok(TelemetrySample { sender: name, hundredths: h }),
            },
        },
    }
}

/// Decodes the body of one stream as a sample, as `decoded` says: it fails
/// with `NotJson` exactly when the bytes are not one JSON document, and
/// otherwise reads the `sender` and `temperature` members.
pub fn decode_sample(b: &[u8]) -> (r: Result<TelemetrySample, DecodeError>)
    ensures
        sample_view(r) == decoded(b@),
{
    if !is_json(b) {
        return Err(DecodeError::NotJson);
    }
    let sender = string_member(b, "sender");
    let number = number_member(b, "temperature");
    sample_from_fields(sender, number)
}

/// What the server makes of one stream's body.
pub enum StreamReport {
    /// A sample was decoded.
    Received(TelemetrySample),
    /// The body is no sample: why, and the body as text.
    Rejected { error: DecodeError, raw_text: String },
}

/// A report as the decoded sender's text and value, or the reason and the
/// body's text.
pub open spec fn report_view(r: StreamReport) -> Result<(Seq<char>, int), (DecodeError, Seq<char>)> {
    match r {
        StreamReport::Received(s) => Ok((s.sender@, s.hundredths as int)),
        StreamReport::Rejected { error, raw_text } => Err((error, raw_text@)),
    }
}

/// The report owed for the body `b`: what it decodes to, or why it does not
/// decode together with its bytes as text.
pub open spec fn expected_report(b: Seq<u8>) -> Result<(Seq<char>, int), (DecodeError, Seq<char>)> {
    match decoded(b) {
        Ok(p) => Ok(p),
        Err(e) => Err((e, lossy_text(b))),
    }
}

/// Handles the whole body of one stream. It never fails: a body that is no
/// sample is reported with the reason and with its bytes as text, invalid
/// UTF-8 sequences replaced.
pub fn handle_payload(b: &[u8]) -> (r: StreamReport)
    ensures
        report_view(r) == expected_report(b@),
{
    match decode_sample(b) {
        Ok(smp) => StreamReport::Received(smp),
        Err(error) => StreamReport::Rejected { error, raw_text: text_lossy(b) },
    }
}

} // verus!
