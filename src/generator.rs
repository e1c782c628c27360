//! The TOTP generator: counter derivation, HMAC, dynamic truncation and formatting.
use crate::algorithm::{hmac_tag, Algorithm};
use vstd::prelude::*;

verus! {

/// Fewest decimal digits a code may have.
pub const MIN_DIGITS: u64 = 6;

/// Most decimal digits a code may have.
pub const MAX_DIGITS: u64 = 8;

/// Why a generator could not be configured.
#[derive(Clone, Copy, Debug, PartialEq, Eq, Structural)]
pub enum ConfigError {
    /// The time step was zero.
    ZeroTimeStep,
    /// The code length lies outside `MIN_DIGITS..=MAX_DIGITS`.
    UnsupportedLength,
}

/// Why no code could be produced for the current time.
#[derive(Clone, Copy, Debug, PartialEq, Eq, Structural)]
pub enum ClockError {
    /// The system clock reads a time before the Unix epoch.
    BeforeEpoch,
}

/// `10` raised to `n`.
pub open spec fn pow10(n: nat) -> nat
    decreases n,
{
    if n == 0 {
        1
    } else {
        10 * pow10((n - 1) as nat)
    }
}

/// The counter of a timestamp: the number of whole time steps since the epoch.
pub open spec fn counter_of(time: u64, time_step: u64) -> u64
    recommends
        time_step > 0,
{
    (time / time_step) as u64
}

/// A counter as eight big-endian bytes, the HMAC message.
pub open spec fn counter_bytes(c: u64) -> Seq<u8> {
    seq![
        (c >> 56u64) as u8,
        (c >> 48u64) as u8,
        (c >> 40u64) as u8,
        (c >> 32u64) as u8,
        (c >> 24u64) as u8,
        (c >> 16u64) as u8,
        (c >> 8u64) as u8,
        c as u8,
    ]
}

/// Dynamic truncation of a tag: the low nibble of the last byte is an offset, and
/// the four bytes from there, read big-endian with the top bit cleared, are the value.
pub open spec fn truncated(d: Seq<u8>) -> nat
    recommends
        d.len() >= 20,
{
    let o = (d.last() % 16) as int;
    ((d[o] % 128) as nat) * 0x100_0000 + (d[o + 1] as nat) * 0x1_0000 + (d[o + 2] as nat) * 0x100
        + (d[o + 3] as nat)
}

/// The numeric one-time password for counter `c`.
pub open spec fn hotp_value(alg: Algorithm, key: Seq<u8>, c: u64, digits: nat) -> nat {
    truncated(hmac_tag(alg, key, counter_bytes(c))) % pow10(digits)
}

/// The character of a decimal digit.
pub open spec fn digit_char(d: nat) -> char
    recommends
        d < 10,
{
    ((d + 48) as u8) as char
}

/// The last `n` decimal digits of `v`, with leading zeros.
pub open spec fn padded_digits(v: nat, n: nat) -> Seq<char>
    decreases n,
{
    if n == 0 {
        seq![]
    } else {
        padded_digits(v / 10, (n - 1) as nat).push(digit_char(v % 10))
    }
}

/// `v` written with exactly `n` digits, split by one space after the first `n / 2`.
pub open spec fn grouped(v: nat, n: nat) -> Seq<char> {
    let d = padded_digits(v, n);
    d.subrange(0, (n / 2) as int) + seq![' '] + d.subrange((n / 2) as int, n as int)
}

/// Relies on `String`'s `FromIterator<char>`: the string holds the characters in order.
#[verifier::external_body]
fn string_of(cs: &Vec<char>) -> (r: String)
    ensures
        r@ == cs@,
{
    cs.iter().collect()
}

proof fn lemma_pow10_bounds(n: nat)
    requires
        n <= 8,
    ensures
        1 <= pow10(n) <= 100_000_000,
    decreases n,
{
    reveal_with_fuel(pow10, 9);
}

/// Computes `10^n` for a supported code length.
fn pow10_exec(n: u64) -> (r: u32)
    requires
        n <= MAX_DIGITS,
    ensures
        r == pow10(n as nat),
        1 <= r <= 100_000_000,
{
    let mut r: u32 = 1;
    let mut i: u64 = 0;
    while i < n
        invariant
            i <= n <= MAX_DIGITS,
            r == pow10(i as nat),
        decreases n - i,
    {
        proof {
            lemma_pow10_bounds(i as nat);
            lemma_pow10_bounds((i + 1) as nat);
        }
        r = r * 10;
        i = i + 1;
    }
    proof {
        lemma_pow10_bounds(n as nat);
    }
    r
}

/// Eight big-endian bytes of a counter.
fn counter_to_bytes(c: u64) -> (r: Vec<u8>)
    ensures
        r@ == counter_bytes(c),
{
    let r = vec![
        (c >> 56u64) as u8,
        (c >> 48u64) as u8,
        (c >> 40u64) as u8,
        (c >> 32u64) as u8,
        (c >> 24u64) as u8,
        (c >> 16u64) as u8,
        (c >> 8u64) as u8,
        c as u8,
    ];
    assert(r@ =~= counter_bytes(c));
    r
}

/// Dynamic truncation of an HMAC tag.
pub fn truncate(d: &Vec<u8>) -> (r: u32)
    requires
        d@.len() >= 20,
    ensures
        r == truncated(d@),
        r < 0x8000_0000,
{
    let o: usize = (d[d.len() - 1] % 16) as usize;
    let r: u32 = ((d[o] % 128) as u32) * 0x100_0000 + (d[o + 1] as u32) * 0x1_0000 + (d[o + 2]
        as u32) * 0x100 + (d[o + 3] as u32);
    r
}

/// Writes `v` with exactly `n` digits, split by one space after the first `n / 2`.
pub fn format_code(v: u32, n: u64) -> (r: String)
    requires
        n <= MAX_DIGITS,
    ensures
        r@ == grouped(v as nat, n as nat),
{
    let mut digits: Vec<char> = Vec::new();
    let mut i: u64 = 0;
    let mut rest: u32 = v;
    let ghost mut tail: Seq<char> = seq![];
    // digits are produced from the last one to the first
    while i < n
        invariant
            i <= n,
            digits@.len() == i,
            tail.len() == i,
            padded_digits(v as nat, n as nat) == padded_digits(rest as nat, (n - i) as nat) + tail,
            forall|k: int| 0 <= k < i ==> #[trigger] digits@[k] == tail[i - 1 - k],
        decreases n - i,
    {
        let c = ((rest % 10) as u8 + 48u8) as char;
        proof {
            let m = (n - i) as nat;
            assert(padded_digits(rest as nat, m) == padded_digits((rest / 10) as nat, (m - 1) as nat).push(c));
            assert(padded_digits(rest as nat, m) + tail =~= padded_digits((rest / 10) as nat, (m - 1) as nat) + (seq![c] + tail));
            tail = seq![c] + tail;
        }
        digits.push(c);
        rest = rest / 10;
        i = i + 1;
    }
    let ghost d = padded_digits(v as nat, n as nat);
    assert(d =~= tail);
    let mut out: Vec<char> = Vec::new();
    let mut j: u64 = 0;
    while j < n
        invariant
            j <= n,
            digits@.len() == n,
            d.len() == n,
            forall|k: int| 0 <= k < n ==> #[trigger] digits@[k] == d[n - 1 - k],
            out@ == if j <= n / 2 {
                d.subrange(0, j as int)
            } else {
                d.subrange(0, (n / 2) as int) + seq![' '] + d.subrange((n / 2) as int, j as int)
            },
        decreases n - j,
    {
        let ghost before = out@;
        if j == n / 2 {
            out.push(' ');
        }
        let idx: usize = (n - 1 - j) as usize;
        assert(digits@[idx as int] == d[j as int]);
        out.push(digits[idx]);
        assert(out@ == if j == n / 2 { before + seq![' ', d[j as int]] } else { before.push(d[j as int]) });
        j = j + 1;
        if j <= n / 2 {
            assert(out@ =~= d.subrange(0, j as int));
        } else {
            assert(out@ =~= d.subrange(0, (n / 2) as int) + seq![' '] + d.subrange((n / 2) as int, j as int));
        }
    }
    if n == 0 {
        out.push(' ');
    }
    assert(out@ =~= grouped(v as nat, n as nat));
    string_of(&out)
}


/// Relies on `std::time::SystemTime::now` and `duration_since(UNIX_EPOCH)`: the whole
/// seconds since the Unix epoch, or an error when the clock reads an earlier time.
/// Nothing is promised of the value itself.
#[verifier::external_body]
pub fn system_time() -> (r: Result<u64, ClockError>) {
    match std::time::SystemTime::now().duration_since(std::time::UNIX_EPOCH) {
        Ok(d) => Ok(d.as_secs()),
        Err(_) => Err(ClockError::BeforeEpoch),
    }
}

/// A TOTP generator: a shared secret with the parameters that turn a time into a code.
#[allow(non_camel_case_types)]
pub struct totp {
    pub secret: Vec<u8>,
    /// Seconds per counter tick.
    pub time_step: u64,
    /// Decimal digits in a code.
    pub length: u64,
    pub algorithm: Algorithm,
    /// Counters of tolerance for a verifier; generation does not consult it.
    pub skew: u64,
    pub label: Option<String>,
    pub url: Option<String>,
}

impl totp {
    /// A usable configuration: a positive time step and a supported code length.
    pub open spec fn wf(&self) -> bool {
        &&& self.time_step > 0
        &&& MIN_DIGITS <= self.length <= MAX_DIGITS
    }

    /// The numeric code for `time` under `key`.
    pub open spec fn value_at(&self, time: u64, key: Seq<u8>) -> nat {
        hotp_value(self.algorithm, key, counter_of(time, self.time_step), self.length as nat)
    }

    /// The displayed code for `time` under `key`.
    pub open spec fn code_at(&self, time: u64, key: Seq<u8>) -> Seq<char> {
        grouped(self.value_at(time, key), self.length as nat)
    }

    /// Builds a generator, refusing a zero time step or an unsupported code length.
    pub fn new(
        secret: Vec<u8>,
        time_step: u64,
        length: u64,
        algorithm: Algorithm,
        skew: u64,
        label: Option<String>,
        url: Option<String>,
    ) -> (r: Result<totp, ConfigError>)
        ensures
            time_step == 0 <==> r == Err::<totp, ConfigError>(ConfigError::ZeroTimeStep),
            (time_step > 0 && !(MIN_DIGITS <= length <= MAX_DIGITS)) <==> r == Err::<totp, ConfigError>(
                ConfigError::UnsupportedLength,
            ),
            r is Ok ==> ({
                let t = r->Ok_0;
                &&& t.wf()
                &&& t.secret@ == secret@
                &&& t.time_step == time_step
                &&& t.length == length
                &&& t.algorithm == algorithm
                &&& t.skew == skew
                &&& t.label == label
                &&& t.url == url
            }),
    {
        if time_step == 0 {
            return Err(ConfigError::ZeroTimeStep);
        }
        if length < MIN_DIGITS || length > MAX_DIGITS {
            return Err(ConfigError::UnsupportedLength);
        }
        Ok(totp { secret, time_step, length, algorithm, skew, label, url })
    }

    /// The numeric code for `time` under `key`: HOTP of the time's counter.
    pub fn otp_value(&self, time: u64, key: Vec<u8>) -> (r: u32)
        requires
            self.wf(),
        ensures
            r == self.value_at(time, key@),
            (r as nat) < pow10(self.length as nat),
    {
        let counter = counter_to_bytes(time / self.time_step);
        let tag = self.algorithm.hmac(key, counter.as_slice());
        let raw = truncate(&tag);
        let m = pow10_exec(self.length);
        raw % m
    }

    /// The code for `time` under `key`, zero-padded to the configured length and
    /// split into two groups by a space.
    pub fn generate(&self, time: u64, key: Vec<u8>) -> (r: String)
        requires
            self.wf(),
        ensures
            r@ == self.code_at(time, key@),
    {
        let v = self.otp_value(time, key);
        format_code(v, self.length)
    }

    /// The code for the current time under this generator's own secret.
    pub fn generate_now(&self) -> (r: Result<String, ClockError>)
        requires
            self.wf(),
        ensures
            r is Ok ==> exists|t: u64| r->Ok_0@ == self.code_at(t, self.secret@),
    {
        let time = system_time()?;
        Ok(self.generate(time, self.secret.clone()))
    }
}


/// Whether `c` is a decimal digit character.
pub open spec fn is_digit(c: char) -> bool {
    '0' <= c && c <= '9'
}

proof fn lemma_pow10_positive(n: nat)
    ensures
        pow10(n) >= 1,
    decreases n,
{
    if n > 0 {
        lemma_pow10_positive((n - 1) as nat);
    }
}

proof fn lemma_padded_digits(v: nat, n: nat)
    ensures
        padded_digits(v, n).len() == n,
        forall|i: int| 0 <= i < n ==> is_digit(#[trigger] padded_digits(v, n)[i]),
    decreases n,
{
    if n > 0 {
        lemma_padded_digits(v / 10, (n - 1) as nat);
    }
}

/// Every code has the configured number of digits and one space after the first half
/// of them.
pub proof fn lemma_code_shape(g: totp, time: u64, key: Seq<u8>)
    requires
        g.wf(),
    ensures
        g.code_at(time, key).len() == g.length + 1,
        g.code_at(time, key)[(g.length / 2) as int] == ' ',
        forall|i: int|
            0 <= i <= g.length && i != g.length / 2 ==> is_digit(#[trigger] g.code_at(time, key)[i]),
{
    let n = g.length as nat;
    let d = padded_digits(g.value_at(time, key), n);
    lemma_padded_digits(g.value_at(time, key), n);
    let c = g.code_at(time, key);
    assert forall|i: int| 0 <= i <= n && i != n / 2 implies is_digit(#[trigger] c[i]) by {
        if i < n / 2 {
            assert(c[i] == d[i]);
        } else {
            assert(c[i] == d[i - 1]);
        }
    }
}

/// The numeric code is below `10^length`, whatever the time, key and algorithm.
pub proof fn lemma_value_in_range(g: totp, time: u64, key: Seq<u8>)
    requires
        g.wf(),
    ensures
        g.value_at(time, key) < pow10(g.length as nat),
{
    lemma_pow10_positive(g.length as nat);
}

/// Two times in the same time step give the same code.
pub proof fn lemma_same_window(g: totp, t1: u64, t2: u64, key: Seq<u8>)
    requires
        g.wf(),
        t1 / g.time_step == t2 / g.time_step,
    ensures
        g.value_at(t1, key) == g.value_at(t2, key),
        g.code_at(t1, key) == g.code_at(t2, key),
{
}

/// Generation depends on nothing but its inputs: any two results that `generate`
/// may return for the same generator, time and key are equal.
pub proof fn lemma_deterministic(g: totp, time: u64, key: Seq<u8>, r1: Seq<char>, r2: Seq<char>)
    requires
        g.wf(),
        r1 == g.code_at(time, key),
        r2 == g.code_at(time, key),
    ensures
        r1 == r2,
{
}

/// Every time in the first time step has counter zero, and its code is that of the
/// zero counter, with the usual shape.
pub proof fn lemma_first_window(g: totp, time: u64, key: Seq<u8>)
    requires
        g.wf(),
        time < g.time_step,
    ensures
        counter_of(time, g.time_step) == 0,
        g.value_at(time, key) == hotp_value(g.algorithm, key, 0, g.length as nat),
        g.code_at(time, key).len() == g.length + 1,
{
    assert(time / g.time_step == 0) by (nonlinear_arith)
        requires
            time < g.time_step,
    ;
    lemma_code_shape(g, time, key);
}

} // verus!
