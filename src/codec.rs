//! Shared secrets and their RFC 4648 base32 text form (no padding).
use vstd::prelude::*;
use vstd::string::StrSliceExecFns;

verus! {

/// Whether `c` belongs to the base32 alphabet, in either case.
pub open spec fn is_symbol(c: char) -> bool {
    ('A' <= c && c <= 'Z') || ('a' <= c && c <= 'z') || ('2' <= c && c <= '7')
}

/// The five-bit value of a base32 symbol.
pub open spec fn symbol_value(c: char) -> u8 {
    if 'A' <= c && c <= 'Z' {
        (c as u32 - 65) as u8
    } else if 'a' <= c && c <= 'z' {
        (c as u32 - 97) as u8
    } else {
        (c as u32 - 24) as u8
    }
}

/// The upper-case symbol for a five-bit value.
pub open spec fn symbol_of(v: u8) -> char {
    if v < 26 {
        ((v + 65) as u8) as char
    } else {
        ((v + 24) as u8) as char
    }
}

/// Bit `k` of a byte string, most significant bit first; zero past the end.
pub open spec fn byte_bit(b: Seq<u8>, k: int) -> u8 {
    if 0 <= k < 8 * b.len() {
        (b[k / 8] >> ((7 - k % 8) as u8)) & 1u8
    } else {
        0
    }
}

/// Bit `k` of the bit string that base32 text stands for; zero past the end.
pub open spec fn symbol_bit(s: Seq<char>, k: int) -> u8 {
    if 0 <= k < 5 * s.len() {
        (symbol_value(s[k / 5]) >> ((4 - k % 5) as u8)) & 1u8
    } else {
        0
    }
}

/// The five bits of a byte string that symbol `i` of its encoding carries.
pub open spec fn quintet(b: Seq<u8>, i: int) -> u8 {
    (byte_bit(b, 5 * i) << 4u8) | (byte_bit(b, 5 * i + 1) << 3u8) | (byte_bit(b, 5 * i + 2) << 2u8)
        | (byte_bit(b, 5 * i + 3) << 1u8) | byte_bit(b, 5 * i + 4)
}

/// Byte `j` of what base32 text decodes to.
pub open spec fn octet(s: Seq<char>, j: int) -> u8 {
    (symbol_bit(s, 8 * j) << 7u8) | (symbol_bit(s, 8 * j + 1) << 6u8) | (symbol_bit(s, 8 * j + 2)
        << 5u8) | (symbol_bit(s, 8 * j + 3) << 4u8) | (symbol_bit(s, 8 * j + 4) << 3u8) | (
    symbol_bit(s, 8 * j + 5) << 2u8) | (symbol_bit(s, 8 * j + 6) << 1u8) | symbol_bit(s, 8 * j + 7)
}

/// The unpadded upper-case base32 text of a byte string: one symbol per five bits,
/// the last group filled with zero bits.
pub open spec fn encoded(b: Seq<u8>) -> Seq<char> {
    Seq::new(((8 * b.len() + 4) / 5) as nat, |i: int| symbol_of(quintet(b, i)))
}

/// The bytes that base32 text stands for: every whole eight bits, leftover bits dropped.
pub open spec fn decoded(s: Seq<char>) -> Seq<u8> {
    Seq::new((5 * s.len() / 8) as nat, |j: int| octet(s, j))
}

/// Whether every character of `s` is a base32 symbol.
pub open spec fn all_symbols(s: Seq<char>) -> bool {
    forall|i: int| 0 <= i < s.len() ==> is_symbol(#[trigger] s[i])
}

/// Whether unpadded base32 text may have this many symbols.
pub open spec fn valid_length(n: nat) -> bool {
    let r = n % 8;
    r != 1 && r != 3 && r != 6
}


proof fn lemma_symbol_value_of(v: u8)
    requires
        v < 32,
    ensures
        symbol_value(symbol_of(v)) == v,
        is_symbol(symbol_of(v)),
{
}

proof fn lemma_low_bit(y: u8, sh: u8)
    ensures
        (y >> sh) & 1u8 <= 1,
{
    assert((y >> sh) & 1u8 <= 1) by (bit_vector);
}

proof fn lemma_five_bits(x0: u8, x1: u8, x2: u8, x3: u8, x4: u8)
    requires
        x0 <= 1,
        x1 <= 1,
        x2 <= 1,
        x3 <= 1,
        x4 <= 1,
    ensures
        ({
            let q = (x0 << 4u8) | (x1 << 3u8) | (x2 << 2u8) | (x3 << 1u8) | x4;
            &&& q < 32
            &&& (q >> 4u8) & 1u8 == x0
            &&& (q >> 3u8) & 1u8 == x1
            &&& (q >> 2u8) & 1u8 == x2
            &&& (q >> 1u8) & 1u8 == x3
            &&& (q >> 0u8) & 1u8 == x4
        }),
{
    assert({
        let q = (x0 << 4u8) | (x1 << 3u8) | (x2 << 2u8) | (x3 << 1u8) | x4;
        &&& q < 32
        &&& (q >> 4u8) & 1u8 == x0
        &&& (q >> 3u8) & 1u8 == x1
        &&& (q >> 2u8) & 1u8 == x2
        &&& (q >> 1u8) & 1u8 == x3
        &&& (q >> 0u8) & 1u8 == x4
    }) by (bit_vector)
        requires
            x0 <= 1,
            x1 <= 1,
            x2 <= 1,
            x3 <= 1,
            x4 <= 1,
    ;
}

proof fn lemma_eight_bits(x: u8)
    ensures
        (((x >> 7u8) & 1u8) << 7u8) | (((x >> 6u8) & 1u8) << 6u8) | (((x >> 5u8) & 1u8) << 5u8) | (((x
            >> 4u8) & 1u8) << 4u8) | (((x >> 3u8) & 1u8) << 3u8) | (((x >> 2u8) & 1u8) << 2u8) | (((x
            >> 1u8) & 1u8) << 1u8) | ((x >> 0u8) & 1u8) == x,
{
    assert((((x >> 7u8) & 1u8) << 7u8) | (((x >> 6u8) & 1u8) << 6u8) | (((x >> 5u8) & 1u8) << 5u8)
        | (((x >> 4u8) & 1u8) << 4u8) | (((x >> 3u8) & 1u8) << 3u8) | (((x >> 2u8) & 1u8) << 2u8)
        | (((x >> 1u8) & 1u8) << 1u8) | ((x >> 0u8) & 1u8) == x) by (bit_vector);
}

/// Bit `k` of the encoding of `b` is bit `k` of `b`.
proof fn lemma_encoded_bit(b: Seq<u8>, k: int)
    requires
        0 <= k < 8 * b.len(),
    ensures
        symbol_bit(encoded(b), k) == byte_bit(b, k),
{
    let n = b.len();
    let m = (8 * n + 4) / 5;
    let i = k / 5;
    let r = k % 5;
    assert(5 * m >= 8 * n) by (nonlinear_arith)
        requires
            m == (8 * n + 4) / 5,
    ;
    assert(0 <= i < m);
    let e = encoded(b);
    assert(e.len() == m);
    let x0 = byte_bit(b, 5 * i);
    let x1 = byte_bit(b, 5 * i + 1);
    let x2 = byte_bit(b, 5 * i + 2);
    let x3 = byte_bit(b, 5 * i + 3);
    let x4 = byte_bit(b, 5 * i + 4);
    assert forall|j: int| #![auto] 5 * i <= j < 5 * i + 5 implies byte_bit(b, j) <= 1 by {
        if 0 <= j < 8 * n {
            lemma_low_bit(b[j / 8], (7 - j % 8) as u8);
        }
    }
    lemma_five_bits(x0, x1, x2, x3, x4);
    let q = quintet(b, i);
    assert(e[i] == symbol_of(q));
    lemma_symbol_value_of(q);
    assert(symbol_bit(e, k) == (q >> ((4 - r) as u8)) & 1u8);
    assert(k == 5 * i + r);
}

proof fn lemma_octet_bit(b: Seq<u8>, j: int, t: int)
    requires
        0 <= j < b.len(),
        0 <= t < 8,
    ensures
        symbol_bit(encoded(b), 8 * j + t) == (b[j] >> ((7 - t) as u8)) & 1u8,
{
    assert(8 * j + t < 8 * b.len()) by (nonlinear_arith)
        requires
            j < b.len(),
            t < 8,
    ;
    lemma_encoded_bit(b, 8 * j + t);
    assert((8 * j + t) / 8 == j);
    assert((8 * j + t) % 8 == t);
}

/// Decoding the encoding of any byte string gives that byte string back.
pub proof fn lemma_decode_encode(b: Seq<u8>)
    ensures
        decoded(encoded(b)) == b,
{
    let n = b.len();
    let e = encoded(b);
    let m = (8 * n + 4) / 5;
    assert(5 * m / 8 == n) by (nonlinear_arith)
        requires
            m == (8 * n + 4) / 5,
    ;
    assert forall|j: int| 0 <= j < n implies #[trigger] octet(e, j) == b[j] by {
        lemma_octet_bit(b, j, 0);
        lemma_octet_bit(b, j, 1);
        lemma_octet_bit(b, j, 2);
        lemma_octet_bit(b, j, 3);
        lemma_octet_bit(b, j, 4);
        lemma_octet_bit(b, j, 5);
        lemma_octet_bit(b, j, 6);
        lemma_octet_bit(b, j, 7);
        lemma_eight_bits(b[j]);
    }
    assert(decoded(e) =~= b);
}


/// Encoding any byte string gives base32 text that decodes back to it: the text is
/// made of symbols, has a length that unpadded base32 may have, and its bytes are the
/// original ones. So `decode(&encode(b))` is `Ok` of `b`.
pub proof fn lemma_round_trip(b: Seq<u8>)
    ensures
        all_symbols(encoded(b)),
        valid_length(encoded(b).len()),
        decoded(encoded(b)) == b,
        decode_outcome(encoded(b)) == Ok::<Seq<u8>, DecodeError>(b),
{
    let e = encoded(b);
    assert forall|i: int| 0 <= i < e.len() implies is_symbol(#[trigger] e[i]) by {
        assert forall|j: int| #![auto] 5 * i <= j < 5 * i + 5 implies byte_bit(b, j) <= 1 by {
            if 0 <= j < 8 * b.len() {
                lemma_low_bit(b[j / 8], (7 - j % 8) as u8);
            }
        }
        lemma_five_bits(
            byte_bit(b, 5 * i),
            byte_bit(b, 5 * i + 1),
            byte_bit(b, 5 * i + 2),
            byte_bit(b, 5 * i + 3),
            byte_bit(b, 5 * i + 4),
        );
        lemma_symbol_value_of(quintet(b, i));
    }
    let n = b.len();
    let m = (8 * n + 4) / 5;
    assert(m % 8 != 1 && m % 8 != 3 && m % 8 != 6) by (nonlinear_arith)
        requires
            m == (8 * n + 4) / 5,
    {
        let a = n / 5;
        let r = n % 5;
        assert(n == 5 * a + r);
        assert(8 * n + 4 == 5 * (8 * a) + (8 * r + 4));
        assert(m == 8 * a + (8 * r + 4) / 5);
    }
    lemma_decode_encode(b);
}

/// Why base32 text could not be decoded.
#[derive(Clone, Copy, Debug, PartialEq, Eq, Structural)]
pub enum DecodeError {
    /// A character lies outside the base32 alphabet.
    InvalidCharacter,
    /// No unpadded base32 text has this many symbols.
    InvalidLength,
}

/// What decoding base32 text gives: a bad character is reported before a bad length.
pub open spec fn decode_outcome(s: Seq<char>) -> Result<Seq<u8>, DecodeError> {
    if !all_symbols(s) {
        Err(DecodeError::InvalidCharacter)
    } else if !valid_length(s.len()) {
        Err(DecodeError::InvalidLength)
    } else {
        Ok(decoded(s))
    }
}

/// Relies on `base32::encode` with `Alphabet::RFC4648 { padding: false }`: each five
/// bits, most significant first, become one upper-case symbol, the last group filled
/// with zero bits, and nothing is appended.
#[verifier::external_body]
fn base32_encode(data: &[u8]) -> (r: String)
    ensures
        r@ == encoded(data@),
{
    base32::encode(base32::Alphabet::RFC4648 { padding: false }, data)
}

/// Relies on `base32::decode` with the RFC 4648 alphabet: text made of symbols of
/// either case gives the bytes of its bits, whatever its length.
#[verifier::external_body]
fn base32_decode(text: &str) -> (r: Option<Vec<u8>>)
    ensures
        all_symbols(text@) ==> r is Some && r->Some_0@ == decoded(text@),
{
    base32::decode(base32::Alphabet::RFC4648 { padding: false }, text)
}

fn is_symbol_exec(c: char) -> (r: bool)
    ensures
        r == is_symbol(c),
{
    ('A' <= c && c <= 'Z') || ('a' <= c && c <= 'z') || ('2' <= c && c <= '7')
}

/// Decodes unpadded RFC 4648 base32 text (either case) into bytes.
pub fn decode(text: &str) -> (r: Result<Vec<u8>, DecodeError>)
    ensures
        match r {
            Ok(v) => decode_outcome(text@) == Ok::<Seq<u8>, DecodeError>(v@),
            Err(e) => decode_outcome(text@) == Err::<Seq<u8>, DecodeError>(e),
        },
{
    let n = text.unicode_len();
    let mut i: usize = 0;
    while i < n
        invariant
            i <= n,
            n == text@.len(),
            forall|k: int| 0 <= k < i ==> is_symbol(#[trigger] text@[k]),
        decreases n - i,
    {
        let c = text.get_char(i);
        if !is_symbol_exec(c) {
            return Err(DecodeError::InvalidCharacter);
        }
        i = i + 1;
    }
    let rem = n % 8;
    if rem == 1 || rem == 3 || rem == 6 {
        return Err(DecodeError::InvalidLength);
    }
    match base32_decode(text) {
        Some(v) => Ok(v),
        None => Err(DecodeError::InvalidCharacter),
    }
}

/// Encodes bytes as unpadded upper-case RFC 4648 base32 text.
pub fn encode(bytes: &[u8]) -> (r: String)
    ensures
        r@ == encoded(bytes@),
{
    base32_encode(bytes)
}

/// A shared secret, held either as base32 text or as raw bytes.
pub enum Secret {
    Encoded(String),
    Raw(Vec<u8>),
}

impl Secret {
    /// The secret's bytes; text that is not valid base32 is an error.
    pub fn to_bytes(&self) -> (r: Result<Vec<u8>, DecodeError>)
        ensures
            match self {
                Secret::Raw(v) => r is Ok && r->Ok_0@ == v@,
                Secret::Encoded(s) => match r {
                    Ok(v) => decode_outcome(s@) == Ok::<Seq<u8>, DecodeError>(v@),
                    Err(e) => decode_outcome(s@) == Err::<Seq<u8>, DecodeError>(e),
                },
            },
    {
        match self {
            Secret::Encoded(s) => decode(s.as_str()),
            Secret::Raw(v) => Ok(v.clone()),
        }
    }

    /// The secret as base32 text: text is kept as it was given, bytes are encoded.
    pub fn encode(&self) -> (r: String)
        ensures
            match self {
                Secret::Encoded(s) => r@ == s@,
                Secret::Raw(v) => r@ == encoded(v@),
            },
    {
        match self {
            Secret::Encoded(s) => s.clone(),
            Secret::Raw(v) => encode(v.as_slice()),
        }
    }
}

} // verus!
