//! Standard Base64: what it is, and the calls that write and read it.

use vstd::prelude::*;

verus! {

/// The Base64 symbol for a value below 64.
pub open spec fn base64_symbol(value: int) -> char {
    if value < 26 {
        (65 + value) as char
    } else if value < 52 {
        (97 + value - 26) as char
    } else if value < 62 {
        (48 + value - 52) as char
    } else if value == 62 {
        '+'
    } else {
        '/'
    }
}

/// The symbols for one group of three bytes.
pub open spec fn base64_group(a: u8, b: u8, c: u8) -> Seq<char> {
    seq![
        base64_symbol(a as int / 4),
        base64_symbol(a as int % 4 * 16 + b as int / 16),
        base64_symbol(b as int % 16 * 4 + c as int / 64),
        base64_symbol(c as int % 64),
    ]
}

/// `data` in Base64 with the standard alphabet and padding: four symbols for every three bytes,
/// and a last group of one or two bytes filled up with zero bits and `=` signs.
pub open spec fn base64_text(data: Seq<u8>) -> Seq<char>
    decreases data.len(),
{
    if data.len() == 0 {
        Seq::empty()
    } else if data.len() == 1 {
        base64_group(data[0], 0, 0).take(2) + seq!['=', '=']
    } else if data.len() == 2 {
        base64_group(data[0], data[1], 0).take(3) + seq!['=']
    } else {
        base64_group(data[0], data[1], data[2]) + base64_text(data.skip(3))
    }
}

/// The number of symbols for `n` bytes.
pub open spec fn base64_len(n: nat) -> nat {
    (n + 2) / 3 * 4
}

/// Base64 text has the length that `base64_len` says.
pub proof fn lemma_base64_len(data: Seq<u8>)
    ensures
        base64_text(data).len() == base64_len(data.len()),
    decreases data.len(),
{
    if data.len() >= 3 {
        lemma_base64_len(data.skip(3));
    }
}

proof fn lemma_symbol_injective(v: int, w: int)
    requires
        0 <= v < 64,
        0 <= w < 64,
        base64_symbol(v) == base64_symbol(w),
    ensures
        v == w,
{
    assert(base64_symbol(v) as int == base64_symbol(w) as int);
}

proof fn lemma_group_injective(a: u8, b: u8, c: u8, x: u8, y: u8, z: u8)
    requires
        base64_group(a, b, c) == base64_group(x, y, z),
    ensures
        a == x,
        b == y,
        c == z,
{
    let left = base64_group(a, b, c);
    let right = base64_group(x, y, z);
    assert(left[0] == right[0] && left[1] == right[1] && left[2] == right[2] && left[3]
        == right[3]);
    lemma_symbol_injective(a as int / 4, x as int / 4);
    lemma_symbol_injective(a as int % 4 * 16 + b as int / 16, x as int % 4 * 16 + y as int / 16);
    lemma_symbol_injective(b as int % 16 * 4 + c as int / 64, y as int % 16 * 4 + z as int / 64);
    lemma_symbol_injective(c as int % 64, z as int % 64);
}

proof fn lemma_symbol_is_not_padding(v: int)
    requires
        0 <= v < 64,
    ensures
        base64_symbol(v) != '=',
{
}

/// Different data has different Base64 text.
pub proof fn lemma_base64_injective(x: Seq<u8>, y: Seq<u8>)
    requires
        base64_text(x) == base64_text(y),
    ensures
        x == y,
    decreases x.len(),
{
    lemma_base64_len(x);
    lemma_base64_len(y);
    let tx = base64_text(x);
    let ty = base64_text(y);
    if x.len() == 0 {
        assert(y =~= x);
    } else {
        assert(tx[0] == ty[0] && tx[1] == ty[1] && tx[2] == ty[2] && tx[3] == ty[3]);
        if x.len() >= 2 {
            lemma_symbol_is_not_padding(
                x[1] as int % 16 * 4 + (if x.len() == 2 { 0 } else { x[2] as int / 64 }),
            );
        }
        if y.len() >= 2 {
            lemma_symbol_is_not_padding(
                y[1] as int % 16 * 4 + (if y.len() == 2 { 0 } else { y[2] as int / 64 }),
            );
        }
        if x.len() >= 3 {
            lemma_symbol_is_not_padding(x[2] as int % 64);
        }
        if y.len() >= 3 {
            lemma_symbol_is_not_padding(y[2] as int % 64);
        }
        let at = |s: Seq<u8>, i: int| if i < s.len() { s[i] } else { 0u8 };
        assert(x.len() >= 2 <==> y.len() >= 2);
        assert(x.len() >= 3 <==> y.len() >= 3);
        let gx = base64_group(at(x, 0), at(x, 1), at(x, 2));
        let gy = base64_group(at(y, 0), at(y, 1), at(y, 2));
        assert(gx =~= gy);
        lemma_group_injective(at(x, 0), at(x, 1), at(x, 2), at(y, 0), at(y, 1), at(y, 2));
        if x.len() >= 3 {
            assert(tx.skip(4) =~= base64_text(x.skip(3)));
            assert(ty.skip(4) =~= base64_text(y.skip(3)));
            lemma_base64_injective(x.skip(3), y.skip(3));
            assert(x =~= seq![x[0], x[1], x[2]] + x.skip(3));
            assert(y =~= seq![y[0], y[1], y[2]] + y.skip(3));
        } else {
            assert(x =~= y);
        }
    }
}

/// What a text decodes to: the data that it is the Base64 of, if it is the Base64 of anything.
pub open spec fn base64_data(text: Seq<char>) -> Option<Seq<u8>> {
    if exists|data: Seq<u8>| base64_text(data) == text {
        Some(choose|data: Seq<u8>| base64_text(data) == text)
    } else {
        None
    }
}

/// Decoding gives back what was encoded.
pub proof fn lemma_base64_round_trip(data: Seq<u8>)
    ensures
        base64_data(base64_text(data)) == Some(data),
{
    let text = base64_text(data);
    assert(base64_text(data) == text);
    let found = choose|d: Seq<u8>| base64_text(d) == text;
    lemma_base64_injective(found, data);
}

#[verifier::external_type_specification]
#[verifier::external_body]
pub struct ExDecodeError(base64::DecodeError);

/// `base64::Engine::encode` of the engine `STANDARD` writes its input in Base64 with the standard
/// alphabet and padding. It panics where the length of the text cannot be allocated.
#[verifier::external_body]
fn standard_encode(data: &[u8]) -> (text: String)
    requires
        base64_len(data@.len()) <= isize::MAX,
    ensures
        text@ == base64_text(data@),
{
    base64::Engine::encode(&base64::engine::general_purpose::STANDARD, data)
}

/// `base64::Engine::decode` of the engine `STANDARD` accepts exactly the texts that its `encode`
/// writes: padding must be complete and the unused bits of the last symbol zero. It returns the
/// data that the text is the Base64 of.
#[verifier::external_body]
fn standard_decode(text: &str) -> (data: Result<Vec<u8>, base64::DecodeError>)
    ensures
        match data {
            Ok(bytes) => base64_text(bytes@) == text@,
            Err(_) => forall|bytes: Seq<u8>| base64_text(bytes) != text@,
        },
{
    base64::Engine::decode(&base64::engine::general_purpose::STANDARD, text)
}

/// Writes `data` in Base64.
pub fn to_base64(data: &[u8]) -> (text: String)
    requires
        base64_len(data@.len()) <= isize::MAX,
    ensures
        text@ == base64_text(data@),
        base64_data(text@) == Some(data@),
{
    proof {
        lemma_base64_round_trip(data@);
    }
    standard_encode(data)
}

/// Reads Base64.
pub fn from_base64(text: &str) -> (data: Option<Vec<u8>>)
    ensures
        match data {
            Some(bytes) => base64_data(text@) == Some(bytes@),
            None => base64_data(text@) is None,
        },
{
    match standard_decode(text) {
        Ok(bytes) => {
            proof {
                lemma_base64_round_trip(bytes@);
            }
            Some(bytes)
        },
        Err(_) => None,
    }
}

} // verus!
