//! Base64, and the data URLs in which screenshots arrive.

use crate::text::{
    decimal, decimal_text, law_split_once, law_split_once_undoes_joining, occurs_at, split_once,
    split_once_at, viewed,
};
use vstd::prelude::*;
use vstd::string::StringExecFns;
use vstd::utf8::encode_utf8;

verus! {

/// The bytes that separate digits and stand for nothing: padding and ASCII white
/// space.
pub open spec fn is_filler(c: u8) -> bool {
    c == 0x3d || c == 0x20 || c == 0x09 || c == 0x0a || c == 0x0c || c == 0x0d
}

/// The value of a digit of the standard alphabet: `A` to `Z`, `a` to `z`, `0` to
/// `9`, `+` and `/` stand for the numbers from zero up.
pub open spec fn digit_value(c: u8) -> Option<u8> {
    if 0x41 <= c <= 0x5a {
        Some((c - 0x41) as u8)
    } else if 0x61 <= c <= 0x7a {
        Some((c - 0x61 + 26) as u8)
    } else if 0x30 <= c <= 0x39 {
        Some((c - 0x30 + 52) as u8)
    } else if c == 0x2b {
        Some(62)
    } else if c == 0x2f {
        Some(63)
    } else {
        None
    }
}

/// The bytes of an encoded text that are no filler.
pub open spec fn significant(encoded: Seq<u8>) -> Seq<u8> {
    encoded.filter(|c: u8| !is_filler(c))
}

/// The first byte that is no digit.
pub open spec fn first_non_digit(digits: Seq<u8>) -> Option<u8>
    decreases digits.len(),
{
    if digits.len() == 0 {
        None
    } else {
        match first_non_digit(digits.drop_last()) {
            Some(c) => Some(c),
            None => if digit_value(digits.last()) is None {
                Some(digits.last())
            } else {
                None
            },
        }
    }
}

/// The bytes that digits of six bits make up, the first digit's bits first. Bits
/// at the end that do not fill a byte are left out.
pub open spec fn packed(values: Seq<u8>) -> Seq<u8> {
    Seq::new((values.len() * 6 / 8) as nat, |i: int| packed_byte(values, i))
}

/// The byte at position `i` of `packed`: each group of four digits makes three
/// bytes.
pub open spec fn packed_byte(values: Seq<u8>, i: int) -> u8 {
    let k = 4 * (i / 3);
    if i % 3 == 0 {
        (values[k] * 4 + values[k + 1] / 16) as u8
    } else if i % 3 == 1 {
        ((values[k + 1] % 16) * 16 + values[k + 2] / 4) as u8
    } else {
        ((values[k + 2] % 4) * 64 + values[k + 3]) as u8
    }
}

/// The values of digits.
pub open spec fn digit_values(digits: Seq<u8>) -> Seq<u8> {
    digits.map_values(|c: u8| digit_value(c).unwrap())
}

/// What an encoded text stands for, or its first byte that is neither digit nor
/// filler.
pub open spec fn decoded(encoded: Seq<u8>) -> Result<Seq<u8>, u8> {
    match first_non_digit(significant(encoded)) {
        Some(c) => Err(c),
        None => Ok(packed(digit_values(significant(encoded)))),
    }
}

/// The message for a byte that is neither digit nor filler.
pub open spec fn invalid_byte_message(c: u8) -> Seq<char> {
    "invalid base64 byte: "@ + decimal(c as nat)
}

/// `decoded`, with the message in place of the byte.
pub open spec fn decoded_or_message(encoded: Seq<u8>) -> Result<Seq<u8>, Seq<char>> {
    match decoded(encoded) {
        Ok(bytes) => Ok(bytes),
        Err(c) => Err(invalid_byte_message(c)),
    }
}

fn filler(c: u8) -> (r: bool)
    ensures
        r == is_filler(c),
{
    c == 0x3d || c == 0x20 || c == 0x09 || c == 0x0a || c == 0x0c || c == 0x0d
}

fn val(c: u8) -> (r: Option<u32>)
    ensures
        r is Some == digit_value(c) is Some,
        r is Some ==> r->0 == digit_value(c)->0 && r->0 < 64,
{
    if 0x41 <= c && c <= 0x5a {
        Some((c - 0x41) as u32)
    } else if 0x61 <= c && c <= 0x7a {
        Some((c - 0x61 + 26) as u32)
    } else if 0x30 <= c && c <= 0x39 {
        Some((c - 0x30 + 52) as u32)
    } else if c == 0x2b {
        Some(62)
    } else if c == 0x2f {
        Some(63)
    } else {
        None
    }
}

/// The bits of the digits read so far that have not filled a byte yet are the low
/// bits of `acc`, and there are `bits` of them.
spec fn leftover(values: Seq<u8>, acc: u32, bits: u32) -> bool {
    let n = values.len() as int;
    &&& n % 4 == 0 ==> bits == 0
    &&& n % 4 == 1 ==> bits == 6 && acc % 64 == values[n - 1]
    &&& n % 4 == 2 ==> bits == 4 && acc % 16 == values[n - 1] % 16
    &&& n % 4 == 3 ==> bits == 2 && acc % 4 == values[n - 1] % 4
}

#[verifier::spinoff_prover]
#[verifier::rlimit(40)]
proof fn lemma_next_digit(values: Seq<u8>, acc: u32, bits: u32, v: u32)
    requires
        v < 64,
        leftover(values, acc, bits),
    ensures
        ({
            let next = values.push(v as u8);
            let acc2 = (acc << 6) | v;
            if bits == 0 {
                leftover(next, acc2, 6) && packed(next) == packed(values)
            } else {
                let bits2 = (bits - 2) as u32;
                leftover(next, acc2, bits2) && packed(next) == packed(values).push(
                    (acc2 >> bits2) as u8,
                )
            }
        }),
{
    let next = values.push(v as u8);
    let n = values.len() as int;
    let acc2 = (acc << 6) | v;
    assert(((acc << 6) | v) % 64 == v) by (bit_vector)
        requires
            v < 64,
    ;
    assert(((acc << 6) | v) % 16 == v % 16) by (bit_vector);
    assert(((acc << 6) | v) % 4 == v % 4) by (bit_vector);
    assert(((((acc << 6) | v) >> 4u32) as u8) == (acc % 64) * 4 + v / 16) by (bit_vector)
        requires
            v < 64,
    ;
    assert(((((acc << 6) | v) >> 2u32) as u8) == (acc % 16) * 16 + v / 4) by (bit_vector)
        requires
            v < 64,
    ;
    assert(((((acc << 6) | v) >> 0u32) as u8) == (acc % 4) * 64 + v) by (bit_vector)
        requires
            v < 64,
    ;
    assert forall|i: int| 0 <= i < packed(values).len() implies packed(next)[i] == packed(values)[i] by {
        let k = 4 * (i / 3);
        assert(k + 1 < n);
        assert(i % 3 >= 1 ==> k + 2 < n);
        assert(i % 3 == 2 ==> k + 3 < n);
    }
    if n % 4 == 0 {
        assert(packed(next) =~= packed(values));
    } else {
        assert(packed(next) =~= packed(values).push((acc2 >> (bits - 2) as u32) as u8));
    }
}

/// Decode standard base64 (with optional `=` padding) into raw bytes.
pub fn base64_decode(s: &str) -> (r: Result<Vec<u8>, String>)
    ensures
        viewed(r) == decoded_or_message(encode_utf8(s@)),
{
    let encoded = s.as_bytes();
    let mut out: Vec<u8> = Vec::with_capacity(encoded.len() / 4 * 3);
    let mut acc: u32 = 0;
    let mut bits: u32 = 0;
    let mut i: usize = 0;
    while i < encoded.len()
        invariant
            encoded@ == encode_utf8(s@),
            i <= encoded@.len(),
            first_non_digit(significant(encoded@.take(i as int))) is None,
            leftover(digit_values(significant(encoded@.take(i as int))), acc, bits),
            out@ == packed(digit_values(significant(encoded@.take(i as int)))),
        decreases encoded@.len() - i,
    {
        let c = encoded[i];
        let ghost read = encoded@.take(i as int);
        let ghost next = encoded@.take(i + 1);
        proof {
            assert(next.drop_last() =~= read);
            assert(next.last() == c);
            reveal(Seq::filter);
        }
        i += 1;
        if filler(c) {
            assert(significant(next) == significant(read));
            continue ;
        }
        let ghost digits = significant(next);
        assert(digits =~= significant(read).push(c));
        assert(digits.drop_last() =~= significant(read));
        let v = match val(c) {
            Some(v) => v,
            None => {
                let mut message = "invalid base64 byte: ".to_owned();
                message.append(decimal_text(c as u64).as_str());
                proof {
                    lemma_first_non_digit_stays(encoded@, i as int);
                }
                return Err(message);
            },
        };
        proof {
            assert(digit_values(digits) =~= digit_values(significant(read)).push(v as u8));
            lemma_next_digit(digit_values(significant(read)), acc, bits, v);
        }
        acc = (acc << 6) | v;
        bits += 6;
        if bits >= 8 {
            bits -= 8;
            out.push(#[verifier::truncate] ((acc >> bits) as u8));
        }
    }
    assert(encoded@.take(i as int) =~= encoded@);
    Ok(out)
}

/// A byte that is no digit stays the first one, whatever is read after it.
proof fn lemma_first_non_digit_stays(s: Seq<u8>, i: int)
    requires
        0 <= i <= s.len(),
        first_non_digit(significant(s.take(i))) is Some,
    ensures
        first_non_digit(significant(s)) == first_non_digit(significant(s.take(i))),
    decreases s.len() - i,
{
    if i == s.len() {
        assert(s.take(i) =~= s);
    } else {
        let next = s.take(i + 1);
        assert(next.drop_last() =~= s.take(i));
        reveal(Seq::filter);
        if !is_filler(next.last()) {
            assert(significant(next).drop_last() =~= significant(s.take(i)));
        }
        lemma_first_non_digit_stays(s, i + 1);
    }
}

/// The digit that stands for a number of six bits.
pub open spec fn digit_of(value: u8) -> u8 {
    if value < 26 {
        (value + 0x41) as u8
    } else if value < 52 {
        (value - 26 + 0x61) as u8
    } else if value < 62 {
        (value - 52 + 0x30) as u8
    } else if value == 62 {
        0x2b
    } else {
        0x2f
    }
}

/// The byte at position `i`, and zero past the end.
pub open spec fn byte_or_zero(bytes: Seq<u8>, i: int) -> u8 {
    if 0 <= i < bytes.len() {
        bytes[i]
    } else {
        0
    }
}

/// The number that the digit at position `i` of an encoding stands for: each group
/// of three bytes makes four digits, and zero bits fill the last one.
pub open spec fn encoded_value(bytes: Seq<u8>, i: int) -> u8 {
    let k = 3 * (i / 4);
    if i % 4 == 0 {
        byte_or_zero(bytes, k) / 4
    } else if i % 4 == 1 {
        ((byte_or_zero(bytes, k) % 4) * 16 + byte_or_zero(bytes, k + 1) / 16) as u8
    } else if i % 4 == 2 {
        ((byte_or_zero(bytes, k + 1) % 16) * 4 + byte_or_zero(bytes, k + 2) / 64) as u8
    } else {
        byte_or_zero(bytes, k + 2) % 64
    }
}

/// The standard base64 encoding of some bytes, without padding.
pub open spec fn encoding(bytes: Seq<u8>) -> Seq<u8> {
    Seq::new(
        ((bytes.len() * 8 + 5) / 6) as nat,
        |i: int| digit_of(encoded_value(bytes, i)),
    )
}

/// The padding that fills the last group of four digits of an encoding.
pub open spec fn padding(bytes: Seq<u8>) -> Seq<u8> {
    Seq::new(((4 - encoding(bytes).len() % 4) % 4) as nat, |i: int| 0x3du8)
}

/// Filler may stand anywhere in an encoded text and changes nothing.
pub proof fn law_filler_is_ignored(before: Seq<u8>, filler: Seq<u8>, after: Seq<u8>)
    requires
        forall|i: int| 0 <= i < filler.len() ==> is_filler(#[trigger] filler[i]),
    ensures
        decoded(before + filler + after) == decoded(before + after),
        decoded_or_message(before + filler + after) == decoded_or_message(before + after),
{
    let keep = |c: u8| !is_filler(c);
    lemma_only_filler(filler);
    Seq::filter_distributes_over_add(before + filler, after, keep);
    Seq::filter_distributes_over_add(before, filler, keep);
    Seq::filter_distributes_over_add(before, after, keep);
    assert(significant(before) + Seq::<u8>::empty() =~= significant(before));
}

proof fn lemma_only_filler(filler: Seq<u8>)
    requires
        forall|i: int| 0 <= i < filler.len() ==> is_filler(#[trigger] filler[i]),
    ensures
        significant(filler) == Seq::<u8>::empty(),
    decreases filler.len(),
{
    reveal(Seq::filter);
    if filler.len() > 0 {
        lemma_only_filler(filler.drop_last());
    }
}

/// A digit is no filler, and stands for the number that it was made from.
proof fn lemma_digit_of(value: u8)
    requires
        value < 64,
    ensures
        !is_filler(digit_of(value)),
        digit_value(digit_of(value)) == Some(value),
{
}

proof fn lemma_all_digits(digits: Seq<u8>)
    requires
        forall|i: int|
            0 <= i < digits.len() ==> !is_filler(#[trigger] digits[i]) && digit_value(
                digits[i],
            ) is Some,
    ensures
        significant(digits) == digits,
        first_non_digit(digits) is None,
    decreases digits.len(),
{
    reveal(Seq::filter);
    if digits.len() > 0 {
        lemma_all_digits(digits.drop_last());
        assert(significant(digits) =~= digits);
    } else {
        assert(significant(digits) =~= digits);
    }
}

/// Three bytes come back from the four numbers that are made of them.
proof fn lemma_group(b0: u8, b1: u8, b2: u8)
    ensures
        (b0 / 4) * 4 + ((b0 % 4) * 16 + b1 / 16) / 16 == b0,
        (((b0 % 4) * 16 + b1 / 16) % 16) * 16 + ((b1 % 16) * 4 + b2 / 64) / 4 == b1,
        (((b1 % 16) * 4 + b2 / 64) % 4) * 64 + b2 % 64 == b2,
{
}

proof fn lemma_packed_encoding(bytes: Seq<u8>, values: Seq<u8>, i: int)
    requires
        values == Seq::new(
            ((bytes.len() * 8 + 5) / 6) as nat,
            |j: int| encoded_value(bytes, j),
        ),
        0 <= i < bytes.len(),
    ensures
        packed_byte(values, i) == bytes[i],
{
    let q = i / 3;
    let k = 4 * q;
    let b = 3 * q;
    assert(k + 1 < values.len());
    lemma_group(byte_or_zero(bytes, b), byte_or_zero(bytes, b + 1), byte_or_zero(bytes, b + 2));
    assert(k / 4 == q && k % 4 == 0);
    assert((k + 1) / 4 == q && (k + 1) % 4 == 1);
    assert((k + 2) / 4 == q && (k + 2) % 4 == 2);
    assert((k + 3) / 4 == q && (k + 3) % 4 == 3);
    if i % 3 == 0 {
        assert(i == b);
        assert(values[k] == encoded_value(bytes, k));
        assert(values[k + 1] == encoded_value(bytes, k + 1));
    } else if i % 3 == 1 {
        assert(i == b + 1);
        assert(values[k + 1] == encoded_value(bytes, k + 1));
        assert(values[k + 2] == encoded_value(bytes, k + 2));
    } else {
        assert(i == b + 2);
        assert(values[k + 2] == encoded_value(bytes, k + 2));
        assert(values[k + 3] == encoded_value(bytes, k + 3));
    }
}

/// Decoding undoes standard base64 encoding, without padding and with it.
pub proof fn law_decoding_undoes_encoding(bytes: Seq<u8>)
    ensures
        decoded(encoding(bytes)) == Ok::<Seq<u8>, u8>(bytes),
        decoded(encoding(bytes) + padding(bytes)) == Ok::<Seq<u8>, u8>(bytes),
        decoded_or_message(encoding(bytes)) == Ok::<Seq<u8>, Seq<char>>(bytes),
        decoded_or_message(encoding(bytes) + padding(bytes)) == Ok::<Seq<u8>, Seq<char>>(bytes),
{
    let digits = encoding(bytes);
    let values = Seq::new(digits.len(), |i: int| encoded_value(bytes, i));
    assert forall|i: int| 0 <= i < digits.len() implies !is_filler(#[trigger] digits[i])
        && digit_value(digits[i]) == Some(values[i]) by {
        assert(encoded_value(bytes, i) < 64);
        lemma_digit_of(encoded_value(bytes, i));
    }
    lemma_all_digits(digits);
    assert(digit_values(digits) =~= values);
    assert forall|i: int| 0 <= i < bytes.len() implies packed_byte(values, i) == bytes[i] by {
        lemma_packed_encoding(bytes, values, i);
    }
    assert(packed(values) =~= bytes);
    law_filler_is_ignored(digits, padding(bytes), Seq::empty());
    assert(digits + padding(bytes) + Seq::<u8>::empty() =~= digits + padding(bytes));
    assert(digits + Seq::<u8>::empty() =~= digits);
}

/// What a data URL carries: what follows its first `;base64,`, decoded.
pub open spec fn data_url_content(url: Seq<char>) -> Result<Seq<u8>, Seq<char>> {
    match split_once_at(url, ";base64,"@) {
        Some((_, payload)) => decoded_or_message(encode_utf8(payload)),
        None => Err("host returned a non-base64 data URL"@),
    }
}

/// A data URL carries the bytes whose encoding is its payload, with padding or
/// without, unless `;base64,` occurs earlier.
pub proof fn law_data_url_carries_bytes(before: Seq<char>, payload: Seq<char>, bytes: Seq<u8>)
    requires
        forall|i: int|
            0 <= i < before.len() ==> !occurs_at(before + ";base64,"@, ";base64,"@, i),
        encode_utf8(payload) == encoding(bytes) || encode_utf8(payload) == encoding(bytes)
            + padding(bytes),
    ensures
        data_url_content(before + ";base64,"@ + payload) == Ok::<Seq<u8>, Seq<char>>(bytes),
{
    law_split_once_undoes_joining(before, ";base64,"@, payload);
    law_decoding_undoes_encoding(bytes);
}

/// Pull the raw bytes out of a `data:...;base64,<payload>` URL.
pub fn data_url_bytes(data_url: &str) -> (r: Result<Vec<u8>, String>)
    ensures
        viewed(r) == data_url_content(data_url@),
{
    match split_once(data_url, ";base64,") {
        Some((_, payload)) => base64_decode(payload),
        None => Err("host returned a non-base64 data URL".to_owned()),
    }
}

/// The digits of base64, in the order of the numbers that they stand for.
pub open spec fn alphabet() -> Seq<char> {
    "ABCDEFGHIJKLMNOPQRSTUVWXYZabcdefghijklmnopqrstuvwxyz0123456789+/"@
}

/// The digit at each place in the alphabet stands for its place, and no other byte is a
/// digit.
pub proof fn law_alphabet(i: int, c: u8)
    ensures
        alphabet().len() == 64,
        0 <= i < 64 ==> digit_value(alphabet()[i] as u8) == Some(i as u8),
        digit_value(c) matches Some(v) ==> v < 64 && alphabet()[v as int] as u8 == c,
{
    reveal_strlit("ABCDEFGHIJKLMNOPQRSTUVWXYZabcdefghijklmnopqrstuvwxyz0123456789+/");
    let v = digit_value(c);
    if v is Some {
        lemma_alphabet(v->0 as int);
    }
    if 0 <= i < 64 {
        lemma_alphabet(i);
    }
}

proof fn lemma_alphabet(i: int)
    requires
        0 <= i < 64,
    ensures
        i < 26 ==> alphabet()[i] as int == 0x41 + i,
        26 <= i < 52 ==> alphabet()[i] as int == 0x61 + i - 26,
        52 <= i < 62 ==> alphabet()[i] as int == 0x30 + i - 52,
        i == 62 ==> alphabet()[i] as int == 0x2b,
        i == 63 ==> alphabet()[i] as int == 0x2f,
{
    reveal_strlit("ABCDEFGHIJKLMNOPQRSTUVWXYZabcdefghijklmnopqrstuvwxyz0123456789+/");
}

/// Padding and ASCII white space are filler, and nothing else is.
pub proof fn law_filler(c: u8)
    ensures
        is_filler(c) <==> seq!['=', ' ', '\t', '\n', '\u{c}', '\r'].contains(c as char),
{
    let all = seq!['=', ' ', '\t', '\n', '\u{c}', '\r'];
    assert(all[0] == '=' && all[1] == ' ' && all[2] == '\t' && all[3] == '\n' && all[4] == '\u{c}'
        && all[5] == '\r');
    if is_filler(c) {
        assert(exists|i: int| 0 <= i < all.len() && all[i] == c as char);
    }
}

/// Digits are a number in base 64, the highest first, and bytes are the same number in
/// base 256, as far as it fills them.
pub proof fn law_digits_make_bytes(a: int, b: int, c: int, d: int)
    requires
        0 <= a < 64,
        0 <= b < 64,
        0 <= c < 64,
        0 <= d < 64,
    ensures
        ({
            let digit = |v: int| alphabet()[v] as u8;
            let two = (a * 64 + b) / 16;
            let three = (a * 4096 + b * 64 + c) / 4;
            let four = a * 262144 + b * 4096 + c * 64 + d;
            &&& decoded_or_message(seq![digit(a)]) == Ok::<Seq<u8>, Seq<char>>(Seq::empty())
            &&& decoded_or_message(seq![digit(a), digit(b)]) == Ok::<Seq<u8>, Seq<char>>(
                seq![two as u8],
            )
            &&& decoded_or_message(seq![digit(a), digit(b), digit(c)]) == Ok::<
                Seq<u8>,
                Seq<char>,
            >(seq![(three / 256) as u8, (three % 256) as u8])
            &&& decoded_or_message(seq![digit(a), digit(b), digit(c), digit(d)]) == Ok::<
                Seq<u8>,
                Seq<char>,
            >(seq![(four / 65536) as u8, (four / 256 % 256) as u8, (four % 256) as u8])
        }),
{
    let digit = |v: int| alphabet()[v] as u8;
    law_alphabet(a, 0);
    law_alphabet(b, 0);
    law_alphabet(c, 0);
    law_alphabet(d, 0);
    let one = seq![digit(a)];
    let two = seq![digit(a), digit(b)];
    let three = seq![digit(a), digit(b), digit(c)];
    let four = seq![digit(a), digit(b), digit(c), digit(d)];
    lemma_all_digits(one);
    lemma_all_digits(two);
    lemma_all_digits(three);
    lemma_all_digits(four);
    assert(digit_values(one) =~= seq![a as u8]);
    assert(digit_values(two) =~= seq![a as u8, b as u8]);
    assert(digit_values(three) =~= seq![a as u8, b as u8, c as u8]);
    assert(digit_values(four) =~= seq![a as u8, b as u8, c as u8, d as u8]);
    assert(packed(digit_values(one)) =~= Seq::empty());
    assert(packed(digit_values(two)) =~= seq![((a * 64 + b) / 16) as u8]);
    let n = (a * 4096 + b * 64 + c) / 4;
    assert(n / 256 == a * 4 + b / 16 && n % 256 == (b % 16) * 16 + c / 4);
    assert(packed(digit_values(three)) =~= seq![(n / 256) as u8, (n % 256) as u8]);
    let m = a * 262144 + b * 4096 + c * 64 + d;
    assert(m / 65536 == a * 4 + b / 16);
    assert(m / 256 % 256 == (b % 16) * 16 + c / 4);
    assert(m % 256 == (c % 4) * 64 + d);
    assert(packed(digit_values(four)) =~= seq![
        (m / 65536) as u8,
        (m / 256 % 256) as u8,
        (m % 256) as u8,
    ]);
}

/// Whole groups of four digits are decoded on their own, whatever follows them and
/// however much it is.
pub proof fn law_groups_are_decoded_apart(groups: Seq<u8>, rest: Seq<u8>)
    requires
        groups.len() % 4 == 0,
        forall|i: int| 0 <= i < groups.len() ==> digit_value(#[trigger] groups[i]) is Some,
    ensures
        decoded_or_message(groups) is Ok,
        decoded_or_message(groups + rest) == match decoded_or_message(rest) {
            Ok(bytes) => Ok(decoded_or_message(groups)->Ok_0 + bytes),
            Err(message) => Err(message),
        },
{
    assert forall|i: int| 0 <= i < groups.len() implies !is_filler(#[trigger] groups[i]) by {
        assert(digit_value(groups[i]) is Some);
    }
    lemma_all_digits(groups);
    let keep = |c: u8| !is_filler(c);
    Seq::filter_distributes_over_add(groups, rest, keep);
    let tail = significant(rest);
    assert(significant(groups + rest) == groups + tail);
    lemma_first_non_digit_follows(groups, tail);
    if first_non_digit(tail) is None {
        let v = digit_values(groups);
        let w = digit_values(tail);
        assert(digit_values(groups + tail) =~= v + w);
        assert(packed(v + w) =~= packed(v) + packed(w)) by {
            let n = packed(v).len() as int;
            assert(n == v.len() / 4 * 3);
            assert((v + w).len() * 6 / 8 == n + w.len() * 6 / 8);
            assert forall|i: int| 0 <= i < packed(v + w).len() implies packed_byte(v + w, i) == (
            packed(v) + packed(w))[i] by {
                if i < n {
                    let k = 4 * (i / 3);
                    assert(k + 3 < v.len());
                } else {
                    let j = i - n;
                    let k = 4 * (j / 3);
                    assert(i / 3 == v.len() / 4 + j / 3 && i % 3 == j % 3);
                    assert(4 * (i / 3) == v.len() + k);
                    assert((v + w)[v.len() + k] == w[k]);
                    assert((v + w)[v.len() + k + 1] == w[k + 1]);
                    assert(j % 3 >= 1 ==> (v + w)[v.len() + k + 2] == w[k + 2]);
                    assert(j % 3 == 2 ==> (v + w)[v.len() + k + 3] == w[k + 3]);
                }
            }
        }
    }
}

proof fn lemma_first_non_digit_follows(digits: Seq<u8>, rest: Seq<u8>)
    requires
        first_non_digit(digits) is None,
    ensures
        first_non_digit(digits + rest) == first_non_digit(rest),
    decreases rest.len(),
{
    if rest.len() == 0 {
        assert(digits + rest =~= digits);
    } else {
        assert((digits + rest).drop_last() =~= digits + rest.drop_last());
        lemma_first_non_digit_follows(digits, rest.drop_last());
    }
}

/// The first byte that is neither digit nor filler is told by its number, whatever
/// stands around it.
pub proof fn law_first_invalid_byte_is_told(before: Seq<u8>, c: u8, after: Seq<u8>)
    requires
        forall|i: int|
            0 <= i < before.len() ==> digit_value(#[trigger] before[i]) is Some || is_filler(
                before[i],
            ),
        digit_value(c) is None,
        !is_filler(c),
    ensures
        decoded_or_message(before + seq![c] + after) == Err::<Seq<u8>, Seq<char>>(
            "invalid base64 byte: "@ + decimal(c as nat),
        ),
{
    let all = before + seq![c] + after;
    let i = before.len() + 1;
    let read = all.take(i as int);
    assert(read =~= before.push(c));
    assert(read.drop_last() =~= before);
    lemma_digits_and_filler(before);
    reveal(Seq::filter);
    assert(significant(read) =~= significant(before).push(c));
    assert(significant(read).drop_last() =~= significant(before));
    lemma_first_non_digit_stays(all, i as int);
}

proof fn lemma_digits_and_filler(s: Seq<u8>)
    requires
        forall|i: int|
            0 <= i < s.len() ==> digit_value(#[trigger] s[i]) is Some || is_filler(s[i]),
    ensures
        first_non_digit(significant(s)) is None,
    decreases s.len(),
{
    reveal(Seq::filter);
    if s.len() > 0 {
        lemma_digits_and_filler(s.drop_last());
        assert(digit_value(s[s.len() - 1]) is Some || is_filler(s[s.len() - 1]));
        if !is_filler(s.last()) {
            assert(significant(s).drop_last() =~= significant(s.drop_last()));
        }
    }
}

/// The payload of a data URL is what follows the first `;base64,`, all of it.
pub proof fn law_payload_is_the_rest(before: Seq<char>, payload: Seq<char>)
    requires
        forall|i: int|
            0 <= i < before.len() ==> #[trigger] (before + ";base64,"@).subrange(i, i + 8)
                != ";base64,"@,
    ensures
        data_url_content(before + ";base64,"@ + payload) == decoded_or_message(
            encode_utf8(payload),
        ),
{
    reveal_strlit(";base64,");
    assert forall|i: int| 0 <= i < before.len() implies !occurs_at(
        before + ";base64,"@,
        ";base64,"@,
        i,
    ) by {
        assert((before + ";base64,"@).subrange(i, i + 8) != ";base64,"@);
    }
    law_split_once_undoes_joining(before, ";base64,"@, payload);
}

/// A URL without `;base64,` is refused.
pub proof fn law_data_urls_have_a_marker(url: Seq<char>)
    requires
        forall|i: int| 0 <= i <= url.len() - 8 ==> #[trigger] url.subrange(i, i + 8) != ";base64,"@,
    ensures
        data_url_content(url) == Err::<Seq<u8>, Seq<char>>("host returned a non-base64 data URL"@),
{
    reveal_strlit(";base64,");
    law_split_once(url, ";base64,"@);
    if let Some((before, after)) = split_once_at(url, ";base64,"@) {
        let i = before.len() as int;
        assert(url.subrange(i, i + 8) =~= ";base64,"@);
    }
}

} // verus!
