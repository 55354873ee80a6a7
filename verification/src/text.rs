//! Text: comparison, trimming, decimal numbers.

use vstd::prelude::*;
use vstd::string::{StrSliceExecFns, StringExecFns};
use vstd::utf8::encode_utf8_decode_utf8;

verus! {

/// The characters of each of some strings.
pub open spec fn views(strings: Seq<String>) -> Seq<Seq<char>> {
    strings.map_values(|s: String| s@)
}

/// The characters of a string that may be missing.
pub open spec fn optional(s: Option<String>) -> Option<Seq<char>> {
    match s {
        Some(s) => Some(s@),
        None => None,
    }
}

/// One string behind another.
pub fn concatenated(a: &str, b: &str) -> (r: String)
    ensures
        r@ == a@ + b@,
{
    let mut r = a.to_owned();
    r.append(b);
    r
}

/// A result by the views of what it holds.
pub open spec fn viewed<T: View>(r: Result<T, String>) -> Result<T::V, Seq<char>> {
    match r {
        Ok(value) => Ok(value@),
        Err(message) => Err(message@),
    }
}

/// The characters of a string, one by one.
fn chars_of(s: &str) -> (out: Vec<char>)
    ensures
        out@ == s@,
{
    let mut rest = s.chars();
    let mut out: Vec<char> = Vec::new();
    let ghost mut left = s@;
    loop
        invariant
            vstd::std_specs::iter::IteratorSpec::remaining(&rest) == left,
            out@ + left == s@,
        ensures
            out@ == s@,
        decreases left.len(),
    {
        match rest.next() {
            Some(c) => {
                out.push(c);
                proof {
                    left = left.drop_first();
                }
            },
            None => {
                break;
            },
        }
    }
    out
}

/// Whether two strings hold the same characters.
pub fn same(a: &str, b: &str) -> (r: bool)
    ensures
        r == (a@ == b@),
{
    let x = a.as_bytes();
    let y = b.as_bytes();
    proof {
        encode_utf8_decode_utf8(a@);
        encode_utf8_decode_utf8(b@);
    }
    if x.len() != y.len() {
        return false;
    }
    let mut i: usize = 0;
    while i < x.len()
        invariant
            x@ == vstd::utf8::encode_utf8(a@),
            y@ == vstd::utf8::encode_utf8(b@),
            x@.len() == y@.len(),
            i <= x@.len(),
            forall|j: int| 0 <= j < i ==> x@[j] == y@[j],
        ensures
            i == x@.len(),
        decreases x@.len() - i,
    {
        if x[i] != y[i] {
            return false;
        }
        i += 1;
    }
    assert(x@ =~= y@);
    true
}

/// Whether a string begins with a prefix.
pub fn starts_with(s: &str, prefix: &str) -> (r: bool)
    ensures
        r == prefix@.is_prefix_of(s@),
{
    let text = chars_of(s);
    let wanted = chars_of(prefix);
    if wanted.len() > text.len() {
        return false;
    }
    let mut i: usize = 0;
    while i < wanted.len()
        invariant
            text@ == s@,
            wanted@ == prefix@,
            i <= wanted@.len() <= text@.len(),
            forall|j: int| 0 <= j < i ==> text@[j] == wanted@[j],
        decreases wanted@.len() - i,
    {
        if text[i] != wanted[i] {
            assert(s@.subrange(0, wanted@.len() as int)[i as int] != wanted@[i as int]);
            return false;
        }
        i += 1;
    }
    assert(prefix@ =~= s@.subrange(0, prefix@.len() as int));
    true
}

/// The characters that Unicode counts as white space.
pub open spec fn is_white_space(c: char) -> bool {
    let n = c as u32;
    ||| 0x09 <= n <= 0x0d
    ||| n == 0x20
    ||| n == 0x85
    ||| n == 0xa0
    ||| n == 0x1680
    ||| 0x2000 <= n <= 0x200a
    ||| n == 0x2028
    ||| n == 0x2029
    ||| n == 0x202f
    ||| n == 0x205f
    ||| n == 0x3000
}

/// Whether Unicode counts a character as white space.
pub fn white_space(c: char) -> (r: bool)
    ensures
        r == is_white_space(c),
{
    let n = c as u32;
    (0x09 <= n && n <= 0x0d) || n == 0x20 || n == 0x85 || n == 0xa0 || n == 0x1680 || (0x2000 <= n
        && n <= 0x200a) || n == 0x2028 || n == 0x2029 || n == 0x202f || n == 0x205f || n == 0x3000
}

/// Text without white space at its start.
pub open spec fn trimmed_start(text: Seq<char>) -> Seq<char>
    decreases text.len(),
{
    if text.len() > 0 && is_white_space(text.first()) {
        trimmed_start(text.drop_first())
    } else {
        text
    }
}

/// Text without white space at its end.
pub open spec fn trimmed_end(text: Seq<char>) -> Seq<char>
    decreases text.len(),
{
    if text.len() > 0 && is_white_space(text.last()) {
        trimmed_end(text.drop_last())
    } else {
        text
    }
}

/// Text without white space at either end.
pub open spec fn trimmed(text: Seq<char>) -> Seq<char> {
    trimmed_end(trimmed_start(text))
}

/// Leave white space out at both ends of a string.
pub fn trim(s: &str) -> (r: &str)
    ensures
        r@ == trimmed(s@),
{
    let text = chars_of(s);
    let mut from: usize = 0;
    assert(s@.skip(0) =~= s@);
    while from < text.len() && white_space(text[from])
        invariant
            text@ == s@,
            from <= text@.len(),
            trimmed_start(s@.skip(from as int)) == trimmed_start(s@),
        decreases text@.len() - from,
    {
        assert(s@.skip(from as int).drop_first() =~= s@.skip(from + 1));
        from += 1;
    }
    let mut to: usize = text.len();
    let ghost rest = s@.skip(from as int);
    assert(s@.subrange(from as int, to as int) =~= rest);
    while to > from && white_space(text[to - 1])
        invariant
            text@ == s@,
            from <= to <= text@.len(),
            trimmed_end(s@.subrange(from as int, to as int)) == trimmed_end(rest),
        decreases to,
    {
        assert(s@.subrange(from as int, to as int).drop_last() =~= s@.subrange(
            from as int,
            to - 1,
        ));
        to -= 1;
    }
    s.substring_char(from, to)
}

/// Text that neither begins nor ends with white space comes back when a line end
/// that was put behind it is trimmed.
pub proof fn lemma_trimmed_line(text: Seq<char>)
    requires
        text.len() > 0,
        !is_white_space(text.first()),
        !is_white_space(text.last()),
    ensures
        trimmed(text + "\n"@) == text,
{
    reveal_strlit("\n");
    let line = text + "\n"@;
    assert(line.first() == text.first());
    assert(line.drop_last() =~= text);
    reveal_with_fuel(trimmed_end, 2);
}

/// `pattern` stands in `text` at position `i`.
pub open spec fn occurs_at(text: Seq<char>, pattern: Seq<char>, i: int) -> bool {
    0 <= i && i + pattern.len() <= text.len() && text.subrange(i, i + pattern.len()) == pattern
}

/// What stands before and after the first occurrence of `pattern` from position
/// `from` on.
pub open spec fn split_from(text: Seq<char>, pattern: Seq<char>, from: int) -> Option<
    (Seq<char>, Seq<char>),
>
    decreases text.len() + 1 - from,
{
    if from + pattern.len() > text.len() {
        None
    } else if occurs_at(text, pattern, from) {
        Some((text.take(from), text.skip(from + pattern.len())))
    } else {
        split_from(text, pattern, from + 1)
    }
}

/// What stands before and after the first occurrence of `pattern`.
pub open spec fn split_once_at(text: Seq<char>, pattern: Seq<char>) -> Option<
    (Seq<char>, Seq<char>),
> {
    split_from(text, pattern, 0)
}

/// Split a string around the first occurrence of a pattern.
pub fn split_once<'a>(s: &'a str, pattern: &str) -> (r: Option<(&'a str, &'a str)>)
    ensures
        match r {
            Some((before, after)) => split_once_at(s@, pattern@) == Some((before@, after@)),
            None => split_once_at(s@, pattern@) is None,
        },
{
    let text = chars_of(s);
    let wanted = chars_of(pattern);
    let mut i: usize = 0;
    while i <= text.len() && wanted.len() <= text.len() - i
        invariant
            text@ == s@,
            wanted@ == pattern@,
            i <= text@.len() + 1,
            i > text@.len() ==> split_once_at(s@, pattern@) is None,
            i <= text@.len() ==> split_once_at(s@, pattern@) == split_from(
                s@,
                pattern@,
                i as int,
            ),
        decreases text@.len() + 1 - i,
    {
        let mut j: usize = 0;
        while j < wanted.len() && text[i + j] == wanted[j]
            invariant
                j <= wanted@.len(),
                i + wanted.len() <= text.len(),
                forall|k: int| 0 <= k < j ==> text@[i + k] == wanted@[k],
            decreases wanted@.len() - j,
        {
            j += 1;
        }
        if j == wanted.len() {
            assert(text@.subrange(i as int, i + wanted@.len()) =~= wanted@);
            return Some(
                (
                    s.substring_char(0, i),
                    s.substring_char(i + wanted.len(), text.len()),
                ),
            );
        }
        proof {
            assert(text@.subrange(i as int, i + wanted@.len())[j as int] != wanted@[j as int]);
        }
        if i == text.len() {
            return None;
        }
        i += 1;
    }
    None
}

/// Text that was put together around a pattern is split where it was put
/// together, unless the pattern occurs earlier.
pub proof fn law_split_once_undoes_joining(
    before: Seq<char>,
    pattern: Seq<char>,
    after: Seq<char>,
)
    requires
        forall|i: int| 0 <= i < before.len() ==> !occurs_at(before + pattern, pattern, i),
    ensures
        split_once_at(before + pattern + after, pattern) == Some((before, after)),
{
    lemma_split_from(before, pattern, after, 0);
}

proof fn lemma_split_from(before: Seq<char>, pattern: Seq<char>, after: Seq<char>, from: int)
    requires
        0 <= from <= before.len(),
        forall|i: int| 0 <= i < before.len() ==> !occurs_at(before + pattern, pattern, i),
    ensures
        split_from(before + pattern + after, pattern, from) == Some((before, after)),
    decreases before.len() - from,
{
    let text = before + pattern + after;
    if from == before.len() {
        assert(text.subrange(from, from + pattern.len()) =~= pattern);
        assert(text.take(from) =~= before);
        assert(text.skip(from + pattern.len()) =~= after);
    } else {
        if occurs_at(text, pattern, from) {
            assert((before + pattern).subrange(from, from + pattern.len()) =~= text.subrange(
                from,
                from + pattern.len(),
            ));
            assert(occurs_at(before + pattern, pattern, from));
        }
        lemma_split_from(before, pattern, after, from + 1);
    }
}

/// The character of a decimal digit.
pub open spec fn digit(d: nat) -> char {
    (('0' as int) + d) as char
}

/// A number in decimal notation.
pub open spec fn decimal(n: nat) -> Seq<char>
    decreases n,
{
    if n < 10 {
        seq![digit(n)]
    } else {
        decimal(n / 10).push(digit(n % 10))
    }
}

/// An integer in decimal notation.
pub open spec fn integer_text(n: int) -> Seq<char> {
    if n < 0 {
        seq!['-'] + decimal((-n) as nat)
    } else {
        decimal(n as nat)
    }
}

/// The number that digits denote in decimal notation.
pub open spec fn decimal_value(digits: Seq<char>) -> nat
    decreases digits.len(),
{
    if digits.len() == 0 {
        0
    } else {
        10 * decimal_value(digits.drop_last()) + (digits.last() as int - '0' as int) as nat
    }
}

/// One or more decimal digits.
pub open spec fn is_decimal(text: Seq<char>) -> bool {
    text.len() > 0 && forall|i: int| 0 <= i < text.len() ==> '0' <= #[trigger] text[i] <= '9'
}

/// The integer that text denotes: decimal digits, with at most one sign before
/// them.
pub open spec fn integer_value(text: Seq<char>) -> Option<int> {
    let signed = text.len() > 0 && (text[0] == '-' || text[0] == '+');
    let digits = if signed {
        text.skip(1)
    } else {
        text
    };
    if !is_decimal(digits) {
        None
    } else if signed && text[0] == '-' {
        Some(-(decimal_value(digits) as int))
    } else {
        Some(decimal_value(digits) as int)
    }
}

/// The integer that text denotes, where it is in the range of `i64`.
pub open spec fn i64_value(text: Seq<char>) -> Option<i64> {
    match integer_value(text) {
        Some(n) if i64::MIN <= n <= i64::MAX => Some(n as i64),
        _ => None,
    }
}

/// The digits read so far denote no more than all of them.
proof fn lemma_decimal_value_grows(digits: Seq<char>, i: int)
    requires
        is_decimal(digits),
        0 <= i <= digits.len(),
    ensures
        decimal_value(digits.take(i)) <= decimal_value(digits),
    decreases digits.len() - i,
{
    if i == digits.len() {
        assert(digits.take(i) =~= digits);
    } else {
        lemma_decimal_value_grows(digits, i + 1);
        assert(digits.take(i + 1).drop_last() =~= digits.take(i));
    }
}

/// Read an integer in decimal notation.
pub fn parse_i64(s: &str) -> (r: Option<i64>)
    ensures
        r == i64_value(s@),
{
    let text = chars_of(s);
    let negative = text.len() > 0 && text[0] == '-';
    let signed = text.len() > 0 && (text[0] == '-' || text[0] == '+');
    let start: usize = if signed {
        1
    } else {
        0
    };
    let ghost digits = s@.skip(start as int);
    assert(!signed ==> digits =~= s@);
    if start == text.len() {
        return None;
    }
    let limit: u64 = 0x8000_0000_0000_0000;
    let mut value: u64 = 0;
    let mut i: usize = start;
    while i < text.len()
        invariant
            text@ == s@,
            start <= i <= text@.len(),
            digits == s@.skip(start as int),
            start == 0 || start == 1,
            signed == (s@.len() > 0 && (s@[0] == '-' || s@[0] == '+')),
            start == 1 <==> signed,
            !signed ==> digits == s@,
            limit == 0x8000_0000_0000_0000,
            forall|j: int| 0 <= j < i - start ==> '0' <= #[trigger] digits[j] <= '9',
            value == decimal_value(digits.take(i - start)),
            value <= limit,
        decreases text@.len() - i,
    {
        let c = text[i];
        assert(c == digits[i - start]);
        if c < '0' || '9' < c {
            return None;
        }
        let d: u64 = c as u64 - '0' as u64;
        proof {
            assert(digits.take(i - start + 1).drop_last() =~= digits.take(i - start));
        }
        if value > (limit - d) / 10 {
            proof {
                if is_decimal(digits) {
                    lemma_decimal_value_grows(digits, i - start + 1);
                }
            }
            return None;
        }
        value = 10 * value + d;
        i += 1;
    }
    assert(digits.take(i - start) =~= digits);
    if negative {
        if value == limit {
            Some(i64::MIN)
        } else {
            Some(-(value as i64))
        }
    } else if value == limit {
        None
    } else {
        Some(value as i64)
    }
}

proof fn lemma_decimal(n: nat)
    ensures
        is_decimal(decimal(n)),
        decimal_value(decimal(n)) == n,
    decreases n,
{
    let text = decimal(n);
    if n < 10 {
        assert(text.drop_last() =~= Seq::empty());
        assert(decimal_value(text.drop_last()) == 0);
    } else {
        lemma_decimal(n / 10);
        assert(text.drop_last() =~= decimal(n / 10));
    }
}

/// The decimal notation of an integer is read as the integer.
pub proof fn law_integers_read_back(n: i64)
    ensures
        i64_value(integer_text(n as int)) == Some(n),
{
    if n < 0 {
        lemma_decimal((-n) as nat);
        assert(integer_text(n as int).skip(1) =~= decimal((-n) as nat));
    } else {
        lemma_decimal(n as nat);
        let text = decimal(n as nat);
        assert('0' <= text[0] <= '9');
    }
}

fn digit_text(d: u64) -> (r: &'static str)
    requires
        d < 10,
    ensures
        r@ == seq![digit(d as nat)],
{
    proof {
        reveal_strlit("0");
        reveal_strlit("1");
        reveal_strlit("2");
        reveal_strlit("3");
        reveal_strlit("4");
        reveal_strlit("5");
        reveal_strlit("6");
        reveal_strlit("7");
        reveal_strlit("8");
        reveal_strlit("9");
    }
    let r = match d {
        0 => "0",
        1 => "1",
        2 => "2",
        3 => "3",
        4 => "4",
        5 => "5",
        6 => "6",
        7 => "7",
        8 => "8",
        _ => "9",
    };
    assert(r@ =~= seq![digit(d as nat)]);
    r
}

/// A number in decimal notation.
pub fn decimal_text(n: u64) -> (r: String)
    ensures
        r@ == decimal(n as nat),
    decreases n,
{
    if n < 10 {
        digit_text(n).to_owned()
    } else {
        let mut r = decimal_text(n / 10);
        r.append(digit_text(n % 10));
        assert(r@ =~= decimal(n as nat));
        r
    }
}

/// Each string has its characters, in its place.
pub proof fn law_views(strings: Seq<String>)
    ensures
        views(strings).len() == strings.len(),
        forall|i: int| 0 <= i < strings.len() ==> #[trigger] views(strings)[i] == strings[i]@,
{
}

/// What may be missing, and what may have failed, is seen as it is.
pub proof fn law_results_are_seen_whole<T: View>(
    text: Option<String>,
    result: Result<T, String>,
)
    ensures
        match text {
            Some(text) => optional(Some(text)) == Some(text@),
            None => optional(None) is None,
        },
        match result {
            Ok(value) => viewed(result) == Ok::<T::V, Seq<char>>(value@),
            Err(message) => viewed(result) == Err::<T::V, Seq<char>>(message@),
        },
{
}

/// These are the characters that count as white space.
pub proof fn law_white_space(c: char)
    ensures
        is_white_space(c) <==> seq![
            '\u{9}', '\u{a}', '\u{b}', '\u{c}', '\u{d}', '\u{20}', '\u{85}', '\u{a0}', '\u{1680}',
            '\u{2000}', '\u{2001}', '\u{2002}', '\u{2003}', '\u{2004}', '\u{2005}', '\u{2006}',
            '\u{2007}', '\u{2008}', '\u{2009}', '\u{200a}', '\u{2028}', '\u{2029}', '\u{202f}',
            '\u{205f}', '\u{3000}',
        ].contains(c),
{
    let all = seq![
        '\u{9}', '\u{a}', '\u{b}', '\u{c}', '\u{d}', '\u{20}', '\u{85}', '\u{a0}', '\u{1680}',
        '\u{2000}', '\u{2001}', '\u{2002}', '\u{2003}', '\u{2004}', '\u{2005}', '\u{2006}',
        '\u{2007}', '\u{2008}', '\u{2009}', '\u{200a}', '\u{2028}', '\u{2029}', '\u{202f}',
        '\u{205f}', '\u{3000}',
    ];
    let n = c as int;
    if 0x09 <= n <= 0x0d {
        assert(all[n - 0x09] == c);
    } else if 0x2000 <= n <= 0x200a {
        assert(all[n - 0x2000 + 9] == c);
    } else if is_white_space(c) {
        assert(all[5] == c || all[6] == c || all[7] == c || all[8] == c || all[20] == c || all[21]
            == c || all[22] == c || all[23] == c || all[24] == c);
    }
}

/// Trimming takes the white space at both ends away and nothing else, whatever stands
/// in between.
pub proof fn law_trimming(before: Seq<char>, core: Seq<char>, after: Seq<char>)
    requires
        forall|i: int| 0 <= i < before.len() ==> is_white_space(#[trigger] before[i]),
        forall|i: int| 0 <= i < after.len() ==> is_white_space(#[trigger] after[i]),
        core.len() > 0 ==> !is_white_space(core.first()) && !is_white_space(core.last()),
    ensures
        trimmed(before + core + after) == core,
{
    if core.len() == 0 {
        let all = before + after;
        assert(before + core + after =~= all + Seq::<char>::empty());
        lemma_trimmed_start(all, Seq::empty());
    } else {
        assert(before + core + after =~= before + (core + after));
        lemma_trimmed_start(before, core + after);
        assert((core + after).first() == core.first());
        lemma_trimmed_end(core, after);
    }
}

proof fn lemma_trimmed_start(before: Seq<char>, rest: Seq<char>)
    requires
        forall|i: int| 0 <= i < before.len() ==> is_white_space(#[trigger] before[i]),
    ensures
        trimmed_start(before + rest) == trimmed_start(rest),
    decreases before.len(),
{
    if before.len() == 0 {
        assert(before + rest =~= rest);
    } else {
        assert((before + rest).drop_first() =~= before.drop_first() + rest);
        lemma_trimmed_start(before.drop_first(), rest);
    }
}

proof fn lemma_trimmed_end(rest: Seq<char>, after: Seq<char>)
    requires
        forall|i: int| 0 <= i < after.len() ==> is_white_space(#[trigger] after[i]),
    ensures
        trimmed_end(rest + after) == trimmed_end(rest),
    decreases after.len(),
{
    if after.len() == 0 {
        assert(rest + after =~= rest);
    } else {
        assert((rest + after).drop_last() =~= rest + after.drop_last());
        lemma_trimmed_end(rest, after.drop_last());
    }
}

/// The two parts make up the text around the pattern, which stands nowhere earlier;
/// and where there are none, it stands nowhere.
pub proof fn law_split_once(text: Seq<char>, pattern: Seq<char>)
    ensures
        match split_once_at(text, pattern) {
            Some((before, after)) => {
                &&& text == before + pattern + after
                &&& forall|i: int|
                    0 <= i < before.len() ==> #[trigger] text.subrange(i, i + pattern.len())
                        != pattern
            },
            None => forall|i: int|
                0 <= i <= text.len() - pattern.len() ==> #[trigger] text.subrange(
                    i,
                    i + pattern.len(),
                ) != pattern,
        },
{
    lemma_split_once(text, pattern, 0);
}

proof fn lemma_split_once(text: Seq<char>, pattern: Seq<char>, from: int)
    requires
        0 <= from,
    ensures
        match split_from(text, pattern, from) {
            Some((before, after)) => {
                &&& text == before + pattern + after
                &&& forall|i: int|
                    from <= i < before.len() ==> #[trigger] text.subrange(i, i + pattern.len())
                        != pattern
            },
            None => forall|i: int|
                from <= i <= text.len() - pattern.len() ==> #[trigger] text.subrange(
                    i,
                    i + pattern.len(),
                ) != pattern,
        },
    decreases text.len() + 1 - from,
{
    if from + pattern.len() <= text.len() {
        if occurs_at(text, pattern, from) {
            assert(text =~= text.take(from) + pattern + text.skip(from + pattern.len())) by {
                assert(text.subrange(from, from + pattern.len()) == pattern);
                assert forall|i: int| from <= i < from + pattern.len() implies text[i] == pattern[i
                    - from] by {
                    assert(text.subrange(from, from + pattern.len())[i - from] == text[i]);
                }
            }
        } else {
            lemma_split_once(text, pattern, from + 1);
        }
    }
}

/// A text denotes an integer only where it is one or more decimal digits, with at most
/// one sign before them.
pub proof fn law_integers_are_digits(text: Seq<char>)
    ensures
        integer_value(text) is Some ==> {
            &&& text.len() > 0
            &&& text[0] == '-' || text[0] == '+' || '0' <= text[0] <= '9'
            &&& text.len() == 1 ==> '0' <= text[0] <= '9'
            &&& forall|i: int| 1 <= i < text.len() ==> '0' <= #[trigger] text[i] <= '9'
        },
{
    if text.len() > 0 && (text[0] == '-' || text[0] == '+') && integer_value(text) is Some {
        assert forall|i: int| 1 <= i < text.len() implies '0' <= #[trigger] text[i] <= '9' by {
            assert(text.skip(1)[i - 1] == text[i]);
        }
    }
}

/// A digit denotes its number. A further digit multiplies what stands before it by ten
/// and counts itself. A sign before digits keeps the number, or turns it round.
pub proof fn law_digits_denote_integers(digits: Seq<char>, d: char)
    requires
        '0' <= d <= '9',
        forall|i: int| 0 <= i < digits.len() ==> '0' <= #[trigger] digits[i] <= '9',
    ensures
        integer_value(seq![d]) == Some(d as int - '0' as int),
        digits.len() > 0 ==> integer_value(digits.push(d)) == Some(
            10 * integer_value(digits)->0 + (d as int - '0' as int),
        ),
        digits.len() > 0 ==> integer_value(seq!['+'] + digits) == integer_value(digits),
        digits.len() > 0 ==> integer_value(seq!['-'] + digits) == Some(-integer_value(digits)->0),
{
    let one = seq![d];
    assert(one.drop_last() =~= Seq::empty());
    reveal_with_fuel(decimal_value, 2);
    if digits.len() > 0 {
        assert('0' <= digits[0] <= '9');
        assert(digits.push(d)[0] == digits[0]);
        assert(digits.push(d).drop_last() =~= digits);
        assert((seq!['+'] + digits).skip(1) =~= digits);
        assert((seq!['-'] + digits).skip(1) =~= digits);
    }
}

/// A text denotes a 64-bit integer where it denotes the integer at all.
pub proof fn law_range_of_integers(text: Seq<char>, n: i64)
    ensures
        i64_value(text) == Some(n) <==> integer_value(text) == Some(n as int),
{
}

/// A number is written digit by digit, the highest first and none for nothing, behind a
/// minus sign where it is negative.
pub proof fn law_decimal_notation(n: nat, d: nat)
    requires
        d < 10,
    ensures
        decimal(d) == seq!["0123456789"@[d as int]],
        n > 0 ==> decimal(10 * n + d) == decimal(n).push("0123456789"@[d as int]),
        integer_text(n as int) == decimal(n),
        n > 0 ==> integer_text(-n) == seq!['-'] + decimal(n),
{
    reveal_strlit("0123456789");
    assert((10 * n + d) / 10 == n && (10 * n + d) % 10 == d);
}

} // verus!
