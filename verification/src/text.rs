//! Text: decimal numbers, trimming, comparison, lines, and the byte offsets
//! of ASCII prefixes.

use vstd::prelude::*;
use vstd::string::*;
use vstd::utf8::*;

verus! {

/// The texts that the strings hold.
pub open spec fn texts(strings: Seq<String>) -> Seq<Seq<char>> {
    Seq::new(strings.len(), |k: int| strings[k]@)
}

/// A result with the text of its error in place of the string that holds it.
pub open spec fn text_result<T>(r: Result<T, String>) -> Result<T, Seq<char>> {
    match r {
        Ok(v) => Ok(v),
        Err(e) => Err(e@),
    }
}

/// Unicode's `White_Space` property.
pub open spec fn is_white_space(c: char) -> bool {
    ||| '\u{9}' <= c <= '\u{d}'
    ||| c == '\u{20}'
    ||| c == '\u{85}'
    ||| c == '\u{a0}'
    ||| c == '\u{1680}'
    ||| '\u{2000}' <= c <= '\u{200a}'
    ||| c == '\u{2028}'
    ||| c == '\u{2029}'
    ||| c == '\u{202f}'
    ||| c == '\u{205f}'
    ||| c == '\u{3000}'
}

/// `s` without the white space it begins with.
pub open spec fn trimmed_start(s: Seq<char>) -> Seq<char>
    decreases s.len(),
{
    if s.len() > 0 && is_white_space(s[0]) {
        trimmed_start(s.drop_first())
    } else {
        s
    }
}

/// `s` without the white space it ends with.
pub open spec fn trimmed_end(s: Seq<char>) -> Seq<char>
    decreases s.len(),
{
    if s.len() > 0 && is_white_space(s.last()) {
        trimmed_end(s.drop_last())
    } else {
        s
    }
}

/// `s` without the white space at both its ends.
pub open spec fn trimmed(s: Seq<char>) -> Seq<char> {
    trimmed_end(trimmed_start(s))
}

pub open spec fn is_digit(c: char) -> bool {
    '0' <= c <= '9'
}

pub open spec fn all_digits(s: Seq<char>) -> bool {
    forall|i: int| 0 <= i < s.len() ==> is_digit(#[trigger] s[i])
}

/// The number that a row of decimal digits stands for.
pub open spec fn digits_value(s: Seq<char>) -> nat
    decreases s.len(),
{
    if s.len() == 0 {
        0
    } else {
        10 * digits_value(s.drop_last()) + (s.last() as nat - '0' as nat) as nat
    }
}

/// The integer that `s` writes: at most one sign, then one or more decimal
/// digits, and nothing else.
pub open spec fn integer_value(s: Seq<char>) -> Option<int> {
    let signed = s.len() > 0 && (s[0] == '+' || s[0] == '-');
    let digits = if signed {
        s.drop_first()
    } else {
        s
    };
    if digits.len() == 0 || !all_digits(digits) {
        None
    } else if signed && s[0] == '-' {
        Some(-(digits_value(digits) as int))
    } else {
        Some(digits_value(digits) as int)
    }
}

/// The 64-bit signed integer that `s` writes, if it writes one.
pub open spec fn i64_value(s: Seq<char>) -> Option<i64> {
    match integer_value(s) {
        Some(v) if i64::MIN <= v <= i64::MAX => Some(v as i64),
        _ => None,
    }
}

/// `str::trim`: what is left of the text once the characters with Unicode's
/// `White_Space` property are taken off both its ends.
pub assume_specification[ str::trim ](s: &str) -> (r: &str)
    ensures
        r@ == trimmed(s@),
;

/// `String::push`: the character is added at the end of the text.
pub assume_specification[ String::push ](s: &mut String, c: char)
    ensures
        final(s)@ == old(s)@.push(c),
;

/// `str::parse::<i64>`: the number that the text writes, where it is an
/// optional sign followed by decimal digits alone and the number fits in an
/// `i64`; no number for any other text.
#[verifier::external_body]
pub(crate) fn parse_i64(s: &str) -> (r: Option<i64>)
    ensures
        r == i64_value(s@),
{
    s.parse::<i64>().ok()
}

/// The digit character of `d`.
pub open spec fn digit_char(d: nat) -> char {
    ('0' as nat + d) as char
}

/// `n` in decimal, without leading zeros.
pub open spec fn decimal(n: nat) -> Seq<char>
    decreases n,
{
    if n < 10 {
        seq![digit_char(n)]
    } else {
        decimal(n / 10).push(digit_char(n % 10))
    }
}

/// Writes `n` in decimal.
pub fn decimal_text(n: u64) -> (r: String)
    ensures
        r@ == decimal(n as nat),
    decreases n,
{
    let mut r = if n < 10 {
        String::new()
    } else {
        decimal_text(n / 10)
    };
    let d: u8 = (n % 10) as u8;
    r.push(('0' as u8 + d) as char);
    r
}

/// A decimal text is not empty, holds digits alone, and writes its number.
pub proof fn lemma_decimal_value(n: nat)
    ensures
        decimal(n).len() > 0,
        all_digits(decimal(n)),
        digits_value(decimal(n)) == n,
    decreases n,
{
    if n < 10 {
        reveal_with_fuel(digits_value, 2);
    } else {
        lemma_decimal_value(n / 10);
        assert(decimal(n).drop_last() =~= decimal(n / 10));
    }
}

/// The two texts hold the same characters.
pub fn same_text(a: &str, b: &str) -> (r: bool)
    ensures
        r == (a@ == b@),
{
    let x = a.as_bytes();
    let y = b.as_bytes();
    if x.len() != y.len() {
        return false;
    }
    let mut i: usize = 0;
    while i < x.len()
        invariant
            x@ == encode_utf8(a@),
            y@ == encode_utf8(b@),
            x.len() == y.len(),
            i <= x.len(),
            forall|k: int| 0 <= k < i ==> x@[k] == y@[k],
        decreases x.len() - i,
    {
        if x[i] != y[i] {
            return false;
        }
        i += 1;
    }
    assert(x@ =~= y@);
    proof {
        lemma_encode_injective(a@, b@);
    }
    true
}

/// The first byte of `c` in UTF-8.
pub open spec fn first_byte(c: char) -> u8 {
    encode_scalar(c as u32)[0]
}

pub open spec fn is_ascii_char(c: char) -> bool {
    c <= '\u{7f}'
}

/// A character outside ASCII begins with a byte outside ASCII, and an ASCII
/// character is its own single byte.
pub proof fn lemma_first_byte(c: char)
    ensures
        is_ascii_char(c) ==> encode_scalar(c as u32) == seq![c as u8],
        is_ascii_char(c) ==> first_byte(c) == c as u8,
        is_ascii_char(c) ==> first_byte(c) as char == c,
        !is_ascii_char(c) ==> first_byte(c) >= 0x80,
{
    let v = c as u32;
    if is_ascii_char(c) {
        assert((v & 0x7F) as u8 == v as u8) by (bit_vector)
            requires
                v <= 0x7F,
        ;
    } else {
        assert(0xC0 | ((v >> 6) & 0x1F) as u8 >= 0x80u8) by (bit_vector);
        assert(0xE0 | ((v >> 12) & 0x0F) as u8 >= 0x80u8) by (bit_vector);
        assert(0xF0 | ((v >> 18) & 0x7) as u8 >= 0x80u8) by (bit_vector);
    }
}

/// The encoding of a text is the encoding of its parts, one after the other.
pub proof fn lemma_encode_concat(a: Seq<char>, b: Seq<char>)
    ensures
        encode_utf8(a + b) == encode_utf8(a) + encode_utf8(b),
    decreases a.len(),
{
    if a.len() == 0 {
        assert(a + b =~= b);
        assert(encode_utf8(a) + encode_utf8(b) =~= encode_utf8(b));
    } else {
        lemma_encode_concat(a.drop_first(), b);
        assert((a + b).drop_first() =~= a.drop_first() + b);
        assert(encode_utf8(a + b) =~= encode_utf8(a) + encode_utf8(b));
    }
}

/// Behind an ASCII prefix of `k` characters the byte offsets are the
/// character offsets.
pub proof fn lemma_ascii_prefix(s: Seq<char>, k: int)
    requires
        0 <= k <= s.len(),
        forall|i: int| 0 <= i < k ==> is_ascii_char(#[trigger] s[i]),
    ensures
        encode_utf8(s).len() >= k,
        encode_utf8(s).skip(k) == encode_utf8(s.skip(k)),
        is_char_boundary(encode_utf8(s), k),
        valid_utf8(encode_utf8(s)),
        (encode_utf8(s).len() == k) == (s.len() == k),
        k < s.len() ==> encode_utf8(s)[k] == first_byte(s[k]),
    decreases k,
{
    encode_utf8_valid_utf8(s);
    let bytes = encode_utf8(s);
    if k == 0 {
        assert(s.skip(0) =~= s);
        assert(bytes.skip(0) =~= bytes);
        is_char_boundary_start_end_of_seq(bytes);
    } else {
        let t = s.drop_first();
        lemma_first_byte(s[0]);
        lemma_ascii_prefix(t, k - 1);
        assert(bytes =~= seq![s[0] as u8] + encode_utf8(t));
        assert(bytes.skip(k) =~= encode_utf8(t).skip(k - 1));
        assert(s.skip(k) =~= t.skip(k - 1));
        encode_utf8_first_scalar(s);
        assert(pop_first_scalar(bytes) =~= encode_utf8(t));
    }
    if k < s.len() {
        let u = s.skip(k);
        assert(u[0] == s[k]);
        assert(encode_utf8(u)[0] == first_byte(u[0]));
        assert(bytes.skip(k)[0] == bytes[k]);
    }
}

/// The texts with the same encoding are the same.
pub proof fn lemma_encode_injective(a: Seq<char>, b: Seq<char>)
    requires
        encode_utf8(a) == encode_utf8(b),
    ensures
        a == b,
{
    encode_utf8_decode_utf8(a);
    encode_utf8_decode_utf8(b);
}

/// The encoding of the character `i` begins where that of the characters
/// before it ends.
pub proof fn lemma_byte_of_char(s: Seq<char>, i: int)
    requires
        0 <= i < s.len(),
    ensures
        encode_utf8(s.take(i)).len() < encode_utf8(s).len(),
        encode_utf8(s)[encode_utf8(s.take(i)).len() as int] == first_byte(s[i]),
        is_ascii_char(s[i]) ==> first_byte(s[i]) == s[i] as u8,
{
    lemma_first_byte(s[i]);
    lemma_encode_concat(s.take(i), s.skip(i));
    assert(s =~= s.take(i) + s.skip(i));
    assert(encode_utf8(s.skip(i))[0] == first_byte(s[i]));
}

pub proof fn lemma_trimmed_start(space: Seq<char>, rest: Seq<char>)
    requires
        forall|k: int| 0 <= k < space.len() ==> is_white_space(#[trigger] space[k]),
        rest.len() > 0,
        !is_white_space(rest[0]),
    ensures
        trimmed_start(space + rest) == rest,
    decreases space.len(),
{
    if space.len() == 0 {
        assert(space + rest =~= rest);
    } else {
        lemma_trimmed_start(space.drop_first(), rest);
        assert((space + rest).drop_first() =~= space.drop_first() + rest);
    }
}

pub proof fn lemma_trimmed_end(rest: Seq<char>, space: Seq<char>)
    requires
        forall|k: int| 0 <= k < space.len() ==> is_white_space(#[trigger] space[k]),
        rest.len() > 0,
        !is_white_space(rest.last()),
    ensures
        trimmed_end(rest + space) == rest,
    decreases space.len(),
{
    if space.len() == 0 {
        assert(rest + space =~= rest);
    } else {
        lemma_trimmed_end(rest, space.drop_last());
        assert((rest + space).drop_last() =~= rest + space.drop_last());
    }
}

/// `s` does not hold `c`.
#[verifier::opaque]
pub open spec fn free_of(s: Seq<char>, c: char) -> bool {
    forall|k: int| 0 <= k < s.len() ==> s[k] != c
}

pub broadcast proof fn lemma_free_of_concat(a: Seq<char>, b: Seq<char>, c: char)
    requires
        free_of(a, c),
        free_of(b, c),
    ensures
        #[trigger] free_of(a + b, c),
{
    reveal(free_of);
}

pub broadcast proof fn lemma_free_of_decimal(n: nat, c: char)
    requires
        !is_digit(c),
    ensures
        #[trigger] free_of(decimal(n), c),
{
    reveal(free_of);
    lemma_decimal_value(n);
}

/// The decimal text of a number holds digits alone, begins with a zero only
/// where it is that zero, and writes the number.
pub proof fn law_decimal_writes_its_number(n: nat)
    ensures
        decimal(n).len() > 0,
        all_digits(decimal(n)),
        decimal(n)[0] == '0' ==> decimal(n).len() == 1,
        integer_value(decimal(n)) == Some(n as int),
    decreases n,
{
    lemma_decimal_value(n);
    if n >= 10 {
        law_decimal_writes_its_number(n / 10);
        assert(decimal(n)[0] == decimal(n / 10)[0]);
        if decimal(n)[0] == '0' {
            reveal_with_fuel(digits_value, 2);
            assert(digits_value(decimal(n / 10)) == 0);
        }
    }
}

/// Of all the texts that hold digits alone and have no zero to spare, the
/// decimal text of a number is the one that writes it.
pub proof fn law_decimal_is_the_only_such_text(s: Seq<char>)
    requires
        s.len() > 0,
        all_digits(s),
        s[0] == '0' ==> s.len() == 1,
    ensures
        decimal(digits_value(s)) == s,
    decreases s.len(),
{
    let d = (s.last() as nat - '0' as nat) as nat;
    assert(is_digit(s.last()));
    if s.len() == 1 {
        reveal_with_fuel(digits_value, 2);
        assert(decimal(d) =~= s);
    } else {
        let t = s.drop_last();
        assert(t[0] == s[0]);
        assert forall|i: int| 0 <= i < t.len() implies is_digit(#[trigger] t[i]) by {
            assert(t[i] == s[i]);
        }
        law_decimal_is_the_only_such_text(t);
        lemma_digits_value_positive(t);
        let n = digits_value(s);
        assert(n / 10 == digits_value(t) && n % 10 == d);
        assert(decimal(n) =~= s);
    }
}

proof fn lemma_digits_value_positive(s: Seq<char>)
    requires
        s.len() > 0,
        all_digits(s),
        s[0] != '0',
    ensures
        digits_value(s) > 0,
    decreases s.len(),
{
    assert(is_digit(s[0]));
    if s.len() == 1 {
        reveal_with_fuel(digits_value, 2);
    } else {
        assert(s.drop_last()[0] == s[0]);
        assert forall|i: int| 0 <= i < s.drop_last().len() implies is_digit(
            #[trigger] s.drop_last()[i],
        ) by {
            assert(s.drop_last()[i] == s[i]);
        }
        lemma_digits_value_positive(s.drop_last());
    }
}

} // verus!
