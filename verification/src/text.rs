//! Text and the bytes it is encoded in.

use vstd::prelude::*;
use vstd::string::*;
use vstd::utf8::*;

verus! {

/// `String::push`: the character comes last.
pub assume_specification[ String::push ](s: &mut String, c: char)
    ensures
        final(s)@ == old(s)@.push(c),
;

/// What `std::str::from_utf8` says of bytes that are not UTF-8: the message of its error.
pub uninterp spec fn utf8_error(bytes: Seq<u8>) -> Seq<char>;

/// `std::str::from_utf8`: the text that the bytes encode, or the message of the error where they
/// are not UTF-8.
#[verifier::external_body]
pub(crate) fn decoded(bytes: &[u8]) -> (r: core::result::Result<String, String>)
    ensures
        match r {
            Ok(s) => valid_utf8(bytes@) && s@ == decode_utf8(bytes@),
            Err(e) => !valid_utf8(bytes@) && e@ == utf8_error(bytes@),
        },
{
    std::str::from_utf8(bytes).map(|s| s.to_owned()).map_err(|e| e.to_string())
}

/// The decimal digit of an integer below ten.
pub open spec fn digit(d: nat) -> char {
    (d + 48) as char
}

/// The decimal numeral of an integer.
pub open spec fn decimal(n: nat) -> Seq<char>
    decreases n,
{
    if n < 10 {
        seq![digit(n)]
    } else {
        decimal(n / 10).push(digit(n % 10))
    }
}

/// The character is a decimal digit.
pub open spec fn is_digit(c: char) -> bool {
    '0' <= c <= '9'
}

/// A numeral is made of digits, at least one.
pub proof fn lemma_decimal_digits(n: nat)
    ensures
        decimal(n).len() > 0,
        forall|i: int| 0 <= i < decimal(n).len() ==> is_digit(#[trigger] decimal(n)[i]),
    decreases n,
{
    if n >= 10 {
        lemma_decimal_digits(n / 10);
    }
}

/// Integers with the same numeral are equal.
pub proof fn lemma_decimal_injective(n: nat, m: nat)
    requires
        decimal(n) == decimal(m),
    ensures
        n == m,
    decreases n,
{
    let a = decimal(n);
    let b = decimal(m);
    lemma_decimal_digits(n / 10);
    lemma_decimal_digits(m / 10);
    if n < 10 && m < 10 {
        assert(a[0] == b[0]);
    } else {
        assert(n >= 10 && m >= 10) by {
            if n < 10 {
                assert(b.len() > 1);
            }
            if m < 10 {
                assert(a.len() > 1);
            }
        }
        assert(a.drop_last() =~= decimal(n / 10));
        assert(b.drop_last() =~= decimal(m / 10));
        lemma_decimal_injective(n / 10, m / 10);
        assert(a.last() == b.last());
    }
}

/// The characters of `x` have a property that the first one after them has not, and likewise
/// `y`: then equal texts split in the same place.
pub proof fn lemma_same_split(
    x: Seq<char>,
    s: Seq<char>,
    y: Seq<char>,
    t: Seq<char>,
    p: spec_fn(char) -> bool,
)
    requires
        x + s == y + t,
        forall|i: int| 0 <= i < x.len() ==> p(#[trigger] x[i]),
        forall|i: int| 0 <= i < y.len() ==> p(#[trigger] y[i]),
        s.len() > 0 && !p(s[0]),
        t.len() > 0 && !p(t[0]),
    ensures
        x == y,
        s == t,
{
    let w = x + s;
    if x.len() < y.len() {
        assert(w[x.len() as int] == s[0]);
        assert((y + t)[x.len() as int] == y[x.len() as int]);
    }
    if y.len() < x.len() {
        assert((y + t)[y.len() as int] == t[0]);
        assert(w[y.len() as int] == x[y.len() as int]);
    }
    assert(x =~= w.take(x.len() as int));
    assert(y =~= (y + t).take(x.len() as int));
    assert(s =~= w.skip(x.len() as int));
    assert(t =~= (y + t).skip(x.len() as int));
}

/// A numeral is determined by a text that it starts, if no digit follows it.
pub proof fn lemma_decimal_prefix(n: nat, s: Seq<char>, m: nat, t: Seq<char>)
    requires
        decimal(n) + s == decimal(m) + t,
        s.len() > 0 && !is_digit(s[0]),
        t.len() > 0 && !is_digit(t[0]),
    ensures
        n == m,
        s == t,
{
    lemma_decimal_digits(n);
    lemma_decimal_digits(m);
    lemma_same_split(decimal(n), s, decimal(m), t, |c: char| is_digit(c));
    lemma_decimal_injective(n, m);
}

/// Joining texts is associative.
pub proof fn lemma_joined(a: Seq<char>, b: Seq<char>, c: Seq<char>)
    ensures
        (a + b) + c == a + (b + c),
{
    assert((a + b) + c =~= a + (b + c));
}

/// Texts that start alike and are equal end alike.
pub proof fn lemma_same_start(l: Seq<char>, s: Seq<char>, t: Seq<char>)
    requires
        l + s == l + t,
    ensures
        s == t,
{
    assert(s =~= (l + s).skip(l.len() as int));
    assert(t =~= (l + t).skip(l.len() as int));
}

/// Appends the decimal numeral of an integer.
pub fn push_decimal(text: &mut String, n: u64)
    ensures
        final(text)@ == old(text)@ + decimal(n as nat),
    decreases n,
{
    if n >= 10 {
        push_decimal(text, n / 10);
    }
    let d: u8 = (n % 10) as u8;
    text.push((d + 48) as char);
    assert(text@ =~= old(text)@ + decimal(n as nat));
}

/// Two texts are the same.
pub fn same_text(a: &str, b: &str) -> (r: bool)
    ensures
        r == (a@ == b@),
{
    a.to_owned() == b.to_owned()
}

/// A text followed by another.
pub fn joined(first: &str, second: &str) -> (r: String)
    ensures
        r@ == first@ + second@,
{
    let mut r = first.to_owned();
    r.append(second);
    r
}

/// A text followed by a decimal numeral.
pub fn joined_decimal(first: &str, n: u64) -> (r: String)
    ensures
        r@ == first@ + decimal(n as nat),
{
    let mut r = first.to_owned();
    push_decimal(&mut r, n);
    r
}

/// Appends bytes.
pub fn append_bytes(data: &mut Vec<u8>, bytes: &[u8])
    ensures
        final(data)@ == old(data)@ + bytes@,
{
    data.extend_from_slice(bytes);
    assert(data@ =~= old(data)@ + bytes@);
}

/// Texts with the same encoding are equal.
pub proof fn lemma_utf8_injective(a: Seq<char>, b: Seq<char>)
    requires
        encode_utf8(a) == encode_utf8(b),
    ensures
        a == b,
{
    encode_utf8_decode_utf8(a);
    encode_utf8_decode_utf8(b);
}

/// No byte of encoded text is 255.
pub proof fn lemma_utf8_below(a: Seq<char>)
    ensures
        forall|i: int| 0 <= i < encode_utf8(a).len() ==> #[trigger] encode_utf8(a)[i] != 0xff,
    decreases a.len(),
{
    if a.len() > 0 {
        let c = a[0] as u32;
        lemma_utf8_below(a.drop_first());
        char_is_scalar(a[0]);
        assert(leading_byte_width_1(c) != 0xff) by {
            assert((c & 0x7F) as u8 != 0xff) by (bit_vector);
        }
        assert(leading_byte_width_2(c) != 0xff) by {
            assert(0xC0u8 | ((c >> 6) & 0x1F) as u8 != 0xff) by (bit_vector);
        }
        assert(leading_byte_width_3(c) != 0xff) by {
            assert(0xE0u8 | ((c >> 12) & 0x0F) as u8 != 0xff) by (bit_vector);
        }
        assert(leading_byte_width_4(c) != 0xff) by {
            assert(0xF0u8 | ((c >> 18) & 0x7) as u8 != 0xff) by (bit_vector);
        }
        assert(last_continuation_byte(c) != 0xff) by {
            assert(0x80u8 | (c & 0x3F) as u8 != 0xff) by (bit_vector);
        }
        assert(second_last_continuation_byte(c) != 0xff) by {
            assert(0x80u8 | ((c >> 6) & 0x3F) as u8 != 0xff) by (bit_vector);
        }
        assert(third_last_continuation_byte(c) != 0xff) by {
            assert(0x80u8 | ((c >> 12) & 0x3F) as u8 != 0xff) by (bit_vector);
        }
        let first = encode_scalar(c);
        let rest = encode_utf8(a.drop_first());
        assert forall|i: int| 0 <= i < encode_utf8(a).len() implies #[trigger] encode_utf8(a)[i]
            != 0xff by {
            if i < first.len() {
                assert(encode_utf8(a)[i] == first[i]);
            } else {
                assert(encode_utf8(a)[i] == rest[i - first.len()]);
            }
        }
    }
}

/// Numerals are decimal: those below ten are one digit, and ten times an integer plus a digit is
/// written by writing the digit after the integer.
pub proof fn law_decimal_numerals(n: nat, d: nat)
    requires
        d < 10,
    ensures
        decimal(d) == seq![(d + 48) as char],
        n > 0 ==> decimal(10 * n + d) == decimal(n) + seq![(d + 48) as char],
{
    if n > 0 {
        assert((10 * n + d) / 10 == n && (10 * n + d) % 10 == d);
        assert(decimal(10 * n + d) =~= decimal(n) + seq![(d + 48) as char]);
    }
}

} // verus!
