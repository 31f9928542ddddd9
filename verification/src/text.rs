//! Text as sequences of characters: the operations that the rest of the library
//! builds its strings from.

use vstd::prelude::*;
use vstd::utf8::{encode_scalar, encode_utf8};

verus! {

/// `String::push`: the character becomes the last one of the text.
pub assume_specification[ String::push ](s: &mut String, c: char)
    ensures
        final(s)@ == old(s)@.push(c),
;

/// `==` on string slices: the same characters in the same order.
pub assume_specification[ <str as PartialEq>::eq ](a: &str, b: &str) -> (r: bool)
    ensures
        r == (a@ == b@),
;

/// The characters of a text, one element each.
pub fn chars_of(s: &str) -> (r: Vec<char>)
    ensures
        r@ == s@,
        encode_utf8(s@).len() <= usize::MAX,
{
    let bytes: usize = s.as_bytes().len();
    let mut r: Vec<char> = Vec::with_capacity(bytes);
    for c in it: s.chars()
        invariant
            it.seq() == s@,
            r@ == s@.take(it.index() as int),
            bytes == encode_utf8(s@).len(),
    {
        r.push(c);
    }
    r
}

/// The text made of the characters of `v` from `from` up to `to`.
pub fn text_of(v: &Vec<char>, from: usize, to: usize) -> (r: String)
    requires
        from <= to <= v@.len(),
    ensures
        r@ == v@.subrange(from as int, to as int),
{
    let mut r = String::new();
    let mut i: usize = from;
    while i < to
        invariant
            from <= i <= to <= v@.len(),
            r@ == v@.subrange(from as int, i as int),
        decreases to - i,
    {
        r.push(v[i]);
        i += 1;
    }
    r
}

/// A character with the Unicode property `White_Space`.
pub open spec fn is_white(c: char) -> bool {
    ||| '\t' <= c <= '\r'
    ||| c == ' '
    ||| c == '\u{85}'
    ||| c == '\u{a0}'
    ||| c == '\u{1680}'
    ||| '\u{2000}' <= c <= '\u{200a}'
    ||| c == '\u{2028}'
    ||| c == '\u{2029}'
    ||| c == '\u{202f}'
    ||| c == '\u{205f}'
    ||| c == '\u{3000}'
}

/// Tests for white space.
pub fn white(c: char) -> (r: bool)
    ensures
        r == is_white(c),
{
    ('\t' <= c && c <= '\r') || c == ' ' || c == '\u{85}' || c == '\u{a0}' || c == '\u{1680}' || (
    '\u{2000}' <= c && c <= '\u{200a}') || c == '\u{2028}' || c == '\u{2029}' || c == '\u{202f}' || c
        == '\u{205f}' || c == '\u{3000}'
}

/// The text without its leading white space.
pub open spec fn trim_start(s: Seq<char>) -> Seq<char>
    decreases s.len(),
{
    if s.len() > 0 && is_white(s[0]) {
        trim_start(s.drop_first())
    } else {
        s
    }
}

/// The text without its trailing white space.
pub open spec fn trim_end(s: Seq<char>) -> Seq<char>
    decreases s.len(),
{
    if s.len() > 0 && is_white(s.last()) {
        trim_end(s.drop_last())
    } else {
        s
    }
}

/// The text without white space at either end.
pub open spec fn trim(s: Seq<char>) -> Seq<char> {
    trim_end(trim_start(s))
}

/// Where the text of `v[from..to]` starts and ends once trimmed.
pub fn trim_bounds(v: &Vec<char>, from: usize, to: usize) -> (r: (usize, usize))
    requires
        from <= to <= v@.len(),
    ensures
        from <= r.0 <= r.1 <= to,
        v@.subrange(r.0 as int, r.1 as int) == trim(v@.subrange(from as int, to as int)),
{
    let mut a: usize = from;
    while a < to && white(v[a])
        invariant
            from <= a <= to <= v@.len(),
            trim_start(v@.subrange(a as int, to as int)) == trim_start(
                v@.subrange(from as int, to as int),
            ),
        decreases to - a,
    {
        proof {
            assert(v@.subrange(a as int, to as int).drop_first() == v@.subrange(
                a + 1,
                to as int,
            ));
        }
        a += 1;
    }
    let mut b: usize = to;
    while a < b && white(v[b - 1])
        invariant
            from <= a <= b <= to <= v@.len(),
            trim_end(v@.subrange(a as int, b as int)) == trim_end(
                v@.subrange(a as int, to as int),
            ),
        decreases b - a,
    {
        proof {
            assert(v@.subrange(a as int, b as int).drop_last() == v@.subrange(
                a as int,
                b - 1,
            ));
        }
        b -= 1;
    }
    (a, b)
}

/// The text without white space at either end.
pub fn trimmed(s: &str) -> (r: String)
    ensures
        r@ == trim(s@),
{
    let v = chars_of(s);
    let (a, b) = trim_bounds(&v, 0, v.len());
    proof {
        assert(v@.subrange(0, v@.len() as int) == s@);
    }
    text_of(&v, a, b)
}

/// Whether `part` stands in `s` at `i`.
pub open spec fn stands_at(s: Seq<char>, part: Seq<char>, i: int) -> bool {
    0 <= i && i + part.len() <= s.len() && s.subrange(i, i + part.len()) == part
}

/// Whether `part` stands anywhere in `s`.
pub open spec fn has_part(s: Seq<char>, part: Seq<char>) -> bool {
    exists|i: int| stands_at(s, part, i)
}

/// Whether `part` stands in `v` at `i`.
pub fn stands(v: &Vec<char>, part: &Vec<char>, i: usize) -> (r: bool)
    ensures
        r == stands_at(v@, part@, i as int),
{
    if i > v.len() || v.len() - i < part.len() {
        return false;
    }
    let mut k: usize = 0;
    while k < part.len()
        invariant
            i + part.len() <= v.len(),
            k <= part.len(),
            forall|j: int| 0 <= j < k ==> v@[i + j] == part@[j],
        decreases part.len() - k,
    {
        if v[i + k] != part[k] {
            proof {
                assert(v@.subrange(i as int, i + part@.len())[k as int] == v@[i + k]);
            }
            return false;
        }
        k += 1;
    }
    proof {
        assert(v@.subrange(i as int, i + part@.len()) =~= part@);
    }
    true
}

/// Whether `part` stands anywhere in `s`.
pub fn contains(s: &str, part: &str) -> (r: bool)
    ensures
        r == has_part(s@, part@),
{
    let v = chars_of(s);
    let p = chars_of(part);
    let mut i: usize = 0;
    while i <= v.len() && p.len() <= v.len() - i
        invariant
            v@ == s@,
            p@ == part@,
            i <= v.len() + 1,
            i <= usize::MAX,
            forall|j: int| 0 <= j < i ==> !stands_at(s@, part@, j),
        decreases v.len() + 1 - i,
    {
        if stands(&v, &p, i) {
            return true;
        }
        if i == v.len() {
            return false;
        }
        i += 1;
    }
    false
}

/// Whether a text begins with `part`.
pub fn starts_with(s: &str, part: &str) -> (r: bool)
    ensures
        r == part@.is_prefix_of(s@),
{
    let v = chars_of(s);
    let p = chars_of(part);
    let r = stands(&v, &p, 0);
    proof {
        if p@.len() <= v@.len() {
            assert(v@.subrange(0, p@.len() as int) =~= v@.take(p@.len() as int));
        }
    }
    r
}

/// The lower-case letter for an upper-case letter of ASCII, any other character as it is.
pub open spec fn ascii_lower(c: char) -> char {
    if 'A' <= c <= 'Z' {
        (c as u8 + 32) as char
    } else {
        c
    }
}

/// Whether a text is made of ASCII characters only.
pub open spec fn is_ascii_text(s: Seq<char>) -> bool {
    forall|i: int| 0 <= i < s.len() ==> #[trigger] s[i] <= '\u{7f}'
}

/// What `str::to_lowercase` makes of a text.
pub uninterp spec fn lowercase(s: Seq<char>) -> Seq<char>;

/// `str::to_lowercase`: the Unicode lower-case mapping of the text, which depends on the
/// text alone. Every character maps to at least one, so that only the empty text becomes
/// empty; of an ASCII text, the letters from A to Z change and nothing else.
#[verifier::external_body]
pub(crate) fn to_lower(s: &str) -> (r: String)
    ensures
        r@ == lowercase(s@),
        r@.len() == 0 <==> s@.len() == 0,
        is_ascii_text(s@) ==> r@ == s@.map_values(|c: char| ascii_lower(c)),
{
    s.to_lowercase()
}

/// The number of bytes that a character takes in UTF-8.
pub open spec fn utf8_width(c: char) -> nat {
    encode_scalar(c as u32).len()
}

/// Where the `i`-th character of a text starts, counted in bytes of UTF-8.
pub open spec fn byte_offset(s: Seq<char>, i: int) -> nat {
    encode_utf8(s.take(i)).len()
}

/// The UTF-8 bytes of a text with one more character at its end.
pub proof fn lemma_encode_push(s: Seq<char>, c: char)
    ensures
        encode_utf8(s.push(c)) == encode_utf8(s) + encode_scalar(c as u32),
    decreases s.len(),
{
    if s.len() == 0 {
        assert(s.push(c).drop_first() == Seq::<char>::empty());
        assert(encode_utf8(s) == Seq::<u8>::empty());
        assert(encode_utf8(Seq::<char>::empty()) == Seq::<u8>::empty());
    } else {
        lemma_encode_push(s.drop_first(), c);
        assert(s.push(c).drop_first() == s.drop_first().push(c));
        assert(encode_utf8(s.push(c)) == encode_scalar(s[0] as u32) + (encode_utf8(s.drop_first())
            + encode_scalar(c as u32)));
    }
}

/// Each character moves the byte offset on by its width.
pub proof fn lemma_byte_offset_step(s: Seq<char>, i: int)
    requires
        0 <= i < s.len(),
    ensures
        byte_offset(s, i + 1) == byte_offset(s, i) + utf8_width(s[i]),
{
    lemma_encode_push(s.take(i), s[i]);
    assert(s.take(i + 1) == s.take(i).push(s[i]));
}

/// Byte offsets grow along the text, by at least one a character.
pub proof fn lemma_byte_offset_grows(s: Seq<char>, i: int, j: int)
    requires
        0 <= i <= j <= s.len(),
    ensures
        byte_offset(s, i) + (j - i) <= byte_offset(s, j),
    decreases j - i,
{
    if i < j {
        lemma_byte_offset_grows(s, i, j - 1);
        lemma_byte_offset_step(s, j - 1);
        vstd::utf8::char_is_scalar(s[j - 1]);
    }
}

/// The width of a character, from its code point.
pub fn width_of(c: char) -> (r: usize)
    ensures
        r == utf8_width(c),
        1 <= r <= 4,
{
    proof {
        vstd::utf8::char_is_scalar(c);
    }
    if c <= '\u{7f}' {
        1
    } else if c <= '\u{7ff}' {
        2
    } else if c <= '\u{ffff}' {
        3
    } else {
        4
    }
}

/// The number of bytes that `v[from..to]` takes.
pub fn bytes_between(v: &Vec<char>, from: usize, to: usize) -> (r: usize)
    requires
        from <= to <= v@.len(),
        encode_utf8(v@).len() <= usize::MAX,
    ensures
        byte_offset(v@, from as int) + r == byte_offset(v@, to as int),
{
    let mut r: usize = 0;
    let mut i: usize = from;
    while i < to
        invariant
            from <= i <= to <= v@.len(),
            encode_utf8(v@).len() <= usize::MAX,
            byte_offset(v@, from as int) + r == byte_offset(v@, i as int),
        decreases to - i,
    {
        proof {
            lemma_byte_offset_step(v@, i as int);
            lemma_byte_offset_grows(v@, i + 1, v@.len() as int);
            assert(v@.take(v@.len() as int) == v@);
        }
        r += width_of(v[i]);
        i += 1;
    }
    r
}

/// A text in which every `q` stands twice.
pub open spec fn doubled(s: Seq<char>, q: char) -> Seq<char>
    decreases s.len(),
{
    if s.len() == 0 {
        s
    } else if s.last() == q {
        doubled(s.drop_last(), q).push(q).push(q)
    } else {
        doubled(s.drop_last(), q).push(s.last())
    }
}

/// A text between two quotes `q`, with every `q` in it doubled.
pub open spec fn quoted(s: Seq<char>, q: char) -> Seq<char> {
    seq![q] + doubled(s, q) + seq![q]
}

/// Puts a text between two quotes `q`, doubling every `q` in it.
pub fn quote(s: &str, q: char) -> (r: String)
    ensures
        r@ == quoted(s@, q),
{
    let mut r = String::new();
    r.push(q);
    for c in it: s.chars()
        invariant
            it.seq() == s@,
            r@ == seq![q] + doubled(s@.take(it.index() as int), q),
    {
        proof {
            let k = it.index() as int;
            assert(s@.take(k + 1).drop_last() == s@.take(k));
        }
        if c == q {
            r.push(q);
        }
        r.push(c);
    }
    proof {
        assert(s@.take(s@.len() as int) == s@);
    }
    r.push(q);
    r
}

/// The parts one after the other, with `sep` between each two.
pub open spec fn joined(parts: Seq<Seq<char>>, sep: Seq<char>) -> Seq<char>
    decreases parts.len(),
{
    if parts.len() == 0 {
        Seq::empty()
    } else if parts.len() == 1 {
        parts[0]
    } else {
        joined(parts.drop_last(), sep) + sep + parts.last()
    }
}

/// Joins texts with a separator between each two.
pub fn join(parts: &Vec<String>, sep: &str) -> (r: String)
    ensures
        r@ == joined(parts.deep_view(), sep@),
{
    let mut r = String::new();
    let mut i: usize = 0;
    while i < parts.len()
        invariant
            i <= parts@.len(),
            r@ == joined(parts.deep_view().take(i as int), sep@),
        decreases parts@.len() - i,
    {
        proof {
            assert(parts.deep_view().take(i + 1).drop_last() == parts.deep_view().take(i as int));
        }
        if i > 0 {
            r.append(sep);
        }
        r.append(parts[i].as_str());
        i += 1;
    }
    proof {
        assert(parts.deep_view().take(i as int) == parts.deep_view());
    }
    r
}

/// The parts one after the other.
pub open spec fn concat_all(parts: Seq<Seq<char>>) -> Seq<char>
    decreases parts.len(),
{
    if parts.len() == 0 {
        Seq::empty()
    } else {
        concat_all(parts.drop_last()) + parts.last()
    }
}

/// The digit for a value below 16, in lower case.
pub open spec fn digit(n: nat) -> char {
    if n < 10 {
        (('0' as u8) + n) as char
    } else {
        (('a' as u8) + (n - 10)) as char
    }
}

/// A number in decimal digits, without leading zeros.
pub open spec fn decimal(n: nat) -> Seq<char>
    decreases n,
{
    if n < 10 {
        seq![digit(n)]
    } else {
        decimal(n / 10).push(digit(n % 10))
    }
}

/// The digit for a value below 16, in lower case.
pub fn digit_of(n: u64) -> (r: char)
    requires
        n < 16,
    ensures
        r == digit(n as nat),
{
    if n < 10 {
        (0x30u8 + n as u8) as char
    } else {
        (0x61u8 + (n as u8 - 10)) as char
    }
}

/// Writes a number in decimal digits.
pub fn decimal_text(n: u64) -> (r: String)
    ensures
        r@ == decimal(n as nat),
    decreases n,
{
    let mut r = if n < 10 {
        String::new()
    } else {
        decimal_text(n / 10)
    };
    r.push(digit_of(n % 10));
    r
}

/// A number in decimal digits, with a minus sign where it is negative.
pub open spec fn signed_decimal(n: int) -> Seq<char> {
    if n < 0 {
        seq!['-'] + decimal((-n) as nat)
    } else {
        decimal(n as nat)
    }
}

/// Writes a number in decimal digits, with a minus sign where it is negative.
pub fn signed_decimal_text(n: i64) -> (r: String)
    ensures
        r@ == signed_decimal(n as int),
{
    if n < 0 {
        let size: u64 = (-(n + 1)) as u64 + 1;
        let mut r = String::new();
        r.push('-');
        r.concat(decimal_text(size).as_str())
    } else {
        decimal_text(n as u64)
    }
}

/// A decimal digit.
pub open spec fn is_digit(c: char) -> bool {
    '0' <= c <= '9'
}

/// Whether every character is a decimal digit.
pub open spec fn all_digits(s: Seq<char>) -> bool {
    forall|i: int| 0 <= i < s.len() ==> is_digit(#[trigger] s[i])
}

/// The number that decimal digits stand for.
pub open spec fn number_of(s: Seq<char>) -> nat
    decreases s.len(),
{
    if s.len() == 0 {
        0
    } else {
        (number_of(s.drop_last()) * 10 + (s.last() as int - '0' as int)) as nat
    }
}

/// The number that a text stands for: digits, with or without a plus sign before them,
/// for a number of at most `max`. Any other text stands for none.
pub open spec fn parsed(s: Seq<char>, max: nat) -> Option<nat> {
    let d = if s.len() > 0 && s[0] == '+' {
        s.drop_first()
    } else {
        s
    };
    if d.len() > 0 && all_digits(d) && number_of(d) <= max {
        Some(number_of(d))
    } else {
        None
    }
}

/// More digits never make the number smaller.
proof fn lemma_number_grows(s: Seq<char>, k: int)
    requires
        all_digits(s),
        0 <= k <= s.len(),
    ensures
        number_of(s.take(k)) <= number_of(s),
    decreases s.len(),
{
    if k == s.len() {
        assert(s.take(k) =~= s);
    } else {
        assert(is_digit(s[s.len() - 1]));
        assert(all_digits(s.drop_last())) by {
            assert forall|i: int| 0 <= i < s.drop_last().len() implies is_digit(
                #[trigger] s.drop_last()[i],
            ) by {
                assert(is_digit(s[i]));
            }
        }
        lemma_number_grows(s.drop_last(), k);
        assert(s.drop_last().take(k) =~= s.take(k));
    }
}

/// Reads a decimal number of at most `max`.
pub fn parse_number(s: &str, max: u64) -> (r: Option<u64>)
    ensures
        (match r {
            Some(n) => parsed(s@, max as nat) == Some(n as nat),
            None => parsed(s@, max as nat) is None,
        }),
{
    let v = chars_of(s);
    let start: usize = if v.len() > 0 && v[0] == '+' {
        1
    } else {
        0
    };
    let ghost d = v@.skip(start as int);
    proof {
        if start == 1 {
            assert(d =~= s@.drop_first());
        } else {
            assert(d =~= s@);
        }
    }
    if start == v.len() {
        return None;
    }
    let mut n: u64 = 0;
    let mut i: usize = start;
    while i < v.len()
        invariant
            start <= i <= v@.len(),
            d == v@.skip(start as int),
            parsed(s@, max as nat) == (if d.len() > 0 && all_digits(d) && number_of(d) <= max {
                Some(number_of(d))
            } else {
                None
            }),
            all_digits(d.take(i - start)),
            n == number_of(d.take(i - start)),
            n <= max,
        decreases v@.len() - i,
    {
        let c = v[i];
        proof {
            assert(d[i - start] == c);
        }
        if !('0' <= c && c <= '9') {
            proof {
                assert(!is_digit(d[i - start]));
            }
            return None;
        }
        let k: u64 = c as u64 - 0x30;
        proof {
            assert(d.take(i + 1 - start).drop_last() =~= d.take(i - start));
            assert forall|j: int| 0 <= j < i + 1 - start implies is_digit(
                #[trigger] d.take(i + 1 - start)[j],
            ) by {
                if j < i - start {
                    assert(is_digit(d.take(i - start)[j]));
                }
            }
            assert(number_of(d.take(i + 1 - start)) == n * 10 + k);
            if all_digits(d) {
                lemma_number_grows(d, i + 1 - start);
            }
        }
        if k > max || n > (max - k) / 10 {
            return None;
        }
        n = n * 10 + k;
        i += 1;
    }
    proof {
        assert(d.take(i - start) =~= d);
    }
    Some(n)
}

/// The digits of a number read back as that number.
pub proof fn lemma_decimal_parses(n: nat)
    ensures
        all_digits(decimal(n)),
        decimal(n).len() > 0,
        number_of(decimal(n)) == n,
    decreases n,
{
    reveal_with_fuel(number_of, 2);
    if n >= 10 {
        lemma_decimal_parses(n / 10);
        let s = decimal(n);
        assert(s.drop_last() =~= decimal(n / 10));
        assert forall|i: int| 0 <= i < s.len() implies is_digit(#[trigger] s[i]) by {
            if i < s.len() - 1 {
                assert(is_digit(decimal(n / 10)[i]));
            }
        }
    } else {
        assert(decimal(n).drop_last() =~= Seq::<char>::empty());
    }
}

} // verus!
