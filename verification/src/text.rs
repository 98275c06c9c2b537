//! Strings as character sequences and as UTF-8 bytes.
use vstd::prelude::*;
use vstd::utf8::*;

verus! {

/// Compares two strings, byte by byte.
pub fn same_str(a: &str, b: &str) -> (r: bool)
    ensures
        r == (a@ == b@),
{
    let x = a.as_bytes();
    let y = b.as_bytes();
    proof {
        encode_utf8_decode_utf8(a@);
        encode_utf8_decode_utf8(b@);
    }
    if x.len() != y.len() {
        return false;
    }
    let mut i: usize = 0;
    while i < x.len()
        invariant
            i <= x@.len() == y@.len(),
            forall|j: int| 0 <= j < i ==> x@[j] == y@[j],
            x@ == encode_utf8(a@),
            y@ == encode_utf8(b@),
        decreases x@.len() - i,
    {
        if x[i] != y[i] {
            return false;
        }
        i = i + 1;
    }
    assert(x@ =~= y@);
    true
}

/// `String::push` of std: appends one character.
pub assume_specification[ std::string::String::push ](s: &mut std::string::String, c: char)
    ensures
        final(s)@ == old(s)@.push(c),
;

/// Calls `String::from_utf8` of std: the bytes become a string exactly when they are valid UTF-8,
/// and the string's UTF-8 encoding is those bytes.
#[verifier::external_body]
pub(crate) fn string_from_utf8(bytes: Vec<u8>) -> (r: Option<String>)
    ensures
        r is Some <==> valid_utf8(bytes@),
        r matches Some(s) ==> encode_utf8(s@) == bytes@,
{
    String::from_utf8(bytes).ok()
}

/// The characters of a string.
pub fn to_chars(s: &str) -> (r: Vec<char>)
    ensures
        r@ == s@,
{
    let mut out: Vec<char> = Vec::new();
    for c in it: s.chars()
        invariant
            it.seq() == s@,
            out@ == s@.take(it.index() as int),
    {
        out.push(c);
        assert(s@.take(it.index() + 1) =~= s@.take(it.index() as int).push(c));
    }
    assert(s@.take(s@.len() as int) =~= s@);
    out
}

/// The string of a run of characters.
pub fn from_chars(cs: &[char]) -> (r: String)
    ensures
        r@ == cs@,
{
    let mut out = String::new();
    let mut i: usize = 0;
    while i < cs.len()
        invariant
            i <= cs@.len(),
            out@ == cs@.take(i as int),
        decreases cs@.len() - i,
    {
        out.push(cs[i]);
        assert(cs@.take(i + 1) =~= cs@.take(i as int).push(cs@[i as int]));
        i = i + 1;
    }
    assert(cs@.take(i as int) =~= cs@);
    out
}

/// Appends a string to another.
pub fn push_str(out: &mut String, s: &str)
    ensures
        final(out)@ == old(out)@ + s@,
{
    let cs = to_chars(s);
    let mut i: usize = 0;
    while i < cs.len()
        invariant
            i <= cs@.len(),
            cs@ == s@,
            out@ == old(out)@ + s@.take(i as int),
        decreases cs@.len() - i,
    {
        out.push(cs[i]);
        assert(s@.take(i + 1) =~= s@.take(i as int).push(s@[i as int]));
        i = i + 1;
    }
    assert(s@.take(i as int) =~= s@);
}

/// A text as a string of its own.
pub fn owned(text: &str) -> (r: String)
    ensures
        r@ == text@,
{
    let mut s = String::new();
    push_str(&mut s, text);
    assert(s@ =~= text@);
    s
}

/// The decimal digit `d`, for `d < 10`.
pub open spec fn digit(d: nat) -> char {
    (48 + d) as char
}

/// The decimal numeral of `n`, without leading zeros.
pub open spec fn decimal(n: nat) -> Seq<char>
    decreases n,
{
    if n < 10 {
        seq![digit(n)]
    } else {
        decimal(n / 10).push(digit(n % 10))
    }
}

/// The last `k` decimal digits of `n`, with leading zeros.
pub open spec fn digits(n: nat, k: nat) -> Seq<char>
    decreases k,
{
    if k == 0 {
        Seq::empty()
    } else {
        digits(n / 10, (k - 1) as nat).push(digit(n % 10))
    }
}

/// The digit `d` as a character.
fn digit_char(d: u64) -> (c: char)
    requires
        d < 10,
    ensures
        c == digit(d as nat),
{
    (48u8 + d as u8) as char
}

/// Appends a decimal numeral.
pub fn push_decimal(out: &mut String, n: u64)
    ensures
        final(out)@ == old(out)@ + decimal(n as nat),
    decreases n,
{
    if n >= 10 {
        push_decimal(out, n / 10);
    }
    out.push(digit_char(n % 10));
    assert(out@ =~= old(out)@ + decimal(n as nat));
}

/// A signed number in decimal digits.
pub open spec fn signed_text(n: int) -> Seq<char> {
    if n < 0 {
        "-"@ + decimal((-n) as nat)
    } else {
        decimal(n as nat)
    }
}

/// Appends a signed number.
pub fn push_signed(s: &mut String, n: i32)
    ensures
        final(s)@ == old(s)@ + signed_text(n as int),
{
    let w: i64 = n as i64;
    if w < 0 {
        push_str(s, "-");
        push_decimal(s, (-w) as u64);
        assert(s@ =~= old(s)@ + signed_text(n as int));
    } else {
        push_decimal(s, w as u64);
    }
}

/// Appends the last `k` digits of a number, with leading zeros.
pub fn push_digits(out: &mut String, n: u64, k: u32)
    ensures
        final(out)@ == old(out)@ + digits(n as nat, k as nat),
    decreases k,
{
    if k > 0 {
        push_digits(out, n / 10, k - 1);
        out.push(digit_char(n % 10));
    }
    assert(out@ =~= old(out)@ + digits(n as nat, k as nat));
}

/// The lower-case hexadecimal digit `d`, for `d < 16`.
pub open spec fn hex_digit(d: nat) -> char {
    if d < 10 {
        (48 + d) as char
    } else {
        (87 + d) as char
    }
}

/// The last `k` hexadecimal digits of `n`, with leading zeros.
pub open spec fn hex_digits(n: nat, k: nat) -> Seq<char>
    decreases k,
{
    if k == 0 {
        Seq::empty()
    } else {
        hex_digits(n / 16, (k - 1) as nat).push(hex_digit(n % 16))
    }
}

/// Appends the last `k` hexadecimal digits of a number, with leading zeros.
pub fn push_hex(out: &mut String, n: u64, k: u32)
    ensures
        final(out)@ == old(out)@ + hex_digits(n as nat, k as nat),
    decreases k,
{
    if k > 0 {
        push_hex(out, n / 16, k - 1);
        let d: u64 = n % 16;
        if d < 10 {
            out.push((48u8 + d as u8) as char);
        } else {
            out.push((87u8 + d as u8) as char);
        }
    }
    assert(out@ =~= old(out)@ + hex_digits(n as nat, k as nat));
}

/// A decimal digit.
pub open spec fn is_digit(c: char) -> bool {
    48 <= c as u32 <= 57
}

/// Every character is a decimal digit.
pub open spec fn all_digits(s: Seq<char>) -> bool {
    forall|i: int| 0 <= i < s.len() ==> is_digit(#[trigger] s[i])
}

/// The number that a run of decimal digits writes.
pub open spec fn digits_value(s: Seq<char>) -> nat
    decreases s.len(),
{
    if s.len() == 0 {
        0
    } else {
        10 * digits_value(s.drop_last()) + (s.last() as u32 - 48) as nat
    }
}

/// Digits are written back from the number that they write, and it has no more of them.
pub proof fn lemma_digits_value(s: Seq<char>)
    requires
        all_digits(s),
        s.len() <= 5,
    ensures
        digits(digits_value(s), s.len()) == s,
        digits_value(s) <= 99999,
{
    lemma_digits_back(s);
    reveal_with_fuel(digits_value, 6);
}

proof fn lemma_digit(c: char)
    requires
        is_digit(c),
    ensures
        digit((c as u32 - 48) as nat) == c,
{
    assert(c as int == c as u32);
}

proof fn lemma_digits_back(s: Seq<char>)
    requires
        all_digits(s),
    ensures
        digits(digits_value(s), s.len()) == s,
    decreases s.len(),
{
    if s.len() > 0 {
        let t = s.drop_last();
        lemma_digits_back(t);
        let v = digits_value(t);
        assert(is_digit(s.last()));
        let k = (s.last() as u32 - 48) as nat;
        assert((10 * v + k) / 10 == v && (10 * v + k) % 10 == k);
        lemma_digit(s.last());
        assert(digits(digits_value(s), s.len()) =~= t.push(s.last()));
    }
    assert(digits(digits_value(s), s.len()) =~= s);
}

/// The natural number that a numeral writes: at least one digit, after an optional plus sign.
pub open spec fn numeral(s: Seq<char>) -> Option<nat> {
    let d = if s.len() > 0 && s[0] == '+' {
        s.skip(1)
    } else {
        s
    };
    if d.len() > 0 && all_digits(d) {
        Some(digits_value(d))
    } else {
        None
    }
}

/// A numeral that fits 64 bits.
pub open spec fn numeral_u64(s: Seq<char>) -> Option<u64> {
    match numeral(s) {
        Some(n) => if n <= u64::MAX {
            Some(n as u64)
        } else {
            None
        },
        None => None,
    }
}

/// Reads a numeral that fits 64 bits.
pub fn parse_u64(cs: &[char]) -> (r: Option<u64>)
    ensures
        r == numeral_u64(cs@),
{
    let from: usize = if cs.len() > 0 && cs[0] == '+' {
        1
    } else {
        0
    };
    let ghost d = cs@.skip(from as int);
    assert(from == 0 ==> d =~= cs@);
    if cs.len() == from {
        return None;
    }
    let mut acc: u64 = 0;
    let mut over: bool = false;
    let mut i: usize = from;
    while i < cs.len()
        invariant
            from <= i <= cs@.len(),
            d == cs@.skip(from as int),
            all_digits(d.take(i - from)),
            over ==> digits_value(d.take(i - from)) > u64::MAX,
            !over ==> acc as nat == digits_value(d.take(i - from)),
            numeral(cs@) == (if d.len() > 0 && all_digits(d) {
                Some(digits_value(d))
            } else {
                None
            }),
        decreases cs@.len() - i,
    {
        let c: char = cs[i];
        proof {
            assert(d.take(i - from + 1).drop_last() =~= d.take(i - from));
            assert(d[i - from] == c);
        }
        if (c as u32) < 48 || (c as u32) > 57 {
            assert(!is_digit(d[i - from]));
            return None;
        }
        let x: u64 = (c as u32 - 48) as u64;
        if !over {
            if acc > (u64::MAX - x) / 10 {
                over = true;
            } else {
                acc = acc * 10 + x;
            }
        }
        proof {
            assert forall|j: int| 0 <= j < d.take(i - from + 1).len() implies is_digit(
                #[trigger] d.take(i - from + 1)[j],
            ) by {
                if j < i - from {
                    assert(d.take(i - from + 1)[j] == d.take(i - from)[j]);
                }
            }
        }
        i = i + 1;
    }
    assert(d.take(i - from) =~= d);
    if over {
        None
    } else {
        Some(acc)
    }
}

/// A decimal numeral reads back as its number.
pub proof fn lemma_decimal(n: nat)
    ensures
        decimal(n).len() > 0,
        all_digits(decimal(n)),
        digits_value(decimal(n)) == n,
        numeral(decimal(n)) == Some(n),
    decreases n,
{
    let s = decimal(n);
    let d = n % 10;
    assert(digit(d) as u32 == 48 + d);
    if n >= 10 {
        lemma_decimal(n / 10);
        assert(s.drop_last() =~= decimal(n / 10));
        assert forall|i: int| 0 <= i < s.len() implies is_digit(#[trigger] s[i]) by {
            if i < s.len() - 1 {
                assert(s[i] == decimal(n / 10)[i]);
            }
        }
    } else {
        assert(s.drop_last() =~= Seq::<char>::empty());
        assert(digits_value(Seq::<char>::empty()) == 0);
    }
    assert(s.last() == digit(d));
    assert(is_digit(s[0]));
}

/// Decimal numerals: the ten digits, each one above the one before, highest place first, and no zero
/// in front of another digit.
pub proof fn law_decimal(n: nat, d: nat)
    requires
        d < 10,
    ensures
        digit(0) == '0',
        digit(9) == '9',
        digit(d) as u32 == '0' as u32 + d,
        decimal(d) == seq![digit(d)],
        n > 0 ==> decimal(10 * n + d) == decimal(n).push(digit(d)),
        n > 0 ==> decimal(n)[0] != '0',
    decreases n,
{
    assert((10 * n + d) / 10 == n && (10 * n + d) % 10 == d);
    if n >= 10 {
        law_decimal(n / 10, n % 10);
        lemma_decimal(n / 10);
    }
}

/// A numeral is read in base ten, with a plus sign in front or without; anything else is none.
pub proof fn law_numeral(s: Seq<char>, c: char, n: nat)
    ensures
        numeral(decimal(n)) == Some(n),
        numeral(seq!['+'] + decimal(n)) == Some(n),
        numeral(Seq::empty()) is None,
        numeral(seq!['+']) is None,
        s.len() > 0 && all_digits(s) && is_digit(c) ==> numeral(s.push(c)) == Some(
            10 * numeral(s)->0 + (c as u32 - 48) as nat,
        ),
        !is_digit(c) && s.len() > 0 ==> numeral(s.push(c)) is None,
        n <= u64::MAX ==> numeral_u64(decimal(n)) == Some(n as u64),
        n > u64::MAX ==> numeral_u64(decimal(n)) is None,
{
    lemma_decimal(n);
    let p = seq!['+'] + decimal(n);
    assert(p.skip(1) =~= decimal(n));
    assert(is_digit(decimal(n)[0]));
    assert(seq!['+'].skip(1) =~= Seq::<char>::empty());
    let t = s.push(c);
    if s.len() > 0 && all_digits(s) && is_digit(c) {
        assert(is_digit(s[0]));
        assert(t[0] == s[0]);
        assert(t.drop_last() =~= s);
        assert forall|i: int| 0 <= i < t.len() implies is_digit(#[trigger] t[i]) by {
            if i < s.len() {
                assert(t[i] == s[i]);
            }
        }
    }
    if !is_digit(c) && s.len() > 0 {
        assert(t[s.len() as int] == c);
        let d = t.skip(1);
        assert(d[d.len() - 1] == c);
    }
}

/// Hexadecimal digits are the ten digits and the letters a to f; negative numbers have a minus sign
/// in front.
pub proof fn law_other_digits(n: nat, k: nat)
    ensures
        hex_digit(0) == '0',
        hex_digit(9) == '9',
        hex_digit(10) == 'a',
        hex_digit(15) == 'f',
        hex_digits(n, k).len() == k,
        hex_digits(n, k + 1).last() == hex_digit(n % 16),
        hex_digits(n, k + 1).drop_last() == hex_digits(n / 16, k),
        digits(n, k + 1).last() == digit(n % 10),
        digits(n, k + 1).drop_last() == digits(n / 10, k),
        n > 0 ==> signed_text(-(n as int)) == "-"@ + decimal(n),
        signed_text(n as int) == decimal(n),
    decreases k,
{
    if k > 0 {
        law_other_digits(n / 16, (k - 1) as nat);
    }
    assert(hex_digits(n, k + 1).drop_last() =~= hex_digits(n / 16, k));
    assert(digits(n, k + 1).drop_last() =~= digits(n / 10, k));
}

} // verus!
