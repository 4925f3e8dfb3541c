//! Byte-level helpers shared by the header codec: decimal numbers, ASCII
//! case-insensitive comparison and exact comparison of strings.
use vstd::prelude::*;

verus! {

/// An ASCII decimal digit.
pub open spec fn is_digit(b: u8) -> bool {
    48 <= b && b <= 57
}

/// The decimal representation of `n`: most significant digit first, no
/// leading zeros, and `"0"` for zero.
pub open spec fn decimal(n: nat) -> Seq<u8>
    decreases n,
{
    if n < 10 {
        seq![(48 + n) as u8]
    } else {
        decimal(n / 10).push((48 + n % 10) as u8)
    }
}

/// Why a string is not the decimal text of a `usize`; the variants follow
/// the kinds of `std::num::ParseIntError` that an unsigned parse can give.
#[derive(Clone, Copy, Debug, PartialEq, Eq)]
pub enum IntErrorKind {
    /// The string is empty.
    Empty,
    /// The string holds a byte that is not a digit (a lone `+` counts).
    InvalidDigit,
    /// The number does not fit in a `usize`.
    PosOverflow,
}

/// The text that `std` shows for each kind of parse error.
pub open spec fn int_error_text(k: IntErrorKind) -> Seq<char> {
    match k {
        IntErrorKind::Empty => "cannot parse integer from empty string"@,
        IntErrorKind::InvalidDigit => "invalid digit found in string"@,
        IntErrorKind::PosOverflow => "number too large to fit in target type"@,
    }
}

impl IntErrorKind {
    /// The text that `std` shows for this kind of parse error.
    pub fn message(self) -> (s: &'static str)
        ensures
            s@ == int_error_text(self),
    {
        match self {
            IntErrorKind::Empty => "cannot parse integer from empty string",
            IntErrorKind::InvalidDigit => "invalid digit found in string",
            IntErrorKind::PosOverflow => "number too large to fit in target type",
        }
    }
}

/// Digits read left to right: the first byte that is no digit, or the first
/// digit after which the value exceeds `usize::MAX`, decides the error.
pub open spec fn parse_digits(d: Seq<u8>) -> Result<nat, IntErrorKind>
    decreases d.len(),
{
    if d.len() == 0 {
        Ok(0)
    } else {
        match parse_digits(d.drop_last()) {
            Err(e) => Err(e),
            Ok(v) => {
                if !is_digit(d.last()) {
                    Err(IntErrorKind::InvalidDigit)
                } else if v * 10 + (d.last() - 48) > usize::MAX {
                    Err(IntErrorKind::PosOverflow)
                } else {
                    Ok((v * 10 + (d.last() - 48)) as nat)
                }
            },
        }
    }
}

/// The result of parsing `s` as a `usize` the way `str::parse::<usize>`
/// does: an optional leading `+`, then one or more decimal digits.
pub open spec fn spec_parse_usize(s: Seq<u8>) -> Result<usize, IntErrorKind> {
    if s.len() == 0 {
        Err(IntErrorKind::Empty)
    } else if s[0] == 43 && s.len() == 1 {
        Err(IntErrorKind::InvalidDigit)
    } else {
        let d = if s[0] == 43 {
            s.drop_first()
        } else {
            s
        };
        match parse_digits(d) {
            Ok(v) => Ok(v as usize),
            Err(e) => Err(e),
        }
    }
}

/// ASCII lower case of a byte; other bytes are unchanged.
pub open spec fn ascii_lower(b: u8) -> u8 {
    if 65 <= b && b <= 90 {
        (b + 32) as u8
    } else {
        b
    }
}

/// `a` and `b` are equal once ASCII letters are folded to lower case.
pub open spec fn eq_ignore_ascii_case(a: Seq<u8>, b: Seq<u8>) -> bool {
    &&& a.len() == b.len()
    &&& forall|i: int| 0 <= i < a.len() ==> ascii_lower(#[trigger] a[i]) == ascii_lower(b[i])
}

proof fn lemma_parse_digits_err_extends(d: Seq<u8>, n: int)
    requires
        0 <= n <= d.len(),
        parse_digits(d.take(n)) is Err,
    ensures
        parse_digits(d) == parse_digits(d.take(n)),
    decreases d.len() - n,
{
    if n < d.len() {
        assert(d.take(n + 1).drop_last() =~= d.take(n));
        lemma_parse_digits_err_extends(d, n + 1);
    } else {
        assert(d.take(n) =~= d);
    }
}

/// The decimal text of a number is a non-empty string of digits.
pub proof fn lemma_decimal_len(n: nat)
    ensures
        decimal(n).len() >= 1,
        forall|i: int| 0 <= i < decimal(n).len() ==> is_digit(#[trigger] decimal(n)[i]),
    decreases n,
{
    if n >= 10 {
        lemma_decimal_len(n / 10);
    }
}

/// The decimal text of a number other than zero does not start with `0`.
pub proof fn lemma_decimal_no_leading_zero(n: nat)
    requires
        n >= 1,
    ensures
        decimal(n)[0] != 48,
    decreases n,
{
    if n >= 10 {
        lemma_decimal_no_leading_zero(n / 10);
        lemma_decimal_len(n / 10);
    }
}

/// Parsing the decimal text of a number gives the number back.
pub proof fn lemma_parse_decimal(n: nat)
    requires
        n <= usize::MAX,
    ensures
        parse_digits(decimal(n)) == Ok::<nat, IntErrorKind>(n),
        spec_parse_usize(decimal(n)) == Ok::<usize, IntErrorKind>(n as usize),
    decreases n,
{
    lemma_decimal_len(n);
    let d = decimal(n);
    if n < 10 {
        assert(d.drop_last() =~= Seq::<u8>::empty());
        assert(d.last() == (48 + n) as u8);
        assert(parse_digits(d.drop_last()) == Ok::<nat, IntErrorKind>(0));
    } else {
        lemma_parse_decimal(n / 10);
        assert(d.drop_last() =~= decimal(n / 10));
        assert(d.last() == (48 + n % 10) as u8);
        assert((n / 10) * 10 + n % 10 == n);
    }
    assert(parse_digits(d) == Ok::<nat, IntErrorKind>(n));
    assert(is_digit(d[0]));
}

/// Appends the decimal text of `n` to `out`.
pub fn push_decimal(n: u64, out: &mut Vec<u8>)
    ensures
        final(out)@ == old(out)@ + decimal(n as nat),
    decreases n,
{
    if n >= 10 {
        push_decimal(n / 10, out);
    }
    let digit = (n % 10) as u8;
    out.push(48 + digit);
    proof {
        if n >= 10 {
            assert(decimal(n as nat) == decimal((n / 10) as nat).push((48 + n % 10) as u8));
        }
    }
    assert(final(out)@ =~= old(out)@ + decimal(n as nat)) by {
        if n < 10 {
            assert(decimal(n as nat) =~= seq![(48 + n) as u8]);
        }
    }
}

proof fn lemma_digit_step(acc: usize, digit: usize)
    requires
        digit <= 9,
    ensures
        (acc * 10 + digit <= usize::MAX) <==> acc <= (usize::MAX - digit) / 10,
{
    let m = (usize::MAX - digit) as int;
    assert((acc * 10 + digit <= usize::MAX) <==> acc <= m / 10) by (nonlinear_arith)
        requires
            m == usize::MAX - digit,
            m >= 0,
            acc >= 0,
    ;
}

/// Parses `s` as a `usize` exactly as `str::parse::<usize>` does.
pub fn parse_usize(s: &[u8]) -> (r: Result<usize, IntErrorKind>)
    ensures
        r == spec_parse_usize(s@),
{
    if s.len() == 0 {
        return Err(IntErrorKind::Empty);
    }
    let mut start: usize = 0;
    if s[0] == 43 {
        if s.len() == 1 {
            return Err(IntErrorKind::InvalidDigit);
        }
        start = 1;
    }
    let ghost d = if s@[0] == 43 {
        s@.drop_first()
    } else {
        s@
    };
    assert(d =~= s@.subrange(start as int, s@.len() as int));
    let mut acc: usize = 0;
    let mut i: usize = start;
    assert(d.take(0) =~= Seq::<u8>::empty());
    while i < s.len()
        invariant
            start <= i <= s.len(),
            d == s@.subrange(start as int, s@.len() as int),
            s@.len() > 0,
            !(s@[0] == 43 && s@.len() == 1),
            d == (if s@[0] == 43 {
                s@.drop_first()
            } else {
                s@
            }),
            parse_digits(d.take(i - start)) == Ok::<nat, IntErrorKind>(acc as nat),
        decreases s.len() - i,
    {
        let b = s[i];
        let ghost k = (i - start) as int;
        assert(d.take(k + 1).drop_last() =~= d.take(k));
        assert(d.take(k + 1).last() == b);
        if b < 48 || b > 57 {
            proof {
                assert(parse_digits(d.take(k + 1)) == Err::<nat, IntErrorKind>(
                    IntErrorKind::InvalidDigit,
                ));
                lemma_parse_digits_err_extends(d, k + 1);
            }
            return Err(IntErrorKind::InvalidDigit);
        }
        let digit = (b - 48) as usize;
        proof {
            lemma_digit_step(acc, digit);
        }
        if acc > (usize::MAX - digit) / 10 {
            proof {
                assert(parse_digits(d.take(k + 1)) == Err::<nat, IntErrorKind>(
                    IntErrorKind::PosOverflow,
                ));
                lemma_parse_digits_err_extends(d, k + 1);
            }
            return Err(IntErrorKind::PosOverflow);
        }
        acc = acc * 10 + digit;
        i = i + 1;
    }
    assert(d.take(i - start) =~= d);
    Ok(acc)
}

/// Whether two byte strings are equal.
pub fn bytes_eq(a: &[u8], b: &[u8]) -> (r: bool)
    ensures
        r == (a@ == b@),
{
    if a.len() != b.len() {
        return false;
    }
    let mut i: usize = 0;
    while i < a.len()
        invariant
            a.len() == b.len(),
            0 <= i <= a.len(),
            forall|j: int| 0 <= j < i ==> a@[j] == b@[j],
        decreases a.len() - i,
    {
        if a[i] != b[i] {
            return false;
        }
        i = i + 1;
    }
    assert(a@ =~= b@);
    true
}

/// Whether two strings hold the same characters.
pub fn str_eq(a: &str, b: &str) -> (r: bool)
    ensures
        r == (a@ == b@),
{
    proof {
        broadcast use vstd::utf8::encode_utf8_decode_utf8;

        assert(decode_utf8_of(a@) == a@);
        assert(decode_utf8_of(b@) == b@);
    }
    bytes_eq(a.as_bytes(), b.as_bytes())
}

spec fn decode_utf8_of(s: Seq<char>) -> Seq<char> {
    vstd::utf8::decode_utf8(vstd::utf8::encode_utf8(s))
}

/// Whether two byte strings match when ASCII letters are folded to lower
/// case, as `str::eq_ignore_ascii_case` compares.
pub fn bytes_eq_ignore_ascii_case(a: &[u8], b: &[u8]) -> (r: bool)
    ensures
        r == eq_ignore_ascii_case(a@, b@),
{
    if a.len() != b.len() {
        return false;
    }
    let mut i: usize = 0;
    while i < a.len()
        invariant
            a.len() == b.len(),
            0 <= i <= a.len(),
            forall|j: int| 0 <= j < i ==> ascii_lower(#[trigger] a@[j]) == ascii_lower(b@[j]),
        decreases a.len() - i,
    {
        let x = a[i];
        let y = b[i];
        let lx = if 65 <= x && x <= 90 {
            x + 32
        } else {
            x
        };
        let ly = if 65 <= y && y <= 90 {
            y + 32
        } else {
            y
        };
        if lx != ly {
            assert(ascii_lower(a@[i as int]) != ascii_lower(b@[i as int]));
            return false;
        }
        i = i + 1;
    }
    true
}

/// Bytes below 128 are valid UTF-8.
pub proof fn lemma_ascii_valid(b: Seq<u8>)
    requires
        forall|i: int| 0 <= i < b.len() ==> b[i] < 128,
    ensures
        vstd::utf8::valid_utf8(b),
{
    assert(b.subrange(0, 0) =~= Seq::<u8>::empty());
    assert(vstd::utf8::valid_utf8(Seq::<u8>::empty()));
    assert forall|i: int| 0 <= 0 <= i < b.len() <= b.len() implies
        #[trigger] vstd::utf8::is_leading_byte_width_1(b[i]) by {}
    vstd::utf8::partial_valid_utf8_extend_ascii_block(b, 0, b.len() as int);
    assert(b.subrange(0, b.len() as int) =~= b);
}

} // verus!
