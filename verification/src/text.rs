//! Character-level helpers: reading the characters of a string, building a
//! string from characters, decimal rendering and parsing, and padding.

use vstd::prelude::*;

verus! {

broadcast use vstd::string::group_string_axioms;

/// The characters of `s`, in order.
pub fn chars_of(s: &str) -> (r: Vec<char>)
    ensures
        r@ == s@,
{
    let mut r: Vec<char> = Vec::new();
    for c in it: s.chars()
        invariant
            it.seq() == s@,
            r@ == it.seq().take(it.index() as int),
    {
        r.push(c);
    }
    r
}

/// Collects characters into a `String` (std's `FromIterator<char>` for
/// `String`): the string holds exactly these characters, in order.
#[verifier::external_body]
pub(crate) fn string_from_chars(chars: &Vec<char>) -> (s: String)
    ensures
        s@ == chars@,
{
    chars.iter().collect()
}

/// Whether `c` is one of the ASCII digits `0`..=`9`.
pub open spec fn is_digit(c: char) -> bool {
    48 <= (c as u32) <= 57
}

/// The value of an ASCII digit.
pub open spec fn digit_value(c: char) -> int {
    (c as u32) - 48
}

/// The ASCII digit whose value is `d` (for `0 <= d <= 9`).
pub open spec fn digit_char(d: int) -> char {
    ((d + 48) as u32) as char
}

/// The decimal digits of `n`, most significant first, without leading zeros
/// (`"0"` for zero): what `to_string` gives for an unsigned integer.
pub open spec fn decimal(n: nat) -> Seq<char>
    decreases n,
{
    if n < 10 {
        seq![digit_char(n as int)]
    } else {
        decimal(n / 10).push(digit_char((n % 10) as int))
    }
}

/// What `to_string` gives for a signed integer: a `-` before the digits of
/// the magnitude when the value is negative.
pub open spec fn signed_decimal(v: int) -> Seq<char> {
    if v < 0 {
        seq!['-'] + decimal((-v) as nat)
    } else {
        decimal(v as nat)
    }
}

/// Whether every character of `s` is an ASCII digit.
pub open spec fn all_digits(s: Seq<char>) -> bool {
    forall|i: int| 0 <= i < s.len() ==> #[trigger] is_digit(s[i])
}

/// The number that a string of digits denotes.
pub open spec fn digits_value(s: Seq<char>) -> int
    decreases s.len(),
{
    if s.len() == 0 {
        0
    } else {
        digits_value(s.drop_last()) * 10 + digit_value(s.last())
    }
}

/// Whether `s` starts with a sign character (`+` or `-`).
pub open spec fn has_sign(s: Seq<char>) -> bool {
    s.len() > 0 && (s[0] == '-' || s[0] == '+')
}

/// The digits of `s` after an optional leading sign.
pub open spec fn unsigned_part(s: Seq<char>) -> Seq<char> {
    if has_sign(s) {
        s.drop_first()
    } else {
        s
    }
}

/// What std's `FromStr` gives for a signed integer type whose values are
/// `lo..=hi`: an optional `+` or `-`, then at least one ASCII digit and
/// nothing else, denoting a value in range; `None` for every other text
/// (empty text, a lone sign, any other character, a value out of range).
pub open spec fn parse_signed(s: Seq<char>, lo: int, hi: int) -> Option<int> {
    let body = unsigned_part(s);
    if body.len() == 0 || !all_digits(body) {
        None
    } else {
        let v = if s[0] == '-' {
            -digits_value(body)
        } else {
            digits_value(body)
        };
        if lo <= v <= hi {
            Some(v)
        } else {
            None
        }
    }
}

/// What std's `FromStr` for `bool` gives: `true` for exactly `"true"`,
/// `false` for exactly `"false"`, `None` otherwise.
pub open spec fn parse_bool_text(s: Seq<char>) -> Option<bool> {
    if s == seq!['t', 'r', 'u', 'e'] {
        Some(true)
    } else if s == seq!['f', 'a', 'l', 's', 'e'] {
        Some(false)
    } else {
        None
    }
}

/// What `to_string` gives for a `bool`.
pub open spec fn bool_text(b: bool) -> Seq<char> {
    if b {
        seq!['t', 'r', 'u', 'e']
    } else {
        seq!['f', 'a', 'l', 's', 'e']
    }
}

/// `s` followed by spaces up to `width` characters (text left-aligned in a
/// field of that width); `s` itself when it is already that long.
pub open spec fn pad_right(s: Seq<char>, width: nat) -> Seq<char> {
    if s.len() >= width {
        s
    } else {
        s + Seq::new((width - s.len()) as nat, |i: int| ' ')
    }
}

/// Spaces up to `width` characters followed by `s` (text right-aligned in a
/// field of that width); `s` itself when it is already that long.
pub open spec fn pad_left(s: Seq<char>, width: nat) -> Seq<char> {
    if s.len() >= width {
        s
    } else {
        Seq::new((width - s.len()) as nat, |i: int| ' ') + s
    }
}

fn digit_to_char(d: u64) -> (c: char)
    requires
        d < 10,
    ensures
        c == digit_char(d as int),
        is_digit(c),
        digit_value(c) == d,
{
    let c = if d == 0 {
        '0'
    } else if d == 1 {
        '1'
    } else if d == 2 {
        '2'
    } else if d == 3 {
        '3'
    } else if d == 4 {
        '4'
    } else if d == 5 {
        '5'
    } else if d == 6 {
        '6'
    } else if d == 7 {
        '7'
    } else if d == 8 {
        '8'
    } else {
        '9'
    };
    c
}

/// Appends the decimal digits of `n` to `out`.
pub fn push_decimal(out: &mut Vec<char>, n: u64)
    ensures
        final(out)@ == old(out)@ + decimal(n as nat),
    decreases n,
{
    if n >= 10 {
        push_decimal(out, n / 10);
    }
    let c = digit_to_char(n % 10);
    out.push(c);
    proof {
        if n >= 10 {
            assert(old(out)@ + decimal(n as nat) =~= old(out)@ + decimal((n / 10) as nat) + seq![c]);
        } else {
            assert(old(out)@ + decimal(n as nat) =~= old(out)@ + seq![c]);
        }
    }
}

/// Appends what `to_string` gives for the signed value `v` to `out`.
pub fn push_signed_decimal(out: &mut Vec<char>, v: i64)
    ensures
        final(out)@ == old(out)@ + signed_decimal(v as int),
{
    if v < 0 {
        out.push('-');
        let m: u64 = if v == i64::MIN {
            9223372036854775808u64
        } else {
            (-v) as u64
        };
        push_decimal(out, m);
        assert(final(out)@ =~= old(out)@ + signed_decimal(v as int));
    } else {
        push_decimal(out, v as u64);
    }
}

/// What `to_string` gives for an unsigned 32-bit value.
pub fn u32_text(n: u32) -> (s: String)
    ensures
        s@ == decimal(n as nat),
{
    let mut v: Vec<char> = Vec::new();
    push_decimal(&mut v, n as u64);
    assert(v@ =~= decimal(n as nat));
    string_from_chars(&v)
}

/// What `to_string` gives for a signed 32-bit value.
pub fn i32_text(v: i32) -> (s: String)
    ensures
        s@ == signed_decimal(v as int),
{
    let mut c: Vec<char> = Vec::new();
    push_signed_decimal(&mut c, v as i64);
    assert(c@ =~= signed_decimal(v as int));
    string_from_chars(&c)
}

/// What `to_string` gives for a `bool`.
pub fn bool_to_text(b: bool) -> (s: String)
    ensures
        s@ == bool_text(b),
{
    let mut c: Vec<char> = Vec::new();
    if b {
        c.push('t');
        c.push('r');
        c.push('u');
        c.push('e');
    } else {
        c.push('f');
        c.push('a');
        c.push('l');
        c.push('s');
        c.push('e');
    }
    assert(c@ =~= bool_text(b));
    string_from_chars(&c)
}

/// Appends `s` to `out`, followed by spaces up to `width` characters.
pub fn push_padded_right(out: &mut Vec<char>, s: &Vec<char>, width: usize)
    ensures
        final(out)@ == old(out)@ + pad_right(s@, width as nat),
{
    let mut i: usize = 0;
    while i < s.len()
        invariant
            i <= s.len(),
            out@ == old(out)@ + s@.take(i as int),
        decreases s.len() - i,
    {
        out.push(s[i]);
        i = i + 1;
        assert(out@ =~= old(out)@ + s@.take(i as int));
    }
    assert(s@.take(s.len() as int) =~= s@);
    let mut k: usize = s.len();
    while k < width
        invariant
            s.len() <= k,
            k <= width || k == s.len(),
            out@ == old(out)@ + s@ + Seq::new((k - s.len()) as nat, |j: int| ' '),
        decreases width - k,
    {
        out.push(' ');
        k = k + 1;
        assert(out@ =~= old(out)@ + s@ + Seq::new((k - s.len()) as nat, |j: int| ' '));
    }
    assert(final(out)@ =~= old(out)@ + pad_right(s@, width as nat));
}

/// Appends spaces up to `width` characters in all, then `s`, to `out`.
pub fn push_padded_left(out: &mut Vec<char>, s: &Vec<char>, width: usize)
    ensures
        final(out)@ == old(out)@ + pad_left(s@, width as nat),
{
    let mut k: usize = s.len();
    while k < width
        invariant
            s.len() <= k,
            k <= width || k == s.len(),
            out@ == old(out)@ + Seq::new((k - s.len()) as nat, |j: int| ' '),
        decreases width - k,
    {
        out.push(' ');
        k = k + 1;
        assert(out@ =~= old(out)@ + Seq::new((k - s.len()) as nat, |j: int| ' '));
    }
    let ghost mid = out@;
    let mut i: usize = 0;
    while i < s.len()
        invariant
            i <= s.len(),
            out@ == mid + s@.take(i as int),
        decreases s.len() - i,
    {
        out.push(s[i]);
        i = i + 1;
        assert(out@ =~= mid + s@.take(i as int));
    }
    assert(s@.take(s.len() as int) =~= s@);
    assert(final(out)@ =~= old(out)@ + pad_left(s@, width as nat));
}


proof fn lemma_digits_value_step(s: Seq<char>, k: int)
    requires
        0 <= k < s.len(),
    ensures
        digits_value(s.take(k + 1)) == digits_value(s.take(k)) * 10 + digit_value(s[k]),
{
    assert(s.take(k + 1).drop_last() =~= s.take(k));
}

proof fn lemma_digits_value_grows(s: Seq<char>, i: int, j: int)
    requires
        all_digits(s),
        0 <= i <= j <= s.len(),
    ensures
        0 <= digits_value(s.take(i)) <= digits_value(s.take(j)),
    decreases j,
{
    if j == 0 {
        assert(s.take(0) =~= Seq::<char>::empty());
    } else {
        let i2 = if i < j {
            i
        } else {
            j - 1
        };
        lemma_digits_value_grows(s, i2, j - 1);
        lemma_digits_value_step(s, j - 1);
        assert(is_digit(s[j - 1]));
    }
}

/// Parses `s` as std's `FromStr` does for a signed integer type whose values
/// are `lo..=hi`.
fn parse_in_range(s: &Vec<char>, lo: i128, hi: i128) -> (r: Option<i128>)
    requires
        lo <= 0 <= hi,
        -0x1_0000_0000_0000_0000 <= lo,
        hi <= 0xffff_ffff_ffff_ffff,
    ensures
        match r {
            Some(v) => parse_signed(s@, lo as int, hi as int) == Some(v as int),
            None => parse_signed(s@, lo as int, hi as int) is None,
        },
{
    let n = s.len();
    if n == 0 {
        return None;
    }
    let neg = s[0] == '-';
    let start: usize = if s[0] == '-' || s[0] == '+' {
        1
    } else {
        0
    };
    let ghost body = unsigned_part(s@);
    assert(body.len() == n - start);
    assert(forall|k: int| 0 <= k < body.len() ==> #[trigger] body[k] == s@[k + start]);
    if start == n {
        return None;
    }
    let mut i: usize = start;
    while i < n
        invariant
            start <= i <= n,
            n == s.len(),
            body.len() == n - start,
            body == unsigned_part(s@),
            neg == (s@[0] == '-'),
            forall|k: int| 0 <= k < body.len() ==> #[trigger] body[k] == s@[k + start],
            forall|k: int| 0 <= k < i - start ==> #[trigger] is_digit(body[k]),
        decreases n - i,
    {
        let code = s[i] as u32;
        if code < 48 || code > 57 {
            assert(body[i - start] == s@[i as int]);
            assert(!is_digit(body[i - start]));
            return None;
        }
        assert(body[i - start] == s@[i as int]);
        i = i + 1;
    }
    assert(all_digits(body));
    let limit: u128 = if neg {
        (0 - lo) as u128
    } else {
        hi as u128
    };
    let mut m: u128 = 0;
    i = start;
    assert(body.take(0) =~= Seq::<char>::empty());
    while i < n
        invariant
            start <= i <= n,
            n == s.len(),
            body.len() == n - start,
            body == unsigned_part(s@),
            neg == (s@[0] == '-'),
            forall|k: int| 0 <= k < body.len() ==> #[trigger] body[k] == s@[k + start],
            all_digits(body),
            limit <= 0x1_0000_0000_0000_0000,
            limit == (if neg { -lo } else { hi as int }),
            m <= limit,
            m == digits_value(body.take(i - start)),
        decreases n - i,
    {
        proof {
            lemma_digits_value_step(body, i - start);
            assert(body[i - start] == s@[i as int]);
            assert(is_digit(body[i - start]));
        }
        let d = (s[i] as u32 - 48) as u128;
        m = m * 10 + d;
        i = i + 1;
        if m > limit {
            proof {
                lemma_digits_value_grows(body, i - start, body.len() as int);
                assert(body.take(body.len() as int) =~= body);
            }
            return None;
        }
    }
    assert(body.take(body.len() as int) =~= body);
    if neg {
        Some(0 - (m as i128))
    } else {
        Some(m as i128)
    }
}

/// Parses `s` as std's `str::parse::<i32>` does.
pub fn parse_i32(s: &str) -> (r: Option<i32>)
    ensures
        match r {
            Some(v) => parse_signed(s@, i32::MIN as int, i32::MAX as int) == Some(v as int),
            None => parse_signed(s@, i32::MIN as int, i32::MAX as int) is None,
        },
{
    let c = chars_of(s);
    match parse_in_range(&c, i32::MIN as i128, i32::MAX as i128) {
        Some(v) => Some(v as i32),
        None => None,
    }
}

/// Parses `s` as std's `str::parse::<isize>` does.
pub fn parse_isize(s: &str) -> (r: Option<isize>)
    ensures
        match r {
            Some(v) => parse_signed(s@, isize::MIN as int, isize::MAX as int) == Some(v as int),
            None => parse_signed(s@, isize::MIN as int, isize::MAX as int) is None,
        },
{
    let c = chars_of(s);
    match parse_in_range(&c, isize::MIN as i128, isize::MAX as i128) {
        Some(v) => Some(v as isize),
        None => None,
    }
}

/// Parses `s` as std's `str::parse::<bool>` does.
pub fn parse_bool(s: &str) -> (r: Option<bool>)
    ensures
        r == parse_bool_text(s@),
{
    let c = chars_of(s);
    if c.len() == 4 && c[0] == 't' && c[1] == 'r' && c[2] == 'u' && c[3] == 'e' {
        assert(c@ =~= seq!['t', 'r', 'u', 'e']);
        Some(true)
    } else if c.len() == 5 && c[0] == 'f' && c[1] == 'a' && c[2] == 'l' && c[3] == 's' && c[4]
        == 'e' {
        assert(c@ =~= seq!['f', 'a', 'l', 's', 'e']);
        assert(c@ != seq!['t', 'r', 'u', 'e']);
        Some(false)
    } else {
        assert(c@ != seq!['t', 'r', 'u', 'e']) by {
            if c@ == seq!['t', 'r', 'u', 'e'] {
                assert(c@.len() == 4);
                assert(c@[0] == 't' && c@[1] == 'r' && c@[2] == 'u' && c@[3] == 'e');
            }
        }
        assert(c@ != seq!['f', 'a', 'l', 's', 'e']) by {
            if c@ == seq!['f', 'a', 'l', 's', 'e'] {
                assert(c@.len() == 5);
                assert(c@[0] == 'f' && c@[1] == 'a' && c@[2] == 'l' && c@[3] == 's' && c@[4] == 'e');
            }
        }
        None
    }
}


proof fn lemma_digit_round_trip(d: int)
    requires
        0 <= d <= 9,
    ensures
        is_digit(digit_char(d)),
        digit_value(digit_char(d)) == d,
{
    if d == 0 {
    } else if d == 1 {
    } else if d == 2 {
    } else if d == 3 {
    } else if d == 4 {
    } else if d == 5 {
    } else if d == 6 {
    } else if d == 7 {
    } else if d == 8 {
    } else {
    }
}

proof fn lemma_decimal_digits(n: nat)
    ensures
        decimal(n).len() > 0,
        all_digits(decimal(n)),
        digits_value(decimal(n)) == n,
    decreases n,
{
    if n < 10 {
        lemma_digit_round_trip(n as int);
        let s = decimal(n);
        assert(s.drop_last() =~= Seq::<char>::empty());
        assert(digits_value(s.drop_last()) == 0);
        assert(s.last() == digit_char(n as int));
        assert(digits_value(s) == digits_value(s.drop_last()) * 10 + digit_value(s.last()));
    } else {
        lemma_decimal_digits(n / 10);
        lemma_digit_round_trip((n % 10) as int);
        let s = decimal(n);
        assert(s.drop_last() =~= decimal(n / 10));
        assert(s.last() == digit_char((n % 10) as int));
        assert((n / 10) * 10 + n % 10 == n) by (nonlinear_arith);
        assert(digits_value(s) == digits_value(s.drop_last()) * 10 + digit_value(s.last()));
        assert forall|i: int| 0 <= i < s.len() implies #[trigger] is_digit(s[i]) by {
            if i < s.len() - 1 {
                assert(s[i] == decimal(n / 10)[i]);
            }
        }
    }
}

/// Parsing what `to_string` gives for a value gives the value back, for an
/// unsigned value within the range of the type parsed to.
pub proof fn law_decimal_round_trip(n: nat, lo: int, hi: int)
    requires
        lo <= 0,
        n <= hi,
    ensures
        parse_signed(decimal(n), lo, hi) == Some(n as int),
{
    lemma_decimal_digits(n);
    let s = decimal(n);
    assert(is_digit(s[0]));
    assert(!has_sign(s));
}

/// Parsing what `to_string` gives for a signed value gives the value back,
/// for a value within the range of the type parsed to.
pub proof fn law_signed_decimal_round_trip(v: int, lo: int, hi: int)
    requires
        lo <= v <= hi,
        lo <= 0,
    ensures
        parse_signed(signed_decimal(v), lo, hi) == Some(v),
{
    if v < 0 {
        let m = (-v) as nat;
        lemma_decimal_digits(m);
        let s = signed_decimal(v);
        assert(s[0] == '-');
        assert(unsigned_part(s) =~= decimal(m));
    } else {
        law_decimal_round_trip(v as nat, lo, hi);
    }
}

/// Parsing what `to_string` gives for a `bool` gives it back.
pub proof fn law_bool_round_trip(b: bool)
    ensures
        parse_bool_text(bool_text(b)) == Some(b),
{
    if !b {
        assert(bool_text(b) != seq!['t', 'r', 'u', 'e']) by {
            assert(bool_text(b).len() == 5);
        }
    }
}

/// What `to_string` gives for a number is never empty.
pub proof fn lemma_signed_decimal_nonempty(v: int)
    ensures
        signed_decimal(v).len() > 0,
{
    if v < 0 {
        lemma_decimal_digits((-v) as nat);
    } else {
        lemma_decimal_digits(v as nat);
    }
}

/// What `to_string` gives for an unsigned value is its canonical decimal
/// form: ASCII digits only, denoting the value, with no leading zero except
/// for zero itself, which is the single digit `0`.
pub proof fn law_decimal_canonical(n: nat)
    ensures
        decimal(n).len() > 0,
        all_digits(decimal(n)),
        digits_value(decimal(n)) == n,
        n == 0 ==> decimal(n) == seq!['0'],
        n > 0 ==> decimal(n)[0] != '0',
    decreases n,
{
    lemma_decimal_digits(n);
    if n == 0 {
        assert(decimal(n) =~= seq!['0']);
    } else if n < 10 {
        lemma_digit_round_trip(n as int);
    } else {
        law_decimal_canonical(n / 10);
        assert(decimal(n)[0] == decimal(n / 10)[0]);
    }
}

/// Text padded on the right is the text itself followed by spaces, and is
/// exactly as long as the field when shorter than it, unchanged otherwise.
/// Padded on the left it is spaces followed by the text, likewise.
pub proof fn law_padding(s: Seq<char>, width: nat)
    ensures
        pad_right(s, width).len() == if s.len() >= width {
            s.len()
        } else {
            width
        },
        pad_left(s, width).len() == pad_right(s, width).len(),
        pad_right(s, width).take(s.len() as int) == s,
        pad_left(s, width).skip(pad_left(s, width).len() - s.len()) == s,
        forall|i: int|
            s.len() <= i < pad_right(s, width).len() ==> #[trigger] pad_right(s, width)[i] == ' ',
        forall|i: int|
            0 <= i < pad_left(s, width).len() - s.len() ==> #[trigger] pad_left(s, width)[i]
                == ' ',
{
    assert(pad_right(s, width).take(s.len() as int) =~= s);
    assert(pad_left(s, width).skip(pad_left(s, width).len() - s.len()) =~= s);
}

/// What parsing rejects: the empty text, a lone sign, and any text holding a
/// character other than an ASCII digit after its optional leading sign. An
/// unsigned run of digits parses to the number it denotes when in range, and
/// the same run after `-` to its negation.
pub proof fn law_parse_signed_shape(s: Seq<char>, lo: int, hi: int)
    ensures
        s.len() == 0 ==> parse_signed(s, lo, hi) is None,
        s == seq!['-'] || s == seq!['+'] ==> parse_signed(s, lo, hi) is None,
        (exists|i: int| 1 <= i < s.len() && !is_digit(#[trigger] s[i])) ==> parse_signed(
            s,
            lo,
            hi,
        ) is None,
        s.len() > 0 && !is_digit(s[0]) && s[0] != '-' && s[0] != '+' ==> parse_signed(
            s,
            lo,
            hi,
        ) is None,
        s.len() > 0 && all_digits(s) && lo <= digits_value(s) <= hi ==> parse_signed(s, lo, hi)
            == Some(digits_value(s)),
        s.len() > 0 && all_digits(s) && lo <= -digits_value(s) <= hi ==> parse_signed(
            seq!['-'] + s,
            lo,
            hi,
        ) == Some(-digits_value(s)),
{
    if exists|i: int| 1 <= i < s.len() && !is_digit(#[trigger] s[i]) {
        let i = choose|i: int| 1 <= i < s.len() && !is_digit(#[trigger] s[i]);
        let body = unsigned_part(s);
        if has_sign(s) {
            assert(body[i - 1] == s[i]);
        } else {
            assert(body[i] == s[i]);
        }
    }
    if s.len() > 0 && !is_digit(s[0]) && s[0] != '-' && s[0] != '+' {
        assert(!is_digit(unsigned_part(s)[0]));
    }
    if s.len() > 0 && all_digits(s) {
        assert(is_digit(s[0]));
        let t = seq!['-'] + s;
        assert(t[0] == '-');
        assert(unsigned_part(t) =~= s);
    }
}

} // verus!
