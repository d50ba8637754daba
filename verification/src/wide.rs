//! Wide (UTF-16) text as the window-system interfaces exchange it: strings
//! encoded with a terminating NUL, and buffers cut at their first NUL.

use vstd::prelude::*;

verus! {

broadcast use vstd::string::group_string_axioms;

/// The UTF-16 code units of one character: one unit for a character below
/// U+10000, otherwise a high surrogate followed by a low surrogate.
pub open spec fn utf16_units(c: char) -> Seq<u16> {
    let v = c as int;
    if v < 0x10000 {
        seq![v as u16]
    } else {
        seq![(0xD800 + (v - 0x10000) / 1024) as u16, (0xDC00 + (v - 0x10000) % 1024) as u16]
    }
}

/// The UTF-16 encoding of a character sequence.
pub open spec fn utf16_encode(s: Seq<char>) -> Seq<u16>
    decreases s.len(),
{
    if s.len() == 0 {
        Seq::empty()
    } else {
        utf16_encode(s.drop_last()) + utf16_units(s.last())
    }
}

/// Whether `r` is the part of `s` before its first NUL unit (all of `s` when
/// it holds none).
pub open spec fn is_prefix_before_nul(s: Seq<u16>, r: Seq<u16>) -> bool {
    &&& r.len() <= s.len()
    &&& r == s.take(r.len() as int)
    &&& forall|i: int| 0 <= i < r.len() ==> #[trigger] r[i] != 0
    &&& r.len() < s.len() ==> s[r.len() as int] == 0
}

/// The units of `text` before its first NUL; all of `text` when it holds
/// none. This is how a fixed-size buffer filled by the window system is read
/// back as text.
pub fn truncate_at_nul(text: &[u16]) -> (r: Vec<u16>)
    ensures
        is_prefix_before_nul(text@, r@),
{
    let mut r: Vec<u16> = Vec::new();
    let mut i: usize = 0;
    while i < text.len()
        invariant
            i <= text@.len(),
            r@ == text@.take(i as int),
            forall|j: int| 0 <= j < i ==> #[trigger] text@[j] != 0,
        decreases text.len() - i,
    {
        if text[i] == 0 {
            return r;
        }
        r.push(text[i]);
        i = i + 1;
        assert(r@ =~= text@.take(i as int));
    }
    assert(text@.take(i as int) =~= text@);
    r
}

proof fn lemma_encode_take_step(s: Seq<char>, k: int)
    requires
        0 <= k < s.len(),
    ensures
        utf16_encode(s.take(k + 1)) == utf16_encode(s.take(k)) + utf16_units(s[k]),
{
    assert(s.take(k + 1).drop_last() =~= s.take(k));
}

/// Appends the UTF-16 units of `c` to `out`.
fn push_utf16(out: &mut Vec<u16>, c: char)
    ensures
        final(out)@ == old(out)@ + utf16_units(c),
{
    let v = c as u32;
    if v < 0x10000 {
        out.push(v as u16);
        assert(final(out)@ =~= old(out)@ + utf16_units(c));
    } else {
        let u = v - 0x10000;
        out.push((0xD800 + u / 1024) as u16);
        out.push((0xDC00 + u % 1024) as u16);
        assert(final(out)@ =~= old(out)@ + utf16_units(c));
    }
}

/// The UTF-16 encoding of `s` followed by a terminating NUL, as the
/// window-system calls that take a wide string expect it.
pub fn str_to_lpcwstr(s: &str) -> (r: Vec<u16>)
    ensures
        r@ == utf16_encode(s@).push(0),
{
    let mut r: Vec<u16> = Vec::new();
    assert(s@.take(0) =~= Seq::<char>::empty());
    for c in it: s.chars()
        invariant
            it.seq() == s@,
            r@ == utf16_encode(it.seq().take(it.index() as int)),
    {
        proof {
            lemma_encode_take_step(s@, it.index() as int);
        }
        push_utf16(&mut r, c);
    }
    assert(s@.take(s@.len() as int) =~= s@);
    r.push(0);
    r
}

proof fn lemma_units_not_nul(c: char)
    requires
        c != '\0',
    ensures
        forall|j: int| 0 <= j < utf16_units(c).len() ==> #[trigger] utf16_units(c)[j] != 0,
{
}

proof fn lemma_encode_has_no_nul(s: Seq<char>)
    requires
        forall|i: int| 0 <= i < s.len() ==> #[trigger] s[i] != '\0',
    ensures
        forall|j: int| 0 <= j < utf16_encode(s).len() ==> #[trigger] utf16_encode(s)[j] != 0,
    decreases s.len(),
{
    if s.len() > 0 {
        let p = s.drop_last();
        assert forall|i: int| 0 <= i < p.len() implies #[trigger] p[i] != '\0' by {
            assert(p[i] == s[i]);
        }
        lemma_encode_has_no_nul(p);
        lemma_units_not_nul(s.last());
        let e = utf16_encode(s);
        assert forall|j: int| 0 <= j < e.len() implies #[trigger] e[j] != 0 by {
            if j < utf16_encode(p).len() {
                assert(e[j] == utf16_encode(p)[j]);
            } else {
                assert(e[j] == utf16_units(s.last())[j - utf16_encode(p).len()]);
            }
        }
    }
}

/// Encoding a string that holds no NUL character for the window system and
/// reading the encoded buffer back up to its first NUL gives exactly the
/// string's UTF-16 encoding: the terminator is the only NUL, and nothing of
/// the text is lost.
pub proof fn law_nul_terminated_round_trip(s: Seq<char>)
    requires
        forall|i: int| 0 <= i < s.len() ==> #[trigger] s[i] != '\0',
    ensures
        is_prefix_before_nul(utf16_encode(s).push(0), utf16_encode(s)),
{
    lemma_encode_has_no_nul(s);
    let e = utf16_encode(s);
    assert(e =~= e.push(0).take(e.len() as int));
}

/// A character below U+10000 is the single unit of its code point; any
/// other is a high surrogate (`0xD800..=0xDBFF`) followed by a low
/// surrogate (`0xDC00..=0xDFFF`) from which the code point is recovered as
/// `0x10000 + (high - 0xD800) * 1024 + (low - 0xDC00)`.
pub proof fn law_utf16_units(c: char)
    ensures
        (c as int) < 0x10000 ==> utf16_units(c) == seq![c as int as u16] && utf16_units(c)[0]
            == c as int,
        (c as int) >= 0x10000 ==> {
            let u = utf16_units(c);
            &&& u.len() == 2
            &&& 0xD800 <= u[0] <= 0xDBFF
            &&& 0xDC00 <= u[1] <= 0xDFFF
            &&& 0x10000 + (u[0] - 0xD800) * 1024 + (u[1] - 0xDC00) == c as int
        },
{
}

} // verus!
