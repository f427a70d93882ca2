//! Text helpers over the UTF-8 bytes of a scene file: slicing out the text
//! between ASCII delimiters, and comparing strings.

use vstd::prelude::*;
use vstd::utf8::*;
use vstd::string::*;

verus! {

/// An ASCII byte inside valid UTF-8 starts a character and is followed by a
/// character boundary.
pub proof fn lemma_ascii_boundaries(b: Seq<u8>, k: int)
    requires
        valid_utf8(b),
        0 <= k < b.len(),
        b[k] < 0x80,
    ensures
        is_char_boundary(b, k),
        is_char_boundary(b, k + 1),
    decreases b.len(),
{
    reveal_with_fuel(is_char_boundary, 2);
    let len1 = length_of_first_scalar(b);
    let rest = pop_first_scalar(b);
    assert(valid_first_scalar(b));
    assert(valid_utf8(rest));
    if k == 0 {
        assert(len1 == 1);
        assert(rest.len() == b.len() - 1);
    } else if k < len1 {
        assert(is_continuation_byte(b[k]));
    } else {
        assert(rest.len() == b.len() - len1);
        assert(rest[k - len1] == b[k]);
        lemma_ascii_boundaries(rest, k - len1);
    }
}

/// The bytes between two character boundaries of valid UTF-8 are valid UTF-8.
pub proof fn lemma_subrange_valid(b: Seq<u8>, s: int, e: int)
    requires
        valid_utf8(b),
        0 <= s <= e <= b.len(),
        is_char_boundary(b, s),
        is_char_boundary(b, e),
    ensures
        valid_utf8(b.subrange(s, e)),
    decreases b.len(),
{
    if s == 0 {
        valid_utf8_split(b, e);
        assert(b.subrange(0, e) =~= b.subrange(s, e));
    } else {
        let len1 = length_of_first_scalar(b);
        let rest = pop_first_scalar(b);
        assert(valid_first_scalar(b));
        assert(valid_utf8(rest));
        assert(is_char_boundary(rest, s - len1));
        assert(is_char_boundary(rest, e - len1));
        assert(rest.len() == b.len() - len1);
        lemma_subrange_valid(rest, s - len1, e - len1);
        assert(rest.subrange(s - len1, e - len1) =~= b.subrange(s, e));
    }
}

/// A cut of the bytes that falls between characters: the start or end of
/// the input, an ASCII byte, or the byte after an ASCII byte.
pub open spec fn ascii_cut(b: Seq<u8>, k: int) -> bool {
    ||| k == 0
    ||| k == b.len()
    ||| (0 <= k < b.len() && b[k] < 0x80)
    ||| (0 < k <= b.len() && b[k - 1] < 0x80)
}

/// A run of bytes `b[start..end]` whose both ends are ASCII cuts.
pub open spec fn ascii_delimited(b: Seq<u8>, start: int, end: int) -> bool {
    &&& 0 <= start <= end <= b.len()
    &&& ascii_cut(b, start)
    &&& ascii_cut(b, end)
}

proof fn lemma_ascii_cut_boundary(b: Seq<u8>, k: int)
    requires
        valid_utf8(b),
        0 <= k <= b.len(),
        ascii_cut(b, k),
    ensures
        is_char_boundary(b, k),
{
    is_char_boundary_start_end_of_seq(b);
    if k == 0 || k == b.len() {
    } else if b[k] < 0x80 {
        lemma_ascii_boundaries(b, k);
    } else {
        lemma_ascii_boundaries(b, k - 1);
    }
}

/// `std::str::from_utf8`: on valid UTF-8 it returns the string whose
/// characters are the UTF-8 decoding of the bytes.
#[verifier::external_body]
fn str_from_utf8(bytes: &[u8]) -> (s: &str)
    requires
        valid_utf8(bytes@),
    ensures
        s@ == decode_utf8(bytes@),
{
    std::str::from_utf8(bytes).unwrap()
}

/// The text of `bytes[start..end]`, cut at ASCII delimiters of valid UTF-8.
pub fn text_between(bytes: &[u8], start: usize, end: usize) -> (s: String)
    requires
        valid_utf8(bytes@),
        ascii_delimited(bytes@, start as int, end as int),
    ensures
        valid_utf8(bytes@.subrange(start as int, end as int)),
        s@ == decode_utf8(bytes@.subrange(start as int, end as int)),
{
    proof {
        let b = bytes@;
        lemma_ascii_cut_boundary(b, start as int);
        lemma_ascii_cut_boundary(b, end as int);
        lemma_subrange_valid(b, start as int, end as int);
    }
    let part = vstd::slice::slice_subrange(bytes, start, end);
    let t = str_from_utf8(part);
    t.to_owned()
}

/// String equality, decided on the UTF-8 bytes.
pub fn str_eq(a: &str, b: &str) -> (r: bool)
    ensures
        r == (a@ == b@),
{
    let x = a.as_bytes();
    let y = b.as_bytes();
    proof {
        encode_utf8_decode_utf8(a@);
        encode_utf8_decode_utf8(b@);
    }
    if x.len() != y.len() {
        return false;
    }
    let mut i: usize = 0;
    while i < x.len()
        invariant
            x@.len() == y@.len(),
            x@ == a.spec_bytes(),
            y@ == b.spec_bytes(),
            0 <= i <= x@.len(),
            forall|j: int| 0 <= j < i ==> x@[j] == y@[j],
        decreases x@.len() - i,
    {
        if x[i] != y[i] {
            assert(x@ != y@);
            return false;
        }
        i = i + 1;
    }
    assert(x@ =~= y@);
    true
}

pub open spec fn digit_text(d: nat) -> Seq<char> {
    if d == 0 {
        "0"@
    } else if d == 1 {
        "1"@
    } else if d == 2 {
        "2"@
    } else if d == 3 {
        "3"@
    } else if d == 4 {
        "4"@
    } else if d == 5 {
        "5"@
    } else if d == 6 {
        "6"@
    } else if d == 7 {
        "7"@
    } else if d == 8 {
        "8"@
    } else {
        "9"@
    }
}

/// The decimal digits of `n`, as `Display` prints them.
pub open spec fn decimal_text(n: nat) -> Seq<char>
    decreases n,
{
    if n < 10 {
        digit_text(n)
    } else {
        decimal_text(n / 10) + digit_text(n % 10)
    }
}

fn digit_str(d: usize) -> (r: &'static str)
    requires
        d < 10,
    ensures
        r@ == digit_text(d as nat),
{
    if d == 0 {
        "0"
    } else if d == 1 {
        "1"
    } else if d == 2 {
        "2"
    } else if d == 3 {
        "3"
    } else if d == 4 {
        "4"
    } else if d == 5 {
        "5"
    } else if d == 6 {
        "6"
    } else if d == 7 {
        "7"
    } else if d == 8 {
        "8"
    } else {
        "9"
    }
}

/// `n` in decimal.
pub fn decimal_string(n: usize) -> (r: String)
    ensures
        r@ == decimal_text(n as nat),
    decreases n,
{
    if n < 10 {
        digit_str(n).to_owned()
    } else {
        let mut head = decimal_string(n / 10);
        head.append(digit_str(n % 10));
        head
    }
}

} // verus!
