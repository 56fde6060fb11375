//! Text helpers shared by the identifiers, the storage keys and the search:
//! colon-separated fields, comparison of strings, ASCII case folding,
//! decimal rendering and the decoding of stored bytes.

use vstd::prelude::*;
use vstd::utf8::*;

verus! {

/// Whether the text holds the field separator `:`.
pub open spec fn has_colon(s: Seq<char>) -> bool {
    s.contains(':')
}

/// Index of the first `:` at or after `from`, or the length of `s` when there is none.
pub open spec fn next_colon(s: Seq<char>, from: int) -> int
    decreases s.len() - from,
{
    if from >= s.len() {
        s.len() as int
    } else if s[from] == ':' {
        from
    } else {
        next_colon(s, from + 1)
    }
}

/// `next_colon` lands on a colon, or on the end, and skips no colon on the way.
pub proof fn lemma_next_colon_bounds(s: Seq<char>, from: int)
    requires
        0 <= from <= s.len(),
    ensures
        from <= next_colon(s, from) <= s.len(),
        next_colon(s, from) < s.len() ==> s[next_colon(s, from)] == ':',
        forall|j: int| from <= j < next_colon(s, from) ==> s[j] != ':',
    decreases s.len() - from,
{
    if from < s.len() && s[from] != ':' {
        lemma_next_colon_bounds(s, from + 1);
    }
}

/// Where the text after `from` holds no colon up to `j`, and `j` is a colon or the end,
/// `next_colon` finds `j`.
pub proof fn lemma_next_colon_at(s: Seq<char>, from: int, j: int)
    requires
        0 <= from <= j <= s.len(),
        forall|i: int| from <= i < j ==> s[i] != ':',
        j < s.len() ==> s[j] == ':',
    ensures
        next_colon(s, from) == j,
    decreases j - from,
{
    if from < j {
        lemma_next_colon_at(s, from + 1, j);
    }
}

/// The code of a character after ASCII lower-casing: `A`..`Z` become `a`..`z`,
/// every other character keeps its code.
pub open spec fn ascii_lower_code(c: char) -> u32 {
    if 'A' <= c && c <= 'Z' {
        (c as u32 + 32) as u32
    } else {
        c as u32
    }
}

/// Two texts are equal when ASCII letters are compared without regard to case.
pub open spec fn eq_ignore_ascii_case(a: Seq<char>, b: Seq<char>) -> bool {
    &&& a.len() == b.len()
    &&& forall|i: int| 0 <= i < a.len() ==> ascii_lower_code(#[trigger] a[i]) == ascii_lower_code(b[i])
}

/// Index of the first `:` at or after `from` in `s`, whose length in characters is `len`.
pub fn find_colon(s: &str, len: usize, from: usize) -> (r: usize)
    requires
        len == s@.len(),
        from <= len,
    ensures
        r == next_colon(s@, from as int),
{
    let mut i = from;
    while i < len
        invariant
            from <= i <= len,
            len == s@.len(),
            forall|j: int| from <= j < i ==> s@[j] != ':',
        decreases len - i,
    {
        if s.get_char(i) == ':' {
            proof {
                lemma_next_colon_at(s@, from as int, i as int);
            }
            return i;
        }
        i = i + 1;
    }
    proof {
        lemma_next_colon_at(s@, from as int, len as int);
    }
    len
}

/// Whether two texts hold the same characters.
pub fn str_eq(a: &str, b: &str) -> (r: bool)
    ensures
        r == (a@ == b@),
{
    let n = a.unicode_len();
    if n != b.unicode_len() {
        return false;
    }
    let mut i: usize = 0;
    while i < n
        invariant
            n == a@.len(),
            n == b@.len(),
            i <= n,
            forall|j: int| 0 <= j < i ==> a@[j] == b@[j],
        decreases n - i,
    {
        if a.get_char(i) != b.get_char(i) {
            return false;
        }
        i = i + 1;
    }
    assert(a@ =~= b@);
    true
}

fn ascii_lower(c: char) -> (r: u32)
    ensures
        r == ascii_lower_code(c),
{
    let code = c as u32;
    if 'A' <= c && c <= 'Z' {
        code + 32
    } else {
        code
    }
}

/// Whether two texts are equal when ASCII letters are compared without regard to case.
pub fn str_eq_ignore_ascii_case(a: &str, b: &str) -> (r: bool)
    ensures
        r == eq_ignore_ascii_case(a@, b@),
{
    let n = a.unicode_len();
    if n != b.unicode_len() {
        return false;
    }
    let mut i: usize = 0;
    while i < n
        invariant
            n == a@.len(),
            n == b@.len(),
            i <= n,
            forall|j: int| 0 <= j < i ==> ascii_lower_code(#[trigger] a@[j]) == ascii_lower_code(b@[j]),
        decreases n - i,
    {
        if ascii_lower(a.get_char(i)) != ascii_lower(b.get_char(i)) {
            return false;
        }
        i = i + 1;
    }
    true
}

/// The decimal digit character of `d`, for `d` below ten.
pub open spec fn digit_char(d: nat) -> char {
    if d == 0 { '0' }
    else if d == 1 { '1' }
    else if d == 2 { '2' }
    else if d == 3 { '3' }
    else if d == 4 { '4' }
    else if d == 5 { '5' }
    else if d == 6 { '6' }
    else if d == 7 { '7' }
    else if d == 8 { '8' }
    else { '9' }
}

/// The decimal rendering of `n`, most significant digit first, without leading zeros.
pub open spec fn decimal(n: nat) -> Seq<char>
    decreases n,
{
    if n < 10 {
        seq![digit_char(n)]
    } else {
        decimal(n / 10).push(digit_char(n % 10))
    }
}

/// The number that a string of decimal digits spells, most significant first.
pub open spec fn decimal_value(digits: Seq<char>) -> int
    decreases digits.len(),
{
    if digits.len() == 0 {
        0
    } else {
        decimal_value(digits.drop_last()) * 10 + (digits.last() as int - '0' as int)
    }
}

proof fn lemma_digit_char(d: nat)
    requires
        d < 10,
    ensures
        '0' <= digit_char(d) <= '9',
        digit_char(d) as int - '0' as int == d,
{
}

/// The decimal rendering of `n` is a non-empty string of digits that spells `n`,
/// with no leading zero but for zero itself.
pub proof fn lemma_decimal_spells_its_number(n: nat)
    ensures
        decimal(n).len() >= 1,
        forall|i: int| 0 <= i < decimal(n).len() ==> '0' <= #[trigger] decimal(n)[i] <= '9',
        decimal_value(decimal(n)) == n,
        n > 0 ==> decimal(n)[0] != '0',
    decreases n,
{
    if n < 10 {
        lemma_digit_char(n);
        let s = decimal(n);
        assert(s.drop_last() =~= Seq::<char>::empty());
        assert(decimal_value(Seq::<char>::empty()) == 0);
        assert(decimal_value(s) == decimal_value(s.drop_last()) * 10 + (s.last() as int - '0' as int));
    } else {
        let q = n / 10;
        let d = (n % 10) as nat;
        lemma_decimal_spells_its_number(q);
        lemma_digit_char(d);
        let s = decimal(n);
        assert(s.drop_last() =~= decimal(q));
        assert(n == q * 10 + d);
        assert(s[0] == decimal(q)[0]);
        assert(s.last() == digit_char(d));
        assert(decimal_value(s) == decimal_value(decimal(q)) * 10 + (digit_char(d) as int - '0' as int));
    }
}

fn digit_str(d: usize) -> (r: &'static str)
    requires
        d < 10,
    ensures
        r@ == seq![digit_char(d as nat)],
{
    if d == 0 {
        proof { reveal_strlit("0"); }
        "0"
    } else if d == 1 {
        proof { reveal_strlit("1"); }
        "1"
    } else if d == 2 {
        proof { reveal_strlit("2"); }
        "2"
    } else if d == 3 {
        proof { reveal_strlit("3"); }
        "3"
    } else if d == 4 {
        proof { reveal_strlit("4"); }
        "4"
    } else if d == 5 {
        proof { reveal_strlit("5"); }
        "5"
    } else if d == 6 {
        proof { reveal_strlit("6"); }
        "6"
    } else if d == 7 {
        proof { reveal_strlit("7"); }
        "7"
    } else if d == 8 {
        proof { reveal_strlit("8"); }
        "8"
    } else {
        proof { reveal_strlit("9"); }
        "9"
    }
}

/// The decimal rendering of `n`, as `{}` formats an integer.
pub fn decimal_string(n: usize) -> (r: String)
    ensures
        r@ == decimal(n as nat),
    decreases n,
{
    if n < 10 {
        String::from_str(digit_str(n))
    } else {
        let mut s = decimal_string(n / 10);
        s.append(digit_str(n % 10));
        s
    }
}

/// What `String::from_utf8_lossy` makes of a byte string: a function of the bytes alone.
pub uninterp spec fn utf8_lossy(bytes: Seq<u8>) -> Seq<char>;

/// `String::from_utf8_lossy`, turned into an owned `String`. Its documentation
/// promises that valid UTF-8 is decoded as it stands; what replaces invalid
/// sequences (U+FFFD) is left to the name `utf8_lossy`.
#[verifier::external_body]
pub(crate) fn decode_utf8_lossy(bytes: &[u8]) -> (r: String)
    ensures
        r@ == utf8_lossy(bytes@),
        valid_utf8(bytes@) ==> r@ == decode_utf8(bytes@),
{
    String::from_utf8_lossy(bytes).into_owned()
}

/// The UTF-8 bytes of a text.
pub fn text_bytes(s: &str) -> (r: Vec<u8>)
    ensures
        r@ == encode_utf8(s@),
{
    s.as_bytes_vec()
}

/// Decoding the UTF-8 bytes of a text gives the text back.
pub proof fn lemma_text_bytes_roundtrip(s: Seq<char>)
    ensures
        valid_utf8(encode_utf8(s)),
        decode_utf8(encode_utf8(s)) == s,
{
    encode_utf8_valid_utf8(s);
    encode_utf8_decode_utf8(s);
}

} // verus!
