//! Text helpers with exact specifications: Unicode white space, blank strings,
//! substring search, and lower-case hexadecimal rendering.

use vstd::prelude::*;
use vstd::string::*;

verus! {

/// The Unicode `White_Space` property, which `char::is_whitespace` (and hence
/// `str::trim`) follows.
pub open spec fn is_white_space(c: char) -> bool {
    let u = c as u32;
    ||| 0x9 <= u <= 0xd
    ||| u == 0x20
    ||| u == 0x85
    ||| u == 0xa0
    ||| u == 0x1680
    ||| 0x2000 <= u <= 0x200a
    ||| u == 0x2028
    ||| u == 0x2029
    ||| u == 0x202f
    ||| u == 0x205f
    ||| u == 0x3000
}

/// A text is blank when trimming it leaves nothing: every character is white space.
pub open spec fn is_blank(s: Seq<char>) -> bool {
    forall|i: int| 0 <= i < s.len() ==> is_white_space(#[trigger] s[i])
}

/// Whether one character is Unicode white space.
pub fn char_is_white_space(c: char) -> (r: bool)
    ensures
        r == is_white_space(c),
{
    let u = c as u32;
    (0x9 <= u && u <= 0xd) || u == 0x20 || u == 0x85 || u == 0xa0 || u == 0x1680 || (0x2000 <= u
        && u <= 0x200a) || u == 0x2028 || u == 0x2029 || u == 0x202f || u == 0x205f || u == 0x3000
}

/// Whether `s.trim()` is empty.
pub fn str_is_blank(s: &str) -> (r: bool)
    ensures
        r == is_blank(s@),
{
    let n = s.unicode_len();
    let mut i: usize = 0;
    while i < n
        invariant
            n == s@.len(),
            i <= n,
            forall|j: int| 0 <= j < i ==> is_white_space(#[trigger] s@[j]),
        decreases n - i,
    {
        let c = s.get_char(i);
        if !char_is_white_space(c) {
            return false;
        }
        i = i + 1;
    }
    true
}

/// `needle` occurs in `hay` starting at position `at`.
pub open spec fn occurs_at(hay: Seq<char>, needle: Seq<char>, at: int) -> bool {
    0 <= at && at + needle.len() <= hay.len() && hay.subrange(at, at + needle.len()) == needle
}

/// `needle` occurs somewhere in `hay` (`str::contains`).
pub open spec fn contains_text(hay: Seq<char>, needle: Seq<char>) -> bool {
    exists|at: int| occurs_at(hay, needle, at)
}

/// Substring search: whether `needle` occurs in `hay`.
pub fn str_contains(hay: &str, needle: &str) -> (r: bool)
    ensures
        r == contains_text(hay@, needle@),
{
    let n = hay.unicode_len();
    let m = needle.unicode_len();
    if m > n {
        assert forall|at: int| !occurs_at(hay@, needle@, at) by {}
        return false;
    }
    let mut at: usize = 0;
    while at <= n - m
        invariant
            n == hay@.len(),
            m == needle@.len(),
            m <= n,
            at <= n - m + 1,
            forall|k: int| 0 <= k < at ==> !occurs_at(hay@, needle@, k),
        decreases n - m + 1 - at,
    {
        let mut j: usize = 0;
        let mut same = true;
        while j < m
            invariant
                n == hay@.len(),
                m == needle@.len(),
                at + m <= n,
                j <= m,
                same == (forall|k: int| 0 <= k < j ==> hay@[at + k] == needle@[k]),
            decreases m - j,
        {
            if same && hay.get_char(at + j) != needle.get_char(j) {
                same = false;
            }
            j = j + 1;
        }
        if same {
            assert(hay@.subrange(at as int, at + m) =~= needle@);
            assert(occurs_at(hay@, needle@, at as int));
            return true;
        }
        assert(!occurs_at(hay@, needle@, at as int)) by {
            if occurs_at(hay@, needle@, at as int) {
                let k = choose|k: int| 0 <= k < m && hay@[at + k] != needle@[k];
                assert(hay@.subrange(at as int, at + m)[k] == hay@[at + k]);
            }
        }
        at = at + 1;
    }
    assert forall|k: int| !occurs_at(hay@, needle@, k) by {
        if occurs_at(hay@, needle@, k) {
            assert(0 <= k < at);
        }
    }
    false
}

/// The lower-case hexadecimal digit for a value below sixteen.
pub open spec fn hex_digit(d: int) -> char {
    if d < 10 {
        (d + 48) as char
    } else {
        (d + 87) as char
    }
}

/// The last `width` lower-case hexadecimal digits of `v`, most significant first,
/// zero-padded (`format!("{:0width$x}", v % 16^width)`).
pub open spec fn hex_digits(v: nat, width: nat) -> Seq<char>
    decreases width,
{
    if width == 0 {
        Seq::empty()
    } else {
        hex_digits(v / 16, (width - 1) as nat).push(hex_digit((v % 16) as int))
    }
}

fn hex_digit_text(d: u8) -> (r: &'static str)
    requires
        d < 16,
    ensures
        r@ == seq![hex_digit(d as int)],
{
    let table = "0123456789abcdef";
    proof {
        reveal_strlit("0123456789abcdef");
    }
    let r = table.substring_char(d as usize, d as usize + 1);
    assert(r@ =~= seq![table@[d as int]]);
    r
}

/// Renders the last `width` hexadecimal digits of `v`, zero-padded.
pub fn hex_text(v: u128, width: usize) -> (r: String)
    requires
        width <= 32,
    ensures
        r@ == hex_digits(v as nat, width as nat),
{
    let mut digits: Vec<u8> = Vec::new();
    let mut rest = v;
    proof {
        assert(pow16(0) == 1);
        assert((v as nat) / 1 == v as nat);
    }
    let mut k: usize = 0;
    while k < width
        invariant
            k <= width,
            digits@.len() == k,
            rest as nat == (v as nat) / pow16(k as nat),
            forall|i: int| 0 <= i < k ==> #[trigger] digits@[i] as int == ((v as nat) / pow16(i as nat)) % 16,
        decreases width - k,
    {
        proof {
            lemma_pow16_step(k as nat);
            vstd::arithmetic::div_mod::lemma_div_denominator(v as int, pow16(k as nat) as int, 16);
        }
        digits.push((rest % 16) as u8);
        rest = rest / 16;
        k = k + 1;
    }
    let mut out = String::new();
    let mut j: usize = width;
    while j > 0
        invariant
            j <= width,
            digits@.len() == width,
            forall|i: int| 0 <= i < width ==> #[trigger] digits@[i] as int == ((v as nat) / pow16(i as nat)) % 16,
            out@ == hex_suffix(v as nat, width as nat, j as nat),
        decreases j,
    {
        j = j - 1;
        let d = digits[j];
        let t = hex_digit_text(d);
        out.append(t);
        proof {
            lemma_hex_suffix_step(v as nat, width as nat, j as nat);
        }
    }
    proof {
        lemma_hex_suffix_full(v as nat, width as nat);
    }
    out
}

pub open spec fn pow16(k: nat) -> nat
    decreases k,
{
    if k == 0 { 1 } else { 16 * pow16((k - 1) as nat) }
}

/// A lower-case hexadecimal digit character.
pub open spec fn is_hex_char(c: char) -> bool {
    ('0' <= c && c <= '9') || ('a' <= c && c <= 'f')
}

/// The value of a lower-case hexadecimal digit character.
pub open spec fn hex_value(c: char) -> int {
    if c <= '9' {
        c as int - 48
    } else {
        c as int - 87
    }
}

/// The number a string of hexadecimal digits spells, most significant first.
pub open spec fn parse_hex(s: Seq<char>) -> int
    decreases s.len(),
{
    if s.len() == 0 {
        0
    } else {
        parse_hex(s.drop_last()) * 16 + hex_value(s.last())
    }
}

proof fn lemma_pow16_positive(k: nat)
    ensures
        pow16(k) > 0,
    decreases k,
{
    if k > 0 {
        lemma_pow16_positive((k - 1) as nat);
    }
}

/// Law (hexadecimal rendering): the `width` digits of `v` are exactly `width` lower-case
/// hexadecimal digits, and read back they give `v` modulo `16^width`.
pub proof fn lemma_hex_digits_law(v: nat, width: nat)
    ensures
        hex_digits(v, width).len() == width,
        forall|i: int| 0 <= i < width ==> is_hex_char(#[trigger] hex_digits(v, width)[i]),
        parse_hex(hex_digits(v, width)) == v % pow16(width),
    decreases width,
{
    if width > 0 {
        let w1 = (width - 1) as nat;
        lemma_hex_digits_law(v / 16, w1);
        let h = hex_digits(v, width);
        assert(h == hex_digits(v / 16, w1).push(hex_digit((v % 16) as int)));
        assert(h.drop_last() == hex_digits(v / 16, w1));
        assert forall|i: int| 0 <= i < width implies is_hex_char(#[trigger] h[i]) by {
            if i < w1 {
                assert(h[i] == hex_digits(v / 16, w1)[i]);
            }
        }
        assert(hex_value(hex_digit((v % 16) as int)) == v % 16);
        lemma_pow16_positive(w1);
        vstd::arithmetic::div_mod::lemma_breakdown(v as int, 16, pow16(w1) as int);
        assert(pow16(width) == 16 * pow16(w1));
        assert(parse_hex(h) == (v / 16) % pow16(w1) * 16 + v % 16);
        assert((v / 16) % pow16(w1) * 16 == 16 * ((v / 16) % pow16(w1))) by (nonlinear_arith);
    }
}

proof fn lemma_pow16_step(k: nat)
    ensures
        pow16(k + 1) == 16 * pow16(k),
        pow16(k) > 0,
    decreases k,
{
    if k > 0 {
        lemma_pow16_step((k - 1) as nat);
    }
}

/// The digits of positions `width-1` down to `j` (most significant first).
pub open spec fn hex_suffix(v: nat, width: nat, j: nat) -> Seq<char>
    decreases width - j,
{
    if j >= width {
        Seq::empty()
    } else {
        hex_suffix(v, width, j + 1).push(hex_digit(((v / pow16(j)) % 16) as int))
    }
}

proof fn lemma_hex_suffix_step(v: nat, width: nat, j: nat)
    requires
        j < width,
    ensures
        hex_suffix(v, width, j) == hex_suffix(v, width, j + 1).push(
            hex_digit(((v / pow16(j)) % 16) as int),
        ),
{
}

proof fn lemma_hex_digits_shift(v: nat, width: nat, j: nat)
    ensures
        hex_suffix(v, width + j, j) == hex_digits(v / pow16(j), width),
    decreases width,
{
    if width > 0 {
        lemma_hex_digits_shift(v, (width - 1) as nat, j + 1);
        lemma_pow16_step(j);
        vstd::arithmetic::div_mod::lemma_div_denominator(v as int, pow16(j) as int, 16);
        assert(pow16(j) * 16 == pow16(j + 1));
        assert(hex_suffix(v, width + j, j + 1) == hex_suffix(v, ((width - 1) as nat) + (j + 1), j + 1));
        assert(v / pow16(j + 1) == (v / pow16(j)) / 16);
        assert(hex_suffix(v, width + j, j) == hex_suffix(v, width + j, j + 1).push(
            hex_digit(((v / pow16(j)) % 16) as int)));
        assert(hex_digits(v / pow16(j), width) == hex_digits((v / pow16(j)) / 16, (width - 1) as nat).push(
            hex_digit(((v / pow16(j)) % 16) as int)));
        assert(hex_suffix(v, width + j, j + 1) == hex_digits(v / pow16(j + 1), (width - 1) as nat));
        assert(hex_suffix(v, width + j, j) == hex_digits(v / pow16(j), width));
    } else {
        assert(hex_suffix(v, width + j, j) =~= Seq::<char>::empty());
        lemma_pow16_step(j);
        assert(hex_digits(v / pow16(j), width) =~= Seq::<char>::empty());
    }
}

proof fn lemma_hex_suffix_full(v: nat, width: nat)
    ensures
        hex_suffix(v, width, 0) == hex_digits(v, width),
{
    lemma_hex_digits_shift(v, width, 0);
    assert(pow16(0) == 1);
    assert(v / 1 == v);
}

} // verus!

verus! {

/// The decimal digit for a value below ten.
pub open spec fn decimal_digit(d: int) -> char {
    (d + 48) as char
}

/// The decimal rendering of `v` (`format!("{}", v)`).
pub open spec fn decimal(v: nat) -> Seq<char>
    decreases v,
{
    if v < 10 {
        seq![decimal_digit(v as int)]
    } else {
        decimal(v / 10).push(decimal_digit((v % 10) as int))
    }
}

fn decimal_digit_text(d: u64) -> (r: &'static str)
    requires
        d < 10,
    ensures
        r@ == seq![decimal_digit(d as int)],
{
    let table = "0123456789";
    proof {
        reveal_strlit("0123456789");
    }
    let r = table.substring_char(d as usize, d as usize + 1);
    assert(r@ =~= seq![table@[d as int]]);
    r
}

/// Renders `v` in decimal.
pub fn decimal_text(v: u64) -> (r: String)
    ensures
        r@ == decimal(v as nat),
    decreases v,
{
    if v < 10 {
        String::from_str(decimal_digit_text(v))
    } else {
        let head = decimal_text(v / 10);
        head.concat(decimal_digit_text(v % 10))
    }
}

/// Whether two strings hold the same characters.
pub fn str_equal(a: &str, b: &str) -> (r: bool)
    ensures
        r == (a@ == b@),
{
    let x = a.to_owned();
    let y = b.to_owned();
    x.eq(&y)
}

/// `i` is the first character of `s` that is not white space.
pub open spec fn first_solid(s: Seq<char>, i: int) -> bool {
    &&& 0 <= i < s.len()
    &&& !is_white_space(s[i])
    &&& forall|j: int| 0 <= j < i ==> is_white_space(#[trigger] s[j])
}

/// `i` is the last character of `s` that is not white space.
pub open spec fn last_solid(s: Seq<char>, i: int) -> bool {
    &&& 0 <= i < s.len()
    &&& !is_white_space(s[i])
    &&& forall|j: int| i < j < s.len() ==> is_white_space(#[trigger] s[j])
}

/// `s` without its leading and trailing white space (`str::trim`).
pub open spec fn trimmed(s: Seq<char>) -> Seq<char> {
    if is_blank(s) {
        Seq::empty()
    } else {
        let a = choose|i: int| first_solid(s, i);
        let b = choose|i: int| last_solid(s, i);
        s.subrange(a, b + 1)
    }
}

/// Trims leading and trailing white space.
pub fn trim_text(s: &str) -> (r: String)
    ensures
        r@ == trimmed(s@),
{
    let n = s.unicode_len();
    let mut a: usize = 0;
    while a < n && char_is_white_space(s.get_char(a))
        invariant
            n == s@.len(),
            a <= n,
            forall|j: int| 0 <= j < a ==> is_white_space(#[trigger] s@[j]),
        decreases n - a,
    {
        a = a + 1;
    }
    if a == n {
        return String::new();
    }
    let mut b: usize = n - 1;
    while b > a && char_is_white_space(s.get_char(b))
        invariant
            n == s@.len(),
            a < n,
            a <= b < n,
            !is_white_space(s@[a as int]),
            forall|j: int| b < j < n ==> is_white_space(#[trigger] s@[j]),
        decreases b - a,
    {
        b = b - 1;
    }
    proof {
        assert(!is_blank(s@));
        assert(first_solid(s@, a as int));
        assert(last_solid(s@, b as int));
        let x = choose|i: int| first_solid(s@, i);
        let y = choose|i: int| last_solid(s@, i);
        if x < a {
            assert(is_white_space(s@[x]));
        }
        if a < x {
            assert(is_white_space(s@[a as int]));
        }
        if y < b {
            assert(is_white_space(s@[y]));
        }
        if b < y {
            assert(is_white_space(s@[b as int]));
        }
    }
    s.substring_char(a, b + 1).to_owned()
}

/// The full Unicode lower-case mapping of a text, as `str::to_lowercase` computes it.
pub uninterp spec fn lowercased(s: Seq<char>) -> Seq<char>;

/// Calls `str::to_lowercase`; its result is `lowercased` of the argument.
#[verifier::external_body]
pub(crate) fn to_lowercase(s: &str) -> (r: String)
    ensures
        r@ == lowercased(s@),
{
    s.to_lowercase()
}

} // verus!
