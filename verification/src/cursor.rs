//! The cursor over a numbered series of image files: which file was
//! processed last, and which one comes next.
//!
//! The state is the name of the last processed file, such as `00042.JPG`.
//! Only what stands before the first dot counts, and it counts as zero
//! unless it is a decimal number that fits in 32 bits.

use vstd::prelude::*;
use vstd::string::*;

verus! {

/// The characters with the Unicode property `White_Space`.
pub open spec fn is_space(c: char) -> bool {
    let u: u32 = c as u32;
    ||| 0x09 <= u <= 0x0D
    ||| u == 0x20
    ||| u == 0x85
    ||| u == 0xA0
    ||| u == 0x1680
    ||| 0x2000 <= u <= 0x200A
    ||| u == 0x2028
    ||| u == 0x2029
    ||| u == 0x202F
    ||| u == 0x205F
    ||| u == 0x3000
}

/// The decimal digits `0` to `9`.
pub open spec fn is_digit(c: char) -> bool {
    '0' as u32 <= c as u32 <= '9' as u32
}

/// The number that a decimal digit stands for.
pub open spec fn digit_value(c: char) -> nat {
    (c as u32 - '0' as u32) as nat
}

/// `a` is where the text starts once leading white space is skipped.
pub open spec fn is_trim_start(s: Seq<char>, a: int) -> bool {
    &&& 0 <= a <= s.len()
    &&& forall|i: int| 0 <= i < a ==> is_space(#[trigger] s[i])
    &&& a < s.len() ==> !is_space(s[a])
}

/// `b` is where the text ends once trailing white space is dropped, for a
/// text that starts at `a`.
pub open spec fn is_trim_end(s: Seq<char>, a: int, b: int) -> bool {
    &&& a <= b <= s.len()
    &&& forall|i: int| b <= i < s.len() ==> is_space(#[trigger] s[i])
    &&& a < b ==> !is_space(s[b - 1])
}

/// The text without the white space around it.
pub open spec fn trimmed(s: Seq<char>) -> Seq<char> {
    let a: int = choose|a: int| is_trim_start(s, a);
    let b: int = choose|b: int| is_trim_end(s, a, b);
    s.subrange(a, b)
}

/// `d` is the position of the first dot, or the length if there is none.
pub open spec fn is_stem_end(s: Seq<char>, d: int) -> bool {
    &&& 0 <= d <= s.len()
    &&& forall|i: int| 0 <= i < d ==> #[trigger] s[i] != '.'
    &&& d < s.len() ==> s[d] == '.'
}

/// What stands before the first dot.
pub open spec fn stem(s: Seq<char>) -> Seq<char> {
    s.take(choose|d: int| is_stem_end(s, d))
}

/// The number that a run of decimal digits spells.
pub open spec fn decimal_value(digits: Seq<char>) -> nat
    decreases digits.len(),
{
    if digits.len() == 0 {
        0
    } else {
        decimal_value(digits.drop_last()) * 10 + digit_value(digits.last())
    }
}

/// Every character is a decimal digit.
pub open spec fn all_digits(s: Seq<char>) -> bool {
    forall|i: int| 0 <= i < s.len() ==> is_digit(#[trigger] s[i])
}

/// The text without a plus sign in front.
pub open spec fn unsigned_part(s: Seq<char>) -> Seq<char> {
    if s.len() > 0 && s[0] == '+' {
        s.drop_first()
    } else {
        s
    }
}

/// The 32-bit number that a text spells: one or more decimal digits, which
/// a plus sign may precede.  Anything else spells none.
pub open spec fn number_of(s: Seq<char>) -> Option<u32> {
    let digits: Seq<char> = unsigned_part(s);
    if digits.len() > 0 && all_digits(digits) && decimal_value(digits) <= u32::MAX {
        Some(decimal_value(digits) as u32)
    } else {
        None
    }
}

/// The number of the file that the state names; zero where it names none.
pub open spec fn cursor_number(content: Seq<char>) -> u32 {
    match number_of(stem(trimmed(content))) {
        Some(n) => n,
        None => 0,
    }
}

/// The number that the state stands for when there may be no state yet.
pub open spec fn last_number(state: Option<Seq<char>>) -> u32 {
    match state {
        Some(content) => cursor_number(content),
        None => 0,
    }
}

/// The character of a decimal digit.
pub open spec fn digit_char(d: nat) -> char {
    ('0' as u32 + d) as char
}

/// A number in decimal, without leading zeros.
pub open spec fn decimal_digits(n: nat) -> Seq<char>
    decreases n,
{
    if n < 10 {
        seq![digit_char(n)]
    } else {
        decimal_digits(n / 10).push(digit_char(n % 10))
    }
}

/// A number in decimal, with zeros in front where it has fewer digits than
/// `width`.
pub open spec fn zero_padded(n: nat, width: nat) -> Seq<char> {
    let digits: Seq<char> = decimal_digits(n);
    if digits.len() >= width {
        digits
    } else {
        Seq::new((width - digits.len()) as nat, |i: int| '0') + digits
    }
}

/// The name of the image file with the given number: five digits or more,
/// then `.JPG`.
pub open spec fn image_name(n: nat) -> Seq<char> {
    zero_padded(n, 5) + seq!['.', 'J', 'P', 'G']
}

/// Only one position is the start of the trimmed text.
pub proof fn lemma_trim_start(s: Seq<char>, a: int)
    requires
        is_trim_start(s, a),
    ensures
        (choose|a: int| is_trim_start(s, a)) == a,
{
    let c: int = choose|a: int| is_trim_start(s, a);
    assert(is_trim_start(s, c));
    if c < a {
        assert(is_space(s[c]));
    } else if a < c {
        assert(is_space(s[a]));
    }
}

/// Only one position is the end of the trimmed text.
pub proof fn lemma_trim_end(s: Seq<char>, a: int, b: int)
    requires
        is_trim_end(s, a, b),
    ensures
        (choose|b: int| is_trim_end(s, a, b)) == b,
{
    let c: int = choose|b: int| is_trim_end(s, a, b);
    assert(is_trim_end(s, a, c));
    if c < b {
        assert(is_space(s[b - 1]));
    } else if b < c {
        assert(is_space(s[c - 1]));
    }
}

/// Only one position is the end of the stem.
pub proof fn lemma_stem_end(s: Seq<char>, d: int)
    requires
        is_stem_end(s, d),
    ensures
        stem(s) == s.take(d),
{
    let c: int = choose|d: int| is_stem_end(s, d);
    assert(is_stem_end(s, c));
    if c < d {
        assert(s[c] != '.');
    } else if d < c {
        assert(s[d] != '.');
    }
}

/// More digits never spell a smaller number.
pub proof fn lemma_value_grows(digits: Seq<char>, k: int)
    requires
        0 <= k <= digits.len(),
    ensures
        decimal_value(digits.take(k)) <= decimal_value(digits),
    decreases digits.len() - k,
{
    if k < digits.len() {
        lemma_value_grows(digits.drop_last(), k);
        assert(digits.drop_last().take(k) =~= digits.take(k));
    } else {
        assert(digits.take(k) =~= digits);
    }
}

/// Tells white space from other characters.
pub fn check_space(c: char) -> (b: bool)
    ensures
        b == is_space(c),
{
    let u: u32 = c as u32;
    (0x09 <= u && u <= 0x0D) || u == 0x20 || u == 0x85 || u == 0xA0 || u == 0x1680 || (0x2000 <= u
        && u <= 0x200A) || u == 0x2028 || u == 0x2029 || u == 0x202F || u == 0x205F || u
        == 0x3000
}

/// Reads the number of the last processed file out of the state.
pub fn last_processed(content: &str) -> (n: u32)
    ensures
        n == cursor_number(content@),
{
    let ghost s: Seq<char> = content@;
    let len: usize = content.unicode_len();
    let mut text: Vec<char> = Vec::new();
    let mut k: usize = 0;
    while k < len
        invariant
            s == content@,
            len == s.len(),
            k <= len,
            text@ == s.take(k as int),
        decreases len - k,
    {
        text.push(content.get_char(k));
        k = k + 1;
        proof {
            assert(text@ =~= s.take(k as int));
        }
    }
    proof {
        assert(text@ =~= s);
    }
    // The trimmed text is text[a..b].
    let mut a: usize = 0;
    while a < len && check_space(text[a])
        invariant
            text@ == s,
            len == s.len(),
            a <= len,
            forall|i: int| 0 <= i < a ==> is_space(#[trigger] s[i]),
        decreases len - a,
    {
        a = a + 1;
    }
    let mut b: usize = len;
    while b > a && check_space(text[b - 1])
        invariant
            text@ == s,
            len == s.len(),
            a <= b <= len,
            forall|i: int| b <= i < len ==> is_space(#[trigger] s[i]),
        decreases b,
    {
        b = b - 1;
    }
    let ghost t: Seq<char> = s.subrange(a as int, b as int);
    proof {
        lemma_trim_start(s, a as int);
        lemma_trim_end(s, a as int, b as int);
        assert(t == trimmed(s));
    }
    // The stem is text[a..d].
    let mut d: usize = a;
    while d < b && text[d] != '.'
        invariant
            text@ == s,
            a <= d <= b <= len,
            len == s.len(),
            t == s.subrange(a as int, b as int),
            forall|i: int| 0 <= i < d - a ==> #[trigger] t[i] != '.',
        decreases b - d,
    {
        d = d + 1;
    }
    let ghost st: Seq<char> = s.subrange(a as int, d as int);
    proof {
        lemma_stem_end(t, d - a);
        assert(st =~= t.take(d - a));
        assert(st == stem(trimmed(s)));
    }
    // The digits are text[p..d].
    let p: usize = if a < d && text[a] == '+' {
        a + 1
    } else {
        a
    };
    let ghost digits: Seq<char> = s.subrange(p as int, d as int);
    proof {
        assert(digits =~= unsigned_part(st));
    }
    if p == d {
        return 0;
    }
    let mut value: u64 = 0;
    let mut i: usize = p;
    while i < d
        invariant
            text@ == s,
            p <= i <= d <= len,
            len == s.len(),
            digits == s.subrange(p as int, d as int),
            digits == unsigned_part(stem(trimmed(content@))),
            all_digits(digits.take(i - p)),
            value == decimal_value(digits.take(i - p)),
            value <= u32::MAX,
        decreases d - i,
    {
        let c: char = text[i];
        let u: u32 = c as u32;
        if u < 48 || u > 57 {
            proof {
                assert(digits[i - p] == c);
                assert(!is_digit(digits[i - p]));
            }
            return 0;
        }
        let next: u64 = value * 10 + (u - 48) as u64;
        proof {
            let longer: Seq<char> = digits.take(i - p + 1);
            assert(longer.drop_last() =~= digits.take(i - p));
            assert(longer.last() == c);
            assert(next == decimal_value(longer));
            assert(all_digits(longer)) by {
                assert forall|j: int| 0 <= j < longer.len() implies is_digit(
                    #[trigger] longer[j],
                ) by {
                    if j < i - p {
                        assert(digits.take(i - p)[j] == longer[j]);
                    }
                }
            }
            lemma_value_grows(digits, i - p + 1);
        }
        if next > 0xFFFF_FFFF {
            return 0;
        }
        value = next;
        i = i + 1;
    }
    proof {
        assert(digits.take(d - p) =~= digits);
    }
    value as u32
}

/// The number of the file that follows `last`, unless that would go past
/// `max_images`.
pub fn next_image_number(last: u32, max_images: u32) -> (r: Option<u32>)
    ensures
        r is Some <==> last + 1 <= max_images,
        r matches Some(n) ==> n == last + 1,
{
    if last < max_images {
        Some(last + 1)
    } else {
        None
    }
}

/// Calls `format!` with `{:05}.JPG`.
///
/// Trusted: the result is the number in decimal, padded with zeros on the
/// left to five digits where it has fewer, and then `.JPG`.
#[verifier::external_body]
fn format_image_name(number: u32) -> (name: String)
    ensures
        name@ == image_name(number as nat),
{
    format!("{:05}.JPG", number)
}

/// The name of the file to process next, from the state that the last run
/// left (`None` where no run has left one).  There is none once every file
/// up to `max_images` is done.
pub fn next_image_filename(state: Option<&str>, max_images: u32) -> (r: Option<String>)
    ensures
        r is Some <==> last_number(state_text(state)) + 1 <= max_images,
        r matches Some(name) ==> name@ == image_name((last_number(state_text(state)) + 1) as nat),
{
    let last: u32 = match state {
        Some(content) => last_processed(content),
        None => 0,
    };
    match next_image_number(last, max_images) {
        Some(number) => Some(format_image_name(number)),
        None => None,
    }
}

/// The characters of a state, where there is one.
pub open spec fn state_text(state: Option<&str>) -> Option<Seq<char>> {
    match state {
        Some(content) => Some(content@),
        None => None,
    }
}

} // verus!
