//! Scanning source text: lines, comments, whitespace-separated words and
//! hexadecimal numbers.
use vstd::prelude::*;

verus! {

/// Unicode `White_Space`, the characters that separate words.
pub open spec fn is_space(c: char) -> bool {
    let u = c as u32;
    ||| 0x9 <= u <= 0xD
    ||| u == 0x20
    ||| u == 0x85
    ||| u == 0xA0
    ||| u == 0x1680
    ||| 0x2000 <= u <= 0x200A
    ||| u == 0x2028
    ||| u == 0x2029
    ||| u == 0x202F
    ||| u == 0x205F
    ||| u == 0x3000
}

/// End of the line starting at `i`: the next `'\n'` at or after `i`, or the
/// end of the text.
pub open spec fn line_end(s: Seq<char>, i: int) -> int
    decreases s.len() - i,
{
    if i >= s.len() {
        s.len() as int
    } else if s[i] == '\n' {
        i
    } else {
        line_end(s, i + 1)
    }
}

/// End of the code part of the line `i..e`: the first `;` (which starts a
/// comment), or `e`.
pub open spec fn code_end(s: Seq<char>, i: int, e: int) -> int
    decreases e - i,
{
    if i >= e {
        e
    } else if s[i] == ';' {
        i
    } else {
        code_end(s, i + 1, e)
    }
}

/// Start of the next word at or after `i` in `i..e`: the first character that
/// is not whitespace, or `e` if there is none.
pub open spec fn word_start(s: Seq<char>, i: int, e: int) -> int
    decreases e - i,
{
    if i >= e {
        e
    } else if !is_space(s[i]) {
        i
    } else {
        word_start(s, i + 1, e)
    }
}

/// End of the word starting at `i`: the next whitespace character, or `e`.
pub open spec fn word_end(s: Seq<char>, i: int, e: int) -> int
    decreases e - i,
{
    if i >= e {
        e
    } else if is_space(s[i]) {
        i
    } else {
        word_end(s, i + 1, e)
    }
}

/// Value of a hexadecimal digit.
pub open spec fn hex_digit(c: char) -> Option<nat> {
    if '0' <= c <= '9' {
        Some((c as nat - '0' as nat) as nat)
    } else if 'a' <= c <= 'f' {
        Some((c as nat - 'a' as nat + 10) as nat)
    } else if 'A' <= c <= 'F' {
        Some((c as nat - 'A' as nat + 10) as nat)
    } else {
        None
    }
}

/// The number written by the hexadecimal digits `s[a..b]` (a character that
/// is no digit counts as 0 here).
pub open spec fn hex_number(s: Seq<char>, a: int, b: int) -> nat
    decreases b - a,
{
    if b <= a {
        0
    } else {
        hex_number(s, a, b - 1) * 16 + match hex_digit(s[b - 1]) {
            Some(d) => d,
            None => 0,
        }
    }
}

/// The unsigned 32-bit number written in hexadecimal by `s[a..b]`: an optional
/// `+`, then at least one hexadecimal digit, and nothing else; `None` if the
/// text is not of that form or the value does not fit in 32 bits.
pub open spec fn hex_value(s: Seq<char>, a: int, b: int) -> Option<u32> {
    let d = if a < b && s[a] == '+' {
        a + 1
    } else {
        a
    };
    if d >= b {
        None
    } else if exists|k: int| d <= k < b && hex_digit(#[trigger] s[k]) is None {
        None
    } else if hex_number(s, d, b) > u32::MAX {
        None
    } else {
        Some(hex_number(s, d, b) as u32)
    }
}

proof fn lemma_hex_number_monotonic(s: Seq<char>, a: int, j: int, b: int)
    requires
        a <= j <= b,
    ensures
        hex_number(s, a, j) <= hex_number(s, a, b),
    decreases b - j,
{
    if j < b {
        lemma_hex_number_monotonic(s, a, j, b - 1);
    }
}

/// Whether a character is whitespace.
pub fn is_space_char(c: char) -> (r: bool)
    ensures
        r == is_space(c),
{
    let u = c as u32;
    (0x9 <= u && u <= 0xD) || u == 0x20 || u == 0x85 || u == 0xA0 || u == 0x1680 || (0x2000 <= u
        && u <= 0x200A) || u == 0x2028 || u == 0x2029 || u == 0x202F || u == 0x205F || u == 0x3000
}

/// Index of the next `'\n'` at or after `i`, or the length of the text.
pub fn find_line_end(s: &Vec<char>, i: usize) -> (r: usize)
    requires
        i <= s@.len(),
    ensures
        r == line_end(s@, i as int),
        i <= r <= s@.len(),
{
    let mut j = i;
    while j < s.len() && s[j] != '\n'
        invariant
            i <= j <= s@.len(),
            line_end(s@, i as int) == line_end(s@, j as int),
        decreases s@.len() - j,
    {
        j = j + 1;
    }
    j
}

/// Index of the first `;` in `i..e`, or `e`.
pub fn find_code_end(s: &Vec<char>, i: usize, e: usize) -> (r: usize)
    requires
        i <= e <= s@.len(),
    ensures
        r == code_end(s@, i as int, e as int),
        i <= r <= e,
{
    let mut j = i;
    while j < e && s[j] != ';'
        invariant
            i <= j <= e,
            e <= s@.len(),
            code_end(s@, i as int, e as int) == code_end(s@, j as int, e as int),
        decreases e - j,
    {
        j = j + 1;
    }
    j
}

/// Index of the first non-whitespace character in `i..e`, or `e`.
pub fn find_word_start(s: &Vec<char>, i: usize, e: usize) -> (r: usize)
    requires
        i <= e <= s@.len(),
    ensures
        r == word_start(s@, i as int, e as int),
        i <= r <= e,
        r < e ==> !is_space(s@[r as int]),
{
    let mut j = i;
    while j < e && is_space_char(s[j])
        invariant
            i <= j <= e,
            e <= s@.len(),
            word_start(s@, i as int, e as int) == word_start(s@, j as int, e as int),
        decreases e - j,
    {
        j = j + 1;
    }
    j
}

/// Index of the first whitespace character in `i..e`, or `e`.
pub fn find_word_end(s: &Vec<char>, i: usize, e: usize) -> (r: usize)
    requires
        i <= e <= s@.len(),
    ensures
        r == word_end(s@, i as int, e as int),
        i <= r <= e,
        i < e && !is_space(s@[i as int]) ==> r > i,
{
    let mut j = i;
    while j < e && !is_space_char(s[j])
        invariant
            i <= j <= e,
            e <= s@.len(),
            word_end(s@, i as int, e as int) == word_end(s@, j as int, e as int),
        decreases e - j,
    {
        j = j + 1;
    }
    j
}

/// Value of a hexadecimal digit.
fn hex_digit_value(c: char) -> (r: Option<u32>)
    ensures
        match hex_digit(c) {
            Some(d) => r == Some(d as u32),
            None => r is None,
        },
        r matches Some(d) ==> d < 16,
{
    if '0' <= c && c <= '9' {
        Some((c as u32) - ('0' as u32))
    } else if 'a' <= c && c <= 'f' {
        Some((c as u32) - ('a' as u32) + 10)
    } else if 'A' <= c && c <= 'F' {
        Some((c as u32) - ('A' as u32) + 10)
    } else {
        None
    }
}

/// Reads `s[a..b]` as an unsigned 32-bit hexadecimal number.
pub fn parse_hex(s: &Vec<char>, a: usize, b: usize) -> (r: Option<u32>)
    requires
        a <= b <= s@.len(),
    ensures
        r == hex_value(s@, a as int, b as int),
{
    let d = if a < b && s[a] == '+' {
        a + 1
    } else {
        a
    };
    if d >= b {
        return None;
    }
    let mut acc: u64 = 0;
    let mut j = d;
    while j < b
        invariant
            d <= j <= b,
            b <= s@.len(),
            d < b,
            d as int == (if a < b && s@[a as int] == '+' {
                a + 1
            } else {
                a as int
            }),
            acc == hex_number(s@, d as int, j as int),
            acc <= u32::MAX,
            forall|k: int| d <= k < j ==> hex_digit(#[trigger] s@[k]) is Some,
        decreases b - j,
    {
        match hex_digit_value(s[j]) {
            None => {
                assert(hex_digit(s@[j as int]) is None);
                return None;
            },
            Some(v) => {
                acc = acc * 16 + v as u64;
                if acc > u32::MAX as u64 {
                    proof {
                        lemma_hex_number_monotonic(s@, d as int, j + 1, b as int);
                    }
                    return None;
                }
            },
        }
        j = j + 1;
    }
    Some(acc as u32)
}

/// Whether `s[a..b]` and `s[c..d]` hold the same characters.
pub fn range_eq(s: &Vec<char>, a: usize, b: usize, c: usize, d: usize) -> (r: bool)
    requires
        a <= b <= s@.len(),
        c <= d <= s@.len(),
    ensures
        r == (s@.subrange(a as int, b as int) == s@.subrange(c as int, d as int)),
{
    if b - a != d - c {
        proof {
            assert(s@.subrange(a as int, b as int).len() != s@.subrange(c as int, d as int).len());
        }
        return false;
    }
    let mut k: usize = 0;
    while k < b - a
        invariant
            a <= b <= s@.len(),
            c <= d <= s@.len(),
            b - a == d - c,
            k <= b - a,
            forall|m: int|
                0 <= m < k ==> #[trigger] s@.subrange(a as int, b as int)[m] == s@.subrange(
                    c as int,
                    d as int,
                )[m],
        decreases b - a - k,
    {
        if s[a + k] != s[c + k] {
            proof {
                assert(s@.subrange(a as int, b as int)[k as int] != s@.subrange(
                    c as int,
                    d as int,
                )[k as int]);
            }
            return false;
        }
        k = k + 1;
    }
    assert(s@.subrange(a as int, b as int) =~= s@.subrange(c as int, d as int));
    true
}

/// Whether `s[a..b]` holds exactly the characters of `w`.
pub fn range_eq_word(s: &Vec<char>, a: usize, b: usize, w: &Vec<char>) -> (r: bool)
    requires
        a <= b <= s@.len(),
    ensures
        r == (s@.subrange(a as int, b as int) == w@),
{
    if b - a != w.len() {
        proof {
            assert(s@.subrange(a as int, b as int).len() != w@.len());
        }
        return false;
    }
    let mut k: usize = 0;
    while k < w.len()
        invariant
            a <= b <= s@.len(),
            b - a == w@.len(),
            k <= w@.len(),
            forall|m: int| 0 <= m < k ==> #[trigger] s@.subrange(a as int, b as int)[m] == w@[m],
        decreases w@.len() - k,
    {
        if s[a + k] != w[k] {
            proof {
                assert(s@.subrange(a as int, b as int)[k as int] != w@[k as int]);
            }
            return false;
        }
        k = k + 1;
    }
    assert(s@.subrange(a as int, b as int) =~= w@);
    true
}

} // verus!
