//! The Logisim memory image of a program, and a reader for it.
use vstd::prelude::*;
use crate::assembler::Assembler;

verus! {

/// The first line of a Logisim memory image: `v2.0 raw` and a newline.
pub open spec fn image_header() -> Seq<u8> {
    seq![118u8, 50u8, 46u8, 48u8, 32u8, 114u8, 97u8, 119u8, 10u8]
}

/// Uppercase hexadecimal digit for a value below 16.
pub open spec fn hex_upper(d: u32) -> u8 {
    if d < 10 {
        (48 + d) as u8
    } else {
        (55 + d) as u8
    }
}

/// The `i`-th hexadecimal digit of a word, most significant first.
pub open spec fn nibble(w: u32, i: int) -> u32 {
    (w >> ((28 - 4 * i) as u32)) & 15
}

/// One line of the image: the word as 8 uppercase hexadecimal digits, then a
/// newline.
pub open spec fn word_line(w: u32) -> Seq<u8> {
    Seq::new(9, |i: int| if i < 8 { hex_upper(nibble(w, i)) } else { 10u8 })
}

/// The lines of all words, in address order.
pub open spec fn word_lines(words: Seq<u32>) -> Seq<u8>
    decreases words.len(),
{
    if words.len() == 0 {
        Seq::empty()
    } else {
        word_lines(words.drop_last()) + word_line(words.last())
    }
}

/// The Logisim memory image of a program: the header, then one line per word.
pub open spec fn image_text(words: Seq<u32>) -> Seq<u8> {
    image_header() + word_lines(words)
}

/// Value of a hexadecimal digit (either case) written as an ASCII byte.
pub open spec fn hex_byte(b: u8) -> Option<u32> {
    if 48 <= b <= 57 {
        Some((b - 48) as u32)
    } else if 65 <= b <= 70 {
        Some((b - 55) as u32)
    } else if 97 <= b <= 102 {
        Some((b - 87) as u32)
    } else {
        None
    }
}

/// The word written by the first `k` digits at `at`.
pub open spec fn digits_value(b: Seq<u8>, at: int, k: nat) -> u32
    decreases k,
{
    if k == 0 {
        0
    } else {
        (digits_value(b, at, (k - 1) as nat) << 4u32) | match hex_byte(b[at + k - 1]) {
            Some(d) => d,
            None => 0,
        }
    }
}

/// Whether 8 hexadecimal digits and a newline stand at `at`.
pub open spec fn valid_line(b: Seq<u8>, at: int) -> bool {
    &&& forall|j: int| 0 <= j < 8 ==> hex_byte(#[trigger] b[at + j]) is Some
    &&& b[at + 8] == 10
}

/// Whether the `k`-th word line of an image is well formed.
pub open spec fn line_ok(b: Seq<u8>, k: int) -> bool {
    valid_line(b, 9 + 9 * k)
}

/// The word on the `k`-th word line of an image.
pub open spec fn line_word(b: Seq<u8>, k: int) -> u32 {
    digits_value(b, 9 + 9 * k, 8)
}

/// Reads a Logisim memory image: the header, then lines of exactly 8
/// hexadecimal digits each; `None` if the bytes are not of that form.
pub open spec fn parse_image(b: Seq<u8>) -> Option<Seq<u32>> {
    if b.len() < 9 || b.subrange(0, 9) != image_header() || (b.len() - 9) % 9 != 0 {
        None
    } else {
        let n = (b.len() - 9) / 9;
        if forall|k: int| 0 <= k < n ==> #[trigger] line_ok(b, k) {
            Some(Seq::new(n as nat, |k: int| line_word(b, k)))
        } else {
            None
        }
    }
}

proof fn lemma_word_lines_index(words: Seq<u32>, k: int, j: int)
    requires
        0 <= k < words.len(),
        0 <= j < 9,
    ensures
        word_lines(words).len() == 9 * words.len(),
        word_lines(words)[9 * k + j] == word_line(words[k])[j],
    decreases words.len(),
{
    lemma_word_lines_len(words);
    if k < words.len() - 1 {
        lemma_word_lines_index(words.drop_last(), k, j);
    }
}

proof fn lemma_word_lines_len(words: Seq<u32>)
    ensures
        word_lines(words).len() == 9 * words.len(),
    decreases words.len(),
{
    if words.len() > 0 {
        lemma_word_lines_len(words.drop_last());
    }
}

proof fn lemma_nibbles_rebuild(w: u32)
    ensures
        ((((((((((w >> 28u32) & 15) << 4u32 | ((w >> 24u32) & 15)) << 4u32 | ((w >> 20u32) & 15))
            << 4u32 | ((w >> 16u32) & 15)) << 4u32 | ((w >> 12u32) & 15)) << 4u32 | ((w >> 8u32)
            & 15)) << 4u32 | ((w >> 4u32) & 15)) << 4u32 | ((w >> 0u32) & 15)) == w),
        ((0u32 << 4u32) | ((w >> 28u32) & 15)) == ((w >> 28u32) & 15),
{
    assert(((((((((((w >> 28u32) & 15) << 4u32 | ((w >> 24u32) & 15)) << 4u32 | ((w >> 20u32)
        & 15)) << 4u32 | ((w >> 16u32) & 15)) << 4u32 | ((w >> 12u32) & 15)) << 4u32 | ((w
        >> 8u32) & 15)) << 4u32 | ((w >> 4u32) & 15)) << 4u32 | ((w >> 0u32) & 15)) == w))
        by (bit_vector);
    assert(((0u32 << 4u32) | ((w >> 28u32) & 15)) == ((w >> 28u32) & 15)) by (bit_vector);
}

proof fn lemma_line_round_trip(b: Seq<u8>, at: int, w: u32)
    requires
        0 <= at,
        at + 9 <= b.len(),
        b.subrange(at, at + 9) == word_line(w),
    ensures
        valid_line(b, at),
        digits_value(b, at, 8) == w,
{
    assert forall|j: int| 0 <= j < 9 implies b[at + j] == word_line(w)[j] by {
        assert(b.subrange(at, at + 9)[j] == b[at + j]);
    }
    assert forall|j: int| 0 <= j < 8 implies hex_byte(#[trigger] b[at + j]) == Some(
        nibble(w, j),
    ) by {
        let x: u32 = w >> ((28 - 4 * j) as u32);
        assert(x & 15 < 16) by (bit_vector);
        assert(b[at + j] == word_line(w)[j]);
    }
    assert(b[at + 8] == word_line(w)[8]);
    assert(hex_byte(b[at + 0]) == Some(nibble(w, 0)));
    assert(hex_byte(b[at + 1]) == Some(nibble(w, 1)));
    assert(hex_byte(b[at + 2]) == Some(nibble(w, 2)));
    assert(hex_byte(b[at + 3]) == Some(nibble(w, 3)));
    assert(hex_byte(b[at + 4]) == Some(nibble(w, 4)));
    assert(hex_byte(b[at + 5]) == Some(nibble(w, 5)));
    assert(hex_byte(b[at + 6]) == Some(nibble(w, 6)));
    assert(hex_byte(b[at + 7]) == Some(nibble(w, 7)));
    assert(digits_value(b, at, 1) == (digits_value(b, at, 0) << 4u32) | nibble(w, 0));
    assert(digits_value(b, at, 2) == (digits_value(b, at, 1) << 4u32) | nibble(w, 1));
    assert(digits_value(b, at, 3) == (digits_value(b, at, 2) << 4u32) | nibble(w, 2));
    assert(digits_value(b, at, 4) == (digits_value(b, at, 3) << 4u32) | nibble(w, 3));
    assert(digits_value(b, at, 5) == (digits_value(b, at, 4) << 4u32) | nibble(w, 4));
    assert(digits_value(b, at, 6) == (digits_value(b, at, 5) << 4u32) | nibble(w, 5));
    assert(digits_value(b, at, 7) == (digits_value(b, at, 6) << 4u32) | nibble(w, 6));
    assert(digits_value(b, at, 8) == (digits_value(b, at, 7) << 4u32) | nibble(w, 7));
    lemma_nibbles_rebuild(w);
}

/// Logisim round trip: reading back the image of any program gives exactly
/// its instruction words.
pub proof fn lemma_logisim_round_trip(words: Seq<u32>)
    ensures
        parse_image(image_text(words)) == Some(words),
{
    let b = image_text(words);
    lemma_word_lines_len(words);
    assert(b.subrange(0, 9) =~= image_header());
    let n = words.len() as int;
    assert((b.len() - 9) / 9 == n && (b.len() - 9) % 9 == 0) by (nonlinear_arith)
        requires
            b.len() == 9 + 9 * n,
            n >= 0,
    ;
    assert forall|k: int| #![trigger line_ok(b, k)] #![trigger line_word(b, k)] 0 <= k < n implies line_ok(b, k) && line_word(b, k)
        == words[k] by {
        assert forall|j: int| 0 <= j < 9 implies b.subrange(9 + 9 * k, 9 + 9 * k + 9)[j]
            == word_line(words[k])[j] by {
            lemma_word_lines_index(words, k, j);
        }
        assert(b.subrange(9 + 9 * k, 9 + 9 * k + 9) =~= word_line(words[k]));
        lemma_line_round_trip(b, 9 + 9 * k, words[k]);
    }
    assert(Seq::new(n as nat, |k: int| line_word(b, k)) =~= words);
}


/// Uppercase hexadecimal digit for a value below 16.
fn hex_upper_byte(d: u32) -> (r: u8)
    requires
        d < 16,
    ensures
        r == hex_upper(d),
{
    if d < 10 {
        (48 + d) as u8
    } else {
        (55 + d) as u8
    }
}

/// Appends the image line of one word.
fn push_word_line(out: &mut Vec<u8>, w: u32)
    ensures
        final(out)@ == old(out)@ + word_line(w),
{
    let ghost start = out@;
    let mut i: u32 = 0;
    while i < 8
        invariant
            i <= 8,
            out@ == start + word_line(w).take(i as int),
        decreases 8 - i,
    {
        let x: u32 = w >> (28 - 4 * i);
        assert(x & 15 < 16) by (bit_vector);
        out.push(hex_upper_byte(x & 15));
        assert(word_line(w).take(i + 1) =~= word_line(w).take(i as int).push(
            hex_upper(nibble(w, i as int)),
        ));
        i = i + 1;
    }
    out.push(10);
    assert(word_line(w).take(8).push(10u8) =~= word_line(w));
}

/// Value of a hexadecimal digit written as an ASCII byte.
fn hex_byte_value(b: u8) -> (r: Option<u32>)
    ensures
        r == hex_byte(b),
{
    if 48 <= b && b <= 57 {
        Some((b - 48) as u32)
    } else if 65 <= b && b <= 70 {
        Some((b - 55) as u32)
    } else if 97 <= b && b <= 102 {
        Some((b - 87) as u32)
    } else {
        None
    }
}

/// Reads a Logisim memory image: `None` unless it is the header followed by
/// lines of exactly 8 hexadecimal digits.
pub fn parse_logisim(bytes: &Vec<u8>) -> (r: Option<Vec<u32>>)
    ensures
        match parse_image(bytes@) {
            Some(ws) => r is Some && r->0@ == ws,
            None => r is None,
        },
{
    let ghost b = bytes@;
    let len = bytes.len();
    if len < 9 {
        return None;
    }
    let header: Vec<u8> = vec![118u8, 50u8, 46u8, 48u8, 32u8, 114u8, 97u8, 119u8, 10u8];
    let mut i: usize = 0;
    while i < 9
        invariant
            i <= 9,
            9 <= len == b.len(),
            bytes@ == b,
            header@ == image_header(),
            forall|j: int| 0 <= j < i ==> b[j] == image_header()[j],
        decreases 9 - i,
    {
        if bytes[i] != header[i] {
            proof {
                assert(b.subrange(0, 9)[i as int] != image_header()[i as int]);
            }
            return None;
        }
        i = i + 1;
    }
    assert(b.subrange(0, 9) =~= image_header());
    if (len - 9) % 9 != 0 {
        return None;
    }
    let n = (len - 9) / 9;
    let mut words: Vec<u32> = Vec::new();
    let mut k: usize = 0;
    while k < n
        invariant
            k <= n,
            n == (b.len() - 9) / 9,
            (b.len() - 9) % 9 == 0,
            len == b.len(),
            bytes@ == b,
            b.subrange(0, 9) == image_header(),
            words@.len() == k,
            forall|m: int| 0 <= m < k ==> #[trigger] line_ok(b, m),
            forall|m: int| 0 <= m < k ==> #[trigger] words@[m] == line_word(b, m),
        decreases n - k,
    {
        assert(9 + 9 * k + 9 <= b.len()) by (nonlinear_arith)
            requires
                k < n,
                n == (b.len() - 9) / 9,
                (b.len() - 9) % 9 == 0,
                b.len() >= 9,
        ;
        let at = 9 + 9 * k;
        let mut acc: u32 = 0;
        let mut j: usize = 0;
        while j < 8
            invariant
                j <= 8,
                at == 9 + 9 * k,
                at + 9 <= b.len(),
                len == b.len(),
                bytes@ == b,
                acc == digits_value(b, at as int, j as nat),
                forall|q: int| 0 <= q < j ==> hex_byte(#[trigger] b[at + q]) is Some,
            decreases 8 - j,
        {
            match hex_byte_value(bytes[at + j]) {
                None => {
                    proof {
                        assert(!line_ok(b, k as int));
                    }
                    return None;
                },
                Some(d) => {
                    acc = (acc << 4u32) | d;
                },
            }
            j = j + 1;
        }
        if bytes[at + 8] != 10 {
            proof {
                assert(!line_ok(b, k as int));
            }
            return None;
        }
        assert(line_ok(b, k as int));
        words.push(acc);
        k = k + 1;
    }
    assert(words@ =~= Seq::new(n as nat, |m: int| line_word(b, m)));
    Some(words)
}

impl Assembler {
    /// The program's Logisim memory image: `v2.0 raw`, then each word as 8
    /// uppercase hexadecimal digits on a line of its own.
    pub fn as_logisim(&self) -> (r: Vec<u8>)
        ensures
            r@ == image_text(self.instructions@),
    {
        let mut out: Vec<u8> = vec![118u8, 50u8, 46u8, 48u8, 32u8, 114u8, 97u8, 119u8, 10u8];
        let n = self.instructions.len();
        for k in 0..n
            invariant
                n == self.instructions@.len(),
                out@ == image_header() + word_lines(self.instructions@.take(k as int)),
        {
            push_word_line(&mut out, self.instructions[k]);
            assert(self.instructions@.take(k + 1).drop_last() =~= self.instructions@.take(k as int));
        }
        assert(self.instructions@.take(n as int) =~= self.instructions@);
        out
    }
}

} // verus!
