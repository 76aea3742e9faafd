//! Half-open byte-offset intervals into source text, and the conversion of
//! an offset to a 1-based line/column position.

use vstd::prelude::*;
use vstd::string::StringSliceAdditionalSpecFns;

verus! {

/// Number of newline bytes (0x0A) among `b[0 .. end]`.
pub open spec fn newline_count(b: Seq<u8>, end: int) -> int
    decreases end,
{
    if end <= 0 {
        0
    } else {
        newline_count(b, end - 1) + if b[end - 1] == 10u8 {
            1int
        } else {
            0int
        }
    }
}

/// Index of the last newline byte strictly before `end`, or -1 if none.
pub open spec fn last_newline_before(b: Seq<u8>, end: int) -> int
    decreases end,
{
    if end <= 0 {
        -1
    } else if b[end - 1] == 10u8 {
        end - 1
    } else {
        last_newline_before(b, end - 1)
    }
}

/// An offset past the end of the text is treated as the end of the text.
pub open spec fn clamp_to_len(b: Seq<u8>, end: int) -> int {
    if end <= b.len() {
        end
    } else {
        b.len() as int
    }
}

/// 1-based line of offset `end` in text `b`: one more than the number of
/// newlines before it.
pub open spec fn line_of(b: Seq<u8>, end: int) -> int {
    1 + newline_count(b, clamp_to_len(b, end))
}

/// Column of offset `end` in text `b`: the byte distance to the last newline
/// before it, or the offset itself if no newline precedes it. The convention
/// is fixed so that the first byte after a newline is column 1, and the
/// column of offset 0 is 0.
pub open spec fn col_of(b: Seq<u8>, end: int) -> int {
    let e = clamp_to_len(b, end);
    if last_newline_before(b, e) >= 0 {
        e - last_newline_before(b, e)
    } else {
        e
    }
}

/// The character for one decimal digit.
pub open spec fn digit_char(d: int) -> char {
    if d == 0 {
        '0'
    } else if d == 1 {
        '1'
    } else if d == 2 {
        '2'
    } else if d == 3 {
        '3'
    } else if d == 4 {
        '4'
    } else if d == 5 {
        '5'
    } else if d == 6 {
        '6'
    } else if d == 7 {
        '7'
    } else if d == 8 {
        '8'
    } else {
        '9'
    }
}

/// The decimal rendering of a non-negative number, most significant digit
/// first, with no leading zeros except on zero itself.
pub open spec fn dec_digits(n: int) -> Seq<char>
    decreases n,
{
    if n < 10 {
        seq![digit_char(n)]
    } else {
        dec_digits(n / 10) + seq![digit_char(n % 10)]
    }
}

/// The characters of a sequence of digits read back to front: the head of
/// `v` is the least significant digit and is rendered last.
pub open spec fn rev_digit_chars(v: Seq<u32>) -> Seq<char>
    decreases v.len(),
{
    if v.len() == 0 {
        Seq::empty()
    } else {
        seq![digit_char(v.last() as int)] + rev_digit_chars(v.drop_last())
    }
}

/// Appends the character of one decimal digit.
fn push_digit(s: &mut String, d: u32)
    requires
        d < 10,
    ensures
        final(s)@ == old(s)@ + seq![digit_char(d as int)],
{
    if d == 0 {
        s.append("0");
        proof {
            reveal_strlit("0");
            assert(old(s)@ + "0"@ =~= old(s)@ + seq![digit_char(0)]);
        }
    } else if d == 1 {
        s.append("1");
        proof {
            reveal_strlit("1");
            assert(old(s)@ + "1"@ =~= old(s)@ + seq![digit_char(1)]);
        }
    } else if d == 2 {
        s.append("2");
        proof {
            reveal_strlit("2");
            assert(old(s)@ + "2"@ =~= old(s)@ + seq![digit_char(2)]);
        }
    } else if d == 3 {
        s.append("3");
        proof {
            reveal_strlit("3");
            assert(old(s)@ + "3"@ =~= old(s)@ + seq![digit_char(3)]);
        }
    } else if d == 4 {
        s.append("4");
        proof {
            reveal_strlit("4");
            assert(old(s)@ + "4"@ =~= old(s)@ + seq![digit_char(4)]);
        }
    } else if d == 5 {
        s.append("5");
        proof {
            reveal_strlit("5");
            assert(old(s)@ + "5"@ =~= old(s)@ + seq![digit_char(5)]);
        }
    } else if d == 6 {
        s.append("6");
        proof {
            reveal_strlit("6");
            assert(old(s)@ + "6"@ =~= old(s)@ + seq![digit_char(6)]);
        }
    } else if d == 7 {
        s.append("7");
        proof {
            reveal_strlit("7");
            assert(old(s)@ + "7"@ =~= old(s)@ + seq![digit_char(7)]);
        }
    } else if d == 8 {
        s.append("8");
        proof {
            reveal_strlit("8");
            assert(old(s)@ + "8"@ =~= old(s)@ + seq![digit_char(8)]);
        }
    } else {
        s.append("9");
        proof {
            reveal_strlit("9");
            assert(old(s)@ + "9"@ =~= old(s)@ + seq![digit_char(9)]);
        }
    }
}

/// Renders a number in decimal.
pub fn u32_to_dec(n: u32) -> (r: String)
    ensures
        r@ == dec_digits(n as int),
{
    let mut rest: Vec<u32> = Vec::new();
    let mut m: u32 = n;
    while m >= 10
        invariant
            dec_digits(n as int) == dec_digits(m as int) + rev_digit_chars(rest@),
            forall|j: int| 0 <= j < rest@.len() ==> (#[trigger] rest@[j]) < 10,
        decreases m,
    {
        let d: u32 = m % 10;
        proof {
            assert(rest@.push(d).drop_last() =~= rest@);
            assert(rev_digit_chars(rest@.push(d)) == seq![digit_char(d as int)]
                + rev_digit_chars(rest@));
            assert(dec_digits(m as int) == dec_digits(m as int / 10) + seq![
                digit_char(m as int % 10),
            ]);
            assert(dec_digits((m / 10) as int) + rev_digit_chars(rest@.push(d)) =~= dec_digits(
                m as int,
            ) + rev_digit_chars(rest@));
        }
        rest.push(d);
        m = m / 10;
    }
    let mut s = String::new();
    push_digit(&mut s, m);
    proof {
        assert(Seq::<char>::empty() + seq![digit_char(m as int)] =~= dec_digits(m as int));
    }
    let mut k: usize = rest.len();
    proof {
        assert(rest@.subrange(0, k as int) =~= rest@);
    }
    while k > 0
        invariant
            k <= rest@.len(),
            forall|j: int| 0 <= j < rest@.len() ==> (#[trigger] rest@[j]) < 10,
            s@ + rev_digit_chars(rest@.subrange(0, k as int)) == dec_digits(n as int),
        decreases k,
    {
        k = k - 1;
        let d: u32 = rest[k];
        proof {
            assert(rest@.subrange(0, k + 1).last() == d);
            assert(rest@.subrange(0, k + 1).drop_last() =~= rest@.subrange(0, k as int));
            assert(s@ + (seq![digit_char(d as int)] + rev_digit_chars(
                rest@.subrange(0, k as int),
            )) =~= (s@ + seq![digit_char(d as int)]) + rev_digit_chars(
                rest@.subrange(0, k as int),
            ));
        }
        push_digit(&mut s, d);
    }
    proof {
        assert(rev_digit_chars(rest@.subrange(0, 0)) =~= Seq::<char>::empty());
        assert(s@ + Seq::<char>::empty() =~= s@);
    }
    s
}

/// A half-open byte interval `[start, end)` into source text. Handles and
/// diagnostics only ever produce intervals with `start <= end`, but the type
/// itself admits any pair, as `From` builds one from arbitrary numbers.
pub struct TextRange {
    pub start: u32,
    pub end: u32,
}

impl From<(u32, u32)> for TextRange {
    fn from(p: (u32, u32)) -> (r: Self) {
        TextRange { start: p.0, end: p.1 }
    }
}

impl vstd::std_specs::convert::FromSpecImpl<(u32, u32)> for TextRange {
    open spec fn obeys_from_spec() -> bool {
        true
    }

    open spec fn from_spec(p: (u32, u32)) -> Self {
        TextRange { start: p.0, end: p.1 }
    }
}

impl TextRange {
    pub fn start(&self) -> (r: u32)
        ensures
            r == self.start,
    {
        self.start
    }

    pub fn end(&self) -> (r: u32)
        ensures
            r == self.end,
    {
        self.end
    }

    /// The 1-based line and the column of the range's end offset in
    /// `source` — the exact text the range was computed against. The whole
    /// prefix before the end offset is scanned afresh on each call. An end
    /// offset past the end of the text counts as the text's end; in the one
    /// extreme where the line count does not fit `u32`, the line wraps to
    /// zero.
    pub fn to_line_col(&self, source: &str) -> (r: (u32, u32))
        ensures
            ({
                let b = source.spec_bytes();
                let l = line_of(b, self.end as int);
                &&& (l <= u32::MAX ==> r.0 as int == l)
                &&& (l > u32::MAX ==> r.0 == 0)
                &&& r.1 as int == col_of(b, self.end as int)
            }),
    {
        let b = source.as_bytes();
        let end_u: usize = self.end as usize;
        let e: usize = if end_u <= b.len() {
            end_u
        } else {
            b.len()
        };
        let mut count: u32 = 0;
        let mut last_nl: usize = 0;
        let mut has_nl: bool = false;
        let mut i: usize = 0;
        while i < e
            invariant
                b@ == source.spec_bytes(),
                e <= b@.len(),
                e == clamp_to_len(b@, self.end as int),
                e <= u32::MAX,
                i <= e,
                count <= i,
                count as int == newline_count(b@, i as int),
                has_nl ==> last_nl < i && last_newline_before(b@, i as int) == last_nl,
                !has_nl ==> last_newline_before(b@, i as int) == -1,
            decreases e - i,
        {
            if b[i] == 10u8 {
                count = count + 1;
                last_nl = i;
                has_nl = true;
            }
            i = i + 1;
        }
        let line: u32 = if count < 0xffff_ffffu32 {
            count + 1
        } else {
            0
        };
        let col: u32 = if has_nl {
            (e - last_nl) as u32
        } else {
            e as u32
        };
        (line, col)
    }

    /// The 1-based line of the range's end offset in `source`.
    pub fn line(&self, source: &str) -> (r: u32)
        ensures
            ({
                let l = line_of(source.spec_bytes(), self.end as int);
                &&& (l <= u32::MAX ==> r as int == l)
                &&& (l > u32::MAX ==> r == 0)
            }),
    {
        self.to_line_col(source).0
    }

    /// The column of the range's end offset in `source`.
    pub fn col(&self, source: &str) -> (r: u32)
        ensures
            r as int == col_of(source.spec_bytes(), self.end as int),
    {
        self.to_line_col(source).1
    }

    /// Renders the interval as `start..end` in decimal.
    pub fn to_string(&self) -> (r: String)
        ensures
            r@ == dec_digits(self.start as int) + seq!['.', '.'] + dec_digits(self.end as int),
    {
        let mut s = u32_to_dec(self.start);
        let dots = "..";
        s.append(dots);
        let e = u32_to_dec(self.end);
        s.append(e.as_str());
        proof {
            reveal_strlit("..");
            assert(dots@ =~= seq!['.', '.']);
            assert((dec_digits(self.start as int) + dots@) + dec_digits(self.end as int)
                =~= dec_digits(self.start as int) + seq!['.', '.'] + dec_digits(
                self.end as int,
            ));
        }
        s
    }
}

/// At the start of any text the position is line 1, and the convention
/// fixes the column of offset 0 at 0. One byte in, the column is 1 — the
/// first byte of a line is column 1 — and the line is still 1 unless that
/// first byte was itself a newline.
pub proof fn lemma_position_at_text_start(b: Seq<u8>)
    ensures
        line_of(b, 0) == 1,
        col_of(b, 0) == 0,
        b.len() > 0 && b[0] != 10u8 ==> line_of(b, 1) == 1 && col_of(b, 1) == 1,
        b.len() > 0 && b[0] == 10u8 ==> line_of(b, 1) == 2 && col_of(b, 1) == 1,
{
    assert(newline_count(b, 0) == 0);
    assert(last_newline_before(b, 0) == -1);
    if b.len() > 0 {
        assert(newline_count(b, 1) == newline_count(b, 0) + if b[0] == 10u8 {
            1int
        } else {
            0int
        });
    }
}

} // verus!
