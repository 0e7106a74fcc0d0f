//! Per-frame layout arithmetic: gutter widths, line-number labels, the
//! horizontal advance of the paint cursor over a line's tokens, and the
//! frame plan that lays the whole document out line by line.

use vstd::prelude::*;
use crate::lexer::{spec_tokenize, token_views, tokenize, Tok};

verus! {

/// Number of decimal digits in `n` when written in base ten
/// (`0` is written with one digit).
pub open spec fn spec_digit_count(n: nat) -> nat
    decreases n,
{
    if n < 10 {
        1
    } else {
        1 + spec_digit_count(n / 10)
    }
}

/// A positive number has at least as many units as digits.
proof fn lemma_digit_count_le(n: nat)
    ensures
        n >= 1 ==> spec_digit_count(n) <= n,
    decreases n,
{
    if n >= 10 {
        lemma_digit_count_le(n / 10);
    }
}

/// Digit count of a line's 1-based display number: the width of its gutter
/// label in characters.
pub fn digit_count(n: usize) -> (w: usize)
    ensures
        w == spec_digit_count(n as nat),
{
    proof {
        lemma_digit_count_le(n as nat);
    }
    let mut m: usize = n;
    let mut w: usize = 1;
    while m >= 10
        invariant
            1 <= w,
            w - 1 + spec_digit_count(m as nat) == spec_digit_count(n as nat),
            spec_digit_count(n as nat) <= usize::MAX,
        decreases m,
    {
        proof {
            lemma_digit_count_le(m as nat / 10);
        }
        m = m / 10;
        w = w + 1;
    }
    w
}

/// The character for the decimal digit `d`.
pub open spec fn digit_char(d: nat) -> char {
    if d == 0 {
        '0'
    } else if d == 1 {
        '1'
    } else if d == 2 {
        '2'
    } else if d == 3 {
        '3'
    } else if d == 4 {
        '4'
    } else if d == 5 {
        '5'
    } else if d == 6 {
        '6'
    } else if d == 7 {
        '7'
    } else if d == 8 {
        '8'
    } else {
        '9'
    }
}

/// The decimal digits of `n`, most significant first.
pub open spec fn spec_decimal(n: nat) -> Seq<char>
    decreases n,
{
    if n < 10 {
        seq![digit_char(n)]
    } else {
        spec_decimal(n / 10).push(digit_char(n % 10))
    }
}

/// A number's decimal label is exactly as wide as its digit count, so
/// right-justifying the label within its own digit count adds no padding.
pub proof fn lemma_label_width(n: nat)
    ensures
        spec_decimal(n).len() == spec_digit_count(n),
    decreases n,
{
    if n >= 10 {
        lemma_label_width(n / 10);
    }
}

fn digit_str(d: usize) -> (s: &'static str)
    requires
        d < 10,
    ensures
        s@ == seq![digit_char(d as nat)],
{
    let r: &'static str = if d == 0 {
        "0"
    } else if d == 1 {
        "1"
    } else if d == 2 {
        "2"
    } else if d == 3 {
        "3"
    } else if d == 4 {
        "4"
    } else if d == 5 {
        "5"
    } else if d == 6 {
        "6"
    } else if d == 7 {
        "7"
    } else if d == 8 {
        "8"
    } else {
        "9"
    };
    proof {
        reveal_strlit("0");
        reveal_strlit("1");
        reveal_strlit("2");
        reveal_strlit("3");
        reveal_strlit("4");
        reveal_strlit("5");
        reveal_strlit("6");
        reveal_strlit("7");
        reveal_strlit("8");
        reveal_strlit("9");
        assert(r@ =~= seq![digit_char(d as nat)]);
    }
    r
}

/// The gutter label of a line: its display number written in decimal.
pub fn line_number_label(n: usize) -> (s: String)
    ensures
        s@ == spec_decimal(n as nat),
    decreases n,
{
    if n < 10 {
        digit_str(n).to_owned()
    } else {
        let mut s = line_number_label(n / 10);
        s.append(digit_str(n % 10));
        proof {
            assert(s@ =~= spec_decimal(n as nat));
        }
        s
    }
}

/// Width of a line's gutter: the digit count of its display number times
/// the width of one rendered digit glyph, plus a fixed margin of 10.
pub fn gutter_width(digits: usize, digit_glyph_width: u32) -> (g: u32)
    requires
        digits * digit_glyph_width + 10 <= u32::MAX,
    ensures
        g == digits * digit_glyph_width + 10,
{
    let wide: u64 = (digits as u64) * (digit_glyph_width as u64) + 10;
    wide as u32
}

/// A character of the Unicode white-space class.
pub open spec fn is_space_char(c: char) -> bool {
    ||| c == ' '
    ||| c == '\t'
    ||| c == '\n'
    ||| c == '\r'
    ||| c == '\u{000B}'
    ||| c == '\u{000C}'
    ||| c == '\u{0085}'
    ||| c == '\u{00A0}'
    ||| c == '\u{1680}'
    ||| ('\u{2000}' <= c && c <= '\u{200A}')
    ||| c == '\u{2028}'
    ||| c == '\u{2029}'
    ||| c == '\u{202F}'
    ||| c == '\u{205F}'
    ||| c == '\u{3000}'
}

/// Every character of `s` is white space.
pub open spec fn spec_blank(s: Seq<char>) -> bool {
    forall|i: int| 0 <= i < s.len() ==> is_space_char(s[i])
}

/// Whether a token's text is pure white space, in which case it is not
/// drawn and the paint cursor advances by one space glyph instead.
pub fn is_blank(s: &str) -> (r: bool)
    ensures
        r == spec_blank(s@),
{
    let n = s.unicode_len();
    let mut i: usize = 0;
    while i < n
        invariant
            0 <= i <= n,
            n == s@.len(),
            forall|j: int| 0 <= j < i ==> is_space_char(s@[j]),
        decreases n - i,
    {
        let c = s.get_char(i);
        let sp = c == ' ' || c == '\t' || c == '\n' || c == '\r' || c == '\u{000B}'
            || c == '\u{000C}' || c == '\u{0085}' || c == '\u{00A0}' || c == '\u{1680}'
            || ('\u{2000}' <= c && c <= '\u{200A}') || c == '\u{2028}' || c == '\u{2029}'
            || c == '\u{202F}' || c == '\u{205F}' || c == '\u{3000}';
        if !sp {
            return false;
        }
        i = i + 1;
    }
    true
}

/// Where the paint cursor stands after a token: a blank token advances it
/// by the width of one space glyph and draws nothing; any other token
/// advances it by the token's rendered width.
pub fn advance_after_token(x: u32, text: &str, token_width: u32, space_width: u32) -> (nx: u32)
    requires
        x + token_width <= u32::MAX,
        x + space_width <= u32::MAX,
    ensures
        spec_blank(text@) ==> nx == x + space_width,
        !spec_blank(text@) ==> nx == x + token_width,
{
    if is_blank(text) {
        x + space_width
    } else {
        x + token_width
    }
}

/// The lines of `s` after the pending partial line `cur`: splitting at
/// every newline, a newline ends the line before it, and empty lines are
/// kept as zero-length entries.
pub open spec fn split_from(s: Seq<char>, cur: Seq<char>) -> Seq<Seq<char>>
    decreases s.len(),
{
    if s.len() == 0 {
        seq![cur]
    } else if s[0] == '\n' {
        seq![cur] + split_from(s.drop_first(), Seq::empty())
    } else {
        split_from(s.drop_first(), cur.push(s[0]))
    }
}

/// The lines of a document's text, split at newlines, empty lines kept.
pub open spec fn spec_split_lines(s: Seq<char>) -> Seq<Seq<char>> {
    split_from(s, Seq::empty())
}

/// The views of a produced line vector.
pub open spec fn line_views(v: Seq<String>) -> Seq<Seq<char>> {
    v.map_values(|t: String| t@)
}

/// Split a document's text into its display lines, in order, preserving
/// empty lines as zero-length entries.
pub fn split_lines(text: &str) -> (lines: Vec<String>)
    ensures
        line_views(lines@) == spec_split_lines(text@),
{
    let n = text.unicode_len();
    let mut lines: Vec<String> = Vec::new();
    let mut rs: usize = 0;
    let mut i: usize = 0;
    proof {
        assert(line_views(lines@) =~= Seq::<Seq<char>>::empty());
        assert(text@.subrange(0, n as int) =~= text@);
        assert(text@.subrange(0, 0) =~= Seq::<char>::empty());
        assert(line_views(lines@) + split_from(text@, Seq::<char>::empty()) =~= split_from(
            text@,
            Seq::<char>::empty(),
        ));
    }
    while i < n
        invariant
            0 <= rs <= i <= n,
            n == text@.len(),
            spec_split_lines(text@) == line_views(lines@) + split_from(
                text@.subrange(i as int, n as int),
                text@.subrange(rs as int, i as int),
            ),
        decreases n - i,
    {
        let ghost cur = text@.subrange(rs as int, i as int);
        let ghost tail = text@.subrange(i as int, n as int);
        let ghost tail1 = text@.subrange(i + 1, n as int);
        let ghost lv0 = line_views(lines@);
        let c = text.get_char(i);
        proof {
            assert(tail[0] == c);
            assert(tail.drop_first() =~= tail1);
        }
        if c == '\n' {
            let line = text.substring_char(rs, i).to_owned();
            lines.push(line);
            proof {
                assert(line_views(lines@) =~= lv0 + seq![cur]);
                assert(text@.subrange(i + 1, i + 1) =~= Seq::<char>::empty());
                assert(split_from(tail, cur) == seq![cur] + split_from(tail1, Seq::empty()));
                assert((lv0 + seq![cur]) + split_from(tail1, Seq::empty()) =~= lv0 + split_from(
                    tail,
                    cur,
                ));
            }
            rs = i + 1;
        } else {
            proof {
                assert(cur.push(c) =~= text@.subrange(rs as int, i + 1));
                assert(split_from(tail, cur) == split_from(tail.drop_first(), cur.push(tail[0])));
                assert(lv0 + split_from(tail1, text@.subrange(rs as int, i + 1)) =~= lv0
                    + split_from(tail, cur));
            }
        }
        i = i + 1;
    }
    let ghost cur = text@.subrange(rs as int, i as int);
    let ghost lv0 = line_views(lines@);
    let last = text.substring_char(rs, n).to_owned();
    lines.push(last);
    proof {
        assert(text@.subrange(i as int, n as int) =~= Seq::<char>::empty());
        assert(line_views(lines@) =~= lv0 + seq![cur]);
        assert(split_from(Seq::<char>::empty(), cur) == seq![cur]);
        assert(line_views(lines@) =~= spec_split_lines(text@));
    }
    lines
}

/// The lines of `ls` joined with a newline between each pair.
pub open spec fn join_lines(ls: Seq<Seq<char>>) -> Seq<char>
    decreases ls.len(),
{
    if ls.len() == 0 {
        Seq::empty()
    } else if ls.len() == 1 {
        ls[0]
    } else {
        ls[0].push('\n') + join_lines(ls.drop_first())
    }
}

proof fn lemma_split_from_join(s: Seq<char>, cur: Seq<char>)
    ensures
        join_lines(split_from(s, cur)) =~= cur + s,
    decreases s.len(),
{
    if s.len() == 0 {
        assert(join_lines(seq![cur]) =~= cur + s);
    } else {
        let c = s[0];
        let rest = s.drop_first();
        if c == '\n' {
            lemma_split_from_join(rest, Seq::empty());
            let tail_lines = split_from(rest, Seq::empty());
            let all = seq![cur] + tail_lines;
            assert(all[0] == cur);
            assert(all.drop_first() =~= tail_lines);
            assert(all.len() >= 2);
            assert(join_lines(all) == cur.push('\n') + join_lines(tail_lines));
            assert(cur.push('\n') + (Seq::empty() + rest) =~= cur + s);
        } else {
            lemma_split_from_join(rest, cur.push(c));
            assert(cur.push(c) + rest =~= cur + s);
        }
    }
}

/// Splitting into display lines is lossless: joining the lines of a
/// document's text with a newline between each pair reconstructs the text
/// exactly.
pub proof fn lemma_split_lines_lossless(s: Seq<char>)
    ensures
        join_lines(spec_split_lines(s)) == s,
{
    lemma_split_from_join(s, Seq::empty());
    assert(Seq::<char>::empty() + s =~= s);
}

/// Everything the painter needs for one line of the frame: the gutter
/// label of its display number, the label's width in digits, and the
/// line's classified tokens in order.
pub struct LineLayout {
    pub label: String,
    pub digits: usize,
    pub tokens: Vec<(Tok, String)>,
}

/// Lay out a whole document for one frame: one entry per display line, in
/// top-to-bottom order. Line `i` carries the decimal label of its 1-based
/// display number `i + 1`, that number's digit count, and the tokens of
/// the line's text.
pub fn frame_plan(text: &str) -> (plan: Vec<LineLayout>)
    ensures
        plan@.len() == spec_split_lines(text@).len(),
        forall|i: int|
            0 <= i < plan@.len() ==> {
                &&& #[trigger] plan@[i].label@ == spec_decimal((i + 1) as nat)
                &&& plan@[i].digits == spec_digit_count((i + 1) as nat)
                &&& token_views(plan@[i].tokens@) == spec_tokenize(spec_split_lines(text@)[i])
            },
{
    let lines = split_lines(text);
    let mut plan: Vec<LineLayout> = Vec::new();
    let mut i: usize = 0;
    while i < lines.len()
        invariant
            0 <= i <= lines@.len(),
            plan@.len() == i,
            line_views(lines@) == spec_split_lines(text@),
            forall|j: int|
                0 <= j < i ==> {
                    &&& #[trigger] plan@[j].label@ == spec_decimal((j + 1) as nat)
                    &&& plan@[j].digits == spec_digit_count((j + 1) as nat)
                    &&& token_views(plan@[j].tokens@) == spec_tokenize(spec_split_lines(text@)[j])
                },
        decreases lines@.len() - i,
    {
        let number = i + 1;
        let digits = digit_count(number);
        let label = line_number_label(number);
        let tokens = tokenize(lines[i].as_str());
        proof {
            assert(line_views(lines@)[i as int] == lines@[i as int]@);
        }
        plan.push(LineLayout { label, digits, tokens });
        i = i + 1;
    }
    plan
}

} // verus!
