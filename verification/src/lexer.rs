//! Tokenizer and classifier for the toy scripting language.
//!
//! A line of text is partitioned into tokens by a single left-to-right scan:
//! digits extend the current run, letters and underscores extend it too (but
//! close a purely numeric run first), and every other character is a
//! one-character token of its own. The classifier maps a token's text to its
//! kind, independent of any surrounding context.

use vstd::prelude::*;

verus! {

/// Kind of a token of the toy scripting language.
#[derive(Clone, Copy, Debug, PartialEq, Eq, Structural)]
pub enum Tok {
    Number,
    StringLit,
    Identifier,
    ArithOp,
    Keyword,
    Punctuation,
    Separator,
    Function,
    Whitespace,
    Type,
}

/// An ASCII decimal digit.
pub open spec fn is_digit_char(c: char) -> bool {
    '0' <= c && c <= '9'
}

/// An ASCII letter or underscore: the characters that extend a word run.
pub open spec fn is_word_char(c: char) -> bool {
    ('a' <= c && c <= 'z') || ('A' <= c && c <= 'Z') || c == '_'
}

/// Every character of `s[a..b)` is a decimal digit.
pub open spec fn digits_in(s: Seq<char>, a: int, b: int) -> bool {
    forall|i: int| a <= i < b ==> is_digit_char(s[i])
}

/// Number of `'.'` characters in `s[a..b)`.
pub open spec fn count_dots(s: Seq<char>, a: int, b: int) -> int
    decreases b - a,
{
    if b <= a {
        0
    } else {
        count_dots(s, a, b - 1) + if s[b - 1] == '.' {
            1int
        } else {
            0int
        }
    }
}

/// Mantissa of a numeric literal: one or more characters from `s[a..b)`,
/// each a digit or a dot, with at most one dot and at least one digit
/// (`"12"`, `"3.14"`, `".5"`, `"7."`).
pub open spec fn is_mantissa(s: Seq<char>, a: int, b: int) -> bool {
    &&& b - a >= 1
    &&& forall|i: int| a <= i < b ==> is_digit_char(s[i]) || s[i] == '.'
    &&& count_dots(s, a, b) <= 1
    &&& b - a > count_dots(s, a, b)
}

/// An exponent marker character.
pub open spec fn is_e_char(c: char) -> bool {
    c == 'e' || c == 'E'
}

/// A sign character.
pub open spec fn is_sign_char(c: char) -> bool {
    c == '+' || c == '-'
}

/// Exponent part of a numeric literal: `e` or `E`, an optional sign, then
/// one or more digits, spanning exactly `s[a..b)`.
pub open spec fn is_exponent(s: Seq<char>, a: int, b: int) -> bool {
    &&& b - a >= 2
    &&& is_e_char(s[a])
    &&& {
        let c = if is_sign_char(s[a + 1]) {
            a + 2
        } else {
            a + 1
        };
        b - c >= 1 && digits_in(s, c, b)
    }
}

/// Index of the first `e` or `E` in `s[a..b)`, or `b` if there is none.
pub open spec fn first_e(s: Seq<char>, a: int, b: int) -> int
    decreases b - a,
{
    if b <= a {
        b
    } else if is_e_char(s[a]) {
        a
    } else {
        first_e(s, a + 1, b)
    }
}

/// `c` equals the lowercase letter `l`, ignoring letter case.
pub open spec fn eq_ci(c: char, l: char) -> bool {
    c == l || c as u32 + 32 == l as u32
}

/// `s[a..b)` is one of the special float words `inf`, `infinity` or `nan`,
/// in any letter case.
pub open spec fn is_special_float(s: Seq<char>, a: int, b: int) -> bool {
    ||| (b - a == 3 && eq_ci(s[a], 'i') && eq_ci(s[a + 1], 'n') && eq_ci(s[a + 2], 'f'))
    ||| (b - a == 8 && eq_ci(s[a], 'i') && eq_ci(s[a + 1], 'n') && eq_ci(s[a + 2], 'f')
        && eq_ci(s[a + 3], 'i') && eq_ci(s[a + 4], 'n') && eq_ci(s[a + 5], 'i')
        && eq_ci(s[a + 6], 't') && eq_ci(s[a + 7], 'y'))
    ||| (b - a == 3 && eq_ci(s[a], 'n') && eq_ci(s[a + 1], 'a') && eq_ci(s[a + 2], 'n'))
}

/// Body of a numeric literal after the optional leading sign: a special
/// float word, or a mantissa followed by an optional exponent.
pub open spec fn is_float_body(s: Seq<char>, a: int, b: int) -> bool {
    ||| is_special_float(s, a, b)
    ||| {
        let p = first_e(s, a, b);
        if p == b {
            is_mantissa(s, a, b)
        } else {
            is_mantissa(s, a, p) && is_exponent(s, p, b)
        }
    }
}

/// The whole of `s` parses as an integer or floating-point literal: an
/// optional sign followed by a float body. This is the grammar that Rust's
/// standard float parsing accepts, which subsumes the integer grammar.
pub open spec fn is_numeric_literal(s: Seq<char>) -> bool {
    let a: int = if s.len() >= 1 && is_sign_char(s[0]) {
        1
    } else {
        0
    };
    a < s.len() && is_float_body(s, a, s.len() as int)
}

/// Kind of a token with text `s`, by the classification rules: fixed
/// keyword, function, type, operator, separator and punctuation sets first,
/// then numeric literals, then quote-delimited text, and identifier as the
/// fallback.
pub open spec fn spec_classify(s: Seq<char>) -> Tok {
    if s == seq![' '] {
        Tok::Whitespace
    } else if s.len() == 1 && (s[0] == '+' || s[0] == '-' || s[0] == '*' || s[0] == '/') {
        Tok::ArithOp
    } else if s.len() == 1 && (s[0] == '(' || s[0] == ')' || s[0] == '{' || s[0] == '}'
        || s[0] == '[' || s[0] == ']') {
        Tok::Separator
    } else if s == seq!['v', 'a', 'r'] {
        Tok::Keyword
    } else if s == seq!['p', 'r', 'i', 'n', 't', 'l', 'n'] {
        Tok::Function
    } else if s == seq!['i', 'n', 't'] || s == seq!['f', 'l', 'o', 'a', 't']
        || s == seq!['s', 't', 'r'] || s == seq!['b', 'o', 'o', 'l'] {
        Tok::Type
    } else if s == seq![':'] {
        Tok::Punctuation
    } else if is_numeric_literal(s) {
        Tok::Number
    } else if s.len() >= 1 && s[0] == '"' && s[s.len() - 1] == '"' {
        Tok::StringLit
    } else {
        Tok::Identifier
    }
}

/// `c` equals the lowercase letter `l` up to letter case.
fn char_eq_ci(c: char, l: char) -> (r: bool)
    ensures
        r == eq_ci(c, l),
{
    c == l || (c as u32) + 32 == (l as u32)
}

/// Every character of `s[a..b)` is a decimal digit.
fn digits_in_range(s: &str, a: usize, b: usize) -> (r: bool)
    requires
        a <= b <= s@.len(),
    ensures
        r == digits_in(s@, a as int, b as int),
{
    let mut i: usize = a;
    while i < b
        invariant
            a <= i <= b <= s@.len(),
            digits_in(s@, a as int, i as int),
        decreases b - i,
    {
        let c = s.get_char(i);
        if !('0' <= c && c <= '9') {
            return false;
        }
        i = i + 1;
    }
    true
}

/// Whether `s[a..b)` is a mantissa.
fn is_mantissa_range(s: &str, a: usize, b: usize) -> (r: bool)
    requires
        a <= b <= s@.len(),
    ensures
        r == is_mantissa(s@, a as int, b as int),
{
    if a == b {
        return false;
    }
    let mut i: usize = a;
    let mut dots: usize = 0;
    while i < b
        invariant
            a <= i <= b <= s@.len(),
            dots == count_dots(s@, a as int, i as int),
            dots <= i - a,
            forall|j: int| a <= j < i ==> is_digit_char(s@[j]) || s@[j] == '.',
        decreases b - i,
    {
        let c = s.get_char(i);
        if c == '.' {
            dots = dots + 1;
        } else if !('0' <= c && c <= '9') {
            return false;
        }
        i = i + 1;
    }
    dots <= 1 && b - a > dots
}

/// Index of the first `e` or `E` in `s[a..b)`, or `b` if there is none.
fn first_e_range(s: &str, a: usize, b: usize) -> (p: usize)
    requires
        a <= b <= s@.len(),
    ensures
        a <= p <= b,
        p == first_e(s@, a as int, b as int),
{
    let mut i: usize = a;
    while i < b
        invariant
            a <= i <= b <= s@.len(),
            first_e(s@, a as int, b as int) == first_e(s@, i as int, b as int),
        decreases b - i,
    {
        let c = s.get_char(i);
        if c == 'e' || c == 'E' {
            return i;
        }
        i = i + 1;
    }
    i
}

/// Whether `s[a..b)` is an exponent part.
fn is_exponent_range(s: &str, a: usize, b: usize) -> (r: bool)
    requires
        a <= b <= s@.len(),
    ensures
        r == is_exponent(s@, a as int, b as int),
{
    if b - a < 2 {
        return false;
    }
    let c0 = s.get_char(a);
    if !(c0 == 'e' || c0 == 'E') {
        return false;
    }
    let c1 = s.get_char(a + 1);
    let cstart: usize = if c1 == '+' || c1 == '-' {
        a + 2
    } else {
        a + 1
    };
    if b - cstart < 1 {
        return false;
    }
    digits_in_range(s, cstart, b)
}

/// Whether `s[a..b)` is a special float word.
fn is_special_float_range(s: &str, a: usize, b: usize) -> (r: bool)
    requires
        a <= b <= s@.len(),
    ensures
        r == is_special_float(s@, a as int, b as int),
{
    let n = b - a;
    if n == 3 {
        let c0 = s.get_char(a);
        let c1 = s.get_char(a + 1);
        let c2 = s.get_char(a + 2);
        (char_eq_ci(c0, 'i') && char_eq_ci(c1, 'n') && char_eq_ci(c2, 'f'))
            || (char_eq_ci(c0, 'n') && char_eq_ci(c1, 'a') && char_eq_ci(c2, 'n'))
    } else if n == 8 {
        let c0 = s.get_char(a);
        let c1 = s.get_char(a + 1);
        let c2 = s.get_char(a + 2);
        let c3 = s.get_char(a + 3);
        let c4 = s.get_char(a + 4);
        let c5 = s.get_char(a + 5);
        let c6 = s.get_char(a + 6);
        let c7 = s.get_char(a + 7);
        char_eq_ci(c0, 'i') && char_eq_ci(c1, 'n') && char_eq_ci(c2, 'f')
            && char_eq_ci(c3, 'i') && char_eq_ci(c4, 'n') && char_eq_ci(c5, 'i')
            && char_eq_ci(c6, 't') && char_eq_ci(c7, 'y')
    } else {
        false
    }
}

/// Whether the whole of `s` is a numeric literal.
fn is_numeric_str(s: &str) -> (r: bool)
    ensures
        r == is_numeric_literal(s@),
{
    let n = s.unicode_len();
    let a: usize = if n >= 1 {
        let c = s.get_char(0);
        if c == '+' || c == '-' {
            1
        } else {
            0
        }
    } else {
        0
    };
    if a >= n {
        return false;
    }
    if is_special_float_range(s, a, n) {
        return true;
    }
    let p = first_e_range(s, a, n);
    if p == n {
        is_mantissa_range(s, a, n)
    } else {
        is_mantissa_range(s, a, p) && is_exponent_range(s, p, n)
    }
}

/// Kind of the token with text `tok`.
///
/// The classification is a pure function of the text alone, so equal texts
/// always receive equal kinds, whatever their surroundings.
pub fn classify(tok: &String) -> (t: Tok)
    ensures
        t == spec_classify(tok@),
{
    let s = tok.as_str();
    let n = s.unicode_len();
    if n == 1 {
        let c = s.get_char(0);
        if c == ' ' {
            assert(tok@ =~= seq![' ']);
            return Tok::Whitespace;
        }
        if c == '+' || c == '-' || c == '*' || c == '/' {
            return Tok::ArithOp;
        }
        if c == '(' || c == ')' || c == '{' || c == '}' || c == '[' || c == ']' {
            return Tok::Separator;
        }
        if c == ':' {
            assert(tok@ =~= seq![':']);
            return Tok::Punctuation;
        }
    } else if n == 3 {
        let c0 = s.get_char(0);
        let c1 = s.get_char(1);
        let c2 = s.get_char(2);
        if c0 == 'v' && c1 == 'a' && c2 == 'r' {
            assert(tok@ =~= seq!['v', 'a', 'r']);
            return Tok::Keyword;
        }
        if c0 == 'i' && c1 == 'n' && c2 == 't' {
            assert(tok@ =~= seq!['i', 'n', 't']);
            return Tok::Type;
        }
        if c0 == 's' && c1 == 't' && c2 == 'r' {
            assert(tok@ =~= seq!['s', 't', 'r']);
            return Tok::Type;
        }
    } else if n == 7 {
        let mut is_println = true;
        if s.get_char(0) != 'p' || s.get_char(1) != 'r' || s.get_char(2) != 'i'
            || s.get_char(3) != 'n' || s.get_char(4) != 't' || s.get_char(5) != 'l'
            || s.get_char(6) != 'n' {
            is_println = false;
        }
        if is_println {
            assert(tok@ =~= seq!['p', 'r', 'i', 'n', 't', 'l', 'n']);
            return Tok::Function;
        }
    } else if n == 5 {
        if s.get_char(0) == 'f' && s.get_char(1) == 'l' && s.get_char(2) == 'o'
            && s.get_char(3) == 'a' && s.get_char(4) == 't' {
            assert(tok@ =~= seq!['f', 'l', 'o', 'a', 't']);
            return Tok::Type;
        }
    } else if n == 4 {
        if s.get_char(0) == 'b' && s.get_char(1) == 'o' && s.get_char(2) == 'o'
            && s.get_char(3) == 'l' {
            assert(tok@ =~= seq!['b', 'o', 'o', 'l']);
            return Tok::Type;
        }
    }
    if is_numeric_str(s) {
        return Tok::Number;
    }
    if n >= 1 && s.get_char(0) == '"' && s.get_char(n - 1) == '"' {
        return Tok::StringLit;
    }
    Tok::Identifier
}

/// Two equal texts always classify to the same kind: the classifier is a
/// pure function of its text argument alone.
pub proof fn lemma_classify_pure(a: Seq<char>, b: Seq<char>)
    requires
        a == b,
    ensures
        spec_classify(a) == spec_classify(b),
{
}

/// The token that closes a run with text `cur`: nothing when the run is
/// empty, else the classified run.
pub open spec fn flush(cur: Seq<char>) -> Seq<(Tok, Seq<char>)> {
    if cur.len() == 0 {
        Seq::empty()
    } else {
        seq![(spec_classify(cur), cur)]
    }
}

/// The scan over the rest of a line `s` with the pending run `cur`: digits
/// extend the run; a letter or underscore closes a purely numeric non-empty
/// run and then extends; any other character closes the run and stands as a
/// one-character token of its own.
pub open spec fn scan(s: Seq<char>, cur: Seq<char>) -> Seq<(Tok, Seq<char>)>
    decreases s.len(),
{
    if s.len() == 0 {
        flush(cur)
    } else {
        let c = s[0];
        if is_digit_char(c) {
            scan(s.drop_first(), cur.push(c))
        } else if is_word_char(c) {
            if cur.len() > 0 && digits_in(cur, 0, cur.len() as int) {
                flush(cur) + scan(s.drop_first(), seq![c])
            } else {
                scan(s.drop_first(), cur.push(c))
            }
        } else {
            flush(cur) + seq![(spec_classify(seq![c]), seq![c])] + scan(
                s.drop_first(),
                Seq::empty(),
            )
        }
    }
}

/// The token sequence of a whole line.
pub open spec fn spec_tokenize(s: Seq<char>) -> Seq<(Tok, Seq<char>)> {
    scan(s, Seq::empty())
}

/// The (kind, text view) pairs of a produced token vector.
pub open spec fn token_views(v: Seq<(Tok, String)>) -> Seq<(Tok, Seq<char>)> {
    v.map_values(|t: (Tok, String)| (t.0, t.1@))
}

/// Concatenation of the texts of a token sequence, in order.
pub open spec fn concat_texts(m: Seq<(Tok, Seq<char>)>) -> Seq<char>
    decreases m.len(),
{
    if m.len() == 0 {
        Seq::empty()
    } else {
        m[0].1 + concat_texts(m.drop_first())
    }
}

proof fn lemma_digits_in_subrange(s: Seq<char>, a: int, b: int)
    requires
        0 <= a <= b <= s.len(),
    ensures
        digits_in(s.subrange(a, b), 0, b - a) == digits_in(s, a, b),
{
    let sub = s.subrange(a, b);
    if digits_in(s, a, b) {
        assert forall|j: int| 0 <= j < b - a implies is_digit_char(sub[j]) by {
            assert(sub[j] == s[a + j]);
        }
    }
    if digits_in(sub, 0, b - a) {
        assert forall|j: int| a <= j < b implies is_digit_char(s[j]) by {
            assert(sub[j - a] == s[j]);
        }
    }
}

proof fn lemma_concat_cons(x: (Tok, Seq<char>), m: Seq<(Tok, Seq<char>)>)
    ensures
        concat_texts(seq![x] + m) == x.1 + concat_texts(m),
{
    let s = seq![x] + m;
    assert(s[0] == x);
    assert(s.drop_first() =~= m);
}

proof fn lemma_scan_concat(s: Seq<char>, cur: Seq<char>)
    ensures
        concat_texts(scan(s, cur)) =~= cur + s,
    decreases s.len(),
{
    if s.len() == 0 {
        if cur.len() == 0 {
            assert(concat_texts(flush(cur)) =~= cur + s);
        } else {
            assert(flush(cur).drop_first() =~= Seq::<(Tok, Seq<char>)>::empty());
            assert(concat_texts(Seq::<(Tok, Seq<char>)>::empty()) =~= Seq::<char>::empty());
            assert(concat_texts(flush(cur)) =~= cur + s);
        }
    } else {
        let c = s[0];
        let rest = s.drop_first();
        if is_digit_char(c) {
            lemma_scan_concat(rest, cur.push(c));
            assert(cur.push(c) + rest =~= cur + s);
        } else if is_word_char(c) {
            if cur.len() > 0 && digits_in(cur, 0, cur.len() as int) {
                lemma_scan_concat(rest, seq![c]);
                lemma_concat_cons((spec_classify(cur), cur), scan(rest, seq![c]));
                assert(flush(cur) + scan(rest, seq![c]) =~= seq![(spec_classify(cur), cur)]
                    + scan(rest, seq![c]));
                assert(cur + (seq![c] + rest) =~= cur + s);
            } else {
                lemma_scan_concat(rest, cur.push(c));
                assert(cur.push(c) + rest =~= cur + s);
            }
        } else {
            let single = (spec_classify(seq![c]), seq![c]);
            lemma_scan_concat(rest, Seq::empty());
            lemma_concat_cons(single, scan(rest, Seq::empty()));
            if cur.len() == 0 {
                assert(flush(cur) + seq![single] + scan(rest, Seq::empty()) =~= seq![single]
                    + scan(rest, Seq::empty()));
                assert(seq![c] + (Seq::empty() + rest) =~= cur + s);
            } else {
                lemma_concat_cons(
                    (spec_classify(cur), cur),
                    seq![single] + scan(rest, Seq::empty()),
                );
                assert(flush(cur) + seq![single] + scan(rest, Seq::empty()) =~= seq![(
                    spec_classify(cur),
                    cur,
                )] + (seq![single] + scan(rest, Seq::empty())));
                assert(cur + (seq![c] + (Seq::empty() + rest)) =~= cur + s);
            }
        }
    }
}

/// Tokenizing is a lossless partition: concatenating the texts of the
/// tokens of a line, in order, reconstructs the line exactly.
pub proof fn lemma_tokenize_lossless(s: Seq<char>)
    ensures
        concat_texts(spec_tokenize(s)) == s,
{
    lemma_scan_concat(s, Seq::empty());
    assert(Seq::<char>::empty() + s =~= s);
}

/// Partition a line into classified tokens by the single left-to-right
/// scan. The scan is total: every line, including the empty one, yields a
/// (possibly empty) token sequence, and the texts concatenate back to the
/// line.
pub fn tokenize(line: &str) -> (toks: Vec<(Tok, String)>)
    ensures
        token_views(toks@) == spec_tokenize(line@),
{
    let n = line.unicode_len();
    let mut toks: Vec<(Tok, String)> = Vec::new();
    let mut rs: usize = 0;
    let mut run_digits: bool = true;
    let mut i: usize = 0;
    proof {
        assert(token_views(toks@) =~= Seq::<(Tok, Seq<char>)>::empty());
        assert(line@.subrange(0, n as int) =~= line@);
        assert(line@.subrange(0, 0) =~= Seq::<char>::empty());
        assert(token_views(toks@) + scan(line@, Seq::<char>::empty()) =~= scan(
            line@,
            Seq::<char>::empty(),
        ));
    }
    while i < n
        invariant
            0 <= rs <= i <= n,
            n == line@.len(),
            run_digits == digits_in(line@, rs as int, i as int),
            spec_tokenize(line@) == token_views(toks@) + scan(
                line@.subrange(i as int, n as int),
                line@.subrange(rs as int, i as int),
            ),
        decreases n - i,
    {
        let ghost run = line@.subrange(rs as int, i as int);
        let ghost tail = line@.subrange(i as int, n as int);
        let ghost tail1 = line@.subrange(i + 1, n as int);
        let ghost tv0 = token_views(toks@);
        let c = line.get_char(i);
        proof {
            assert(tail[0] == c);
            assert(tail.drop_first() =~= tail1);
        }
        if '0' <= c && c <= '9' {
            proof {
                assert(run.push(c) =~= line@.subrange(rs as int, i + 1));
                assert(scan(tail, run) == scan(tail.drop_first(), run.push(tail[0])));
                assert(token_views(toks@) + scan(tail1, line@.subrange(rs as int, i + 1))
                    =~= token_views(toks@) + scan(tail, run));
            }
        } else if ('a' <= c && c <= 'z') || ('A' <= c && c <= 'Z') || c == '_' {
            proof {
                lemma_digits_in_subrange(line@, rs as int, i as int);
            }
            if i > rs && run_digits {
                let ts = line.substring_char(rs, i).to_owned();
                let k = classify(&ts);
                toks.push((k, ts));
                proof {
                    assert(token_views(toks@) =~= tv0 + flush(run));
                    assert(seq![c] =~= line@.subrange(i as int, i + 1));
                    assert(scan(tail, run) == flush(run) + scan(tail1, seq![c]));
                    assert((tv0 + flush(run)) + scan(tail1, seq![c]) =~= tv0 + scan(tail, run));
                }
                rs = i;
                run_digits = false;
            } else {
                proof {
                    assert(run.push(c) =~= line@.subrange(rs as int, i + 1));
                    assert(scan(tail, run) == scan(tail.drop_first(), run.push(tail[0])));
                    assert(token_views(toks@) + scan(tail1, line@.subrange(rs as int, i + 1))
                        =~= token_views(toks@) + scan(tail, run));
                }
                run_digits = false;
            }
        } else {
            let ghost single = (spec_classify(seq![c]), seq![c]);
            if i > rs {
                let ts = line.substring_char(rs, i).to_owned();
                let k = classify(&ts);
                toks.push((k, ts));
                proof {
                    assert(token_views(toks@) =~= tv0 + flush(run));
                }
            } else {
                proof {
                    assert(flush(run) =~= Seq::<(Tok, Seq<char>)>::empty());
                    assert(token_views(toks@) =~= tv0 + flush(run));
                }
            }
            let ghost tv1 = token_views(toks@);
            let ts1 = line.substring_char(i, i + 1).to_owned();
            proof {
                assert(ts1@ =~= seq![c]);
            }
            let k1 = classify(&ts1);
            toks.push((k1, ts1));
            proof {
                assert(token_views(toks@) =~= tv1 + seq![single]);
                assert(line@.subrange(i + 1, i + 1) =~= Seq::<char>::empty());
                assert(scan(tail, run) == flush(run) + seq![single] + scan(tail1, Seq::empty()));
                assert(((tv0 + flush(run)) + seq![single]) + scan(tail1, Seq::empty()) =~= tv0
                    + scan(tail, run));
            }
            rs = i + 1;
            run_digits = true;
        }
        i = i + 1;
    }
    proof {
        assert(line@.subrange(i as int, n as int) =~= Seq::<char>::empty());
    }
    let ghost run = line@.subrange(rs as int, i as int);
    let ghost tv0 = token_views(toks@);
    if rs < n {
        let ts = line.substring_char(rs, n).to_owned();
        let k = classify(&ts);
        toks.push((k, ts));
        proof {
            assert(token_views(toks@) =~= tv0 + flush(run));
            assert(scan(Seq::<char>::empty(), run) == flush(run));
        }
    } else {
        proof {
            assert(run =~= Seq::<char>::empty());
            assert(scan(Seq::<char>::empty(), run) =~= Seq::<(Tok, Seq<char>)>::empty());
            assert(token_views(toks@) =~= tv0 + scan(Seq::<char>::empty(), run));
        }
    }
    proof {
        assert(token_views(toks@) =~= spec_tokenize(line@));
    }
    toks
}

} // verus!

