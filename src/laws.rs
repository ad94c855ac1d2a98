use vstd::prelude::*;
use crate::token::{TokenType, punctuation_kind, two_char_kind, is_keyword, keyword_kind};
use crate::model::{
    is_alpha_char, is_alnum_char, is_digit_char, digits_end, word_end, string_stop, scan_end, scan_kind, skip_insignificant,
    skip_block, line_end, char_is, lemma_line_end_bounds, lemma_skip_block_bounds,
};

verus! {

/// A punctuation character on its own is one token of the kind that the
/// punctuation table gives, and its lexeme is the whole input.
pub proof fn law_single_punctuation(c: char)
    requires
        punctuation_kind(c) is Some,
    ensures
        scan_kind(seq![c], 0) == punctuation_kind(c),
        scan_end(seq![c], 0) == 1,
        seq![c].subrange(0, 1) == seq![c],
{
    assert(seq![c].subrange(0, 1) =~= seq![c]);
}

/// Two characters that form an operator are read as one two-character token.
pub proof fn law_two_char_operator(src: Seq<char>, p: int)
    requires
        0 <= p,
        p + 1 < src.len(),
        two_char_kind(src[p], src[p + 1]) is Some,
    ensures
        scan_end(src, p) == p + 2,
        scan_kind(src, p) == two_char_kind(src[p], src[p + 1]),
{
}

/// A punctuation character that no operator continues is read alone, and the
/// character after it is left for the next token.
pub proof fn law_one_char_operator(src: Seq<char>, p: int)
    requires
        0 <= p < src.len(),
        punctuation_kind(src[p]) is Some,
        !(p + 1 < src.len() && two_char_kind(src[p], src[p + 1]) is Some),
    ensures
        scan_end(src, p) == p + 1,
        scan_kind(src, p) == punctuation_kind(src[p]),
{
}

/// A quote, characters that are neither quotes nor newlines, and a closing
/// quote form one string token whose lexeme holds both quotes.
pub proof fn law_string_literal(src: Seq<char>, p: int, j: int)
    requires
        0 <= p < j < src.len(),
        src[p] == '"',
        src[j] == '"',
        forall|k: int| p < k < j ==> src[k] != '"' && src[k] != '\n',
    ensures
        scan_kind(src, p) == Some(TokenType::Strings),
        scan_end(src, p) == j + 1,
{
    lemma_string_stop(src, p + 1, j);
}

/// A quote followed by a newline, or by the end of the input, before any
/// closing quote is no token: the scan reports an unterminated string there.
pub proof fn law_unterminated_string(src: Seq<char>, p: int, j: int)
    requires
        0 <= p < j <= src.len(),
        src[p] == '"',
        j == src.len() || src[j] == '\n',
        forall|k: int| p < k < j ==> src[k] != '"' && src[k] != '\n',
    ensures
        scan_kind(src, p) is None,
        scan_end(src, p) == j,
{
    lemma_string_stop(src, p + 1, j);
}

proof fn lemma_string_stop(src: Seq<char>, i: int, j: int)
    requires
        0 <= i <= j <= src.len(),
        j == src.len() || src[j] == '\n' || src[j] == '"',
        forall|k: int| i <= k < j ==> src[k] != '"' && src[k] != '\n',
    ensures
        string_stop(src, i) == j,
    decreases j - i,
{
    if i < j {
        lemma_string_stop(src, i + 1, j);
    }
}

/// An identifier-shaped word is read whole, as its keyword kind where it is
/// a reserved word and as an identifier where it is not.
pub proof fn law_keyword_partition(w: Seq<char>)
    requires
        w.len() > 0,
        is_alpha_char(w[0]),
        forall|i: int| 1 <= i < w.len() ==> is_alnum_char(w[i]),
    ensures
        scan_end(w, 0) == w.len(),
        scan_kind(w, 0) == Some(keyword_kind(w)),
        is_keyword(w) ==> keyword_kind(w) != TokenType::Identifier,
        !is_keyword(w) ==> keyword_kind(w) == TokenType::Identifier,
{
    lemma_word_end(w, 1);
    assert(w.subrange(0, w.len() as int) =~= w);
}

proof fn lemma_word_end(w: Seq<char>, i: int)
    requires
        1 <= i <= w.len(),
        forall|k: int| 1 <= k < w.len() ==> is_alnum_char(w[k]),
    ensures
        word_end(w, i) == w.len(),
    decreases w.len() - i,
{
    if i < w.len() {
        lemma_word_end(w, i + 1);
    }
}

/// At the end of the input the scan yields the end-of-input token without
/// moving, and skipping finds nothing to skip: both stay so on every later call.
pub proof fn law_end_of_input(src: Seq<char>, line: nat)
    ensures
        scan_kind(src, src.len() as int) == Some(TokenType::Eof),
        scan_end(src, src.len() as int) == src.len(),
        skip_insignificant(src, src.len() as int, line) == (src.len() as int, line, false),
{
}

/// The number of newlines in `src` from `a` up to `b`.
pub open spec fn newlines_between(src: Seq<char>, a: int, b: int) -> nat
    decreases b - a,
{
    if b <= a {
        0
    } else {
        newlines_between(src, a, b - 1) + (if src[b - 1] == '\n' {
            1nat
        } else {
            0nat
        })
    }
}

proof fn lemma_newlines_split(src: Seq<char>, a: int, b: int, c: int)
    requires
        a <= b <= c,
    ensures
        newlines_between(src, a, c) == newlines_between(src, a, b) + newlines_between(src, b, c),
    decreases c - b,
{
    if b < c {
        lemma_newlines_split(src, a, b, c - 1);
    }
}

proof fn lemma_no_newlines(src: Seq<char>, a: int, b: int)
    requires
        forall|k: int| a <= k < b ==> src[k] != '\n',
    ensures
        newlines_between(src, a, b) == 0,
    decreases b - a,
{
    if a < b {
        lemma_no_newlines(src, a, b - 1);
    }
}

proof fn lemma_line_end_no_newlines(src: Seq<char>, i: int)
    requires
        0 <= i <= src.len(),
    ensures
        forall|k: int| i <= k < line_end(src, i) ==> src[k] != '\n',
    decreases src.len() - i,
{
    if i < src.len() && src[i] != '\n' {
        lemma_line_end_no_newlines(src, i + 1);
    }
}

/// Inside a block comment the line count grows by one for each newline passed.
pub proof fn law_block_comment_lines(src: Seq<char>, p: int, line: nat, depth: nat)
    requires
        0 <= p <= src.len(),
    ensures
        p <= skip_block(src, p, line, depth).0 <= src.len(),
        skip_block(src, p, line, depth).1 == line + newlines_between(
            src,
            p,
            skip_block(src, p, line, depth).0,
        ),
    decreases src.len() - p,
{
    if depth == 0 || p >= src.len() {
    } else {
        let q = skip_block(src, p, line, depth).0;
        if src[p] == '(' && char_is(src, p + 1, '*') {
            law_block_comment_lines(src, p + 2, line, depth + 1);
            lemma_no_newlines(src, p, p + 2);
            lemma_newlines_split(src, p, p + 2, q);
        } else if src[p] == '*' && char_is(src, p + 1, ')') {
            law_block_comment_lines(src, p + 2, line, (depth - 1) as nat);
            lemma_no_newlines(src, p, p + 2);
            lemma_newlines_split(src, p, p + 2, q);
        } else if src[p] == '\n' {
            law_block_comment_lines(src, p + 1, line + 1, depth);
            assert(newlines_between(src, p, p) == 0);
            lemma_newlines_split(src, p, p + 1, q);
        } else {
            law_block_comment_lines(src, p + 1, line, depth);
            lemma_no_newlines(src, p, p + 1);
            lemma_newlines_split(src, p, p + 1, q);
        }
    }
}

/// Skipping whitespace and comments adds to the line count exactly the
/// number of newlines it passes, those inside comments included.
pub proof fn law_skip_counts_lines(src: Seq<char>, p: int, line: nat)
    requires
        0 <= p <= src.len(),
    ensures
        p <= skip_insignificant(src, p, line).0 <= src.len(),
        skip_insignificant(src, p, line).1 == line + newlines_between(
            src,
            p,
            skip_insignificant(src, p, line).0,
        ),
    decreases src.len() - p,
{
    if p < src.len() {
        let c = src[p];
        let q = skip_insignificant(src, p, line).0;
        if c == ' ' || c == '\r' || c == '\t' {
            law_skip_counts_lines(src, p + 1, line);
            lemma_no_newlines(src, p, p + 1);
            lemma_newlines_split(src, p, p + 1, q);
        } else if c == '\n' {
            law_skip_counts_lines(src, p + 1, line + 1);
            assert(newlines_between(src, p, p) == 0);
            lemma_newlines_split(src, p, p + 1, q);
        } else if c == '#' {
            let e = line_end(src, p + 1);
            lemma_line_end_bounds(src, p + 1);
            lemma_line_end_no_newlines(src, p + 1);
            lemma_no_newlines(src, p, e);
            law_skip_counts_lines(src, e, line);
            lemma_newlines_split(src, p, e, q);
        } else if c == '(' && char_is(src, p + 1, '*') {
            let (b, l, depth) = skip_block(src, p + 2, line, 1);
            law_block_comment_lines(src, p + 2, line, 1);
            lemma_no_newlines(src, p, p + 2);
            lemma_newlines_split(src, p, p + 2, b);
            if depth == 0 {
                law_skip_counts_lines(src, b, l);
                lemma_newlines_split(src, p, b, q);
            }
        }
    }
}

proof fn lemma_open_block_reaches_end(src: Seq<char>, p: int, line: nat, depth: nat)
    requires
        0 <= p <= src.len(),
    ensures
        skip_block(src, p, line, depth).2 > 0 ==> skip_block(src, p, line, depth).0 == src.len(),
    decreases src.len() - p,
{
    if depth == 0 || p >= src.len() {
    } else if src[p] == '(' && char_is(src, p + 1, '*') {
        lemma_open_block_reaches_end(src, p + 2, line, depth + 1);
    } else if src[p] == '*' && char_is(src, p + 1, ')') {
        lemma_open_block_reaches_end(src, p + 2, line, (depth - 1) as nat);
    } else if src[p] == '\n' {
        lemma_open_block_reaches_end(src, p + 1, line + 1, depth);
    } else {
        lemma_open_block_reaches_end(src, p + 1, line, depth);
    }
}

/// Skipping a second time right after a skip changes nothing and reports no error.
pub proof fn law_skip_idempotent(src: Seq<char>, p: int, line: nat)
    requires
        0 <= p <= src.len(),
    ensures
        ({
            let (q, l, _open) = skip_insignificant(src, p, line);
            skip_insignificant(src, q, l) == (q, l, false)
        }),
    decreases src.len() - p,
{
    if p < src.len() {
        let c = src[p];
        if c == ' ' || c == '\r' || c == '\t' {
            law_skip_idempotent(src, p + 1, line);
        } else if c == '\n' {
            law_skip_idempotent(src, p + 1, line + 1);
        } else if c == '#' {
            lemma_line_end_bounds(src, p + 1);
            law_skip_idempotent(src, line_end(src, p + 1), line);
        } else if c == '(' && char_is(src, p + 1, '*') {
            let (b, l, depth) = skip_block(src, p + 2, line, 1);
            lemma_skip_block_bounds(src, p + 2, line, 1);
            lemma_open_block_reaches_end(src, p + 2, line, 1);
            if depth == 0 {
                law_skip_idempotent(src, b, l);
            }
        }
    }
}

proof fn lemma_digits_end(src: Seq<char>, i: int, d: int)
    requires
        0 <= i <= d <= src.len(),
        forall|k: int| i <= k < d ==> is_digit_char(src[k]),
        d == src.len() || !is_digit_char(src[d]),
    ensures
        digits_end(src, i) == d,
    decreases d - i,
{
    if i < d {
        lemma_digits_end(src, i + 1, d);
    }
}

/// A maximal run of digits is an integer token; where a dot and a digit
/// follow it, the dot and the next run of digits belong to it and make it a
/// float. A dot with no digit after it is left for the next token.
pub proof fn law_numeric_literal(src: Seq<char>, p: int, d: int)
    requires
        0 <= p < d <= src.len(),
        forall|k: int| p <= k < d ==> is_digit_char(src[k]),
        d == src.len() || !is_digit_char(src[d]),
    ensures
        char_is(src, d, '.') && d + 1 < src.len() && is_digit_char(src[d + 1]) ==> {
            &&& scan_kind(src, p) == Some(TokenType::Float)
            &&& scan_end(src, p) == digits_end(src, d + 1)
            &&& d + 1 < scan_end(src, p)
        },
        !(char_is(src, d, '.') && d + 1 < src.len() && is_digit_char(src[d + 1])) ==> {
            &&& scan_kind(src, p) == Some(TokenType::Integer)
            &&& scan_end(src, p) == d
        },
{
    lemma_digits_end(src, p + 1, d);
    if d + 1 < src.len() {
        lemma_digits_end_moves(src, d + 2);
    }
}

proof fn lemma_digits_end_moves(src: Seq<char>, i: int)
    ensures
        i <= digits_end(src, i),
    decreases src.len() - i,
{
    if 0 <= i < src.len() && is_digit_char(src[i]) {
        lemma_digits_end_moves(src, i + 1);
    }
}

proof fn lemma_digits_run(src: Seq<char>, i: int)
    requires
        0 <= i,
    ensures
        forall|k: int| i <= k < digits_end(src, i) ==> is_digit_char(src[k]),
    decreases src.len() - i,
{
    if i < src.len() && is_digit_char(src[i]) {
        lemma_digits_run(src, i + 1);
    }
}

proof fn lemma_word_run(src: Seq<char>, i: int)
    requires
        0 <= i,
    ensures
        forall|k: int| i <= k < word_end(src, i) ==> is_alnum_char(src[k]),
    decreases src.len() - i,
{
    if i < src.len() && is_alnum_char(src[i]) {
        lemma_word_run(src, i + 1);
    }
}

proof fn lemma_string_run(src: Seq<char>, i: int)
    requires
        0 <= i,
    ensures
        forall|k: int| i <= k < string_stop(src, i) ==> src[k] != '\n',
    decreases src.len() - i,
{
    if i < src.len() && src[i] != '"' && src[i] != '\n' {
        lemma_string_run(src, i + 1);
    }
}

/// One scan step passes a newline only where it reads that newline as an
/// unrecognised character; every token lies on a single line.
pub proof fn law_scan_newlines(src: Seq<char>, p: int)
    requires
        0 <= p <= src.len(),
    ensures
        newlines_between(src, p, scan_end(src, p)) == (if char_is(src, p, '\n') {
            1nat
        } else {
            0nat
        }),
{
    if p < src.len() {
        let c = src[p];
        let e = scan_end(src, p);
        if c == '"' {
            lemma_string_run(src, p + 1);
            lemma_no_newlines(src, p, e);
        } else if is_digit_char(c) {
            lemma_digits_run(src, p + 1);
            let d = digits_end(src, p + 1);
            if char_is(src, d, '.') && d + 1 < src.len() && is_digit_char(src[d + 1]) {
                lemma_digits_run(src, d + 1);
            }
            lemma_no_newlines(src, p, e);
        } else if is_alpha_char(c) {
            lemma_word_run(src, p + 1);
            lemma_no_newlines(src, p, e);
        } else if e == p + 1 && c == '\n' {
            assert(newlines_between(src, p, p) == 0);
        } else {
            lemma_no_newlines(src, p, e);
        }
    }
}

} // verus!
