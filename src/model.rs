use vstd::prelude::*;
use crate::token::{TokenType, single_char_kind, operator_pair, keyword_kind};

verus! {

pub open spec fn is_digit_char(c: char) -> bool {
    '0' <= c <= '9'
}

pub open spec fn is_alpha_char(c: char) -> bool {
    ('a' <= c <= 'z') || ('A' <= c <= 'Z') || c == '_'
}

pub open spec fn is_alnum_char(c: char) -> bool {
    is_digit_char(c) || is_alpha_char(c)
}

/// Whether `src` holds `c` at `i`.
pub open spec fn char_is(src: Seq<char>, i: int, c: char) -> bool {
    0 <= i < src.len() && src[i] == c
}

/// The end of the maximal run of digits that starts at `i`.
pub open spec fn digits_end(src: Seq<char>, i: int) -> int
    decreases src.len() - i,
{
    if 0 <= i < src.len() && is_digit_char(src[i]) {
        digits_end(src, i + 1)
    } else {
        i
    }
}

/// The end of the maximal run of letters, digits and underscores that starts at `i`.
pub open spec fn word_end(src: Seq<char>, i: int) -> int
    decreases src.len() - i,
{
    if 0 <= i < src.len() && is_alnum_char(src[i]) {
        word_end(src, i + 1)
    } else {
        i
    }
}

/// The first position at or after `i` that holds a quote or a newline, or the end.
pub open spec fn string_stop(src: Seq<char>, i: int) -> int
    decreases src.len() - i,
{
    if 0 <= i < src.len() && src[i] != '"' && src[i] != '\n' {
        string_stop(src, i + 1)
    } else {
        i
    }
}

/// The first position at or after `i` that holds a newline, or the end.
pub open spec fn line_end(src: Seq<char>, i: int) -> int
    decreases src.len() - i,
{
    if 0 <= i < src.len() && src[i] != '\n' {
        line_end(src, i + 1)
    } else {
        i
    }
}

/// Where the number that starts at `p` ends, and whether it has a fractional part.
pub open spec fn number_end(src: Seq<char>, p: int) -> (int, bool) {
    let d = digits_end(src, p + 1);
    if char_is(src, d, '.') && d + 1 < src.len() && is_digit_char(src[d + 1]) {
        (digits_end(src, d + 1), true)
    } else {
        (d, false)
    }
}

/// Where the lexeme that starts at `p` ends (the scan stops there on an error too).
pub open spec fn scan_end(src: Seq<char>, p: int) -> int {
    if p >= src.len() {
        p
    } else {
        let c = src[p];
        if single_char_kind(c) is Some {
            p + 1
        } else if c == '=' {
            if char_is(src, p + 1, '>') || char_is(src, p + 1, '=') {
                p + 2
            } else {
                p + 1
            }
        } else if operator_pair(c) is Some {
            let (next, _single, _double) = operator_pair(c)->0;
            if char_is(src, p + 1, next) {
                p + 2
            } else {
                p + 1
            }
        } else if c == '"' {
            let j = string_stop(src, p + 1);
            if char_is(src, j, '"') {
                j + 1
            } else {
                j
            }
        } else if is_digit_char(c) {
            number_end(src, p).0
        } else if is_alpha_char(c) {
            word_end(src, p + 1)
        } else {
            p + 1
        }
    }
}

/// The kind of the token that starts at `p`, or `None` where the text there is
/// no token: an unterminated string (it starts with a quote) or an unrecognised
/// character.
pub open spec fn scan_kind(src: Seq<char>, p: int) -> Option<TokenType> {
    if p >= src.len() {
        Some(TokenType::Eof)
    } else {
        let c = src[p];
        if single_char_kind(c) is Some {
            single_char_kind(c)
        } else if c == '=' {
            if char_is(src, p + 1, '>') {
                Some(TokenType::FatArrow)
            } else if char_is(src, p + 1, '=') {
                Some(TokenType::EqualEqual)
            } else {
                Some(TokenType::Equal)
            }
        } else if operator_pair(c) is Some {
            let (next, single, double) = operator_pair(c)->0;
            if char_is(src, p + 1, next) {
                Some(double)
            } else {
                Some(single)
            }
        } else if c == '"' {
            if char_is(src, string_stop(src, p + 1), '"') {
                Some(TokenType::Strings)
            } else {
                None
            }
        } else if is_digit_char(c) {
            if number_end(src, p).1 {
                Some(TokenType::Float)
            } else {
                Some(TokenType::Integer)
            }
        } else if is_alpha_char(c) {
            Some(keyword_kind(src.subrange(p, word_end(src, p + 1))))
        } else {
            None
        }
    }
}

/// Skipping the body of a block comment at nesting `depth`, from `p` on line
/// `line`: where it stops, on which line, and the depth left open (zero when
/// the comment was closed).
pub open spec fn skip_block(src: Seq<char>, p: int, line: nat, depth: nat) -> (int, nat, nat)
    decreases src.len() - p,
{
    if depth == 0 || p < 0 || p >= src.len() {
        (p, line, depth)
    } else if src[p] == '(' && char_is(src, p + 1, '*') {
        skip_block(src, p + 2, line, depth + 1)
    } else if src[p] == '*' && char_is(src, p + 1, ')') {
        skip_block(src, p + 2, line, (depth - 1) as nat)
    } else if src[p] == '\n' {
        skip_block(src, p + 1, line + 1, depth)
    } else {
        skip_block(src, p + 1, line, depth)
    }
}

/// Skipping whitespace and comments from `p` on line `line`: where it stops,
/// on which line, and whether it stopped in an unterminated block comment.
pub open spec fn skip_insignificant(src: Seq<char>, p: int, line: nat) -> (int, nat, bool)
    decreases src.len() - p,
    via skip_insignificant_decreases
{
    if p < 0 || p >= src.len() {
        (p, line, false)
    } else {
        let c = src[p];
        if c == ' ' || c == '\r' || c == '\t' {
            skip_insignificant(src, p + 1, line)
        } else if c == '\n' {
            skip_insignificant(src, p + 1, line + 1)
        } else if c == '#' {
            skip_insignificant(src, line_end(src, p + 1), line)
        } else if c == '(' && char_is(src, p + 1, '*') {
            let (q, l, depth) = skip_block(src, p + 2, line, 1);
            if depth > 0 {
                (q, l, true)
            } else {
                skip_insignificant(src, q, l)
            }
        } else {
            (p, line, false)
        }
    }
}

#[via_fn]
proof fn skip_insignificant_decreases(src: Seq<char>, p: int, line: nat) {
    if 0 <= p < src.len() {
        lemma_line_end_bounds(src, p + 1);
        if char_is(src, p + 1, '*') {
            lemma_skip_block_bounds(src, p + 2, line, 1);
        }
    }
}

pub proof fn lemma_line_end_bounds(src: Seq<char>, i: int)
    requires
        0 <= i <= src.len(),
    ensures
        i <= line_end(src, i) <= src.len(),
    decreases src.len() - i,
{
    if i < src.len() && src[i] != '\n' {
        lemma_line_end_bounds(src, i + 1);
    }
}

pub proof fn lemma_skip_block_bounds(src: Seq<char>, p: int, line: nat, depth: nat)
    requires
        0 <= p <= src.len(),
    ensures
        p <= skip_block(src, p, line, depth).0 <= src.len(),
        line <= skip_block(src, p, line, depth).1,
    decreases src.len() - p,
{
    if depth == 0 || p >= src.len() {
    } else if src[p] == '(' && char_is(src, p + 1, '*') {
        lemma_skip_block_bounds(src, p + 2, line, depth + 1);
    } else if src[p] == '*' && char_is(src, p + 1, ')') {
        lemma_skip_block_bounds(src, p + 2, line, (depth - 1) as nat);
    } else if src[p] == '\n' {
        lemma_skip_block_bounds(src, p + 1, line + 1, depth);
    } else {
        lemma_skip_block_bounds(src, p + 1, line, depth);
    }
}

} // verus!
