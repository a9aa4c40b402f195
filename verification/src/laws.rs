//! General laws of the scanning model, proved once and for all inputs:
//! every successful scan ends in exactly one end-of-input token; input
//! made of nothing but whitespace and comments scans to that token alone;
//! the line counter advances exactly once per newline consumed; the
//! punctuation and operator table, string literals and unterminated
//! strings behave as stated.

use vstd::prelude::*;

use crate::scanner::{
    alphabetic, eof_model, find_from, ident_end, ident_type, is_digit_char, is_ident_char,
    is_number_char, is_op_char, is_single_char, is_space_char, lemma_find_from, lemma_ident_end,
    lemma_newline_count_first, lemma_newline_count_none, lemma_newline_count_nonneg,
    lemma_newline_count_split,
    lemma_number_end, newline_count, next_line, number_end, op_eq_type, op_plain_type,
    prepend_token, simple_model, single_char_type, spec_scan_from, ErrorModel,
};
use crate::token::{LiteralModel, TokenModel, TokenType};

verus! {

/// The last element of a non-empty token sequence produced by putting
/// one token in front of a non-empty tail is the tail's last element.
proof fn lemma_cons_last(t: TokenModel, rest: Seq<TokenModel>)
    requires
        rest.len() >= 1,
    ensures
        (seq![t] + rest).last() == rest.last(),
{
    assert((seq![t] + rest)[(rest.len()) as int] == rest[rest.len() - 1]);
}

/// A scan that puts a non-end-of-input token in front of a successful
/// tail ends exactly as the tail does: in one end-of-input token with an
/// empty lexeme, and in no earlier one.
proof fn lemma_scan_cons_ends_with_eof(
    src: Seq<char>,
    i2: int,
    l2: int,
    t: TokenModel,
    toks: Seq<TokenModel>,
)
    requires
        0 <= i2 <= src.len(),
        t.ttype != TokenType::EOF,
        prepend_token(t, spec_scan_from(src, i2, l2)) == Ok::<Seq<TokenModel>, ErrorModel>(toks),
    ensures
        toks.len() >= 1,
        toks.last().ttype == TokenType::EOF,
        toks.last().lexeme == None::<Seq<char>>,
        forall|k: int| 0 <= k < toks.len() - 1 ==> toks[k].ttype != TokenType::EOF,
    decreases src.len() - i2, 1int,
{
    match spec_scan_from(src, i2, l2) {
        Ok(rest) => {
            lemma_scan_ends_with_eof(src, i2, l2, rest);
            assert(toks == seq![t] + rest);
            lemma_cons_last(t, rest);
            assert forall|k: int| 0 <= k < toks.len() - 1 implies toks[k].ttype
                != TokenType::EOF by {
                if k > 0 {
                    assert(toks[k] == rest[k - 1]);
                }
            }
        },
        Err(_) => {
            assert(false);
        },
    }
}

/// Every successful scan produces at least one token; the last one is
/// the end-of-input token, with an empty lexeme, and no end-of-input
/// token appears anywhere earlier.
pub proof fn lemma_scan_ends_with_eof(src: Seq<char>, i: int, line: int, toks: Seq<TokenModel>)
    requires
        0 <= i <= src.len(),
        spec_scan_from(src, i, line) == Ok::<Seq<TokenModel>, ErrorModel>(toks),
    ensures
        toks.len() >= 1,
        toks.last().ttype == TokenType::EOF,
        toks.last().lexeme == None::<Seq<char>>,
        forall|k: int| 0 <= k < toks.len() - 1 ==> toks[k].ttype != TokenType::EOF,
    decreases src.len() - i, 0int,
{
    if i == src.len() {
        assert(toks == seq![eof_model(line)]);
    } else {
        let c = src[i];
        if is_space_char(c) {
            lemma_scan_ends_with_eof(src, i + 1, next_line(line, c), toks);
        } else if c == '/' && i + 1 < src.len() && src[i + 1] == '/' {
            let j = find_from(src, i + 2, '\n');
            lemma_find_from(src, i + 2, '\n');
            if j == src.len() {
                lemma_scan_ends_with_eof(src, j, line, toks);
            } else {
                lemma_scan_ends_with_eof(src, j + 1, line + 1, toks);
            }
        } else if is_single_char(c) {
            lemma_scan_cons_ends_with_eof(
                src,
                i + 1,
                line,
                simple_model(single_char_type(c), line, seq![c]),
                toks,
            );
        } else if is_op_char(c) {
            if i + 1 < src.len() && src[i + 1] == '=' {
                lemma_scan_cons_ends_with_eof(
                    src,
                    i + 2,
                    line,
                    simple_model(op_eq_type(c), line, src.subrange(i, i + 2)),
                    toks,
                );
            } else {
                lemma_scan_cons_ends_with_eof(
                    src,
                    i + 1,
                    line,
                    simple_model(op_plain_type(c), line, seq![c]),
                    toks,
                );
            }
        } else if c == '"' {
            let j = find_from(src, i + 1, '"');
            lemma_find_from(src, i + 1, '"');
            let contents = src.subrange(i + 1, j);
            let line2 = line + newline_count(src, i + 1, j);
            lemma_scan_cons_ends_with_eof(
                src,
                j + 1,
                line2,
                TokenModel {
                    ttype: TokenType::STR,
                    line: line2,
                    lexeme: Some(contents),
                    literal: Some(LiteralModel::Str(contents)),
                },
                toks,
            );
        } else if is_digit_char(c) {
            let j = number_end(src, i + 1);
            lemma_number_end(src, i + 1);
            let text = src.subrange(i, j);
            lemma_scan_cons_ends_with_eof(
                src,
                j,
                line,
                TokenModel {
                    ttype: TokenType::NUMBER,
                    line,
                    lexeme: Some(text),
                    literal: Some(LiteralModel::Num(text)),
                },
                toks,
            );
        } else if alphabetic(c) || c == '_' {
            let j = ident_end(src, i + 1);
            lemma_ident_end(src, i + 1);
            let text = src.subrange(i, j);
            lemma_scan_cons_ends_with_eof(
                src,
                j,
                line,
                TokenModel { ttype: ident_type(text), line, lexeme: Some(text), literal: None },
                toks,
            );
        } else {
            assert(false);
        }
    }
}

/// Whether the text from position `i` on holds nothing but whitespace
/// and `//` line comments.
pub open spec fn blank_from(src: Seq<char>, i: int) -> bool
    decreases src.len() - i,
    when 0 <= i <= src.len()
{
    if i == src.len() {
        true
    } else if is_space_char(src[i]) {
        blank_from(src, i + 1)
    } else if src[i] == '/' && i + 1 < src.len() && src[i + 1] == '/' {
        let j = find_from(src, i + 2, '\n');
        proof {
            lemma_find_from(src, i + 2, '\n');
        }
        if j == src.len() {
            true
        } else {
            blank_from(src, j + 1)
        }
    } else {
        false
    }
}

/// Input holding nothing but whitespace and comments scans to a single
/// token: the end-of-input token.
pub proof fn lemma_blank_input_single_eof(src: Seq<char>, i: int, line: int)
    requires
        0 <= i <= src.len(),
        blank_from(src, i),
    ensures
        (spec_scan_from(src, i, line) matches Ok(toks) && toks.len() == 1 && toks[0].ttype
            == TokenType::EOF),
    decreases src.len() - i,
{
    if i == src.len() {
    } else if is_space_char(src[i]) {
        lemma_blank_input_single_eof(src, i + 1, next_line(line, src[i]));
    } else {
        let j = find_from(src, i + 2, '\n');
        lemma_find_from(src, i + 2, '\n');
        if j == src.len() {
            assert(spec_scan_from(src, j, line) == Ok::<Seq<TokenModel>, ErrorModel>(
                seq![eof_model(line)],
            ));
            assert(spec_scan_from(src, i, line) == spec_scan_from(src, j, line));
        } else {
            lemma_blank_input_single_eof(src, j + 1, line + 1);
            assert(spec_scan_from(src, i, line) == spec_scan_from(src, j + 1, line + 1));
        }
    }
}

/// In a successful scan the line counter advances exactly once per
/// newline consumed, wherever the newline stood — in plain code, inside
/// a comment, or inside a string literal: the end-of-input token's line
/// is the starting line plus the number of newlines in the input.
pub proof fn lemma_line_counter(src: Seq<char>, i: int, line: int, toks: Seq<TokenModel>)
    requires
        0 <= i <= src.len(),
        spec_scan_from(src, i, line) == Ok::<Seq<TokenModel>, ErrorModel>(toks),
    ensures
        toks.len() >= 1,
        toks.last().line == line + newline_count(src, i, src.len() as int),
    decreases src.len() - i,
{
    let n = src.len() as int;
    if i == n {
        assert(toks == seq![eof_model(line)]);
    } else {
        let c = src[i];
        if is_space_char(c) {
            lemma_newline_count_first(src, i, n);
            lemma_line_counter(src, i + 1, next_line(line, c), toks);
        } else if c == '/' && i + 1 < n && src[i + 1] == '/' {
            let j = find_from(src, i + 2, '\n');
            lemma_find_from(src, i + 2, '\n');
            if j == n {
                lemma_line_counter(src, j, line, toks);
                assert forall|k: int| i <= k < n implies src[k] != '\n' by {
                    if k >= i + 2 {
                        assert(src[k] != '\n');
                    }
                }
                lemma_newline_count_none(src, i, n);
            } else {
                lemma_line_counter(src, j + 1, line + 1, toks);
                lemma_newline_count_split(src, i, j, n);
                assert forall|k: int| i <= k < j implies src[k] != '\n' by {
                    if k >= i + 2 {
                        assert(src[k] != '\n');
                    }
                }
                lemma_newline_count_none(src, i, j);
                lemma_newline_count_first(src, j, n);
            }
        } else if is_single_char(c) {
            let head = simple_model(single_char_type(c), line, seq![c]);
            let rest = scan_tail(src, i + 1, line, head, toks);
            lemma_line_counter(src, i + 1, line, rest);
            lemma_newline_count_first(src, i, n);
            lemma_cons_last(head, rest);
        } else if is_op_char(c) {
            if i + 1 < n && src[i + 1] == '=' {
                let head = simple_model(op_eq_type(c), line, src.subrange(i, i + 2));
                let rest = scan_tail(src, i + 2, line, head, toks);
                lemma_line_counter(src, i + 2, line, rest);
                lemma_newline_count_first(src, i, n);
                lemma_newline_count_first(src, i + 1, n);
                lemma_cons_last(head, rest);
            } else {
                let head = simple_model(op_plain_type(c), line, seq![c]);
                let rest = scan_tail(src, i + 1, line, head, toks);
                lemma_line_counter(src, i + 1, line, rest);
                lemma_newline_count_first(src, i, n);
                lemma_cons_last(head, rest);
            }
        } else if c == '"' {
            let j = find_from(src, i + 1, '"');
            lemma_find_from(src, i + 1, '"');
            let contents = src.subrange(i + 1, j);
            let line2 = line + newline_count(src, i + 1, j);
            let head = TokenModel {
                ttype: TokenType::STR,
                line: line2,
                lexeme: Some(contents),
                literal: Some(LiteralModel::Str(contents)),
            };
            let rest = scan_tail(src, j + 1, line2, head, toks);
            lemma_line_counter(src, j + 1, line2, rest);
            lemma_newline_count_first(src, i, n);
            lemma_newline_count_split(src, i + 1, j, n);
            lemma_newline_count_first(src, j, n);
            lemma_cons_last(head, rest);
        } else if is_digit_char(c) {
            let j = number_end(src, i + 1);
            lemma_number_end(src, i + 1);
            let text = src.subrange(i, j);
            let head = TokenModel {
                ttype: TokenType::NUMBER,
                line,
                lexeme: Some(text),
                literal: Some(LiteralModel::Num(text)),
            };
            let rest = scan_tail(src, j, line, head, toks);
            lemma_line_counter(src, j, line, rest);
            lemma_newline_count_split(src, i, j, n);
            assert forall|k: int| i <= k < j implies src[k] != '\n' by {
                if k > i {
                    assert(is_number_char(src[k]));
                }
            }
            lemma_newline_count_none(src, i, j);
            lemma_cons_last(head, rest);
        } else if alphabetic(c) || c == '_' {
            let j = ident_end(src, i + 1);
            lemma_ident_end(src, i + 1);
            let text = src.subrange(i, j);
            let head = TokenModel { ttype: ident_type(text), line, lexeme: Some(text), literal: None };
            let rest = scan_tail(src, j, line, head, toks);
            lemma_line_counter(src, j, line, rest);
            lemma_newline_count_split(src, i, j, n);
            assert forall|k: int| i <= k < j implies src[k] != '\n' by {
                if k > i {
                    assert(is_ident_char(src[k]));
                }
            }
            lemma_newline_count_none(src, i, j);
            lemma_cons_last(head, rest);
        } else {
            assert(false);
        }
    }
}

/// The tail of a successful scan whose result puts the token `t` in
/// front of a tail scan: the tail's tokens.  Establishes that the tail
/// scan succeeded and is non-empty, and that `toks` is `t` followed by
/// the tail.
proof fn scan_tail(src: Seq<char>, i2: int, l2: int, t: TokenModel, toks: Seq<TokenModel>) -> (rest: Seq<
    TokenModel,
>)
    requires
        0 <= i2 <= src.len(),
        prepend_token(t, spec_scan_from(src, i2, l2)) == Ok::<Seq<TokenModel>, ErrorModel>(toks),
    ensures
        spec_scan_from(src, i2, l2) == Ok::<Seq<TokenModel>, ErrorModel>(rest),
        rest.len() >= 1,
        toks == seq![t] + rest,
{
    match spec_scan_from(src, i2, l2) {
        Ok(rest) => {
            lemma_scan_ends_with_eof(src, i2, l2, rest);
            rest
        },
        Err(_) => {
            assert(false);
            Seq::empty()
        },
    }
}


/// The first occurrence of `target` at or after `i` is at `m`, given
/// that nothing before `m` is `target` and `m` is `target` or the end.
proof fn lemma_find_from_at(src: Seq<char>, i: int, m: int, target: char)
    requires
        0 <= i <= m <= src.len(),
        forall|k: int| i <= k < m ==> src[k] != target,
        m == src.len() || src[m] == target,
    ensures
        find_from(src, i, target) == m,
    decreases m - i,
{
    if i < m {
        lemma_find_from_at(src, i + 1, m, target);
    }
}

/// A single-character punctuation input scans to exactly its token from
/// the table, followed by the end-of-input token.
pub proof fn lemma_single_punct_token(c: char, line: int)
    requires
        is_single_char(c),
    ensures
        spec_scan_from(seq![c], 0, line) == Ok::<Seq<TokenModel>, ErrorModel>(
            seq![simple_model(single_char_type(c), line, seq![c]), eof_model(line)],
        ),
{
    let src = seq![c];
    assert(spec_scan_from(src, 1, line) == Ok::<Seq<TokenModel>, ErrorModel>(
        seq![eof_model(line)],
    ));
    assert(seq![simple_model(single_char_type(c), line, seq![c])] + seq![eof_model(line)]
        =~= seq![simple_model(single_char_type(c), line, seq![c]), eof_model(line)]);
}

/// A lookahead operator scans to its plain variant when it stands alone
/// and to its `=`-suffixed variant when an `=` follows, followed by the
/// end-of-input token in either case.
pub proof fn lemma_operator_lookahead(c: char, line: int)
    requires
        is_op_char(c),
    ensures
        spec_scan_from(seq![c], 0, line) == Ok::<Seq<TokenModel>, ErrorModel>(
            seq![simple_model(op_plain_type(c), line, seq![c]), eof_model(line)],
        ),
        spec_scan_from(seq![c, '='], 0, line) == Ok::<Seq<TokenModel>, ErrorModel>(
            seq![simple_model(op_eq_type(c), line, seq![c, '=']), eof_model(line)],
        ),
{
    let one = seq![c];
    assert(spec_scan_from(one, 1, line) == Ok::<Seq<TokenModel>, ErrorModel>(
        seq![eof_model(line)],
    ));
    assert(seq![simple_model(op_plain_type(c), line, one)] + seq![eof_model(line)]
        =~= seq![simple_model(op_plain_type(c), line, one), eof_model(line)]);
    let two = seq![c, '='];
    assert(spec_scan_from(two, 2, line) == Ok::<Seq<TokenModel>, ErrorModel>(
        seq![eof_model(line)],
    ));
    assert(two.subrange(0, 2) =~= two);
    assert(seq![simple_model(op_eq_type(c), line, two)] + seq![eof_model(line)]
        =~= seq![simple_model(op_eq_type(c), line, two), eof_model(line)]);
}

/// A quoted string literal scans to exactly one string token whose
/// lexeme and value are the contents between the quotes, followed by the
/// end-of-input token.
pub proof fn lemma_string_literal_token(contents: Seq<char>, line: int)
    requires
        forall|k: int| 0 <= k < contents.len() ==> contents[k] != '"',
    ensures
        ({
            let src = seq!['"'] + contents + seq!['"'];
            let line2 = line + newline_count(src, 1, contents.len() as int + 1);
            spec_scan_from(src, 0, line) == Ok::<Seq<TokenModel>, ErrorModel>(
                seq![
                    TokenModel {
                        ttype: TokenType::STR,
                        line: line2,
                        lexeme: Some(contents),
                        literal: Some(LiteralModel::Str(contents)),
                    },
                    eof_model(line2),
                ],
            )
        }),
{
    let src = seq!['"'] + contents + seq!['"'];
    let n = contents.len() as int;
    assert(src.len() == n + 2);
    assert(src[0] == '"');
    assert(src[n + 1] == '"');
    assert forall|k: int| 1 <= k < n + 1 implies src[k] != '"' by {
        assert(src[k] == contents[k - 1]);
    }
    lemma_find_from_at(src, 1, n + 1, '"');
    assert(src.subrange(1, n + 1) =~= contents);
    let line2 = line + newline_count(src, 1, n + 1);
    assert(spec_scan_from(src, n + 2, line2) == Ok::<Seq<TokenModel>, ErrorModel>(
        seq![eof_model(line2)],
    ));
    let head = TokenModel {
        ttype: TokenType::STR,
        line: line2,
        lexeme: Some(contents),
        literal: Some(LiteralModel::Str(contents)),
    };
    assert(seq![head] + seq![eof_model(line2)] =~= seq![head, eof_model(line2)]);
}

/// A string literal whose opening quote is never matched fails as
/// unterminated, at the line the literal opened on.
pub proof fn lemma_unterminated_string_error(contents: Seq<char>, line: int)
    requires
        forall|k: int| 0 <= k < contents.len() ==> contents[k] != '"',
    ensures
        spec_scan_from(seq!['"'] + contents, 0, line) == Err::<Seq<TokenModel>, ErrorModel>(
            ErrorModel::UnterminatedString(line),
        ),
{
    let src = seq!['"'] + contents;
    let n = contents.len() as int;
    assert(src.len() == n + 1);
    assert(src[0] == '"');
    assert forall|k: int| 1 <= k < n + 1 implies src[k] != '"' by {
        assert(src[k] == contents[k - 1]);
    }
    lemma_find_from_at(src, 1, n + 1, '"');
}


/// Token lines never fall below the starting line and never decrease
/// across a successful scan's token sequence: every token's line is at
/// least `line`, and each token's line is at most the next one's.
pub proof fn lemma_lines_monotonic(src: Seq<char>, i: int, line: int, toks: Seq<TokenModel>)
    requires
        0 <= i <= src.len(),
        spec_scan_from(src, i, line) == Ok::<Seq<TokenModel>, ErrorModel>(toks),
    ensures
        forall|k: int| 0 <= k < toks.len() ==> line <= toks[k].line,
        forall|k: int| 0 <= k < toks.len() - 1 ==> #[trigger] toks[k].line <= toks[k + 1].line,
    decreases src.len() - i,
{
    let n = src.len() as int;
    if i == n {
        assert(toks == seq![eof_model(line)]);
    } else {
        let c = src[i];
        if is_space_char(c) {
            lemma_lines_monotonic(src, i + 1, next_line(line, c), toks);
        } else if c == '/' && i + 1 < n && src[i + 1] == '/' {
            let j = find_from(src, i + 2, '\n');
            lemma_find_from(src, i + 2, '\n');
            if j == n {
                lemma_lines_monotonic(src, j, line, toks);
            } else {
                lemma_lines_monotonic(src, j + 1, line + 1, toks);
            }
        } else {
            let (head, tail_i, tail_line) = scan_head(src, i, line);
            let rest = scan_tail(src, tail_i, tail_line, head, toks);
            lemma_lines_monotonic(src, tail_i, tail_line, rest);
            if c == '"' {
                lemma_newline_count_nonneg(src, i + 1, find_from(src, i + 1, '"'));
            }
            assert(line <= head.line && head.line == tail_line);
            assert(line <= rest[0].line);
            assert forall|k: int| 0 <= k < toks.len() implies line <= toks[k].line by {
                if k > 0 {
                    assert(toks[k] == rest[k - 1]);
                }
            }
            assert forall|k: int| 0 <= k < toks.len() - 1 implies #[trigger] toks[k].line <= toks[k
                + 1].line by {
                if k == 0 {
                    assert(toks[1] == rest[0]);
                } else {
                    assert(toks[k] == rest[k - 1]);
                    assert(toks[k + 1] == rest[k]);
                }
            }
        }
    }
}

/// The head token of a scan whose position holds the start of a token
/// (not whitespace, not a comment, not the end, not an erroneous
/// character), with the position and line its tail scan continues from.
/// The head's line equals the tail's starting line and is at least the
/// current one.
proof fn scan_head(src: Seq<char>, i: int, line: int) -> (r: (TokenModel, int, int))
    requires
        0 <= i < src.len(),
        !is_space_char(src[i]),
        !(src[i] == '/' && i + 1 < src.len() && src[i + 1] == '/'),
        spec_scan_from(src, i, line) is Ok,
    ensures
        prepend_token(r.0, spec_scan_from(src, r.1, r.2)) == spec_scan_from(src, i, line),
        i < r.1 <= src.len(),
        line <= r.2 && r.0.line == r.2,
    decreases src.len() - i,
{
    let c = src[i];
    if is_single_char(c) {
        (simple_model(single_char_type(c), line, seq![c]), i + 1, line)
    } else if is_op_char(c) {
        if i + 1 < src.len() && src[i + 1] == '=' {
            (simple_model(op_eq_type(c), line, src.subrange(i, i + 2)), i + 2, line)
        } else {
            (simple_model(op_plain_type(c), line, seq![c]), i + 1, line)
        }
    } else if c == '"' {
        let j = find_from(src, i + 1, '"');
        lemma_find_from(src, i + 1, '"');
        assert(j < src.len());
        let contents = src.subrange(i + 1, j);
        let line2 = line + newline_count(src, i + 1, j);
        lemma_newline_count_nonneg(src, i + 1, j);
        (
            TokenModel {
                ttype: TokenType::STR,
                line: line2,
                lexeme: Some(contents),
                literal: Some(LiteralModel::Str(contents)),
            },
            j + 1,
            line2,
        )
    } else if is_digit_char(c) {
        let j = number_end(src, i + 1);
        lemma_number_end(src, i + 1);
        let text = src.subrange(i, j);
        (
            TokenModel {
                ttype: TokenType::NUMBER,
                line,
                lexeme: Some(text),
                literal: Some(LiteralModel::Num(text)),
            },
            j,
            line,
        )
    } else if alphabetic(c) || c == '_' {
        let j = ident_end(src, i + 1);
        lemma_ident_end(src, i + 1);
        let text = src.subrange(i, j);
        (TokenModel { ttype: ident_type(text), line, lexeme: Some(text), literal: None }, j, line)
    } else {
        assert(false);
        (eof_model(line), i + 1, line)
    }
}

} // verus!

