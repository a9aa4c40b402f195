//! The scanner: walks a source text once, left to right, and produces the
//! ordered token sequence it contains, or fails at the first lexical error.
//!
//! The behaviour is pinned down by a mathematical model: [`spec_scan_from`]
//! describes, over a character sequence, exactly which tokens (or which
//! error) a scan starting at a given position and line produces.  The
//! executable scanner is proved to return precisely that.

use vstd::prelude::*;

use crate::token::{Literal, LiteralModel, Token, TokenModel, TokenType};

verus! {

// ---------------------------------------------------------------------------
// Character classification
// ---------------------------------------------------------------------------

/// The characters with the Unicode `White_Space` property, written out.
pub open spec fn is_space_char(c: char) -> bool {
    c == '\u{0009}' || c == '\u{000A}' || c == '\u{000B}' || c == '\u{000C}'
        || c == '\u{000D}' || c == '\u{0020}' || c == '\u{0085}' || c == '\u{00A0}'
        || c == '\u{1680}' || c == '\u{2000}' || c == '\u{2001}' || c == '\u{2002}'
        || c == '\u{2003}' || c == '\u{2004}' || c == '\u{2005}' || c == '\u{2006}'
        || c == '\u{2007}' || c == '\u{2008}' || c == '\u{2009}' || c == '\u{200A}'
        || c == '\u{2028}' || c == '\u{2029}' || c == '\u{202F}' || c == '\u{205F}'
        || c == '\u{3000}'
}

/// The decimal digits `0` through `9`.
pub open spec fn is_digit_char(c: char) -> bool {
    48 <= c as u32 && c as u32 <= 57
}

/// Whether the character has the Unicode `Alphabetic` property.  The
/// property is decided by the trusted classifier [`is_alphabetic`]; its
/// extension is not written out here.
pub uninterp spec fn alphabetic(c: char) -> bool;

/// A character that may continue a number literal: a digit or a dot.
pub open spec fn is_number_char(c: char) -> bool {
    is_digit_char(c) || c == '.'
}

/// A character that may continue an identifier: a letter, an underscore,
/// or a digit.  Whitespace is excluded outright, so an identifier run
/// can never swallow a line break; no real character has both the
/// `Alphabetic` and the `White_Space` property, so the class is the run
/// of letters, digits and underscores.
pub open spec fn is_ident_char(c: char) -> bool {
    (alphabetic(c) && !is_space_char(c)) || c == '_' || is_digit_char(c)
}

/// Decides the Unicode `White_Space` property by the set written out in
/// [`is_space_char`].
fn is_space(c: char) -> (r: bool)
    ensures
        r == is_space_char(c),
{
    c == '\u{0009}' || c == '\u{000A}' || c == '\u{000B}' || c == '\u{000C}'
        || c == '\u{000D}' || c == '\u{0020}' || c == '\u{0085}' || c == '\u{00A0}'
        || c == '\u{1680}' || c == '\u{2000}' || c == '\u{2001}' || c == '\u{2002}'
        || c == '\u{2003}' || c == '\u{2004}' || c == '\u{2005}' || c == '\u{2006}'
        || c == '\u{2007}' || c == '\u{2008}' || c == '\u{2009}' || c == '\u{200A}'
        || c == '\u{2028}' || c == '\u{2029}' || c == '\u{202F}' || c == '\u{205F}'
        || c == '\u{3000}'
}

/// Relies on `char::is_alphabetic`: whether the character has the Unicode
/// `Alphabetic` property; the result depends on the character alone.
#[verifier::external_body]
fn is_alphabetic(c: char) -> (r: bool)
    ensures
        r == alphabetic(c),
{
    c.is_alphabetic()
}

fn is_digit(c: char) -> (r: bool)
    ensures
        r == is_digit_char(c),
{
    let u = c as u32;
    48 <= u && u <= 57
}

fn is_number(c: char) -> (r: bool)
    ensures
        r == is_number_char(c),
{
    is_digit(c) || c == '.'
}

// ---------------------------------------------------------------------------
// String conversions
// ---------------------------------------------------------------------------

/// Relies on `str::chars`: yields exactly the characters of the string,
/// in order.
#[verifier::external_body]
fn chars_vec(s: &str) -> (v: Vec<char>)
    ensures
        v@ == s@,
{
    s.chars().collect()
}

/// Relies on `String`'s `FromIterator` over `char`: collecting yields the
/// string of exactly the given characters, in order.
#[verifier::external_body]
fn string_of(v: &Vec<char>) -> (s: String)
    ensures
        s@ == v@,
{
    v.iter().collect()
}

// ---------------------------------------------------------------------------
// Errors
// ---------------------------------------------------------------------------

/// A fatal lexical error, carrying the 1-based source line it was found on.
#[derive(Clone, Copy, Debug, PartialEq, Eq, Structural)]
pub enum ScannerError {
    /// A character that starts no lexical category.
    UnknownCharacter(char, usize),
    /// A string literal whose opening quote has no matching closing quote
    /// before the input ends; the line is the one the literal opened on.
    UnterminatedString(usize),
}

/// Model of a [`ScannerError`], with the line as a mathematical integer.
pub ghost enum ErrorModel {
    UnknownCharacter(char, int),
    UnterminatedString(int),
}

impl View for ScannerError {
    type V = ErrorModel;

    open spec fn view(&self) -> ErrorModel {
        match self {
            ScannerError::UnknownCharacter(c, line) => ErrorModel::UnknownCharacter(*c, *line as int),
            ScannerError::UnterminatedString(line) => ErrorModel::UnterminatedString(*line as int),
        }
    }
}

/// The source line an error was found on.
pub open spec fn error_line(e: ErrorModel) -> int {
    match e {
        ErrorModel::UnknownCharacter(_, line) => line,
        ErrorModel::UnterminatedString(line) => line,
    }
}

impl ScannerError {
    /// The 1-based source line the error was found on.
    pub fn line(&self) -> (l: usize)
        ensures
            l as int == error_line(self@),
    {
        match *self {
            ScannerError::UnknownCharacter(_, line) => line,
            ScannerError::UnterminatedString(line) => line,
        }
    }
}

pub type ScannerResult<T> = Result<T, ScannerError>;

// ---------------------------------------------------------------------------
// The scanning model: positions of run ends
// ---------------------------------------------------------------------------

/// The position of the first occurrence of `target` at or after `i`, or
/// the length of `src` if there is none.
pub open spec fn find_from(src: Seq<char>, i: int, target: char) -> int
    decreases src.len() - i,
    when 0 <= i <= src.len()
{
    if i == src.len() {
        i
    } else if src[i] == target {
        i
    } else {
        find_from(src, i + 1, target)
    }
}

pub proof fn lemma_find_from(src: Seq<char>, i: int, target: char)
    requires
        0 <= i <= src.len(),
    ensures
        i <= find_from(src, i, target) <= src.len(),
        find_from(src, i, target) < src.len() ==> src[find_from(src, i, target)] == target,
        forall|k: int| i <= k < find_from(src, i, target) ==> src[k] != target,
    decreases src.len() - i,
{
    if i < src.len() && src[i] != target {
        lemma_find_from(src, i + 1, target);
    }
}

/// The end of the run of number characters (digits and dots) starting
/// at `i`: the first position at or after `i` holding neither.
pub open spec fn number_end(src: Seq<char>, i: int) -> int
    decreases src.len() - i,
    when 0 <= i <= src.len()
{
    if i == src.len() {
        i
    } else if is_number_char(src[i]) {
        number_end(src, i + 1)
    } else {
        i
    }
}

pub proof fn lemma_number_end(src: Seq<char>, i: int)
    requires
        0 <= i <= src.len(),
    ensures
        i <= number_end(src, i) <= src.len(),
        number_end(src, i) < src.len() ==> !is_number_char(src[number_end(src, i)]),
        forall|k: int| i <= k < number_end(src, i) ==> is_number_char(src[k]),
    decreases src.len() - i,
{
    if i < src.len() && is_number_char(src[i]) {
        lemma_number_end(src, i + 1);
    }
}

/// The end of the run of identifier characters starting at `i`: the first
/// position at or after `i` holding none.
pub open spec fn ident_end(src: Seq<char>, i: int) -> int
    decreases src.len() - i,
    when 0 <= i <= src.len()
{
    if i == src.len() {
        i
    } else if is_ident_char(src[i]) {
        ident_end(src, i + 1)
    } else {
        i
    }
}

pub proof fn lemma_ident_end(src: Seq<char>, i: int)
    requires
        0 <= i <= src.len(),
    ensures
        i <= ident_end(src, i) <= src.len(),
        ident_end(src, i) < src.len() ==> !is_ident_char(src[ident_end(src, i)]),
        forall|k: int| i <= k < ident_end(src, i) ==> is_ident_char(src[k]),
    decreases src.len() - i,
{
    if i < src.len() && is_ident_char(src[i]) {
        lemma_ident_end(src, i + 1);
    }
}

// ---------------------------------------------------------------------------
// The scanning model: line counting
// ---------------------------------------------------------------------------

/// The number of newline characters in `src[i .. j)`.
pub open spec fn newline_count(src: Seq<char>, i: int, j: int) -> int
    decreases j - i,
{
    if i >= j {
        0
    } else {
        newline_count(src, i, j - 1) + if src[j - 1] == '\n' {
            1int
        } else {
            0int
        }
    }
}

pub proof fn lemma_newline_count_nonneg(src: Seq<char>, i: int, j: int)
    ensures
        0 <= newline_count(src, i, j),
    decreases j - i,
{
    if i < j {
        lemma_newline_count_nonneg(src, i, j - 1);
    }
}

pub proof fn lemma_newline_count_split(src: Seq<char>, i: int, m: int, j: int)
    requires
        i <= m <= j,
    ensures
        newline_count(src, i, j) == newline_count(src, i, m) + newline_count(src, m, j),
    decreases j - m,
{
    if m < j {
        lemma_newline_count_split(src, i, m, j - 1);
    }
}

pub proof fn lemma_newline_count_first(src: Seq<char>, i: int, j: int)
    requires
        i < j,
    ensures
        newline_count(src, i, j) == newline_count(src, i + 1, j) + if src[i] == '\n' {
            1int
        } else {
            0int
        },
    decreases j - i,
{
    if i + 1 < j {
        lemma_newline_count_first(src, i, j - 1);
    } else {
        assert(newline_count(src, i, i) == 0);
        assert(newline_count(src, i + 1, j) == 0);
    }
}

pub proof fn lemma_newline_count_none(src: Seq<char>, i: int, j: int)
    requires
        forall|k: int| i <= k < j ==> src[k] != '\n',
    ensures
        newline_count(src, i, j) == 0,
    decreases j - i,
{
    if i < j {
        lemma_newline_count_none(src, i, j - 1);
    }
}

// ---------------------------------------------------------------------------
// The scanning model: token construction
// ---------------------------------------------------------------------------

/// A token that carries no decoded value.
pub open spec fn simple_model(ttype: TokenType, line: int, lexeme: Seq<char>) -> TokenModel {
    TokenModel { ttype, line, lexeme: Some(lexeme), literal: None }
}

/// The end-of-input token: empty lexeme, no value.
pub open spec fn eof_model(line: int) -> TokenModel {
    TokenModel { ttype: TokenType::EOF, line, lexeme: None, literal: None }
}

/// Whether `c` is one of the single-character punctuation marks.
pub open spec fn is_single_char(c: char) -> bool {
    c == ',' || c == '.' || c == '*' || c == '-' || c == '+' || c == '/' || c == ';'
        || c == '(' || c == ')' || c == '{' || c == '}'
}

/// The category of a single-character punctuation mark.  Applied only to
/// characters satisfying [`is_single_char`]; the final arm is never taken.
pub open spec fn single_char_type(c: char) -> TokenType {
    if c == ',' {
        TokenType::COMMA
    } else if c == '.' {
        TokenType::DOT
    } else if c == '*' {
        TokenType::STAR
    } else if c == '-' {
        TokenType::MINUS
    } else if c == '+' {
        TokenType::PLUS
    } else if c == '/' {
        TokenType::SLASH
    } else if c == ';' {
        TokenType::SEMICOLON
    } else if c == '(' {
        TokenType::LPAREN
    } else if c == ')' {
        TokenType::RPAREN
    } else if c == '{' {
        TokenType::LBRACE
    } else {
        TokenType::RBRACE
    }
}

/// Whether `c` is an operator with an optional trailing `=` variant.
pub open spec fn is_op_char(c: char) -> bool {
    c == '=' || c == '!' || c == '<' || c == '>'
}

/// The category of a lookahead operator when no `=` follows.
pub open spec fn op_plain_type(c: char) -> TokenType {
    if c == '=' {
        TokenType::EQUALS
    } else if c == '!' {
        TokenType::EXCLAM
    } else if c == '<' {
        TokenType::LESS
    } else {
        TokenType::GREATER
    }
}

/// The category of a lookahead operator when an `=` follows.
pub open spec fn op_eq_type(c: char) -> TokenType {
    if c == '=' {
        TokenType::EQUALS_EQUALS
    } else if c == '!' {
        TokenType::EXCLAM_EQUALS
    } else if c == '<' {
        TokenType::LESS_EQUALS
    } else {
        TokenType::GREATER_EQUALS
    }
}

/// The reserved word spelled by `s`, if any.
pub open spec fn keyword_type(s: Seq<char>) -> Option<TokenType> {
    if s == seq!['a', 'n', 'd'] {
        Some(TokenType::AND)
    } else if s == seq!['o', 'r'] {
        Some(TokenType::OR)
    } else if s == seq!['i', 'f'] {
        Some(TokenType::IF)
    } else if s == seq!['e', 'l', 's', 'e'] {
        Some(TokenType::ELSE)
    } else if s == seq!['v', 'a', 'r'] {
        Some(TokenType::VAR)
    } else if s == seq!['f', 'o', 'r'] {
        Some(TokenType::FOR)
    } else if s == seq!['w', 'h', 'i', 'l', 'e'] {
        Some(TokenType::WHILE)
    } else if s == seq!['f', 'u', 'n'] {
        Some(TokenType::FUN)
    } else if s == seq!['c', 'l', 'a', 's', 's'] {
        Some(TokenType::CLASS)
    } else if s == seq!['s', 'u', 'p', 'e', 'r'] {
        Some(TokenType::SUPER)
    } else if s == seq!['t', 'h', 'i', 's'] {
        Some(TokenType::THIS)
    } else if s == seq!['r', 'e', 't', 'u', 'r', 'n'] {
        Some(TokenType::RETURN)
    } else if s == seq!['t', 'r', 'u', 'e'] {
        Some(TokenType::TRUE)
    } else if s == seq!['f', 'a', 'l', 's', 'e'] {
        Some(TokenType::FALSE)
    } else if s == seq!['n', 'i', 'l'] {
        Some(TokenType::NIL)
    } else {
        None
    }
}

/// The category of an identifier-shaped run: the matching reserved word's
/// category, or the generic identifier category.
pub open spec fn ident_type(s: Seq<char>) -> TokenType {
    match keyword_type(s) {
        Some(t) => t,
        None => TokenType::IDENT,
    }
}

/// The line after consuming `c`: one more on a newline.
pub open spec fn next_line(line: int, c: char) -> int {
    if c == '\n' {
        line + 1
    } else {
        line
    }
}

/// Puts `t` in front of the tokens of a successful tail scan; an error
/// passes through.
pub open spec fn prepend_token(
    t: TokenModel,
    r: Result<Seq<TokenModel>, ErrorModel>,
) -> Result<Seq<TokenModel>, ErrorModel> {
    match r {
        Ok(rest) => Ok(seq![t] + rest),
        Err(e) => Err(e),
    }
}

// ---------------------------------------------------------------------------
// The scanning model
// ---------------------------------------------------------------------------

/// What a scan of `src` produces from position `i` on line `line`: the
/// remaining token sequence, terminated by the end-of-input token, or the
/// first lexical error.
///
/// The model walks the text exactly as the scanner does: it skips
/// whitespace (counting newlines), skips `//` line comments through the
/// terminating newline or the end of the input, and otherwise classifies
/// one token by its lead character — single-character punctuation; the
/// four operators with a one-character lookahead for a trailing `=`; a
/// string literal running to the next `"` (its lexeme and value are the
/// contents between the quotes, and it fails as unterminated, at the line
/// it opened on, if no closing quote exists); a number literal taking the
/// maximal run of digits and dots; an identifier run resolved against the
/// reserved words.  Any other character is an unknown-character error.
pub open spec fn spec_scan_from(src: Seq<char>, i: int, line: int) -> Result<
    Seq<TokenModel>,
    ErrorModel,
>
    decreases src.len() - i,
    when 0 <= i <= src.len()
{
    if i == src.len() {
        Ok(seq![eof_model(line)])
    } else {
        let c = src[i];
        if is_space_char(c) {
            spec_scan_from(src, i + 1, next_line(line, c))
        } else if c == '/' && i + 1 < src.len() && src[i + 1] == '/' {
            let j = find_from(src, i + 2, '\n');
            proof {
                lemma_find_from(src, i + 2, '\n');
            }
            if j == src.len() {
                spec_scan_from(src, j, line)
            } else {
                spec_scan_from(src, j + 1, line + 1)
            }
        } else if is_single_char(c) {
            prepend_token(
                simple_model(single_char_type(c), line, seq![c]),
                spec_scan_from(src, i + 1, line),
            )
        } else if is_op_char(c) {
            if i + 1 < src.len() && src[i + 1] == '=' {
                prepend_token(
                    simple_model(op_eq_type(c), line, src.subrange(i, i + 2)),
                    spec_scan_from(src, i + 2, line),
                )
            } else {
                prepend_token(
                    simple_model(op_plain_type(c), line, seq![c]),
                    spec_scan_from(src, i + 1, line),
                )
            }
        } else if c == '"' {
            let j = find_from(src, i + 1, '"');
            proof {
                lemma_find_from(src, i + 1, '"');
            }
            if j == src.len() {
                Err(ErrorModel::UnterminatedString(line))
            } else {
                let contents = src.subrange(i + 1, j);
                let line2 = line + newline_count(src, i + 1, j);
                prepend_token(
                    TokenModel {
                        ttype: TokenType::STR,
                        line: line2,
                        lexeme: Some(contents),
                        literal: Some(LiteralModel::Str(contents)),
                    },
                    spec_scan_from(src, j + 1, line2),
                )
            }
        } else if is_digit_char(c) {
            let j = number_end(src, i + 1);
            proof {
                lemma_number_end(src, i + 1);
            }
            let text = src.subrange(i, j);
            prepend_token(
                TokenModel {
                    ttype: TokenType::NUMBER,
                    line,
                    lexeme: Some(text),
                    literal: Some(LiteralModel::Num(text)),
                },
                spec_scan_from(src, j, line),
            )
        } else if alphabetic(c) || c == '_' {
            let j = ident_end(src, i + 1);
            proof {
                lemma_ident_end(src, i + 1);
            }
            let text = src.subrange(i, j);
            prepend_token(
                TokenModel { ttype: ident_type(text), line, lexeme: Some(text), literal: None },
                spec_scan_from(src, j, line),
            )
        } else {
            Err(ErrorModel::UnknownCharacter(c, line))
        }
    }
}

/// The models of a sequence of tokens.
pub open spec fn token_models(ts: Seq<Token>) -> Seq<TokenModel> {
    ts.map_values(|t: Token| t@)
}

/// Puts already-emitted tokens in front of the result of a tail scan.
pub open spec fn prepend_tokens(
    ts: Seq<TokenModel>,
    r: Result<Seq<TokenModel>, ErrorModel>,
) -> Result<Seq<TokenModel>, ErrorModel> {
    match r {
        Ok(rest) => Ok(ts + rest),
        Err(e) => Err(e),
    }
}

// ---------------------------------------------------------------------------
// The scanner
// ---------------------------------------------------------------------------

/// Walks one source text once and produces its tokens.  Holds the text as
/// a random-access character buffer with a read position and the current
/// 1-based line.
pub struct Scanner {
    source: Vec<char>,
    line: usize,
    pos: usize,
}

impl Scanner {
    /// The character sequence being scanned.
    pub closed spec fn src(&self) -> Seq<char> {
        self.source@
    }

    /// The current read position.
    pub closed spec fn cursor(&self) -> int {
        self.pos as int
    }

    /// The current 1-based line.
    pub closed spec fn line_number(&self) -> int {
        self.line as int
    }

    /// The scanner's invariant: the position is within the text, the line
    /// is 1-based, and the line counter cannot overflow even if every
    /// remaining character is a newline.
    pub closed spec fn wf(&self) -> bool {
        &&& self.pos as int <= self.src().len()
        &&& 1 <= self.line as int
        &&& self.line as int + self.src().len() - self.pos as int <= usize::MAX as int
    }

    /// A scanner over `source`, at the start of line 1.
    pub fn new(source: &str) -> (s: Scanner)
        requires
            source@.len() < usize::MAX,
        ensures
            s.wf(),
            s.src() == source@,
            s.cursor() == 0,
            s.line_number() == 1,
    {
        let source = chars_vec(source);
        Scanner { source, line: 1, pos: 0 }
    }

    /// A token of the given category on the current line, with no source
    /// text and no value: the shape of the end-of-input token.
    fn simple_token(&self, ttype: TokenType) -> (t: Token)
        ensures
            t@ == (TokenModel {
                ttype,
                line: self.line_number(),
                lexeme: None::<Seq<char>>,
                literal: None::<LiteralModel>,
            }),
    {
        Token::new(ttype, self.line, None, None)
    }

    /// A token of the given category on the current line whose lexeme is
    /// the single character `c`.
    fn char_token(&self, ttype: TokenType, c: char) -> (t: Token)
        ensures
            t@ == simple_model(ttype, self.line_number(), seq![c]),
    {
        let mut buf: Vec<char> = Vec::new();
        buf.push(c);
        let s = string_of(&buf);
        proof {
            assert(s@ =~= seq![c]);
        }
        Token::new(ttype, self.line, Some(s), None)
    }

    /// Scans an operator with an optional trailing `=`: `c` is the already
    /// consumed lead character; the next character is consumed exactly
    /// when it is `=`, selecting the two-character category.
    fn scan_operator(&mut self, c: char, ttype: TokenType, equality_ttype: TokenType) -> (t: Token)
        requires
            old(self).wf(),
            1 <= old(self).cursor(),
            old(self).src()[old(self).cursor() - 1] == c,
        ensures
            final(self).wf(),
            final(self).src() == old(self).src(),
            final(self).line_number() == old(self).line_number(),
            ({
                let i = old(self).cursor();
                let src = old(self).src();
                if i < src.len() && src[i] == '=' {
                    final(self).cursor() == i + 1 && t@ == simple_model(
                        equality_ttype,
                        old(self).line_number(),
                        src.subrange(i - 1, i + 1),
                    )
                } else {
                    final(self).cursor() == i && t@ == simple_model(
                        ttype,
                        old(self).line_number(),
                        seq![c],
                    )
                }
            }),
    {
        if self.pos < self.source.len() && self.source[self.pos] == '=' {
            self.pos = self.pos + 1;
            let mut buf: Vec<char> = Vec::new();
            buf.push(c);
            buf.push('=');
            let s = string_of(&buf);
            proof {
                assert(s@ =~= seq![c, '=']);
                assert(old(self).src().subrange(old(self).cursor() - 1, old(self).cursor() + 1)
                    =~= seq![c, '=']);
            }
            Token::new(equality_ttype, self.line, Some(s), None)
        } else {
            self.char_token(ttype, c)
        }
    }

    /// Consumes exactly the maximal whitespace run from the cursor on:
    /// every consumed character is whitespace, the character stopped at
    /// (if any) is not, and the line counter advances by exactly the
    /// newlines consumed.  What a scan from here produces is unchanged.
    fn skip_whitespace(&mut self)
        requires
            old(self).wf(),
        ensures
            final(self).wf(),
            final(self).src() == old(self).src(),
            old(self).cursor() <= final(self).cursor(),
            spec_scan_from(final(self).src(), final(self).cursor(), final(self).line_number())
                == spec_scan_from(old(self).src(), old(self).cursor(), old(self).line_number()),
            final(self).cursor() == final(self).src().len() || !is_space_char(
                final(self).src()[final(self).cursor()],
            ),
            forall|k: int|
                old(self).cursor() <= k < final(self).cursor() ==> is_space_char(
                    old(self).src()[k],
                ),
            final(self).line_number() == old(self).line_number() + newline_count(
                old(self).src(),
                old(self).cursor(),
                final(self).cursor(),
            ),
    {
        while self.pos < self.source.len() && is_space(self.source[self.pos])
            invariant
                self.wf(),
                self.src() == old(self).src(),
                old(self).cursor() <= self.cursor(),
                spec_scan_from(self.src(), self.cursor(), self.line_number()) == spec_scan_from(
                    old(self).src(),
                    old(self).cursor(),
                    old(self).line_number(),
                ),
                forall|k: int|
                    old(self).cursor() <= k < self.cursor() ==> is_space_char(self.src()[k]),
                self.line_number() == old(self).line_number() + newline_count(
                    self.src(),
                    old(self).cursor(),
                    self.cursor(),
                ),
            decreases self.src().len() - self.cursor(),
        {
            let c = self.source[self.pos];
            if c == '\n' {
                self.line = self.line + 1;
            }
            self.pos = self.pos + 1;
        }
    }

    /// Consumes a `//` line comment: through its terminating newline,
    /// counting one line, or to the end of the input when no newline
    /// follows, with the line unchanged.  What a scan from here produces
    /// is unchanged.
    fn skip_comments(&mut self)
        requires
            old(self).wf(),
            old(self).cursor() + 1 < old(self).src().len(),
            old(self).src()[old(self).cursor()] == '/',
            old(self).src()[old(self).cursor() + 1] == '/',
        ensures
            final(self).wf(),
            final(self).src() == old(self).src(),
            old(self).cursor() < final(self).cursor(),
            spec_scan_from(final(self).src(), final(self).cursor(), final(self).line_number())
                == spec_scan_from(old(self).src(), old(self).cursor(), old(self).line_number()),
            ({
                let src = old(self).src();
                let j = find_from(src, old(self).cursor() + 2, '\n');
                if j == src.len() {
                    final(self).cursor() == src.len()
                        && final(self).line_number() == old(self).line_number()
                } else {
                    final(self).cursor() == j + 1
                        && final(self).line_number() == old(self).line_number() + 1
                }
            }),
    {
        let ghost i = self.cursor();
        let n = self.source.len();
        assert(self.pos + 2 <= n);
        self.pos = self.pos + 2;
        while self.pos < self.source.len() && self.source[self.pos] != '\n'
            invariant
                self.wf(),
                self.src() == old(self).src(),
                i + 2 <= self.cursor() <= self.src().len(),
                self.line_number() == old(self).line_number(),
                find_from(self.src(), i + 2, '\n') == find_from(self.src(), self.cursor(), '\n'),
            decreases self.src().len() - self.cursor(),
        {
            self.pos = self.pos + 1;
        }
        assert(find_from(self.src(), i + 2, '\n') == self.cursor());
        if self.pos == self.source.len() {
        } else {
            self.line = self.line + 1;
            self.pos = self.pos + 1;
        }
    }

    /// Consumes whitespace and line comments until the next character
    /// starts a token, or the input ends.  What a scan from here produces
    /// is unchanged.
    fn skip_blanks(&mut self)
        requires
            old(self).wf(),
        ensures
            final(self).wf(),
            final(self).src() == old(self).src(),
            old(self).cursor() <= final(self).cursor(),
            spec_scan_from(final(self).src(), final(self).cursor(), final(self).line_number())
                == spec_scan_from(old(self).src(), old(self).cursor(), old(self).line_number()),
            ({
                let src = old(self).src();
                let p = final(self).cursor();
                p == src.len() || (!is_space_char(src[p]) && !(src[p] == '/' && p + 1 < src.len()
                    && src[p + 1] == '/'))
            }),
    {
        self.skip_whitespace();
        while self.pos < self.source.len() && self.pos + 1 < self.source.len()
            && self.source[self.pos] == '/' && self.source[self.pos + 1] == '/'
            invariant
                self.wf(),
                self.src() == old(self).src(),
                old(self).cursor() <= self.cursor(),
                spec_scan_from(self.src(), self.cursor(), self.line_number()) == spec_scan_from(
                    old(self).src(),
                    old(self).cursor(),
                    old(self).line_number(),
                ),
                self.cursor() == self.src().len() || !is_space_char(self.src()[self.cursor()]),
            decreases self.src().len() - self.cursor(),
        {
            self.skip_comments();
            self.skip_whitespace();
        }
    }

    /// Scans a string literal; the opening `"` has been consumed.  The
    /// token's lexeme and value are the contents between the quotes, and
    /// its line is the one the scan of the literal completed on.  Fails
    /// as unterminated, at the line the literal opened on, when no
    /// closing quote exists.
    fn parse_string(&mut self) -> (r: ScannerResult<Token>)
        requires
            old(self).wf(),
            1 <= old(self).cursor(),
            old(self).src()[old(self).cursor() - 1] == '"',
        ensures
            final(self).wf(),
            final(self).src() == old(self).src(),
            old(self).cursor() <= final(self).cursor(),
            ({
                let src = old(self).src();
                let i = old(self).cursor();
                let j = find_from(src, i, '"');
                match r {
                    Ok(t) => j < src.len() && final(self).cursor() == j + 1
                        && final(self).line_number() == old(self).line_number() + newline_count(
                        src,
                        i,
                        j,
                    ) && t@ == (TokenModel {
                        ttype: TokenType::STR,
                        line: final(self).line_number(),
                        lexeme: Some(src.subrange(i, j)),
                        literal: Some(LiteralModel::Str(src.subrange(i, j))),
                    }),
                    Err(e) => j == src.len() && e@ == ErrorModel::UnterminatedString(
                        old(self).line_number(),
                    ),
                }
            }),
    {
        let ghost i = self.cursor();
        let ghost l0 = self.line_number();
        let start_line = self.line;
        let mut buf: Vec<char> = Vec::new();
        while self.pos < self.source.len() && self.source[self.pos] != '"'
            invariant
                self.wf(),
                self.src() == old(self).src(),
                i == old(self).cursor(),
                l0 == old(self).line_number(),
                1 <= i <= self.cursor() <= self.src().len(),
                buf@ == self.src().subrange(i, self.cursor()),
                find_from(self.src(), i, '"') == find_from(self.src(), self.cursor(), '"'),
                self.line_number() == l0 + newline_count(self.src(), i, self.cursor()),
            decreases self.src().len() - self.cursor(),
        {
            let c = self.source[self.pos];
            if c == '\n' {
                self.line = self.line + 1;
            }
            buf.push(c);
            self.pos = self.pos + 1;
            proof {
                assert(buf@ =~= self.src().subrange(i, self.cursor()));
            }
        }
        assert(find_from(self.src(), i, '"') == self.cursor());
        if self.pos == self.source.len() {
            Err(ScannerError::UnterminatedString(start_line))
        } else {
            self.pos = self.pos + 1;
            let lex = string_of(&buf);
            let lit = lex.clone();
            Ok(Token::new(TokenType::STR, self.line, Some(lex), Some(Literal::Str(lit))))
        }
    }

    /// Scans a number literal; its first digit `c` has been consumed.
    /// The token takes the maximal following run of digits and dots, and
    /// records that text verbatim as both lexeme and value.
    fn parse_number(&mut self, c: char) -> (t: Token)
        requires
            old(self).wf(),
            1 <= old(self).cursor(),
            old(self).src()[old(self).cursor() - 1] == c,
        ensures
            final(self).wf(),
            final(self).src() == old(self).src(),
            final(self).line_number() == old(self).line_number(),
            old(self).cursor() <= final(self).cursor(),
            ({
                let src = old(self).src();
                let i = old(self).cursor() - 1;
                let j = number_end(src, i + 1);
                final(self).cursor() == j && t@ == (TokenModel {
                    ttype: TokenType::NUMBER,
                    line: old(self).line_number(),
                    lexeme: Some(src.subrange(i, j)),
                    literal: Some(LiteralModel::Num(src.subrange(i, j))),
                })
            }),
    {
        let ghost i = self.cursor() - 1;
        let mut buf: Vec<char> = Vec::new();
        buf.push(c);
        proof {
            assert(buf@ =~= self.src().subrange(i, self.cursor()));
        }
        while self.pos < self.source.len() && is_number(self.source[self.pos])
            invariant
                self.wf(),
                self.src() == old(self).src(),
                i == old(self).cursor() - 1,
                0 <= i,
                i + 1 <= self.cursor() <= self.src().len(),
                self.line_number() == old(self).line_number(),
                buf@ == self.src().subrange(i, self.cursor()),
                number_end(self.src(), i + 1) == number_end(self.src(), self.cursor()),
            decreases self.src().len() - self.cursor(),
        {
            buf.push(self.source[self.pos]);
            self.pos = self.pos + 1;
            proof {
                assert(buf@ =~= self.src().subrange(i, self.cursor()));
            }
        }
        assert(number_end(self.src(), i + 1) == self.cursor());
        let lex = string_of(&buf);
        let lit = lex.clone();
        Token::new(TokenType::NUMBER, self.line, Some(lex), Some(Literal::Num(lit)))
    }

    /// Scans an identifier; its first character `c` (a letter or `_`) has
    /// been consumed.  The token takes the maximal following run of
    /// letters, digits and `_`, and is categorised as the reserved word
    /// it spells, if any, else as a generic identifier.
    fn parse_identifier(&mut self, c: char) -> (t: Token)
        requires
            old(self).wf(),
            1 <= old(self).cursor(),
            old(self).src()[old(self).cursor() - 1] == c,
        ensures
            final(self).wf(),
            final(self).src() == old(self).src(),
            final(self).line_number() == old(self).line_number(),
            old(self).cursor() <= final(self).cursor(),
            ({
                let src = old(self).src();
                let i = old(self).cursor() - 1;
                let j = ident_end(src, i + 1);
                final(self).cursor() == j && t@ == (TokenModel {
                    ttype: ident_type(src.subrange(i, j)),
                    line: old(self).line_number(),
                    lexeme: Some(src.subrange(i, j)),
                    literal: None::<LiteralModel>,
                })
            }),
    {
        let ghost i = self.cursor() - 1;
        let mut buf: Vec<char> = Vec::new();
        buf.push(c);
        proof {
            assert(buf@ =~= self.src().subrange(i, self.cursor()));
        }
        while self.pos < self.source.len() && is_ident(self.source[self.pos])
            invariant
                self.wf(),
                self.src() == old(self).src(),
                i == old(self).cursor() - 1,
                0 <= i,
                i + 1 <= self.cursor() <= self.src().len(),
                self.line_number() == old(self).line_number(),
                buf@ == self.src().subrange(i, self.cursor()),
                ident_end(self.src(), i + 1) == ident_end(self.src(), self.cursor()),
            decreases self.src().len() - self.cursor(),
        {
            buf.push(self.source[self.pos]);
            self.pos = self.pos + 1;
            proof {
                assert(buf@ =~= self.src().subrange(i, self.cursor()));
            }
        }
        assert(ident_end(self.src(), i + 1) == self.cursor());
        let ttype = keyword_ttype(&buf);
        let lex = string_of(&buf);
        Token::new(ttype, self.line, Some(lex), None)
    }

    /// Classifies and scans exactly one token, decided by the lead
    /// character `c`, which has been consumed.  `c` is not whitespace and
    /// does not open a line comment.  Punctuation and operators give
    /// their table entry; `"` gives the string literal, or the
    /// unterminated-string error when no closing quote exists; a digit
    /// gives the number literal; a letter or `_` gives the identifier or
    /// reserved word; any other character gives the unknown-character
    /// error, carrying that character and the current line.
    fn scan_token(&mut self, c: char) -> (r: ScannerResult<Token>)
        requires
            old(self).wf(),
            1 <= old(self).cursor(),
            old(self).src()[old(self).cursor() - 1] == c,
            !is_space_char(c),
            !(c == '/' && old(self).cursor() < old(self).src().len()
                && old(self).src()[old(self).cursor()] == '/'),
        ensures
            final(self).wf(),
            final(self).src() == old(self).src(),
            old(self).cursor() <= final(self).cursor(),
            ({
                let src = old(self).src();
                let i = old(self).cursor() - 1;
                let l = old(self).line_number();
                match r {
                    Ok(t) => spec_scan_from(src, i, l) == prepend_token(
                        t@,
                        spec_scan_from(src, final(self).cursor(), final(self).line_number()),
                    ),
                    Err(e) => spec_scan_from(src, i, l) == Err::<Seq<TokenModel>, ErrorModel>(e@),
                }
            }),
            ({
                let src = old(self).src();
                let i = old(self).cursor() - 1;
                let l = old(self).line_number();
                if is_single_char(c) {
                    r matches Ok(t) && final(self).cursor() == i + 1 && final(self).line_number()
                        == l && t@ == simple_model(single_char_type(c), l, seq![c])
                } else if is_op_char(c) {
                    if i + 1 < src.len() && src[i + 1] == '=' {
                        r matches Ok(t) && final(self).cursor() == i + 2
                            && final(self).line_number() == l && t@ == simple_model(
                            op_eq_type(c),
                            l,
                            src.subrange(i, i + 2),
                        )
                    } else {
                        r matches Ok(t) && final(self).cursor() == i + 1
                            && final(self).line_number() == l && t@ == simple_model(
                            op_plain_type(c),
                            l,
                            seq![c],
                        )
                    }
                } else if c == '"' {
                    let j = find_from(src, i + 1, '"');
                    if j == src.len() {
                        r matches Err(e) && e@ == ErrorModel::UnterminatedString(l)
                    } else {
                        r matches Ok(t) && final(self).cursor() == j + 1
                            && final(self).line_number() == l + newline_count(src, i + 1, j) && t@
                            == (TokenModel {
                            ttype: TokenType::STR,
                            line: l + newline_count(src, i + 1, j),
                            lexeme: Some(src.subrange(i + 1, j)),
                            literal: Some(LiteralModel::Str(src.subrange(i + 1, j))),
                        })
                    }
                } else if is_digit_char(c) {
                    let j = number_end(src, i + 1);
                    r matches Ok(t) && final(self).cursor() == j && final(self).line_number() == l
                        && t@ == (TokenModel {
                        ttype: TokenType::NUMBER,
                        line: l,
                        lexeme: Some(src.subrange(i, j)),
                        literal: Some(LiteralModel::Num(src.subrange(i, j))),
                    })
                } else if alphabetic(c) || c == '_' {
                    let j = ident_end(src, i + 1);
                    r matches Ok(t) && final(self).cursor() == j && final(self).line_number() == l
                        && t@ == (TokenModel {
                        ttype: ident_type(src.subrange(i, j)),
                        line: l,
                        lexeme: Some(src.subrange(i, j)),
                        literal: None,
                    })
                } else {
                    r matches Err(e) && e@ == ErrorModel::UnknownCharacter(c, l)
                        && final(self).cursor() == i + 1 && final(self).line_number() == l
                }
            }),
    {
        match c {
            ',' => Ok(self.char_token(TokenType::COMMA, c)),
            '.' => Ok(self.char_token(TokenType::DOT, c)),
            '*' => Ok(self.char_token(TokenType::STAR, c)),
            '-' => Ok(self.char_token(TokenType::MINUS, c)),
            '+' => Ok(self.char_token(TokenType::PLUS, c)),
            ';' => Ok(self.char_token(TokenType::SEMICOLON, c)),
            '(' => Ok(self.char_token(TokenType::LPAREN, c)),
            ')' => Ok(self.char_token(TokenType::RPAREN, c)),
            '{' => Ok(self.char_token(TokenType::LBRACE, c)),
            '}' => Ok(self.char_token(TokenType::RBRACE, c)),
            '/' => Ok(self.char_token(TokenType::SLASH, c)),
            '=' => Ok(self.scan_operator(c, TokenType::EQUALS, TokenType::EQUALS_EQUALS)),
            '!' => Ok(self.scan_operator(c, TokenType::EXCLAM, TokenType::EXCLAM_EQUALS)),
            '<' => Ok(self.scan_operator(c, TokenType::LESS, TokenType::LESS_EQUALS)),
            '>' => Ok(self.scan_operator(c, TokenType::GREATER, TokenType::GREATER_EQUALS)),
            '"' => self.parse_string(),
            _ => {
                if is_digit(c) {
                    Ok(self.parse_number(c))
                } else if is_alphabetic(c) || c == '_' {
                    Ok(self.parse_identifier(c))
                } else {
                    Err(ScannerError::UnknownCharacter(c, self.line))
                }
            },
        }
    }

    /// Scans the whole remaining input: the ordered sequence of its
    /// tokens, terminated by exactly one end-of-input token, or the first
    /// lexical error.  The result is exactly what the scanning model
    /// [`spec_scan_from`] assigns to the text from the current position.
    pub fn scan_tokens(&mut self) -> (r: ScannerResult<Vec<Token>>)
        requires
            old(self).wf(),
        ensures
            ({
                let src = old(self).src();
                let i0 = old(self).cursor();
                let l0 = old(self).line_number();
                match r {
                    Ok(tokens) => spec_scan_from(src, i0, l0) == Ok::<
                        Seq<TokenModel>,
                        ErrorModel,
                    >(token_models(tokens@)),
                    Err(e) => spec_scan_from(src, i0, l0) == Err::<Seq<TokenModel>, ErrorModel>(
                        e@,
                    ),
                }
            }),
    {
        let ghost src = old(self).src();
        let ghost i0 = old(self).cursor();
        let ghost l0 = old(self).line_number();
        let mut tokens: Vec<Token> = Vec::new();
        self.skip_blanks();
        while self.pos < self.source.len()
            invariant
                self.wf(),
                self.src() == src,
                src == old(self).src(),
                i0 == old(self).cursor(),
                l0 == old(self).line_number(),
                0 <= i0 <= src.len(),
                prepend_tokens(
                    token_models(tokens@),
                    spec_scan_from(src, self.cursor(), self.line_number()),
                ) == spec_scan_from(src, i0, l0),
                self.cursor() == src.len() || (!is_space_char(src[self.cursor()]) && !(src[self.cursor()]
                    == '/' && self.cursor() + 1 < src.len() && src[self.cursor() + 1] == '/')),
            decreases src.len() - self.cursor(),
        {
            let c = self.source[self.pos];
            self.pos = self.pos + 1;
            let ghost pre_tokens = tokens@;
            match self.scan_token(c) {
                Ok(t) => {
                    proof {
                        assert(token_models(pre_tokens.push(t)) =~= token_models(
                            pre_tokens,
                        ).push(t@));
                        if let Ok(rest) = spec_scan_from(src, self.cursor(), self.line_number()) {
                            assert(token_models(pre_tokens).push(t@) + rest =~= token_models(
                                pre_tokens,
                            ) + (seq![t@] + rest));
                        }
                    }
                    tokens.push(t);
                },
                Err(e) => {
                    return Err(e);
                },
            }
            self.skip_blanks();
        }
        assert(spec_scan_from(src, self.cursor(), self.line_number()) == Ok::<
            Seq<TokenModel>,
            ErrorModel,
        >(seq![eof_model(self.line_number())]));
        let ghost pre_tokens = tokens@;
        let eof_token = self.simple_token(TokenType::EOF);
        tokens.push(eof_token);
        proof {
            assert(token_models(pre_tokens.push(eof_token)) =~= token_models(pre_tokens).push(
                eof_token@,
            ));
            assert(token_models(pre_tokens).push(eof_token@) =~= token_models(pre_tokens) + seq![
                eof_model(self.line_number()),
            ]);
        }
        Ok(tokens)
    }
}

/// A character that may continue an identifier.
fn is_ident(c: char) -> (r: bool)
    ensures
        r == is_ident_char(c),
{
    (is_alphabetic(c) && !is_space(c)) || c == '_' || is_digit(c)
}

/// The category of an identifier-shaped run of characters: the matching
/// reserved word's category, or the generic identifier category.
fn keyword_ttype(v: &Vec<char>) -> (t: TokenType)
    ensures
        t == ident_type(v@),
{
    if v.len() == 3 && v[0] == 'a' && v[1] == 'n' && v[2] == 'd' {
        proof {
            assert(v@ =~= seq!['a', 'n', 'd']);
        }
        TokenType::AND
    } else if v.len() == 2 && v[0] == 'o' && v[1] == 'r' {
        proof {
            assert(v@ =~= seq!['o', 'r']);
        }
        TokenType::OR
    } else if v.len() == 2 && v[0] == 'i' && v[1] == 'f' {
        proof {
            assert(v@ =~= seq!['i', 'f']);
        }
        TokenType::IF
    } else if v.len() == 4 && v[0] == 'e' && v[1] == 'l' && v[2] == 's' && v[3] == 'e' {
        proof {
            assert(v@ =~= seq!['e', 'l', 's', 'e']);
        }
        TokenType::ELSE
    } else if v.len() == 3 && v[0] == 'v' && v[1] == 'a' && v[2] == 'r' {
        proof {
            assert(v@ =~= seq!['v', 'a', 'r']);
        }
        TokenType::VAR
    } else if v.len() == 3 && v[0] == 'f' && v[1] == 'o' && v[2] == 'r' {
        proof {
            assert(v@ =~= seq!['f', 'o', 'r']);
        }
        TokenType::FOR
    } else if v.len() == 5 && v[0] == 'w' && v[1] == 'h' && v[2] == 'i' && v[3] == 'l' && v[4]
        == 'e' {
        proof {
            assert(v@ =~= seq!['w', 'h', 'i', 'l', 'e']);
        }
        TokenType::WHILE
    } else if v.len() == 3 && v[0] == 'f' && v[1] == 'u' && v[2] == 'n' {
        proof {
            assert(v@ =~= seq!['f', 'u', 'n']);
        }
        TokenType::FUN
    } else if v.len() == 5 && v[0] == 'c' && v[1] == 'l' && v[2] == 'a' && v[3] == 's' && v[4]
        == 's' {
        proof {
            assert(v@ =~= seq!['c', 'l', 'a', 's', 's']);
        }
        TokenType::CLASS
    } else if v.len() == 5 && v[0] == 's' && v[1] == 'u' && v[2] == 'p' && v[3] == 'e' && v[4]
        == 'r' {
        proof {
            assert(v@ =~= seq!['s', 'u', 'p', 'e', 'r']);
        }
        TokenType::SUPER
    } else if v.len() == 4 && v[0] == 't' && v[1] == 'h' && v[2] == 'i' && v[3] == 's' {
        proof {
            assert(v@ =~= seq!['t', 'h', 'i', 's']);
        }
        TokenType::THIS
    } else if v.len() == 6 && v[0] == 'r' && v[1] == 'e' && v[2] == 't' && v[3] == 'u' && v[4]
        == 'r' && v[5] == 'n' {
        proof {
            assert(v@ =~= seq!['r', 'e', 't', 'u', 'r', 'n']);
        }
        TokenType::RETURN
    } else if v.len() == 4 && v[0] == 't' && v[1] == 'r' && v[2] == 'u' && v[3] == 'e' {
        proof {
            assert(v@ =~= seq!['t', 'r', 'u', 'e']);
        }
        TokenType::TRUE
    } else if v.len() == 5 && v[0] == 'f' && v[1] == 'a' && v[2] == 'l' && v[3] == 's' && v[4]
        == 'e' {
        proof {
            assert(v@ =~= seq!['f', 'a', 'l', 's', 'e']);
        }
        TokenType::FALSE
    } else if v.len() == 3 && v[0] == 'n' && v[1] == 'i' && v[2] == 'l' {
        proof {
            assert(v@ =~= seq!['n', 'i', 'l']);
        }
        TokenType::NIL
    } else {
        TokenType::IDENT
    }
}


} // verus!
