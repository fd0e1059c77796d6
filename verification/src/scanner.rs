//! The scanner: a restartable, forward-only token sequence over source text.

use vstd::prelude::*;

use crate::token::{LineNo, Token, TokenView};
use crate::token_type::TokenType;

verus! {

/// Whether `char::is_alphabetic` holds of the character; the result depends
/// on the character alone.
pub uninterp spec fn alphabetic(c: char) -> bool;

/// Whether `char::is_alphanumeric` holds of the character; the result
/// depends on the character alone.
pub uninterp spec fn alphanumeric(c: char) -> bool;

/// Relies on char::is_alphabetic: a Unicode property of the character alone.
#[verifier::external_body]
fn is_alphabetic_char(c: char) -> (r: bool)
    ensures
        r == alphabetic(c),
{
    c.is_alphabetic()
}

/// Relies on char::is_alphanumeric: a Unicode property of the character
/// alone.
#[verifier::external_body]
fn is_alphanumeric_char(c: char) -> (r: bool)
    ensures
        r == alphanumeric(c),
{
    c.is_alphanumeric()
}

pub open spec fn spec_is_digit(c: char) -> bool {
    '0' <= c && c <= '9'
}

/// A character that may start an identifier or keyword.
pub open spec fn spec_is_lead_identifier(c: char) -> bool {
    alphabetic(c) || c == '_'
}

/// The first position at or after `from` that does not continue a digit run.
pub open spec fn spec_digit_run_end(src: Seq<char>, from: int) -> int
    decreases src.len() - from,
{
    if from < src.len() && spec_is_digit(src[from]) {
        spec_digit_run_end(src, from + 1)
    } else {
        from
    }
}

/// The first position at or after `from` that does not continue an
/// alphanumeric run.
pub open spec fn spec_alnum_run_end(src: Seq<char>, from: int) -> int
    decreases src.len() - from,
{
    if from < src.len() && alphanumeric(src[from]) {
        spec_alnum_run_end(src, from + 1)
    } else {
        from
    }
}

/// The first position at or after `from` holding `target`, or the end of the
/// source.
pub open spec fn spec_find_char(src: Seq<char>, from: int, target: char) -> int
    decreases src.len() - from,
{
    if from < src.len() {
        if src[from] == target {
            from
        } else {
            spec_find_char(src, from + 1, target)
        }
    } else {
        src.len() as int
    }
}

pub proof fn lemma_digit_run_end_bounds(src: Seq<char>, from: int)
    requires
        0 <= from <= src.len(),
    ensures
        from <= spec_digit_run_end(src, from) <= src.len(),
    decreases src.len() - from,
{
    if from < src.len() && spec_is_digit(src[from]) {
        lemma_digit_run_end_bounds(src, from + 1);
    }
}

pub proof fn lemma_alnum_run_end_bounds(src: Seq<char>, from: int)
    requires
        0 <= from <= src.len(),
    ensures
        from <= spec_alnum_run_end(src, from) <= src.len(),
    decreases src.len() - from,
{
    if from < src.len() && alphanumeric(src[from]) {
        lemma_alnum_run_end_bounds(src, from + 1);
    }
}

pub proof fn lemma_find_char_bounds(src: Seq<char>, from: int, target: char)
    requires
        0 <= from <= src.len(),
    ensures
        from <= spec_find_char(src, from, target) <= src.len(),
    decreases src.len() - from,
{
    if from < src.len() && src[from] != target {
        lemma_find_char_bounds(src, from + 1, target);
    }
}

/// The number of newline characters in `src[from..to]`.
pub open spec fn spec_newlines_between(src: Seq<char>, from: int, to: int) -> int
    decreases to - from,
{
    if from < to {
        (if src[from] == '\n' {
            1int
        } else {
            0int
        }) + spec_newlines_between(src, from + 1, to)
    } else {
        0
    }
}

pub proof fn lemma_newlines_nonneg(src: Seq<char>, from: int, to: int)
    ensures
        spec_newlines_between(src, from, to) >= 0,
    decreases to - from,
{
    if from < to {
        lemma_newlines_nonneg(src, from + 1, to);
    }
}

pub proof fn lemma_newlines_split(src: Seq<char>, a: int, b: int, c: int)
    requires
        a <= b <= c,
    ensures
        spec_newlines_between(src, a, c) == spec_newlines_between(src, a, b)
            + spec_newlines_between(src, b, c),
    decreases b - a,
{
    if a < b {
        lemma_newlines_split(src, a + 1, b, c);
    }
}

fn run_digits(s: &str, from: usize) -> (r: usize)
    requires
        from <= s@.len(),
    ensures
        r == spec_digit_run_end(s@, from as int),
{
    let n = s.unicode_len();
    let mut i = from;
    loop
        invariant
            from <= i <= n == s@.len(),
            spec_digit_run_end(s@, from as int) == spec_digit_run_end(s@, i as int),
        decreases n - i,
    {
        if i >= n {
            return i;
        }
        let c = s.get_char(i);
        if !('0' <= c && c <= '9') {
            return i;
        }
        i = i + 1;
    }
}

fn run_alnum(s: &str, from: usize) -> (r: usize)
    requires
        from <= s@.len(),
    ensures
        r == spec_alnum_run_end(s@, from as int),
{
    let n = s.unicode_len();
    let mut i = from;
    loop
        invariant
            from <= i <= n == s@.len(),
            spec_alnum_run_end(s@, from as int) == spec_alnum_run_end(s@, i as int),
        decreases n - i,
    {
        if i >= n {
            return i;
        }
        if !is_alphanumeric_char(s.get_char(i)) {
            return i;
        }
        i = i + 1;
    }
}

fn find_char_from(s: &str, from: usize, target: char) -> (r: usize)
    requires
        from <= s@.len(),
    ensures
        r == spec_find_char(s@, from as int, target),
{
    let n = s.unicode_len();
    let mut i = from;
    loop
        invariant
            from <= i <= n == s@.len(),
            spec_find_char(s@, from as int, target) == spec_find_char(s@, i as int, target),
        decreases n - i,
    {
        if i >= n {
            return n;
        }
        if s.get_char(i) == target {
            return i;
        }
        i = i + 1;
    }
}

/// Whether two pieces of text hold the same characters.
fn lexeme_is(s: &str, w: &str) -> (r: bool)
    ensures
        r == (s@ == w@),
{
    let ns = s.unicode_len();
    let nw = w.unicode_len();
    if ns != nw {
        proof {
            assert(s@ != w@) by {
                if s@ == w@ {
                    assert(s@.len() == w@.len());
                }
            }
        }
        return false;
    }
    let mut i: usize = 0;
    loop
        invariant
            i <= ns == s@.len(),
            nw == w@.len(),
            ns == nw,
            forall|k: int| 0 <= k < i ==> s@[k] == w@[k],
        decreases ns - i,
    {
        if i >= ns {
            proof {
                assert(s@ =~= w@);
            }
            return true;
        }
        if s.get_char(i) != w.get_char(i) {
            proof {
                assert(s@ != w@) by {
                    if s@ == w@ {
                        assert(s@[i as int] == w@[i as int]);
                    }
                }
            }
            return false;
        }
        i = i + 1;
    }
}

/// `tt` when the lexeme is exactly the keyword, `Identifier` otherwise.
pub open spec fn spec_keyword_or_identifier(
    content: Seq<char>,
    word: Seq<char>,
    tt: TokenType,
) -> TokenType {
    if content == word {
        tt
    } else {
        TokenType::Identifier
    }
}

fn keyword_or_identifier(content: &str, word: &str, tt: TokenType) -> (r: TokenType)
    ensures
        r == spec_keyword_or_identifier(content@, word@, tt),
{
    if lexeme_is(content, word) {
        tt
    } else {
        TokenType::Identifier
    }
}

/// The kind of an identifier-shaped lexeme: the matching keyword's kind, or
/// `Identifier`. Dispatches on the leading characters, then confirms full
/// equality against the candidate keyword.
pub open spec fn spec_keyword(content: Seq<char>) -> TokenType {
    if content.len() == 0 {
        TokenType::Identifier
    } else {
        let c = content[0];
        if c == 'a' {
            spec_keyword_or_identifier(content, "and"@, TokenType::And)
        } else if c == 'c' {
            spec_keyword_or_identifier(content, "class"@, TokenType::Class)
        } else if c == 'e' {
            spec_keyword_or_identifier(content, "else"@, TokenType::Else)
        } else if c == 'i' {
            spec_keyword_or_identifier(content, "if"@, TokenType::If)
        } else if c == 'n' {
            spec_keyword_or_identifier(content, "nil"@, TokenType::Nil)
        } else if c == 'o' {
            spec_keyword_or_identifier(content, "or"@, TokenType::Or)
        } else if c == 'p' {
            spec_keyword_or_identifier(content, "print"@, TokenType::Print)
        } else if c == 'r' {
            spec_keyword_or_identifier(content, "return"@, TokenType::Return)
        } else if c == 's' {
            spec_keyword_or_identifier(content, "super"@, TokenType::Super)
        } else if c == 'v' {
            spec_keyword_or_identifier(content, "var"@, TokenType::Var)
        } else if c == 'w' {
            spec_keyword_or_identifier(content, "while"@, TokenType::While)
        } else if c == 'f' {
            if content.len() >= 2 {
                let c2 = content[1];
                if c2 == 'a' {
                    spec_keyword_or_identifier(content, "false"@, TokenType::False)
                } else if c2 == 'o' {
                    spec_keyword_or_identifier(content, "for"@, TokenType::For)
                } else if c2 == 'u' {
                    spec_keyword_or_identifier(content, "fun"@, TokenType::Fun)
                } else {
                    TokenType::Identifier
                }
            } else {
                TokenType::Identifier
            }
        } else if c == 't' {
            if content.len() >= 2 {
                let c2 = content[1];
                if c2 == 'h' {
                    spec_keyword_or_identifier(content, "this"@, TokenType::This)
                } else if c2 == 'r' {
                    spec_keyword_or_identifier(content, "true"@, TokenType::True)
                } else {
                    TokenType::Identifier
                }
            } else {
                TokenType::Identifier
            }
        } else {
            TokenType::Identifier
        }
    }
}

pub open spec fn spec_token(line: int, content: Seq<char>, token_type: TokenType) -> TokenView {
    TokenView { line: line as LineNo, content, token_type }
}

/// The next token from position `pos` at line `line`, with the position and
/// line the scanner is left at. Whitespace, newlines, comments and
/// unrecognized characters are skipped; at the end of the input the
/// end-of-input token is produced.
pub open spec fn spec_scan_token(src: Seq<char>, pos: int, line: int) -> (TokenView, int, int)
    recommends
        0 <= pos <= src.len(),
    decreases src.len() - pos,
    via spec_scan_token_decreases
{
    if pos < 0 || pos >= src.len() {
        (spec_token(line, Seq::empty(), TokenType::EndOfFile), pos, line)
    } else {
        let c = src[pos];
        if spec_is_digit(c) {
            let i = spec_digit_run_end(src, pos + 1);
            if i < src.len() && src[i] == '.' && spec_digit_run_end(src, i + 1) > i + 1 {
                let j = spec_digit_run_end(src, i + 1);
                (spec_token(line, src.subrange(pos, j), TokenType::Number), j, line)
            } else {
                // A dot not followed by a digit is no part of the number and
                // stays unconsumed, to be lexed on its own.
                (spec_token(line, src.subrange(pos, i), TokenType::Number), i, line)
            }
        } else if c == '(' {
            (spec_token(line, src.subrange(pos, pos + 1), TokenType::LeftParen), pos + 1, line)
        } else if c == ')' {
            (spec_token(line, src.subrange(pos, pos + 1), TokenType::RightParen), pos + 1, line)
        } else if c == '{' {
            (spec_token(line, src.subrange(pos, pos + 1), TokenType::LeftBrace), pos + 1, line)
        } else if c == '}' {
            (spec_token(line, src.subrange(pos, pos + 1), TokenType::RightBrace), pos + 1, line)
        } else if c == ';' {
            (spec_token(line, src.subrange(pos, pos + 1), TokenType::Semicolon), pos + 1, line)
        } else if c == ',' {
            (spec_token(line, src.subrange(pos, pos + 1), TokenType::Comma), pos + 1, line)
        } else if c == '.' {
            (spec_token(line, src.subrange(pos, pos + 1), TokenType::Dot), pos + 1, line)
        } else if c == '-' {
            (spec_token(line, src.subrange(pos, pos + 1), TokenType::Minus), pos + 1, line)
        } else if c == '+' {
            (spec_token(line, src.subrange(pos, pos + 1), TokenType::Plus), pos + 1, line)
        } else if c == '*' {
            (spec_token(line, src.subrange(pos, pos + 1), TokenType::Star), pos + 1, line)
        } else if c == '/' {
            if pos + 1 < src.len() && src[pos + 1] == '/' {
                spec_scan_token(src, spec_find_char(src, pos + 2, '\n'), line)
            } else {
                (spec_token(line, src.subrange(pos, pos + 1), TokenType::Slash), pos + 1, line)
            }
        } else if c == '"' {
            let k = spec_find_char(src, pos + 1, '"');
            let l2 = line + spec_newlines_between(src, pos + 1, k);
            if k < src.len() {
                (spec_token(l2, src.subrange(pos + 1, k), TokenType::StringLiteral), k + 1, l2)
            } else {
                (spec_token(l2, src.subrange(pos + 1, k), TokenType::StringLiteral), k, l2)
            }
        } else if c == '!' {
            if pos + 1 < src.len() && src[pos + 1] == '=' {
                (spec_token(line, src.subrange(pos, pos + 2), TokenType::BangEqual), pos + 2, line)
            } else {
                (spec_token(line, src.subrange(pos, pos + 1), TokenType::Bang), pos + 1, line)
            }
        } else if c == '=' {
            if pos + 1 < src.len() && src[pos + 1] == '=' {
                (spec_token(line, src.subrange(pos, pos + 2), TokenType::EqualEqual), pos + 2, line)
            } else {
                (spec_token(line, src.subrange(pos, pos + 1), TokenType::Equal), pos + 1, line)
            }
        } else if c == '<' {
            if pos + 1 < src.len() && src[pos + 1] == '=' {
                (spec_token(line, src.subrange(pos, pos + 2), TokenType::LessEqual), pos + 2, line)
            } else {
                (spec_token(line, src.subrange(pos, pos + 1), TokenType::Less), pos + 1, line)
            }
        } else if c == '>' {
            if pos + 1 < src.len() && src[pos + 1] == '=' {
                (
                    spec_token(line, src.subrange(pos, pos + 2), TokenType::GreaterEqual),
                    pos + 2,
                    line,
                )
            } else {
                (spec_token(line, src.subrange(pos, pos + 1), TokenType::Greater), pos + 1, line)
            }
        } else if c == ' ' || c == '\t' || c == '\r' {
            spec_scan_token(src, pos + 1, line)
        } else if c == '\n' {
            spec_scan_token(src, pos + 1, line + 1)
        } else if spec_is_lead_identifier(c) {
            let i = spec_alnum_run_end(src, pos + 1);
            let content = src.subrange(pos, i);
            (spec_token(line, content, spec_keyword(content)), i, line)
        } else {
            spec_scan_token(src, pos + 1, line)
        }
    }
}

#[via_fn]
proof fn spec_scan_token_decreases(src: Seq<char>, pos: int, line: int) {
    if 0 <= pos < src.len() {
        let c = src[pos];
        if !spec_is_digit(c) && c == '/' && pos + 1 < src.len() && src[pos + 1] == '/' {
            lemma_find_char_bounds(src, pos + 2, '\n');
        }
    }
}

/// What one scan step does to the state: it never moves backwards, stays
/// inside the source, produces the end-of-input token exactly when it
/// reaches the end, and spends the line counter one per newline consumed.
pub proof fn lemma_scan_token_advances(src: Seq<char>, pos: int, line: int)
    requires
        0 <= pos <= src.len(),
    ensures
        ({
            let (t, p, l) = spec_scan_token(src, pos, line);
            &&& pos <= p <= src.len()
            &&& (t.token_type == TokenType::EndOfFile ==> p == src.len())
            &&& (t.token_type != TokenType::EndOfFile ==> p > pos)
            &&& l + spec_newlines_between(src, p, src.len() as int) <= line + spec_newlines_between(
                src,
                pos,
                src.len() as int,
            )
            &&& l >= line
        }),
    decreases src.len() - pos,
{
    let n = src.len() as int;
    lemma_newlines_nonneg(src, pos, n);
    if pos < src.len() {
        let c = src[pos];
        if spec_is_digit(c) {
            lemma_digit_run_end_bounds(src, pos + 1);
            let i = spec_digit_run_end(src, pos + 1);
            if i < src.len() && src[i] == '.' && spec_digit_run_end(src, i + 1) > i + 1 {
                lemma_digit_run_end_bounds(src, i + 1);
                let j = spec_digit_run_end(src, i + 1);
                lemma_newlines_split(src, pos, j, n);
                lemma_newlines_nonneg(src, pos, j);
            } else {
                lemma_newlines_split(src, pos, i, n);
                lemma_newlines_nonneg(src, pos, i);
            }
        } else if c == '/' && pos + 1 < src.len() && src[pos + 1] == '/' {
            lemma_find_char_bounds(src, pos + 2, '\n');
            let k = spec_find_char(src, pos + 2, '\n');
            lemma_newlines_split(src, pos, k, n);
            lemma_newlines_nonneg(src, pos, k);
            lemma_scan_token_advances(src, k, line);
        } else if c == '"' {
            lemma_find_char_bounds(src, pos + 1, '"');
            let k = spec_find_char(src, pos + 1, '"');
            let p = if k < src.len() {
                k + 1
            } else {
                k
            };
            lemma_newlines_split(src, pos + 1, k, n);
            lemma_newlines_split(src, k, p, n);
            lemma_newlines_nonneg(src, k, p);
            lemma_newlines_nonneg(src, pos + 1, k);
        } else if c == ' ' || c == '\t' || c == '\r' {
            lemma_scan_token_advances(src, pos + 1, line);
        } else if c == '\n' {
            lemma_scan_token_advances(src, pos + 1, line + 1);
        } else if !(c == '(' || c == ')' || c == '{' || c == '}' || c == ';' || c == ',' || c == '.'
            || c == '-' || c == '+' || c == '*' || c == '/' || c == '!' || c == '=' || c == '<' || c
            == '>') && !spec_is_lead_identifier(c) {
            lemma_scan_token_advances(src, pos + 1, line);
        } else {
            if spec_is_lead_identifier(c) && !(c == '(' || c == ')' || c == '{' || c == '}' || c
                == ';' || c == ',' || c == '.' || c == '-' || c == '+' || c == '*' || c == '/' || c
                == '!' || c == '=' || c == '<' || c == '>') {
                lemma_alnum_run_end_bounds(src, pos + 1);
            }
            let (t, p, l) = spec_scan_token(src, pos, line);
            lemma_newlines_split(src, pos, p, n);
            lemma_newlines_nonneg(src, pos, p);
        }
    }
}

fn keyword_type(content: &str) -> (r: TokenType)
    requires
        content@.len() >= 1,
    ensures
        r == spec_keyword(content@),
{
    let n = content.unicode_len();
    let c = content.get_char(0);
    if c == 'a' {
        keyword_or_identifier(content, "and", TokenType::And)
    } else if c == 'c' {
        keyword_or_identifier(content, "class", TokenType::Class)
    } else if c == 'e' {
        keyword_or_identifier(content, "else", TokenType::Else)
    } else if c == 'i' {
        keyword_or_identifier(content, "if", TokenType::If)
    } else if c == 'n' {
        keyword_or_identifier(content, "nil", TokenType::Nil)
    } else if c == 'o' {
        keyword_or_identifier(content, "or", TokenType::Or)
    } else if c == 'p' {
        keyword_or_identifier(content, "print", TokenType::Print)
    } else if c == 'r' {
        keyword_or_identifier(content, "return", TokenType::Return)
    } else if c == 's' {
        keyword_or_identifier(content, "super", TokenType::Super)
    } else if c == 'v' {
        keyword_or_identifier(content, "var", TokenType::Var)
    } else if c == 'w' {
        keyword_or_identifier(content, "while", TokenType::While)
    } else if c == 'f' {
        if n >= 2 {
            let c2 = content.get_char(1);
            if c2 == 'a' {
                keyword_or_identifier(content, "false", TokenType::False)
            } else if c2 == 'o' {
                keyword_or_identifier(content, "for", TokenType::For)
            } else if c2 == 'u' {
                keyword_or_identifier(content, "fun", TokenType::Fun)
            } else {
                TokenType::Identifier
            }
        } else {
            TokenType::Identifier
        }
    } else if c == 't' {
        if n >= 2 {
            let c2 = content.get_char(1);
            if c2 == 'h' {
                keyword_or_identifier(content, "this", TokenType::This)
            } else if c2 == 'r' {
                keyword_or_identifier(content, "true", TokenType::True)
            } else {
                TokenType::Identifier
            }
        } else {
            TokenType::Identifier
        }
    } else {
        TokenType::Identifier
    }
}

proof fn lemma_newlines_mono(src: Seq<char>, a: int, b: int)
    requires
        0 <= a <= b <= src.len(),
    ensures
        spec_newlines_between(src, b, src.len() as int) <= spec_newlines_between(
            src,
            a,
            src.len() as int,
        ),
{
    lemma_newlines_split(src, a, b, src.len() as int);
    lemma_newlines_nonneg(src, a, b);
}

/// The scanner's mathematical state: the source characters, the position of
/// the next character, the current line, and whether the end-of-input token
/// has been produced.
pub ghost struct ScannerView {
    pub source: Seq<char>,
    pub pos: int,
    pub line: int,
    pub done: bool,
}

/// A lazy, single-pass, forward-only token sequence over a borrowed source
/// text.
pub struct Scanner<'a> {
    source: &'a str,
    pos: usize,
    line_count: LineNo,
    done: bool,
}

impl<'a> View for Scanner<'a> {
    type V = ScannerView;

    closed spec fn view(&self) -> ScannerView {
        ScannerView {
            source: self.source@,
            pos: self.pos as int,
            line: self.line_count as int,
            done: self.done,
        }
    }
}

/// The position is inside the source, the line counter cannot overflow on
/// the newlines still ahead, and once done the scanner sits at the end of
/// the input.
pub open spec fn spec_scanner_wf(v: ScannerView) -> bool {
    &&& 0 <= v.pos <= v.source.len()
    &&& v.line + spec_newlines_between(v.source, v.pos, v.source.len() as int) <= u16::MAX as int
    &&& (v.done ==> v.pos == v.source.len())
}

impl<'a> Scanner<'a> {
    pub open spec fn wf(&self) -> bool {
        spec_scanner_wf(self@)
    }

    /// A fresh scanner at the start of `source`, on line 1. The line counter
    /// must be able to count every newline of the source.
    pub fn new(source: &'a str) -> (r: Scanner<'a>)
        requires
            1 + spec_newlines_between(source@, 0, source@.len() as int) <= u16::MAX as int,
        ensures
            r@ == (ScannerView { source: source@, pos: 0, line: 1, done: false }),
            r.wf(),
    {
        Scanner { source, pos: 0, line_count: 1, done: false }
    }

    /// The next character, or `'@'` at the end of the input.
    pub fn peek(&self) -> (c: char)
        requires
            self.wf(),
        ensures
            c == if self@.pos < self@.source.len() {
                self@.source[self@.pos]
            } else {
                '@'
            },
    {
        if self.pos < self.source.unicode_len() {
            self.source.get_char(self.pos)
        } else {
            '@'
        }
    }

    /// Take the token ending at `end` (exclusive), starting at the current
    /// position.
    fn token_to(&mut self, end: usize, token_type: TokenType) -> (t: Token<'a>)
        requires
            old(self).wf(),
            old(self)@.pos <= end <= old(self)@.source.len(),
        ensures
            final(self).wf(),
            final(self)@ == (ScannerView { pos: end as int, ..old(self)@ }),
            t@ == spec_token(
                old(self)@.line,
                old(self)@.source.subrange(old(self)@.pos, end as int),
                token_type,
            ),
    {
        proof {
            lemma_newlines_mono(self@.source, self@.pos, end as int);
        }
        let content = self.source.substring_char(self.pos, end);
        self.pos = end;
        Token { content, line: self.line_count, token_type }
    }

    /// Produce the next token. `None` once the end-of-input token has been
    /// produced; otherwise exactly the token, position and line that
    /// [`spec_scan_token`] gives.
    #[verifier::rlimit(100)]
    pub fn next(&mut self) -> (r: Option<Token<'a>>)
        requires
            old(self).wf(),
        ensures
            final(self).wf(),
            final(self)@.source == old(self)@.source,
            old(self)@.done ==> r is None && final(self)@ == old(self)@,
            !old(self)@.done ==> ({
                let (t, p, l) = spec_scan_token(
                    old(self)@.source,
                    old(self)@.pos,
                    old(self)@.line,
                );
                &&& r is Some
                &&& r->Some_0@ == t
                &&& final(self)@.pos == p
                &&& final(self)@.line == l
                &&& (final(self)@.done <==> t.token_type == TokenType::EndOfFile)
            }),
    {
        if self.done {
            return None;
        }
        let ghost src = self@.source;
        let ghost pos0 = self@.pos;
        let ghost line0 = self@.line;
        let n = self.source.unicode_len();
        loop
            invariant
                self@.source == src,
                src == old(self)@.source,
                n == src.len(),
                !self@.done,
                pos0 == old(self)@.pos,
                line0 == old(self)@.line,
                !old(self)@.done,
                0 <= self@.pos <= n,
                self@.line + spec_newlines_between(src, self@.pos, n as int) <= u16::MAX as int,
                spec_scan_token(src, self@.pos, self@.line) == spec_scan_token(src, pos0, line0),
            decreases n - self@.pos,
        {
            if self.pos >= n {
                self.done = true;
                let t = Token { content: "", line: self.line_count, token_type: TokenType::EndOfFile };
                proof {
                    reveal_strlit("");
                    assert(""@ =~= Seq::<char>::empty());
                }
                return Some(t);
            }
            let c = self.source.get_char(self.pos);
            if '0' <= c && c <= '9' {
                let start = self.pos;
                let i = run_digits(self.source, start + 1);
                proof {
                    lemma_digit_run_end_bounds(src, start as int + 1);
                }
                if i < n && self.source.get_char(i) == '.' {
                    let j = run_digits(self.source, i + 1);
                    proof {
                        lemma_digit_run_end_bounds(src, i as int + 1);
                    }
                    if j > i + 1 {
                        return Some(self.token_to(j, TokenType::Number));
                    } else {
                        // A dot not followed by a digit stays unconsumed.
                        return Some(self.token_to(i, TokenType::Number));
                    }
                } else {
                    return Some(self.token_to(i, TokenType::Number));
                }
            } else if c == '(' {
                return Some(self.token_to(self.pos + 1, TokenType::LeftParen));
            } else if c == ')' {
                return Some(self.token_to(self.pos + 1, TokenType::RightParen));
            } else if c == '{' {
                return Some(self.token_to(self.pos + 1, TokenType::LeftBrace));
            } else if c == '}' {
                return Some(self.token_to(self.pos + 1, TokenType::RightBrace));
            } else if c == ';' {
                return Some(self.token_to(self.pos + 1, TokenType::Semicolon));
            } else if c == ',' {
                return Some(self.token_to(self.pos + 1, TokenType::Comma));
            } else if c == '.' {
                return Some(self.token_to(self.pos + 1, TokenType::Dot));
            } else if c == '-' {
                return Some(self.token_to(self.pos + 1, TokenType::Minus));
            } else if c == '+' {
                return Some(self.token_to(self.pos + 1, TokenType::Plus));
            } else if c == '*' {
                return Some(self.token_to(self.pos + 1, TokenType::Star));
            } else if c == '/' {
                if self.pos + 1 < n && self.source.get_char(self.pos + 1) == '/' {
                    let k = find_char_from(self.source, self.pos + 2, '\n');
                    proof {
                        lemma_find_char_bounds(src, self@.pos + 2, '\n');
                        lemma_newlines_mono(src, self@.pos, k as int);
                    }
                    self.pos = k;
                } else {
                    return Some(self.token_to(self.pos + 1, TokenType::Slash));
                }
            } else if c == '"' {
                let start = self.pos + 1;
                let ghost line_start = self@.line;
                let mut k = start;
                loop
                    invariant
                        self@.source == src,
                        src == old(self)@.source,
                        n == src.len(),
                        !self@.done,
                        pos0 == old(self)@.pos,
                        line0 == old(self)@.line,
                        !old(self)@.done,
                        start as int == self@.pos + 1,
                        0 <= self@.pos < n,
                        src[self@.pos] == '"',
                        start <= k <= n,
                        spec_find_char(src, start as int, '"') == spec_find_char(src, k as int, '"'),
                        self@.line == line_start + spec_newlines_between(src, start as int, k as int),
                        self@.line + spec_newlines_between(src, k as int, n as int) <= u16::MAX as int,
                        spec_scan_token(src, self@.pos, line_start) == spec_scan_token(src, pos0, line0),
                    ensures
                        self@.source == src,
                        !self@.done,
                        start as int == self@.pos + 1,
                        0 <= self@.pos < n,
                        src[self@.pos] == '"',
                        start <= k <= n,
                        k as int == spec_find_char(src, start as int, '"'),
                        k < n ==> src[k as int] == '"',
                        self@.line == line_start + spec_newlines_between(src, start as int, k as int),
                        self@.line + spec_newlines_between(src, k as int, n as int) <= u16::MAX as int,
                        spec_scan_token(src, self@.pos, line_start) == spec_scan_token(src, pos0, line0),
                    decreases n - k,
                {
                    if k >= n {
                        break;
                    }
                    let ch = self.source.get_char(k);
                    if ch == '"' {
                        break;
                    }
                    proof {
                        lemma_newlines_nonneg(src, k as int + 1, n as int);
                        lemma_newlines_split(src, start as int, k as int, k as int + 1);
                        lemma_newlines_split(src, k as int, k as int + 1, n as int);
                        assert(spec_newlines_between(src, k as int + 1, k as int + 1) == 0);
                    }
                    if ch == '\n' {
                        self.line_count = self.line_count + 1;
                    }
                    k = k + 1;
                }
                let content = self.source.substring_char(start, k);
                let t = Token { content, line: self.line_count, token_type: TokenType::StringLiteral };
                proof {
                    lemma_newlines_split(src, k as int, if (k as int) < n as int { k as int + 1 } else { k as int }, n as int);
                    assert(spec_newlines_between(src, k as int, k as int) == 0);
                    if (k as int) < n as int {
                        assert(spec_newlines_between(src, k as int, k as int + 1) == 0 + spec_newlines_between(src, k as int + 1, k as int + 1));
                        assert(spec_newlines_between(src, k as int + 1, k as int + 1) == 0);
                    }
                }
                if k < n {
                    self.pos = k + 1;
                } else {
                    self.pos = k;
                }
                return Some(t);
            } else if c == '!' {
                if self.pos + 1 < n && self.source.get_char(self.pos + 1) == '=' {
                    return Some(self.token_to(self.pos + 2, TokenType::BangEqual));
                } else {
                    return Some(self.token_to(self.pos + 1, TokenType::Bang));
                }
            } else if c == '=' {
                if self.pos + 1 < n && self.source.get_char(self.pos + 1) == '=' {
                    return Some(self.token_to(self.pos + 2, TokenType::EqualEqual));
                } else {
                    return Some(self.token_to(self.pos + 1, TokenType::Equal));
                }
            } else if c == '<' {
                if self.pos + 1 < n && self.source.get_char(self.pos + 1) == '=' {
                    return Some(self.token_to(self.pos + 2, TokenType::LessEqual));
                } else {
                    return Some(self.token_to(self.pos + 1, TokenType::Less));
                }
            } else if c == '>' {
                if self.pos + 1 < n && self.source.get_char(self.pos + 1) == '=' {
                    return Some(self.token_to(self.pos + 2, TokenType::GreaterEqual));
                } else {
                    return Some(self.token_to(self.pos + 1, TokenType::Greater));
                }
            } else if c == ' ' || c == '\t' || c == '\r' {
                proof {
                    lemma_newlines_mono(src, self@.pos, self@.pos + 1);
                }
                self.pos = self.pos + 1;
            } else if c == '\n' {
                proof {
                    lemma_newlines_nonneg(src, self@.pos + 1, n as int);
                }
                self.line_count = self.line_count + 1;
                self.pos = self.pos + 1;
            } else if is_alphabetic_char(c) || c == '_' {
                let start = self.pos;
                let i = run_alnum(self.source, start + 1);
                proof {
                    lemma_alnum_run_end_bounds(src, start as int + 1);
                }
                let content = self.source.substring_char(start, i);
                let token_type = keyword_type(content);
                proof {
                    lemma_newlines_mono(src, start as int, i as int);
                }
                self.pos = i;
                return Some(Token { content, line: self.line_count, token_type });
            } else {
                proof {
                    lemma_newlines_mono(src, self@.pos, self@.pos + 1);
                }
                self.pos = self.pos + 1;
            }
        }
    }
}

/// The whole token sequence of a source text from the given state: every
/// token through and including the single end-of-input token.
pub open spec fn spec_tokens(src: Seq<char>, pos: int, line: int) -> Seq<TokenView>
    recommends
        0 <= pos <= src.len(),
    decreases src.len() - pos,
    via spec_tokens_decreases
{
    let (t, p, l) = spec_scan_token(src, pos, line);
    if t.token_type == TokenType::EndOfFile {
        seq![t]
    } else {
        seq![t] + spec_tokens(src, p, l)
    }
}

#[via_fn]
proof fn spec_tokens_decreases(src: Seq<char>, pos: int, line: int) {
    if 0 <= pos <= src.len() {
        lemma_scan_token_advances(src, pos, line);
    }
}

/// Scanning is deterministic: two scans of the same source text yield
/// identical token sequences.
pub proof fn lemma_scan_deterministic(src: Seq<char>, t1: Seq<TokenView>, t2: Seq<TokenView>)
    requires
        t1 == spec_tokens(src, 0, 1),
        t2 == spec_tokens(src, 0, 1),
    ensures
        t1 == t2,
{
}

/// An owning copy of a token, for keeping scanned output around.
#[derive(Debug)]
pub struct TokenDebug {
    pub content: String,
    pub line: LineNo,
    pub token_type: TokenType,
}

impl View for TokenDebug {
    type V = TokenView;

    open spec fn view(&self) -> TokenView {
        TokenView { line: self.line, content: self.content@, token_type: self.token_type }
    }
}

impl<'a> Token<'a> {
    /// An owning copy of this token.
    pub fn to_debug(&self) -> (r: TokenDebug)
        ensures
            r@ == self@,
    {
        TokenDebug {
            content: String::from_str(self.content),
            line: self.line,
            token_type: self.token_type,
        }
    }
}

pub type Scanning = Vec<TokenDebug>;

/// Text that can be scanned into an owned token sequence in one pass.
pub trait Scanned {
    spec fn spec_source(&self) -> Seq<char>;

    /// Scan the whole text: every token through and including the single
    /// end-of-input token.
    fn scan(&self) -> (r: Scanning)
        requires
            1 + spec_newlines_between(self.spec_source(), 0, self.spec_source().len() as int)
                <= u16::MAX as int,
        ensures
            r@.map_values(|t: TokenDebug| t@) == spec_tokens(self.spec_source(), 0, 1),
    ;
}

impl Scanned for str {
    open spec fn spec_source(&self) -> Seq<char> {
        self@
    }

    fn scan(&self) -> (r: Scanning) {
        let mut scanner = Scanner::new(self);
        let mut out: Vec<TokenDebug> = Vec::new();
        let ghost src = self@;
        loop
            invariant
                scanner.wf(),
                scanner@.source == src,
                src == self@,
                !scanner@.done ==> out@.map_values(|t: TokenDebug| t@) + spec_tokens(
                    src,
                    scanner@.pos,
                    scanner@.line,
                ) == spec_tokens(src, 0, 1),
                scanner@.done ==> out@.map_values(|t: TokenDebug| t@) == spec_tokens(src, 0, 1),
            decreases src.len() - scanner@.pos + (if scanner@.done {
                0int
            } else {
                1int
            }),
        {
            let ghost pre = scanner@;
            match scanner.next() {
                None => {
                    return out;
                },
                Some(tok) => {
                    proof {
                        lemma_scan_token_advances(src, pre.pos, pre.line);
                    }
                    let ghost pre_out = out@;
                    out.push(tok.to_debug());
                    proof {
                        assert(out@.map_values(|t: TokenDebug| t@) =~= pre_out.map_values(
                            |t: TokenDebug| t@,
                        ).push(tok@));
                    }
                },
            }
        }
    }
}

} // verus!
