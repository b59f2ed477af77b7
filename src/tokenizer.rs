//! Splits the text of a class of the high-level language into tokens.
use vstd::prelude::*;
use crate::jack_token::{ReservedKeywords, Symbols, Token, TokenType};
use crate::text::{chars_of, decimal, digits_value, is_digits, join3, string_of, text_eq, usize_text};

verus! {

/// Whether `c` has the Unicode Alphabetic property.
pub uninterp spec fn alphabetic(c: char) -> bool;

/// Whether `c` is in one of the Unicode number categories.
pub uninterp spec fn numeric(c: char) -> bool;

/// Relies on `char::is_alphabetic`: the Unicode Alphabetic property, which
/// ASCII letters have.
#[verifier::external_body]
fn is_alphabetic(c: char) -> (r: bool)
    ensures
        r == alphabetic(c),
        ('a' <= c && c <= 'z') || ('A' <= c && c <= 'Z') ==> r,
{
    c.is_alphabetic()
}

/// Relies on `char::is_numeric`: the Unicode number categories, which ASCII
/// digits are in.
#[verifier::external_body]
fn is_numeric(c: char) -> (r: bool)
    ensures
        r == numeric(c),
        '0' <= c && c <= '9' ==> r,
{
    c.is_numeric()
}

pub open spec fn word_start(c: char) -> bool {
    alphabetic(c) || c == '_'
}

pub open spec fn word_char(c: char) -> bool {
    word_start(c) || numeric(c)
}

/// Where skipping stands: between tokens, in a `//` comment, or in a
/// `/* */` comment.
#[derive(Debug, Clone, Copy, PartialEq, Eq, Structural)]
pub enum SkipMode {
    Normal,
    Line,
    Block,
}

pub open spec fn mode_rank(m: SkipMode) -> nat {
    if m is Normal {
        0
    } else {
        1
    }
}

/// Skips whitespace and comments from position `i` of `s`: the position
/// reached, the line, and whether a `/* */` comment was left open.
pub open spec fn skip_spec(s: Seq<char>, i: int, line: nat, mode: SkipMode) -> (int, nat, bool)
    decreases s.len() - i, mode_rank(mode),
{
    if i < 0 || i >= s.len() {
        (i, line, mode is Block)
    } else {
        match mode {
            SkipMode::Normal => {
                let c = s[i];
                if c == ' ' || c == '\t' || c == '\r' {
                    skip_spec(s, i + 1, line, SkipMode::Normal)
                } else if c == '\n' {
                    skip_spec(s, i + 1, line + 1, SkipMode::Normal)
                } else if c == '/' && i + 1 < s.len() && s[i + 1] == '/' {
                    skip_spec(s, i + 2, line, SkipMode::Line)
                } else if c == '/' && i + 1 < s.len() && s[i + 1] == '*' {
                    skip_spec(s, i + 2, line, SkipMode::Block)
                } else {
                    (i, line, false)
                }
            },
            SkipMode::Line => {
                if s[i] == '\n' {
                    skip_spec(s, i, line, SkipMode::Normal)
                } else {
                    skip_spec(s, i + 1, line, SkipMode::Line)
                }
            },
            SkipMode::Block => {
                if s[i] != '*' {
                    skip_spec(s, i + 1, line, SkipMode::Block)
                } else if i + 1 >= s.len() {
                    (i, line, true)
                } else if s[i + 1] == '/' {
                    skip_spec(s, i + 2, line, SkipMode::Normal)
                } else {
                    skip_spec(s, i + 1, line, SkipMode::Block)
                }
            },
        }
    }
}

/// The end of the run of word characters from `i`.
pub open spec fn word_end(s: Seq<char>, i: int) -> int
    decreases s.len() - i,
{
    if 0 <= i < s.len() && word_char(s[i]) {
        word_end(s, i + 1)
    } else {
        i
    }
}

/// The end of the run of numeric characters from `i`.
pub open spec fn number_end(s: Seq<char>, i: int) -> int
    decreases s.len() - i,
{
    if 0 <= i < s.len() && numeric(s[i]) {
        number_end(s, i + 1)
    } else {
        i
    }
}

/// The position of the first `"` from `i`, or the end.
pub open spec fn quote_end(s: Seq<char>, i: int) -> int
    decreases s.len() - i,
{
    if 0 <= i < s.len() && s[i] != '"' {
        quote_end(s, i + 1)
    } else {
        i
    }
}

pub open spec fn keyword_of(w: Seq<char>) -> Option<ReservedKeywords> {
    if w == "class"@ {
        Some(ReservedKeywords::Class)
    } else if w == "constructor"@ {
        Some(ReservedKeywords::Constructor)
    } else if w == "function"@ {
        Some(ReservedKeywords::Function)
    } else if w == "method"@ {
        Some(ReservedKeywords::Method)
    } else if w == "field"@ {
        Some(ReservedKeywords::Field)
    } else if w == "static"@ {
        Some(ReservedKeywords::Static)
    } else if w == "var"@ {
        Some(ReservedKeywords::Var)
    } else if w == "int"@ {
        Some(ReservedKeywords::Int)
    } else if w == "char"@ {
        Some(ReservedKeywords::Char)
    } else if w == "boolean"@ {
        Some(ReservedKeywords::Boolean)
    } else if w == "void"@ {
        Some(ReservedKeywords::Void)
    } else if w == "true"@ {
        Some(ReservedKeywords::True)
    } else if w == "false"@ {
        Some(ReservedKeywords::False)
    } else if w == "null"@ {
        Some(ReservedKeywords::Null)
    } else if w == "this"@ {
        Some(ReservedKeywords::This)
    } else if w == "let"@ {
        Some(ReservedKeywords::Let)
    } else if w == "do"@ {
        Some(ReservedKeywords::Do)
    } else if w == "if"@ {
        Some(ReservedKeywords::If)
    } else if w == "else"@ {
        Some(ReservedKeywords::Else)
    } else if w == "while"@ {
        Some(ReservedKeywords::While)
    } else if w == "return"@ {
        Some(ReservedKeywords::Return)
    } else {
        None
    }
}

pub open spec fn symbol_of(c: char) -> Option<Symbols> {
    match c {
        '{' => Some(Symbols::LeftBrace),
        '}' => Some(Symbols::RightBrace),
        '(' => Some(Symbols::LeftParam),
        ')' => Some(Symbols::RightParam),
        '[' => Some(Symbols::LeftBracket),
        ']' => Some(Symbols::RightBracket),
        '.' => Some(Symbols::Dot),
        ',' => Some(Symbols::Comma),
        ';' => Some(Symbols::SemiColon),
        '+' => Some(Symbols::Plus),
        '-' => Some(Symbols::Minus),
        '*' => Some(Symbols::Asterisk),
        '/' => Some(Symbols::Slash),
        '&' => Some(Symbols::And),
        '|' => Some(Symbols::Or),
        '<' => Some(Symbols::LessThan),
        '>' => Some(Symbols::GreaterThan),
        '=' => Some(Symbols::Equal),
        '~' => Some(Symbols::Tilde),
        _ => None,
    }
}

/// The state of a tokenizer: where the last token started, where it stands,
/// and its line.
pub ghost struct Scan {
    pub start: int,
    pub current: int,
    pub line: nat,
}

pub open spec fn comment_error(start: int) -> Seq<char> {
    "Expected comment opened at "@ + decimal(start as nat) + ", to close"@
}

/// One token from state `t`: the token or the error, and the state after.
pub open spec fn scan_spec(s: Seq<char>, t: Scan) -> (Result<Token, Seq<char>>, Scan) {
    let (cur, line, open) = skip_spec(s, t.current, t.line, SkipMode::Normal);
    if open {
        (Err(comment_error(t.start)), Scan { start: t.start, current: cur, line })
    } else if cur >= s.len() {
        (
            Ok(Token { _type: TokenType::EOF, start: t.start as usize, length: (cur - t.start) as usize, line: line as usize }),
            Scan { start: t.start, current: cur, line },
        )
    } else {
        let c = s[cur];
        let made = |k: TokenType, e: int| Token { _type: k, start: cur as usize, length: (e - cur) as usize, line: line as usize };
        if word_start(c) {
            let e = word_end(s, cur + 1);
            let k = match keyword_of(s.subrange(cur, e)) {
                Some(kw) => TokenType::Keyword(kw),
                None => TokenType::Identifier,
            };
            (Ok(made(k, e)), Scan { start: cur, current: e, line })
        } else if numeric(c) {
            let e = number_end(s, cur + 1);
            let w = s.subrange(cur, e);
            let next = Scan { start: cur, current: e, line };
            if !is_digits(w) {
                (Err("Failed to tokenize integer at "@ + decimal(cur as nat) + ", invalid digit found in string"@), next)
            } else if digits_value(w) > usize::MAX {
                (Err("Failed to tokenize integer at "@ + decimal(cur as nat) + ", number too large to fit in target type"@), next)
            } else if digits_value(w) > 32767 {
                (
                    Err("Integer "@ + decimal(digits_value(w)) + " at "@ + decimal(cur as nat) + " is too large, should be within 0 and 32767"@),
                    next,
                )
            } else {
                (Ok(made(TokenType::Integer(digits_value(w) as usize), e)), next)
            }
        } else if c == '"' {
            let e = quote_end(s, cur + 1);
            if e >= s.len() {
                (
                    Err("String opened at "@ + decimal(cur as nat) + ", not closed at "@ + decimal(e as nat)),
                    Scan { start: cur, current: e, line },
                )
            } else {
                (Ok(made(TokenType::String, e + 1)), Scan { start: cur, current: e + 1, line })
            }
        } else {
            match symbol_of(c) {
                Some(sym) => (Ok(made(TokenType::Symbol(sym), cur + 1)), Scan { start: cur, current: cur + 1, line }),
                None => (
                    Err("Unknown token at "@ + decimal(cur as nat) + ", "@ + seq![c]),
                    Scan { start: cur, current: cur + 1, line },
                ),
            }
        }
    }
}

/// All tokens from state `t` up to and with the end token, or the first error.
pub open spec fn tokens_from(s: Seq<char>, t: Scan) -> Result<Seq<Token>, Seq<char>>
    decreases s.len() - t.current,
{
    let (r, next) = scan_spec(s, t);
    match r {
        Err(m) => Err(m),
        Ok(tok) => if tok._type is EOF {
            Ok(seq![tok])
        } else if next.current <= t.current || next.current > s.len() {
            Err(seq![])
        } else {
            match tokens_from(s, next) {
                Err(m) => Err(m),
                Ok(rest) => Ok(seq![tok] + rest),
            }
        },
    }
}

pub open spec fn start_scan() -> Scan {
    Scan { start: 0, current: 0, line: 1 }
}

fn keyword(w: &str) -> (r: Option<ReservedKeywords>)
    ensures
        r == keyword_of(w@),
{
    if text_eq(w, "class") {
        Some(ReservedKeywords::Class)
    } else if text_eq(w, "constructor") {
        Some(ReservedKeywords::Constructor)
    } else if text_eq(w, "function") {
        Some(ReservedKeywords::Function)
    } else if text_eq(w, "method") {
        Some(ReservedKeywords::Method)
    } else if text_eq(w, "field") {
        Some(ReservedKeywords::Field)
    } else if text_eq(w, "static") {
        Some(ReservedKeywords::Static)
    } else if text_eq(w, "var") {
        Some(ReservedKeywords::Var)
    } else if text_eq(w, "int") {
        Some(ReservedKeywords::Int)
    } else if text_eq(w, "char") {
        Some(ReservedKeywords::Char)
    } else if text_eq(w, "boolean") {
        Some(ReservedKeywords::Boolean)
    } else if text_eq(w, "void") {
        Some(ReservedKeywords::Void)
    } else if text_eq(w, "true") {
        Some(ReservedKeywords::True)
    } else if text_eq(w, "false") {
        Some(ReservedKeywords::False)
    } else if text_eq(w, "null") {
        Some(ReservedKeywords::Null)
    } else if text_eq(w, "this") {
        Some(ReservedKeywords::This)
    } else if text_eq(w, "let") {
        Some(ReservedKeywords::Let)
    } else if text_eq(w, "do") {
        Some(ReservedKeywords::Do)
    } else if text_eq(w, "if") {
        Some(ReservedKeywords::If)
    } else if text_eq(w, "else") {
        Some(ReservedKeywords::Else)
    } else if text_eq(w, "while") {
        Some(ReservedKeywords::While)
    } else if text_eq(w, "return") {
        Some(ReservedKeywords::Return)
    } else {
        None
    }
}

fn symbol(c: char) -> (r: Option<Symbols>)
    ensures
        r == symbol_of(c),
{
    match c {
        '{' => Some(Symbols::LeftBrace),
        '}' => Some(Symbols::RightBrace),
        '(' => Some(Symbols::LeftParam),
        ')' => Some(Symbols::RightParam),
        '[' => Some(Symbols::LeftBracket),
        ']' => Some(Symbols::RightBracket),
        '.' => Some(Symbols::Dot),
        ',' => Some(Symbols::Comma),
        ';' => Some(Symbols::SemiColon),
        '+' => Some(Symbols::Plus),
        '-' => Some(Symbols::Minus),
        '*' => Some(Symbols::Asterisk),
        '/' => Some(Symbols::Slash),
        '&' => Some(Symbols::And),
        '|' => Some(Symbols::Or),
        '<' => Some(Symbols::LessThan),
        '>' => Some(Symbols::GreaterThan),
        '=' => Some(Symbols::Equal),
        '~' => Some(Symbols::Tilde),
        _ => None,
    }
}

pub proof fn lemma_skip_bounds(s: Seq<char>, i: int, line: nat, mode: SkipMode)
    requires
        0 <= i <= s.len(),
    ensures
        i <= skip_spec(s, i, line, mode).0 <= s.len(),
        line <= skip_spec(s, i, line, mode).1,
        skip_spec(s, i, line, mode).1 - line <= skip_spec(s, i, line, mode).0 - i,
    decreases s.len() - i, mode_rank(mode),
{
    if i < s.len() {
        match mode {
            SkipMode::Normal => {
                let c = s[i];
                if c == ' ' || c == '\t' || c == '\r' {
                    lemma_skip_bounds(s, i + 1, line, SkipMode::Normal);
                } else if c == '\n' {
                    lemma_skip_bounds(s, i + 1, line + 1, SkipMode::Normal);
                } else if c == '/' && i + 1 < s.len() && s[i + 1] == '/' {
                    lemma_skip_bounds(s, i + 2, line, SkipMode::Line);
                } else if c == '/' && i + 1 < s.len() && s[i + 1] == '*' {
                    lemma_skip_bounds(s, i + 2, line, SkipMode::Block);
                }
            },
            SkipMode::Line => {
                if s[i] == '\n' {
                    lemma_skip_bounds(s, i, line, SkipMode::Normal);
                } else {
                    lemma_skip_bounds(s, i + 1, line, SkipMode::Line);
                }
            },
            SkipMode::Block => {
                if s[i] != '*' {
                    lemma_skip_bounds(s, i + 1, line, SkipMode::Block);
                } else if i + 1 >= s.len() {
                } else if s[i + 1] == '/' {
                    lemma_skip_bounds(s, i + 2, line, SkipMode::Normal);
                } else {
                    lemma_skip_bounds(s, i + 1, line, SkipMode::Block);
                }
            },
        }
    }
}

pub proof fn lemma_runs_bounded(s: Seq<char>, i: int)
    requires
        0 <= i <= s.len(),
    ensures
        i <= word_end(s, i) <= s.len(),
        i <= number_end(s, i) <= s.len(),
        i <= quote_end(s, i) <= s.len(),
    decreases s.len() - i,
{
    if i < s.len() {
        lemma_runs_bounded(s, i + 1);
    }
}

/// A token other than the end moves the tokenizer forward, within the text.
pub proof fn lemma_scan_progress(s: Seq<char>, t: Scan)
    requires
        0 <= t.start <= t.current <= s.len(),
    ensures
        ({
            let (r, next) = scan_spec(s, t);
            &&& t.current <= next.current <= s.len()
            &&& 0 <= next.start <= next.current
            &&& next.line - t.line <= next.current - t.current
            &&& t.line <= next.line
            &&& (r matches Ok(tok) && !(tok._type is EOF)) ==> next.current > t.current
        }),
{
    lemma_skip_bounds(s, t.current, t.line, SkipMode::Normal);
    let (cur, line, open) = skip_spec(s, t.current, t.line, SkipMode::Normal);
    if cur < s.len() {
        lemma_runs_bounded(s, cur + 1);
    }
}

/// The tokens of `prefix` followed by those of `rest`.
pub open spec fn after(prefix: Seq<Token>, rest: Result<Seq<Token>, Seq<char>>) -> Result<Seq<Token>, Seq<char>> {
    match rest {
        Ok(r) => Ok(prefix + r),
        Err(m) => Err(m),
    }
}

pub struct Tokenizer {
    pub start: usize,
    pub current: usize,
    pub line: usize,
}

impl Tokenizer {
    pub open spec fn view(&self) -> Scan {
        Scan { start: self.start as int, current: self.current as int, line: self.line as nat }
    }

    pub fn new() -> (r: Self)
        ensures
            r@ == start_scan(),
    {
        Tokenizer { start: 0, current: 0, line: 1 }
    }

    /// Skips whitespace and comments; `Some` with the message when a `/* */`
    /// comment is left open.
    pub fn skip_whitespace_and_comments(&mut self, source: &[char]) -> (r: Option<String>)
        requires
            old(self).current <= source@.len(),
            old(self).line + source@.len() < usize::MAX,
        ensures
            ({
                let g = skip_spec(source@, old(self).current as int, old(self).line as nat, SkipMode::Normal);
                &&& final(self).current == g.0
                &&& final(self).line == g.1
                &&& final(self).start == old(self).start
                &&& g.2 <==> r is Some
                &&& r matches Some(m) ==> m@ == comment_error(old(self).start as int)
            }),
    {
        let ghost s = source@;
        let ghost goal = skip_spec(s, self.current as int, self.line as nat, SkipMode::Normal);
        let ghost line0 = self.line;
        let ghost cur0 = self.current;
        let n = source.len();
        let mut mode = SkipMode::Normal;
        proof {
            lemma_skip_bounds(s, self.current as int, self.line as nat, SkipMode::Normal);
        }
        loop
            invariant
                s == source@,
                n == s.len(),
                self.current <= n,
                self.start == old(self).start,
                line0 + n < usize::MAX,
                cur0 <= self.current,
                self.line - line0 <= self.current - cur0,
                line0 <= self.line,
                goal == skip_spec(s, self.current as int, self.line as nat, mode),
                goal == skip_spec(s, old(self).current as int, old(self).line as nat, SkipMode::Normal),
                cur0 == old(self).current,
                line0 == old(self).line,
            decreases n - self.current, mode_rank(mode),
        {
            if self.current >= n {
                if let SkipMode::Block = mode {
                    return Some(self.comment_error_text());
                }
                return None;
            }
            let c = source[self.current];
            match mode {
                SkipMode::Normal => {
                    if c == ' ' || c == '\t' || c == '\r' {
                        self.current = self.current + 1;
                    } else if c == '\n' {
                        self.line = self.line + 1;
                        self.current = self.current + 1;
                    } else if c == '/' && self.current + 1 < n && source[self.current + 1] == '/' {
                        self.current = self.current + 2;
                        mode = SkipMode::Line;
                    } else if c == '/' && self.current + 1 < n && source[self.current + 1] == '*' {
                        self.current = self.current + 2;
                        mode = SkipMode::Block;
                    } else {
                        return None;
                    }
                },
                SkipMode::Line => {
                    if c == '\n' {
                        mode = SkipMode::Normal;
                    } else {
                        self.current = self.current + 1;
                    }
                },
                SkipMode::Block => {
                    if c != '*' {
                        self.current = self.current + 1;
                    } else if self.current + 1 >= n {
                        return Some(self.comment_error_text());
                    } else if source[self.current + 1] == '/' {
                        self.current = self.current + 2;
                        mode = SkipMode::Normal;
                    } else {
                        self.current = self.current + 1;
                    }
                },
            }
        }
    }

    fn comment_error_text(&self) -> (r: String)
        ensures
            r@ == comment_error(self.start as int),
    {
        join3("Expected comment opened at ", usize_text(self.start).as_str(), ", to close")
    }

    fn make_token(&self, _type: TokenType) -> (r: Token)
        requires
            self.start <= self.current,
        ensures
            r == (Token { _type, start: self.start, length: (self.current - self.start) as usize, line: self.line }),
    {
        Token::new(_type, self.start, self.current - self.start, self.line)
    }

    /// Whether `chars[a..b]` is a run of ASCII digits.
    fn all_digits(source: &[char], a: usize, b: usize) -> (r: bool)
        requires
            a <= b <= source@.len(),
        ensures
            r == is_digits(source@.subrange(a as int, b as int)),
    {
        if a == b {
            return false;
        }
        let mut i = a;
        while i < b
            invariant
                a <= i <= b <= source@.len(),
                forall|j: int| a <= j < i ==> '0' <= #[trigger] source@[j] && source@[j] <= '9',
            decreases b - i,
        {
            if !('0' <= source[i] && source[i] <= '9') {
                assert(source@.subrange(a as int, b as int)[i - a] == source@[i as int]);
                return false;
            }
            i = i + 1;
        }
        assert forall|j: int| 0 <= j < b - a implies crate::text::is_digit(#[trigger] source@.subrange(a as int, b as int)[j]) by {
            assert(source@.subrange(a as int, b as int)[j] == source@[a + j]);
        }
        true
    }

    /// One token, or the error at the point where it starts.
    pub fn scan_token(&mut self, source: &[char]) -> (r: Result<Token, String>)
        requires
            old(self).start <= old(self).current <= source@.len(),
            old(self).line + source@.len() < usize::MAX,
        ensures
            ({
                let (res, next) = scan_spec(source@, old(self)@);
                &&& final(self)@ == next
                &&& match r {
                    Ok(tok) => res == Ok::<Token, Seq<char>>(tok),
                    Err(m) => res == Err::<Token, Seq<char>>(m@),
                }
            }),
    {
        let ghost s = source@;
        let ghost t = self@;
        let n = source.len();
        proof {
            lemma_skip_bounds(s, t.current, t.line, SkipMode::Normal);
        }
        match self.skip_whitespace_and_comments(source) {
            Some(e) => {
                return Err(e);
            },
            None => {},
        }
        if self.current >= n {
            return Ok(self.make_token(TokenType::EOF));
        }
        let ghost line1 = self.line;
        self.start = self.current;
        let cur = self.current;
        let c = source[cur];
        self.current = self.current + 1;
        proof {
            lemma_runs_bounded(s, cur + 1);
        }
        if is_alphabetic(c) || c == '_' {
            while self.current < n && (is_alphabetic(source[self.current]) || source[self.current] == '_' || is_numeric(source[self.current]))
                invariant
                    s == source@,
                    n == s.len(),
                    cur < self.current <= n,
                    self.start == cur,
                    self.line == line1,
                    word_end(s, cur + 1) == word_end(s, self.current as int),
                decreases n - self.current,
            {
                self.current = self.current + 1;
            }
            let word = string_of(source, self.start, self.current);
            let kind = match keyword(word.as_str()) {
                Some(k) => TokenType::Keyword(k),
                None => TokenType::Identifier,
            };
            Ok(self.make_token(kind))
        } else if is_numeric(c) {
            while self.current < n && is_numeric(source[self.current])
                invariant
                    s == source@,
                    n == s.len(),
                    cur < self.current <= n,
                    self.start == cur,
                    self.line == line1,
                    number_end(s, cur + 1) == number_end(s, self.current as int),
                decreases n - self.current,
            {
                self.current = self.current + 1;
            }
            let word = string_of(source, self.start, self.current);
            match crate::text::parse_usize(word.as_str()) {
                Some(value) => {
                    if value > 32767 {
                        let mut m = join3("Integer ", usize_text(value).as_str(), " at ");
                        m.append(usize_text(self.start).as_str());
                        m.append(" is too large, should be within 0 and 32767");
                        Err(m)
                    } else {
                        Ok(self.make_token(TokenType::Integer(value)))
                    }
                },
                None => {
                    let reason = if Self::all_digits(source, self.start, self.current) {
                        ", number too large to fit in target type"
                    } else {
                        ", invalid digit found in string"
                    };
                    Err(join3("Failed to tokenize integer at ", usize_text(self.start).as_str(), reason))
                },
            }
        } else if c == '"' {
            while self.current < n && source[self.current] != '"'
                invariant
                    s == source@,
                    n == s.len(),
                    cur < self.current <= n,
                    self.start == cur,
                    self.line == line1,
                    quote_end(s, cur + 1) == quote_end(s, self.current as int),
                decreases n - self.current,
            {
                self.current = self.current + 1;
            }
            if self.current >= n {
                let mut m = join3("String opened at ", usize_text(self.start).as_str(), ", not closed at ");
                m.append(usize_text(self.current).as_str());
                return Err(m);
            }
            self.current = self.current + 1;
            Ok(self.make_token(TokenType::String))
        } else {
            match symbol(c) {
                Some(sym) => Ok(self.make_token(TokenType::Symbol(sym))),
                None => {
                    let mut m = join3("Unknown token at ", usize_text(self.start).as_str(), ", ");
                    m.append(string_of(source, cur, cur + 1).as_str());
                    assert(s.subrange(cur as int, cur + 1) =~= seq![c]);
                    Err(m)
                },
            }
        }
    }

    /// All tokens of `source`, ending with the end token, or the first error.
    pub fn generate_tokens(source: &str) -> (r: Result<Vec<Token>, String>)
        requires
            source@.len() < usize::MAX / 2,
        ensures
            match tokens_from(source@, start_scan()) {
                Ok(ts) => r matches Ok(v) && v@ == ts,
                Err(m) => r matches Err(e) && e@ == m,
            },
    {
        let chars = chars_of(source);
        let ghost s = chars@;
        let mut tokens: Vec<Token> = Vec::new();
        let mut tokenizer = Self::new();
        assert(tokens@ + Seq::<Token>::empty() =~= Seq::<Token>::empty());
        assert forall|x: Result<Seq<Token>, Seq<char>>| after(Seq::<Token>::empty(), x) == x by {
            if let Ok(v) = x {
                assert(Seq::<Token>::empty() + v =~= v);
            }
        }
        loop
            invariant
                s == chars@,
                s == source@,
                s.len() < usize::MAX / 2,
                tokenizer.start <= tokenizer.current <= s.len(),
                tokenizer.line <= tokenizer.current + 1,
                tokens_from(s, start_scan()) == after(tokens@, tokens_from(s, tokenizer@)),
            decreases s.len() - tokenizer.current,
        {
            let ghost t = tokenizer@;
            proof {
                lemma_scan_progress(s, t);
            }
            match tokenizer.scan_token(chars.as_slice()) {
                Ok(token) => {
                    if let TokenType::EOF = token._type {
                        tokens.push(token);
                        return Ok(tokens);
                    }
                    let ghost before = tokens@;
                    tokens.push(token);
                    proof {
                        let rest = tokens_from(s, tokenizer@);
                        if let Ok(v) = rest {
                            assert(before + (seq![token] + v) =~= tokens@ + v);
                        }
                    }
                },
                Err(e) => {
                    return Err(e);
                },
            }
        }
    }
}

} // verus!
