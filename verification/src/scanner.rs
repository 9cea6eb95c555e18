//! The scanner: source text to tokens.
use crate::error::{Error, ErrorModel, scan_error};
use crate::text::push_char;
use crate::token::{
    Literal, LiteralModel, Token, TokenModel, TokenType, duplicate_tokens, tokens_model,
};
use vstd::prelude::*;
use vstd::string::StringExecFns;

verus! {

/// The scanner's state: the source, the tokens made so far, where the
/// lexeme being scanned starts, the next character to read, and the line.
pub struct Scanner {
    pub source: Vec<char>,
    pub tokens: Vec<Token>,
    pub start: usize,
    pub current: usize,
    pub line: usize,
}

/// The mathematical content of [`Scanner`].
pub struct ScannerModel {
    pub source: Seq<char>,
    pub tokens: Seq<TokenModel>,
    pub start: usize,
    pub current: usize,
    pub line: usize,
}

impl View for Scanner {
    type V = ScannerModel;

    open spec fn view(&self) -> ScannerModel {
        ScannerModel {
            source: self.source@,
            tokens: tokens_model(self.tokens@),
            start: self.start,
            current: self.current,
            line: self.line,
        }
    }
}

impl Default for Scanner {
    fn default() -> (s: Scanner)
        ensures
            s@ == (ScannerModel {
                source: Seq::empty(),
                tokens: Seq::empty(),
                start: 0,
                current: 0,
                line: 1,
            }),
    {
        let s = Scanner {
            source: Vec::new(),
            tokens: Vec::new(),
            start: 0,
            current: 0,
            line: 1,
        };
        assert(s@.tokens =~= Seq::empty());
        assert(s@.source =~= Seq::empty());
        s
    }
}

pub open spec fn digit(c: char) -> bool {
    '0' <= c && c <= '9'
}

pub open spec fn alpha(c: char) -> bool {
    ('a' <= c && c <= 'z') || ('A' <= c && c <= 'Z') || c == '_'
}

pub open spec fn alpha_numeric(c: char) -> bool {
    digit(c) || alpha(c)
}

pub open spec fn in_string(c: char) -> bool {
    c != '"'
}

pub open spec fn in_comment(c: char) -> bool {
    c != '\n'
}

/// The test for a digit, as a function.
pub open spec fn digit_test() -> spec_fn(char) -> bool {
    |c: char| digit(c)
}

/// The test for a character of an identifier, as a function.
pub open spec fn word_test() -> spec_fn(char) -> bool {
    |c: char| alpha_numeric(c)
}

/// The test for a character inside a string literal, as a function.
pub open spec fn string_test() -> spec_fn(char) -> bool {
    |c: char| in_string(c)
}

/// The test for a character inside a comment, as a function.
pub open spec fn comment_test() -> spec_fn(char) -> bool {
    |c: char| in_comment(c)
}

/// The end of the longest run of characters that satisfy `member` and start
/// at `i`: the first index from `i` on whose character does not, or the
/// length of the text.
pub open spec fn run_end(source: Seq<char>, i: int, member: spec_fn(char) -> bool) -> int
    decreases source.len() - i,
{
    if 0 <= i < source.len() && member(source[i]) {
        run_end(source, i + 1, member)
    } else {
        i
    }
}

/// The number of line breaks in `source[from..to]`.
pub open spec fn newlines(source: Seq<char>, from: int, to: int) -> nat
    decreases to - from,
{
    if from < to && 0 <= from && to <= source.len() {
        newlines(source, from, to - 1) + (if source[to - 1] == '\n' {
            1nat
        } else {
            0nat
        })
    } else {
        0
    }
}

/// A line number moved on by `n` line breaks, held at the largest number.
pub open spec fn bump(line: usize, n: nat) -> usize {
    if line + n <= usize::MAX {
        (line + n) as usize
    } else {
        usize::MAX
    }
}

/// The keyword that a word is, if it is one.
pub open spec fn keyword(text: Seq<char>) -> Option<TokenType> {
    if text == "and"@ {
        Some(TokenType::And)
    } else if text == "class"@ {
        Some(TokenType::Class)
    } else if text == "else"@ {
        Some(TokenType::Else)
    } else if text == "false"@ {
        Some(TokenType::False)
    } else if text == "for"@ {
        Some(TokenType::For)
    } else if text == "fun"@ {
        Some(TokenType::Fun)
    } else if text == "if"@ {
        Some(TokenType::If)
    } else if text == "nil"@ {
        Some(TokenType::Nil)
    } else if text == "or"@ {
        Some(TokenType::Or)
    } else if text == "print"@ {
        Some(TokenType::Print)
    } else if text == "return"@ {
        Some(TokenType::Return)
    } else if text == "super"@ {
        Some(TokenType::Super)
    } else if text == "this"@ {
        Some(TokenType::This)
    } else if text == "true"@ {
        Some(TokenType::True)
    } else if text == "var"@ {
        Some(TokenType::Var)
    } else if text == "while"@ {
        Some(TokenType::While)
    } else {
        None
    }
}

/// The character at `i`, or the null character past the end.
pub open spec fn char_at(source: Seq<char>, i: int) -> char {
    if 0 <= i < source.len() {
        source[i]
    } else {
        '\0'
    }
}

pub open spec fn moved(s: ScannerModel, current: usize) -> ScannerModel {
    ScannerModel {
        source: s.source,
        tokens: s.tokens,
        start: s.start,
        current,
        line: s.line,
    }
}

pub open spec fn on_line(s: ScannerModel, line: usize) -> ScannerModel {
    ScannerModel {
        source: s.source,
        tokens: s.tokens,
        start: s.start,
        current: s.current,
        line,
    }
}

/// The state after a token of the text between `start` and `current` is
/// added.
pub open spec fn added(s: ScannerModel, token_type: TokenType, lit: Option<LiteralModel>) -> ScannerModel {
    ScannerModel {
        source: s.source,
        tokens: s.tokens.push(
            TokenModel {
                token_type,
                lexeme: s.source.subrange(s.start as int, s.current as int),
                lit,
                line: s.line,
            },
        ),
        start: s.start,
        current: s.current,
        line: s.line,
    }
}

/// The state after one character is read if it is `expected`.
pub open spec fn matched(s: ScannerModel, expected: char) -> bool {
    s.current < s.source.len() && s.source[s.current as int] == expected
}

/// A one- or two-character operator: `two` if the next character is `=`,
/// else `one`.
pub open spec fn operator_model(s: ScannerModel, one: TokenType, two: TokenType) -> ScannerModel {
    if matched(s, '=') {
        added(moved(s, (s.current + 1) as usize), two, None)
    } else {
        added(s, one, None)
    }
}

pub open spec fn unterminated_string(line: usize) -> ErrorModel {
    scan_error("unterminated string"@, line)
}

pub open spec fn unexpected_character(line: usize) -> ErrorModel {
    scan_error("unexpected character"@, line)
}

/// A string literal whose opening quote has been read: everything up to the
/// next quote, line breaks included; the literal is the text between the
/// quotes. Without a closing quote the string is unterminated.
pub open spec fn string_model(s: ScannerModel) -> Result<ScannerModel, ErrorModel> {
    let end = run_end(s.source, s.current as int, string_test());
    let line = bump(s.line, newlines(s.source, s.current as int, end));
    if end >= s.source.len() {
        Err(unterminated_string(line))
    } else {
        Ok(
            added(
                on_line(moved(s, (end + 1) as usize), line),
                TokenType::Str,
                Some(LiteralModel::Str(s.source.subrange(s.start + 1, end))),
            ),
        )
    }
}

/// Where a number that has been read up to `current` ends: after its
/// digits, and after a fraction if a dot and a digit follow them.
pub open spec fn number_end(source: Seq<char>, current: int) -> int {
    let whole = run_end(source, current, digit_test());
    if char_at(source, whole) == '.' && digit(char_at(source, whole + 1)) {
        run_end(source, whole + 1, digit_test())
    } else {
        whole
    }
}

/// A number literal whose first digit has been read. The literal is the
/// text of the number.
pub open spec fn number_model(s: ScannerModel) -> ScannerModel {
    let end = number_end(s.source, s.current as int);
    added(
        moved(s, end as usize),
        TokenType::Number,
        Some(LiteralModel::Number(s.source.subrange(s.start as int, end))),
    )
}

/// An identifier or keyword whose first character has been read: it goes
/// on for as long as letters, digits and underscores follow.
pub open spec fn identifier_model(s: ScannerModel) -> ScannerModel {
    let end = run_end(s.source, s.current as int, word_test());
    let kind = match keyword(s.source.subrange(s.start as int, end)) {
        Some(k) => k,
        None => TokenType::Identifier,
    };
    added(moved(s, end as usize), kind, None)
}

/// One token scanned from `current`, or white space or a comment skipped.
pub open spec fn scan_token_model(s: ScannerModel) -> Result<ScannerModel, ErrorModel> {
    if s.current >= s.source.len() {
        Ok(s)
    } else {
        let c = s.source[s.current as int];
        let s1 = moved(s, (s.current + 1) as usize);
        if c == '(' {
            Ok(added(s1, TokenType::LeftParen, None))
        } else if c == ')' {
            Ok(added(s1, TokenType::RightParen, None))
        } else if c == '{' {
            Ok(added(s1, TokenType::LeftBrace, None))
        } else if c == '}' {
            Ok(added(s1, TokenType::RightBrace, None))
        } else if c == ',' {
            Ok(added(s1, TokenType::Comma, None))
        } else if c == '.' {
            Ok(added(s1, TokenType::Dot, None))
        } else if c == '-' {
            Ok(added(s1, TokenType::Minus, None))
        } else if c == '+' {
            Ok(added(s1, TokenType::Plus, None))
        } else if c == ';' {
            Ok(added(s1, TokenType::Semicolon, None))
        } else if c == '*' {
            Ok(added(s1, TokenType::Star, None))
        } else if c == '!' {
            Ok(operator_model(s1, TokenType::Bang, TokenType::BangEqual))
        } else if c == '=' {
            Ok(operator_model(s1, TokenType::Equal, TokenType::EqualEqual))
        } else if c == '<' {
            Ok(operator_model(s1, TokenType::Less, TokenType::LessEqual))
        } else if c == '>' {
            Ok(operator_model(s1, TokenType::Greater, TokenType::GreaterEqual))
        } else if c == '/' {
            if matched(s1, '/') {
                Ok(
                    moved(
                        s1,
                        run_end(s.source, s.current + 2, comment_test()) as usize,
                    ),
                )
            } else {
                Ok(added(s1, TokenType::Slash, None))
            }
        } else if c == ' ' || c == '\r' || c == '\t' {
            Ok(s1)
        } else if c == '\n' {
            Ok(on_line(s1, bump(s.line, 1)))
        } else if c == '"' {
            string_model(s1)
        } else if digit(c) {
            Ok(number_model(s1))
        } else if alpha(c) {
            Ok(identifier_model(s1))
        } else {
            Err(unexpected_character(s.line))
        }
    }
}

pub open spec fn started(s: ScannerModel) -> ScannerModel {
    ScannerModel {
        source: s.source,
        tokens: s.tokens,
        start: s.current,
        current: s.current,
        line: s.line,
    }
}

/// Everything from `current` to the end of the source scanned, or the first
/// error.
pub open spec fn scan_all_model(s: ScannerModel) -> Result<ScannerModel, ErrorModel>
    decreases s.source.len() - s.current,
{
    if s.current >= s.source.len() {
        Ok(s)
    } else {
        match scan_token_model(started(s)) {
            Ok(s1) => if s.current < s1.current <= s.source.len() && s1.source == s.source {
                scan_all_model(s1)
            } else {
                Ok(s1)
            },
            Err(e) => Err(e),
        }
    }
}

/// The end-of-file token on `line`.
pub open spec fn eof(line: usize) -> TokenModel {
    TokenModel { token_type: TokenType::Eof, lexeme: Seq::empty(), lit: None, line }
}

/// The whole scan: every token from `current` on, then the end-of-file
/// token.
pub open spec fn scan_tokens_model(s: ScannerModel) -> Result<ScannerModel, ErrorModel> {
    match scan_all_model(s) {
        Ok(s1) => Ok(
            ScannerModel {
                source: s1.source,
                tokens: s1.tokens.push(eof(s1.line)),
                start: s1.start,
                current: s1.current,
                line: s1.line,
            },
        ),
        Err(e) => Err(e),
    }
}

/// The end of a run is within the text, no character of the run fails the
/// test, and the character at the end, if there is one, does.
pub proof fn lemma_run_end(source: Seq<char>, i: int, member: spec_fn(char) -> bool)
    requires
        0 <= i <= source.len(),
    ensures
        i <= run_end(source, i, member) <= source.len(),
        forall|j: int| i <= j < run_end(source, i, member) ==> member(#[trigger] source[j]),
        run_end(source, i, member) < source.len() ==> !member(
            source[run_end(source, i, member)],
        ),
    decreases source.len() - i,
{
    if i < source.len() && member(source[i]) {
        lemma_run_end(source, i + 1, member);
    }
}

proof fn lemma_newlines_step(source: Seq<char>, from: int, to: int)
    requires
        0 <= from <= to < source.len(),
    ensures
        newlines(source, from, to + 1) == newlines(source, from, to) + (if source[to] == '\n' {
            1nat
        } else {
            0nat
        }),
{
}

pub fn is_digit(c: char) -> (r: bool)
    ensures
        r == digit(c),
{
    c >= '0' && c <= '9'
}

pub fn is_alpha(c: char) -> (r: bool)
    ensures
        r == alpha(c),
{
    (c >= 'a' && c <= 'z') || (c >= 'A' && c <= 'Z') || c == '_'
}

pub fn is_alpha_number(c: char) -> (r: bool)
    ensures
        r == alpha_numeric(c),
{
    is_digit(c) || is_alpha(c)
}

/// The keyword that `text` is, if it is one.
pub fn keyword_of(text: &String) -> (r: Option<TokenType>)
    ensures
        r == keyword(text@),
{
    if *text == String::from_str("and") {
        Some(TokenType::And)
    } else if *text == String::from_str("class") {
        Some(TokenType::Class)
    } else if *text == String::from_str("else") {
        Some(TokenType::Else)
    } else if *text == String::from_str("false") {
        Some(TokenType::False)
    } else if *text == String::from_str("for") {
        Some(TokenType::For)
    } else if *text == String::from_str("fun") {
        Some(TokenType::Fun)
    } else if *text == String::from_str("if") {
        Some(TokenType::If)
    } else if *text == String::from_str("nil") {
        Some(TokenType::Nil)
    } else if *text == String::from_str("or") {
        Some(TokenType::Or)
    } else if *text == String::from_str("print") {
        Some(TokenType::Print)
    } else if *text == String::from_str("return") {
        Some(TokenType::Return)
    } else if *text == String::from_str("super") {
        Some(TokenType::Super)
    } else if *text == String::from_str("this") {
        Some(TokenType::This)
    } else if *text == String::from_str("true") {
        Some(TokenType::True)
    } else if *text == String::from_str("var") {
        Some(TokenType::Var)
    } else if *text == String::from_str("while") {
        Some(TokenType::While)
    } else {
        None
    }
}

impl Scanner {
    /// The text of the source between two positions.
    fn text(&self, from: usize, to: usize) -> (s: String)
        requires
            from <= to <= self.source.len(),
        ensures
            s@ == self.source@.subrange(from as int, to as int),
    {
        let mut s = String::new();
        let mut i = from;
        while i < to
            invariant
                from <= i <= to <= self.source.len(),
                s@ == self.source@.subrange(from as int, i as int),
            decreases to - i,
        {
            push_char(&mut s, self.source[i]);
            assert(self.source@.subrange(from as int, i + 1) =~= self.source@.subrange(
                from as int,
                i as int,
            ).push(self.source@[i as int]));
            i += 1;
        }
        s
    }

    /// Scans the whole source: the tokens, ended by the end-of-file token,
    /// or the first error.
    pub fn scan_tokens(&mut self) -> (r: Result<Vec<Token>, Error>)
        ensures
            match r {
                Ok(tokens) => scan_tokens_model(old(self)@) == Ok::<ScannerModel, ErrorModel>(
                    final(self)@,
                ) && tokens_model(tokens@) == final(self)@.tokens,
                Err(e) => scan_tokens_model(old(self)@) == Err::<ScannerModel, ErrorModel>(e@),
            },
    {
        while !self.is_at_end()
            invariant
                scan_all_model(self@) == scan_all_model(old(self)@),
                self.source@ == old(self).source@,
            decreases self.source.len() - self.current,
        {
            self.start = self.current;
            match self.scan_token() {
                Ok(_) => {},
                Err(e) => {
                    return Err(e);
                },
            }
        }
        let ghost before = self.tokens@;
        self.tokens.push(
            Token { token_type: TokenType::Eof, lexeme: String::new(), lit: None, line: self.line },
        );
        assert(tokens_model(self.tokens@) =~= tokens_model(before).push(eof(self.line)));
        Ok(duplicate_tokens(&self.tokens))
    }

    /// Scans one token from `current`, or skips white space or a comment.
    fn scan_token(&mut self) -> (r: Result<(), Error>)
        requires
            old(self).start <= old(self).current < old(self).source.len(),
        ensures
            match r {
                Ok(_) => scan_token_model(old(self)@) == Ok::<ScannerModel, ErrorModel>(
                    final(self)@,
                ),
                Err(e) => scan_token_model(old(self)@) == Err::<ScannerModel, ErrorModel>(e@),
            },
            r is Ok ==> old(self).current < final(self).current <= final(self).source.len(),
            final(self).source@ == old(self).source@,
    {
        let line = self.line;
        let c = self.advance();
        if c == '(' {
            self.add_token(TokenType::LeftParen, None);
        } else if c == ')' {
            self.add_token(TokenType::RightParen, None);
        } else if c == '{' {
            self.add_token(TokenType::LeftBrace, None);
        } else if c == '}' {
            self.add_token(TokenType::RightBrace, None);
        } else if c == ',' {
            self.add_token(TokenType::Comma, None);
        } else if c == '.' {
            self.add_token(TokenType::Dot, None);
        } else if c == '-' {
            self.add_token(TokenType::Minus, None);
        } else if c == '+' {
            self.add_token(TokenType::Plus, None);
        } else if c == ';' {
            self.add_token(TokenType::Semicolon, None);
        } else if c == '*' {
            self.add_token(TokenType::Star, None);
        } else if c == '!' {
            self.operator(TokenType::Bang, TokenType::BangEqual);
        } else if c == '=' {
            self.operator(TokenType::Equal, TokenType::EqualEqual);
        } else if c == '<' {
            self.operator(TokenType::Less, TokenType::LessEqual);
        } else if c == '>' {
            self.operator(TokenType::Greater, TokenType::GreaterEqual);
        } else if c == '/' {
            if self.is_match('/') {
                self.skip_comment();
            } else {
                self.add_token(TokenType::Slash, None);
            }
        } else if c == ' ' || c == '\r' || c == '\t' {
        } else if c == '\n' {
            self.next_line();
        } else if c == '"' {
            return self.string();
        } else if is_digit(c) {
            self.number();
        } else if is_alpha(c) {
            self.identifier();
        } else {
            return Err(Error::scan(String::from_str("unexpected character"), line));
        }
        Ok(())
    }

    /// Moves the line number on by one, unless it is the largest number.
    fn next_line(&mut self)
        ensures
            final(self)@ == on_line(old(self)@, bump(old(self).line, 1)),
    {
        if self.line < usize::MAX {
            self.line += 1;
        }
    }

    /// Skips a comment up to the end of the line.
    fn skip_comment(&mut self)
        requires
            old(self).current <= old(self).source.len(),
        ensures
            final(self)@ == moved(
                old(self)@,
                run_end(old(self).source@, old(self).current as int, comment_test()) as usize,
            ),
            old(self).current <= final(self).current <= final(self).source.len(),
    {
        proof {
            lemma_run_end(self.source@, self.current as int, comment_test());
        }
        while self.peek() != '\n' && !self.is_at_end()
            invariant
                self.current <= self.source.len(),
                self@ == moved(old(self)@, self.current),
                self.current >= old(self).current,
                run_end(self.source@, self.current as int, comment_test()) == run_end(
                    old(self).source@,
                    old(self).current as int,
                    comment_test(),
                ),
            decreases self.source.len() - self.current,
        {
            self.advance();
        }
    }

    /// A one- or two-character operator.
    fn operator(&mut self, one: TokenType, two: TokenType)
        requires
            old(self).start <= old(self).current <= old(self).source.len(),
        ensures
            final(self)@ == operator_model(old(self)@, one, two),
            old(self).current <= final(self).current <= final(self).source.len(),
    {
        let token_type = if self.is_match('=') {
            two
        } else {
            one
        };
        self.add_token(token_type, None);
    }

    /// Reads the next character.
    pub fn advance(&mut self) -> (c: char)
        requires
            old(self).current < old(self).source.len(),
        ensures
            c == old(self).source@[old(self).current as int],
            final(self)@ == moved(old(self)@, (old(self).current + 1) as usize),
    {
        self.current += 1;
        self.source[self.current - 1]
    }

    /// Adds a token of the text between `start` and `current`.
    fn add_token(&mut self, token_type: TokenType, lit: Option<Literal>)
        requires
            old(self).start <= old(self).current <= old(self).source.len(),
        ensures
            final(self)@ == added(old(self)@, token_type, crate::token::literal_option_model(lit)),
    {
        let token = Token {
            token_type,
            lexeme: self.text(self.start, self.current),
            lit,
            line: self.line,
        };
        let ghost before = self.tokens@;
        self.tokens.push(token);
        assert(tokens_model(self.tokens@) =~= tokens_model(before).push(token@));
    }

    /// Whether the whole source has been read.
    pub fn is_at_end(&self) -> (r: bool)
        ensures
            r == (self.current >= self.source.len()),
    {
        self.current >= self.source.len()
    }

    /// Reads the next character if it is `expected`.
    pub fn is_match(&mut self, expected: char) -> (r: bool)
        ensures
            r == matched(old(self)@, expected),
            final(self)@ == (if r {
                moved(old(self)@, (old(self).current + 1) as usize)
            } else {
                old(self)@
            }),
    {
        if self.is_at_end() {
            false
        } else if self.source[self.current] != expected {
            false
        } else {
            self.current += 1;
            true
        }
    }

    /// The next character, or the null character at the end.
    pub fn peek(&self) -> (c: char)
        ensures
            c == char_at(self.source@, self.current as int),
    {
        if self.is_at_end() {
            '\0'
        } else {
            self.source[self.current]
        }
    }

    /// The character after the next, or the null character past the end.
    pub fn peek_next(&self) -> (c: char)
        ensures
            c == char_at(self.source@, self.current + 1),
    {
        if self.current >= self.source.len() || self.current + 1 >= self.source.len() {
            '\0'
        } else {
            self.source[self.current + 1]
        }
    }

    /// Scans a string literal whose opening quote has been read.
    pub fn string(&mut self) -> (r: Result<(), Error>)
        requires
            old(self).start < old(self).current <= old(self).source.len(),
        ensures
            match r {
                Ok(_) => string_model(old(self)@) == Ok::<ScannerModel, ErrorModel>(final(self)@),
                Err(e) => string_model(old(self)@) == Err::<ScannerModel, ErrorModel>(e@),
            },
            old(self).current <= final(self).current <= final(self).source.len(),
            final(self).source@ == old(self).source@,
    {
        proof {
            lemma_run_end(self.source@, self.current as int, string_test());
        }
        while self.peek() != '"' && !self.is_at_end()
            invariant
                old(self).current <= self.current <= self.source.len(),
                self@ == on_line(moved(old(self)@, self.current), self.line),
                self.line == bump(
                    old(self).line,
                    newlines(self.source@, old(self).current as int, self.current as int),
                ),
                run_end(self.source@, self.current as int, string_test()) == run_end(
                    old(self).source@,
                    old(self).current as int,
                    string_test(),
                ),
            decreases self.source.len() - self.current,
        {
            proof {
                lemma_newlines_step(self.source@, old(self).current as int, self.current as int);
            }
            if self.peek() == '\n' {
                self.next_line();
            }
            self.advance();
        }
        if self.is_at_end() {
            return Err(Error::scan(String::from_str("unterminated string"), self.line));
        }
        // The closing quote.

        self.advance();
        let s = self.text(self.start + 1, self.current - 1);
        self.add_token(TokenType::Str, Some(Literal::Str(s)));
        Ok(())
    }

    /// Reads digits for as long as they follow.
    fn digits(&mut self)
        requires
            old(self).current <= old(self).source.len(),
        ensures
            final(self)@ == moved(
                old(self)@,
                run_end(old(self).source@, old(self).current as int, digit_test()) as usize,
            ),
            old(self).current <= final(self).current <= final(self).source.len(),
    {
        proof {
            lemma_run_end(self.source@, self.current as int, digit_test());
        }
        while is_digit(self.peek()) && !self.is_at_end()
            invariant
                old(self).current <= self.current <= self.source.len(),
                self@ == moved(old(self)@, self.current),
                run_end(self.source@, self.current as int, digit_test()) == run_end(
                    old(self).source@,
                    old(self).current as int,
                    digit_test(),
                ),
            decreases self.source.len() - self.current,
        {
            self.advance();
        }
    }

    /// Scans a number literal whose first digit has been read.
    pub fn number(&mut self)
        requires
            old(self).start <= old(self).current <= old(self).source.len(),
        ensures
            final(self)@ == number_model(old(self)@),
            old(self).current <= final(self).current <= final(self).source.len(),
    {
        proof {
            lemma_run_end(self.source@, self.current as int, digit_test());
        }
        self.digits();
        if self.peek() == '.' && is_digit(self.peek_next()) {
            // The dot.
            self.advance();
            proof {
                lemma_run_end(self.source@, self.current as int, digit_test());
            }
            self.digits();
        }
        let text = self.text(self.start, self.current);
        self.add_token(TokenType::Number, Some(Literal::Number(text)));
    }

    /// Scans an identifier or keyword whose first character has been read.
    fn identifier(&mut self)
        requires
            old(self).start <= old(self).current <= old(self).source.len(),
        ensures
            final(self)@ == identifier_model(old(self)@),
            old(self).current <= final(self).current <= final(self).source.len(),
    {
        proof {
            lemma_run_end(self.source@, self.current as int, word_test());
        }
        while is_alpha_number(self.peek()) && !self.is_at_end()
            invariant
                old(self).current <= self.current <= self.source.len(),
                self@ == moved(old(self)@, self.current),
                run_end(self.source@, self.current as int, word_test()) == run_end(
                    old(self).source@,
                    old(self).current as int,
                    word_test(),
                ),
            decreases self.source.len() - self.current,
        {
            self.advance();
        }
        let text = self.text(self.start, self.current);
        let token_type = match keyword_of(&text) {
            Some(k) => k,
            None => TokenType::Identifier,
        };
        self.add_token(token_type, None);
    }
}


/// A scan of one token keeps the source and every token made so far, reads
/// at least one character and none past the end, and adds at most one
/// token, whose text is the source between the start of the scan and the
/// position after it.
pub proof fn a_scan_adds_to_the_tokens(s: ScannerModel)
    requires
        s.start == s.current,
        s.current < s.source.len(),
        s.source.len() <= usize::MAX,
    ensures
        scan_token_model(s) matches Ok(after) ==> {
            &&& after.source == s.source
            &&& after.start == s.start
            &&& s.current < after.current <= s.source.len()
            &&& after.tokens.len() <= s.tokens.len() + 1
            &&& after.tokens.take(s.tokens.len() as int) == s.tokens
            &&& after.tokens.len() == s.tokens.len() + 1 ==> after.tokens.last().lexeme
                == s.source.subrange(s.start as int, after.current as int)
        },
{
    lemma_run_end(s.source, s.current + 1, string_test());
    lemma_run_end(s.source, s.current + 1, digit_test());
    lemma_run_end(s.source, s.current + 1, word_test());
    if s.current + 2 <= s.source.len() {
        lemma_run_end(s.source, s.current + 2, comment_test());
    }
    let whole = run_end(s.source, s.current + 1, digit_test());
    if whole + 1 <= s.source.len() {
        lemma_run_end(s.source, whole + 1, digit_test());
    }
    match scan_token_model(s) {
        Ok(after) => {
            assert(after.tokens.take(s.tokens.len() as int) =~= s.tokens);
        },
        Err(_) => {},
    }
}

/// A scan that succeeds ends with the end-of-file token, which has no
/// text.
pub proof fn the_last_token_is_the_end_of_file(s: ScannerModel)
    ensures
        scan_tokens_model(s) matches Ok(after) ==> after.tokens.len() > 0
            && after.tokens.last().token_type == TokenType::Eof && after.tokens.last().lexeme.len()
            == 0,
{
}

} // verus!
