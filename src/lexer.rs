use vstd::prelude::*;
use vstd::string::{StrSliceExecFns, StringExecFns};
use crate::token::{Lexeme, Token, TokenType};


verus! {

pub open spec fn is_whitespace(c: char) -> bool {
    c == ' ' || c == '\t' || c == '\n' || c == '\r'
}

/// A character that may start an identifier or keyword: an ASCII letter or `_`. Letters outside
/// ASCII are not recognized; they scan as illegal tokens.
pub open spec fn is_letter(c: char) -> bool {
    ('a' <= c && c <= 'z') || ('A' <= c && c <= 'Z') || c == '_'
}

/// An ASCII decimal digit. Digits outside ASCII are not recognized.
pub open spec fn is_digit(c: char) -> bool {
    '0' <= c && c <= '9'
}

/// A character that may continue an identifier or keyword: an ASCII letter or digit. An
/// underscore starts a word but does not continue one.
pub open spec fn is_word_char(c: char) -> bool {
    ('a' <= c && c <= 'z') || ('A' <= c && c <= 'Z') || is_digit(c)
}

/// The first position at or after `p` that is not whitespace (or the end).
pub open spec fn skip_whitespace(s: Seq<char>, p: int) -> int
    decreases s.len() - p,
{
    if 0 <= p < s.len() && is_whitespace(s[p]) {
        skip_whitespace(s, p + 1)
    } else {
        p
    }
}

/// The end of the maximal run of word characters starting at `p`.
pub open spec fn word_end(s: Seq<char>, p: int) -> int
    decreases s.len() - p,
{
    if 0 <= p < s.len() && is_word_char(s[p]) {
        word_end(s, p + 1)
    } else {
        p
    }
}

/// The end of the maximal run of decimal digits starting at `p`.
pub open spec fn digits_end(s: Seq<char>, p: int) -> int
    decreases s.len() - p,
{
    if 0 <= p < s.len() && is_digit(s[p]) {
        digits_end(s, p + 1)
    } else {
        p
    }
}

/// The kind of a word: one of the keywords, or an identifier.
pub open spec fn keyword_kind(t: Seq<char>) -> TokenType {
    if t == "fn"@ {
        TokenType::Function
    } else if t == "let"@ {
        TokenType::Let
    } else if t == "true"@ {
        TokenType::True
    } else if t == "false"@ {
        TokenType::False
    } else if t == "if"@ {
        TokenType::If
    } else if t == "else"@ {
        TokenType::Else
    } else if t == "return"@ {
        TokenType::Return
    } else {
        TokenType::Ident
    }
}

/// The kind of a one-character token.
pub open spec fn punct_kind(c: char) -> TokenType {
    if c == '=' {
        TokenType::Assign
    } else if c == '+' {
        TokenType::Plus
    } else if c == '-' {
        TokenType::Minus
    } else if c == '!' {
        TokenType::Bang
    } else if c == '/' {
        TokenType::Slash
    } else if c == '*' {
        TokenType::Asterisk
    } else if c == '<' {
        TokenType::Lt
    } else if c == '>' {
        TokenType::Gt
    } else if c == ';' {
        TokenType::Semicolon
    } else if c == '(' {
        TokenType::Lparen
    } else if c == ')' {
        TokenType::Rparen
    } else if c == ',' {
        TokenType::Comma
    } else if c == '{' {
        TokenType::Lbrace
    } else if c == '}' {
        TokenType::Rbrace
    } else {
        TokenType::Illegal
    }
}

/// Where the token that starts at the non-blank position `q` ends.
pub open spec fn lexeme_end(s: Seq<char>, q: int) -> int {
    let c = s[q];
    if (c == '=' || c == '!') && q + 1 < s.len() && s[q + 1] == '=' {
        q + 2
    } else if is_letter(c) {
        word_end(s, q + 1)
    } else if is_digit(c) {
        digits_end(s, q + 1)
    } else {
        q + 1
    }
}

/// The kind of a scanned, non-empty token text.
pub open spec fn lexeme_kind(t: Seq<char>) -> TokenType {
    if is_letter(t[0]) {
        keyword_kind(t)
    } else if is_digit(t[0]) {
        TokenType::Int
    } else if t.len() == 2 && t[0] == '=' {
        TokenType::Eq
    } else if t.len() == 2 {
        TokenType::NotEq
    } else {
        punct_kind(t[0])
    }
}

/// The token scanned from position `p` of `s`, and the position just after it.
/// At the end of the input this is the end-of-input token, which consumes nothing.
#[verifier::opaque]
pub open spec fn next_lexeme(s: Seq<char>, p: int) -> (Lexeme, int) {
    let q = skip_whitespace(s, p);
    if q >= s.len() {
        (Lexeme { kind: TokenType::Eof, text: Seq::empty() }, q)
    } else {
        let end = lexeme_end(s, q);
        let text = s.subrange(q, end);
        (Lexeme { kind: lexeme_kind(text), text }, end)
    }
}

/// The position reached after scanning `k` tokens of `s` from position `base`.
pub open spec fn pos_after(s: Seq<char>, base: int, k: nat) -> int
    decreases k,
{
    if k == 0 {
        base
    } else {
        next_lexeme(s, pos_after(s, base, (k - 1) as nat)).1
    }
}

/// The `k`-th token (counting from 0) of `s` scanned from position `base`. Past the end every
/// token is end-of-input.
#[verifier::opaque]
pub open spec fn token_at(s: Seq<char>, base: int, k: nat) -> Lexeme {
    next_lexeme(s, pos_after(s, base, k)).0
}

pub open spec fn kind_at(s: Seq<char>, base: int, k: nat) -> TokenType {
    token_at(s, base, k).kind
}

pub proof fn lemma_skip_whitespace(s: Seq<char>, p: int)
    requires
        0 <= p <= s.len(),
    ensures
        p <= skip_whitespace(s, p) <= s.len(),
        skip_whitespace(s, p) < s.len() ==> !is_whitespace(s[skip_whitespace(s, p)]),
    decreases s.len() - p,
{
    if p < s.len() && is_whitespace(s[p]) {
        lemma_skip_whitespace(s, p + 1);
    }
}

pub proof fn lemma_word_end(s: Seq<char>, p: int)
    requires
        0 <= p <= s.len(),
    ensures
        p <= word_end(s, p) <= s.len(),
    decreases s.len() - p,
{
    if p < s.len() && is_word_char(s[p]) {
        lemma_word_end(s, p + 1);
    }
}

proof fn lemma_digits_end(s: Seq<char>, p: int)
    requires
        0 <= p <= s.len(),
    ensures
        p <= digits_end(s, p) <= s.len(),
    decreases s.len() - p,
{
    if p < s.len() && is_digit(s[p]) {
        lemma_digits_end(s, p + 1);
    }
}

/// One scanning step stays inside the input, and moves forward unless it reports end of input.
pub proof fn lemma_next_lexeme(s: Seq<char>, p: int)
    requires
        0 <= p <= s.len(),
    ensures
        p <= next_lexeme(s, p).1 <= s.len(),
        next_lexeme(s, p).0.kind == TokenType::Eof ==> next_lexeme(s, p).1 == s.len(),
        next_lexeme(s, p).0.kind != TokenType::Eof ==> next_lexeme(s, p).1 > p,
        next_lexeme(s, s.len() as int).0.kind == TokenType::Eof,
        next_lexeme(s, s.len() as int).1 == s.len(),
{
    reveal(next_lexeme);
    lemma_skip_whitespace(s, p);
    let q = skip_whitespace(s, p);
    if q < s.len() {
        lemma_word_end(s, q + 1);
        lemma_digits_end(s, q + 1);
        let end = lexeme_end(s, q);
        let text = s.subrange(q, end);
        assert(text[0] == s[q]);
        if is_letter(s[q]) {
            assert(keyword_kind(text) != TokenType::Eof);
        }
    }
}

/// The positions reached by scanning stay inside the input; they move forward while tokens
/// are not end-of-input, and once the end-of-input token is reached it is repeated forever.
pub proof fn lemma_pos_after(s: Seq<char>, base: int, k: nat)
    requires
        0 <= base <= s.len(),
    ensures
        base <= pos_after(s, base, k) <= s.len(),
        kind_at(s, base, k) != TokenType::Eof ==> pos_after(s, base, k + 1) > pos_after(s, base, k),
        kind_at(s, base, k) == TokenType::Eof ==> pos_after(s, base, k + 1) == s.len() && kind_at(
            s,
            base,
            k + 1,
        ) == TokenType::Eof,
        kind_at(s, base, k) != TokenType::Eof ==> base + k < pos_after(s, base, k + 1),
    decreases k,
{
    reveal(token_at);
    if k > 0 {
        lemma_pos_after(s, base, (k - 1) as nat);
        lemma_next_lexeme(s, pos_after(s, base, (k - 1) as nat));
    }
    lemma_next_lexeme(s, pos_after(s, base, k));
    lemma_next_lexeme(s, s.len() as int);
    if k > 0 && kind_at(s, base, k) != TokenType::Eof {
        assert(kind_at(s, base, (k - 1) as nat) != TokenType::Eof);
    }
}

/// Every token at or past index `s.len()` of the stream is end-of-input.
pub proof fn lemma_eof_from(s: Seq<char>, base: int, k: nat)
    requires
        0 <= base <= s.len(),
        k >= s.len(),
    ensures
        kind_at(s, base, k) == TokenType::Eof,
{
    lemma_pos_after(s, base, k);
    lemma_pos_after(s, base, k + 1);
}

/// Once the stream reports end of input, it reports it for every later token.
pub proof fn lemma_eof_sticky(s: Seq<char>, base: int, j: nat, k: nat)
    requires
        0 <= base <= s.len(),
        j <= k,
        kind_at(s, base, j) == TokenType::Eof,
    ensures
        kind_at(s, base, k) == TokenType::Eof,
    decreases k - j,
{
    if j < k {
        lemma_pos_after(s, base, j);
        lemma_eof_sticky(s, base, j + 1, k);
    }
}

proof fn lemma_digits_all(s: Seq<char>, p: int)
    requires
        0 <= p <= s.len(),
    ensures
        forall|i: int| p <= i < digits_end(s, p) ==> is_digit(s[i]),
    decreases s.len() - p,
{
    if p < s.len() && is_digit(s[p]) {
        lemma_digits_all(s, p + 1);
    }
}

/// The text of an integer token is a non-empty run of decimal digits.
pub proof fn lemma_int_token_digits(s: Seq<char>, base: int, k: nat)
    requires
        0 <= base <= s.len(),
        kind_at(s, base, k) == TokenType::Int,
    ensures
        token_at(s, base, k).text.len() > 0,
        forall|i: int|
            0 <= i < token_at(s, base, k).text.len() ==> is_digit(#[trigger] token_at(s, base, k).text[i]),
{
    reveal(token_at);
    reveal(next_lexeme);
    lemma_pos_after(s, base, k);
    let p = pos_after(s, base, k);
    lemma_skip_whitespace(s, p);
    let q = skip_whitespace(s, p);
    lemma_word_end(s, q + 1);
    lemma_digits_end(s, q + 1);
    lemma_digits_all(s, q + 1);
    let text = token_at(s, base, k).text;
    assert(text[0] == s[q]);
}

/// A scanner over an owned source text, with a cursor counted in characters.
#[derive(Debug)]
pub struct Lexer {
    input: String,
    position: usize,
    len: usize,
}

impl Lexer {
    /// The source text being scanned.
    pub closed spec fn source(&self) -> Seq<char> {
        self.input@
    }

    /// The cursor: the index of the current character.
    pub closed spec fn pos(&self) -> int {
        self.position as int
    }

    pub closed spec fn wf(&self) -> bool {
        self.len == self.input@.len() && self.position <= self.len
    }

    pub proof fn lemma_wf(&self)
        requires
            self.wf(),
        ensures
            0 <= self.pos() <= self.source().len(),
            self.source().len() <= usize::MAX,
    {
    }

    pub fn new(input: String) -> (r: Lexer)
        ensures
            r.wf(),
            r.source() == input@,
            r.pos() == 0,
    {
        let len = input.as_str().unicode_len();
        Lexer { input, position: 0, len }
    }

    /// The current character, or `None` at the end of the input.
    pub fn ch(&self) -> (r: Option<char>)
        requires
            self.wf(),
        ensures
            r == (if self.pos() < self.source().len() {
                Some(self.source()[self.pos()])
            } else {
                None
            }),
    {
        if self.position < self.len {
            Some(self.input.as_str().get_char(self.position))
        } else {
            None
        }
    }

    /// The character after the current one, or `None` if there is none.
    pub fn peek_char(&self) -> (r: Option<char>)
        requires
            self.wf(),
        ensures
            r == (if self.pos() + 1 < self.source().len() {
                Some(self.source()[self.pos() + 1])
            } else {
                None
            }),
    {
        if self.position < self.len && self.position + 1 < self.len {
            Some(self.input.as_str().get_char(self.position + 1))
        } else {
            None
        }
    }

    /// Moves the cursor one character forward; at the end of the input it stays there.
    pub fn read_char(&mut self)
        requires
            old(self).wf(),
        ensures
            final(self).wf(),
            final(self).source() == old(self).source(),
            final(self).pos() == (if old(self).pos() < old(self).source().len() {
                old(self).pos() + 1
            } else {
                old(self).pos()
            }),
    {
        if self.position < self.len {
            self.position = self.position + 1;
        }
    }

    fn skip_whitespace(&mut self)
        requires
            old(self).wf(),
        ensures
            final(self).wf(),
            final(self).source() == old(self).source(),
            final(self).pos() == skip_whitespace(old(self).source(), old(self).pos()),
    {
        loop
            invariant
                self.wf(),
                self.source() == old(self).source(),
                skip_whitespace(self.source(), self.pos()) == skip_whitespace(
                    old(self).source(),
                    old(self).pos(),
                ),
            decreases self.len - self.position,
        {
            match self.ch() {
                Some(c) => {
                    if c == ' ' || c == '\t' || c == '\n' || c == '\r' {
                        self.read_char();
                    } else {
                        return;
                    }
                },
                None => {
                    return;
                },
            }
        }
    }

    fn at_word_char(&self) -> (r: bool)
        requires
            self.wf(),
        ensures
            r == (self.pos() < self.source().len() && is_word_char(self.source()[self.pos()])),
    {
        match self.ch() {
            Some(c) => ('a' <= c && c <= 'z') || ('A' <= c && c <= 'Z') || ('0' <= c && c <= '9'),
            None => false,
        }
    }

    fn at_digit(&self) -> (r: bool)
        requires
            self.wf(),
        ensures
            r == (self.pos() < self.source().len() && is_digit(self.source()[self.pos()])),
    {
        match self.ch() {
            Some(c) => '0' <= c && c <= '9',
            None => false,
        }
    }

    /// Scans an identifier or keyword: the current character, which must be a letter or `_`,
    /// and the maximal run of ASCII letters and digits after it.
    pub fn read_ident_literal(&mut self) -> (r: String)
        requires
            old(self).wf(),
            old(self).pos() < old(self).source().len(),
            is_letter(old(self).source()[old(self).pos()]),
        ensures
            final(self).wf(),
            final(self).source() == old(self).source(),
            final(self).pos() == word_end(old(self).source(), old(self).pos() + 1),
            r@ == old(self).source().subrange(old(self).pos(), final(self).pos()),
    {
        let start = self.position;
        self.read_char();
        while self.at_word_char()
            invariant
                self.wf(),
                self.source() == old(self).source(),
                start < self.pos(),
                start == old(self).pos(),
                word_end(self.source(), self.pos()) == word_end(old(self).source(), start + 1),
            decreases self.len - self.position,
        {
            self.read_char();
        }
        String::from_str(self.input.as_str().substring_char(start, self.position))
    }

    /// Scans an integer literal: the maximal run of digits from the current character, which
    /// must be a digit.
    pub fn read_int_literal(&mut self) -> (r: String)
        requires
            old(self).wf(),
            old(self).pos() < old(self).source().len(),
            is_digit(old(self).source()[old(self).pos()]),
        ensures
            final(self).wf(),
            final(self).source() == old(self).source(),
            final(self).pos() == digits_end(old(self).source(), old(self).pos() + 1),
            r@ == old(self).source().subrange(old(self).pos(), final(self).pos()),
    {
        let start = self.position;
        self.read_char();
        while self.at_digit()
            invariant
                self.wf(),
                self.source() == old(self).source(),
                start < self.pos(),
                start == old(self).pos(),
                digits_end(self.source(), self.pos()) == digits_end(old(self).source(), start + 1),
            decreases self.len - self.position,
        {
            self.read_char();
        }
        String::from_str(self.input.as_str().substring_char(start, self.position))
    }

    /// Scans the next token and moves past it. At the end of the input it yields the
    /// end-of-input token, again on every later call.
    pub fn next_token(&mut self) -> (r: Token)
        requires
            old(self).wf(),
        ensures
            final(self).wf(),
            final(self).source() == old(self).source(),
            (r@, final(self).pos()) == next_lexeme(old(self).source(), old(self).pos()),
    {
        self.skip_whitespace();
        let q = self.position;
        let ghost s = self.source();
        proof {
            reveal(next_lexeme);
            lemma_skip_whitespace(s, old(self).pos());
            if q < s.len() {
                lemma_word_end(s, q + 1);
                lemma_digits_end(s, q + 1);
            }
        }
        match self.ch() {
            None => Token::from_string(TokenType::Eof, String::new()),
            Some(c) => {
                if ('a' <= c && c <= 'z') || ('A' <= c && c <= 'Z') || c == '_' {
                    let text = self.read_ident_literal();
                    let kind = word_kind(text.as_str());
                    proof {
                        assert(text@[0] == c);
                    }
                    Token::from_string(kind, text)
                } else if '0' <= c && c <= '9' {
                    let text = self.read_int_literal();
                    proof {
                        assert(text@[0] == c);
                    }
                    Token::from_string(TokenType::Int, text)
                } else {
                    let two = match self.peek_char() {
                        Some(d) => (c == '=' || c == '!') && d == '=',
                        None => false,
                    };
                    if two {
                        self.read_char();
                    }
                    self.read_char();
                    let text = String::from_str(self.input.as_str().substring_char(q, self.position));
                    let kind = if two {
                        if c == '=' {
                            TokenType::Eq
                        } else {
                            TokenType::NotEq
                        }
                    } else {
                        single_kind(c)
                    };
                    proof {
                        assert(text@[0] == c);
                        if two {
                            assert(text@.len() == 2);
                        } else {
                            assert(text@.len() == 1);
                        }
                    }
                    Token::from_string(kind, text)
                }
            },
        }
    }
}

/// Whether two texts are equal, character by character.
fn same_text(a: &str, b: &str) -> (r: bool)
    ensures
        r == (a@ == b@),
{
    let n = a.unicode_len();
    if n != b.unicode_len() {
        return false;
    }
    let mut i: usize = 0;
    while i < n
        invariant
            n == a@.len(),
            n == b@.len(),
            i <= n,
            a@.subrange(0, i as int) == b@.subrange(0, i as int),
        decreases n - i,
    {
        if a.get_char(i) != b.get_char(i) {
            assert(a@[i as int] != b@[i as int]);
            return false;
        }
        assert(a@.subrange(0, i + 1) == a@.subrange(0, i as int).push(a@[i as int]));
        assert(b@.subrange(0, i + 1) == b@.subrange(0, i as int).push(b@[i as int]));
        i = i + 1;
    }
    assert(a@ == a@.subrange(0, n as int));
    assert(b@ == b@.subrange(0, n as int));
    true
}

/// The kind of a scanned word: a keyword, or an identifier.
fn word_kind(t: &str) -> (r: TokenType)
    ensures
        r == keyword_kind(t@),
{
    if same_text(t, "fn") {
        TokenType::Function
    } else if same_text(t, "let") {
        TokenType::Let
    } else if same_text(t, "true") {
        TokenType::True
    } else if same_text(t, "false") {
        TokenType::False
    } else if same_text(t, "if") {
        TokenType::If
    } else if same_text(t, "else") {
        TokenType::Else
    } else if same_text(t, "return") {
        TokenType::Return
    } else {
        TokenType::Ident
    }
}

/// The kind of a one-character token.
fn single_kind(c: char) -> (r: TokenType)
    ensures
        r == punct_kind(c),
{
    match c {
        '=' => TokenType::Assign,
        '+' => TokenType::Plus,
        '-' => TokenType::Minus,
        '!' => TokenType::Bang,
        '/' => TokenType::Slash,
        '*' => TokenType::Asterisk,
        '<' => TokenType::Lt,
        '>' => TokenType::Gt,
        ';' => TokenType::Semicolon,
        '(' => TokenType::Lparen,
        ')' => TokenType::Rparen,
        ',' => TokenType::Comma,
        '{' => TokenType::Lbrace,
        '}' => TokenType::Rbrace,
        _ => TokenType::Illegal,
    }
}

/// Scans the whole input: every token in order, ending with the one end-of-input token.
pub fn tokenize(input: String) -> (r: Vec<Token>)
    ensures
        r@.len() >= 1,
        r@[r@.len() - 1]@.kind == TokenType::Eof,
        forall|i: int| 0 <= i < r@.len() ==> #[trigger] r@[i]@ == token_at(input@, 0, i as nat),
        forall|i: int| 0 <= i < r@.len() - 1 ==> #[trigger] r@[i]@.kind != TokenType::Eof,
{
    let ghost s = input@;
    let mut lexer = Lexer::new(input);
    let mut out: Vec<Token> = Vec::new();
    let mut done = false;
    proof {
        lexer.lemma_wf();
    }
    while !done
        invariant
            lexer.wf(),
            lexer.source() == s,
            forall|i: int| 0 <= i < out@.len() ==> #[trigger] out@[i]@ == token_at(s, 0, i as nat),
            !done ==> lexer.pos() == pos_after(s, 0, out@.len()),
            !done ==> forall|i: int| 0 <= i < out@.len() ==> #[trigger] out@[i]@.kind != TokenType::Eof,
            done ==> out@.len() >= 1 && out@[out@.len() - 1]@.kind == TokenType::Eof,
            done ==> forall|i: int| 0 <= i < out@.len() - 1 ==> #[trigger] out@[i]@.kind != TokenType::Eof,
        decreases (if done { 0 } else { 1 + s.len() - lexer.pos() }),
    {
        proof {
            lexer.lemma_wf();
            reveal(token_at);
            lemma_pos_after(s, 0, out@.len() as nat);
        }
        let t = lexer.next_token();
        let is_end = t.token_type == TokenType::Eof;
        out.push(t);
        if is_end {
            done = true;
        }
    }
    out
}

/// Scanning is total: whatever the input, the token stream reaches end of input within as
/// many tokens as the input has characters, and stays there.
pub proof fn lemma_tokenization_total(s: Seq<char>, k: nat)
    requires
        k >= s.len(),
    ensures
        kind_at(s, 0, k) == TokenType::Eof,
        kind_at(s, 0, s.len() as nat) == TokenType::Eof,
{
    lemma_eof_from(s, 0, k);
    lemma_eof_from(s, 0, s.len() as nat);
}

} // verus!
