//! The lexer: a single forward pass that turns source text into tokens.

use vstd::prelude::*;
use vstd::string::*;

use crate::text::{decimal_digit, is_decimal_digit};
use crate::token::{Token, TokenKind, TokenModel};

verus! {

/// What `char::is_alphabetic` returns for a character: whether Unicode gives
/// it the property Alphabetic.
pub uninterp spec fn is_alphabetic(c: char) -> bool;

/// Calls `char::is_alphabetic`. Its result depends on the character alone,
/// through tables that are part of the standard library; the contract only
/// gives that result its name.
#[verifier::external_body]
fn alphabetic(c: char) -> (res: bool)
    ensures
        res == is_alphabetic(c),
{
    c.is_alphabetic()
}

/// The characters that separate tokens.
pub open spec fn is_space(c: char) -> bool {
    c == ' ' || c == '\t' || c == '\n' || c == '\r'
}

/// The kind of the token that a single character is, for the characters that
/// are a token by themselves wherever they stand.
pub open spec fn single(c: char) -> Option<TokenKind> {
    if c == '+' {
        Some(TokenKind::Plus)
    } else if c == '-' {
        Some(TokenKind::Minus)
    } else if c == '*' {
        Some(TokenKind::Asterisk)
    } else if c == '/' {
        Some(TokenKind::Slash)
    } else if c == '<' {
        Some(TokenKind::Lt)
    } else if c == '>' {
        Some(TokenKind::Gt)
    } else if c == ';' {
        Some(TokenKind::Semicolon)
    } else if c == '(' {
        Some(TokenKind::Lparen)
    } else if c == ')' {
        Some(TokenKind::Rparen)
    } else if c == ',' {
        Some(TokenKind::Comma)
    } else if c == '{' {
        Some(TokenKind::Lbrace)
    } else if c == '}' {
        Some(TokenKind::Rbrace)
    } else {
        None
    }
}

/// The kind of an alphabetic word: one of the seven keywords, or an
/// identifier.
pub open spec fn word_kind(word: Seq<char>) -> TokenKind {
    if word == "let"@ {
        TokenKind::Let
    } else if word == "fn"@ {
        TokenKind::Function
    } else if word == "if"@ {
        TokenKind::If
    } else if word == "else"@ {
        TokenKind::Else
    } else if word == "true"@ {
        TokenKind::True
    } else if word == "false"@ {
        TokenKind::False
    } else if word == "return"@ {
        TokenKind::Return
    } else {
        TokenKind::Ident
    }
}

/// The first position at or after `pos` that holds no separator.
pub open spec fn skip_spaces(s: Seq<char>, pos: nat) -> nat
    decreases s.len() - pos,
{
    if pos < s.len() && is_space(s[pos as int]) {
        skip_spaces(s, pos + 1)
    } else {
        pos
    }
}

/// The end of the longest run of alphabetic characters that starts at `pos`.
pub open spec fn letters_end(s: Seq<char>, pos: nat) -> nat
    decreases s.len() - pos,
{
    if pos < s.len() && is_alphabetic(s[pos as int]) {
        letters_end(s, pos + 1)
    } else {
        pos
    }
}

/// The end of the longest run of digits that starts at `pos`.
pub open spec fn digits_end(s: Seq<char>, pos: nat) -> nat
    decreases s.len() - pos,
{
    if pos < s.len() && is_decimal_digit(s[pos as int]) {
        digits_end(s, pos + 1)
    } else {
        pos
    }
}

/// The position just behind the token that starts at `pos`.
pub open spec fn token_end(s: Seq<char>, pos: nat) -> nat
    recommends
        pos < s.len(),
{
    let c = s[pos as int];
    if (c == '=' || c == '!') && pos + 1 < s.len() && s[(pos + 1) as int] == '=' {
        pos + 2
    } else if is_decimal_digit(c) {
        digits_end(s, pos)
    } else if c != '=' && c != '!' && single(c) is None && is_alphabetic(c) {
        letters_end(s, pos)
    } else {
        pos + 1
    }
}

/// The kind of the token that starts at `pos`.
pub open spec fn token_kind(s: Seq<char>, pos: nat) -> TokenKind
    recommends
        pos < s.len(),
{
    let c = s[pos as int];
    if c == '=' {
        if pos + 1 < s.len() && s[(pos + 1) as int] == '=' {
            TokenKind::Eq
        } else {
            TokenKind::Assign
        }
    } else if c == '!' {
        if pos + 1 < s.len() && s[(pos + 1) as int] == '=' {
            TokenKind::NotEq
        } else {
            TokenKind::Bang
        }
    } else if single(c) is Some {
        single(c).unwrap()
    } else if is_decimal_digit(c) {
        TokenKind::Int
    } else if is_alphabetic(c) {
        word_kind(s.subrange(pos as int, letters_end(s, pos) as int))
    } else {
        TokenKind::Illegal
    }
}

/// The token that starts at `pos`: its kind, and the text from `pos` to its
/// end.
pub open spec fn token_at(s: Seq<char>, pos: nat) -> TokenModel
    recommends
        pos < s.len(),
{
    TokenModel { kind: token_kind(s, pos), val: s.subrange(pos as int, token_end(s, pos) as int) }
}

/// A run ends at or after its start and within the text.
pub proof fn lemma_run_bounds(s: Seq<char>, pos: nat)
    requires
        pos <= s.len(),
    ensures
        pos <= skip_spaces(s, pos) <= s.len(),
        pos <= letters_end(s, pos) <= s.len(),
        pos <= digits_end(s, pos) <= s.len(),
        pos < s.len() && is_alphabetic(s[pos as int]) ==> pos < letters_end(s, pos),
        pos < s.len() && is_decimal_digit(s[pos as int]) ==> pos < digits_end(s, pos),
        skip_spaces(s, pos) < s.len() ==> !is_space(s[skip_spaces(s, pos) as int]),
    decreases s.len() - pos,
{
    if pos < s.len() {
        lemma_run_bounds(s, pos + 1);
    }
}

/// A token is not empty and ends within the text.
pub proof fn lemma_token_bounds(s: Seq<char>, pos: nat)
    requires
        pos < s.len(),
    ensures
        pos < token_end(s, pos) <= s.len(),
{
    lemma_run_bounds(s, pos);
}

/// The tokens of the text from `pos` on, in order.
pub open spec fn tokens_from(s: Seq<char>, pos: nat) -> Seq<TokenModel>
    decreases s.len() - pos,
{
    let start = skip_spaces(s, pos);
    if pos <= start < s.len() {
        if start < token_end(s, start) <= s.len() {
            seq![token_at(s, start)] + tokens_from(s, token_end(s, start))
        } else {
            seq![token_at(s, start)]
        }
    } else {
        Seq::empty()
    }
}

/// The tokens of a text, in order.
pub open spec fn tokens(s: Seq<char>) -> Seq<TokenModel> {
    tokens_from(s, 0)
}

/// The tokens from a position on are the token that starts behind the
/// separators, followed by the tokens from its end on.
pub proof fn lemma_tokens_unfold(s: Seq<char>, pos: nat)
    requires
        pos <= s.len(),
    ensures
        skip_spaces(s, pos) >= s.len() ==> tokens_from(s, pos) == Seq::<TokenModel>::empty(),
        skip_spaces(s, pos) < s.len() ==> tokens_from(s, pos) == seq![
            token_at(s, skip_spaces(s, pos)),
        ] + tokens_from(s, token_end(s, skip_spaces(s, pos))),
{
    lemma_run_bounds(s, pos);
    if skip_spaces(s, pos) < s.len() {
        lemma_token_bounds(s, skip_spaces(s, pos));
    }
}

/// A lexer over one source text.
pub struct Lexer {
    input: String,
    length: usize,
    position: usize,
}

impl Lexer {
    /// The position is within the text, whose length is known.
    #[verifier::type_invariant]
    spec fn wf(&self) -> bool {
        &&& self.length == self.input@.len()
        &&& self.position <= self.length
    }

    /// The tokens that are still to come.
    pub closed spec fn remaining(&self) -> Seq<TokenModel> {
        tokens_from(self.input@, self.position as nat)
    }

    /// A lexer at the start of `input`.
    pub fn new(input: &str) -> (res: Lexer)
        ensures
            res.remaining() == tokens(input@),
    {
        Lexer { input: String::from_str(input), length: input.unicode_len(), position: 0 }
    }

    /// Steps over the separators at the current position.
    fn consume_whitespace(&mut self)
        ensures
            final(self).input == old(self).input,
            final(self).position == skip_spaces(old(self).input@, old(self).position as nat),
    {
        proof {
            use_type_invariant(&*self);
            lemma_run_bounds(self.input@, self.position as nat);
        }
        while self.position < self.length && Self::space(
            self.input.as_str().get_char(self.position),
        )
            invariant
                self.wf(),
                self.input == old(self).input,
                skip_spaces(self.input@, self.position as nat) == skip_spaces(
                    old(self).input@,
                    old(self).position as nat,
                ),
            decreases self.length - self.position,
        {
            self.position = self.position + 1;
        }
    }

    /// Whether a character separates tokens.
    fn space(c: char) -> (res: bool)
        ensures
            res == is_space(c),
    {
        c == ' ' || c == '\t' || c == '\n' || c == '\r'
    }

    /// The kind of the token that a character is by itself, if it is one.
    fn single_kind(c: char) -> (res: Option<TokenKind>)
        ensures
            res == single(c),
    {
        if c == '+' {
            Some(TokenKind::Plus)
        } else if c == '-' {
            Some(TokenKind::Minus)
        } else if c == '*' {
            Some(TokenKind::Asterisk)
        } else if c == '/' {
            Some(TokenKind::Slash)
        } else if c == '<' {
            Some(TokenKind::Lt)
        } else if c == '>' {
            Some(TokenKind::Gt)
        } else if c == ';' {
            Some(TokenKind::Semicolon)
        } else if c == '(' {
            Some(TokenKind::Lparen)
        } else if c == ')' {
            Some(TokenKind::Rparen)
        } else if c == ',' {
            Some(TokenKind::Comma)
        } else if c == '{' {
            Some(TokenKind::Lbrace)
        } else if c == '}' {
            Some(TokenKind::Rbrace)
        } else {
            None
        }
    }

    /// The kind of a word: one of the seven keywords where the word is one,
    /// an identifier for any other word.
    pub fn keyword_or_identifier(word: &String) -> (res: TokenKind)
        ensures
            res == word_kind(word@),
    {
        if *word == String::from_str("let") {
            TokenKind::Let
        } else if *word == String::from_str("fn") {
            TokenKind::Function
        } else if *word == String::from_str("if") {
            TokenKind::If
        } else if *word == String::from_str("else") {
            TokenKind::Else
        } else if *word == String::from_str("true") {
            TokenKind::True
        } else if *word == String::from_str("false") {
            TokenKind::False
        } else if *word == String::from_str("return") {
            TokenKind::Return
        } else {
            TokenKind::Ident
        }
    }

    /// Whether the character behind the current one is `=`.
    fn peak_char_is_assign(&self) -> (res: bool)
        ensures
            res == (self.position + 1 < self.input@.len() && self.input@[self.position + 1] == '='),
    {
        proof {
            use_type_invariant(self);
        }
        self.position < self.length && self.position + 1 < self.length
            && self.input.as_str().get_char(self.position + 1) == '='
    }

    /// The end of the run of alphabetic characters at the current position.
    fn read_itentifier(&self) -> (res: usize)
        ensures
            res == letters_end(self.input@, self.position as nat),
            self.position <= res <= self.input@.len(),
    {
        proof {
            use_type_invariant(self);
            lemma_run_bounds(self.input@, self.position as nat);
        }
        let mut end: usize = self.position;
        while end < self.length && alphabetic(self.input.as_str().get_char(end))
            invariant
                self.wf(),
                self.position <= end <= self.length,
                letters_end(self.input@, end as nat) == letters_end(
                    self.input@,
                    self.position as nat,
                ),
            decreases self.length - end,
        {
            end = end + 1;
        }
        end
    }

    /// The end of the run of digits at the current position.
    fn read_number(&self) -> (res: usize)
        ensures
            res == digits_end(self.input@, self.position as nat),
            self.position <= res <= self.input@.len(),
    {
        proof {
            use_type_invariant(self);
            lemma_run_bounds(self.input@, self.position as nat);
        }
        let mut end: usize = self.position;
        while end < self.length && decimal_digit(self.input.as_str().get_char(end))
            invariant
                self.wf(),
                self.position <= end <= self.length,
                digits_end(self.input@, end as nat) == digits_end(self.input@, self.position as nat),
            decreases self.length - end,
        {
            end = end + 1;
        }
        end
    }

    /// The next token, or `None` at the end of the text. After the end every
    /// call returns `None`.
    pub fn next_token(&mut self) -> (res: Option<Token>)
        ensures
            match res {
                Some(token) => {
                    &&& old(self).remaining().len() > 0
                    &&& token@ == old(self).remaining()[0]
                    &&& final(self).remaining() == old(self).remaining().drop_first()
                },
                None => {
                    &&& old(self).remaining().len() == 0
                    &&& final(self).remaining().len() == 0
                },
            },
    {
        proof {
            use_type_invariant(&*self);
            lemma_tokens_unfold(self.input@, self.position as nat);
            lemma_run_bounds(self.input@, self.position as nat);
        }
        self.consume_whitespace();
        proof {
            use_type_invariant(&*self);
        }
        if self.position >= self.length {
            proof {
                lemma_tokens_unfold(self.input@, self.position as nat);
            }
            return None;
        }
        proof {
            lemma_token_bounds(self.input@, self.position as nat);
        }
        let start = self.position;
        let ch = self.input.as_str().get_char(start);
        let (kind, end) = if ch == '=' {
            if self.peak_char_is_assign() {
                (TokenKind::Eq, start + 2)
            } else {
                (TokenKind::Assign, start + 1)
            }
        } else if ch == '!' {
            if self.peak_char_is_assign() {
                (TokenKind::NotEq, start + 2)
            } else {
                (TokenKind::Bang, start + 1)
            }
        } else {
            match Self::single_kind(ch) {
                Some(kind) => (kind, start + 1),
                None => {
                    if decimal_digit(ch) {
                        (TokenKind::Int, self.read_number())
                    } else if alphabetic(ch) {
                        let end = self.read_itentifier();
                        let word = String::from_str(
                            self.input.as_str().substring_char(start, end),
                        );
                        (Self::keyword_or_identifier(&word), end)
                    } else {
                        (TokenKind::Illegal, start + 1)
                    }
                },
            }
        };
        let val = String::from_str(self.input.as_str().substring_char(start, end));
        self.position = end;
        let token = Token { kind, val };
        proof {
            let first = token_at(old(self).input@, start as nat);
            let rest = tokens_from(old(self).input@, end as nat);
            assert((seq![first] + rest).drop_first() =~= rest);
        }
        Some(token)
    }
}

} // verus!
