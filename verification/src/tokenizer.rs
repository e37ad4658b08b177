//! The tokenizer: from a text to the words, numbers, parentheses and commas
//! that it holds.

use vstd::prelude::*;
use crate::error::ParseError;
use crate::number::{is_decimal, is_digit, Number};
use crate::text::to_chars;

verus! {

/// What a token is, as a value of specifications: the model of a [`Token`],
/// and `Malformed` for a run of characters that starts like a number and is
/// no decimal literal.
pub enum Lexeme {
    Comma,
    Number(Seq<char>),
    ParenClose,
    ParenOpen,
    Word(Seq<char>),
    Malformed,
}

/// A token of a WKT text.
#[derive(PartialEq, Debug)]
pub enum Token {
    Comma,
    Number(Number),
    ParenClose,
    ParenOpen,
    Word(String),
}

impl View for Token {
    type V = Lexeme;

    open spec fn view(&self) -> Lexeme {
        match self {
            Token::Comma => Lexeme::Comma,
            Token::Number(n) => Lexeme::Number(n@),
            Token::ParenClose => Lexeme::ParenClose,
            Token::ParenOpen => Lexeme::ParenOpen,
            Token::Word(w) => Lexeme::Word(w@),
        }
    }
}

/// Line feed, carriage return, tab and space separate tokens.
pub open spec fn whitespace(c: char) -> bool {
    c == '\n' || c == '\r' || c == '\t' || c == ' '
}

/// The characters that end a word or a number: NUL, the parentheses, the
/// comma and whitespace.
pub open spec fn delimiter(c: char) -> bool {
    c == '\0' || c == '(' || c == ')' || c == ',' || whitespace(c)
}

/// Whether `char::is_numeric` holds of a character from 128 on: whether
/// Unicode, as the standard library knows it, puts the character in one of
/// its general categories for numbers.
pub uninterp spec fn unicode_numeric(c: char) -> bool;

/// The characters that Unicode counts among its numbers. Below 128 those are
/// the ten digits.
pub open spec fn numeric(c: char) -> bool {
    if (c as u32) < 128 {
        is_digit(c)
    } else {
        unicode_numeric(c)
    }
}

/// The characters that start a number token.
pub open spec fn numberlike(c: char) -> bool {
    numeric(c) || c == '.' || c == '-' || c == '+'
}

/// How many characters at the front of `s` come before its first delimiter.
pub open spec fn run_len(s: Seq<char>) -> nat
    decreases s.len(),
{
    if s.len() == 0 || delimiter(s[0]) {
        0
    } else {
        1 + run_len(s.drop_first())
    }
}

/// What is left of `s` after its leading run and, if whitespace ends the run,
/// after that one whitespace character.
pub open spec fn after_run(s: Seq<char>) -> Seq<char> {
    let n = run_len(s) as int;
    if n < s.len() && whitespace(s[n]) {
        s.skip(n + 1)
    } else {
        s.skip(n)
    }
}

/// `s` without its leading `+` signs.
pub open spec fn strip_plus(s: Seq<char>) -> Seq<char>
    decreases s.len(),
{
    if s.len() > 0 && s[0] == '+' {
        strip_plus(s.drop_first())
    } else {
        s
    }
}

/// The lexeme of a run that starts like a number.
pub open spec fn number_lexeme(run: Seq<char>) -> Lexeme {
    let literal = strip_plus(run);
    if is_decimal(literal) {
        Lexeme::Number(literal)
    } else {
        Lexeme::Malformed
    }
}

/// `s` without its leading whitespace.
pub open spec fn trim_start(s: Seq<char>) -> Seq<char>
    decreases s.len(),
{
    if s.len() > 0 && whitespace(s[0]) {
        trim_start(s.drop_first())
    } else {
        s
    }
}

/// One step of the tokenizer: the next lexeme, if there is one, and the
/// characters that are left.
pub struct Step {
    pub lexeme: Option<Lexeme>,
    pub rest: Seq<char>,
}

/// The step that the tokenizer takes on the characters `s`. Leading
/// whitespace is passed over. The text ends where the characters do or at a
/// NUL. Otherwise the class of the first character decides the lexeme.
pub open spec fn step(s: Seq<char>) -> Step {
    let t = trim_start(s);
    if t.len() == 0 || t[0] == '\0' {
        Step { lexeme: None, rest: t }
    } else if t[0] == '(' {
        Step { lexeme: Some(Lexeme::ParenOpen), rest: t.drop_first() }
    } else if t[0] == ')' {
        Step { lexeme: Some(Lexeme::ParenClose), rest: t.drop_first() }
    } else if t[0] == ',' {
        Step { lexeme: Some(Lexeme::Comma), rest: t.drop_first() }
    } else if numberlike(t[0]) {
        Step { lexeme: Some(number_lexeme(t.take(run_len(t) as int))), rest: after_run(t) }
    } else {
        Step { lexeme: Some(Lexeme::Word(t.take(run_len(t) as int))), rest: after_run(t) }
    }
}

/// A run is no longer than the text that it starts.
pub proof fn lemma_run_len_bound(s: Seq<char>)
    ensures
        run_len(s) <= s.len(),
    decreases s.len(),
{
    if s.len() > 0 && !delimiter(s[0]) {
        lemma_run_len_bound(s.drop_first());
    }
}

/// What is left of a text without its leading whitespace is no longer than
/// the text, and does not start with whitespace.
pub proof fn lemma_trim_start(s: Seq<char>)
    ensures
        trim_start(s).len() <= s.len(),
        trim_start(s).len() > 0 ==> !whitespace(trim_start(s)[0]),
    decreases s.len(),
{
    if s.len() > 0 && whitespace(s[0]) {
        lemma_trim_start(s.drop_first());
    }
}

/// A step never makes the text longer, and one that gives a lexeme makes it
/// shorter.
pub proof fn lemma_step_shrinks(s: Seq<char>)
    ensures
        step(s).rest.len() <= s.len(),
        step(s).lexeme is Some ==> step(s).rest.len() < s.len(),
{
    lemma_trim_start(s);
    let t = trim_start(s);
    if t.len() > 0 && !delimiter(t[0]) {
        lemma_run_len_bound(t);
    }
}

/// All the lexemes of a text, in order.
pub open spec fn lex(s: Seq<char>) -> Seq<Lexeme>
    decreases s.len(),
{
    let first = step(s);
    match first.lexeme {
        None => Seq::empty(),
        Some(lexeme) => {
            proof {
                lemma_step_shrinks(s);
            }
            seq![lexeme] + lex(first.rest)
        },
    }
}

/// How the lexemes of a text follow from one step: the step's lexeme comes
/// first and the lexemes of what the step leaves come after it; where the step
/// gives no lexeme, there are none, neither in the text nor in what is left.
/// Leading whitespace changes nothing.
pub proof fn lemma_lex_step(s: Seq<char>)
    ensures
        match step(s).lexeme {
            None => lex(s) == Seq::<Lexeme>::empty() && lex(step(s).rest) == Seq::<
                Lexeme,
            >::empty(),
            Some(lexeme) => lex(s) == seq![lexeme] + lex(step(s).rest),
        },
        lex(trim_start(s)) == lex(s),
{
    lemma_trim_start(s);
    let t = trim_start(s);
    assert(trim_start(t) == t);
    assert(step(t) == step(s));
}

/// A text of non-delimiters, followed by nothing or by a delimiter, is the
/// run at the front of the whole.
pub proof fn lemma_run_len_of(run: Seq<char>, rest: Seq<char>)
    requires
        forall|i: int| 0 <= i < run.len() ==> !delimiter(#[trigger] run[i]),
        rest.len() == 0 || delimiter(rest[0]),
    ensures
        run_len(run + rest) == run.len(),
        (run + rest).take(run.len() as int) == run,
        (run + rest).skip(run.len() as int) == rest,
    decreases run.len(),
{
    let s = run + rest;
    if run.len() > 0 {
        assert(s[0] == run[0]);
        assert(s.drop_first() =~= run.drop_first() + rest);
        lemma_run_len_of(run.drop_first(), rest);
    } else {
        assert(s =~= rest);
    }
    assert(s.take(run.len() as int) =~= run);
    assert(s.skip(run.len() as int) =~= rest);
}

/// Whitespace at the front of a text adds no lexeme.
pub proof fn law_lex_whitespace(c: char, rest: Seq<char>)
    requires
        whitespace(c),
    ensures
        lex(seq![c] + rest) == lex(rest),
{
    let s = seq![c] + rest;
    assert(s.drop_first() =~= rest);
    assert(trim_start(s) == trim_start(rest));
    lemma_lex_step(s);
    lemma_lex_step(rest);
}

/// A parenthesis or a comma at the front of a text is a lexeme of its own.
pub proof fn law_lex_punctuation(rest: Seq<char>)
    ensures
        lex(seq!['('] + rest) == seq![Lexeme::ParenOpen] + lex(rest),
        lex(seq![')'] + rest) == seq![Lexeme::ParenClose] + lex(rest),
        lex(seq![','] + rest) == seq![Lexeme::Comma] + lex(rest),
{
    assert((seq!['('] + rest).drop_first() =~= rest);
    assert((seq![')'] + rest).drop_first() =~= rest);
    assert((seq![','] + rest).drop_first() =~= rest);
}

/// A text without a character has no lexeme.
pub proof fn law_lex_empty()
    ensures
        lex(Seq::<char>::empty()) == Seq::<Lexeme>::empty(),
{
}

/// What is left after the run at the front of `run + rest` has the lexemes
/// of `rest`.
proof fn lemma_lex_after_run(run: Seq<char>, rest: Seq<char>)
    requires
        forall|i: int| 0 <= i < run.len() ==> !delimiter(#[trigger] run[i]),
        rest.len() == 0 || delimiter(rest[0]),
    ensures
        lex(after_run(run + rest)) == lex(rest),
{
    let s = run + rest;
    lemma_run_len_of(run, rest);
    let n = run.len() as int;
    if n < s.len() && whitespace(s[n]) {
        assert(s[n] == rest[0]);
        assert(s.skip(n + 1) =~= rest.drop_first());
        assert(seq![rest[0]] + rest.drop_first() =~= rest);
        law_lex_whitespace(rest[0], rest.drop_first());
    }
}

/// A run that starts like a word is one word lexeme: the whole run, however
/// it goes on, up to the delimiter.
pub proof fn law_lex_word(word: Seq<char>, rest: Seq<char>)
    requires
        word.len() > 0,
        forall|i: int| 0 <= i < word.len() ==> !delimiter(#[trigger] word[i]),
        !numberlike(word[0]),
        rest.len() == 0 || delimiter(rest[0]),
    ensures
        lex(word + rest) == seq![Lexeme::Word(word)] + lex(rest),
{
    let s = word + rest;
    assert(s[0] == word[0]);
    lemma_run_len_of(word, rest);
    lemma_lex_after_run(word, rest);
}

/// A run that starts like a number is one lexeme: the number that the run
/// writes behind its `+` signs, or `Malformed`.
pub proof fn law_lex_numberlike(run: Seq<char>, rest: Seq<char>)
    requires
        run.len() > 0,
        forall|i: int| 0 <= i < run.len() ==> !delimiter(#[trigger] run[i]),
        numberlike(run[0]),
        rest.len() == 0 || delimiter(rest[0]),
    ensures
        lex(run + rest) == seq![number_lexeme(run)] + lex(rest),
{
    let s = run + rest;
    assert(s[0] == run[0]);
    lemma_run_len_of(run, rest);
    lemma_lex_after_run(run, rest);
}

/// A decimal literal is a run that starts like a number, and it is the
/// number that it writes.
pub proof fn lemma_decimal_is_number(literal: Seq<char>)
    requires
        is_decimal(literal),
    ensures
        literal.len() > 0,
        forall|i: int| 0 <= i < literal.len() ==> !delimiter(#[trigger] literal[i]),
        numberlike(literal[0]),
        number_lexeme(literal) == Lexeme::Number(literal),
{
    if literal.len() > 0 && literal[0] == '-' {
        let body = literal.drop_first();
        assert forall|i: int| 0 <= i < literal.len() implies !delimiter(
            #[trigger] literal[i],
        ) by {
            if i > 0 {
                assert(literal[i] == body[i - 1]);
            }
        }
    }
}

/// A decimal literal at the front of a text, up to a delimiter, is one
/// number lexeme: the literal.
pub proof fn law_lex_number(literal: Seq<char>, rest: Seq<char>)
    requires
        is_decimal(literal),
        rest.len() == 0 || delimiter(rest[0]),
    ensures
        lex(literal + rest) == seq![Lexeme::Number(literal)] + lex(rest),
{
    lemma_decimal_is_number(literal);
    law_lex_numberlike(literal, rest);
}

/// Every number among the lexemes of a text is a decimal literal.
pub proof fn law_lex_numbers_are_decimal(s: Seq<char>, i: int)
    requires
        0 <= i < lex(s).len(),
    ensures
        lex(s)[i] matches Lexeme::Number(literal) ==> is_decimal(literal),
    decreases s.len(),
{
    lemma_step_shrinks(s);
    if i > 0 {
        law_lex_numbers_are_decimal(step(s).rest, i - 1);
    }
}

/// Whether a character is whitespace: a line feed, a carriage return, a tab
/// or a space.
pub fn is_whitespace(c: char) -> (r: bool)
    ensures
        r == whitespace(c),
{
    c == '\n' || c == '\r' || c == '\t' || c == ' '
}

/// `char::is_numeric`: whether the character is in one of Unicode's general
/// categories for numbers (Nd, Nl, No). Of the characters below 128 the ten
/// digits are, and no other.
#[verifier::external_body]
fn char_is_numeric(c: char) -> (r: bool)
    ensures
        (c as u32) < 128 ==> r == is_digit(c),
        (c as u32) >= 128 ==> r == unicode_numeric(c),
{
    c.is_numeric()
}

/// Whether a character starts a number token: whether it is a number to
/// Unicode, a point or a sign.
pub fn is_numberlike(c: char) -> (r: bool)
    ensures
        r == numberlike(c),
{
    char_is_numeric(c) || c == '.' || c == '-' || c == '+'
}

/// Whether a character ends a word or a number.
fn is_delimiter(c: char) -> (r: bool)
    ensures
        r == delimiter(c),
{
    c == '\0' || c == '(' || c == ')' || c == ',' || is_whitespace(c)
}

/// The token of a run that starts like a number: the run's leading `+` signs
/// are dropped, and what is left has to be a decimal literal.
fn number_token(run: &str) -> (r: Result<Token, ParseError>)
    ensures
        match number_lexeme(run@) {
            Lexeme::Malformed => r matches Err(ParseError::MalformedNumber),
            lexeme => r matches Ok(token) && token@ == lexeme,
        },
{
    let chars = to_chars(run);
    let mut start: usize = 0;
    assert(chars@.skip(0) =~= chars@);
    while start < chars.len() && chars[start] == '+'
        invariant
            start <= chars.len(),
            strip_plus(chars@) == strip_plus(chars@.skip(start as int)),
        decreases chars.len() - start,
    {
        assert(chars@.skip(start as int).drop_first() =~= chars@.skip(start + 1));
        start = start + 1;
    }
    assert(strip_plus(chars@) =~= chars@.subrange(start as int, chars.len() as int));
    match Number::from_chars(&chars, start, chars.len()) {
        Some(number) => Ok(Token::Number(number)),
        None => Err(ParseError::MalformedNumber),
    }
}

/// The tokenizer over one text. It gives the text's tokens one by one, from
/// the front; its model is the characters that it has not read yet.
pub struct Tokens {
    text: Vec<char>,
    pos: usize,
}

impl View for Tokens {
    type V = Seq<char>;

    /// The characters not read yet.
    closed spec fn view(&self) -> Seq<char> {
        self.text@.skip(self.pos as int)
    }
}

impl Tokens {
    #[verifier::type_invariant]
    spec fn well_formed(&self) -> bool {
        self.pos <= self.text.len()
    }

    /// The lexemes not read yet.
    pub open spec fn pending(&self) -> Seq<Lexeme> {
        lex(self@)
    }

    /// A tokenizer at the start of `input`.
    pub fn from_str(input: &str) -> (tokens: Tokens)
        ensures
            tokens@ == input@,
    {
        let text = to_chars(input);
        assert(text@.skip(0) =~= text@);
        Tokens { text, pos: 0 }
    }

    /// The next character, which stays unread.
    fn front(&self) -> (c: Option<char>)
        ensures
            self@.len() == 0 ==> c is None,
            self@.len() > 0 ==> c == Some(self@[0]),
    {
        proof {
            use_type_invariant(self);
        }
        if self.pos < self.text.len() {
            Some(self.text[self.pos])
        } else {
            None
        }
    }

    /// Reads one character, if one is left.
    pub fn pop_front(&mut self) -> (c: Option<char>)
        ensures
            old(self)@.len() == 0 ==> c is None && final(self)@ == old(self)@,
            old(self)@.len() > 0 ==> c == Some(old(self)@[0]) && final(self)@ == old(self)@.drop_first(),
    {
        proof {
            use_type_invariant(&*self);
        }
        if self.pos < self.text.len() {
            let c = self.text[self.pos];
            self.pos = self.pos + 1;
            assert(self@ =~= old(self)@.drop_first());
            Some(c)
        } else {
            None
        }
    }

    /// Reads the characters up to the next delimiter and returns them. Where
    /// that delimiter is whitespace, it is read too; a parenthesis, a comma or
    /// a NUL stays unread.
    pub fn read_until_whitespace(&mut self) -> (run: String)
        ensures
            run@ == old(self)@.take(run_len(old(self)@) as int),
            final(self)@ == after_run(old(self)@),
    {
        proof {
            use_type_invariant(&*self);
        }
        let start = self.pos;
        let mut end = start;
        while end < self.text.len() && !is_delimiter(self.text[end])
            invariant
                start <= end <= self.text.len(),
                start == self.pos,
                *self == *old(self),
                run_len(self@) == (end - start) + run_len(self.text@.skip(end as int)),
            decreases self.text.len() - end,
        {
            assert(self.text@.skip(end as int).drop_first() =~= self.text@.skip(end + 1));
            end = end + 1;
        }
        assert(run_len(self@) == end - start) by {
            let tail = self.text@.skip(end as int);
            assert(tail.len() == 0 || delimiter(tail[0]));
        }
        let run = crate::text::from_chars(&self.text, start, end);
        assert(run@ =~= self@.take(run_len(self@) as int));
        if end < self.text.len() && is_whitespace(self.text[end]) {
            self.pos = end + 1;
            assert(self@ =~= old(self)@.skip(run_len(old(self)@) as int + 1));
        } else {
            self.pos = end;
            assert(self@ =~= old(self)@.skip(run_len(old(self)@) as int));
        }
        run
    }

    /// Reads the whitespace at the front.
    pub fn skip_whitespace(&mut self)
        ensures
            final(self)@ == trim_start(old(self)@),
    {
        proof {
            use_type_invariant(&*self);
        }
        while self.pos < self.text.len() && is_whitespace(self.text[self.pos])
            invariant
                self.pos <= self.text.len(),
                trim_start(self@) == trim_start(old(self)@),
            decreases self.text.len() - self.pos,
        {
            assert(self@.drop_first() =~= self.text@.skip(self.pos + 1));
            self.pos = self.pos + 1;
        }
    }

    /// Reads the next token. `Ok(None)` says that the text has ended; a run
    /// that starts like a number and is no decimal literal is an error.
    pub fn next(&mut self) -> (r: Result<Option<Token>, ParseError>)
        ensures
            final(self)@ == step(old(self)@).rest,
            match step(old(self)@).lexeme {
                None => r matches Ok(None),
                Some(Lexeme::Malformed) => r matches Err(ParseError::MalformedNumber),
                Some(lexeme) => r matches Ok(Some(token)) && token@ == lexeme,
            },
            old(self).pending().len() == 0 ==> final(self).pending().len() == 0,
            old(self).pending().len() > 0 ==> final(self).pending() == old(
                self,
            ).pending().drop_first(),
            match r {
                Ok(None) => old(self).pending().len() == 0,
                Ok(Some(token)) => old(self).pending().len() > 0 && old(self).pending()[0]
                    == token@,
                Err(_) => old(self).pending().len() > 0 && old(self).pending()[0]
                    == Lexeme::Malformed,
            },
    {
        self.skip_whitespace();
        proof {
            lemma_trim_start(old(self)@);
            lemma_lex_step(old(self)@);
            match step(old(self)@).lexeme {
                Some(lexeme) => {
                    assert((seq![lexeme] + lex(step(old(self)@).rest)).drop_first() =~= lex(
                        step(old(self)@).rest,
                    ));
                },
                None => {},
            }
        }
        let c = match self.front() {
            Some(c) => c,
            None => {
                return Ok(None);
            },
        };
        if c == '\0' {
            Ok(None)
        } else if c == '(' {
            self.pop_front();
            Ok(Some(Token::ParenOpen))
        } else if c == ')' {
            self.pop_front();
            Ok(Some(Token::ParenClose))
        } else if c == ',' {
            self.pop_front();
            Ok(Some(Token::Comma))
        } else if is_numberlike(c) {
            let run = self.read_until_whitespace();
            match number_token(run.as_str()) {
                Ok(token) => Ok(Some(token)),
                Err(e) => Err(e),
            }
        } else {
            let run = self.read_until_whitespace();
            Ok(Some(Token::Word(run)))
        }
    }

    /// Whether the next token is a comma. Only whitespace is read.
    pub fn at_comma(&mut self) -> (r: bool)
        ensures
            final(self)@ == trim_start(old(self)@),
            final(self).pending() == old(self).pending(),
            r == (step(old(self)@).lexeme == Some(Lexeme::Comma)),
            r == (old(self).pending().len() > 0 && old(self).pending()[0] == Lexeme::Comma),
    {
        proof {
            lemma_lex_step(old(self)@);
        }
        self.skip_whitespace();
        match self.front() {
            Some(c) => c == ',',
            None => false,
        }
    }

    /// Whether the text has ended: whether no token is left. Only whitespace
    /// is read.
    pub fn at_end(&mut self) -> (r: bool)
        ensures
            final(self)@ == trim_start(old(self)@),
            final(self).pending() == old(self).pending(),
            r == (step(old(self)@).lexeme is None),
            r == (old(self).pending().len() == 0),
    {
        proof {
            lemma_lex_step(old(self)@);
        }
        self.skip_whitespace();
        match self.front() {
            Some(c) => c == '\0',
            None => true,
        }
    }

    /// All the tokens that are left, or the error of the first run that starts
    /// like a number and is no decimal literal.
    pub fn collect(self) -> (r: Result<Vec<Token>, ParseError>)
        ensures
            match r {
                Ok(tokens) => tokens@.map_values(|t: Token| t@) == self.pending(),
                Err(e) => e == ParseError::MalformedNumber && self.pending().contains(
                    Lexeme::Malformed,
                ),
            },
            r is Ok <==> !self.pending().contains(Lexeme::Malformed),
    {
        let mut rest = self;
        let mut tokens: Vec<Token> = Vec::new();
        loop
            invariant
                self.pending() == tokens@.map_values(|t: Token| t@) + rest.pending(),
                !tokens@.map_values(|t: Token| t@).contains(Lexeme::Malformed),
            decreases rest@.len(),
        {
            let ghost before = rest;
            let ghost seen = tokens@.map_values(|t: Token| t@);
            proof {
                lemma_step_shrinks(rest@);
            }
            match rest.next() {
                Ok(Some(token)) => {
                    tokens.push(token);
                    assert(tokens@.map_values(|t: Token| t@) =~= seen.push(token@));
                    assert(seen.push(token@) + rest.pending() =~= seen + before.pending());
                },
                Ok(None) => {
                    assert(before.pending() =~= Seq::<Lexeme>::empty());
                    assert(seen + before.pending() =~= seen);
                    return Ok(tokens);
                },
                Err(e) => {
                    assert(before.pending()[0] == Lexeme::Malformed);
                    assert(self.pending()[seen.len() as int] == Lexeme::Malformed);
                    return Err(e);
                },
            }
        }
    }
}

} // verus!
