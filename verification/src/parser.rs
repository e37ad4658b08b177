//! Reading geometries from tokens: what the geometry types share. Each type
//! says how its fields are read; how a body in parentheses and a list with
//! commas are read is the same for all.

use vstd::prelude::*;
use crate::error::ParseError;
use crate::grammar::{
    closing, comma_many, comma_more, cons, drop, first, item_rule, opening, with_parens, Opening,
    Parsed,
};
use crate::text::{str_eq, to_ascii_uppercase};
use crate::tokenizer::{Lexeme, Token, Tokens};

verus! {

/// Whether `r` is what the rule gave: a value whose model is the rule's
/// value, or the rule's failure.
pub open spec fn parsed_as<T: View>(r: Result<T, ParseError>, parsed: Parsed<T::V>) -> bool {
    match parsed.value {
        Ok(v) => r matches Ok(t) && t@ == v,
        Err(e) => r matches Err(x) && x == e,
    }
}

/// The models of the items of a list.
pub open spec fn views<T: View>(items: Seq<T>) -> Seq<T::V> {
    items.map_values(|item: T| item@)
}

/// Whether `r` is what the rule of a list gave: items whose models are the
/// rule's values, or the rule's failure.
pub open spec fn list_as<T: View>(r: Result<Vec<T>, ParseError>, parsed: Parsed<Seq<T::V>>) -> bool {
    match parsed.value {
        Ok(v) => r matches Ok(items) && views(items@) == v,
        Err(e) => r matches Err(x) && x == e,
    }
}

/// The items read so far, put in front of the items that follow them.
pub open spec fn extend<A>(items: Seq<A>, used: nat, more: Parsed<Seq<A>>) -> Parsed<Seq<A>> {
    Parsed {
        value: match more.value {
            Ok(rest) => Ok(items + rest),
            Err(e) => Err(e),
        },
        used: used + more.used,
    }
}

/// Dropping lexemes twice is dropping their sum.
pub proof fn lemma_drop_drop(lexemes: Seq<Lexeme>, a: nat, b: nat)
    ensures
        drop(drop(lexemes, a), b) == drop(lexemes, a + b),
{
    assert(drop(drop(lexemes, a), b) =~= drop(lexemes, a + b));
}

/// An item in front of a list is a list of one item extended by the rest.
pub proof fn lemma_cons_is_extend<A>(item: A, used: nat, more: Parsed<Seq<A>>)
    ensures
        cons(item, used, more) == extend(seq![item], used, more),
{
}

/// One turn of a list: behind a comma and one more item, the list goes on
/// with that item among those read.
pub proof fn lemma_extend_step<A>(
    item: spec_fn(Seq<Lexeme>) -> Parsed<A>,
    items: Seq<A>,
    used: nat,
    lexemes: Seq<Lexeme>,
)
    requires
        first(lexemes) == Some(Lexeme::Comma),
    ensures
        match item(drop(lexemes, 1)).value {
            Ok(a) => extend(items, used, comma_more(item, lexemes)) == extend(
                items.push(a),
                used + 1 + item(drop(lexemes, 1)).used,
                comma_more(item, drop(lexemes, 1 + item(drop(lexemes, 1)).used)),
            ),
            Err(e) => extend(items, used, comma_more(item, lexemes)) == (Parsed::<Seq<A>> {
                value: Err(e),
                used: used + 1 + item(drop(lexemes, 1)).used,
            }),
        },
{
    let next = item(drop(lexemes, 1));
    match next.value {
        Ok(a) => {
            let more = comma_more(item, drop(lexemes, 1 + next.used));
            match more.value {
                Ok(rest) => {
                    assert(items + (seq![a] + rest) =~= items.push(a) + rest);
                },
                Err(_) => {},
            }
        },
        Err(_) => {},
    }
}

/// A list ends where no comma comes next.
pub proof fn lemma_extend_end<A>(
    item: spec_fn(Seq<Lexeme>) -> Parsed<A>,
    items: Seq<A>,
    used: nat,
    lexemes: Seq<Lexeme>,
)
    requires
        first(lexemes) != Some(Lexeme::Comma),
    ensures
        extend(items, used, comma_more(item, lexemes)) == (Parsed::<Seq<A>> {
            value: Ok(items),
            used,
        }),
{
    assert(items + Seq::<A>::empty() =~= items);
}

/// Reads the start of a body. `Ok(true)` says that the body is `EMPTY`,
/// `Ok(false)` that its `(` has been read.
pub fn open_or_empty(tokens: &mut Tokens) -> (r: Result<bool, ParseError>)
    ensures
        match opening(old(tokens).pending()) {
            Opening::Failed(e, used) => r == Err::<bool, ParseError>(e) && final(tokens).pending()
                == drop(old(tokens).pending(), used),
            Opening::Empty => r == Ok::<bool, ParseError>(true) && final(tokens).pending() == drop(
                old(tokens).pending(),
                1,
            ),
            Opening::Paren => r == Ok::<bool, ParseError>(false) && final(tokens).pending() == drop(
                old(tokens).pending(),
                1,
            ),
        },
{
    match tokens.next() {
        Err(e) => Err(e),
        Ok(Some(Token::ParenOpen)) => Ok(false),
        Ok(Some(Token::Word(word))) => {
            let upper = to_ascii_uppercase(word.as_str());
            if str_eq(upper.as_str(), "EMPTY") {
                Ok(true)
            } else {
                Err(ParseError::MissingOpenParen)
            }
        },
        Ok(_) => Err(ParseError::MissingOpenParen),
    }
}

/// Reads the `)` that ends a body.
pub fn expect_close(tokens: &mut Tokens) -> (r: Result<(), ParseError>)
    ensures
        r == closing(old(tokens).pending()).value,
        final(tokens).pending() == drop(
            old(tokens).pending(),
            closing(old(tokens).pending()).used,
        ),
{
    match tokens.next() {
        Err(e) => Err(e),
        Ok(Some(Token::ParenClose)) => Ok(()),
        Ok(_) => Err(ParseError::MissingCloseParen),
    }
}

/// A type that is read from tokens.
pub trait FromTokens: Sized + View {
    /// The rule of the type's fields.
    spec fn fields(lexemes: Seq<Lexeme>) -> Parsed<Self::V>;

    /// The model of the value that `EMPTY` stands for.
    spec fn nothing() -> Self::V;

    /// The value that `EMPTY` stands for.
    fn empty() -> (value: Self)
        ensures
            value@ == Self::nothing(),
    ;

    /// Reads the fields.
    fn from_tokens(tokens: &mut Tokens) -> (r: Result<Self, ParseError>)
        ensures
            final(tokens).pending() == drop(
                old(tokens).pending(),
                Self::fields(old(tokens).pending()).used,
            ),
            parsed_as(r, Self::fields(old(tokens).pending())),
    ;

    /// Reads a body: the fields in parentheses, or `EMPTY`.
    fn from_tokens_with_parens(tokens: &mut Tokens) -> (r: Result<Self, ParseError>)
        ensures
            final(tokens).pending() == drop(
                old(tokens).pending(),
                with_parens(
                    |l: Seq<Lexeme>| Self::fields(l),
                    Self::nothing(),
                    old(tokens).pending(),
                ).used,
            ),
            parsed_as(
                r,
                with_parens(
                    |l: Seq<Lexeme>| Self::fields(l),
                    Self::nothing(),
                    old(tokens).pending(),
                ),
            ),
    {
        match open_or_empty(tokens) {
            Err(e) => {
                return Err(e);
            },
            Ok(true) => {
                return Ok(Self::empty());
            },
            Ok(false) => {},
        }
        let ghost inner = tokens.pending();
        let fields = match Self::from_tokens(tokens) {
            Ok(fields) => fields,
            Err(e) => {
                proof {
                    lemma_drop_drop(old(tokens).pending(), 1, Self::fields(inner).used);
                }
                return Err(e);
            },
        };
        let ghost behind = tokens.pending();
        let closed = expect_close(tokens);
        proof {
            lemma_drop_drop(old(tokens).pending(), 1, Self::fields(inner).used);
            lemma_drop_drop(
                old(tokens).pending(),
                1 + Self::fields(inner).used,
                closing(behind).used,
            );
        }
        match closed {
            Ok(()) => Ok(fields),
            Err(e) => Err(e),
        }
    }

    /// Reads a list: one item or more, with commas between them. Each item
    /// is a body where `wrapped` is set, else bare fields.
    fn comma_many(tokens: &mut Tokens, wrapped: bool) -> (r: Result<Vec<Self>, ParseError>)
        ensures
            final(tokens).pending() == drop(
                old(tokens).pending(),
                comma_many(
                    item_rule(|l: Seq<Lexeme>| Self::fields(l), Self::nothing(), wrapped),
                    old(tokens).pending(),
                ).used,
            ),
            list_as(
                r,
                comma_many(
                    item_rule(|l: Seq<Lexeme>| Self::fields(l), Self::nothing(), wrapped),
                    old(tokens).pending(),
                ),
            ),
    {
        let ghost start = tokens.pending();
        let ghost rule = item_rule(|l: Seq<Lexeme>| Self::fields(l), Self::nothing(), wrapped);
        let head = if wrapped {
            Self::from_tokens_with_parens(tokens)
        } else {
            Self::from_tokens(tokens)
        };
        let head = match head {
            Ok(head) => head,
            Err(e) => {
                return Err(e);
            },
        };
        let mut items: Vec<Self> = Vec::new();
        items.push(head);
        let ghost mut used: nat = rule(start).used;
        proof {
            lemma_cons_is_extend(head@, used, comma_more(rule, drop(start, used)));
            assert(views(items@) =~= seq![head@]);
        }
        loop
            invariant
                start == old(tokens).pending(),
                rule == item_rule(|l: Seq<Lexeme>| Self::fields(l), Self::nothing(), wrapped),
                tokens.pending() == drop(start, used),
                comma_many(rule, start) == extend(
                    views(items@),
                    used,
                    comma_more(rule, tokens.pending()),
                ),
            decreases tokens.pending().len(),
        {
            let ghost here = tokens.pending();
            let ghost read = views(items@);
            if !tokens.at_comma() {
                proof {
                    lemma_extend_end(rule, read, used, here);
                }
                return Ok(items);
            }
            let _ = tokens.next();
            let ghost inner = tokens.pending();
            proof {
                assert(inner == drop(here, 1));
                lemma_extend_step(rule, read, used, here);
                lemma_drop_drop(here, 1, rule(inner).used);
                lemma_drop_drop(start, used, 1 + rule(inner).used);
            }
            let next = if wrapped {
                Self::from_tokens_with_parens(tokens)
            } else {
                Self::from_tokens(tokens)
            };
            match next {
                Ok(next) => {
                    items.push(next);
                    proof {
                        used = used + 1 + rule(inner).used;
                        assert(views(items@) =~= read.push(next@));
                    }
                },
                Err(e) => {
                    return Err(e);
                },
            }
        }
    }
}

} // verus!
