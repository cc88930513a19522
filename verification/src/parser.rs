//! The layout language, read from the bytes of a document.
//!
//! Grammar, over the tokens of the text (blanks and `//` comments separate
//! tokens and are otherwise ignored; a word is a maximal run of ASCII letters,
//! digits, `_` and `-`):
//!
//! ```text
//! Layout          = AliasDefinition* NodeType
//! AliasDefinition = "alias" Identifier "=" TypeValue
//! NodeType        = Identifier "(" Properties ")" ( "{" Children "}" )?
//! Children        = ( NodeType ( "," NodeType )* ","? )?
//! Properties      = ( Property ( "," Property )* ","? )?
//! Property        = Identifier "=" PropertyValue
//! PropertyValue   = TypeValue | UInt | Literal
//! TypeValue       = Identifier "(" ( Properties | PropertyValue )? ")"
//! Identifier      = a word made of a letter or `_`, then letters, digits and `_`
//! UInt            = a word made of digits only
//! Literal         = any other word
//! ```
//!
//! A word followed by `(` in value position is a `TypeValue`; the contents of
//! a `TypeValue` are `Properties` when they start with a word followed by `=`.
//! A leading `alias` word that is not followed by `(` starts an alias
//! definition.
use vstd::prelude::*;
use vstd::utf8::*;
use crate::text::{ascii_bounded_slice, bytes_of};
use crate::ast::{
    group_ast_model, model_alias, model_aliases, model_node, model_nodes, model_properties,
    model_property, AliasDeclaration, Layout, NodeType, Property, PropertyValue, Span,
    SpecAliasDeclaration, SpecLayout, SpecNodeType, SpecProperty, SpecPropertyValue,
    SpecTypeValue, SpecTypeValueInner, TypeValue, TypeValueInner,
};

verus! {

broadcast use group_ast_model;

#[derive(Debug, Clone, Copy, PartialEq, Eq, Structural)]
pub enum TokenKind {
    Word,
    LParen,
    RParen,
    LBrace,
    RBrace,
    Comma,
    Equals,
}

/// A token and the byte range `[start, end)` it covers.
#[derive(Debug, Clone, Copy, PartialEq, Eq, Structural)]
pub struct Token {
    pub kind: TokenKind,
    pub start: usize,
    pub end: usize,
}

/// Why and where reading a document failed.
#[derive(Debug, Clone)]
pub struct ParseError {
    pub message: String,
    pub offset: usize,
}

pub struct SpecParseError {
    pub message: Seq<char>,
    pub offset: usize,
}

impl View for ParseError {
    type V = SpecParseError;

    open spec fn view(&self) -> SpecParseError {
        SpecParseError { message: self.message@, offset: self.offset }
    }
}

// ----------------------------------------------------------------------
// Bytes
// ----------------------------------------------------------------------

pub open spec fn is_space(c: u8) -> bool {
    c == 32 || c == 9 || c == 10 || c == 13
}

pub open spec fn is_digit(c: u8) -> bool {
    48 <= c <= 57
}

pub open spec fn is_alpha(c: u8) -> bool {
    (65 <= c <= 90) || (97 <= c <= 122)
}

pub open spec fn is_word_byte(c: u8) -> bool {
    is_alpha(c) || is_digit(c) || c == 95 || c == 45
}

pub open spec fn is_ident_start(c: u8) -> bool {
    is_alpha(c) || c == 95
}

pub open spec fn is_ident_rest(c: u8) -> bool {
    is_alpha(c) || is_digit(c) || c == 95
}

pub open spec fn punct_kind(c: u8) -> Option<TokenKind> {
    if c == 40 {
        Some(TokenKind::LParen)
    } else if c == 41 {
        Some(TokenKind::RParen)
    } else if c == 123 {
        Some(TokenKind::LBrace)
    } else if c == 125 {
        Some(TokenKind::RBrace)
    } else if c == 44 {
        Some(TokenKind::Comma)
    } else if c == 61 {
        Some(TokenKind::Equals)
    } else {
        None
    }
}

/// The end of the run of word bytes that starts at `i`.
pub open spec fn word_end(b: Seq<u8>, i: int) -> int
    decreases b.len() - i,
{
    if i < 0 || i >= b.len() || !is_word_byte(b[i]) {
        i
    } else {
        word_end(b, i + 1)
    }
}

/// The position of the first newline at or after `i`, or the end of the text.
pub open spec fn line_end(b: Seq<u8>, i: int) -> int
    decreases b.len() - i,
{
    if i < 0 || i >= b.len() || b[i] == 10 {
        i
    } else {
        line_end(b, i + 1)
    }
}

pub proof fn lemma_word_end(b: Seq<u8>, i: int)
    requires
        0 <= i <= b.len(),
    ensures
        i <= word_end(b, i) <= b.len(),
        forall|j: int| i <= j < word_end(b, i) ==> is_word_byte(b[j]),
        word_end(b, i) == b.len() || !is_word_byte(b[word_end(b, i)]),
    decreases b.len() - i,
{
    if i < b.len() && is_word_byte(b[i]) {
        lemma_word_end(b, i + 1);
    }
}

pub proof fn lemma_line_end(b: Seq<u8>, i: int)
    requires
        0 <= i <= b.len(),
    ensures
        i <= line_end(b, i) <= b.len(),
        line_end(b, i) == b.len() || b[line_end(b, i)] == 10,
    decreases b.len() - i,
{
    if i < b.len() && b[i] != 10 {
        lemma_line_end(b, i + 1);
    }
}

// ----------------------------------------------------------------------
// Tokens
// ----------------------------------------------------------------------

pub open spec fn msg_unexpected_character() -> Seq<char> {
    "unexpected character"@
}

pub open spec fn prepend_token(t: Token, r: Result<Seq<Token>, SpecParseError>) -> Result<
    Seq<Token>,
    SpecParseError,
> {
    match r {
        Ok(ts) => Ok(seq![t] + ts),
        Err(e) => Err(e),
    }
}

/// The tokens of the text from byte `i` on.
pub open spec fn lex_from(b: Seq<u8>, i: int) -> Result<Seq<Token>, SpecParseError>
    decreases b.len() - i,
{
    if i < 0 || i >= b.len() {
        Ok(Seq::empty())
    } else if is_space(b[i]) {
        lex_from(b, i + 1)
    } else if b[i] == 47 && i + 1 < b.len() && b[i + 1] == 47 {
        proof {
            lemma_line_end(b, i + 2);
        }
        lex_from(b, line_end(b, i + 2))
    } else if punct_kind(b[i]) is Some {
        prepend_token(
            Token { kind: punct_kind(b[i])->0, start: i as usize, end: (i + 1) as usize },
            lex_from(b, i + 1),
        )
    } else if is_word_byte(b[i]) {
        proof {
            lemma_word_end(b, i + 1);
        }
        prepend_token(
            Token { kind: TokenKind::Word, start: i as usize, end: word_end(b, i) as usize },
            lex_from(b, word_end(b, i)),
        )
    } else {
        Err(SpecParseError { message: msg_unexpected_character(), offset: i as usize })
    }
}

/// The tokens of the whole text.
pub open spec fn lex(b: Seq<u8>) -> Result<Seq<Token>, SpecParseError> {
    lex_from(b, 0)
}

// ----------------------------------------------------------------------
// Grammar
// ----------------------------------------------------------------------

pub open spec fn msg_expected_identifier() -> Seq<char> {
    "expected an identifier"@
}

pub open spec fn msg_expected_lparen() -> Seq<char> {
    "expected `(`"@
}

pub open spec fn msg_expected_rparen() -> Seq<char> {
    "expected `)`"@
}

pub open spec fn msg_expected_equals() -> Seq<char> {
    "expected `=`"@
}

pub open spec fn msg_expected_comma_or_rparen() -> Seq<char> {
    "expected `,` or `)`"@
}

pub open spec fn msg_expected_comma_or_rbrace() -> Seq<char> {
    "expected `,` or `}`"@
}

pub open spec fn msg_expected_value() -> Seq<char> {
    "expected a value"@
}

pub open spec fn msg_expected_end() -> Seq<char> {
    "expected end of input"@
}

/// The byte offset of token `k`, or the end of the text past the last token.
pub open spec fn offset_at(b: Seq<u8>, toks: Seq<Token>, k: int) -> usize {
    if 0 <= k < toks.len() {
        toks[k].start
    } else {
        b.len() as usize
    }
}

pub open spec fn error_at(b: Seq<u8>, toks: Seq<Token>, k: int, msg: Seq<char>) -> SpecParseError {
    SpecParseError { message: msg, offset: offset_at(b, toks, k) }
}

pub open spec fn tok_is(toks: Seq<Token>, k: int, kind: TokenKind) -> bool {
    0 <= k < toks.len() && toks[k].kind == kind
}

pub open spec fn token_span(t: Token) -> Span {
    Span { start: t.start, end: t.end }
}

/// The text of a token.
pub open spec fn token_text(b: Seq<u8>, t: Token) -> Seq<char> {
    decode_utf8(b.subrange(t.start as int, t.end as int))
}

pub open spec fn is_identifier(b: Seq<u8>, t: Token) -> bool {
    &&& t.kind == TokenKind::Word
    &&& t.start < t.end
    &&& is_ident_start(b[t.start as int])
    &&& forall|j: int| t.start < j < t.end ==> is_ident_rest(b[j])
}

pub open spec fn is_number(b: Seq<u8>, t: Token) -> bool {
    forall|j: int| t.start <= j < t.end ==> is_digit(b[j])
}

/// The number written with the digits `b[s..e]`.
pub open spec fn digits_value(b: Seq<u8>, s: int, e: int) -> nat
    decreases e - s,
{
    if e <= s {
        0
    } else {
        digits_value(b, s, e - 1) * 10 + (b[e - 1] - 48) as nat
    }
}

/// The value of an unsigned integer token; 0 when it does not fit in 64 bits.
pub open spec fn number_value(b: Seq<u8>, t: Token) -> u64 {
    let v = digits_value(b, t.start as int, t.end as int);
    if v <= u64::MAX {
        v as u64
    } else {
        0
    }
}

/// `alias Name = ...` starts at token `k`.
pub open spec fn is_alias_start(b: Seq<u8>, toks: Seq<Token>, k: int) -> bool {
    &&& tok_is(toks, k, TokenKind::Word)
    &&& b.subrange(toks[k].start as int, toks[k].end as int) == seq![97u8, 108u8, 105u8, 97u8, 115u8]
    &&& !tok_is(toks, k + 1, TokenKind::LParen)
}

pub open spec fn value_end(v: SpecPropertyValue) -> usize {
    match v {
        SpecPropertyValue::Type(tv) => tv.span.end,
        SpecPropertyValue::UInt(_, s) => s.end,
        SpecPropertyValue::Literal(_, s) => s.end,
    }
}

/// An identifier at token `k`: its text and span.
pub open spec fn p_ident(b: Seq<u8>, toks: Seq<Token>, k: int) -> Result<
    (Seq<char>, Span),
    SpecParseError,
> {
    if 0 <= k < toks.len() && is_identifier(b, toks[k]) {
        Ok((token_text(b, toks[k]), token_span(toks[k])))
    } else {
        Err(error_at(b, toks, k, msg_expected_identifier()))
    }
}

/// A component starting at token `k`, and the index of the token after it.
pub open spec fn p_node(b: Seq<u8>, toks: Seq<Token>, k: int) -> Result<
    (SpecNodeType, int),
    SpecParseError,
>
    decreases toks.len() - k, 0int,
{
    match p_ident(b, toks, k) {
        Err(e) => Err(e),
        Ok((name, name_span)) => {
            if !tok_is(toks, k + 1, TokenKind::LParen) {
                Err(error_at(b, toks, k + 1, msg_expected_lparen()))
            } else {
                match p_props(b, toks, k + 2, Seq::empty()) {
                    Err(e) => Err(e),
                    Ok((props, j)) => {
                        if j >= k + 2 && tok_is(toks, j + 1, TokenKind::LBrace) {
                            match p_children(b, toks, j + 2, Seq::empty()) {
                                Err(e) => Err(e),
                                Ok((children, m)) => Ok(
                                    (
                                        SpecNodeType {
                                            name,
                                            name_span,
                                            properties: props,
                                            children,
                                            span: Span { start: name_span.start, end: toks[m].end },
                                        },
                                        m + 1,
                                    ),
                                ),
                            }
                        } else {
                            Ok(
                                (
                                    SpecNodeType {
                                        name,
                                        name_span,
                                        properties: props,
                                        children: Seq::empty(),
                                        span: Span { start: name_span.start, end: toks[j].end },
                                    },
                                    j + 1,
                                ),
                            )
                        }
                    },
                }
            }
        },
    }
}

/// The children of a component, from token `k` up to the closing `}`;
/// `acc` holds the children read so far. Yields the index of the `}`.
pub open spec fn p_children(
    b: Seq<u8>,
    toks: Seq<Token>,
    k: int,
    acc: Seq<SpecNodeType>,
) -> Result<(Seq<SpecNodeType>, int), SpecParseError>
    decreases toks.len() - k, 1int,
{
    if tok_is(toks, k, TokenKind::RBrace) {
        Ok((acc, k))
    } else {
        match p_node(b, toks, k) {
            Err(e) => Err(e),
            Ok((node, j)) => {
                if j > k && tok_is(toks, j, TokenKind::Comma) {
                    p_children(b, toks, j + 1, acc.push(node))
                } else if tok_is(toks, j, TokenKind::RBrace) {
                    Ok((acc.push(node), j))
                } else {
                    Err(error_at(b, toks, j, msg_expected_comma_or_rbrace()))
                }
            },
        }
    }
}

/// Properties from token `k` up to the closing `)`; `acc` holds the
/// properties read so far. Yields the index of the `)`.
pub open spec fn p_props(b: Seq<u8>, toks: Seq<Token>, k: int, acc: Seq<SpecProperty>) -> Result<
    (Seq<SpecProperty>, int),
    SpecParseError,
>
    decreases toks.len() - k, 3int,
{
    if tok_is(toks, k, TokenKind::RParen) {
        Ok((acc, k))
    } else {
        match p_property(b, toks, k) {
            Err(e) => Err(e),
            Ok((prop, j)) => {
                if j > k && tok_is(toks, j, TokenKind::Comma) {
                    p_props(b, toks, j + 1, acc.push(prop))
                } else if tok_is(toks, j, TokenKind::RParen) {
                    Ok((acc.push(prop), j))
                } else {
                    Err(error_at(b, toks, j, msg_expected_comma_or_rparen()))
                }
            },
        }
    }
}

/// `key = value` at token `k`, and the index of the token after it.
pub open spec fn p_property(b: Seq<u8>, toks: Seq<Token>, k: int) -> Result<
    (SpecProperty, int),
    SpecParseError,
>
    decreases toks.len() - k, 2int,
{
    match p_ident(b, toks, k) {
        Err(e) => Err(e),
        Ok((key, key_span)) => {
            if !tok_is(toks, k + 1, TokenKind::Equals) {
                Err(error_at(b, toks, k + 1, msg_expected_equals()))
            } else {
                match p_value(b, toks, k + 2) {
                    Err(e) => Err(e),
                    Ok((value, j)) => Ok(
                        (
                            SpecProperty {
                                key,
                                key_span,
                                value,
                                span: Span { start: key_span.start, end: value_end(value) },
                            },
                            j,
                        ),
                    ),
                }
            }
        },
    }
}

/// A property value at token `k`, and the index of the token after it.
pub open spec fn p_value(b: Seq<u8>, toks: Seq<Token>, k: int) -> Result<
    (SpecPropertyValue, int),
    SpecParseError,
>
    decreases toks.len() - k, 1int,
{
    if tok_is(toks, k, TokenKind::Word) {
        if tok_is(toks, k + 1, TokenKind::LParen) {
            match p_type_value(b, toks, k) {
                Err(e) => Err(e),
                Ok((tv, j)) => Ok((SpecPropertyValue::Type(tv), j)),
            }
        } else if is_number(b, toks[k]) {
            Ok((SpecPropertyValue::UInt(number_value(b, toks[k]), token_span(toks[k])), k + 1))
        } else {
            Ok((SpecPropertyValue::Literal(token_text(b, toks[k]), token_span(toks[k])), k + 1))
        }
    } else {
        Err(error_at(b, toks, k, msg_expected_value()))
    }
}

/// `Name(...)` at token `k`, and the index of the token after it.
pub open spec fn p_type_value(b: Seq<u8>, toks: Seq<Token>, k: int) -> Result<
    (SpecTypeValue, int),
    SpecParseError,
>
    decreases toks.len() - k, 0int,
{
    match p_ident(b, toks, k) {
        Err(e) => Err(e),
        Ok((name, name_span)) => {
            if !tok_is(toks, k + 1, TokenKind::LParen) {
                Err(error_at(b, toks, k + 1, msg_expected_lparen()))
            } else if tok_is(toks, k + 2, TokenKind::RParen) {
                Ok(
                    (
                        SpecTypeValue {
                            name,
                            name_span,
                            inner: SpecTypeValueInner::Empty,
                            span: Span { start: name_span.start, end: toks[k + 2].end },
                        },
                        k + 3,
                    ),
                )
            } else if tok_is(toks, k + 2, TokenKind::Word) && tok_is(toks, k + 3, TokenKind::Equals) {
                match p_props(b, toks, k + 2, Seq::empty()) {
                    Err(e) => Err(e),
                    Ok((props, j)) => Ok(
                        (
                            SpecTypeValue {
                                name,
                                name_span,
                                inner: SpecTypeValueInner::Properties(props),
                                span: Span { start: name_span.start, end: toks[j].end },
                            },
                            j + 1,
                        ),
                    ),
                }
            } else {
                match p_value(b, toks, k + 2) {
                    Err(e) => Err(e),
                    Ok((v, j)) => {
                        if tok_is(toks, j, TokenKind::RParen) {
                            Ok(
                                (
                                    SpecTypeValue {
                                        name,
                                        name_span,
                                        inner: SpecTypeValueInner::Value(Box::new(v)),
                                        span: Span { start: name_span.start, end: toks[j].end },
                                    },
                                    j + 1,
                                ),
                            )
                        } else {
                            Err(error_at(b, toks, j, msg_expected_rparen()))
                        }
                    },
                }
            }
        },
    }
}

/// `alias Name = Target(...)` at token `k`, and the index of the token after it.
pub open spec fn p_alias(b: Seq<u8>, toks: Seq<Token>, k: int) -> Result<
    (SpecAliasDeclaration, int),
    SpecParseError,
> {
    match p_ident(b, toks, k + 1) {
        Err(e) => Err(e),
        Ok((name, name_span)) => {
            if !tok_is(toks, k + 2, TokenKind::Equals) {
                Err(error_at(b, toks, k + 2, msg_expected_equals()))
            } else {
                match p_type_value(b, toks, k + 3) {
                    Err(e) => Err(e),
                    Ok((target, j)) => Ok(
                        (
                            SpecAliasDeclaration {
                                name,
                                name_span,
                                target,
                                span: Span { start: toks[k].start, end: target.span.end },
                            },
                            j,
                        ),
                    ),
                }
            }
        },
    }
}

/// The alias definitions from token `k` on; `acc` holds those read so far.
/// Yields the index of the first token after them.
pub open spec fn p_aliases(
    b: Seq<u8>,
    toks: Seq<Token>,
    k: int,
    acc: Seq<SpecAliasDeclaration>,
) -> Result<(Seq<SpecAliasDeclaration>, int), SpecParseError>
    decreases toks.len() - k,
{
    if 0 <= k && is_alias_start(b, toks, k) {
        match p_alias(b, toks, k) {
            Err(e) => Err(e),
            Ok((a, j)) => if k < j <= toks.len() {
                p_aliases(b, toks, j, acc.push(a))
            } else {
                Ok((acc.push(a), j))
            },
        }
    } else {
        Ok((acc, k))
    }
}

/// The layout written in the tokens `toks` of the text `b`.
pub open spec fn parse_tokens(b: Seq<u8>, toks: Seq<Token>) -> Result<SpecLayout, SpecParseError> {
    match p_aliases(b, toks, 0, Seq::empty()) {
        Err(e) => Err(e),
        Ok((aliases, k)) => match p_node(b, toks, k) {
            Err(e) => Err(e),
            Ok((root, j)) => if j < toks.len() {
                Err(error_at(b, toks, j, msg_expected_end()))
            } else {
                Ok(SpecLayout { aliases, root })
            },
        },
    }
}

/// The layout written in the text `b`, or why it cannot be read.
pub open spec fn spec_parse(b: Seq<u8>) -> Result<SpecLayout, SpecParseError> {
    match lex(b) {
        Err(e) => Err(e),
        Ok(toks) => parse_tokens(b, toks),
    }
}

// ----------------------------------------------------------------------
// Facts about tokens
// ----------------------------------------------------------------------

/// What every token of a successfully read text satisfies.
pub open spec fn token_wf(b: Seq<u8>, t: Token) -> bool {
    &&& t.start < t.end <= b.len()
    &&& b[t.start as int] < 128
    &&& (t.end == b.len() || b[t.end as int] < 128)
    &&& (t.kind == TokenKind::Word ==> forall|j: int| t.start <= j < t.end ==> is_word_byte(b[j]))
}

pub open spec fn tokens_wf(b: Seq<u8>, ts: Seq<Token>) -> bool {
    forall|k: int| 0 <= k < ts.len() ==> token_wf(b, #[trigger] ts[k])
}

proof fn lemma_lex_ascii(b: Seq<u8>, i: int)
    requires
        b.len() <= usize::MAX,
        0 <= i < b.len(),
        lex_from(b, i) is Ok,
    ensures
        b[i] < 128,
{
}

proof fn lemma_lex_wf(b: Seq<u8>, i: int)
    requires
        b.len() <= usize::MAX,
        0 <= i <= b.len(),
    ensures
        lex_from(b, i) matches Ok(ts) ==> tokens_wf(b, ts),
    decreases b.len() - i,
{
    if i < b.len() {
        if is_space(b[i]) {
            lemma_lex_wf(b, i + 1);
        } else if b[i] == 47 && i + 1 < b.len() && b[i + 1] == 47 {
            lemma_line_end(b, i + 2);
            lemma_lex_wf(b, line_end(b, i + 2));
        } else if punct_kind(b[i]) is Some {
            lemma_lex_wf(b, i + 1);
            if lex_from(b, i) is Ok {
                let ts = lex_from(b, i)->Ok_0;
                let rest = lex_from(b, i + 1)->Ok_0;
                if i + 1 < b.len() {
                    lemma_lex_ascii(b, i + 1);
                }
                assert forall|k: int| 0 <= k < ts.len() implies token_wf(b, #[trigger] ts[k]) by {
                    if k > 0 {
                        assert(ts[k] == rest[k - 1]);
                    }
                }
            }
        } else if is_word_byte(b[i]) {
            lemma_word_end(b, i);
            lemma_word_end(b, i + 1);
            let e = word_end(b, i);
            lemma_lex_wf(b, e);
            if lex_from(b, i) is Ok {
                let ts = lex_from(b, i)->Ok_0;
                let rest = lex_from(b, e)->Ok_0;
                if e < b.len() {
                    lemma_lex_ascii(b, e);
                }
                assert forall|k: int| 0 <= k < ts.len() implies token_wf(b, #[trigger] ts[k]) by {
                    if k > 0 {
                        assert(ts[k] == rest[k - 1]);
                    }
                }
            }
        }
    }
}

// ----------------------------------------------------------------------
// Where errors point
// ----------------------------------------------------------------------

proof fn lemma_lex_error_in_text(b: Seq<u8>, i: int)
    requires
        b.len() <= usize::MAX,
        0 <= i,
    ensures
        lex_from(b, i) matches Err(e) ==> e.offset < b.len(),
    decreases b.len() - i,
{
    if i < b.len() {
        if is_space(b[i]) {
            lemma_lex_error_in_text(b, i + 1);
        } else if b[i] == 47 && i + 1 < b.len() && b[i + 1] == 47 {
            lemma_line_end(b, i + 2);
            lemma_lex_error_in_text(b, line_end(b, i + 2));
        } else if punct_kind(b[i]) is Some {
            lemma_lex_error_in_text(b, i + 1);
        } else if is_word_byte(b[i]) {
            lemma_word_end(b, i + 1);
            lemma_lex_error_in_text(b, word_end(b, i));
        }
    }
}

proof fn lemma_error_at_in_text(b: Seq<u8>, toks: Seq<Token>)
    requires
        b.len() <= usize::MAX,
        tokens_wf(b, toks),
    ensures
        forall|k: int, msg: Seq<char>| #[trigger] error_at(b, toks, k, msg).offset <= b.len(),
{
    assert forall|k: int, msg: Seq<char>| #[trigger] error_at(b, toks, k, msg).offset <= b.len() by {
        if 0 <= k < toks.len() {
            assert(token_wf(b, toks[k]));
        }
    }
}

proof fn lemma_node_error_in_text(b: Seq<u8>, toks: Seq<Token>, k: int)
    requires
        b.len() <= usize::MAX,
        tokens_wf(b, toks),
    ensures
        p_node(b, toks, k) matches Err(e) ==> e.offset <= b.len(),
    decreases toks.len() - k, 0int,
{
    lemma_error_at_in_text(b, toks);
    if p_ident(b, toks, k) is Ok && tok_is(toks, k + 1, TokenKind::LParen) {
        lemma_props_error_in_text(b, toks, k + 2, Seq::empty());
        if let Ok((props, j)) = p_props(b, toks, k + 2, Seq::empty()) {
            if j >= k + 2 && tok_is(toks, j + 1, TokenKind::LBrace) {
                lemma_children_error_in_text(b, toks, j + 2, Seq::empty());
            }
        }
    }
}

proof fn lemma_children_error_in_text(b: Seq<u8>, toks: Seq<Token>, k: int, acc: Seq<SpecNodeType>)
    requires
        b.len() <= usize::MAX,
        tokens_wf(b, toks),
    ensures
        p_children(b, toks, k, acc) matches Err(e) ==> e.offset <= b.len(),
    decreases toks.len() - k, 1int,
{
    lemma_error_at_in_text(b, toks);
    if !tok_is(toks, k, TokenKind::RBrace) {
        lemma_node_error_in_text(b, toks, k);
        if let Ok((node, j)) = p_node(b, toks, k) {
            if j > k && tok_is(toks, j, TokenKind::Comma) {
                lemma_children_error_in_text(b, toks, j + 1, acc.push(node));
            }
        }
    }
}

proof fn lemma_props_error_in_text(b: Seq<u8>, toks: Seq<Token>, k: int, acc: Seq<SpecProperty>)
    requires
        b.len() <= usize::MAX,
        tokens_wf(b, toks),
    ensures
        p_props(b, toks, k, acc) matches Err(e) ==> e.offset <= b.len(),
    decreases toks.len() - k, 3int,
{
    lemma_error_at_in_text(b, toks);
    if !tok_is(toks, k, TokenKind::RParen) {
        lemma_property_error_in_text(b, toks, k);
        if let Ok((prop, j)) = p_property(b, toks, k) {
            if j > k && tok_is(toks, j, TokenKind::Comma) {
                lemma_props_error_in_text(b, toks, j + 1, acc.push(prop));
            }
        }
    }
}

proof fn lemma_property_error_in_text(b: Seq<u8>, toks: Seq<Token>, k: int)
    requires
        b.len() <= usize::MAX,
        tokens_wf(b, toks),
    ensures
        p_property(b, toks, k) matches Err(e) ==> e.offset <= b.len(),
    decreases toks.len() - k, 2int,
{
    lemma_error_at_in_text(b, toks);
    if p_ident(b, toks, k) is Ok && tok_is(toks, k + 1, TokenKind::Equals) {
        lemma_value_error_in_text(b, toks, k + 2);
    }
}

proof fn lemma_value_error_in_text(b: Seq<u8>, toks: Seq<Token>, k: int)
    requires
        b.len() <= usize::MAX,
        tokens_wf(b, toks),
    ensures
        p_value(b, toks, k) matches Err(e) ==> e.offset <= b.len(),
    decreases toks.len() - k, 1int,
{
    lemma_error_at_in_text(b, toks);
    if tok_is(toks, k, TokenKind::Word) && tok_is(toks, k + 1, TokenKind::LParen) {
        lemma_type_value_error_in_text(b, toks, k);
    }
}

proof fn lemma_type_value_error_in_text(b: Seq<u8>, toks: Seq<Token>, k: int)
    requires
        b.len() <= usize::MAX,
        tokens_wf(b, toks),
    ensures
        p_type_value(b, toks, k) matches Err(e) ==> e.offset <= b.len(),
    decreases toks.len() - k, 0int,
{
    lemma_error_at_in_text(b, toks);
    if p_ident(b, toks, k) is Ok && tok_is(toks, k + 1, TokenKind::LParen) && !tok_is(
        toks,
        k + 2,
        TokenKind::RParen,
    ) {
        if tok_is(toks, k + 2, TokenKind::Word) && tok_is(toks, k + 3, TokenKind::Equals) {
            lemma_props_error_in_text(b, toks, k + 2, Seq::empty());
        } else {
            lemma_value_error_in_text(b, toks, k + 2);
        }
    }
}

proof fn lemma_aliases_error_in_text(b: Seq<u8>, toks: Seq<Token>, k: int, acc: Seq<SpecAliasDeclaration>)
    requires
        b.len() <= usize::MAX,
        tokens_wf(b, toks),
    ensures
        p_aliases(b, toks, k, acc) matches Err(e) ==> e.offset <= b.len(),
    decreases toks.len() - k,
{
    lemma_error_at_in_text(b, toks);
    if 0 <= k && is_alias_start(b, toks, k) {
        if p_ident(b, toks, k + 1) is Ok && tok_is(toks, k + 2, TokenKind::Equals) {
            lemma_type_value_error_in_text(b, toks, k + 3);
        }
        if let Ok((a, j)) = p_alias(b, toks, k) {
            if k < j <= toks.len() {
                lemma_aliases_error_in_text(b, toks, j, acc.push(a));
            }
        }
    }
}

/// A syntax error points into the text: at one of its bytes, or just past
/// its end.
pub proof fn law_parse_error_in_text(b: Seq<u8>)
    requires
        b.len() <= usize::MAX,
    ensures
        spec_parse(b) matches Err(e) ==> e.offset <= b.len(),
{
    lemma_lex_error_in_text(b, 0);
    lemma_lex_wf(b, 0);
    if let Ok(toks) = lex(b) {
        lemma_error_at_in_text(b, toks);
        lemma_aliases_error_in_text(b, toks, 0, Seq::empty());
        if let Ok((aliases, k)) = p_aliases(b, toks, 0, Seq::empty()) {
            lemma_node_error_in_text(b, toks, k);
        }
    }
}

// ----------------------------------------------------------------------
// Where things stand in the text
// ----------------------------------------------------------------------

/// Tokens come in text order, without overlap.
pub open spec fn tokens_sorted(ts: Seq<Token>) -> bool {
    forall|j: int, l: int| #![trigger ts[j], ts[l]] 0 <= j < l < ts.len() ==> ts[j].end <= ts[l].start
}

proof fn lemma_lex_sorted(b: Seq<u8>, i: int)
    requires
        b.len() <= usize::MAX,
        0 <= i <= b.len(),
    ensures
        lex_from(b, i) matches Ok(ts) ==> tokens_sorted(ts) && forall|j: int|
            0 <= j < ts.len() ==> i <= #[trigger] ts[j].start,
    decreases b.len() - i,
{
    if i < b.len() {
        if is_space(b[i]) {
            lemma_lex_sorted(b, i + 1);
        } else if b[i] == 47 && i + 1 < b.len() && b[i + 1] == 47 {
            lemma_line_end(b, i + 2);
            lemma_lex_sorted(b, line_end(b, i + 2));
        } else if punct_kind(b[i]) is Some {
            lemma_lex_sorted(b, i + 1);
            if lex_from(b, i) is Ok {
                let ts = lex_from(b, i)->Ok_0;
                let rest = lex_from(b, i + 1)->Ok_0;
                assert forall|j: int| 0 <= j < ts.len() implies i <= #[trigger] ts[j].start by {
                    if j > 0 {
                        assert(ts[j] == rest[j - 1]);
                    }
                }
                assert forall|j: int, l: int| #![trigger ts[j], ts[l]] 0 <= j < l < ts.len() implies ts[j].end
                    <= ts[l].start by {
                    assert(ts[l] == rest[l - 1]);
                    if j > 0 {
                        assert(ts[j] == rest[j - 1]);
                    }
                }
            }
        } else if is_word_byte(b[i]) {
            lemma_word_end(b, i);
            lemma_word_end(b, i + 1);
            let e = word_end(b, i);
            lemma_lex_sorted(b, e);
            if lex_from(b, i) is Ok {
                let ts = lex_from(b, i)->Ok_0;
                let rest = lex_from(b, e)->Ok_0;
                assert forall|j: int| 0 <= j < ts.len() implies i <= #[trigger] ts[j].start by {
                    if j > 0 {
                        assert(ts[j] == rest[j - 1]);
                    }
                }
                assert forall|j: int, l: int| #![trigger ts[j], ts[l]] 0 <= j < l < ts.len() implies ts[j].end
                    <= ts[l].start by {
                    assert(ts[l] == rest[l - 1]);
                    if j > 0 {
                        assert(ts[j] == rest[j - 1]);
                    }
                }
            }
        }
    }
}

/// The text under a span.
pub open spec fn text_at(b: Seq<u8>, s: Span) -> Seq<char> {
    decode_utf8(b.subrange(s.start as int, s.end as int))
}

/// `inner` starts no later than it ends, and lies within `outer`.
pub open spec fn span_inside(inner: Span, outer: Span) -> bool {
    outer.start <= inner.start && inner.start <= inner.end && inner.end <= outer.end
}

/// A span that covers at least one byte of the text.
pub open spec fn span_in_text(s: Span, b: Seq<u8>) -> bool {
    s.start < s.end <= b.len()
}

/// The span that a property value covers.
pub open spec fn value_span(v: SpecPropertyValue) -> Span {
    match v {
        SpecPropertyValue::Type(tv) => tv.span,
        SpecPropertyValue::UInt(_, s) => s,
        SpecPropertyValue::Literal(_, s) => s,
    }
}

/// Each word of the value is the text under its span, and each part lies
/// within the span of what holds it.
pub open spec fn value_placed(v: SpecPropertyValue, b: Seq<u8>) -> bool
    decreases v,
{
    match v {
        SpecPropertyValue::Type(tv) => type_value_placed(tv, b),
        SpecPropertyValue::UInt(_, s) => span_in_text(s, b),
        SpecPropertyValue::Literal(l, s) => span_in_text(s, b) && l == text_at(b, s),
    }
}

pub open spec fn type_value_placed(tv: SpecTypeValue, b: Seq<u8>) -> bool
    decreases tv,
{
    &&& span_in_text(tv.name_span, b)
    &&& tv.name == text_at(b, tv.name_span)
    &&& span_inside(tv.name_span, tv.span)
    &&& tv.span.end <= b.len()
    &&& match tv.inner {
        SpecTypeValueInner::Properties(ps) => forall|i: int|
            0 <= i < ps.len() ==> span_inside(#[trigger] ps[i].span, tv.span) && property_placed(ps[i], b),
        SpecTypeValueInner::Value(v) => span_inside(value_span(*v), tv.span) && value_placed(*v, b),
        SpecTypeValueInner::Empty => true,
    }
}

pub open spec fn property_placed(p: SpecProperty, b: Seq<u8>) -> bool
    decreases p,
{
    &&& span_in_text(p.key_span, b)
    &&& p.key == text_at(b, p.key_span)
    &&& span_inside(p.key_span, p.span)
    &&& span_inside(value_span(p.value), p.span)
    &&& p.span.end <= b.len()
    &&& value_placed(p.value, b)
}

pub open spec fn node_placed(node: SpecNodeType, b: Seq<u8>) -> bool
    decreases node,
{
    &&& span_in_text(node.name_span, b)
    &&& node.name == text_at(b, node.name_span)
    &&& span_inside(node.name_span, node.span)
    &&& node.span.end <= b.len()
    &&& forall|i: int|
        0 <= i < node.properties.len() ==> span_inside(#[trigger] node.properties[i].span, node.span)
            && property_placed(node.properties[i], b)
    &&& forall|i: int|
        0 <= i < node.children.len() ==> span_inside(#[trigger] node.children[i].span, node.span)
            && node_placed(node.children[i], b)
}

pub open spec fn alias_placed(a: SpecAliasDeclaration, b: Seq<u8>) -> bool {
    &&& span_in_text(a.name_span, b)
    &&& a.name == text_at(b, a.name_span)
    &&& span_inside(a.name_span, a.span)
    &&& span_inside(a.target.span, a.span)
    &&& a.span.end <= b.len()
    &&& type_value_placed(a.target, b)
}

/// Every name, key and word of the layout is the text under its span, every
/// span starts no later than it ends and lies within the text, and every
/// part lies within the span of what holds it.
pub open spec fn layout_placed(l: SpecLayout, b: Seq<u8>) -> bool {
    &&& forall|i: int| 0 <= i < l.aliases.len() ==> alias_placed(#[trigger] l.aliases[i], b)
    &&& node_placed(l.root, b)
}

/// What the grammar lemmas below may assume of the tokens.
pub open spec fn tokens_ok(b: Seq<u8>, toks: Seq<Token>) -> bool {
    tokens_wf(b, toks) && tokens_sorted(toks)
}

proof fn lemma_tok_order(b: Seq<u8>, toks: Seq<Token>, a: int, c: int)
    requires
        tokens_ok(b, toks),
        0 <= a <= c < toks.len(),
    ensures
        toks[a].start <= toks[c].start,
        toks[a].end <= toks[c].end,
        toks[a].start < toks[a].end,
        a < c ==> toks[a].end <= toks[c].start,
{
    assert(token_wf(b, toks[a]));
    assert(token_wf(b, toks[c]));
}

proof fn lemma_node_placed(b: Seq<u8>, toks: Seq<Token>, k: int)
    requires
        tokens_ok(b, toks),
    ensures
        p_node(b, toks, k) matches Ok((node, j)) ==> {
            &&& 0 <= k < j <= toks.len()
            &&& node.span == Span { start: toks[k].start, end: toks[j - 1].end }
            &&& node_placed(node, b)
        },
    decreases toks.len() - k, 0int,
{
    if p_ident(b, toks, k) is Ok && tok_is(toks, k + 1, TokenKind::LParen) {
        assert(token_wf(b, toks[k]));
        lemma_props_placed(b, toks, k + 2, Seq::empty(), toks[k].start as int);
        if let Ok((props, j)) = p_props(b, toks, k + 2, Seq::empty()) {
            lemma_tok_order(b, toks, k, j);
            if k + 2 <= j {
                lemma_tok_order(b, toks, k + 2, j);
            }
            if j >= k + 2 && tok_is(toks, j + 1, TokenKind::LBrace) {
                lemma_children_placed(b, toks, j + 2, Seq::empty(), toks[k].start as int);
                if let Ok((children, m)) = p_children(b, toks, j + 2, Seq::empty()) {
                    lemma_tok_order(b, toks, k, m);
                    lemma_tok_order(b, toks, j, m);
                    let node = p_node(b, toks, k)->Ok_0.0;
                    assert forall|i: int| 0 <= i < node.properties.len() implies span_inside(
                        #[trigger] node.properties[i].span,
                        node.span,
                    ) && property_placed(node.properties[i], b) by {}
                    assert forall|i: int| 0 <= i < node.children.len() implies span_inside(
                        #[trigger] node.children[i].span,
                        node.span,
                    ) && node_placed(node.children[i], b) by {}
                }
            }
        }
    }
}

proof fn lemma_children_placed(b: Seq<u8>, toks: Seq<Token>, k: int, acc: Seq<SpecNodeType>, lo: int)
    requires
        tokens_ok(b, toks),
        0 < k,
        k < toks.len() ==> lo <= toks[k].start,
        forall|i: int|
            0 <= i < acc.len() ==> lo <= (#[trigger] acc[i]).span.start && acc[i].span.start <= acc[i].span.end
                && acc[i].span.end <= toks[k - 1].end && node_placed(acc[i], b),
    ensures
        p_children(b, toks, k, acc) matches Ok((cs, m)) ==> {
            &&& k <= m < toks.len()
            &&& tok_is(toks, m, TokenKind::RBrace)
            &&& forall|i: int|
                0 <= i < cs.len() ==> lo <= (#[trigger] cs[i]).span.start && cs[i].span.start <= cs[i].span.end
                    && cs[i].span.end <= toks[m].start && node_placed(cs[i], b)
        },
    decreases toks.len() - k, 1int,
{
    if tok_is(toks, k, TokenKind::RBrace) {
        assert forall|i: int| 0 <= i < acc.len() implies acc[i].span.end <= toks[k].start by {
            lemma_tok_order(b, toks, k - 1, k);
        }
    } else {
        lemma_node_placed(b, toks, k);
        if let Ok((node, j)) = p_node(b, toks, k) {
            lemma_tok_order(b, toks, k, j - 1);
            let next = acc.push(node);
            if j > k && tok_is(toks, j, TokenKind::Comma) {
                lemma_tok_order(b, toks, j - 1, j);
                assert forall|i: int| 0 <= i < next.len() implies lo <= (#[trigger] next[i]).span.start
                    && next[i].span.start <= next[i].span.end && next[i].span.end <= toks[j].end
                    && node_placed(next[i], b) by {
                    if i < acc.len() {
                        assert(next[i] == acc[i]);
                        lemma_tok_order(b, toks, k - 1, j);
                    }
                }
                if j + 1 < toks.len() {
                    lemma_tok_order(b, toks, k, j + 1);
                }
                lemma_children_placed(b, toks, j + 1, next, lo);
            } else if tok_is(toks, j, TokenKind::RBrace) {
                lemma_tok_order(b, toks, j - 1, j);
                assert forall|i: int| 0 <= i < next.len() implies lo <= (#[trigger] next[i]).span.start
                    && next[i].span.start <= next[i].span.end && next[i].span.end <= toks[j].start
                    && node_placed(next[i], b) by {
                    if i < acc.len() {
                        assert(next[i] == acc[i]);
                        lemma_tok_order(b, toks, k - 1, j);
                    }
                }
            }
        }
    }
}

proof fn lemma_props_placed(b: Seq<u8>, toks: Seq<Token>, k: int, acc: Seq<SpecProperty>, lo: int)
    requires
        tokens_ok(b, toks),
        0 < k,
        k < toks.len() ==> lo <= toks[k].start,
        forall|i: int|
            0 <= i < acc.len() ==> lo <= (#[trigger] acc[i]).span.start && acc[i].span.start <= acc[i].span.end
                && acc[i].span.end <= toks[k - 1].end && property_placed(acc[i], b),
    ensures
        p_props(b, toks, k, acc) matches Ok((ps, j)) ==> {
            &&& k <= j < toks.len()
            &&& tok_is(toks, j, TokenKind::RParen)
            &&& forall|i: int|
                0 <= i < ps.len() ==> lo <= (#[trigger] ps[i]).span.start && ps[i].span.start <= ps[i].span.end
                    && ps[i].span.end <= toks[j].start && property_placed(ps[i], b)
        },
    decreases toks.len() - k, 3int,
{
    if tok_is(toks, k, TokenKind::RParen) {
        assert forall|i: int| 0 <= i < acc.len() implies acc[i].span.end <= toks[k].start by {
            lemma_tok_order(b, toks, k - 1, k);
        }
    } else {
        lemma_property_placed(b, toks, k);
        if let Ok((prop, j)) = p_property(b, toks, k) {
            lemma_tok_order(b, toks, k, j - 1);
            let next = acc.push(prop);
            if j > k && tok_is(toks, j, TokenKind::Comma) {
                lemma_tok_order(b, toks, j - 1, j);
                assert forall|i: int| 0 <= i < next.len() implies lo <= (#[trigger] next[i]).span.start
                    && next[i].span.start <= next[i].span.end && next[i].span.end <= toks[j].end
                    && property_placed(next[i], b) by {
                    if i < acc.len() {
                        assert(next[i] == acc[i]);
                        lemma_tok_order(b, toks, k - 1, j);
                    }
                }
                if j + 1 < toks.len() {
                    lemma_tok_order(b, toks, k, j + 1);
                }
                lemma_props_placed(b, toks, j + 1, next, lo);
            } else if tok_is(toks, j, TokenKind::RParen) {
                lemma_tok_order(b, toks, j - 1, j);
                assert forall|i: int| 0 <= i < next.len() implies lo <= (#[trigger] next[i]).span.start
                    && next[i].span.start <= next[i].span.end && next[i].span.end <= toks[j].start
                    && property_placed(next[i], b) by {
                    if i < acc.len() {
                        assert(next[i] == acc[i]);
                        lemma_tok_order(b, toks, k - 1, j);
                    }
                }
            }
        }
    }
}

proof fn lemma_property_placed(b: Seq<u8>, toks: Seq<Token>, k: int)
    requires
        tokens_ok(b, toks),
    ensures
        p_property(b, toks, k) matches Ok((p, j)) ==> {
            &&& 0 <= k < j <= toks.len()
            &&& p.span == Span { start: toks[k].start, end: toks[j - 1].end }
            &&& property_placed(p, b)
        },
    decreases toks.len() - k, 2int,
{
    if p_ident(b, toks, k) is Ok && tok_is(toks, k + 1, TokenKind::Equals) {
        assert(token_wf(b, toks[k]));
        lemma_value_placed(b, toks, k + 2);
        if let Ok((value, j)) = p_value(b, toks, k + 2) {
            lemma_tok_order(b, toks, k, j - 1);
            lemma_tok_order(b, toks, k, k + 2);
            lemma_tok_order(b, toks, k + 2, j - 1);
        }
    }
}

proof fn lemma_value_placed(b: Seq<u8>, toks: Seq<Token>, k: int)
    requires
        tokens_ok(b, toks),
    ensures
        p_value(b, toks, k) matches Ok((v, j)) ==> {
            &&& 0 <= k < j <= toks.len()
            &&& value_span(v) == Span { start: toks[k].start, end: toks[j - 1].end }
            &&& value_end(v) == toks[j - 1].end
            &&& value_placed(v, b)
        },
    decreases toks.len() - k, 1int,
{
    if tok_is(toks, k, TokenKind::Word) {
        assert(token_wf(b, toks[k]));
        if tok_is(toks, k + 1, TokenKind::LParen) {
            lemma_type_value_placed(b, toks, k);
        }
    }
}

proof fn lemma_type_value_placed(b: Seq<u8>, toks: Seq<Token>, k: int)
    requires
        tokens_ok(b, toks),
    ensures
        p_type_value(b, toks, k) matches Ok((tv, j)) ==> {
            &&& 0 <= k < j <= toks.len()
            &&& tv.span == Span { start: toks[k].start, end: toks[j - 1].end }
            &&& type_value_placed(tv, b)
        },
    decreases toks.len() - k, 0int,
{
    if p_ident(b, toks, k) is Ok && tok_is(toks, k + 1, TokenKind::LParen) {
        assert(token_wf(b, toks[k]));
        if tok_is(toks, k + 2, TokenKind::RParen) {
            lemma_tok_order(b, toks, k, k + 2);
        } else if tok_is(toks, k + 2, TokenKind::Word) && tok_is(toks, k + 3, TokenKind::Equals) {
            lemma_tok_order(b, toks, k, k + 2);
            lemma_props_placed(b, toks, k + 2, Seq::empty(), toks[k].start as int);
            if let Ok((props, j)) = p_props(b, toks, k + 2, Seq::empty()) {
                lemma_tok_order(b, toks, k, j);
                let tv = p_type_value(b, toks, k)->Ok_0.0;
                if let SpecTypeValueInner::Properties(ps) = tv.inner {
                    assert forall|i: int| 0 <= i < ps.len() implies span_inside(#[trigger] ps[i].span, tv.span)
                        && property_placed(ps[i], b) by {
                        lemma_tok_order(b, toks, j, j);
                    }
                }
            }
        } else {
            lemma_value_placed(b, toks, k + 2);
            if let Ok((v, j)) = p_value(b, toks, k + 2) {
                if tok_is(toks, j, TokenKind::RParen) {
                    lemma_tok_order(b, toks, k, j);
                    lemma_tok_order(b, toks, k, k + 2);
                    lemma_tok_order(b, toks, j - 1, j);
                }
            }
        }
    }
}

proof fn lemma_aliases_placed(b: Seq<u8>, toks: Seq<Token>, k: int, acc: Seq<SpecAliasDeclaration>)
    requires
        tokens_ok(b, toks),
        forall|i: int| 0 <= i < acc.len() ==> alias_placed(#[trigger] acc[i], b),
    ensures
        p_aliases(b, toks, k, acc) matches Ok((als, _)) ==> forall|i: int|
            0 <= i < als.len() ==> alias_placed(#[trigger] als[i], b),
    decreases toks.len() - k,
{
    if 0 <= k && is_alias_start(b, toks, k) {
        if p_ident(b, toks, k + 1) is Ok && tok_is(toks, k + 2, TokenKind::Equals) {
            assert(token_wf(b, toks[k + 1]));
            lemma_type_value_placed(b, toks, k + 3);
            if let Ok((target, j)) = p_type_value(b, toks, k + 3) {
                lemma_tok_order(b, toks, k, k + 1);
                lemma_tok_order(b, toks, k + 1, j - 1);
                lemma_tok_order(b, toks, k, k + 3);
            }
        }
        if let Ok((a, j)) = p_alias(b, toks, k) {
            let next = acc.push(a);
            assert forall|i: int| 0 <= i < next.len() implies alias_placed(#[trigger] next[i], b) by {
                if i < acc.len() {
                    assert(next[i] == acc[i]);
                }
            }
            if k < j <= toks.len() {
                lemma_aliases_placed(b, toks, j, next);
            }
        }
    }
}

/// A layout read from a text stands in it: every name, key and word is the
/// text under its span, every span starts no later than it ends and lies
/// within the text, and every part lies within the span of what holds it.
pub proof fn law_parse_layout_placed(b: Seq<u8>)
    requires
        b.len() <= usize::MAX,
    ensures
        spec_parse(b) matches Ok(l) ==> layout_placed(l, b),
{
    lemma_lex_wf(b, 0);
    lemma_lex_sorted(b, 0);
    if let Ok(toks) = lex(b) {
        lemma_aliases_placed(b, toks, 0, Seq::empty());
        if let Ok((aliases, k)) = p_aliases(b, toks, 0, Seq::empty()) {
            lemma_node_placed(b, toks, k);
        }
    }
}

// ----------------------------------------------------------------------
// Reading tokens
// ----------------------------------------------------------------------

pub open spec fn prepend_tokens(ts: Seq<Token>, r: Result<Seq<Token>, SpecParseError>) -> Result<
    Seq<Token>,
    SpecParseError,
> {
    match r {
        Ok(rest) => Ok(ts + rest),
        Err(e) => Err(e),
    }
}

pub open spec fn tokens_result_view(r: Result<Vec<Token>, ParseError>) -> Result<
    Seq<Token>,
    SpecParseError,
> {
    match r {
        Ok(ts) => Ok(ts@),
        Err(e) => Err(e@),
    }
}

fn byte_is_space(c: u8) -> (r: bool)
    ensures
        r == is_space(c),
{
    c == 32 || c == 9 || c == 10 || c == 13
}

fn byte_is_digit(c: u8) -> (r: bool)
    ensures
        r == is_digit(c),
{
    48 <= c && c <= 57
}

fn byte_is_alpha(c: u8) -> (r: bool)
    ensures
        r == is_alpha(c),
{
    (65 <= c && c <= 90) || (97 <= c && c <= 122)
}

pub fn word_byte(c: u8) -> (r: bool)
    ensures
        r == is_word_byte(c),
{
    byte_is_alpha(c) || byte_is_digit(c) || c == 95 || c == 45
}

fn byte_punct(c: u8) -> (r: Option<TokenKind>)
    ensures
        r == punct_kind(c),
{
    if c == 40 {
        Some(TokenKind::LParen)
    } else if c == 41 {
        Some(TokenKind::RParen)
    } else if c == 123 {
        Some(TokenKind::LBrace)
    } else if c == 125 {
        Some(TokenKind::RBrace)
    } else if c == 44 {
        Some(TokenKind::Comma)
    } else if c == 61 {
        Some(TokenKind::Equals)
    } else {
        None
    }
}

proof fn lemma_prepend_push(ts: Seq<Token>, t: Token, r: Result<Seq<Token>, SpecParseError>)
    ensures
        prepend_tokens(ts, prepend_token(t, r)) == prepend_tokens(ts.push(t), r),
{
    if let Ok(rest) = r {
        assert(ts + (seq![t] + rest) =~= ts.push(t) + rest);
    }
}

/// Splits the text into tokens.
pub fn tokenize(b: &[u8]) -> (r: Result<Vec<Token>, ParseError>)
    ensures
        tokens_result_view(r) == lex(b@),
{
    let mut toks: Vec<Token> = Vec::new();
    let mut i: usize = 0;
    assert(toks@ + Seq::<Token>::empty() =~= Seq::<Token>::empty());
    while i < b.len()
        invariant
            i <= b@.len(),
            lex(b@) == prepend_tokens(toks@, lex_from(b@, i as int)),
        decreases b.len() - i,
    {
        let c = b[i];
        if byte_is_space(c) {
            i = i + 1;
        } else if c == 47 && i + 1 < b.len() && b[i + 1] == 47 {
            let mut j: usize = i + 2;
            while j < b.len() && b[j] != 10
                invariant
                    i + 2 <= j <= b@.len(),
                    line_end(b@, i + 2) == line_end(b@, j as int),
                decreases b.len() - j,
            {
                j = j + 1;
            }
            i = j;
        } else if let Some(kind) = byte_punct(c) {
            let t = Token { kind, start: i, end: i + 1 };
            proof {
                lemma_prepend_push(toks@, t, lex_from(b@, i + 1));
            }
            toks.push(t);
            i = i + 1;
        } else if word_byte(c) {
            let mut j: usize = i + 1;
            while j < b.len() && word_byte(b[j])
                invariant
                    i < j <= b@.len(),
                    word_end(b@, i as int) == word_end(b@, j as int),
                decreases b.len() - j,
            {
                j = j + 1;
            }
            let t = Token { kind: TokenKind::Word, start: i, end: j };
            proof {
                lemma_prepend_push(toks@, t, lex_from(b@, j as int));
            }
            toks.push(t);
            i = j;
        } else {
            return Err(
                ParseError { message: String::from_str("unexpected character"), offset: i },
            );
        }
    }
    assert(toks@ + Seq::<Token>::empty() =~= toks@);
    Ok(toks)
}

// ----------------------------------------------------------------------
// Reading the grammar
// ----------------------------------------------------------------------

/// What the functions that read the grammar rely on: `b` is the text of
/// `src` and `toks` are its tokens.
pub open spec fn parse_context(src: &str, b: Seq<u8>, toks: Seq<Token>) -> bool {
    &&& b == bytes_of(src@)
    &&& tokens_wf(b, toks)
    &&& b.len() <= usize::MAX
    &&& toks.len() <= usize::MAX
}

pub open spec fn ident_result(r: Result<(String, Span), ParseError>) -> Result<
    (Seq<char>, Span),
    SpecParseError,
> {
    match r {
        Ok((s, sp)) => Ok((s@, sp)),
        Err(e) => Err(e@),
    }
}

pub open spec fn node_result(r: Result<(NodeType, usize), ParseError>) -> Result<
    (SpecNodeType, int),
    SpecParseError,
> {
    match r {
        Ok((n, j)) => Ok((n@, j as int)),
        Err(e) => Err(e@),
    }
}

pub open spec fn children_result(r: Result<(Vec<NodeType>, usize), ParseError>) -> Result<
    (Seq<SpecNodeType>, int),
    SpecParseError,
> {
    match r {
        Ok((ns, j)) => Ok((model_nodes(ns@), j as int)),
        Err(e) => Err(e@),
    }
}

pub open spec fn props_result(r: Result<(Vec<Property>, usize), ParseError>) -> Result<
    (Seq<SpecProperty>, int),
    SpecParseError,
> {
    match r {
        Ok((ps, j)) => Ok((model_properties(ps@), j as int)),
        Err(e) => Err(e@),
    }
}

pub open spec fn property_result(r: Result<(Property, usize), ParseError>) -> Result<
    (SpecProperty, int),
    SpecParseError,
> {
    match r {
        Ok((p, j)) => Ok((p@, j as int)),
        Err(e) => Err(e@),
    }
}

pub open spec fn value_result(r: Result<(PropertyValue, usize), ParseError>) -> Result<
    (SpecPropertyValue, int),
    SpecParseError,
> {
    match r {
        Ok((v, j)) => Ok((v@, j as int)),
        Err(e) => Err(e@),
    }
}

pub open spec fn type_value_result(r: Result<(TypeValue, usize), ParseError>) -> Result<
    (SpecTypeValue, int),
    SpecParseError,
> {
    match r {
        Ok((tv, j)) => Ok((tv@, j as int)),
        Err(e) => Err(e@),
    }
}

pub open spec fn alias_result(r: Result<(AliasDeclaration, usize), ParseError>) -> Result<
    (SpecAliasDeclaration, int),
    SpecParseError,
> {
    match r {
        Ok((a, j)) => Ok((a@, j as int)),
        Err(e) => Err(e@),
    }
}

pub open spec fn aliases_result(r: Result<(Vec<AliasDeclaration>, usize), ParseError>) -> Result<
    (Seq<SpecAliasDeclaration>, int),
    SpecParseError,
> {
    match r {
        Ok((aliases, j)) => Ok((model_aliases(aliases@), j as int)),
        Err(e) => Err(e@),
    }
}

pub open spec fn layout_result(r: Result<Layout, ParseError>) -> Result<SpecLayout, SpecParseError> {
    match r {
        Ok(l) => Ok(l@),
        Err(e) => Err(e@),
    }
}

proof fn lemma_model_properties_push(ps: Seq<Property>, p: Property)
    ensures
        model_properties(ps.push(p)) == model_properties(ps).push(model_property(p)),
{
    assert(ps.push(p).drop_last() =~= ps);
}

proof fn lemma_model_nodes_push(ns: Seq<NodeType>, n: NodeType)
    ensures
        model_nodes(ns.push(n)) == model_nodes(ns).push(model_node(n)),
{
    assert(ns.push(n).drop_last() =~= ns);
}

fn tok_at(toks: &Vec<Token>, k: usize, kind: TokenKind) -> (r: bool)
    ensures
        r == tok_is(toks@, k as int, kind),
{
    k < toks.len() && toks[k].kind == kind
}

fn error_at_token(b: &[u8], toks: &Vec<Token>, k: usize, msg: &str) -> (r: ParseError)
    ensures
        r@ == error_at(b@, toks@, k as int, msg@),
{
    let offset = if k < toks.len() {
        toks[k].start
    } else {
        b.len()
    };
    ParseError { message: String::from_str(msg), offset }
}

/// The text of a token, as a string.
fn token_string(src: &str, t: Token) -> (r: String)
    requires
        token_wf(bytes_of(src@), t),
    ensures
        r@ == token_text(bytes_of(src@), t),
{
    String::from_str(ascii_bounded_slice(src, t.start, t.end))
}

fn token_is_identifier(b: &[u8], t: Token) -> (r: bool)
    requires
        token_wf(b@, t),
    ensures
        r == is_identifier(b@, t),
{
    if t.kind != TokenKind::Word {
        return false;
    }
    let c = b[t.start];
    if !(byte_is_alpha(c) || c == 95) {
        return false;
    }
    let mut j: usize = t.start + 1;
    while j < t.end
        invariant
            t.start < j <= t.end <= b@.len(),
            forall|m: int| t.start < m < j ==> is_ident_rest(b@[m]),
        decreases t.end - j,
    {
        let c = b[j];
        if !(byte_is_alpha(c) || byte_is_digit(c) || c == 95) {
            return false;
        }
        j = j + 1;
    }
    true
}

fn token_is_number(b: &[u8], t: Token) -> (r: bool)
    requires
        token_wf(b@, t),
    ensures
        r == is_number(b@, t),
{
    let mut j: usize = t.start;
    while j < t.end
        invariant
            t.start <= j <= t.end <= b@.len(),
            forall|m: int| t.start <= m < j ==> is_digit(b@[m]),
        decreases t.end - j,
    {
        if !byte_is_digit(b[j]) {
            return false;
        }
        j = j + 1;
    }
    true
}

proof fn lemma_digits_value_grows(b: Seq<u8>, s: int, e: int)
    requires
        s < e,
        is_digit(b[e - 1]),
    ensures
        digits_value(b, s, e) >= digits_value(b, s, e - 1),
{
}

fn token_number(b: &[u8], t: Token) -> (r: u64)
    requires
        token_wf(b@, t),
        is_number(b@, t),
    ensures
        r == number_value(b@, t),
{
    let mut value: u64 = 0;
    let mut overflow = false;
    let mut j: usize = t.start;
    while j < t.end
        invariant
            t.start <= j <= t.end <= b@.len(),
            is_number(b@, t),
            !overflow ==> value == digits_value(b@, t.start as int, j as int),
            overflow ==> digits_value(b@, t.start as int, j as int) > u64::MAX,
        decreases t.end - j,
    {
        let d = (b[j] - 48) as u64;
        proof {
            lemma_digits_value_grows(b@, t.start as int, j + 1);
        }
        if !overflow {
            if value <= (u64::MAX - d) / 10 {
                value = value * 10 + d;
            } else {
                overflow = true;
            }
        }
        j = j + 1;
    }
    if overflow {
        0
    } else {
        value
    }
}

fn token_is_alias_keyword(b: &[u8], t: Token) -> (r: bool)
    requires
        token_wf(b@, t),
    ensures
        r == (b@.subrange(t.start as int, t.end as int) == seq![97u8, 108u8, 105u8, 97u8, 115u8]),
{
    let ghost kw = seq![97u8, 108u8, 105u8, 97u8, 115u8];
    if t.end - t.start != 5 {
        proof {
            assert(b@.subrange(t.start as int, t.end as int).len() != kw.len());
        }
        return false;
    }
    let s = t.start;
    let r = b[s] == 97 && b[s + 1] == 108 && b[s + 2] == 105 && b[s + 3] == 97 && b[s + 4] == 115;
    proof {
        let sub = b@.subrange(t.start as int, t.end as int);
        if r {
            assert(sub =~= kw);
        } else {
            assert(sub != kw) by {
                if sub == kw {
                    assert(sub[0] == kw[0] && sub[1] == kw[1] && sub[2] == kw[2] && sub[3] == kw[3] && sub[4] == kw[4]);
                }
            }
        }
    }
    r
}

fn parse_ident(src: &str, b: &[u8], toks: &Vec<Token>, k: usize) -> (r: Result<(String, Span), ParseError>)
    requires
        parse_context(src, b@, toks@),
    ensures
        ident_result(r) == p_ident(b@, toks@, k as int),
        r is Ok ==> k < toks@.len(),
{
    if k < toks.len() && token_is_identifier(b, toks[k]) {
        let t = toks[k];
        Ok((token_string(src, t), Span { start: t.start, end: t.end }))
    } else {
        Err(error_at_token(b, toks, k, "expected an identifier"))
    }
}

fn parse_node(src: &str, b: &[u8], toks: &Vec<Token>, k: usize) -> (r: Result<(NodeType, usize), ParseError>)
    requires
        parse_context(src, b@, toks@),
        k <= toks@.len(),
    ensures
        node_result(r) == p_node(b@, toks@, k as int),
        r matches Ok((_, j)) ==> j <= toks@.len(),
    decreases toks@.len() - k, 0int,
{
    let (name, name_span) = match parse_ident(src, b, toks, k) {
        Ok(x) => x,
        Err(e) => return Err(e),
    };
    if !tok_at(toks, k + 1, TokenKind::LParen) {
        return Err(error_at_token(b, toks, k + 1, "expected `(`"));
    }
    let (properties, j) = match parse_props(src, b, toks, k + 2, Vec::new()) {
        Ok(x) => x,
        Err(e) => return Err(e),
    };
    proof {
        assert(model_properties(Seq::<Property>::empty()) =~= Seq::<SpecProperty>::empty());
    }
    if j >= k + 2 && tok_at(toks, j + 1, TokenKind::LBrace) {
        let (children, m) = match parse_children(src, b, toks, j + 2, Vec::new()) {
            Ok(x) => x,
            Err(e) => return Err(e),
        };
        proof {
            assert(model_nodes(Seq::<NodeType>::empty()) =~= Seq::<SpecNodeType>::empty());
        }
        let span = Span { start: name_span.start, end: toks[m].end };
        Ok((NodeType { name, name_span, properties, children, span }, m + 1))
    } else {
        let span = Span { start: name_span.start, end: toks[j].end };
        proof {
            assert(model_nodes(Seq::<NodeType>::empty()) =~= Seq::<SpecNodeType>::empty());
        }
        Ok((NodeType { name, name_span, properties, children: Vec::new(), span }, j + 1))
    }
}

fn parse_children(
    src: &str,
    b: &[u8],
    toks: &Vec<Token>,
    k: usize,
    acc: Vec<NodeType>,
) -> (r: Result<(Vec<NodeType>, usize), ParseError>)
    requires
        parse_context(src, b@, toks@),
        k <= toks@.len(),
    ensures
        children_result(r) == p_children(b@, toks@, k as int, model_nodes(acc@)),
        r matches Ok((_, j)) ==> j < toks@.len(),
    decreases toks@.len() - k, 1int,
{
    if tok_at(toks, k, TokenKind::RBrace) {
        return Ok((acc, k));
    }
    let (node, j) = match parse_node(src, b, toks, k) {
        Ok(x) => x,
        Err(e) => return Err(e),
    };
    let mut acc = acc;
    let ghost before = acc@;
    proof {
        lemma_model_nodes_push(before, node);
    }
    if j > k && tok_at(toks, j, TokenKind::Comma) {
        acc.push(node);
        parse_children(src, b, toks, j + 1, acc)
    } else if tok_at(toks, j, TokenKind::RBrace) {
        acc.push(node);
        Ok((acc, j))
    } else {
        Err(error_at_token(b, toks, j, "expected `,` or `}`"))
    }
}

fn parse_props(
    src: &str,
    b: &[u8],
    toks: &Vec<Token>,
    k: usize,
    acc: Vec<Property>,
) -> (r: Result<(Vec<Property>, usize), ParseError>)
    requires
        parse_context(src, b@, toks@),
        k <= toks@.len(),
    ensures
        props_result(r) == p_props(b@, toks@, k as int, model_properties(acc@)),
        r matches Ok((_, j)) ==> j < toks@.len(),
    decreases toks@.len() - k, 3int,
{
    if tok_at(toks, k, TokenKind::RParen) {
        return Ok((acc, k));
    }
    let (prop, j) = match parse_property(src, b, toks, k) {
        Ok(x) => x,
        Err(e) => return Err(e),
    };
    let mut acc = acc;
    let ghost before = acc@;
    proof {
        lemma_model_properties_push(before, prop);
    }
    if j > k && tok_at(toks, j, TokenKind::Comma) {
        acc.push(prop);
        parse_props(src, b, toks, j + 1, acc)
    } else if tok_at(toks, j, TokenKind::RParen) {
        acc.push(prop);
        Ok((acc, j))
    } else {
        Err(error_at_token(b, toks, j, "expected `,` or `)`"))
    }
}

fn value_end_of(v: &PropertyValue) -> (r: usize)
    ensures
        r == value_end(v@),
{
    match v {
        PropertyValue::Type(tv) => tv.span.end,
        PropertyValue::UInt(_, s) => s.end,
        PropertyValue::Literal(_, s) => s.end,
    }
}

fn parse_property(src: &str, b: &[u8], toks: &Vec<Token>, k: usize) -> (r: Result<
    (Property, usize),
    ParseError,
>)
    requires
        parse_context(src, b@, toks@),
        k <= toks@.len(),
    ensures
        property_result(r) == p_property(b@, toks@, k as int),
        r matches Ok((_, j)) ==> j <= toks@.len(),
    decreases toks@.len() - k, 2int,
{
    let (key, key_span) = match parse_ident(src, b, toks, k) {
        Ok(x) => x,
        Err(e) => return Err(e),
    };
    if !tok_at(toks, k + 1, TokenKind::Equals) {
        return Err(error_at_token(b, toks, k + 1, "expected `=`"));
    }
    let (value, j) = match parse_value(src, b, toks, k + 2) {
        Ok(x) => x,
        Err(e) => return Err(e),
    };
    let end = value_end_of(&value);
    Ok((Property { key, key_span, value, span: Span { start: key_span.start, end } }, j))
}

fn parse_value(src: &str, b: &[u8], toks: &Vec<Token>, k: usize) -> (r: Result<
    (PropertyValue, usize),
    ParseError,
>)
    requires
        parse_context(src, b@, toks@),
        k <= toks@.len(),
    ensures
        value_result(r) == p_value(b@, toks@, k as int),
        r matches Ok((_, j)) ==> j <= toks@.len(),
    decreases toks@.len() - k, 1int,
{
    if tok_at(toks, k, TokenKind::Word) {
        if tok_at(toks, k + 1, TokenKind::LParen) {
            match parse_type_value(src, b, toks, k) {
                Ok((tv, j)) => Ok((PropertyValue::Type(tv), j)),
                Err(e) => Err(e),
            }
        } else {
            let t = toks[k];
            let span = Span { start: t.start, end: t.end };
            if token_is_number(b, t) {
                Ok((PropertyValue::UInt(token_number(b, t), span), k + 1))
            } else {
                Ok((PropertyValue::Literal(token_string(src, t), span), k + 1))
            }
        }
    } else {
        Err(error_at_token(b, toks, k, "expected a value"))
    }
}

fn parse_type_value(src: &str, b: &[u8], toks: &Vec<Token>, k: usize) -> (r: Result<
    (TypeValue, usize),
    ParseError,
>)
    requires
        parse_context(src, b@, toks@),
        k <= toks@.len(),
    ensures
        type_value_result(r) == p_type_value(b@, toks@, k as int),
        r matches Ok((_, j)) ==> j <= toks@.len(),
    decreases toks@.len() - k, 0int,
{
    let (name, name_span) = match parse_ident(src, b, toks, k) {
        Ok(x) => x,
        Err(e) => return Err(e),
    };
    if !tok_at(toks, k + 1, TokenKind::LParen) {
        return Err(error_at_token(b, toks, k + 1, "expected `(`"));
    }
    if tok_at(toks, k + 2, TokenKind::RParen) {
        let span = Span { start: name_span.start, end: toks[k + 2].end };
        Ok((TypeValue { name, name_span, inner: TypeValueInner::Empty, span }, k + 3))
    } else if tok_at(toks, k + 2, TokenKind::Word) && tok_at(toks, k + 3, TokenKind::Equals) {
        let (props, j) = match parse_props(src, b, toks, k + 2, Vec::new()) {
            Ok(x) => x,
            Err(e) => return Err(e),
        };
        proof {
            assert(model_properties(Seq::<Property>::empty()) =~= Seq::<SpecProperty>::empty());
        }
        let span = Span { start: name_span.start, end: toks[j].end };
        Ok((TypeValue { name, name_span, inner: TypeValueInner::Properties(props), span }, j + 1))
    } else {
        let (v, j) = match parse_value(src, b, toks, k + 2) {
            Ok(x) => x,
            Err(e) => return Err(e),
        };
        if tok_at(toks, j, TokenKind::RParen) {
            let span = Span { start: name_span.start, end: toks[j].end };
            Ok(
                (
                    TypeValue { name, name_span, inner: TypeValueInner::Value(Box::new(v)), span },
                    j + 1,
                ),
            )
        } else {
            Err(error_at_token(b, toks, j, "expected `)`"))
        }
    }
}

fn parse_alias(src: &str, b: &[u8], toks: &Vec<Token>, k: usize) -> (r: Result<
    (AliasDeclaration, usize),
    ParseError,
>)
    requires
        parse_context(src, b@, toks@),
        k < toks@.len(),
    ensures
        alias_result(r) == p_alias(b@, toks@, k as int),
        r matches Ok((_, j)) ==> j <= toks@.len(),
{
    let (name, name_span) = match parse_ident(src, b, toks, k + 1) {
        Ok(x) => x,
        Err(e) => return Err(e),
    };
    if !tok_at(toks, k + 2, TokenKind::Equals) {
        return Err(error_at_token(b, toks, k + 2, "expected `=`"));
    }
    let (target, j) = match parse_type_value(src, b, toks, k + 3) {
        Ok(x) => x,
        Err(e) => return Err(e),
    };
    let span = Span { start: toks[k].start, end: target.span.end };
    Ok((AliasDeclaration { name, name_span, target, span }, j))
}

fn parse_aliases(
    src: &str,
    b: &[u8],
    toks: &Vec<Token>,
    k: usize,
    acc: Vec<AliasDeclaration>,
) -> (r: Result<(Vec<AliasDeclaration>, usize), ParseError>)
    requires
        parse_context(src, b@, toks@),
        k <= toks@.len(),
    ensures
        aliases_result(r) == p_aliases(b@, toks@, k as int, model_aliases(acc@)),
        r matches Ok((_, j)) ==> j <= toks@.len(),
    decreases toks@.len() - k,
{
    let is_start = tok_at(toks, k, TokenKind::Word) && token_is_alias_keyword(b, toks[k])
        && !tok_at(toks, k + 1, TokenKind::LParen);
    if !is_start {
        return Ok((acc, k));
    }
    let (a, j) = match parse_alias(src, b, toks, k) {
        Ok(x) => x,
        Err(e) => return Err(e),
    };
    let mut acc = acc;
    let ghost before = acc@;
    acc.push(a);
    proof {
        assert(model_aliases(acc@) =~= model_aliases(before).push(model_alias(a)));
    }
    if j > k && j <= toks.len() {
        parse_aliases(src, b, toks, j, acc)
    } else {
        Ok((acc, j))
    }
}

/// Reads the layout written in `src`.
pub fn parse(src: &str) -> (r: Result<Layout, ParseError>)
    ensures
        layout_result(r) == spec_parse(bytes_of(src@)),
{
    let b = src.as_bytes();
    let toks = match tokenize(b) {
        Ok(t) => t,
        Err(e) => return Err(e),
    };
    let n = toks.len();
    let blen = b.len();
    proof {
        lemma_lex_wf(b@, 0);
        assert(model_aliases(Seq::<AliasDeclaration>::empty()) =~= Seq::<SpecAliasDeclaration>::empty());
    }
    let (aliases, k) = match parse_aliases(src, b, &toks, 0, Vec::new()) {
        Ok(x) => x,
        Err(e) => return Err(e),
    };
    let (root, j) = match parse_node(src, b, &toks, k) {
        Ok(x) => x,
        Err(e) => return Err(e),
    };
    if j < toks.len() {
        return Err(error_at_token(b, &toks, j, "expected end of input"));
    }
    Ok(Layout { aliases, root })
}

} // verus!
