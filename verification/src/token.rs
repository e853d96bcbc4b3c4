//! The lexical scanner: source text in, a flat sequence of classified
//! tokens out.
//!
//! Scanning is total. Whitespace and commas separate tokens and carry no
//! meaning. The marks `{ } * : = . # $` each form a token of their own; a
//! double-quoted span forms a string literal (no escape processing, a span
//! left open at end of input takes the rest of the text); every other run of
//! characters forms an identifier. The stream always ends with a single
//! end-of-input token.

use vstd::prelude::*;

verus! {

/// What kind of lexical unit a token is.
#[derive(Debug, PartialEq, Eq, Clone)]
pub enum TokenKind {
    Identifier(String),
    StringLiteral(String),
    OpenBrace,
    CloseBrace,
    Star,
    Colon,
    Equals,
    Dot,
    Hash,
    Dollar,
    EndOfInput,
}

/// A classified lexical unit with the source position (character index) it
/// starts at.
#[derive(Debug, PartialEq, Eq, Clone)]
pub struct Token {
    pub kind: TokenKind,
    pub position: usize,
}

/// Mathematical model of a `TokenKind`.
pub enum TokenKindModel {
    Identifier(Seq<char>),
    StringLiteral(Seq<char>),
    OpenBrace,
    CloseBrace,
    Star,
    Colon,
    Equals,
    Dot,
    Hash,
    Dollar,
    EndOfInput,
}

/// Mathematical model of a `Token`.
pub struct TokenModel {
    pub kind: TokenKindModel,
    pub position: int,
}

impl View for TokenKind {
    type V = TokenKindModel;

    open spec fn view(&self) -> TokenKindModel {
        match self {
            TokenKind::Identifier(s) => TokenKindModel::Identifier(s@),
            TokenKind::StringLiteral(s) => TokenKindModel::StringLiteral(s@),
            TokenKind::OpenBrace => TokenKindModel::OpenBrace,
            TokenKind::CloseBrace => TokenKindModel::CloseBrace,
            TokenKind::Star => TokenKindModel::Star,
            TokenKind::Colon => TokenKindModel::Colon,
            TokenKind::Equals => TokenKindModel::Equals,
            TokenKind::Dot => TokenKindModel::Dot,
            TokenKind::Hash => TokenKindModel::Hash,
            TokenKind::Dollar => TokenKindModel::Dollar,
            TokenKind::EndOfInput => TokenKindModel::EndOfInput,
        }
    }
}

impl View for Token {
    type V = TokenModel;

    open spec fn view(&self) -> TokenModel {
        TokenModel { kind: self.kind@, position: self.position as int }
    }
}

/// The model of a token sequence, element by element.
pub open spec fn tokens_view(ts: Seq<Token>) -> Seq<TokenModel> {
    Seq::new(ts.len(), |i: int| ts[i]@)
}

/// Characters that separate tokens and carry no meaning: whitespace and the
/// optional comma item separator.
pub open spec fn is_separator_char(c: char) -> bool {
    c == ' ' || c == '\t' || c == '\n' || c == '\r' || c == ','
}

/// The punctuation marks that form single-character tokens.
pub open spec fn punctuation_kind(c: char) -> Option<TokenKindModel> {
    if c == '{' {
        Some(TokenKindModel::OpenBrace)
    } else if c == '}' {
        Some(TokenKindModel::CloseBrace)
    } else if c == '*' {
        Some(TokenKindModel::Star)
    } else if c == ':' {
        Some(TokenKindModel::Colon)
    } else if c == '=' {
        Some(TokenKindModel::Equals)
    } else if c == '.' {
        Some(TokenKindModel::Dot)
    } else if c == '#' {
        Some(TokenKindModel::Hash)
    } else if c == '$' {
        Some(TokenKindModel::Dollar)
    } else {
        None
    }
}

/// Characters that extend an identifier span: anything that does not
/// separate, punctuate, or open a string literal. Unrecognized characters
/// are thereby folded into identifier spans, which keeps scanning total.
pub open spec fn is_identifier_char(c: char) -> bool {
    !is_separator_char(c) && punctuation_kind(c) is None && c != '"'
}

/// The index of the closing quote of a string literal whose body starts at
/// `pos`, or the input length if the span is left open.
pub open spec fn string_end(s: Seq<char>, pos: int) -> int
    decreases s.len() - pos when 0 <= pos <= s.len()
{
    if pos >= s.len() {
        s.len() as int
    } else if s[pos] == '"' {
        pos
    } else {
        string_end(s, pos + 1)
    }
}

/// The index one past the identifier span that starts at `pos`.
pub open spec fn identifier_end(s: Seq<char>, pos: int) -> int
    decreases s.len() - pos when 0 <= pos <= s.len()
{
    if pos >= s.len() {
        s.len() as int
    } else if is_identifier_char(s[pos]) {
        identifier_end(s, pos + 1)
    } else {
        pos
    }
}

pub proof fn lemma_string_end_bounds(s: Seq<char>, pos: int)
    requires
        0 <= pos <= s.len(),
    ensures
        pos <= string_end(s, pos) <= s.len(),
    decreases s.len() - pos,
{
    if pos < s.len() && s[pos] != '"' {
        lemma_string_end_bounds(s, pos + 1);
    }
}

pub proof fn lemma_identifier_end_bounds(s: Seq<char>, pos: int)
    requires
        0 <= pos <= s.len(),
    ensures
        pos <= identifier_end(s, pos) <= s.len(),
    decreases s.len() - pos,
{
    if pos < s.len() && is_identifier_char(s[pos]) {
        lemma_identifier_end_bounds(s, pos + 1);
    }
}

/// `string_end` is the least index at or past `pos` holding a quote.
pub proof fn lemma_string_end_is_first(s: Seq<char>, pos: int, end: int)
    requires
        0 <= pos <= end <= s.len(),
        forall|k: int| pos <= k < end ==> s[k] != '"',
        end == s.len() || s[end] == '"',
    ensures
        string_end(s, pos) == end,
    decreases end - pos,
{
    if pos < end {
        lemma_string_end_is_first(s, pos + 1, end);
    }
}

/// `identifier_end` is the first index at or past `pos` that does not
/// extend an identifier.
pub proof fn lemma_identifier_end_is_first(s: Seq<char>, pos: int, end: int)
    requires
        0 <= pos <= end <= s.len(),
        forall|k: int| pos <= k < end ==> is_identifier_char(s[k]),
        end == s.len() || !is_identifier_char(s[end]),
    ensures
        identifier_end(s, pos) == end,
    decreases end - pos,
{
    if pos < end {
        lemma_identifier_end_is_first(s, pos + 1, end);
    }
}

/// The token sequence of the source text from position `pos` on.
pub open spec fn spec_scan(s: Seq<char>, pos: int) -> Seq<TokenModel>
    decreases s.len() - pos when 0 <= pos <= s.len()
    via spec_scan_decreases
{
    if pos >= s.len() {
        seq![TokenModel { kind: TokenKindModel::EndOfInput, position: s.len() as int }]
    } else if is_separator_char(s[pos]) {
        spec_scan(s, pos + 1)
    } else if punctuation_kind(s[pos]) is Some {
        seq![TokenModel { kind: punctuation_kind(s[pos])->0, position: pos }] + spec_scan(s, pos + 1)
    } else if s[pos] == '"' {
        let end = string_end(s, pos + 1);
        let text = s.subrange(pos + 1, end);
        let next = if end < s.len() { end + 1 } else { s.len() as int };
        seq![TokenModel { kind: TokenKindModel::StringLiteral(text), position: pos }] + spec_scan(s, next)
    } else {
        let end = identifier_end(s, pos + 1);
        seq![TokenModel { kind: TokenKindModel::Identifier(s.subrange(pos, end)), position: pos }] + spec_scan(s, end)
    }
}

#[via_fn]
proof fn spec_scan_decreases(s: Seq<char>, pos: int) {
    if 0 <= pos < s.len() {
        if !is_separator_char(s[pos]) && punctuation_kind(s[pos]) is None {
            if s[pos] == '"' {
                lemma_string_end_bounds(s, pos + 1);
            } else {
                lemma_identifier_end_bounds(s, pos + 1);
            }
        }
    }
}

/// A well-formed token stream: one end-of-input token, standing last.
pub open spec fn wf_stream(ts: Seq<TokenModel>) -> bool {
    &&& ts.len() >= 1
    &&& ts[ts.len() - 1].kind is EndOfInput
    &&& forall|i: int| 0 <= i < ts.len() - 1 ==> !(#[trigger] ts[i].kind is EndOfInput)
}

/// Scanning always yields a well-formed stream.
pub proof fn lemma_spec_scan_wf(s: Seq<char>, pos: int)
    requires
        0 <= pos <= s.len(),
    ensures
        wf_stream(spec_scan(s, pos)),
    decreases s.len() - pos,
{
    if pos >= s.len() {
    } else if is_separator_char(s[pos]) {
        lemma_spec_scan_wf(s, pos + 1);
    } else if punctuation_kind(s[pos]) is Some {
        lemma_spec_scan_wf(s, pos + 1);
    } else if s[pos] == '"' {
        let end = string_end(s, pos + 1);
        lemma_string_end_bounds(s, pos + 1);
        let next = if end < s.len() { end + 1 } else { s.len() as int };
        lemma_spec_scan_wf(s, next);
    } else {
        let end = identifier_end(s, pos + 1);
        lemma_identifier_end_bounds(s, pos + 1);
        lemma_spec_scan_wf(s, end);
    }
}

/// Identifier tokens that all carry at least one character.
pub open spec fn identifiers_nonempty(ts: Seq<TokenModel>) -> bool {
    forall|i: int|
        0 <= i < ts.len() ==> ((#[trigger] ts[i].kind) matches TokenKindModel::Identifier(text)
            ==> text.len() >= 1)
}

/// The scanner never emits an empty identifier.
pub proof fn lemma_spec_scan_identifiers(s: Seq<char>, pos: int)
    requires
        0 <= pos <= s.len(),
    ensures
        identifiers_nonempty(spec_scan(s, pos)),
    decreases s.len() - pos,
{
    if pos >= s.len() {
    } else if is_separator_char(s[pos]) {
        lemma_spec_scan_identifiers(s, pos + 1);
    } else if punctuation_kind(s[pos]) is Some {
        lemma_spec_scan_identifiers(s, pos + 1);
    } else if s[pos] == '"' {
        let end = string_end(s, pos + 1);
        lemma_string_end_bounds(s, pos + 1);
        let next = if end < s.len() {
            end + 1
        } else {
            s.len() as int
        };
        lemma_spec_scan_identifiers(s, next);
    } else {
        let end = identifier_end(s, pos + 1);
        lemma_identifier_end_bounds(s, pos + 1);
        lemma_spec_scan_identifiers(s, end);
    }
}

fn is_separator_char_exec(c: char) -> (r: bool)
    ensures
        r == is_separator_char(c),
{
    c == ' ' || c == '\t' || c == '\n' || c == '\r' || c == ','
}

fn punctuation_kind_exec(c: char) -> (r: Option<TokenKind>)
    ensures
        match r {
            Some(k) => punctuation_kind(c) == Some(k@),
            None => punctuation_kind(c) is None,
        },
{
    if c == '{' {
        Some(TokenKind::OpenBrace)
    } else if c == '}' {
        Some(TokenKind::CloseBrace)
    } else if c == '*' {
        Some(TokenKind::Star)
    } else if c == ':' {
        Some(TokenKind::Colon)
    } else if c == '=' {
        Some(TokenKind::Equals)
    } else if c == '.' {
        Some(TokenKind::Dot)
    } else if c == '#' {
        Some(TokenKind::Hash)
    } else if c == '$' {
        Some(TokenKind::Dollar)
    } else {
        None
    }
}

fn is_identifier_char_exec(c: char) -> (r: bool)
    ensures
        r == is_identifier_char(c),
{
    !is_separator_char_exec(c) && punctuation_kind_exec(c).is_none() && c != '"'
}

/// Turn source text into its token sequence. Total: any text scans.
pub fn scan(source: &str) -> (r: Vec<Token>)
    ensures
        tokens_view(r@) == spec_scan(source@, 0),
        wf_stream(tokens_view(r@)),
{
    let n = source.unicode_len();
    let mut tokens: Vec<Token> = Vec::new();
    let mut i: usize = 0;
    while i < n
        invariant
            n == source@.len(),
            0 <= i <= n,
            tokens_view(tokens@) + spec_scan(source@, i as int) == spec_scan(source@, 0),
        decreases n - i,
    {
        let ghost prefix = tokens_view(tokens@);
        let c = source.get_char(i);
        if is_separator_char_exec(c) {
            i = i + 1;
        } else if let Some(kind) = punctuation_kind_exec(c) {
            let ghost kv = kind@;
            tokens.push(Token { kind, position: i });
            proof {
                assert(tokens_view(tokens@) =~= prefix.push(
                    TokenModel { kind: kv, position: i as int },
                ));
                assert(prefix.push(TokenModel { kind: kv, position: i as int }) + spec_scan(
                    source@,
                    i + 1,
                ) =~= prefix + spec_scan(source@, i as int));
            }
            i = i + 1;
        } else if c == '"' {
            let mut j = i + 1;
            while j < n && source.get_char(j) != '"'
                invariant
                    n == source@.len(),
                    i + 1 <= j <= n,
                    forall|k: int| i + 1 <= k < j ==> source@[k] != '"',
                decreases n - j,
            {
                j = j + 1;
            }
            proof {
                lemma_string_end_is_first(source@, i + 1, j as int);
            }
            let text = source.substring_char(i + 1, j);
            let ghost tv = text@;
            tokens.push(Token { kind: TokenKind::StringLiteral(text.to_owned()), position: i });
            let next = if j < n {
                j + 1
            } else {
                n
            };
            proof {
                assert(tokens_view(tokens@) =~= prefix.push(
                    TokenModel { kind: TokenKindModel::StringLiteral(tv), position: i as int },
                ));
                assert(tokens_view(tokens@) + spec_scan(source@, next as int) =~= prefix
                    + spec_scan(source@, i as int));
            }
            i = next;
        } else {
            let mut j = i + 1;
            while j < n && is_identifier_char_exec(source.get_char(j))
                invariant
                    n == source@.len(),
                    i + 1 <= j <= n,
                    forall|k: int| i + 1 <= k < j ==> is_identifier_char(source@[k]),
                decreases n - j,
            {
                j = j + 1;
            }
            proof {
                lemma_identifier_end_is_first(source@, i + 1, j as int);
            }
            let text = source.substring_char(i, j);
            let ghost tv = text@;
            tokens.push(Token { kind: TokenKind::Identifier(text.to_owned()), position: i });
            proof {
                assert(tokens_view(tokens@) =~= prefix.push(
                    TokenModel { kind: TokenKindModel::Identifier(tv), position: i as int },
                ));
                assert(tokens_view(tokens@) + spec_scan(source@, j as int) =~= prefix + spec_scan(
                    source@,
                    i as int,
                ));
            }
            i = j;
        }
    }
    tokens.push(Token { kind: TokenKind::EndOfInput, position: n });
    proof {
        assert(tokens_view(tokens@) =~= tokens_view(tokens@.subrange(0, tokens@.len() - 1)).push(
            TokenModel { kind: TokenKindModel::EndOfInput, position: n as int },
        ));
        assert(tokens_view(tokens@) =~= spec_scan(source@, 0));
        lemma_spec_scan_wf(source@, 0);
    }
    tokens
}

} // verus!
