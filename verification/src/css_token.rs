//! CSS tokens, read with the `cssparser` tokenizer.
//!
//! The selector parser works on a token tree: each token records its kind,
//! its source text, and, for a block or function, the tokens inside it.
//! Whitespace tokens are kept (they separate compounds); comments are not.
//!
//! The text is read one token at a time: cssparser reads the first token of
//! the remaining text, and this module builds the tree, closing a block at
//! the closing bracket of its kind, as cssparser's nested parsers do.

use vstd::prelude::*;
use cssparser::{Parser, Token};

verus! {

#[verifier::external_type_specification]
#[verifier::external_body]
pub struct ExToken<'a>(Token<'a>);

/// Kinds of tokens that carry a name or a value.
#[derive(Debug, Clone, Copy, PartialEq, Eq, Structural)]
pub enum NamedKind {
    Ident,
    Function,
    AtKeyword,
    Hash,
    IdHash,
    QuotedString,
}

/// Kinds of tokens that carry nothing.
#[derive(Debug, Clone, Copy, PartialEq, Eq, Structural)]
pub enum PunctKind {
    WhiteSpace,
    Colon,
    Comma,
    IncludeMatch,
    DashMatch,
    PrefixMatch,
    SuffixMatch,
    SubstringMatch,
    SquareBracketBlock,
    ParenthesisBlock,
    CurlyBracketBlock,
    Other,
}

/// The kind of a token, with its value.
#[derive(Debug, PartialEq, Eq)]
pub enum TokenKind {
    /// `foo`
    Ident(String),
    /// `foo(`, opening a block.
    Function(String),
    /// `@foo`
    AtKeyword(String),
    /// `#123`: a hash that is not a valid identifier.
    Hash(String),
    /// `#foo`: a hash that is a valid identifier.
    IdHash(String),
    /// `"foo"`, without the quotes.
    QuotedString(String),
    /// A single delimiter character.
    Delim(char),
    /// Whitespace.
    WhiteSpace,
    /// `:`
    Colon,
    /// `,`
    Comma,
    /// `~=`
    IncludeMatch,
    /// `|=`
    DashMatch,
    /// `^=`
    PrefixMatch,
    /// `$=`
    SuffixMatch,
    /// `*=`
    SubstringMatch,
    /// `[`, opening a block.
    SquareBracketBlock,
    /// `(`, opening a block.
    ParenthesisBlock,
    /// `{`, opening a block.
    CurlyBracketBlock,
    /// Any other token (numbers, dimensions, unmatched closing brackets, ...).
    Other,
}

/// A token with its source text and, for a block, its contents.
#[derive(Debug, PartialEq, Eq)]
pub struct CssToken {
    /// What the token is.
    pub kind: TokenKind,
    /// The source text of the token, including any comment before it.
    pub text: String,
    /// The tokens inside a block or function.
    pub block: Vec<CssToken>,
    /// Whether the contents of a block were read (nesting limit).
    pub block_ok: bool,
}

/// Whether a token kind opens a block.
pub open spec fn opens_block(k: TokenKind) -> bool {
    k is Function || k is SquareBracketBlock || k is ParenthesisBlock || k is CurlyBracketBlock
}

/// A token tree is well built: a token that opens no block has no
/// contents and reads fine, at every level.
pub open spec fn tree_ok(ts: Seq<CssToken>) -> bool
    decreases ts,
{
    forall|i: int|
        0 <= i < ts.len() ==> (!opens_block(#[trigger] ts[i].kind) ==> ts[i].block@.len() == 0
            && ts[i].block_ok) && tree_ok(ts[i].block@)
}

/// How many blocks deep the tokenizer reads; the contents of deeper blocks
/// are skipped (cssparser's own nesting limit).
pub const MAX_BLOCK_DEPTH: u32 = 75u32;

/// The first token of a text as cssparser reads it (comments skipped,
/// whitespace kept): its name and value, its delimiter, its other kind,
/// the closing bracket it is (1 for `)`, 2 for `]`, 3 for `}`, 0 for none),
/// the text it spans (comments before it included) and the text after it;
/// `None` when only comments remain.
pub uninterp spec fn css_first_token(css: Seq<char>) -> Option<
    (Option<(NamedKind, Seq<char>)>, Option<char>, PunctKind, u8, Seq<char>, Seq<char>),
>;

/// The view of a token name and value.
pub open spec fn named_view(n: Option<(NamedKind, String)>) -> Option<(NamedKind, Seq<char>)> {
    match n {
        Some((k, s)) => Some((k, s@)),
        None => None,
    }
}

/// The kind and value of a token that carries a name or value.
///
/// Reads the variant of a `cssparser::Token`, one arm each.
#[verifier::external_body]
fn token_named<'a>(t: &Token<'a>) -> Option<(NamedKind, String)> {
    match t {
        Token::Ident(s) => Some((NamedKind::Ident, s.to_string())),
        Token::Function(s) => Some((NamedKind::Function, s.to_string())),
        Token::AtKeyword(s) => Some((NamedKind::AtKeyword, s.to_string())),
        Token::Hash(s) => Some((NamedKind::Hash, s.to_string())),
        Token::IDHash(s) => Some((NamedKind::IdHash, s.to_string())),
        Token::QuotedString(s) => Some((NamedKind::QuotedString, s.to_string())),
        _ => None,
    }
}

/// The character of a delimiter token.
///
/// Reads the variant of a `cssparser::Token`.
#[verifier::external_body]
fn token_delim<'a>(t: &Token<'a>) -> Option<char> {
    match t {
        Token::Delim(c) => Some(*c),
        _ => None,
    }
}

/// The kind of a token that carries nothing.
///
/// Reads the variant of a `cssparser::Token`, one arm each.
#[verifier::external_body]
fn token_punct<'a>(t: &Token<'a>) -> PunctKind {
    match t {
        Token::WhiteSpace(_) => PunctKind::WhiteSpace,
        Token::Colon => PunctKind::Colon,
        Token::Comma => PunctKind::Comma,
        Token::IncludeMatch => PunctKind::IncludeMatch,
        Token::DashMatch => PunctKind::DashMatch,
        Token::PrefixMatch => PunctKind::PrefixMatch,
        Token::SuffixMatch => PunctKind::SuffixMatch,
        Token::SubstringMatch => PunctKind::SubstringMatch,
        Token::SquareBracketBlock => PunctKind::SquareBracketBlock,
        Token::ParenthesisBlock => PunctKind::ParenthesisBlock,
        Token::CurlyBracketBlock => PunctKind::CurlyBracketBlock,
        _ => PunctKind::Other,
    }
}

/// The closing bracket a token is: 1 for `)`, 2 for `]`, 3 for `}`, 0 for
/// any other token.
///
/// Reads the variant of a `cssparser::Token`, one arm each.
#[verifier::external_body]
fn token_close<'a>(t: &Token<'a>) -> u8 {
    match t {
        Token::CloseParenthesis => 1,
        Token::CloseSquareBracket => 2,
        Token::CloseCurlyBracket => 3,
        _ => 0,
    }
}

/// The first token of `css`: a fresh `cssparser::Parser` over the text,
/// `Parser::next_including_whitespace`, and `Parser::position` for where the
/// token ends. The result is named `css_first_token` of the text. A token
/// spans at least one character, and the text it spans followed by the rest
/// is the whole text (the two are split at the parser's position, which
/// lies on a character boundary).
#[verifier::external_body]
fn read_token(css: &str) -> (r: Option<(Option<(NamedKind, String)>, Option<char>, PunctKind, u8, String, String)>)
    ensures
        r is None ==> css_first_token(css@) is None,
        r matches Some((n, d, p, c, text, rest)) ==> {
            &&& css_first_token(css@) == Some((named_view(n), d, p, c, text@, rest@))
            &&& text@.len() > 0
            &&& text@ + rest@ == css@
        },
{
    let mut parser = Parser::new(css);
    let t = parser.next_including_whitespace().ok()?.clone();
    let end = parser.position().byte_index();
    let (text, rest) = (css[..end].to_string(), css[end..].to_string());
    Some((token_named(&t), token_delim(&t), token_punct(&t), token_close(&t), text, rest))
}

/// The token kind of a token that carries nothing.
pub open spec fn punct_kind(p: PunctKind) -> TokenKind {
    match p {
        PunctKind::WhiteSpace => TokenKind::WhiteSpace,
        PunctKind::Colon => TokenKind::Colon,
        PunctKind::Comma => TokenKind::Comma,
        PunctKind::IncludeMatch => TokenKind::IncludeMatch,
        PunctKind::DashMatch => TokenKind::DashMatch,
        PunctKind::PrefixMatch => TokenKind::PrefixMatch,
        PunctKind::SuffixMatch => TokenKind::SuffixMatch,
        PunctKind::SubstringMatch => TokenKind::SubstringMatch,
        PunctKind::SquareBracketBlock => TokenKind::SquareBracketBlock,
        PunctKind::ParenthesisBlock => TokenKind::ParenthesisBlock,
        PunctKind::CurlyBracketBlock => TokenKind::CurlyBracketBlock,
        _ => TokenKind::Other,
    }
}

/// `k` is the library kind of a token read as (`named`, `delim`, `punct`):
/// a name or value first, then a delimiter, then the other kinds.
pub open spec fn kind_matches(
    k: TokenKind,
    named: Option<(NamedKind, Seq<char>)>,
    delim: Option<char>,
    punct: PunctKind,
) -> bool {
    match named {
        Some((nk, s)) => match nk {
            NamedKind::Ident => k matches TokenKind::Ident(x) && x@ == s,
            NamedKind::Function => k matches TokenKind::Function(x) && x@ == s,
            NamedKind::AtKeyword => k matches TokenKind::AtKeyword(x) && x@ == s,
            NamedKind::Hash => k matches TokenKind::Hash(x) && x@ == s,
            NamedKind::IdHash => k matches TokenKind::IdHash(x) && x@ == s,
            NamedKind::QuotedString => k matches TokenKind::QuotedString(x) && x@ == s,
        },
        None => match delim {
            Some(c) => k == TokenKind::Delim(c),
            None => k == punct_kind(punct),
        },
    }
}

/// The library kind of a token read by cssparser.
fn kind_of(named: Option<(NamedKind, String)>, delim: Option<char>, punct: PunctKind) -> (r:
    TokenKind)
    ensures
        kind_matches(r, named_view(named), delim, punct),
{
    match named {
        Some((k, s)) => {
            return match k {
                NamedKind::Ident => TokenKind::Ident(s),
                NamedKind::Function => TokenKind::Function(s),
                NamedKind::AtKeyword => TokenKind::AtKeyword(s),
                NamedKind::Hash => TokenKind::Hash(s),
                NamedKind::IdHash => TokenKind::IdHash(s),
                NamedKind::QuotedString => TokenKind::QuotedString(s),
            };
        },
        None => {},
    }
    match delim {
        Some(c) => {
            return TokenKind::Delim(c);
        },
        None => {},
    }
    match punct {
        PunctKind::WhiteSpace => TokenKind::WhiteSpace,
        PunctKind::Colon => TokenKind::Colon,
        PunctKind::Comma => TokenKind::Comma,
        PunctKind::IncludeMatch => TokenKind::IncludeMatch,
        PunctKind::DashMatch => TokenKind::DashMatch,
        PunctKind::PrefixMatch => TokenKind::PrefixMatch,
        PunctKind::SuffixMatch => TokenKind::SuffixMatch,
        PunctKind::SubstringMatch => TokenKind::SubstringMatch,
        PunctKind::SquareBracketBlock => TokenKind::SquareBracketBlock,
        PunctKind::ParenthesisBlock => TokenKind::ParenthesisBlock,
        PunctKind::CurlyBracketBlock => TokenKind::CurlyBracketBlock,
        _ => TokenKind::Other,
    }
}

/// The closing bracket of a block-opening kind: 1 for `)`, 2 for `]`, 3
/// for `}`; 0 for a kind that opens no block.
pub open spec fn closer_of(k: TokenKind) -> u8 {
    match k {
        TokenKind::Function(_) => 1,
        TokenKind::ParenthesisBlock => 1,
        TokenKind::SquareBracketBlock => 2,
        TokenKind::CurlyBracketBlock => 3,
        _ => 0,
    }
}

/// A token that is the closing bracket `c` closes the block waiting for
/// `close` (0: none closes).
pub open spec fn closes(c: u8, close: u8) -> bool {
    c != 0 && c == close
}

fn closer_code(k: &TokenKind) -> (r: u8)
    ensures
        r == closer_of(*k),
{
    match k {
        TokenKind::Function(_) => 1,
        TokenKind::ParenthesisBlock => 1,
        TokenKind::SquareBracketBlock => 2,
        TokenKind::CurlyBracketBlock => 3,
        _ => 0,
    }
}

fn is_closing(c: u8, close: u8) -> (r: bool)
    ensures
        r == closes(c, close),
{
    c != 0 && c == close
}

fn is_block_kind(k: &TokenKind) -> (r: bool)
    ensures
        r == opens_block(*k),
{
    match k {
        TokenKind::Function(_) | TokenKind::SquareBracketBlock | TokenKind::ParenthesisBlock
        | TokenKind::CurlyBracketBlock => true,
        _ => false,
    }
}

/// A token read as (`named`, `delim`, `punct`) opens a block.
pub open spec fn opens_raw(named: Option<(NamedKind, Seq<char>)>, delim: Option<char>, punct: PunctKind) -> bool {
    match named {
        Some((nk, _)) => nk == NamedKind::Function,
        None => delim is None && (punct == PunctKind::SquareBracketBlock || punct
            == PunctKind::ParenthesisBlock || punct == PunctKind::CurlyBracketBlock),
    }
}

/// The closing bracket of a block opened by a token read as (`named`,
/// `delim`, `punct`).
pub open spec fn closer_raw(named: Option<(NamedKind, Seq<char>)>, delim: Option<char>, punct: PunctKind) -> u8 {
    if named is Some || punct == PunctKind::ParenthesisBlock {
        1
    } else if punct == PunctKind::SquareBracketBlock {
        2
    } else {
        3
    }
}

/// The text after the block closed by `close` (0: the whole text) that
/// starts at `css`: past its closing bracket, or empty when it is never
/// closed. Blocks opened inside are passed over whole.
pub open spec fn block_end(css: Seq<char>, close: u8) -> Seq<char>
    decreases css.len(),
{
    match css_first_token(css) {
        None => Seq::empty(),
        Some((n, d, p, c, text, after)) => if after.len() >= css.len() {
            Seq::empty()
        } else if closes(c, close) {
            after
        } else if opens_raw(n, d, p) {
            let r1 = block_end(after, closer_raw(n, d, p));
            if r1.len() < css.len() {
                block_end(r1, close)
            } else {
                Seq::empty()
            }
        } else {
            block_end(after, close)
        },
    }
}

/// Reading `css` inside a block closed by `close` (0 at the top level),
/// `depth` more blocks deep at most, gives the tokens `ts`; reading stops
/// at the block's closing bracket or the end of the text, and goes on at
/// `block_end`. A block's contents are read the same way, closed by its
/// own bracket; past the depth limit they are passed over and the block is
/// marked unread. A closing bracket of another kind is an ordinary token.
pub open spec fn block_read(css: Seq<char>, close: u8, depth: nat, ts: Seq<CssToken>) -> bool
    decreases css.len(),
{
    match css_first_token(css) {
        None => ts.len() == 0,
        Some((n, d, p, c, text, after)) => if after.len() >= css.len() {
            ts.len() == 0
        } else if closes(c, close) {
            ts.len() == 0
        } else {
            &&& ts.len() > 0
            &&& kind_matches(ts[0].kind, n, d, p)
            &&& ts[0].text@ == text
            &&& if opens_raw(n, d, p) {
                let cl = closer_raw(n, d, p);
                let r1 = block_end(after, cl);
                &&& ts[0].block_ok == (depth > 0)
                &&& (depth > 0 ==> block_read(after, cl, (depth - 1) as nat, ts[0].block@))
                &&& (depth == 0 ==> ts[0].block@.len() == 0)
                &&& r1.len() < css.len()
                &&& block_read(r1, close, depth, ts.drop_first())
            } else {
                &&& ts[0].block@.len() == 0
                &&& ts[0].block_ok
                &&& block_read(after, close, depth, ts.drop_first())
            }
        },
    }
}

/// `block_end` never gives a longer text.
pub proof fn lemma_block_end_len(css: Seq<char>, close: u8)
    ensures
        block_end(css, close).len() <= css.len(),
    decreases css.len(),
{
    match css_first_token(css) {
        None => {},
        Some((n, d, p, c, text, after)) => {
            if after.len() < css.len() && !closes(c, close) {
                if opens_raw(n, d, p) {
                    let r1 = block_end(after, closer_raw(n, d, p));
                    lemma_block_end_len(after, closer_raw(n, d, p));
                    lemma_block_end_len(r1, close);
                } else {
                    lemma_block_end_len(after, close);
                }
            }
        },
    }
}

/// `ts` is the token tree of the CSS text `css`.
pub open spec fn css_tokens(css: Seq<char>, ts: Seq<CssToken>) -> bool {
    block_read(css, 0, MAX_BLOCK_DEPTH as nat, ts)
}

/// Reads the tokens of `css` up to the closing bracket `close` (0: to the
/// end), at most `depth` blocks deep: the tokens and the text after them.
fn read_block(css: &str, close: u8, depth: u32) -> (r: (Vec<CssToken>, String))
    ensures
        block_read(css@, close, depth as nat, r.0@),
        r.1@ == block_end(css@, close),
        tree_ok(r.0@),
    decreases css@.len(),
{
    let mut out: Vec<CssToken> = Vec::new();
    let mut cur: String = css.to_owned();
    proof {
        assert forall|ts: Seq<CssToken>| block_read(cur@, close, depth as nat, ts) implies block_read(
            css@,
            close,
            depth as nat,
            out@ + ts,
        ) by {
            assert(out@ + ts =~= ts);
        }
    }
    loop
        invariant
            cur@.len() <= css@.len(),
            tree_ok(out@),
            block_end(cur@, close) == block_end(css@, close),
            forall|ts: Seq<CssToken>|
                block_read(cur@, close, depth as nat, ts) ==> block_read(
                    css@,
                    close,
                    depth as nat,
                    out@ + ts,
                ),
        decreases cur@.len(),
    {
        let ghost c0 = cur@;
        let (n, d, p, c, text, after) = match read_token(cur.as_str()) {
            Some(x) => x,
            None => {
                proof {
                    assert(block_read(cur@, close, depth as nat, Seq::empty()));
                    assert(out@ + Seq::<CssToken>::empty() =~= out@);
                }
                return (out, String::new());
            },
        };
        proof {
            assert(after@.len() < c0.len()) by {
                assert((text@ + after@).len() == text@.len() + after@.len());
            }
        }
        if is_closing(c, close) {
            proof {
                assert(block_read(c0, close, depth as nat, Seq::empty()));
                assert(out@ + Seq::<CssToken>::empty() =~= out@);
            }
            return (out, after);
        }
        let ghost nv = named_view(n);
        let kind = kind_of(n, d, p);
        let is_block = is_block_kind(&kind);
        proof {
            assert(is_block == opens_raw(nv, d, p));
        }
        let (block, block_ok, rest) = if is_block {
            let cl = closer_code(&kind);
            proof {
                assert(cl == closer_raw(nv, d, p));
            }
            let dd: u32 = if depth > 0 {
                depth - 1
            } else {
                0
            };
            let (inner, r1) = read_block(after.as_str(), cl, dd);
            proof {
                lemma_block_end_len(after@, cl);
            }
            if depth > 0 {
                (inner, true, r1)
            } else {
                (Vec::new(), false, r1)
            }
        } else {
            (Vec::new(), true, after)
        };
        proof {
            assert(is_block ==> rest@ == block_end(after@, closer_raw(nv, d, p)) && rest@.len()
                < c0.len() && block_ok == (depth > 0) && (depth > 0 ==> block_read(
                after@,
                closer_raw(nv, d, p),
                (depth - 1) as nat,
                block@,
            )) && (depth == 0 ==> block@.len() == 0));
            assert(!is_block ==> rest@ == after@ && block@.len() == 0 && block_ok);
            assert(block_end(c0, close) == block_end(rest@, close));
        }
        let tok = CssToken { kind, text, block, block_ok };
        let ghost old_out = out@;
        proof {
            assert forall|ts: Seq<CssToken>| block_read(rest@, close, depth as nat, ts) implies block_read(
                c0,
                close,
                depth as nat,
                seq![tok] + ts,
            ) by {
                let full = seq![tok] + ts;
                assert(full.drop_first() =~= ts);
                assert(full[0] == tok);
            }
        }
        out.push(tok);
        cur = rest;
        proof {
            assert forall|ts: Seq<CssToken>| block_read(cur@, close, depth as nat, ts) implies block_read(
                css@,
                close,
                depth as nat,
                out@ + ts,
            ) by {
                assert(block_read(c0, close, depth as nat, seq![tok] + ts));
                assert(old_out + (seq![tok] + ts) =~= out@ + ts);
            }
            assert forall|i: int| 0 <= i < out@.len() implies (!opens_block(
                #[trigger] out@[i].kind,
            ) ==> out@[i].block@.len() == 0 && out@[i].block_ok) && tree_ok(out@[i].block@) by {
                if i < old_out.len() {
                    assert(out@[i] == old_out[i]);
                } else {
                    assert(tree_ok(Seq::<CssToken>::empty()));
                }
            }
        }
    }
}

/// The token tree of a CSS text.
pub fn tokenize(css: &str) -> (r: Vec<CssToken>)
    ensures
        css_tokens(css@, r@),
        tree_ok(r@),
{
    let (ts, _rest) = read_block(css, 0, MAX_BLOCK_DEPTH);
    ts
}

/// The `An+B` value a text parses to, by `cssparser::parse_nth` with the
/// whole text consumed.
pub uninterp spec fn anb_of(css: Seq<char>) -> Option<(i32, i32)>;

/// Parse an `An+B` expression from CSS text (`"2n+1"`, `"odd"`, `"3"`).
/// Returns `None` on a syntax error or when input is left over.
///
/// Calls `cssparser::parse_nth`, then `Parser::expect_exhausted`; the result
/// is named `anb_of` of the text.
#[verifier::external_body]
pub fn parse_anb(css: &str) -> (r: Option<(i32, i32)>)
    ensures
        r == anb_of(css@),
{
    let mut parser = Parser::new(css);
    let result = cssparser::parse_nth(&mut parser).ok()?;
    if parser.expect_exhausted().is_err() {
        return None;
    }
    Some(result)
}

} // verus!
