//! Token trees: the input of the state machine macros, and their text.
use vstd::prelude::*;
use crate::text::push_char;

verus! {

broadcast use vstd::std_specs::vec::axiom_vec_index_decreases;

/// The delimiter of a group of tokens.
#[derive(Clone, Copy, Debug, PartialEq, Eq, Structural)]
pub enum Delimiter {
    Parenthesis,
    Brace,
    Bracket,
    Invisible,
}

/// A token tree: an identifier (keywords included), a punctuation character
/// (with whether it is joined to the next one), a literal's source text, or a
/// delimited group of token trees.
#[derive(Debug)]
pub enum TokenTree {
    Ident(String),
    Punct(char, bool),
    Literal(String),
    Group(Delimiter, Vec<TokenTree>),
}

/// The opening character of a delimiter.
pub open spec fn open_text(d: Delimiter) -> Seq<char> {
    match d {
        Delimiter::Parenthesis => seq!['('],
        Delimiter::Brace => seq!['{'],
        Delimiter::Bracket => seq!['['],
        Delimiter::Invisible => seq![],
    }
}

/// The closing character of a delimiter.
pub open spec fn close_text(d: Delimiter) -> Seq<char> {
    match d {
        Delimiter::Parenthesis => seq![')'],
        Delimiter::Brace => seq!['}'],
        Delimiter::Bracket => seq![']'],
        Delimiter::Invisible => seq![],
    }
}

/// Whether `t` is a punctuation character joined to the next token.
pub open spec fn is_joint(t: TokenTree) -> bool {
    match t {
        TokenTree::Punct(_, joint) => joint,
        _ => false,
    }
}

/// What stands between a token and the next one: nothing after a joined
/// punctuation character, one space otherwise.
pub open spec fn separator(prev: TokenTree) -> Seq<char> {
    if is_joint(prev) {
        seq![]
    } else {
        seq![' ']
    }
}

/// The source text of a token tree.
pub open spec fn token_text(t: TokenTree) -> Seq<char>
    decreases t,
{
    match t {
        TokenTree::Ident(s) => s@,
        TokenTree::Punct(c, _) => seq![c],
        TokenTree::Literal(s) => s@,
        TokenTree::Group(d, inner) => open_text(d) + tokens_text(inner@) + close_text(d),
    }
}

/// The source text of a sequence of token trees.
pub open spec fn tokens_text(ts: Seq<TokenTree>) -> Seq<char>
    decreases ts,
{
    if ts.len() == 0 {
        seq![]
    } else if ts.len() == 1 {
        token_text(ts[0])
    } else {
        tokens_text(ts.subrange(0, ts.len() - 1)) + separator(ts[ts.len() - 2]) + token_text(
            ts[ts.len() - 1],
        )
    }
}


/// Unfolds `tokens_text` on the range `lo..i + 1` of a sequence.
pub proof fn lemma_tokens_text_extend(ts: Seq<TokenTree>, lo: int, i: int)
    requires
        0 <= lo <= i < ts.len(),
    ensures
        tokens_text(ts.subrange(lo, i + 1)) == if i == lo {
            token_text(ts[i])
        } else {
            tokens_text(ts.subrange(lo, i)) + separator(ts[i - 1]) + token_text(ts[i])
        },
{
    let s = ts.subrange(lo, i + 1);
    assert(s.subrange(0, s.len() - 1) =~= ts.subrange(lo, i));
}

/// Whether a token is a punctuation character joined to the next token.
pub fn token_is_joint(t: &TokenTree) -> (res: bool)
    ensures
        res == is_joint(*t),
{
    match t {
        TokenTree::Punct(_, joint) => *joint,
        _ => false,
    }
}

/// The source text of one token tree.
pub fn render_token(t: &TokenTree) -> (res: String)
    ensures
        res@ == token_text(*t),
    decreases t,
{
    match t {
        TokenTree::Ident(s) => s.clone(),
        TokenTree::Punct(c, _) => {
            let mut r = String::new();
            push_char(&mut r, *c);
            r
        },
        TokenTree::Literal(s) => s.clone(),
        TokenTree::Group(d, inner) => {
            let mut r = String::new();
            match d {
                Delimiter::Parenthesis => push_char(&mut r, '('),
                Delimiter::Brace => push_char(&mut r, '{'),
                Delimiter::Bracket => push_char(&mut r, '['),
                Delimiter::Invisible => {},
            }
            let body = render_tokens(inner, 0, inner.len());
            r.append(body.as_str());
            match d {
                Delimiter::Parenthesis => push_char(&mut r, ')'),
                Delimiter::Brace => push_char(&mut r, '}'),
                Delimiter::Bracket => push_char(&mut r, ']'),
                Delimiter::Invisible => {},
            }
            assert(inner@.subrange(0, inner@.len() as int) =~= inner@);
            r
        },
    }
}

/// The source text of the tokens `ts[lo..hi]`.
pub fn render_tokens(ts: &Vec<TokenTree>, lo: usize, hi: usize) -> (res: String)
    requires
        lo <= hi <= ts.len(),
    ensures
        res@ == tokens_text(ts@.subrange(lo as int, hi as int)),
    decreases ts,
{
    let mut res = String::new();
    let mut i = lo;
    assert(ts@.subrange(lo as int, lo as int) =~= Seq::<TokenTree>::empty());
    while i < hi
        invariant
            lo <= i <= hi <= ts.len(),
            res@ == tokens_text(ts@.subrange(lo as int, i as int)),
        decreases hi - i,
    {
        if i > lo && !token_is_joint(&ts[i - 1]) {
            push_char(&mut res, ' ');
        }
        let piece = render_token(&ts[i]);
        res.append(piece.as_str());
        proof {
            lemma_tokens_text_extend(ts@, lo as int, i as int);
        }
        i += 1;
    }
    res
}

/// In the text of token trees, a punctuation character joined to the next
/// token is followed by that token's text directly, whatever the character
/// (so `::` reads `::`), and any other token by one space and then the next
/// token's text.
pub proof fn law_text_joins_only_after_joint_punctuation(
    ts: Seq<TokenTree>,
    x: TokenTree,
    y: TokenTree,
)
    ensures
        x matches TokenTree::Punct(_, true) ==> tokens_text(ts.push(x).push(y)) == tokens_text(
            ts.push(x),
        ) + token_text(y),
        !(x matches TokenTree::Punct(_, true)) ==> tokens_text(ts.push(x).push(y)) == tokens_text(
            ts.push(x),
        ) + seq![' '] + token_text(y),
{
    let s = ts.push(x).push(y);
    assert(s.subrange(0, s.len() - 1) =~= ts.push(x));
    assert(s[s.len() - 2] == x);
}

} // verus!
