//! Pieces of grammar shared by the macro inputs: identifiers, punctuation,
//! attributes, visibility, types and generic parameter lists, read from a
//! sequence of token trees at a position.
use vstd::prelude::*;
use crate::error::{error_at, ErrorKind, ParseError, SpecParseError};
use crate::tokens::{render_tokens, tokens_text, Delimiter, TokenTree};

verus! {

/// A parse result read back as mathematical values: the parsed value's view
/// and the position after it, or the error.
pub open spec fn view_result<T: View>(r: Result<(T, usize), ParseError>) -> Result<
    (T::V, int),
    SpecParseError,
> {
    match r {
        Ok((v, j)) => Ok((v@, j as int)),
        Err(e) => Err(e@),
    }
}

/// Whether `t` is the punctuation character `c`.
pub open spec fn is_punct(t: TokenTree, c: char) -> bool {
    match t {
        TokenTree::Punct(p, _) => p == c,
        _ => false,
    }
}

/// Whether `t` is the punctuation character `c` joined to the next token.
pub open spec fn is_joint_punct(t: TokenTree, c: char) -> bool {
    match t {
        TokenTree::Punct(p, joint) => p == c && joint,
        _ => false,
    }
}

/// Whether `t` is the identifier (or keyword) `s`.
pub open spec fn is_ident_str(t: TokenTree, s: Seq<char>) -> bool {
    match t {
        TokenTree::Ident(x) => x@ == s,
        _ => false,
    }
}

/// Whether `t` is a group with delimiter `d`.
pub open spec fn is_group(t: TokenTree, d: Delimiter) -> bool {
    match t {
        TokenTree::Group(d2, _) => d2 == d,
        _ => false,
    }
}

/// Whether position `i` of `ts` holds the punctuation character `c`.
pub open spec fn punct_at(ts: Seq<TokenTree>, i: int, c: char) -> bool {
    0 <= i < ts.len() && is_punct(ts[i], c)
}

/// Whether position `i` of `ts` holds the identifier (or keyword) `s`.
pub open spec fn word_at(ts: Seq<TokenTree>, i: int, s: Seq<char>) -> bool {
    0 <= i < ts.len() && is_ident_str(ts[i], s)
}

/// Whether position `i` of `ts` holds a group with delimiter `d`.
pub open spec fn group_at(ts: Seq<TokenTree>, i: int, d: Delimiter) -> bool {
    0 <= i < ts.len() && is_group(ts[i], d)
}

/// The tokens inside a group.
pub open spec fn group_body(t: TokenTree) -> Seq<TokenTree> {
    match t {
        TokenTree::Group(_, inner) => inner@,
        _ => seq![],
    }
}

/// Whether positions `i` and `i + 1` of `ts` hold `=>`.
pub open spec fn fat_arrow_at(ts: Seq<TokenTree>, i: int) -> bool {
    0 <= i && i + 1 < ts.len() && is_joint_punct(ts[i], '=') && is_punct(ts[i + 1], '>')
}

/// The words that cannot name a state, a message, a field or a method.
pub open spec fn is_keyword(s: Seq<char>) -> bool {
    ||| s == "_"@
    ||| s == "abstract"@
    ||| s == "as"@
    ||| s == "become"@
    ||| s == "box"@
    ||| s == "break"@
    ||| s == "const"@
    ||| s == "continue"@
    ||| s == "crate"@
    ||| s == "do"@
    ||| s == "else"@
    ||| s == "enum"@
    ||| s == "extern"@
    ||| s == "false"@
    ||| s == "final"@
    ||| s == "fn"@
    ||| s == "for"@
    ||| s == "if"@
    ||| s == "impl"@
    ||| s == "in"@
    ||| s == "let"@
    ||| s == "loop"@
    ||| s == "macro"@
    ||| s == "match"@
    ||| s == "mod"@
    ||| s == "move"@
    ||| s == "mut"@
    ||| s == "override"@
    ||| s == "priv"@
    ||| s == "pub"@
    ||| s == "ref"@
    ||| s == "return"@
    ||| s == "Self"@
    ||| s == "self"@
    ||| s == "static"@
    ||| s == "struct"@
    ||| s == "super"@
    ||| s == "trait"@
    ||| s == "true"@
    ||| s == "type"@
    ||| s == "typeof"@
    ||| s == "unsafe"@
    ||| s == "unsized"@
    ||| s == "use"@
    ||| s == "virtual"@
    ||| s == "where"@
    ||| s == "while"@
    ||| s == "yield"@
}

/// An identifier that is not a keyword, at position `i`.
pub open spec fn spec_parse_ident(ts: Seq<TokenTree>, i: int) -> Result<
    (Seq<char>, int),
    SpecParseError,
> {
    if 0 <= i < ts.len() {
        match ts[i] {
            TokenTree::Ident(s) => if is_keyword(s@) {
                Err(error_at(ErrorKind::ExpectedIdent, i))
            } else {
                Ok((s@, i + 1))
            },
            _ => Err(error_at(ErrorKind::ExpectedIdent, i)),
        }
    } else {
        Err(error_at(ErrorKind::ExpectedIdent, i))
    }
}

/// The position after the outer attributes (`#[...]`) that start at `i`.
pub open spec fn skip_attrs(ts: Seq<TokenTree>, i: int) -> int
    decreases ts.len() - i,
{
    if 0 <= i && punct_at(ts, i, '#') && group_at(ts, i + 1, Delimiter::Bracket) {
        skip_attrs(ts, i + 2)
    } else {
        i
    }
}

/// Whether `t` is the scope of a restricted visibility: a group in
/// parentheses that starts with `crate`, `self`, `super` or `in`.
pub open spec fn is_vis_scope(t: TokenTree) -> bool {
    &&& is_group(t, Delimiter::Parenthesis)
    &&& word_at(group_body(t), 0, "crate"@) || word_at(group_body(t), 0, "self"@) || word_at(
        group_body(t),
        0,
        "super"@,
    ) || word_at(group_body(t), 0, "in"@)
}

/// The visibility that starts at `i` (`pub`, `pub` and its scope in
/// parentheses, `crate` not followed by `::`, or nothing), as text, with the
/// position after it. A group in parentheses after `pub` that is no scope
/// (such as the type `(u8, u16)` of an unnamed field) is not read.
pub open spec fn spec_parse_vis(ts: Seq<TokenTree>, i: int) -> (Seq<char>, int) {
    if word_at(ts, i, "pub"@) {
        if i + 1 < ts.len() && is_vis_scope(ts[i + 1]) {
            (tokens_text(ts.subrange(i, i + 2)), i + 2)
        } else {
            (tokens_text(ts.subrange(i, i + 1)), i + 1)
        }
    } else if word_at(ts, i, "crate"@) && !(i + 1 < ts.len() && is_joint_punct(ts[i + 1], ':')) {
        (tokens_text(ts.subrange(i, i + 1)), i + 1)
    } else {
        (seq![], i)
    }
}

/// The nesting of angle brackets after the token at `k`, given the nesting
/// before it; the `>` of an arrow `->` closes nothing.
pub open spec fn angle_depth_after(ts: Seq<TokenTree>, k: int, depth: nat) -> nat {
    if is_punct(ts[k], '<') {
        depth + 1
    } else if is_punct(ts[k], '>') && !(k > 0 && is_joint_punct(ts[k - 1], '-')) {
        if depth > 0 {
            (depth - 1) as nat
        } else {
            0
        }
    } else {
        depth
    }
}

/// Where a type that is being read at `k` (with `depth` angle brackets open)
/// ends: at the first `,` outside angle brackets, at a `where` outside angle
/// brackets when `stop_where` holds, or at the end of the tokens.
pub open spec fn scan_end(ts: Seq<TokenTree>, k: int, depth: nat, stop_where: bool) -> int
    decreases ts.len() - k,
{
    if k < 0 || k >= ts.len() {
        ts.len() as int
    } else if depth == 0 && is_punct(ts[k], ',') {
        k
    } else if depth == 0 && stop_where && is_ident_str(ts[k], "where"@) {
        k
    } else {
        scan_end(ts, k + 1, angle_depth_after(ts, k, depth), stop_where)
    }
}

/// The angle brackets left open where a type being read at `k` (with
/// `depth` of them open) ends: none where it ends before a `,` or a `where`,
/// those still open where it runs to the end of the tokens.
pub open spec fn scan_depth(ts: Seq<TokenTree>, k: int, depth: nat, stop_where: bool) -> nat
    decreases ts.len() - k,
{
    if k < 0 || k >= ts.len() {
        depth
    } else if depth == 0 && is_punct(ts[k], ',') {
        0
    } else if depth == 0 && stop_where && is_ident_str(ts[k], "where"@) {
        0
    } else {
        scan_depth(ts, k + 1, angle_depth_after(ts, k, depth), stop_where)
    }
}

/// A type at `i`, as text: the tokens up to where it ends, which must not be
/// none, and which must close the angle brackets they open.
pub open spec fn spec_parse_type(ts: Seq<TokenTree>, i: int, stop_where: bool) -> Result<
    (Seq<char>, int),
    SpecParseError,
> {
    let e = scan_end(ts, i, 0, stop_where);
    if 0 <= i < e {
        if scan_depth(ts, i, 0, stop_where) == 0 {
            Ok((tokens_text(ts.subrange(i, e)), e))
        } else {
            Err(error_at(ErrorKind::ExpectedCloseAngle, e))
        }
    } else {
        Err(error_at(ErrorKind::ExpectedType, i))
    }
}

/// The position after the `>` that closes angle brackets being read at `k`
/// with `depth` of them open, if there is one.
pub open spec fn angle_close(ts: Seq<TokenTree>, k: int, depth: nat) -> Option<int>
    decreases ts.len() - k,
{
    if k < 0 || k >= ts.len() {
        None
    } else if angle_depth_after(ts, k, depth) == 0 {
        Some(k + 1)
    } else {
        angle_close(ts, k + 1, angle_depth_after(ts, k, depth))
    }
}

/// The position after the generic parameters (`<...>`) that start at `i`, if
/// any start there.
pub open spec fn spec_skip_generics(ts: Seq<TokenTree>, i: int) -> Result<int, SpecParseError> {
    if punct_at(ts, i, '<') {
        match angle_close(ts, i + 1, 1) {
            Some(e) => Ok(e),
            None => Err(error_at(ErrorKind::ExpectedCloseAngle, ts.len() as int)),
        }
    } else {
        Ok(i)
    }
}

/// The nesting of generic arguments in an expression after the token at
/// `k`, given the nesting before it: a `<` opens them after `::` (a
/// turbofish) or inside other generic arguments, where a `>` closes them;
/// elsewhere `<` and `>` compare. The `>` of an arrow `->` closes nothing.
pub open spec fn expr_depth_after(ts: Seq<TokenTree>, k: int, depth: nat) -> nat {
    if is_punct(ts[k], '<') && (depth > 0 || (k >= 2 && is_punct(ts[k - 1], ':')
        && is_joint_punct(ts[k - 2], ':'))) {
        depth + 1
    } else if is_punct(ts[k], '>') && depth > 0 && !(k > 0 && is_joint_punct(ts[k - 1], '-')) {
        (depth - 1) as nat
    } else {
        depth
    }
}

/// Where an expression being read at `k` (with `depth` generic argument
/// lists open) ends: at the first `,` outside generic arguments, or at the
/// end of the tokens.
pub open spec fn expr_end(ts: Seq<TokenTree>, k: int, depth: nat) -> int
    decreases ts.len() - k,
{
    if k < 0 || k >= ts.len() {
        ts.len() as int
    } else if depth == 0 && is_punct(ts[k], ',') {
        k
    } else {
        expr_end(ts, k + 1, expr_depth_after(ts, k, depth))
    }
}

/// Whether position `p` holds a `:` that is not part of a `::`.
pub open spec fn lone_colon_at(ts: Seq<TokenTree>, p: int) -> bool {
    &&& punct_at(ts, p, ':')
    &&& !is_joint_punct(ts[p], ':')
    &&& !(p > 0 && is_joint_punct(ts[p - 1], ':'))
}

/// Whether the predicates of a `where` clause stop at position `k`: at the
/// end of the tokens, at a group in braces, or at `,`, `;`, a lone `:` or
/// `=`.
pub open spec fn where_stop(ts: Seq<TokenTree>, k: int) -> bool {
    ||| k >= ts.len()
    ||| group_at(ts, k, Delimiter::Brace)
    ||| punct_at(ts, k, ',')
    ||| punct_at(ts, k, ';')
    ||| lone_colon_at(ts, k)
    ||| punct_at(ts, k, '=')
}

/// Where the bounded type or the bounds of a `where` predicate, read at `k`
/// with `depth` angle brackets open, end: at the first position outside
/// angle brackets where the predicates stop.
pub open spec fn bound_end(ts: Seq<TokenTree>, k: int, depth: nat) -> int
    decreases ts.len() - k,
{
    if k < 0 || k >= ts.len() {
        ts.len() as int
    } else if depth == 0 && where_stop(ts, k) {
        k
    } else {
        bound_end(ts, k + 1, angle_depth_after(ts, k, depth))
    }
}

/// The bounded type or the bounds of a `where` predicate end at or after the
/// position they are read from.
pub proof fn lemma_bound_end_ge(ts: Seq<TokenTree>, k: int, depth: nat)
    requires
        0 <= k <= ts.len(),
    ensures
        k <= bound_end(ts, k, depth) <= ts.len(),
    decreases ts.len() - k,
{
    if k < ts.len() && !(depth == 0 && where_stop(ts, k)) {
        lemma_bound_end_ge(ts, k + 1, angle_depth_after(ts, k, depth));
    }
}

/// The predicates of a `where` clause, `Type: Bounds` separated by commas
/// (a last comma allowed), read from `k` on: the position where they stop,
/// or the position where a `:` was expected.
pub open spec fn where_preds(ts: Seq<TokenTree>, k: int) -> Result<int, int>
    decreases ts.len() - k,
{
    if k < 0 || where_stop(ts, k) {
        Ok(k)
    } else {
        let c = bound_end(ts, k, 0);
        if !lone_colon_at(ts, c) {
            Err(c)
        } else {
            let e = bound_end(ts, c + 1, 0);
            if punct_at(ts, e, ',') {
                proof {
                    lemma_bound_end_ge(ts, k, 0);
                    lemma_bound_end_ge(ts, c + 1, 0);
                }
                where_preds(ts, e + 1)
            } else {
                Ok(e)
            }
        }
    }
}

/// The predicates of a `where` clause stop at or after where they start,
/// and a missing `:` is missed after it.
pub proof fn lemma_where_preds_ge(ts: Seq<TokenTree>, k: int)
    requires
        0 <= k <= ts.len(),
    ensures
        where_preds(ts, k) matches Ok(e) ==> k <= e <= ts.len(),
        where_preds(ts, k) matches Err(c) ==> k <= c <= ts.len(),
    decreases ts.len() - k,
{
    if !where_stop(ts, k) {
        lemma_bound_end_ge(ts, k, 0);
        let c = bound_end(ts, k, 0);
        if lone_colon_at(ts, c) {
            lemma_bound_end_ge(ts, c + 1, 0);
            let e = bound_end(ts, c + 1, 0);
            if punct_at(ts, e, ',') {
                lemma_where_preds_ge(ts, e + 1);
            }
        }
    }
}

/// Keywords are case-sensitive words in lower case (letters and `_`), but
/// for `Self`: no other word starting with a capital letter is a keyword,
/// and so no capitalised name of a state or message is refused as one.
pub proof fn law_keywords_are_lower_case(s: Seq<char>)
    ensures
        is_keyword(s) ==> s == "Self"@ || forall|i: int|
            0 <= i < s.len() ==> ('a' <= #[trigger] s[i] <= 'z' || s[i] == '_'),
        is_keyword(s) && s.len() > 0 && 'A' <= s[0] <= 'Z' ==> s == "Self"@,
{
    reveal_strlit("_");
    reveal_strlit("abstract");
    reveal_strlit("as");
    reveal_strlit("become");
    reveal_strlit("box");
    reveal_strlit("break");
    reveal_strlit("const");
    reveal_strlit("continue");
    reveal_strlit("crate");
    reveal_strlit("do");
    reveal_strlit("else");
    reveal_strlit("enum");
    reveal_strlit("extern");
    reveal_strlit("false");
    reveal_strlit("final");
    reveal_strlit("fn");
    reveal_strlit("for");
    reveal_strlit("if");
    reveal_strlit("impl");
    reveal_strlit("in");
    reveal_strlit("let");
    reveal_strlit("loop");
    reveal_strlit("macro");
    reveal_strlit("match");
    reveal_strlit("mod");
    reveal_strlit("move");
    reveal_strlit("mut");
    reveal_strlit("override");
    reveal_strlit("priv");
    reveal_strlit("pub");
    reveal_strlit("ref");
    reveal_strlit("return");
    reveal_strlit("Self");
    reveal_strlit("self");
    reveal_strlit("static");
    reveal_strlit("struct");
    reveal_strlit("super");
    reveal_strlit("trait");
    reveal_strlit("true");
    reveal_strlit("type");
    reveal_strlit("typeof");
    reveal_strlit("unsafe");
    reveal_strlit("unsized");
    reveal_strlit("use");
    reveal_strlit("virtual");
    reveal_strlit("where");
    reveal_strlit("while");
    reveal_strlit("yield");
}

/// Attributes are skipped forwards.
pub proof fn lemma_skip_attrs_ge(ts: Seq<TokenTree>, i: int)
    requires
        0 <= i,
    ensures
        skip_attrs(ts, i) >= i,
    decreases ts.len() - i,
{
    if punct_at(ts, i, '#') && group_at(ts, i + 1, Delimiter::Bracket) {
        lemma_skip_attrs_ge(ts, i + 2);
    }
}

/// A type ends at or after the position it is read from, and at the
/// latest at the end of the tokens.
pub proof fn lemma_scan_end_ge(ts: Seq<TokenTree>, k: int, depth: nat, stop_where: bool)
    requires
        0 <= k <= ts.len(),
    ensures
        k <= scan_end(ts, k, depth, stop_where) <= ts.len(),
    decreases ts.len() - k,
{
    if k < ts.len() && !(depth == 0 && is_punct(ts[k], ',')) && !(depth == 0 && stop_where
        && is_ident_str(ts[k], "where"@)) {
        lemma_scan_end_ge(ts, k + 1, angle_depth_after(ts, k, depth), stop_where);
    }
}

/// The `>` that closes angle brackets comes after the position read from.
pub proof fn lemma_angle_close_gt(ts: Seq<TokenTree>, k: int, depth: nat)
    ensures
        angle_close(ts, k, depth) matches Some(e) ==> e > k,
    decreases ts.len() - k,
{
    if 0 <= k < ts.len() && angle_depth_after(ts, k, depth) != 0 {
        lemma_angle_close_gt(ts, k + 1, angle_depth_after(ts, k, depth));
    }
}

// ---------------------------------------------------------------------------
// Executable readers.

/// Whether two strings hold the same characters.
pub fn str_eq(a: &str, b: &str) -> (res: bool)
    ensures
        res == (a@ == b@),
{
    let n = a.unicode_len();
    let m = b.unicode_len();
    if n != m {
        return false;
    }
    let mut i: usize = 0;
    while i < n
        invariant
            n == a@.len(),
            m == b@.len(),
            n == m,
            i <= n,
            a@.subrange(0, i as int) == b@.subrange(0, i as int),
        decreases n - i,
    {
        if a.get_char(i) != b.get_char(i) {
            assert(a@[i as int] != b@[i as int]);
            return false;
        }
        assert(a@.subrange(0, i + 1) =~= a@.subrange(0, i as int).push(a@[i as int]));
        assert(b@.subrange(0, i + 1) =~= b@.subrange(0, i as int).push(b@[i as int]));
        i += 1;
    }
    assert(a@ =~= a@.subrange(0, n as int));
    assert(b@ =~= b@.subrange(0, n as int));
    true
}

/// Whether position `i` holds the punctuation character `c`.
pub fn punct_is(ts: &Vec<TokenTree>, i: usize, c: char) -> (res: bool)
    ensures
        res == punct_at(ts@, i as int, c),
{
    if i < ts.len() {
        match &ts[i] {
            TokenTree::Punct(p, _) => *p == c,
            _ => false,
        }
    } else {
        false
    }
}

/// Whether position `i` holds the punctuation character `c` joined to the
/// next token.
pub fn joint_punct_is(ts: &Vec<TokenTree>, i: usize, c: char) -> (res: bool)
    ensures
        res == (0 <= i < ts@.len() && is_joint_punct(ts@[i as int], c)),
{
    if i < ts.len() {
        match &ts[i] {
            TokenTree::Punct(p, joint) => *p == c && *joint,
            _ => false,
        }
    } else {
        false
    }
}

/// Whether position `i` holds the identifier (or keyword) `s`.
pub fn word_is(ts: &Vec<TokenTree>, i: usize, s: &str) -> (res: bool)
    ensures
        res == word_at(ts@, i as int, s@),
{
    if i < ts.len() {
        match &ts[i] {
            TokenTree::Ident(x) => str_eq(x.as_str(), s),
            _ => false,
        }
    } else {
        false
    }
}

/// Whether position `i` holds a group with delimiter `d`.
pub fn group_is(ts: &Vec<TokenTree>, i: usize, d: Delimiter) -> (res: bool)
    ensures
        res == group_at(ts@, i as int, d),
{
    if i < ts.len() {
        match &ts[i] {
            TokenTree::Group(d2, _) => *d2 == d,
            _ => false,
        }
    } else {
        false
    }
}

/// The tokens inside the group at position `i`.
pub fn group_tokens(ts: &Vec<TokenTree>, i: usize) -> (res: &Vec<TokenTree>)
    requires
        i < ts.len(),
        ts@[i as int] is Group,
    ensures
        res@ == group_body(ts@[i as int]),
{
    match &ts[i] {
        TokenTree::Group(_, inner) => inner,
        _ => ts,
    }
}

/// Whether positions `i` and `i + 1` hold `=>`.
pub fn fat_arrow_is(ts: &Vec<TokenTree>, i: usize) -> (res: bool)
    requires
        i <= ts.len(),
    ensures
        res == fat_arrow_at(ts@, i as int),
{
    i < ts.len() && joint_punct_is(ts, i, '=') && punct_is(ts, i + 1, '>')
}

/// Whether a word is a keyword.
pub fn keyword(s: &str) -> (res: bool)
    ensures
        res == is_keyword(s@),
{
    str_eq(s, "_") || str_eq(s, "abstract") || str_eq(s, "as") || str_eq(s, "become") || str_eq(
        s,
        "box",
    ) || str_eq(s, "break") || str_eq(s, "const") || str_eq(s, "continue") || str_eq(s, "crate")
        || str_eq(s, "do") || str_eq(s, "else") || str_eq(s, "enum") || str_eq(s, "extern")
        || str_eq(s, "false") || str_eq(s, "final") || str_eq(s, "fn") || str_eq(s, "for")
        || str_eq(s, "if") || str_eq(s, "impl") || str_eq(s, "in") || str_eq(s, "let") || str_eq(
        s,
        "loop",
    ) || str_eq(s, "macro") || str_eq(s, "match") || str_eq(s, "mod") || str_eq(s, "move")
        || str_eq(s, "mut") || str_eq(s, "override") || str_eq(s, "priv") || str_eq(s, "pub")
        || str_eq(s, "ref") || str_eq(s, "return") || str_eq(s, "Self") || str_eq(s, "self")
        || str_eq(s, "static") || str_eq(s, "struct") || str_eq(s, "super") || str_eq(s, "trait")
        || str_eq(s, "true") || str_eq(s, "type") || str_eq(s, "typeof") || str_eq(s, "unsafe")
        || str_eq(s, "unsized") || str_eq(s, "use") || str_eq(s, "virtual") || str_eq(s, "where")
        || str_eq(s, "while") || str_eq(s, "yield")
}

/// Reads an identifier that is not a keyword at position `i`.
pub fn parse_ident(ts: &Vec<TokenTree>, i: usize) -> (res: Result<(String, usize), ParseError>)
    ensures
        view_result(res) == spec_parse_ident(ts@, i as int),
{
    if i < ts.len() {
        match &ts[i] {
            TokenTree::Ident(s) => {
                if keyword(s.as_str()) {
                    Err(ParseError::new(ErrorKind::ExpectedIdent, i))
                } else {
                    Ok((s.clone(), i + 1))
                }
            },
            _ => Err(ParseError::new(ErrorKind::ExpectedIdent, i)),
        }
    } else {
        Err(ParseError::new(ErrorKind::ExpectedIdent, i))
    }
}

/// The position after the outer attributes that start at `i`.
pub fn skip_attributes(ts: &Vec<TokenTree>, i: usize) -> (res: usize)
    requires
        i <= ts.len(),
    ensures
        res == skip_attrs(ts@, i as int),
        i <= res <= ts.len(),
{
    let mut k = i;
    while punct_is(ts, k, '#') && group_is(ts, k + 1, Delimiter::Bracket)
        invariant
            i <= k <= ts.len(),
            skip_attrs(ts@, i as int) == skip_attrs(ts@, k as int),
        decreases ts.len() - k,
    {
        k = k + 2;
    }
    k
}

/// Reads the visibility that starts at `i`, as text.
pub fn parse_vis(ts: &Vec<TokenTree>, i: usize) -> (res: (String, usize))
    requires
        i <= ts.len(),
    ensures
        (res.0@, res.1 as int) == spec_parse_vis(ts@, i as int),
        i <= res.1 <= ts.len(),
{
    if word_is(ts, i, "pub") {
        if vis_scope_is(ts, i + 1) {
            (render_tokens(ts, i, i + 2), i + 2)
        } else {
            (render_tokens(ts, i, i + 1), i + 1)
        }
    } else if word_is(ts, i, "crate") && !(i + 1 < ts.len() && joint_punct_is(ts, i + 1, ':')) {
        (render_tokens(ts, i, i + 1), i + 1)
    } else {
        (String::new(), i)
    }
}

/// Whether position `k` holds the scope of a restricted visibility.
pub fn vis_scope_is(ts: &Vec<TokenTree>, k: usize) -> (res: bool)
    ensures
        res == (k < ts@.len() && is_vis_scope(ts@[k as int])),
{
    if k < ts.len() {
        match &ts[k] {
            TokenTree::Group(d, inner) => *d == Delimiter::Parenthesis && (word_is(inner, 0, "crate")
                || word_is(inner, 0, "self") || word_is(inner, 0, "super") || word_is(
                inner,
                0,
                "in",
            )),
            _ => false,
        }
    } else {
        false
    }
}

/// The nesting of angle brackets after the token at `k`.
pub fn depth_after(ts: &Vec<TokenTree>, k: usize, depth: usize) -> (res: usize)
    requires
        k < ts.len(),
        depth < usize::MAX,
    ensures
        res as nat == angle_depth_after(ts@, k as int, depth as nat),
        res <= depth + 1,
{
    if punct_is(ts, k, '<') {
        depth + 1
    } else if punct_is(ts, k, '>') && !(k > 0 && joint_punct_is(ts, k - 1, '-')) {
        if depth > 0 {
            depth - 1
        } else {
            0
        }
    } else {
        depth
    }
}

/// Where a type that starts at `i` ends.
pub fn type_end(ts: &Vec<TokenTree>, i: usize, stop_where: bool) -> (e: usize)
    requires
        i <= ts.len(),
    ensures
        e == scan_end(ts@, i as int, 0, stop_where),
        i <= e <= ts.len(),
{
    let mut k = i;
    let mut depth: usize = 0;
    while k < ts.len()
        invariant
            i <= k <= ts.len(),
            depth <= k,
            scan_end(ts@, i as int, 0, stop_where) == scan_end(
                ts@,
                k as int,
                depth as nat,
                stop_where,
            ),
        decreases ts.len() - k,
    {
        if depth == 0 && punct_is(ts, k, ',') {
            return k;
        }
        if depth == 0 && stop_where && word_is(ts, k, "where") {
            return k;
        }
        depth = depth_after(ts, k, depth);
        k += 1;
    }
    k
}

/// Where a type that starts at `i` ends, and how many angle brackets it
/// leaves open there.
pub fn type_scan(ts: &Vec<TokenTree>, i: usize, stop_where: bool) -> (res: (usize, usize))
    requires
        i <= ts.len(),
    ensures
        res.0 == scan_end(ts@, i as int, 0, stop_where),
        res.1 as nat == scan_depth(ts@, i as int, 0, stop_where),
        i <= res.0 <= ts.len(),
{
    let mut k = i;
    let mut depth: usize = 0;
    while k < ts.len()
        invariant
            i <= k <= ts.len(),
            depth <= k,
            scan_end(ts@, i as int, 0, stop_where) == scan_end(
                ts@,
                k as int,
                depth as nat,
                stop_where,
            ),
            scan_depth(ts@, i as int, 0, stop_where) == scan_depth(
                ts@,
                k as int,
                depth as nat,
                stop_where,
            ),
        decreases ts.len() - k,
    {
        if depth == 0 && punct_is(ts, k, ',') {
            return (k, 0);
        }
        if depth == 0 && stop_where && word_is(ts, k, "where") {
            return (k, 0);
        }
        depth = depth_after(ts, k, depth);
        k += 1;
    }
    (k, depth)
}

/// Reads a type that starts at `i`, as text.
pub fn parse_type(ts: &Vec<TokenTree>, i: usize, stop_where: bool) -> (res: Result<
    (String, usize),
    ParseError,
>)
    requires
        i <= ts.len(),
    ensures
        view_result(res) == spec_parse_type(ts@, i as int, stop_where),
        res matches Ok((_, e)) ==> i < e <= ts.len(),
{
    let (e, open) = type_scan(ts, i, stop_where);
    if i < e {
        if open == 0 {
            Ok((render_tokens(ts, i, e), e))
        } else {
            Err(ParseError::new(ErrorKind::ExpectedCloseAngle, e))
        }
    } else {
        Err(ParseError::new(ErrorKind::ExpectedType, i))
    }
}

/// The position after the generic parameters that start at `i`, if any.
pub fn skip_generics(ts: &Vec<TokenTree>, i: usize) -> (res: Result<usize, ParseError>)
    requires
        i <= ts.len(),
    ensures
        match res {
            Ok(e) => spec_skip_generics(ts@, i as int) == Ok::<int, SpecParseError>(e as int) && i
                <= e <= ts.len(),
            Err(err) => spec_skip_generics(ts@, i as int) == Err::<int, SpecParseError>(err@),
        },
{
    if !punct_is(ts, i, '<') {
        return Ok(i);
    }
    let mut k = i + 1;
    let mut depth: usize = 1;
    while k < ts.len()
        invariant
            i < k <= ts.len(),
            1 <= depth <= k,
            punct_at(ts@, i as int, '<'),
            angle_close(ts@, i + 1, 1) == angle_close(ts@, k as int, depth as nat),
        decreases ts.len() - k,
    {
        let d = depth_after(ts, k, depth);
        if d == 0 {
            return Ok(k + 1);
        }
        depth = d;
        k += 1;
    }
    Err(ParseError::new(ErrorKind::ExpectedCloseAngle, ts.len()))
}

/// The nesting of generic arguments in an expression after the token at
/// `k`.
pub fn expr_depth(ts: &Vec<TokenTree>, k: usize, depth: usize) -> (res: usize)
    requires
        k < ts.len(),
        depth < usize::MAX,
    ensures
        res as nat == expr_depth_after(ts@, k as int, depth as nat),
        res <= depth + 1,
{
    if punct_is(ts, k, '<') && (depth > 0 || (k >= 2 && punct_is(ts, k - 1, ':')
        && joint_punct_is(ts, k - 2, ':'))) {
        depth + 1
    } else if punct_is(ts, k, '>') && depth > 0 && !(k > 0 && joint_punct_is(ts, k - 1, '-')) {
        depth - 1
    } else {
        depth
    }
}

/// Where an expression that starts at `k` ends: at the first `,` outside
/// generic arguments, or at the end of the tokens.
pub fn find_expr_end(ts: &Vec<TokenTree>, k: usize) -> (res: usize)
    requires
        k <= ts.len(),
    ensures
        res == expr_end(ts@, k as int, 0),
        k <= res <= ts.len(),
{
    let mut j = k;
    let mut depth: usize = 0;
    while j < ts.len()
        invariant
            k <= j <= ts.len(),
            depth <= j,
            expr_end(ts@, k as int, 0) == expr_end(ts@, j as int, depth as nat),
        decreases ts.len() - j,
    {
        if depth == 0 && punct_is(ts, j, ',') {
            return j;
        }
        depth = expr_depth(ts, j, depth);
        j += 1;
    }
    j
}

/// Whether position `p` holds a `:` that is not part of a `::`.
pub fn lone_colon_is(ts: &Vec<TokenTree>, p: usize) -> (res: bool)
    ensures
        res == lone_colon_at(ts@, p as int),
{
    punct_is(ts, p, ':') && !joint_punct_is(ts, p, ':') && !(p > 0 && joint_punct_is(
        ts,
        p - 1,
        ':',
    ))
}

/// Whether the predicates of a `where` clause stop at position `k`.
pub fn where_stop_is(ts: &Vec<TokenTree>, k: usize) -> (res: bool)
    ensures
        res == where_stop(ts@, k as int),
{
    k >= ts.len() || group_is(ts, k, Delimiter::Brace) || punct_is(ts, k, ',') || punct_is(
        ts,
        k,
        ';',
    ) || lone_colon_is(ts, k) || punct_is(ts, k, '=')
}

/// Where the bounded type or the bounds of a `where` predicate that start
/// at `k` end.
pub fn find_bound_end(ts: &Vec<TokenTree>, k: usize) -> (res: usize)
    requires
        k <= ts.len(),
    ensures
        res == bound_end(ts@, k as int, 0),
        k <= res <= ts.len(),
{
    let mut j = k;
    let mut depth: usize = 0;
    while j < ts.len()
        invariant
            k <= j <= ts.len(),
            depth <= j,
            bound_end(ts@, k as int, 0) == bound_end(ts@, j as int, depth as nat),
        decreases ts.len() - j,
    {
        if depth == 0 && where_stop_is(ts, j) {
            return j;
        }
        depth = depth_after(ts, j, depth);
        j += 1;
    }
    j
}

/// Reads the predicates of a `where` clause from `k` on: the position where
/// they stop, or the position where a `:` was expected.
pub fn skip_where(ts: &Vec<TokenTree>, k: usize) -> (res: Result<usize, usize>)
    requires
        k <= ts.len(),
    ensures
        match res {
            Ok(e) => where_preds(ts@, k as int) == Ok::<int, int>(e as int),
            Err(c) => where_preds(ts@, k as int) == Err::<int, int>(c as int),
        },
        res matches Ok(e) ==> k <= e <= ts.len(),
        res matches Err(c) ==> k <= c <= ts.len(),
{
    proof {
        lemma_where_preds_ge(ts@, k as int);
    }
    let mut j = k;
    loop
        invariant
            k <= j <= ts.len(),
            where_preds(ts@, k as int) == where_preds(ts@, j as int),
        decreases ts.len() - j,
    {
        if where_stop_is(ts, j) {
            return Ok(j);
        }
        let c = find_bound_end(ts, j);
        if !lone_colon_is(ts, c) {
            return Err(c);
        }
        let e = find_bound_end(ts, c + 1);
        if punct_is(ts, e, ',') {
            j = e + 1;
        } else {
            return Ok(e);
        }
    }
}

} // verus!
