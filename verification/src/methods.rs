//! The `methods` macro: accessors of the states' fields (`get`, `set`) and
//! methods that the states implement (`fn`), expanded into accessors on the
//! states' structs and wrappers on the machine enum that answer `None` in the
//! states that lack them.
use vstd::prelude::*;
use crate::error::{error_at, nested_in, ErrorKind, ParseError, SpecParseError};
use crate::expansion::Expansion;
use crate::grammar::{
    fat_arrow_at, fat_arrow_is, group_at, group_body, group_is, group_tokens, is_joint_punct,
    is_punct, joint_punct_is, lemma_angle_close_gt, lemma_where_preds_ge, lone_colon_at,
    lone_colon_is, parse_ident, parse_type, punct_at, punct_is, scan_end, skip_generics,
    angle_depth_after, lemma_scan_end_ge,
    skip_where, spec_parse_ident, spec_parse_type, spec_skip_generics, str_eq, type_end,
    view_result, where_preds, word_at, word_is,
};
use crate::text::{
    concat_map, distinct, has_infix, lemma_concat_map_has, lemma_concat_map_take, lemma_distinct,
    lemma_distinct_push, lemma_infix_around, lemma_infix_trans,
    lemma_push_contains, lowercase, push_distinct, to_lowercase,
};
use crate::tokens::{render_tokens, tokens_text, Delimiter, TokenTree};

verus! {

/// The signature of a method that every listed state implements: its name,
/// its parameters (as written), the patterns of its named parameters (those
/// given as `pattern: Type`) and its result type (as written), if any.
#[derive(Debug)]
pub struct MethodSig {
    pub ident: String,
    pub inputs: String,
    pub args: Vec<String>,
    pub output: Option<String>,
}

/// The mathematical form of a `MethodSig`.
pub struct SpecMethodSig {
    pub ident: Seq<char>,
    pub inputs: Seq<char>,
    pub args: Seq<Seq<char>>,
    pub output: Option<Seq<char>>,
}

/// The view of an optional string.
pub open spec fn option_view(o: Option<String>) -> Option<Seq<char>> {
    match o {
        Some(s) => Some(s@),
        None => None,
    }
}

impl View for MethodSig {
    type V = SpecMethodSig;

    open spec fn view(&self) -> SpecMethodSig {
        SpecMethodSig {
            ident: self.ident@,
            inputs: self.inputs@,
            args: self.args.deep_view(),
            output: option_view(self.output),
        }
    }
}

/// What a method entry asks for: a getter of a field (`get`), a getter of a
/// mutable reference to a field (`set`), each with the field's name and type,
/// or a method that the states implement (`fn`).
#[derive(Debug)]
pub enum MethodType {
    Get(String, String),
    GetMut(String, String),
    Fn(MethodSig),
}

/// The mathematical form of a `MethodType`.
pub enum SpecMethodType {
    Get(Seq<char>, Seq<char>),
    GetMut(Seq<char>, Seq<char>),
    Fn(SpecMethodSig),
}

impl View for MethodType {
    type V = SpecMethodType;

    open spec fn view(&self) -> SpecMethodType {
        match self {
            MethodType::Get(i, t) => SpecMethodType::Get(i@, t@),
            MethodType::GetMut(i, t) => SpecMethodType::GetMut(i@, t@),
            MethodType::Fn(sig) => SpecMethodType::Fn(sig@),
        }
    }
}

/// A method entry: the states it is for, and what it asks for.
#[derive(Debug)]
pub struct Method {
    pub states: Vec<String>,
    pub method_type: MethodType,
}

/// The mathematical form of a `Method`.
pub struct SpecMethod {
    pub states: Seq<Seq<char>>,
    pub method_type: SpecMethodType,
}

impl View for Method {
    type V = SpecMethod;

    open spec fn view(&self) -> SpecMethod {
        SpecMethod { states: self.states.deep_view(), method_type: self.method_type@ }
    }
}

/// The views of a sequence of method entries.
pub open spec fn methods_view(v: Seq<Method>) -> Seq<SpecMethod> {
    v.map_values(|m: Method| m@)
}

/// The method entries of the machine named `machine_name`, in order.
#[derive(Debug)]
pub struct Methods {
    pub machine_name: String,
    pub methods: Vec<Method>,
}

/// The mathematical form of `Methods`.
pub struct SpecMethods {
    pub machine_name: Seq<char>,
    pub methods: Seq<SpecMethod>,
}

impl View for Methods {
    type V = SpecMethods;

    open spec fn view(&self) -> SpecMethods {
        SpecMethods { machine_name: self.machine_name@, methods: methods_view(self.methods@) }
    }
}

// ---------------------------------------------------------------------------
// Grammar.

/// Whether `ts[i..e]` is a receiver: `self`, `mut self`, `&self`,
/// `&mut self`, `&'a self` or `&'a mut self`.
pub open spec fn is_receiver(ts: Seq<TokenTree>, i: int, e: int) -> bool {
    let n = e - i;
    let self_last = word_at(ts, e - 1, "self"@);
    ||| n == 1 && self_last
    ||| n == 2 && word_at(ts, i, "mut"@) && self_last
    ||| n == 2 && punct_at(ts, i, '&') && self_last
    ||| n == 3 && punct_at(ts, i, '&') && word_at(ts, i + 1, "mut"@) && self_last
    ||| n == 4 && punct_at(ts, i, '&') && punct_at(ts, i + 1, '\'') && self_last
    ||| n == 5 && punct_at(ts, i, '&') && punct_at(ts, i + 1, '\'') && word_at(ts, i + 3, "mut"@)
        && self_last
}

/// The position of the first lone `:` in `ts[k..e]`, or `e`.
pub open spec fn first_colon(ts: Seq<TokenTree>, k: int, e: int) -> int
    decreases e - k,
{
    if k >= e {
        e
    } else if lone_colon_at(ts, k) {
        k
    } else {
        first_colon(ts, k + 1, e)
    }
}

/// The parameters of a method, separated by commas (a last comma allowed),
/// read from `i` on to the end of `ts`, after the patterns `acc` of the named
/// parameters already read. A receiver is no named parameter, nor is a bare
/// type; a named parameter is `pattern: Type`.
pub open spec fn spec_parse_args(ts: Seq<TokenTree>, i: int, acc: Seq<Seq<char>>) -> Result<
    Seq<Seq<char>>,
    SpecParseError,
>
    decreases ts.len() - i,
{
    if i < 0 || i >= ts.len() {
        Ok(acc)
    } else {
        let e = scan_end(ts, i, 0, false);
        if e <= i {
            Err(error_at(ErrorKind::ExpectedType, i))
        } else {
            let p = first_colon(ts, i, e);
            let next: Result<Seq<Seq<char>>, SpecParseError> = if is_receiver(ts, i, e) || p
                >= e {
                Ok(acc)
            } else if p == i {
                Err(error_at(ErrorKind::ExpectedType, i))
            } else if p + 1 >= e {
                Err(error_at(ErrorKind::ExpectedType, p + 1))
            } else {
                Ok(acc.push(tokens_text(ts.subrange(i, p))))
            };
            match next {
                Err(err) => Err(err),
                Ok(acc2) => if e >= ts.len() {
                    Ok(acc2)
                } else {
                    spec_parse_args(ts, e + 1, acc2)
                },
            }
        }
    }
}

/// Whether positions `i` and `i + 1` hold `->`.
pub open spec fn arrow_at(ts: Seq<TokenTree>, i: int) -> bool {
    0 <= i && i + 1 < ts.len() && is_joint_punct(ts[i], '-') && is_punct(ts[i + 1], '>')
}

/// Whether `t` is a string literal: `"..."` or a raw string `r"..."`,
/// `r#"..."#`.
pub open spec fn is_str_literal(t: TokenTree) -> bool {
    match t {
        TokenTree::Literal(s) => s@.len() > 0 && (s@[0] == '"' || (s@.len() >= 2 && s@[0] == 'r'
            && (s@[1] == '"' || s@[1] == '#'))),
        _ => false,
    }
}

/// The position after the qualifiers `const`, `unsafe`, `async` and
/// `extern` with its optional ABI string (each optional, in this order)
/// that start at `i`.
pub open spec fn skip_qualifiers(ts: Seq<TokenTree>, i: int) -> int {
    let a = if word_at(ts, i, "const"@) {
        i + 1
    } else {
        i
    };
    let b = if word_at(ts, a, "unsafe"@) {
        a + 1
    } else {
        a
    };
    let c = if word_at(ts, b, "async"@) {
        b + 1
    } else {
        b
    };
    if word_at(ts, c, "extern"@) {
        if c + 1 < ts.len() && is_str_literal(ts[c + 1]) {
            c + 2
        } else {
            c + 1
        }
    } else {
        c
    }
}

/// A method signature at `i`: qualifiers, `fn`, name, generic parameters,
/// parameters in parentheses, `-> Type` (optional) and a `where` clause
/// (optional). On failure, the error and the position the reading had
/// reached.
pub open spec fn spec_parse_method_sig(ts: Seq<TokenTree>, i: int) -> Result<
    (SpecMethodSig, int),
    (SpecParseError, int),
> {
    let d = skip_qualifiers(ts, i);
    if !word_at(ts, d, "fn"@) {
        Err((error_at(ErrorKind::ExpectedFn, d), d))
    } else {
        match spec_parse_ident(ts, d + 1) {
            Err(e) => Err((e, d + 1)),
            Ok((ident, e1)) => match spec_skip_generics(ts, e1) {
                Err(e) => Err((e, e1)),
                Ok(g) => if !group_at(ts, g, Delimiter::Parenthesis) {
                    Err((error_at(ErrorKind::ExpectedParens, g), g))
                } else {
                    match spec_parse_args(group_body(ts[g]), 0, seq![]) {
                        Err(e) => Err((nested_in(g, e), g + 1)),
                        Ok(args) => {
                            let inputs = tokens_text(group_body(ts[g]));
                            let h = g + 1;
                            let out: Result<
                                (Option<Seq<char>>, int),
                                (SpecParseError, int),
                            > = if arrow_at(ts, h) {
                                match spec_parse_type(ts, h + 2, true) {
                                    Err(e) => Err((e, h + 2)),
                                    Ok((ty, k)) => Ok((Some(ty), k)),
                                }
                            } else {
                                Ok((None, h))
                            };
                            match out {
                                Err(e) => Err(e),
                                Ok((output, k)) => {
                                    let sig = SpecMethodSig { ident, inputs, args, output };
                                    if word_at(ts, k, "where"@) {
                                        match where_preds(ts, k + 1) {
                                            Ok(w) => Ok((sig, w)),
                                            Err(c) => Err(
                                                (error_at(ErrorKind::ExpectedColon, c), c),
                                            ),
                                        }
                                    } else {
                                        Ok((sig, k))
                                    }
                                },
                            }
                        },
                    }
                },
            },
        }
    }
}

/// An accessor at `i`: `get name: Type` or `set name: Type`.
pub open spec fn spec_parse_accessor(ts: Seq<TokenTree>, i: int) -> Result<
    (SpecMethodType, int),
    SpecParseError,
> {
    match spec_parse_ident(ts, i) {
        Err(e) => Err(e),
        Ok((kind, a)) => match spec_parse_ident(ts, a) {
            Err(e) => Err(e),
            Ok((name, b)) => if !punct_at(ts, b, ':') {
                Err(error_at(ErrorKind::ExpectedColon, b))
            } else {
                match spec_parse_type(ts, b + 1, false) {
                    Err(e) => Err(e),
                    Ok((ty, c)) => if kind == "get"@ {
                        Ok((SpecMethodType::Get(name, ty), c))
                    } else if kind == "set"@ {
                        Ok((SpecMethodType::GetMut(name, ty), c))
                    } else {
                        Err(error_at(ErrorKind::ExpectedGetOrSet, i))
                    },
                }
            },
        },
    }
}

/// The states of a method entry, `Ident ("," Ident)*`, read from `i` on after
/// the states `acc` already read, with the position after them.
pub open spec fn spec_parse_states(ts: Seq<TokenTree>, i: int, acc: Seq<Seq<char>>) -> Result<
    (Seq<Seq<char>>, int),
    SpecParseError,
>
    decreases ts.len() - i,
{
    match spec_parse_ident(ts, i) {
        Err(e) => Err(e),
        Ok((s, j)) => if punct_at(ts, j, ',') {
            spec_parse_states(ts, j + 1, acc.push(s))
        } else {
            Ok((acc.push(s), j))
        },
    }
}

/// A method entry at `i`: `States => fn ...` or `States => get|set name: Type`.
/// The accessor form is read from where the reading of a signature stopped.
pub open spec fn spec_parse_method(ts: Seq<TokenTree>, i: int) -> Result<
    (SpecMethod, int),
    SpecParseError,
> {
    match spec_parse_states(ts, i, seq![]) {
        Err(e) => Err(e),
        Ok((states, j)) => if !fat_arrow_at(ts, j) {
            Err(error_at(ErrorKind::ExpectedFatArrow, j))
        } else {
            match spec_parse_method_sig(ts, j + 2) {
                Ok((sig, k)) => Ok((SpecMethod { states, method_type: SpecMethodType::Fn(sig) }, k)),
                Err((_, p)) => match spec_parse_accessor(ts, p) {
                    Err(e) => Err(e),
                    Ok((t, k)) => Ok((SpecMethod { states, method_type: t }, k)),
                },
            }
        },
    }
}

/// Reading the states of an entry moves forwards.
pub proof fn lemma_states_advance(ts: Seq<TokenTree>, i: int, acc: Seq<Seq<char>>)
    requires
        0 <= i,
    ensures
        spec_parse_states(ts, i, acc) matches Ok((_, j)) ==> j > i,
    decreases ts.len() - i,
{
    if let Ok((x, j)) = spec_parse_ident(ts, i) {
        if punct_at(ts, j, ',') {
            lemma_states_advance(ts, j + 1, acc.push(x));
        }
    }
}

/// Reading a signature moves forwards; when it fails it has not moved
/// backwards.
pub proof fn lemma_method_sig_advances(ts: Seq<TokenTree>, i: int)
    requires
        0 <= i <= ts.len(),
    ensures
        spec_parse_method_sig(ts, i) matches Ok((_, k)) ==> k > i,
        spec_parse_method_sig(ts, i) matches Err((_, p)) ==> p >= i,
{
    let d = skip_qualifiers(ts, i);
    if word_at(ts, d, "fn"@) {
        if let Ok((_, e1)) = spec_parse_ident(ts, d + 1) {
            lemma_angle_close_gt(ts, e1 + 1, 1);
            if let Ok(g) = spec_skip_generics(ts, e1) {
                let h = g + 1;
                if group_at(ts, g, Delimiter::Parenthesis) {
                    if arrow_at(ts, h) {
                        if let Ok((_, k)) = spec_parse_type(ts, h + 2, true) {
                            if word_at(ts, k, "where"@) {
                                lemma_where_preds_ge(ts, k + 1);
                            }
                        }
                    } else if word_at(ts, h, "where"@) {
                        lemma_where_preds_ge(ts, h + 1);
                    }
                }
            }
        }
    }
}

/// Reading a method entry moves forwards.
pub proof fn lemma_method_advances(ts: Seq<TokenTree>, i: int)
    requires
        0 <= i <= ts.len(),
    ensures
        spec_parse_method(ts, i) matches Ok((_, k)) ==> k > i,
{
    lemma_states_advance(ts, i, seq![]);
    if let Ok((_, j)) = spec_parse_states(ts, i, seq![]) {
        if fat_arrow_at(ts, j) {
            lemma_method_sig_advances(ts, j + 2);
        }
    }
}

/// Method entries separated by commas up to the end of `ts`, read from `i`
/// on, after the entries `acc` already read.
pub open spec fn spec_parse_method_list(ts: Seq<TokenTree>, i: int, acc: Seq<SpecMethod>) -> Result<
    Seq<SpecMethod>,
    SpecParseError,
>
    decreases ts.len() - i,
{
    match spec_parse_method(ts, i) {
        Err(e) => Err(e),
        Ok((m, j)) => if punct_at(ts, j, ',') {
            proof {
                lemma_method_advances(ts, i);
            }
            spec_parse_method_list(ts, j + 1, acc.push(m))
        } else if j == ts.len() {
            Ok(acc.push(m))
        } else {
            Err(error_at(ErrorKind::UnexpectedToken, j))
        },
    }
}

/// The whole input of the `methods` macro: `Machine, [ entries ]`.
pub open spec fn spec_parse_methods(ts: Seq<TokenTree>) -> Result<SpecMethods, SpecParseError> {
    match spec_parse_ident(ts, 0) {
        Err(e) => Err(e),
        Ok((name, p)) => if !punct_at(ts, p, ',') {
            Err(error_at(ErrorKind::ExpectedComma, p))
        } else if !group_at(ts, p + 1, Delimiter::Bracket) {
            Err(error_at(ErrorKind::ExpectedBrackets, p + 1))
        } else {
            match spec_parse_method_list(group_body(ts[p + 1]), 0, seq![]) {
                Err(e) => Err(nested_in(p + 1, e)),
                Ok(l) => if p + 2 != ts.len() {
                    Err(error_at(ErrorKind::UnexpectedToken, p + 2))
                } else {
                    Ok(SpecMethods { machine_name: name, methods: l })
                },
            }
        },
    }
}


// ---------------------------------------------------------------------------
// Readers.

/// Whether `ts[i..e]` is a receiver.
pub fn receiver_is(ts: &Vec<TokenTree>, i: usize, e: usize) -> (res: bool)
    requires
        i < e <= ts.len(),
    ensures
        res == is_receiver(ts@, i as int, e as int),
{
    let n = e - i;
    let self_last = word_is(ts, e - 1, "self");
    (n == 1 && self_last) || (n == 2 && word_is(ts, i, "mut") && self_last) || (n == 2
        && punct_is(ts, i, '&') && self_last) || (n == 3 && punct_is(ts, i, '&') && word_is(
        ts,
        i + 1,
        "mut",
    ) && self_last) || (n == 4 && punct_is(ts, i, '&') && punct_is(ts, i + 1, '\'')
        && self_last) || (n == 5 && punct_is(ts, i, '&') && punct_is(ts, i + 1, '\'') && word_is(
        ts,
        i + 3,
        "mut",
    ) && self_last)
}

/// The position of the first lone `:` in `ts[k..e]`, or `e`.
pub fn find_colon(ts: &Vec<TokenTree>, k: usize, e: usize) -> (res: usize)
    requires
        k <= e <= ts.len(),
    ensures
        res == first_colon(ts@, k as int, e as int),
        k <= res <= e,
{
    let mut j = k;
    while j < e
        invariant
            k <= j <= e <= ts.len(),
            first_colon(ts@, k as int, e as int) == first_colon(ts@, j as int, e as int),
        decreases e - j,
    {
        if lone_colon_is(ts, j) {
            return j;
        }
        j += 1;
    }
    j
}

/// Reads the parameters of a method filling all of `ts`, giving the patterns
/// of the named ones.
pub fn parse_args(ts: &Vec<TokenTree>) -> (res: Result<Vec<String>, ParseError>)
    ensures
        match res {
            Ok(v) => spec_parse_args(ts@, 0, seq![]) == Ok::<Seq<Seq<char>>, SpecParseError>(
                v.deep_view(),
            ),
            Err(e) => spec_parse_args(ts@, 0, seq![]) == Err::<Seq<Seq<char>>, SpecParseError>(
                e@,
            ),
        },
{
    let mut acc: Vec<String> = Vec::new();
    let mut i: usize = 0;
    assert(acc.deep_view() =~= Seq::<Seq<char>>::empty());
    while i < ts.len()
        invariant
            i <= ts.len(),
            spec_parse_args(ts@, 0, seq![]) == spec_parse_args(ts@, i as int, acc.deep_view()),
        decreases ts.len() - i,
    {
        let e = type_end(ts, i, false);
        if e <= i {
            return Err(ParseError::new(ErrorKind::ExpectedType, i));
        }
        let p = find_colon(ts, i, e);
        if !receiver_is(ts, i, e) && p < e {
            if p == i {
                return Err(ParseError::new(ErrorKind::ExpectedType, i));
            }
            if p + 1 >= e {
                return Err(ParseError::new(ErrorKind::ExpectedType, p + 1));
            }
            let pat = render_tokens(ts, i, p);
            let ghost before = acc.deep_view();
            let ghost pv = pat@;
            acc.push(pat);
            assert(acc.deep_view() =~= before.push(pv));
        }
        if e >= ts.len() {
            return Ok(acc);
        }
        i = e + 1;
    }
    Ok(acc)
}

/// Whether positions `i` and `i + 1` hold `->`.
pub fn arrow_is(ts: &Vec<TokenTree>, i: usize) -> (res: bool)
    requires
        i <= ts.len(),
    ensures
        res == arrow_at(ts@, i as int),
{
    i < ts.len() && joint_punct_is(ts, i, '-') && punct_is(ts, i + 1, '>')
}

/// Whether a token is a string literal.
pub fn str_literal_is(t: &TokenTree) -> (res: bool)
    ensures
        res == is_str_literal(*t),
{
    match t {
        TokenTree::Literal(s) => {
            let n = s.as_str().unicode_len();
            n > 0 && (s.as_str().get_char(0) == '"' || (n >= 2 && s.as_str().get_char(0) == 'r' && (
            s.as_str().get_char(1) == '"' || s.as_str().get_char(1) == '#')))
        },
        _ => false,
    }
}

/// The position after the qualifiers that start at `i`.
pub fn skip_fn_qualifiers(ts: &Vec<TokenTree>, i: usize) -> (res: usize)
    requires
        i <= ts.len(),
    ensures
        res == skip_qualifiers(ts@, i as int),
        i <= res <= ts.len(),
{
    let a = if word_is(ts, i, "const") {
        i + 1
    } else {
        i
    };
    let b = if word_is(ts, a, "unsafe") {
        a + 1
    } else {
        a
    };
    let c = if word_is(ts, b, "async") {
        b + 1
    } else {
        b
    };
    if word_is(ts, c, "extern") {
        if c + 1 < ts.len() && str_literal_is(&ts[c + 1]) {
            c + 2
        } else {
            c + 1
        }
    } else {
        c
    }
}

impl MethodSig {
    /// Reads a method signature at position `i`; on failure, gives the error
    /// and the position the reading had reached.
    pub fn parse(ts: &Vec<TokenTree>, i: usize) -> (res: Result<(MethodSig, usize), (ParseError, usize)>)
        requires
            i <= ts.len(),
        ensures
            match res {
                Ok((sig, k)) => spec_parse_method_sig(ts@, i as int) == Ok::<
                    (SpecMethodSig, int),
                    (SpecParseError, int),
                >((sig@, k as int)) && k <= ts.len(),
                Err((e, p)) => spec_parse_method_sig(ts@, i as int) == Err::<
                    (SpecMethodSig, int),
                    (SpecParseError, int),
                >((e@, p as int)) && p <= ts.len(),
            },
    {
        let d = skip_fn_qualifiers(ts, i);
        if !word_is(ts, d, "fn") {
            return Err((ParseError::new(ErrorKind::ExpectedFn, d), d));
        }
        let (ident, e1) = match parse_ident(ts, d + 1) {
            Err(e) => {
                return Err((e, d + 1));
            },
            Ok(r) => r,
        };
        let g = match skip_generics(ts, e1) {
            Err(e) => {
                return Err((e, e1));
            },
            Ok(g) => g,
        };
        if !group_is(ts, g, Delimiter::Parenthesis) {
            return Err((ParseError::new(ErrorKind::ExpectedParens, g), g));
        }
        let body = group_tokens(ts, g);
        let args = match parse_args(body) {
            Err(e) => {
                return Err((e.within(g), g + 1));
            },
            Ok(a) => a,
        };
        let inputs = render_tokens(body, 0, body.len());
        assert(body@.subrange(0, body@.len() as int) =~= body@);
        let h = g + 1;
        let (output, k) = if arrow_is(ts, h) {
            match parse_type(ts, h + 2, true) {
                Err(e) => {
                    return Err((e, h + 2));
                },
                Ok((ty, k)) => (Some(ty), k),
            }
        } else {
            (None, h)
        };
        let w = if word_is(ts, k, "where") {
            match skip_where(ts, k + 1) {
                Err(c) => {
                    return Err((ParseError::new(ErrorKind::ExpectedColon, c), c));
                },
                Ok(w) => w,
            }
        } else {
            k
        };
        Ok((MethodSig { ident, inputs, args, output }, w))
    }
}

/// Reads an accessor (`get name: Type` or `set name: Type`) at position `i`.
pub fn parse_accessor(ts: &Vec<TokenTree>, i: usize) -> (res: Result<(MethodType, usize), ParseError>)
    requires
        i <= ts.len(),
    ensures
        view_result(res) == spec_parse_accessor(ts@, i as int),
        res matches Ok((_, k)) ==> k <= ts.len(),
{
    let (kind, a) = match parse_ident(ts, i) {
        Err(e) => {
            return Err(e);
        },
        Ok(r) => r,
    };
    let (name, b) = match parse_ident(ts, a) {
        Err(e) => {
            return Err(e);
        },
        Ok(r) => r,
    };
    if !punct_is(ts, b, ':') {
        return Err(ParseError::new(ErrorKind::ExpectedColon, b));
    }
    let (ty, c) = match parse_type(ts, b + 1, false) {
        Err(e) => {
            return Err(e);
        },
        Ok(r) => r,
    };
    if str_eq(kind.as_str(), "get") {
        Ok((MethodType::Get(name, ty), c))
    } else if str_eq(kind.as_str(), "set") {
        Ok((MethodType::GetMut(name, ty), c))
    } else {
        Err(ParseError::new(ErrorKind::ExpectedGetOrSet, i))
    }
}

/// Reads the states of a method entry at position `i`.
pub fn parse_states(ts: &Vec<TokenTree>, i: usize) -> (res: Result<(Vec<String>, usize), ParseError>)
    requires
        i <= ts.len(),
    ensures
        match res {
            Ok((v, j)) => spec_parse_states(ts@, i as int, seq![]) == Ok::<
                (Seq<Seq<char>>, int),
                SpecParseError,
            >((v.deep_view(), j as int)) && j <= ts.len(),
            Err(e) => spec_parse_states(ts@, i as int, seq![]) == Err::<
                (Seq<Seq<char>>, int),
                SpecParseError,
            >(e@),
        },
{
    let mut acc: Vec<String> = Vec::new();
    let mut k = i;
    assert(acc.deep_view() =~= Seq::<Seq<char>>::empty());
    loop
        invariant
            i <= k <= ts.len(),
            spec_parse_states(ts@, i as int, seq![]) == spec_parse_states(
                ts@,
                k as int,
                acc.deep_view(),
            ),
        decreases ts.len() - k,
    {
        match parse_ident(ts, k) {
            Err(e) => {
                return Err(e);
            },
            Ok((x, j)) => {
                let ghost before = acc.deep_view();
                let ghost xv = x@;
                acc.push(x);
                assert(acc.deep_view() =~= before.push(xv));
                if punct_is(ts, j, ',') {
                    k = j + 1;
                } else {
                    return Ok((acc, j));
                }
            },
        }
    }
}

impl Method {
    /// Reads a method entry at position `i`.
    pub fn parse(ts: &Vec<TokenTree>, i: usize) -> (res: Result<(Method, usize), ParseError>)
        requires
            i <= ts.len(),
        ensures
            view_result(res) == spec_parse_method(ts@, i as int),
            res matches Ok((_, k)) ==> i < k <= ts.len(),
    {
        proof {
            lemma_method_advances(ts@, i as int);
        }
        let (states, j) = match parse_states(ts, i) {
            Err(e) => {
                return Err(e);
            },
            Ok(r) => r,
        };
        if !fat_arrow_is(ts, j) {
            return Err(ParseError::new(ErrorKind::ExpectedFatArrow, j));
        }
        match MethodSig::parse(ts, j + 2) {
            Ok((sig, k)) => Ok((Method { states, method_type: MethodType::Fn(sig) }, k)),
            Err((_, p)) => match parse_accessor(ts, p) {
                Err(e) => Err(e),
                Ok((t, k)) => Ok((Method { states, method_type: t }, k)),
            },
        }
    }
}

/// Reads method entries separated by commas filling all of `ts`.
pub fn parse_method_list(ts: &Vec<TokenTree>) -> (res: Result<Vec<Method>, ParseError>)
    ensures
        match res {
            Ok(v) => spec_parse_method_list(ts@, 0, seq![]) == Ok::<
                Seq<SpecMethod>,
                SpecParseError,
            >(methods_view(v@)),
            Err(e) => spec_parse_method_list(ts@, 0, seq![]) == Err::<
                Seq<SpecMethod>,
                SpecParseError,
            >(e@),
        },
{
    let mut acc: Vec<Method> = Vec::new();
    let mut i: usize = 0;
    assert(methods_view(acc@) =~= Seq::<SpecMethod>::empty());
    loop
        invariant
            i <= ts.len(),
            spec_parse_method_list(ts@, 0, seq![]) == spec_parse_method_list(
                ts@,
                i as int,
                methods_view(acc@),
            ),
        decreases ts.len() - i,
    {
        match Method::parse(ts, i) {
            Err(e) => {
                return Err(e);
            },
            Ok((m, j)) => {
                let ghost before = methods_view(acc@);
                let ghost mv = m@;
                acc.push(m);
                assert(methods_view(acc@) =~= before.push(mv));
                if punct_is(ts, j, ',') {
                    i = j + 1;
                } else if j == ts.len() {
                    return Ok(acc);
                } else {
                    return Err(ParseError::new(ErrorKind::UnexpectedToken, j));
                }
            },
        }
    }
}

impl Methods {
    /// Reads the whole input of the `methods` macro.
    pub fn parse(ts: &Vec<TokenTree>) -> (res: Result<Methods, ParseError>)
        ensures
            match res {
                Ok(m) => spec_parse_methods(ts@) == Ok::<SpecMethods, SpecParseError>(m@),
                Err(e) => spec_parse_methods(ts@) == Err::<SpecMethods, SpecParseError>(e@),
            },
    {
        let (machine_name, p) = match parse_ident(ts, 0) {
            Err(e) => {
                return Err(e);
            },
            Ok(r) => r,
        };
        if !punct_is(ts, p, ',') {
            return Err(ParseError::new(ErrorKind::ExpectedComma, p));
        }
        if !group_is(ts, p + 1, Delimiter::Bracket) {
            return Err(ParseError::new(ErrorKind::ExpectedBrackets, p + 1));
        }
        let methods = match parse_method_list(group_tokens(ts, p + 1)) {
            Err(e) => {
                return Err(e.within(p + 1));
            },
            Ok(l) => l,
        };
        if p + 2 != ts.len() {
            return Err(ParseError::new(ErrorKind::UnexpectedToken, p + 2));
        }
        Ok(Methods { machine_name, methods })
    }
}


// ---------------------------------------------------------------------------
// The generated code.

/// The accessor that a method entry asks of a state's struct: `name()` for
/// `get`, `name_mut()` for `set`, none for `fn` (the states implement it).
pub open spec fn accessor_text(t: SpecMethodType) -> Seq<char> {
    match t {
        SpecMethodType::Get(i, ty) => "pub fn "@ + i + "(&self) -> &"@ + ty + " {\n&self."@ + i
            + "\n}\n"@,
        SpecMethodType::GetMut(i, ty) => "pub fn "@ + i + "_mut(&mut self) -> &mut "@ + ty
            + " {\n&mut self."@ + i + "\n}\n"@,
        SpecMethodType::Fn(_) => seq![],
    }
}

/// For each state listed by an entry asking for `t`: the accessor when the
/// state is `s`, nothing otherwise.
pub open spec fn accessor_when(s: Seq<char>, t: SpecMethodType) -> spec_fn(Seq<char>) -> Seq<char> {
    |x: Seq<char>| if x == s {
        accessor_text(t)
    } else {
        seq![]
    }
}

/// The accessors that a method entry gives state `s`: one each time the
/// entry lists `s`.
pub open spec fn entry_accessors(s: Seq<char>, m: SpecMethod) -> Seq<char> {
    concat_map(m.states, accessor_when(s, m.method_type))
}

/// `entry_accessors` of state `s` for each method entry.
pub open spec fn entry_accessors_of(s: Seq<char>) -> spec_fn(SpecMethod) -> Seq<char> {
    |m: SpecMethod| entry_accessors(s, m)
}

/// The impl block of state `s`, with the accessors the entries give it, in
/// the order of the entries.
pub open spec fn state_impl(s: Seq<char>, ms: Seq<SpecMethod>) -> Seq<char> {
    "impl "@ + s + " {\n"@ + concat_map(ms, entry_accessors_of(s)) + "}\n"@
}

/// `state_impl` of each state, for the entries `ms`.
pub open spec fn state_impl_of(ms: Seq<SpecMethod>) -> spec_fn(Seq<char>) -> Seq<char> {
    |s: Seq<char>| state_impl(s, ms)
}

/// The states that the entries list, in order, with repetitions.
pub open spec fn all_states(ms: Seq<SpecMethod>) -> Seq<Seq<char>>
    decreases ms.len(),
{
    if ms.len() == 0 {
        seq![]
    } else {
        all_states(ms.subrange(0, ms.len() - 1)) + ms[ms.len() - 1].states
    }
}

/// The match arm of state `s` in a wrapper on `machine`: the state's struct is
/// bound by `binding` and `call` is made on it.
pub open spec fn state_arm(machine: Seq<char>, binding: Seq<char>, call: Seq<char>) -> spec_fn(
    Seq<char>,
) -> Seq<char> {
    |s: Seq<char>| machine + "::"@ + s + binding + " => Some(v."@ + call + "),\n"@
}

/// The arguments of a call that passes the named parameters on.
pub open spec fn call_args(args: Seq<Seq<char>>) -> Seq<char> {
    concat_map(args, arg_of())
}

/// An argument of a call, followed by a comma.
pub open spec fn arg_of() -> spec_fn(Seq<char>) -> Seq<char> {
    |a: Seq<char>| a + ", "@
}

/// The result type of a wrapper: `Option` of the method's result type.
pub open spec fn output_text(o: Option<Seq<char>>) -> Seq<char> {
    match o {
        None => seq![],
        Some(t) => "-> Option<"@ + t + ">"@,
    }
}

/// The header of a wrapper, the binding of the states' structs in its arms,
/// and the call made on them.
pub open spec fn wrapper_parts(t: SpecMethodType) -> (Seq<char>, Seq<char>, Seq<char>) {
    match t {
        SpecMethodType::Get(i, ty) => (
            "pub fn "@ + i + "(&self) -> Option<&"@ + ty + ">"@,
            "(ref v)"@,
            i + "()"@,
        ),
        SpecMethodType::GetMut(i, ty) => (
            "pub fn "@ + i + "_mut(&mut self) -> Option<&mut "@ + ty + ">"@,
            "(ref mut v)"@,
            i + "_mut()"@,
        ),
        SpecMethodType::Fn(sig) => (
            "pub fn "@ + sig.ident + "("@ + sig.inputs + ") "@ + output_text(sig.output),
            "(ref v)"@,
            sig.ident + "("@ + call_args(sig.args) + ")"@,
        ),
    }
}

/// The wrapper on `machine` of a method entry: in each listed state it gives
/// `Some` of what the state's struct gives, in every other state `None`.
pub open spec fn wrapper_text(machine: Seq<char>, m: SpecMethod) -> Seq<char> {
    let (header, binding, call) = wrapper_parts(m.method_type);
    header + " {\nmatch self {\n"@ + concat_map(m.states, state_arm(machine, binding, call))
        + "_ => None,\n}\n}\n"@
}

/// `wrapper_text` of each method entry, on `machine`.
pub open spec fn wrapper_of(machine: Seq<char>) -> spec_fn(SpecMethod) -> Seq<char> {
    |m: SpecMethod| wrapper_text(machine, m)
}

/// The code that the `methods` macro generates: one impl block per listed
/// state (in the order of first mention) with its accessors, then the
/// wrappers on the machine enum, one per entry.
pub open spec fn methods_code(ms: SpecMethods) -> Seq<char> {
    concat_map(distinct(all_states(ms.methods)), state_impl_of(ms.methods)) + "impl "@
        + ms.machine_name + " {\n"@ + concat_map(ms.methods, wrapper_of(ms.machine_name))
        + "}\n"@
}

/// The states that the entries list, each once, in the order of first
/// mention.
pub fn listed_states(ms: &Vec<Method>) -> (res: Vec<String>)
    ensures
        res.deep_view() == distinct(all_states(methods_view(ms@))),
{
    let ghost mv = methods_view(ms@);
    let mut acc: Vec<String> = Vec::new();
    let n = ms.len();
    assert(mv.take(0) =~= Seq::<SpecMethod>::empty());
    assert(acc.deep_view() =~= Seq::<Seq<char>>::empty());
    for i in 0..n
        invariant
            n == ms.len(),
            mv == methods_view(ms@),
            acc.deep_view() == distinct(all_states(mv.take(i as int))),
    {
        let m = &ms[i];
        assert(mv[i as int] == m@);
        let ghost pre = all_states(mv.take(i as int));
        let k_n = m.states.len();
        assert(pre + m@.states.take(0) =~= pre);
        for k in 0..k_n
            invariant
                k_n == m.states.len(),
                acc.deep_view() == distinct(pre + m@.states.take(k as int)),
        {
            proof {
                lemma_distinct_push(pre + m@.states.take(k as int), m@.states[k as int]);
                assert(pre + m@.states.take(k + 1) =~= (pre + m@.states.take(k as int)).push(
                    m@.states[k as int],
                ));
                assert(m@.states[k as int] == m.states@[k as int]@);
            }
            push_distinct(&mut acc, &m.states[k]);
        }
        assert(mv.take(i + 1).subrange(0, i as int) =~= mv.take(i as int));
        assert(m@.states.take(k_n as int) =~= m@.states);
        assert(all_states(mv.take(i + 1)) == pre + m@.states);
    }
    assert(mv.take(n as int) =~= mv);
    acc
}

/// Appends the accessor that a method entry asks of a state's struct.
fn emit_accessor(out: &mut String, t: &MethodType)
    ensures
        final(out)@ == old(out)@ + accessor_text(t@),
{
    let mut text = String::new();
    match t {
        MethodType::Get(i, ty) => {
            text.append("pub fn ");
            text.append(i.as_str());
            text.append("(&self) -> &");
            text.append(ty.as_str());
            text.append(" {\n&self.");
            text.append(i.as_str());
            text.append("\n}\n");
        },
        MethodType::GetMut(i, ty) => {
            text.append("pub fn ");
            text.append(i.as_str());
            text.append("_mut(&mut self) -> &mut ");
            text.append(ty.as_str());
            text.append(" {\n&mut self.");
            text.append(i.as_str());
            text.append("\n}\n");
        },
        MethodType::Fn(_) => {},
    }
    assert(text@ =~= accessor_text(t@));
    out.append(text.as_str());
}

/// Appends the accessors that a method entry gives state `s`.
fn emit_entry_accessors(out: &mut String, s: &String, m: &Method)
    ensures
        final(out)@ == old(out)@ + entry_accessors(s@, m@),
{
    let ghost sv = m@.states;
    let ghost f = accessor_when(s@, m@.method_type);
    let ghost head = old(out)@;
    let n = m.states.len();
    assert(sv.take(0) =~= Seq::<Seq<char>>::empty());
    for k in 0..n
        invariant
            n == m.states.len(),
            sv == m@.states,
            f == accessor_when(s@, m@.method_type),
            out@ == head + concat_map(sv.take(k as int), f),
    {
        proof {
            lemma_concat_map_take(sv, k as int, f);
        }
        assert(sv[k as int] == m.states@[k as int]@);
        if m.states[k] == *s {
            emit_accessor(out, &m.method_type);
        }
        assert(out@ =~= head + concat_map(sv.take(k + 1), f));
    }
    assert(sv.take(n as int) =~= sv);
}

/// Appends the impl block of state `s`.
fn emit_state_impl(out: &mut String, s: &String, ms: &Vec<Method>)
    ensures
        final(out)@ == old(out)@ + state_impl(s@, methods_view(ms@)),
{
    let ghost mv = methods_view(ms@);
    let ghost f = entry_accessors_of(s@);
    let mut text = String::new();
    text.append("impl ");
    text.append(s.as_str());
    text.append(" {\n");
    let ghost head = text@;
    let n = ms.len();
    assert(mv.take(0) =~= Seq::<SpecMethod>::empty());
    for i in 0..n
        invariant
            n == ms.len(),
            mv == methods_view(ms@),
            f == entry_accessors_of(s@),
            text@ == head + concat_map(mv.take(i as int), f),
    {
        proof {
            lemma_concat_map_take(mv, i as int, f);
        }
        assert(mv[i as int] == ms@[i as int]@);
        emit_entry_accessors(&mut text, s, &ms[i]);
        assert(text@ =~= head + concat_map(mv.take(i + 1), f));
    }
    assert(mv.take(n as int) =~= mv);
    text.append("}\n");
    assert(text@ =~= state_impl(s@, mv));
    out.append(text.as_str());
}

/// The header, binding and call of the wrapper of a method entry.
fn make_wrapper_parts(t: &MethodType) -> (res: (String, String, String))
    ensures
        (res.0@, res.1@, res.2@) == wrapper_parts(t@),
{
    let mut header = String::new();
    let mut binding = String::new();
    let mut call = String::new();
    match t {
        MethodType::Get(i, ty) => {
            header.append("pub fn ");
            header.append(i.as_str());
            header.append("(&self) -> Option<&");
            header.append(ty.as_str());
            header.append(">");
            binding.append("(ref v)");
            call.append(i.as_str());
            call.append("()");
        },
        MethodType::GetMut(i, ty) => {
            header.append("pub fn ");
            header.append(i.as_str());
            header.append("_mut(&mut self) -> Option<&mut ");
            header.append(ty.as_str());
            header.append(">");
            binding.append("(ref mut v)");
            call.append(i.as_str());
            call.append("_mut()");
        },
        MethodType::Fn(sig) => {
            header.append("pub fn ");
            header.append(sig.ident.as_str());
            header.append("(");
            header.append(sig.inputs.as_str());
            header.append(") ");
            match &sig.output {
                None => {},
                Some(ty) => {
                    header.append("-> Option<");
                    header.append(ty.as_str());
                    header.append(">");
                },
            }
            binding.append("(ref v)");
            call.append(sig.ident.as_str());
            call.append("(");
            let ghost av = sig@.args;
            let ghost start = call@;
            let n = sig.args.len();
            assert(av.take(0) =~= Seq::<Seq<char>>::empty());
            for k in 0..n
                invariant
                    n == sig.args.len(),
                    av == sig@.args,
                    call@ == start + concat_map(av.take(k as int), arg_of()),
            {
                proof {
                    lemma_concat_map_take(av, k as int, arg_of());
                }
                assert(av[k as int] == sig.args@[k as int]@);
                call.append(sig.args[k].as_str());
                call.append(", ");
                assert(call@ =~= start + concat_map(av.take(k + 1), arg_of()));
            }
            assert(av.take(n as int) =~= av);
            call.append(")");
        },
    }
    assert(header@ =~= wrapper_parts(t@).0);
    assert(binding@ =~= wrapper_parts(t@).1);
    assert(call@ =~= wrapper_parts(t@).2);
    (header, binding, call)
}

/// Appends the wrapper of a method entry on `machine`.
fn emit_wrapper(out: &mut String, machine: &String, m: &Method)
    ensures
        final(out)@ == old(out)@ + wrapper_text(machine@, m@),
{
    let (header, binding, call) = make_wrapper_parts(&m.method_type);
    let ghost f = state_arm(machine@, binding@, call@);
    let ghost sv = m@.states;
    let mut text = String::new();
    text.append(header.as_str());
    text.append(" {\nmatch self {\n");
    let ghost head = text@;
    let n = m.states.len();
    assert(sv.take(0) =~= Seq::<Seq<char>>::empty());
    for k in 0..n
        invariant
            n == m.states.len(),
            sv == m@.states,
            f == state_arm(machine@, binding@, call@),
            text@ == head + concat_map(sv.take(k as int), f),
    {
        proof {
            lemma_concat_map_take(sv, k as int, f);
        }
        assert(sv[k as int] == m.states@[k as int]@);
        let mut line = String::new();
        line.append(machine.as_str());
        line.append("::");
        line.append(m.states[k].as_str());
        line.append(binding.as_str());
        line.append(" => Some(v.");
        line.append(call.as_str());
        line.append("),\n");
        assert(line@ =~= f(sv[k as int]));
        text.append(line.as_str());
        assert(text@ =~= head + concat_map(sv.take(k + 1), f));
    }
    assert(sv.take(n as int) =~= sv);
    text.append("_ => None,\n}\n}\n");
    assert(text@ =~= wrapper_text(machine@, m@));
    out.append(text.as_str());
}

/// The code that the `methods` macro generates for the method entries.
pub fn methods_code_of(ms: &Methods) -> (res: String)
    ensures
        res@ == methods_code(ms@),
{
    let ghost mv = ms@.methods;
    let states = listed_states(&ms.methods);
    let ghost stv = states.deep_view();
    let ghost fi = state_impl_of(mv);
    let ghost fw = wrapper_of(ms@.machine_name);
    let mut out = String::new();
    let ns = states.len();
    assert(stv.take(0) =~= Seq::<Seq<char>>::empty());
    assert(out@ =~= concat_map(stv.take(0), fi));
    for i in 0..ns
        invariant
            ns == states.len(),
            stv == states.deep_view(),
            mv == methods_view(ms.methods@),
            fi == state_impl_of(mv),
            out@ == concat_map(stv.take(i as int), fi),
    {
        proof {
            lemma_concat_map_take(stv, i as int, fi);
        }
        assert(stv[i as int] == states@[i as int]@);
        emit_state_impl(&mut out, &states[i], &ms.methods);
    }
    assert(stv.take(ns as int) =~= stv);
    out.append("impl ");
    out.append(ms.machine_name.as_str());
    out.append(" {\n");
    let ghost head = out@;
    let n = ms.methods.len();
    assert(mv.take(0) =~= Seq::<SpecMethod>::empty());
    for i in 0..n
        invariant
            n == ms.methods.len(),
            mv == methods_view(ms.methods@),
            fw == wrapper_of(ms@.machine_name),
            out@ == head + concat_map(mv.take(i as int), fw),
    {
        proof {
            lemma_concat_map_take(mv, i as int, fw);
        }
        assert(mv[i as int] == ms.methods@[i as int]@);
        emit_wrapper(&mut out, &ms.machine_name, &ms.methods[i]);
        assert(out@ =~= head + concat_map(mv.take(i + 1), fw));
    }
    assert(mv.take(n as int) =~= mv);
    out.append("}\n");
    assert(out@ =~= methods_code(ms@));
    out
}

/// The `methods` macro: reads the method entries of a machine and generates
/// the accessors on the states' structs and the wrappers on the machine enum.
pub fn methods(ts: &Vec<TokenTree>) -> (res: Result<Expansion, ParseError>)
    ensures
        match spec_parse_methods(ts@) {
            Err(e) => res matches Err(x) && x@ == e,
            Ok(ms) => res matches Ok(x) && {
                &&& x.file_stem@ == lowercase(ms.machine_name)
                &&& x.code@ == methods_code(ms)
                &&& x.graph is None
            },
        },
{
    match Methods::parse(ts) {
        Err(e) => Err(e),
        Ok(ms) => {
            let code = methods_code_of(&ms);
            let file_stem = to_lowercase(ms.machine_name.as_str());
            Ok(Expansion { file_stem, code, graph: None })
        },
    }
}


// ---------------------------------------------------------------------------
// Laws.

/// Whether some entry lists state `s`.
pub open spec fn is_listed(ms: Seq<SpecMethod>, s: Seq<char>) -> bool {
    exists|j: int| 0 <= j < ms.len() && (#[trigger] ms[j]).states.contains(s)
}

proof fn lemma_all_states(ms: Seq<SpecMethod>, s: Seq<char>)
    ensures
        all_states(ms).contains(s) <==> is_listed(ms, s),
    decreases ms.len(),
{
    if ms.len() > 0 {
        let pre = ms.subrange(0, ms.len() - 1);
        let last = ms[ms.len() - 1];
        lemma_all_states(pre, s);
        let a = all_states(pre);
        let all = a + last.states;
        if all.contains(s) {
            let i = choose|i: int| 0 <= i < all.len() && all[i] == s;
            if i < a.len() {
                assert(a[i] == s);
                let j = choose|j: int| 0 <= j < pre.len() && (#[trigger] pre[j]).states.contains(s);
                assert(ms[j] == pre[j]);
            } else {
                assert(last.states[i - a.len()] == s);
                assert(ms[ms.len() - 1].states.contains(s));
            }
        }
        if is_listed(ms, s) {
            let j = choose|j: int| 0 <= j < ms.len() && (#[trigger] ms[j]).states.contains(s);
            let k = choose|k: int| 0 <= k < ms[j].states.len() && ms[j].states[k] == s;
            if j < ms.len() - 1 {
                assert(pre[j] == ms[j]);
                let i = choose|i: int| 0 <= i < a.len() && a[i] == s;
                assert(all[i] == s);
            } else {
                assert(all[a.len() + k] == s);
            }
        }
    }
}

/// Every state that some entry lists gets exactly one impl block: the states
/// of the impl blocks are the listed states, each once.
pub proof fn law_one_impl_per_listed_state(ms: Seq<SpecMethod>, s: Seq<char>)
    ensures
        distinct(all_states(ms)).contains(s) <==> is_listed(ms, s),
        distinct(all_states(ms)).no_duplicates(),
{
    lemma_distinct(all_states(ms), s);
    lemma_all_states(ms, s);
}


/// Whether the wrapper of an entry whose arms are for `states` (in order),
/// followed by the arm `_ => None`, answers `Some` in state `s`.
pub open spec fn wrapper_answers_some(states: Seq<Seq<char>>, s: Seq<char>) -> bool
    decreases states.len(),
{
    if states.len() == 0 {
        false
    } else {
        wrapper_answers_some(states.subrange(0, states.len() - 1), s) || states[states.len()
            - 1] == s
    }
}

/// The wrapper of an entry answers `Some` exactly in the states the entry
/// lists, and `None` in every other state.
pub proof fn law_wrapper_answers_in_listed_states(m: SpecMethod, s: Seq<char>)
    ensures
        wrapper_answers_some(m.states, s) <==> m.states.contains(s),
{
    lemma_wrapper_answers(m.states, s);
}

proof fn lemma_wrapper_answers(states: Seq<Seq<char>>, s: Seq<char>)
    ensures
        wrapper_answers_some(states, s) <==> states.contains(s),
    decreases states.len(),
{
    if states.len() > 0 {
        let pre = states.subrange(0, states.len() - 1);
        lemma_wrapper_answers(pre, s);
        assert(states =~= pre.push(states[states.len() - 1]));
        lemma_push_contains(pre, states[states.len() - 1], s);
    }
}

/// The field that the wrapper of entry `m` reaches in the struct of a
/// machine in state `s`: the wrapper's arm for `s` calls the accessor
/// `name()` (for `get`) or `name_mut()` (for `set`), which gives `&self.name`
/// or `&mut self.name`; where no arm is for `s` the wrapper gives `None`.
pub open spec fn wrapper_field(m: SpecMethod, s: Seq<char>) -> Option<Seq<char>> {
    if wrapper_answers_some(m.states, s) {
        match m.method_type {
            SpecMethodType::Get(f, _) => Some(f),
            SpecMethodType::GetMut(f, _) => Some(f),
            SpecMethodType::Fn(_) => None,
        }
    } else {
        None
    }
}

/// A machine in state `state`, whose struct holds the values `fields`.
pub struct MachineValue<V> {
    pub state: Seq<char>,
    pub fields: Map<Seq<char>, V>,
}

/// What the wrapper of entry `m` reads from the machine `mv`.
pub open spec fn read_through<V>(m: SpecMethod, mv: MachineValue<V>) -> Option<V> {
    match wrapper_field(m, mv.state) {
        Some(f) => Some(mv.fields[f]),
        None => None,
    }
}

/// The machine `mv` after `x` is written through the `set` wrapper of entry
/// `m`, or nothing where that wrapper gives `None` (the machine is then
/// left as it is).
pub open spec fn write_through<V>(m: SpecMethod, mv: MachineValue<V>, x: V) -> Option<
    MachineValue<V>,
> {
    match m.method_type {
        SpecMethodType::GetMut(_, _) => match wrapper_field(m, mv.state) {
            Some(f) => Some(MachineValue { state: mv.state, fields: mv.fields.insert(f, x) }),
            None => None,
        },
        _ => None,
    }
}

/// With a `get` entry and a `set` entry for the same field, a value written
/// through the `set` wrapper in a state that both entries list is read back
/// through the `get` wrapper, while the state and the other fields stay as
/// they were; in a state that the `set` entry does not list, the `set`
/// wrapper gives `None`, and in one that the `get` entry does not list, the
/// `get` wrapper gives `None`.
pub proof fn law_set_then_get<V>(
    get: SpecMethod,
    set: SpecMethod,
    f: Seq<char>,
    t1: Seq<char>,
    t2: Seq<char>,
    mv: MachineValue<V>,
    x: V,
)
    requires
        get.method_type == SpecMethodType::Get(f, t1),
        set.method_type == SpecMethodType::GetMut(f, t2),
    ensures
        set.states.contains(mv.state) && get.states.contains(mv.state) ==> (write_through(
            set,
            mv,
            x,
        ) matches Some(mv2) && {
            &&& read_through(get, mv2) == Some(x)
            &&& mv2.state == mv.state
            &&& forall|g: Seq<char>| g != f ==> #[trigger] mv2.fields[g] == mv.fields[g]
        }),
        !set.states.contains(mv.state) ==> write_through(set, mv, x) is None,
        !get.states.contains(mv.state) ==> read_through(get, mv) is None,
{
    lemma_wrapper_answers(set.states, mv.state);
    lemma_wrapper_answers(get.states, mv.state);
}

/// Whether the tokens read from `k` on (with `depth` angle brackets open)
/// run to the end of `ts` without a `,` outside angle brackets, and close
/// all of them.
pub open spec fn scan_closed(ts: Seq<TokenTree>, k: int, depth: nat) -> bool
    decreases ts.len() - k,
{
    if k < 0 || k >= ts.len() {
        depth == 0
    } else if depth == 0 && is_punct(ts[k], ',') {
        false
    } else {
        scan_closed(ts, k + 1, angle_depth_after(ts, k, depth))
    }
}

/// A named parameter of a method, `pattern: Type`, as tokens.
pub struct ParamTokens {
    pub pat: Seq<TokenTree>,
    pub colon: TokenTree,
    pub ty: Seq<TokenTree>,
}

/// The tokens of a named parameter.
pub open spec fn param_text(p: ParamTokens) -> Seq<TokenTree> {
    p.pat + seq![p.colon] + p.ty
}

/// Whether a named parameter is laid out as `ParamTokens` says: a pattern
/// without a lone `:`, a lone `:`, and a type, the whole without a `,`
/// outside angle brackets (those in groups do not count), closing its angle
/// brackets, and no receiver.
pub open spec fn param_tokens(p: ParamTokens) -> bool {
    &&& p.pat.len() > 0
    &&& p.ty.len() > 0
    &&& first_colon(p.pat, 0, p.pat.len() as int) == p.pat.len()
    &&& is_punct(p.colon, ':')
    &&& !is_joint_punct(p.colon, ':')
    &&& !is_joint_punct(p.pat.last(), ':')
    &&& scan_closed(param_text(p), 0, 0)
    &&& !is_receiver(param_text(p), 0, param_text(p).len() as int)
}

/// Whether `r` is a receiver (`self`, `&self`, `&'a mut self`, ...) without a
/// `,` outside angle brackets.
pub open spec fn receiver_tokens(r: Seq<TokenTree>) -> bool {
    &&& r.len() > 0
    &&& is_receiver(r, 0, r.len() as int)
    &&& scan_closed(r, 0, 0)
}

/// Named parameters separated by the comma `comma`.
pub open spec fn params_text(ps: Seq<ParamTokens>, comma: TokenTree) -> Seq<TokenTree>
    decreases ps.len(),
{
    if ps.len() == 0 {
        seq![]
    } else if ps.len() == 1 {
        param_text(ps[0])
    } else {
        param_text(ps[0]) + seq![comma] + params_text(ps.drop_first(), comma)
    }
}

/// The parameters of a method: the receiver `recv` (or nothing), then the
/// named parameters `ps`, separated by the comma `comma`.
pub open spec fn args_text(recv: Seq<TokenTree>, ps: Seq<ParamTokens>, comma: TokenTree) -> Seq<
    TokenTree,
> {
    if recv.len() == 0 {
        params_text(ps, comma)
    } else if ps.len() == 0 {
        recv
    } else {
        recv + seq![comma] + params_text(ps, comma)
    }
}

/// The patterns of named parameters, as text.
pub open spec fn patterns(ps: Seq<ParamTokens>) -> Seq<Seq<char>> {
    ps.map_values(|p: ParamTokens| tokens_text(p.pat))
}

/// The patterns that a read of parameters gives, if it gives them.
pub open spec fn parsed_args(r: Result<Seq<Seq<char>>, SpecParseError>) -> Option<Seq<Seq<char>>> {
    match r {
        Ok(a) => Some(a),
        Err(_) => None,
    }
}

/// A type read after other tokens ends where it ends alone, moved on, when
/// the token before it is no `-` joined to it.
proof fn lemma_scan_end_shift(a: Seq<TokenTree>, r: Seq<TokenTree>, k: int, depth: nat)
    requires
        0 <= k <= r.len(),
        k == 0 ==> a.len() == 0 || !is_joint_punct(a.last(), '-'),
    ensures
        scan_end(a + r, a.len() + k, depth, false) == a.len() + scan_end(r, k, depth, false),
    decreases r.len() - k,
{
    let ts = a + r;
    let kk = a.len() + k;
    if k < r.len() {
        assert(ts[kk] == r[k]);
        if k > 0 {
            assert(ts[kk - 1] == r[k - 1]);
        } else if a.len() > 0 {
            assert(ts[kk - 1] == a.last());
        }
        assert(angle_depth_after(ts, kk, depth) == angle_depth_after(r, k, depth));
        lemma_scan_end_shift(a, r, k + 1, angle_depth_after(r, k, depth));
    }
}

/// The first lone `:` after other tokens is where it is alone, moved on,
/// when the token before is no `:` joined to it.
proof fn lemma_first_colon_shift(a: Seq<TokenTree>, r: Seq<TokenTree>, k: int, e: int)
    requires
        0 <= k <= e <= r.len(),
        k == 0 ==> a.len() == 0 || !is_joint_punct(a.last(), ':'),
    ensures
        first_colon(a + r, a.len() + k, a.len() + e) == a.len() + first_colon(r, k, e),
    decreases e - k,
{
    let ts = a + r;
    let kk = a.len() + k;
    if k < e {
        assert(ts[kk] == r[k]);
        if k > 0 {
            assert(ts[kk - 1] == r[k - 1]);
        } else if a.len() > 0 {
            assert(ts[kk - 1] == a.last());
        }
        assert(lone_colon_at(ts, kk) == lone_colon_at(r, k));
        lemma_first_colon_shift(a, r, k + 1, e);
    }
}

/// The first lone `:` in `ts[k..e]` lies in that range, or is `e`.
proof fn lemma_first_colon_within(ts: Seq<TokenTree>, k: int, e: int)
    requires
        k <= e,
    ensures
        k <= first_colon(ts, k, e) <= e,
    decreases e - k,
{
    if k < e && !lone_colon_at(ts, k) {
        lemma_first_colon_within(ts, k + 1, e);
    }
}

/// Parameters read after other tokens are read as alone, when the token
/// before them is no `-` or `:` joined to them.
proof fn lemma_args_shift(a: Seq<TokenTree>, r: Seq<TokenTree>, k: int, acc: Seq<Seq<char>>)
    requires
        0 <= k <= r.len(),
        k == 0 ==> a.len() == 0 || (!is_joint_punct(a.last(), '-') && !is_joint_punct(
            a.last(),
            ':',
        )),
    ensures
        parsed_args(spec_parse_args(a + r, a.len() + k, acc)) == parsed_args(
            spec_parse_args(r, k, acc),
        ),
    decreases r.len() - k,
{
    let ts = a + r;
    let n = a.len() as int;
    if k < r.len() {
        lemma_scan_end_shift(a, r, k, 0);
        lemma_scan_end_ge(r, k, 0, false);
        let e = scan_end(r, k, 0, false);
        if e > k {
            lemma_first_colon_shift(a, r, k, e);
            let p = first_colon(r, k, e);
            lemma_first_colon_within(r, k, e);
            assert forall|j: int| k <= j < e implies ts[n + j] == r[j] by {}
            if k > 0 {
                assert(ts[n + k - 1] == r[k - 1]);
            }
            assert(is_receiver(ts, n + k, n + e) == is_receiver(r, k, e));
            assert(ts.subrange(n + k, n + p) =~= r.subrange(k, p));
            let acc2 = if is_receiver(r, k, e) || p >= e {
                acc
            } else {
                acc.push(tokens_text(r.subrange(k, p)))
            };
            if e < r.len() {
                assert(ts[n + e] == r[e]);
                lemma_args_shift(a, r, e + 1, acc2);
            }
        }
    }
}

/// Tokens without a `,` outside angle brackets that close theirs end, as a
/// type, where they end, before nothing or a comma.
proof fn lemma_item_end(x: Seq<TokenTree>, rest: Seq<TokenTree>, k: int, depth: nat)
    requires
        0 <= k <= x.len(),
        scan_closed(x, k, depth),
        rest.len() == 0 || is_punct(rest[0], ','),
    ensures
        scan_end(x + rest, k, depth, false) == x.len(),
    decreases x.len() - k,
{
    let ts = x + rest;
    if k < x.len() {
        assert(ts[k] == x[k]);
        if k > 0 {
            assert(ts[k - 1] == x[k - 1]);
        }
        assert(angle_depth_after(ts, k, depth) == angle_depth_after(x, k, depth));
        lemma_item_end(x, rest, k + 1, angle_depth_after(x, k, depth));
    } else if rest.len() > 0 {
        assert(ts[k] == rest[0]);
    }
}

/// A pattern without a lone `:` is read past in search of one.
proof fn lemma_first_colon_past(pat: Seq<TokenTree>, tail: Seq<TokenTree>, k: int, e: int)
    requires
        0 <= k <= pat.len() <= e <= pat.len() + tail.len(),
        first_colon(pat, k, pat.len() as int) == pat.len(),
    ensures
        first_colon(pat + tail, k, e) == first_colon(pat + tail, pat.len() as int, e),
    decreases pat.len() - k,
{
    let ts = pat + tail;
    if k < pat.len() {
        assert(ts[k] == pat[k]);
        if k > 0 {
            assert(ts[k - 1] == pat[k - 1]);
        }
        assert(lone_colon_at(ts, k) == lone_colon_at(pat, k));
        lemma_first_colon_past(pat, tail, k + 1, e);
    }
}

/// A named parameter before nothing or a comma is read as its pattern, and
/// the reading stops at its end.
proof fn lemma_param_read(p: ParamTokens, rest: Seq<TokenTree>)
    requires
        param_tokens(p),
        rest.len() == 0 || is_punct(rest[0], ','),
    ensures
        ({
            let ts = param_text(p) + rest;
            let e = param_text(p).len() as int;
            &&& scan_end(ts, 0, 0, false) == e
            &&& first_colon(ts, 0, e) == p.pat.len()
            &&& !is_receiver(ts, 0, e)
            &&& tokens_text(ts.subrange(0, p.pat.len() as int)) == tokens_text(p.pat)
        }),
{
    let x = param_text(p);
    let ts = x + rest;
    let e = x.len() as int;
    let m = p.pat.len() as int;
    lemma_item_end(x, rest, 0, 0);
    assert(x =~= p.pat + (seq![p.colon] + p.ty));
    assert(ts =~= p.pat + (seq![p.colon] + p.ty + rest));
    lemma_first_colon_past(p.pat, seq![p.colon] + p.ty + rest, 0, e);
    assert(ts[m] == p.colon);
    assert(ts[m - 1] == p.pat.last());
    assert(lone_colon_at(ts, m));
    assert forall|j: int| 0 <= j < e implies ts[j] == x[j] by {}
    assert(is_receiver(ts, 0, e) == is_receiver(x, 0, e));
    assert(ts.subrange(0, m) =~= p.pat);
}

/// Named parameters separated by commas are read as their patterns, in
/// order, after the patterns `acc`.
proof fn lemma_params_read(ps: Seq<ParamTokens>, comma: TokenTree, acc: Seq<Seq<char>>)
    requires
        forall|i: int| 0 <= i < ps.len() ==> #[trigger] param_tokens(ps[i]),
        is_punct(comma, ','),
    ensures
        parsed_args(spec_parse_args(params_text(ps, comma), 0, acc)) == Some(acc + patterns(ps)),
    decreases ps.len(),
{
    if ps.len() == 0 {
        assert(acc + patterns(ps) =~= acc);
    } else {
        let p = ps[0];
        assert(param_tokens(p));
        let tail = ps.drop_first();
        let rest = if ps.len() == 1 {
            Seq::<TokenTree>::empty()
        } else {
            seq![comma] + params_text(tail, comma)
        };
        let ts = params_text(ps, comma);
        assert(ts =~= param_text(p) + rest);
        lemma_param_read(p, rest);
        let acc2 = acc.push(tokens_text(p.pat));
        assert(acc + patterns(ps) =~= acc2 + patterns(tail));
        if ps.len() == 1 {
            assert(patterns(tail) =~= Seq::<Seq<char>>::empty());
        } else {
            let a = param_text(p) + seq![comma];
            assert(ts =~= a + params_text(tail, comma));
            assert(ts[a.len() - 1] == comma);
            assert(a.last() == comma);
            lemma_args_shift(a, params_text(tail, comma), 0, acc2);
            assert forall|i: int| 0 <= i < tail.len() implies #[trigger] param_tokens(tail[i]) by {
                assert(tail[i] == ps[i + 1]);
            }
            lemma_params_read(tail, comma, acc2);
        }
    }
}

/// The wrapper of a method forwards its named parameters in order and not
/// its receiver: the parameters `recv, p1: T1, ..., pn: Tn` (the receiver
/// optional) are read as the patterns `p1, ..., pn`, which the wrapper's
/// call passes on (`call_args`).
pub proof fn law_wrapper_forwards_named_parameters(
    recv: Seq<TokenTree>,
    ps: Seq<ParamTokens>,
    comma: TokenTree,
)
    requires
        recv.len() == 0 || receiver_tokens(recv),
        forall|i: int| 0 <= i < ps.len() ==> #[trigger] param_tokens(ps[i]),
        is_punct(comma, ','),
    ensures
        spec_parse_args(args_text(recv, ps, comma), 0, seq![]) == Ok::<
            Seq<Seq<char>>,
            SpecParseError,
        >(patterns(ps)),
{
    lemma_params_read(ps, comma, seq![]);
    assert(Seq::<Seq<char>>::empty() + patterns(ps) =~= patterns(ps));
    if recv.len() > 0 {
        let rest = if ps.len() == 0 {
            Seq::<TokenTree>::empty()
        } else {
            seq![comma] + params_text(ps, comma)
        };
        let ts = args_text(recv, ps, comma);
        assert(ts =~= recv + rest);
        lemma_item_end(recv, rest, 0, 0);
        assert forall|j: int| 0 <= j < recv.len() implies ts[j] == recv[j] by {}
        assert(is_receiver(ts, 0, recv.len() as int));
        if ps.len() > 0 {
            let a = recv + seq![comma];
            assert(ts =~= a + params_text(ps, comma));
            assert(a.last() == comma);
            assert(ts[recv.len() as int] == comma);
            lemma_args_shift(a, params_text(ps, comma), 0, seq![]);
        } else {
            assert(patterns(ps) =~= Seq::<Seq<char>>::empty());
        }
    }
}

/// In the generated code, the wrapper of every entry holds, for every state
/// the entry lists, the arm that answers `Some` through that state's own
/// accessor or method: `Machine::S(ref v) => Some(v.name())` for `get`,
/// `Machine::S(ref mut v) => Some(v.name_mut())` for `set`, and
/// `Machine::S(ref v) => Some(v.f(args, ))` for `fn`, passing on the named
/// parameters.
pub proof fn law_listed_states_answer_through_their_arm(ms: SpecMethods, j: int, s: Seq<char>)
    requires
        0 <= j < ms.methods.len(),
        ms.methods[j].states.contains(s),
    ensures
        ({
            let mn = ms.machine_name;
            match ms.methods[j].method_type {
                SpecMethodType::Get(i, _) => has_infix(
                    methods_code(ms),
                    mn + "::"@ + s + "(ref v)"@ + " => Some(v."@ + (i + "()"@) + "),\n"@,
                ),
                SpecMethodType::GetMut(i, _) => has_infix(
                    methods_code(ms),
                    mn + "::"@ + s + "(ref mut v)"@ + " => Some(v."@ + (i + "_mut()"@) + "),\n"@,
                ),
                SpecMethodType::Fn(sig) => has_infix(
                    methods_code(ms),
                    mn + "::"@ + s + "(ref v)"@ + " => Some(v."@ + (sig.ident + "("@ + call_args(
                        sig.args,
                    ) + ")"@) + "),\n"@,
                ),
            }
        }),
{
    let mn = ms.machine_name;
    let m = ms.methods[j];
    let cm = concat_map(ms.methods, wrapper_of(mn));
    lemma_concat_map_has(ms.methods, j, wrapper_of(mn));
    let a = concat_map(distinct(all_states(ms.methods)), state_impl_of(ms.methods)) + "impl "@ + mn
        + " {\n"@;
    lemma_infix_around(a, cm, "}\n"@, wrapper_text(mn, m));
    let (header, binding, call) = wrapper_parts(m.method_type);
    let k = choose|k: int| 0 <= k < m.states.len() && m.states[k] == s;
    let ca = concat_map(m.states, state_arm(mn, binding, call));
    lemma_concat_map_has(m.states, k, state_arm(mn, binding, call));
    lemma_infix_around(header + " {\nmatch self {\n"@, ca, "_ => None,\n}\n}\n"@, state_arm(
        mn,
        binding,
        call,
    )(s));
    lemma_infix_trans(methods_code(ms), wrapper_text(mn, m), state_arm(mn, binding, call)(s));
}

} // verus!
