//! The `machine` macro: an enum whose variants are the states of a machine,
//! expanded into the machine enum (with an added `Error` state), one struct
//! per state holding its fields, and a constructor per state.
use vstd::prelude::*;
use crate::error::{error_at, nested_in, ErrorKind, ParseError, SpecParseError};
use crate::expansion::Expansion;
use crate::grammar::{
    angle_close, angle_depth_after, group_at, group_body, group_is, group_tokens,
    is_group, is_ident_str, is_keyword, is_punct, is_vis_scope, lemma_skip_attrs_ge, expr_depth_after, expr_end, find_expr_end, parse_ident, parse_type,
    parse_vis, punct_at, punct_is, skip_attributes, skip_attrs, skip_generics, skip_where,
    spec_parse_ident, spec_parse_type, spec_parse_vis, spec_skip_generics, view_result,
    scan_depth, scan_end, lemma_scan_end_ge,
    where_preds, word_at, word_is,
};
use crate::text::{concat_map, lemma_concat_map_take, lowercase, to_lowercase};
use crate::tokens::{Delimiter, TokenTree};

verus! {

/// A field of a state: its visibility (as written, possibly empty), its name
/// and its type (as written).
#[derive(Debug)]
pub struct Field {
    pub vis: String,
    pub ident: String,
    pub ty: String,
}

/// The mathematical form of a `Field`.
pub struct SpecField {
    pub vis: Seq<char>,
    pub ident: Seq<char>,
    pub ty: Seq<char>,
}

impl View for Field {
    type V = SpecField;

    open spec fn view(&self) -> SpecField {
        SpecField { vis: self.vis@, ident: self.ident@, ty: self.ty@ }
    }
}

/// The views of a sequence of fields.
pub open spec fn fields_view(v: Seq<Field>) -> Seq<SpecField> {
    v.map_values(|f: Field| f@)
}

/// A state of the machine, with its fields.
#[derive(Debug)]
pub struct Variant {
    pub name: String,
    pub fields: Vec<Field>,
}

/// The mathematical form of a `Variant`.
pub struct SpecVariant {
    pub name: Seq<char>,
    pub fields: Seq<SpecField>,
}

impl View for Variant {
    type V = SpecVariant;

    open spec fn view(&self) -> SpecVariant {
        SpecVariant { name: self.name@, fields: fields_view(self.fields@) }
    }
}

/// The views of a sequence of states.
pub open spec fn variants_view(v: Seq<Variant>) -> Seq<SpecVariant> {
    v.map_values(|x: Variant| x@)
}

/// A machine: its name and its states, in the order declared.
#[derive(Debug)]
pub struct MachineDef {
    pub name: String,
    pub variants: Vec<Variant>,
}

/// The mathematical form of a `MachineDef`.
pub struct SpecMachine {
    pub name: Seq<char>,
    pub variants: Seq<SpecVariant>,
}

impl View for MachineDef {
    type V = SpecMachine;

    open spec fn view(&self) -> SpecMachine {
        SpecMachine { name: self.name@, variants: variants_view(self.variants@) }
    }
}

// ---------------------------------------------------------------------------
// Grammar.

/// A field at `i`: attributes, visibility, then `name: Type` for a named
/// field or `Type` alone for an unnamed one (whose name is empty).
pub open spec fn spec_parse_field(ts: Seq<TokenTree>, i: int, named: bool) -> Result<
    (SpecField, int),
    SpecParseError,
> {
    let a = skip_attrs(ts, i);
    let (vis, b) = spec_parse_vis(ts, a);
    if named {
        match spec_parse_ident(ts, b) {
            Err(e) => Err(e),
            Ok((ident, c)) => if !punct_at(ts, c, ':') {
                Err(error_at(ErrorKind::ExpectedColon, c))
            } else {
                match spec_parse_type(ts, c + 1, false) {
                    Err(e) => Err(e),
                    Ok((ty, d)) => Ok((SpecField { vis, ident, ty }, d)),
                }
            },
        }
    } else {
        match spec_parse_type(ts, b, false) {
            Err(e) => Err(e),
            Ok((ty, d)) => Ok((SpecField { vis, ident: seq![], ty }, d)),
        }
    }
}

/// Reading a field moves forwards.
pub proof fn lemma_field_advances(ts: Seq<TokenTree>, i: int, named: bool)
    requires
        0 <= i,
    ensures
        spec_parse_field(ts, i, named) matches Ok((_, j)) ==> j > i,
{
    lemma_skip_attrs_ge(ts, i);
}

/// Reading a state moves forwards.
pub proof fn lemma_variant_advances(ts: Seq<TokenTree>, i: int)
    requires
        0 <= i,
    ensures
        spec_parse_variant(ts, i) matches Ok((_, j)) ==> j > i,
{
    lemma_skip_attrs_ge(ts, i);
}

/// Fields separated by commas (a last comma allowed) up to the end of `ts`,
/// named or not, read from `i` on, after the fields `acc` already read.
pub open spec fn spec_parse_fields(
    ts: Seq<TokenTree>,
    i: int,
    acc: Seq<SpecField>,
    named: bool,
) -> Result<Seq<SpecField>, SpecParseError>
    decreases ts.len() - i,
{
    if i < 0 || i >= ts.len() {
        Ok(acc)
    } else {
        match spec_parse_field(ts, i, named) {
            Err(e) => Err(e),
            Ok((f, j)) => if j >= ts.len() {
                Ok(acc.push(f))
            } else if punct_at(ts, j, ',') {
                proof {
                    lemma_field_advances(ts, i, named);
                }
                spec_parse_fields(ts, j + 1, acc.push(f), named)
            } else {
                Err(error_at(ErrorKind::ExpectedComma, j))
            },
        }
    }
}

/// A state at `i`: attributes, its name, then its named fields in braces, or
/// its unnamed fields in parentheses, or nothing (no fields), then possibly
/// `= discriminant`.
pub open spec fn spec_parse_variant(ts: Seq<TokenTree>, i: int) -> Result<
    (SpecVariant, int),
    SpecParseError,
> {
    let a = skip_attrs(ts, i);
    match spec_parse_ident(ts, a) {
        Err(e) => Err(e),
        Ok((name, b)) => {
            let fr: Result<(Seq<SpecField>, int), SpecParseError> = if group_at(
                ts,
                b,
                Delimiter::Brace,
            ) {
                match spec_parse_fields(group_body(ts[b]), 0, seq![], true) {
                    Ok(fs) => Ok((fs, b + 1)),
                    Err(e) => Err(nested_in(b, e)),
                }
            } else if group_at(ts, b, Delimiter::Parenthesis) {
                match spec_parse_fields(group_body(ts[b]), 0, seq![], false) {
                    Ok(fs) => Ok((fs, b + 1)),
                    Err(e) => Err(nested_in(b, e)),
                }
            } else {
                Ok((seq![], b))
            };
            match fr {
                Err(e) => Err(e),
                Ok((fields, c)) => if punct_at(ts, c, '=') {
                    let e = expr_end(ts, c + 1, 0);
                    if e <= c + 1 {
                        Err(error_at(ErrorKind::ExpectedExpression, c + 1))
                    } else {
                        Ok((SpecVariant { name, fields }, e))
                    }
                } else {
                    Ok((SpecVariant { name, fields }, c))
                },
            }
        },
    }
}

/// States separated by commas (a last comma allowed) up to the end of `ts`,
/// read from `i` on, after the states `acc` already read.
pub open spec fn spec_parse_variants(ts: Seq<TokenTree>, i: int, acc: Seq<SpecVariant>) -> Result<
    Seq<SpecVariant>,
    SpecParseError,
>
    decreases ts.len() - i,
{
    if i < 0 || i >= ts.len() {
        Ok(acc)
    } else {
        match spec_parse_variant(ts, i) {
            Err(e) => Err(e),
            Ok((v, j)) => if j >= ts.len() {
                Ok(acc.push(v))
            } else if punct_at(ts, j, ',') {
                proof {
                    lemma_variant_advances(ts, i);
                }
                spec_parse_variants(ts, j + 1, acc.push(v))
            } else {
                Err(error_at(ErrorKind::ExpectedComma, j))
            },
        }
    }
}

/// Where the body of the enum must stand, after its generic parameters
/// ending at `d` and its `where` clause, if any; or the position where the
/// `where` clause lacks a `:`.
pub open spec fn body_position(ts: Seq<TokenTree>, d: int) -> Result<int, int> {
    if word_at(ts, d, "where"@) {
        where_preds(ts, d + 1)
    } else {
        Ok(d)
    }
}

/// The states of the machine in the body at `e`, if it is a group in braces
/// and the last token.
pub open spec fn spec_parse_body(ts: Seq<TokenTree>, e: int) -> Result<
    Seq<SpecVariant>,
    SpecParseError,
> {
    if !group_at(ts, e, Delimiter::Brace) {
        Err(error_at(ErrorKind::ExpectedBraces, e))
    } else {
        match spec_parse_variants(group_body(ts[e]), 0, seq![]) {
            Err(err) => Err(nested_in(e, err)),
            Ok(vs) => if e + 1 != ts.len() {
                Err(error_at(ErrorKind::UnexpectedToken, e + 1))
            } else {
                Ok(vs)
            },
        }
    }
}

/// The whole input of the `machine` macro: attributes, visibility, `enum`,
/// the machine's name, generic parameters and a `where` clause (both
/// ignored), and the states in braces.
pub open spec fn spec_parse_machine(ts: Seq<TokenTree>) -> Result<SpecMachine, SpecParseError> {
    let a = skip_attrs(ts, 0);
    let (_vis, b) = spec_parse_vis(ts, a);
    if !word_at(ts, b, "enum"@) {
        Err(error_at(ErrorKind::ExpectedEnum, b))
    } else {
        match spec_parse_ident(ts, b + 1) {
            Err(e) => Err(e),
            Ok((name, c)) => match spec_skip_generics(ts, c) {
                Err(e) => Err(e),
                Ok(d) => match body_position(ts, d) {
                    Err(p) => Err(error_at(ErrorKind::ExpectedColon, p)),
                    Ok(e) => match spec_parse_body(ts, e) {
                        Err(err) => Err(err),
                        Ok(vs) => Ok(SpecMachine { name, variants: vs }),
                    },
                },
            },
        }
    }
}

// ---------------------------------------------------------------------------
// Readers.

impl Field {
    /// Reads a field at position `i`, named or not.
    pub fn parse(ts: &Vec<TokenTree>, i: usize, named: bool) -> (res: Result<
        (Field, usize),
        ParseError,
    >)
        requires
            i <= ts.len(),
        ensures
            view_result(res) == spec_parse_field(ts@, i as int, named),
            res matches Ok((_, j)) ==> i < j <= ts.len(),
    {
        proof {
            lemma_field_advances(ts@, i as int, named);
        }
        let a = skip_attributes(ts, i);
        let (vis, b) = parse_vis(ts, a);
        if named {
            let (ident, c) = match parse_ident(ts, b) {
                Err(e) => {
                    return Err(e);
                },
                Ok(r) => r,
            };
            if !punct_is(ts, c, ':') {
                return Err(ParseError::new(ErrorKind::ExpectedColon, c));
            }
            match parse_type(ts, c + 1, false) {
                Err(e) => Err(e),
                Ok((ty, d)) => Ok((Field { vis, ident, ty }, d)),
            }
        } else {
            match parse_type(ts, b, false) {
                Err(e) => Err(e),
                Ok((ty, d)) => {
                    let f = Field { vis, ident: String::new(), ty };
                    assert(f@.ident =~= Seq::<char>::empty());
                    Ok((f, d))
                },
            }
        }
    }
}

/// Reads fields separated by commas filling all of `ts`, named or not.
pub fn parse_fields(ts: &Vec<TokenTree>, named: bool) -> (res: Result<Vec<Field>, ParseError>)
    ensures
        match res {
            Ok(v) => spec_parse_fields(ts@, 0, seq![], named) == Ok::<
                Seq<SpecField>,
                SpecParseError,
            >(fields_view(v@)),
            Err(e) => spec_parse_fields(ts@, 0, seq![], named) == Err::<
                Seq<SpecField>,
                SpecParseError,
            >(e@),
        },
{
    let mut acc: Vec<Field> = Vec::new();
    let mut i: usize = 0;
    assert(fields_view(acc@) =~= Seq::<SpecField>::empty());
    while i < ts.len()
        invariant
            i <= ts.len(),
            spec_parse_fields(ts@, 0, seq![], named) == spec_parse_fields(
                ts@,
                i as int,
                fields_view(acc@),
                named,
            ),
        decreases ts.len() - i,
    {
        match Field::parse(ts, i, named) {
            Err(e) => {
                return Err(e);
            },
            Ok((f, j)) => {
                let ghost before = fields_view(acc@);
                let ghost fv = f@;
                acc.push(f);
                assert(fields_view(acc@) =~= before.push(fv));
                if j >= ts.len() {
                    return Ok(acc);
                } else if punct_is(ts, j, ',') {
                    i = j + 1;
                } else {
                    return Err(ParseError::new(ErrorKind::ExpectedComma, j));
                }
            },
        }
    }
    Ok(acc)
}

impl Variant {
    /// Reads a state at position `i`.
    pub fn parse(ts: &Vec<TokenTree>, i: usize) -> (res: Result<(Variant, usize), ParseError>)
        requires
            i <= ts.len(),
        ensures
            view_result(res) == spec_parse_variant(ts@, i as int),
            res matches Ok((_, j)) ==> i < j <= ts.len(),
    {
        proof {
            lemma_variant_advances(ts@, i as int);
        }
        let a = skip_attributes(ts, i);
        let (name, b) = match parse_ident(ts, a) {
            Err(e) => {
                return Err(e);
            },
            Ok(r) => r,
        };
        let (fields, c) = if group_is(ts, b, Delimiter::Brace) {
            match parse_fields(group_tokens(ts, b), true) {
                Err(e) => {
                    return Err(e.within(b));
                },
                Ok(fs) => (fs, b + 1),
            }
        } else if group_is(ts, b, Delimiter::Parenthesis) {
            match parse_fields(group_tokens(ts, b), false) {
                Err(e) => {
                    return Err(e.within(b));
                },
                Ok(fs) => (fs, b + 1),
            }
        } else {
            let none: Vec<Field> = Vec::new();
            assert(fields_view(none@) =~= Seq::<SpecField>::empty());
            (none, b)
        };
        if punct_is(ts, c, '=') {
            let e = find_expr_end(ts, c + 1);
            if e <= c + 1 {
                Err(ParseError::new(ErrorKind::ExpectedExpression, c + 1))
            } else {
                Ok((Variant { name, fields }, e))
            }
        } else {
            Ok((Variant { name, fields }, c))
        }
    }
}

/// Reads states separated by commas filling all of `ts`.
pub fn parse_variants(ts: &Vec<TokenTree>) -> (res: Result<Vec<Variant>, ParseError>)
    ensures
        match res {
            Ok(v) => spec_parse_variants(ts@, 0, seq![]) == Ok::<
                Seq<SpecVariant>,
                SpecParseError,
            >(variants_view(v@)),
            Err(e) => spec_parse_variants(ts@, 0, seq![]) == Err::<
                Seq<SpecVariant>,
                SpecParseError,
            >(e@),
        },
{
    let mut acc: Vec<Variant> = Vec::new();
    let mut i: usize = 0;
    assert(variants_view(acc@) =~= Seq::<SpecVariant>::empty());
    while i < ts.len()
        invariant
            i <= ts.len(),
            spec_parse_variants(ts@, 0, seq![]) == spec_parse_variants(
                ts@,
                i as int,
                variants_view(acc@),
            ),
        decreases ts.len() - i,
    {
        match Variant::parse(ts, i) {
            Err(e) => {
                return Err(e);
            },
            Ok((v, j)) => {
                let ghost before = variants_view(acc@);
                let ghost vv = v@;
                acc.push(v);
                assert(variants_view(acc@) =~= before.push(vv));
                if j >= ts.len() {
                    return Ok(acc);
                } else if punct_is(ts, j, ',') {
                    i = j + 1;
                } else {
                    return Err(ParseError::new(ErrorKind::ExpectedComma, j));
                }
            },
        }
    }
    Ok(acc)
}

impl MachineDef {
    /// Reads the whole input of the `machine` macro.
    pub fn parse(ts: &Vec<TokenTree>) -> (res: Result<MachineDef, ParseError>)
        ensures
            match res {
                Ok(m) => spec_parse_machine(ts@) == Ok::<SpecMachine, SpecParseError>(m@),
                Err(e) => spec_parse_machine(ts@) == Err::<SpecMachine, SpecParseError>(e@),
            },
    {
        let a = skip_attributes(ts, 0);
        let (_vis, b) = parse_vis(ts, a);
        if !word_is(ts, b, "enum") {
            return Err(ParseError::new(ErrorKind::ExpectedEnum, b));
        }
        let (name, c) = match parse_ident(ts, b + 1) {
            Err(e) => {
                return Err(e);
            },
            Ok(r) => r,
        };
        let d = match skip_generics(ts, c) {
            Err(e) => {
                return Err(e);
            },
            Ok(d) => d,
        };
        let e = if word_is(ts, d, "where") {
            match skip_where(ts, d + 1) {
                Err(p) => {
                    return Err(ParseError::new(ErrorKind::ExpectedColon, p));
                },
                Ok(e) => e,
            }
        } else {
            d
        };
        if !group_is(ts, e, Delimiter::Brace) {
            return Err(ParseError::new(ErrorKind::ExpectedBraces, e));
        }
        let variants = match parse_variants(group_tokens(ts, e)) {
            Err(err) => {
                return Err(err.within(e));
            },
            Ok(vs) => vs,
        };
        if e + 1 != ts.len() {
            return Err(ParseError::new(ErrorKind::UnexpectedToken, e + 1));
        }
        Ok(MachineDef { name, variants })
    }
}


// ---------------------------------------------------------------------------
// The generated code.

/// The variant of the machine enum for a state: it holds the state's struct.
pub open spec fn state_case(v: SpecVariant) -> Seq<char> {
    v.name + "("@ + v.name + "),\n"@
}

/// The declaration of a field in the struct of its state.
pub open spec fn field_decl(f: SpecField) -> Seq<char> {
    f.vis + " "@ + f.ident + ": "@ + f.ty + ",\n"@
}

/// The struct of a state, holding its fields.
pub open spec fn state_struct(v: SpecVariant) -> Seq<char> {
    "#[derive(Clone,Debug,PartialEq)]\npub struct "@ + v.name + " {\n"@ + concat_map(
        v.fields,
        field_decl_of(),
    ) + "}\n"@
}

/// A parameter of the constructor of a state: one per field.
pub open spec fn ctor_param(f: SpecField) -> Seq<char> {
    f.ident + ": "@ + f.ty + ", "@
}

/// A field initialized from the constructor's parameter of the same name.
pub open spec fn ctor_init(f: SpecField) -> Seq<char> {
    f.ident + ",\n"@
}

/// The constructor `fname` of the machine in a state: it takes the state's
/// fields and returns the machine in that state.
pub open spec fn constructor(machine: Seq<char>, v: SpecVariant, fname: Seq<char>) -> Seq<char> {
    "pub fn "@ + fname + "("@ + concat_map(v.fields, ctor_param_of()) + ") -> "@
        + machine + " {\n"@ + machine + "::"@ + v.name + "("@ + v.name + " {\n"@ + concat_map(
        v.fields,
        ctor_init_of(),
    ) + "})\n}\n"@
}

/// `state_case` of each state.
pub open spec fn state_case_of() -> spec_fn(SpecVariant) -> Seq<char> {
    |v: SpecVariant| state_case(v)
}

/// `field_decl` of each field.
pub open spec fn field_decl_of() -> spec_fn(SpecField) -> Seq<char> {
    |f: SpecField| field_decl(f)
}

/// `state_struct` of each state.
pub open spec fn state_struct_of() -> spec_fn(SpecVariant) -> Seq<char> {
    |v: SpecVariant| state_struct(v)
}

/// `ctor_param` of each field.
pub open spec fn ctor_param_of() -> spec_fn(SpecField) -> Seq<char> {
    |f: SpecField| ctor_param(f)
}

/// `ctor_init` of each field.
pub open spec fn ctor_init_of() -> spec_fn(SpecField) -> Seq<char> {
    |f: SpecField| ctor_init(f)
}

/// `constructor` of each state of `machine`, paired with its name.
pub open spec fn constructor_of(machine: Seq<char>) -> spec_fn((SpecVariant, Seq<char>)) -> Seq<
    char,
> {
    |p: (SpecVariant, Seq<char>)| constructor(machine, p.0, p.1)
}

/// The states paired with the names of their constructors.
pub open spec fn with_names(vs: Seq<SpecVariant>, names: Seq<Seq<char>>) -> Seq<
    (SpecVariant, Seq<char>),
> {
    Seq::new(vs.len(), |i: int| (vs[i], names[i]))
}

/// The names of the constructors: the states' names in lower case.
pub open spec fn constructor_names(vs: Seq<SpecVariant>) -> Seq<Seq<char>> {
    vs.map_values(|v: SpecVariant| lowercase(v.name))
}

/// The code that the `machine` macro generates, with constructors named
/// `names`: the machine enum with the `Error` state first and then one state
/// per declared state, the struct of each state, and the constructors,
/// `error()` last.
pub open spec fn machine_code_named(m: SpecMachine, names: Seq<Seq<char>>) -> Seq<char> {
    "#[derive(Clone,Debug,PartialEq)]\npub enum "@ + m.name + " {\nError,\n"@ + concat_map(
        m.variants,
        state_case_of(),
    ) + "}\n"@ + concat_map(m.variants, state_struct_of()) + "impl "@ + m.name + " {\n"@
        + concat_map(with_names(m.variants, names), constructor_of(m.name))
        + "pub fn error() -> "@ + m.name + " {\n"@ + m.name + "::Error\n}\n}\n"@
}

/// The code that the `machine` macro generates: constructors are named
/// after their states, in lower case.
pub open spec fn machine_code(m: SpecMachine) -> Seq<char> {
    machine_code_named(m, constructor_names(m.variants))
}

/// The texts written for each field: its declaration in its state's struct,
/// the constructor's parameter, or the initializer in the constructor.
#[derive(Clone, Copy, PartialEq, Eq, Structural)]
pub enum FieldText {
    Decl,
    Param,
    Init,
}

/// The text of each field that `w` selects.
pub open spec fn field_text_of(w: FieldText) -> spec_fn(SpecField) -> Seq<char> {
    match w {
        FieldText::Decl => field_decl_of(),
        FieldText::Param => ctor_param_of(),
        FieldText::Init => ctor_init_of(),
    }
}

/// Appends the text that `w` selects of each field of `fields`.
fn emit_fields(out: &mut String, fields: &Vec<Field>, w: FieldText)
    ensures
        final(out)@ == old(out)@ + concat_map(fields_view(fields@), field_text_of(w)),
{
    let ghost fv = fields_view(fields@);
    let ghost g = field_text_of(w);
    let ghost head = old(out)@;
    let n = fields.len();
    assert(fv.take(0) =~= Seq::<SpecField>::empty());
    for i in 0..n
        invariant
            n == fields.len(),
            fv == fields_view(fields@),
            g == field_text_of(w),
            out@ == head + concat_map(fv.take(i as int), g),
    {
        proof {
            lemma_concat_map_take(fv, i as int, g);
        }
        let f = &fields[i];
        assert(fv[i as int] == f@);
        let mut line = String::new();
        match w {
            FieldText::Decl => {
                line.append(f.vis.as_str());
                line.append(" ");
                line.append(f.ident.as_str());
                line.append(": ");
                line.append(f.ty.as_str());
                line.append(",\n");
            },
            FieldText::Param => {
                line.append(f.ident.as_str());
                line.append(": ");
                line.append(f.ty.as_str());
                line.append(", ");
            },
            FieldText::Init => {
                line.append(f.ident.as_str());
                line.append(",\n");
            },
        }
        assert(line@ =~= g(fv[i as int]));
        out.append(line.as_str());
        assert(out@ =~= head + concat_map(fv.take(i + 1), g));
    }
    assert(fv.take(n as int) =~= fv);
}

/// The code that the `machine` macro generates for a machine, with the
/// constructors named `names`, one per state.
pub fn impl_machine_named(m: &MachineDef, names: &Vec<String>) -> (res: String)
    requires
        names.len() == m.variants.len(),
    ensures
        res@ == machine_code_named(m@, names.deep_view()),
{
    let ghost vv = m@.variants;
    let ghost nv = names.deep_view();
    let ghost pv = with_names(vv, nv);
    let name = &m.name;
    let n = m.variants.len();
    let mut out = String::new();
    out.append("#[derive(Clone,Debug,PartialEq)]\npub enum ");
    out.append(name.as_str());
    out.append(" {\nError,\n");
    let ghost h1 = out@;
    assert(vv.take(0) =~= Seq::<SpecVariant>::empty());
    for i in 0..n
        invariant
            n == m.variants.len(),
            vv == m@.variants,
            out@ == h1 + concat_map(vv.take(i as int), state_case_of()),
    {
        proof {
            lemma_concat_map_take(vv, i as int, state_case_of());
        }
        let v = &m.variants[i];
        assert(vv[i as int] == v@);
        let mut line = String::new();
        line.append(v.name.as_str());
        line.append("(");
        line.append(v.name.as_str());
        line.append("),\n");
        assert(line@ =~= state_case(v@));
        out.append(line.as_str());
        assert(out@ =~= h1 + concat_map(vv.take(i + 1), state_case_of()));
    }
    assert(vv.take(n as int) =~= vv);
    out.append("}\n");
    let ghost h2 = out@;
    for i in 0..n
        invariant
            n == m.variants.len(),
            vv == m@.variants,
            out@ == h2 + concat_map(vv.take(i as int), state_struct_of()),
    {
        proof {
            lemma_concat_map_take(vv, i as int, state_struct_of());
        }
        let v = &m.variants[i];
        assert(vv[i as int] == v@);
        let mut text = String::new();
        text.append("#[derive(Clone,Debug,PartialEq)]\npub struct ");
        text.append(v.name.as_str());
        text.append(" {\n");
        emit_fields(&mut text, &v.fields, FieldText::Decl);
        text.append("}\n");
        assert(text@ =~= state_struct(v@));
        out.append(text.as_str());
        assert(out@ =~= h2 + concat_map(vv.take(i + 1), state_struct_of()));
    }
    out.append("impl ");
    out.append(name.as_str());
    out.append(" {\n");
    let ghost h3 = out@;
    for i in 0..n
        invariant
            n == m.variants.len(),
            vv == m@.variants,
            name@ == m@.name,
            names.len() == n,
            nv == names.deep_view(),
            pv == with_names(vv, nv),
            out@ == h3 + concat_map(pv.take(i as int), constructor_of(m@.name)),
    {
        proof {
            lemma_concat_map_take(pv, i as int, constructor_of(m@.name));
        }
        let v = &m.variants[i];
        assert(vv[i as int] == v@);
        assert(nv[i as int] == names@[i as int]@);
        let mut text = String::new();
        text.append("pub fn ");
        text.append(names[i].as_str());
        text.append("(");
        emit_fields(&mut text, &v.fields, FieldText::Param);
        text.append(") -> ");
        text.append(name.as_str());
        text.append(" {\n");
        text.append(name.as_str());
        text.append("::");
        text.append(v.name.as_str());
        text.append("(");
        text.append(v.name.as_str());
        text.append(" {\n");
        emit_fields(&mut text, &v.fields, FieldText::Init);
        text.append("})\n}\n");
        assert(text@ =~= constructor(m@.name, v@, nv[i as int]));
        out.append(text.as_str());
        assert(out@ =~= h3 + concat_map(pv.take(i + 1), constructor_of(m@.name)));
    }
    assert(pv.take(n as int) =~= pv);
    out.append("pub fn error() -> ");
    out.append(name.as_str());
    out.append(" {\n");
    out.append(name.as_str());
    out.append("::Error\n}\n}\n");
    assert(out@ =~= machine_code_named(m@, nv));
    out
}

/// The code that the `machine` macro generates for a machine: constructors
/// are named after their states, in lower case.
pub fn impl_machine(m: &MachineDef) -> (res: String)
    ensures
        res@ == machine_code(m@),
{
    let ghost vv = m@.variants;
    let mut names: Vec<String> = Vec::new();
    let n = m.variants.len();
    for i in 0..n
        invariant
            n == m.variants.len(),
            vv == m@.variants,
            names.deep_view() =~= constructor_names(vv).take(i as int),
    {
        let ghost before = names.deep_view();
        assert(vv[i as int] == m.variants@[i as int]@);
        names.push(to_lowercase(m.variants[i].name.as_str()));
        assert(names.deep_view() =~= before.push(lowercase(vv[i as int].name)));
    }
    assert(constructor_names(vv).take(n as int) =~= constructor_names(vv));
    impl_machine_named(m, &names)
}

/// The `machine` macro: reads a machine's states and generates the machine
/// enum, the states' structs and the constructors.
pub fn machine(ts: &Vec<TokenTree>) -> (res: Result<Expansion, ParseError>)
    ensures
        match spec_parse_machine(ts@) {
            Err(e) => res matches Err(x) && x@ == e,
            Ok(m) => res matches Ok(x) && {
                &&& x.file_stem@ == lowercase(m.name)
                &&& x.code@ == machine_code(m)
                &&& x.graph is None
            },
        },
{
    match MachineDef::parse(ts) {
        Err(e) => Err(e),
        Ok(m) => {
            let code = impl_machine(&m);
            let file_stem = to_lowercase(m.name.as_str());
            Ok(Expansion { file_stem, code, graph: None })
        },
    }
}

// ---------------------------------------------------------------------------
// Laws.

/// The machine that a read gives, if it gives one.
pub open spec fn parsed_machine(r: Result<SpecMachine, SpecParseError>) -> Option<SpecMachine> {
    match r {
        Ok(m) => Some(m),
        Err(_) => None,
    }
}

/// The state that a read gives, if it gives one.
pub open spec fn parsed_variant(r: Result<(SpecVariant, int), SpecParseError>) -> Option<
    SpecVariant,
> {
    match r {
        Ok((v, _)) => Some(v),
        Err(_) => None,
    }
}

/// Whether `pre[i..]` is outer attributes (each a `#` and a group in
/// square brackets) followed by a visibility: nothing, `pub`, `pub` and its
/// scope (`pub(crate)`, ...) or `crate`.
pub open spec fn attrs_then_vis(pre: Seq<TokenTree>, i: int) -> bool
    decreases pre.len() - i,
{
    if 0 <= i && i + 2 <= pre.len() && is_punct(pre[i], '#') && is_group(
        pre[i + 1],
        Delimiter::Bracket,
    ) {
        attrs_then_vis(pre, i + 2)
    } else {
        let n = pre.len() - i;
        ||| n == 0
        ||| n == 1 && is_ident_str(pre[i], "pub"@)
        ||| n == 1 && is_ident_str(pre[i], "crate"@)
        ||| n == 2 && is_ident_str(pre[i], "pub"@) && is_vis_scope(pre[i + 1])
    }
}

/// Whether `attrs[i..]` is outer attributes: each a `#` and a group in
/// square brackets.
pub open spec fn outer_attrs(attrs: Seq<TokenTree>, i: int) -> bool
    decreases attrs.len() - i,
{
    if 0 <= i && i + 2 <= attrs.len() && is_punct(attrs[i], '#') && is_group(
        attrs[i + 1],
        Delimiter::Bracket,
    ) {
        outer_attrs(attrs, i + 2)
    } else {
        i == attrs.len()
    }
}

/// Whether `g` is generic parameters: nothing, or a `<` and the tokens up to
/// the `>` that closes it, which is the last one.
pub open spec fn generic_params(g: Seq<TokenTree>) -> bool {
    g.len() == 0 || (is_punct(g[0], '<') && angle_close(g, 1, 1) == Some(g.len() as int))
}

/// Whether the expression read from `k` on (with `depth` generic argument
/// lists open) runs to the end of `ts` without a `,` outside generic
/// arguments, and closes all of them.
pub open spec fn expr_closed(ts: Seq<TokenTree>, k: int, depth: nat) -> bool
    decreases ts.len() - k,
{
    if k < 0 || k >= ts.len() {
        depth == 0
    } else if depth == 0 && is_punct(ts[k], ',') {
        false
    } else {
        expr_closed(ts, k + 1, expr_depth_after(ts, k, depth))
    }
}

/// Whether `d` is a discriminant: `=` and an expression, which has no `,`
/// outside groups and generic arguments and closes its generic arguments.
pub open spec fn discriminant(d: Seq<TokenTree>) -> bool {
    &&& d.len() >= 2
    &&& is_punct(d[0], '=')
    &&& expr_closed(d, 1, 0)
}

/// Outer attributes and a visibility before `enum` are read past.
proof fn lemma_prefix_read_past(pre: Seq<TokenTree>, rest: Seq<TokenTree>, i: int)
    requires
        0 <= i <= pre.len(),
        attrs_then_vis(pre, i),
        rest.len() > 0,
        is_ident_str(rest[0], "enum"@),
    ensures
        spec_parse_vis(pre + rest, skip_attrs(pre + rest, i)).1 == pre.len(),
    decreases pre.len() - i,
{
    let ts = pre + rest;
    reveal_strlit("pub");
    reveal_strlit("crate");
    reveal_strlit("enum");
    assert("enum"@.len() != "pub"@.len());
    assert("enum"@.len() != "crate"@.len());
    assert("pub"@.len() != "crate"@.len());
    assert(ts[pre.len() as int] == rest[0]);
    if i + 2 <= pre.len() && is_punct(pre[i], '#') && is_group(pre[i + 1], Delimiter::Bracket) {
        assert(ts[i] == pre[i]);
        assert(ts[i + 1] == pre[i + 1]);
        assert(skip_attrs(ts, i) == skip_attrs(ts, i + 2));
        lemma_prefix_read_past(pre, rest, i + 2);
    } else {
        let n = pre.len() - i;
        if n == 0 {
            assert(ts[i] == rest[0]);
            assert("enum"@.len() != "pub"@.len());
            assert(!word_at(ts, i, "pub"@));
            assert(skip_attrs(ts, i) == i);
        } else if n == 1 {
            assert(ts[i] == pre[i]);
            assert(ts[i + 1] == rest[0]);
            assert(skip_attrs(ts, i) == i);
            assert(!is_vis_scope(ts[i + 1]));
        } else {
            assert(ts[i] == pre[i]);
            assert(ts[i + 1] == pre[i + 1]);
            assert(skip_attrs(ts, i) == i);
        }
    }
}

/// Attributes before a state's name are read past.
proof fn lemma_attrs_read_past(attrs: Seq<TokenTree>, rest: Seq<TokenTree>, i: int)
    requires
        0 <= i <= attrs.len(),
        outer_attrs(attrs, i),
        rest.len() > 0,
        rest[0] is Ident,
    ensures
        skip_attrs(attrs + rest, i) == attrs.len(),
    decreases attrs.len() - i,
{
    let ts = attrs + rest;
    assert(ts[attrs.len() as int] == rest[0]);
    if i + 2 <= attrs.len() && is_punct(attrs[i], '#') && is_group(
        attrs[i + 1],
        Delimiter::Bracket,
    ) {
        assert(ts[i] == attrs[i]);
        assert(ts[i + 1] == attrs[i + 1]);
        lemma_attrs_read_past(attrs, rest, i + 2);
    }
}

/// Angle brackets that close inside `g` close at the same place of `g`
/// between other tokens.
proof fn lemma_angle_close_inside(
    a: Seq<TokenTree>,
    g: Seq<TokenTree>,
    b: Seq<TokenTree>,
    k: int,
    depth: nat,
)
    requires
        1 <= k <= g.len(),
    ensures
        angle_close(g, k, depth) matches Some(e) ==> angle_close(a + g + b, a.len() + k, depth)
            == Some(a.len() + e),
    decreases g.len() - k,
{
    let ts = a + g + b;
    if k < g.len() {
        assert(ts[a.len() + k] == g[k]);
        assert(ts[a.len() + k - 1] == g[k - 1]);
        assert(angle_depth_after(ts, a.len() + k, depth) == angle_depth_after(g, k, depth));
        if angle_depth_after(g, k, depth) != 0 {
            lemma_angle_close_inside(a, g, b, k + 1, angle_depth_after(g, k, depth));
        }
    }
}

/// A discriminant ends where it ends alone, before a comma or the end.
proof fn lemma_discriminant_end(
    a: Seq<TokenTree>,
    d: Seq<TokenTree>,
    r: Seq<TokenTree>,
    k: int,
    depth: nat,
)
    requires
        1 <= k <= d.len(),
        is_punct(d[0], '='),
        expr_closed(d, k, depth),
        r.len() == 0 || is_punct(r[0], ','),
    ensures
        expr_end(a + d + r, a.len() + k, depth) == a.len() + d.len(),
    decreases d.len() - k,
{
    let ts = a + d + r;
    let kk = a.len() + k;
    if k < d.len() {
        assert(ts[kk] == d[k]);
        assert(ts[kk - 1] == d[k - 1]);
        if k >= 2 {
            assert(ts[kk - 2] == d[k - 2]);
        }
        assert(expr_depth_after(ts, kk, depth) == expr_depth_after(d, k, depth));
        lemma_discriminant_end(a, d, r, k + 1, expr_depth_after(d, k, depth));
    } else if r.len() > 0 {
        assert(ts[kk] == r[0]);
    }
}

/// The code generated for a machine depends neither on the enum's outer
/// attributes, nor on its visibility, nor on its generic parameters: the
/// enum `#[...] pub enum Name<...> { ... }` is read as the same machine as
/// `enum Name { ... }`, or both are refused, so both give the same code.
pub proof fn law_machine_ignores_attributes_visibility_and_generics(
    pre: Seq<TokenTree>,
    kw: TokenTree,
    name: TokenTree,
    generics: Seq<TokenTree>,
    body: TokenTree,
)
    requires
        attrs_then_vis(pre, 0),
        is_ident_str(kw, "enum"@),
        generic_params(generics),
        is_group(body, Delimiter::Brace),
    ensures
        parsed_machine(spec_parse_machine(pre + seq![kw, name] + generics + seq![body]))
            == parsed_machine(spec_parse_machine(seq![kw, name, body])),
{
    let head = pre + seq![kw, name];
    let full = head + generics + seq![body];
    let bare = seq![kw, name, body];
    let n = pre.len() as int;
    reveal_strlit("pub");
    reveal_strlit("crate");
    reveal_strlit("enum");
    assert("enum"@.len() != "crate"@.len());
    assert(full =~= pre + (seq![kw, name] + generics + seq![body]));
    lemma_prefix_read_past(pre, seq![kw, name] + generics + seq![body], 0);
    assert(full[n] == kw);
    assert(full[n + 1] == name);
    assert("enum"@.len() != "pub"@.len());
    assert(skip_attrs(bare, 0) == 0);
    assert(spec_parse_vis(bare, 0).1 == 0);
    assert(spec_parse_vis(full, skip_attrs(full, 0)).1 == n);
    assert(word_at(full, n, "enum"@));
    assert(word_at(bare, 0, "enum"@));
    assert(spec_parse_ident(full, n + 1) is Ok <==> spec_parse_ident(bare, 1) is Ok);
    assert(spec_parse_ident(full, n + 1) matches Ok((s, k)) ==> k == n + 2 && spec_parse_ident(
        bare,
        1,
    ) == Ok::<(Seq<char>, int), SpecParseError>((s, 2)));
    let c = n + 2;
    let d = c + generics.len();
    if generics.len() > 0 {
        assert(full[c] == generics[0]);
        lemma_angle_close_inside(head, generics, seq![body], 1, 1);
        assert(spec_skip_generics(full, c) == Ok::<int, SpecParseError>(d));
    } else {
        assert(full[c] == body);
        assert(spec_skip_generics(full, c) == Ok::<int, SpecParseError>(d));
    }
    assert(full[d] == body);
    assert(full.len() == d + 1);
    assert(body_position(full, d) == Ok::<int, int>(d));
    assert(body_position(bare, 2) == Ok::<int, int>(2));
    assert(spec_skip_generics(bare, 2) == Ok::<int, SpecParseError>(2));
    match spec_parse_variants(group_body(body), 0, seq![]) {
        Ok(vs) => {
            assert(spec_parse_body(full, d) == Ok::<Seq<SpecVariant>, SpecParseError>(vs));
            assert(spec_parse_body(bare, 2) == Ok::<Seq<SpecVariant>, SpecParseError>(vs));
        },
        Err(_) => {
            assert(spec_parse_body(full, d) is Err);
            assert(spec_parse_body(bare, 2) is Err);
        },
    }
    match spec_parse_ident(bare, 1) {
        Ok((s, _)) => {
            assert(spec_parse_machine(full) == match spec_parse_body(full, d) {
                Err(err) => Err(err),
                Ok(vs) => Ok(SpecMachine { name: s, variants: vs }),
            });
            assert(spec_parse_machine(bare) == match spec_parse_body(bare, 2) {
                Err(err) => Err(err),
                Ok(vs) => Ok(SpecMachine { name: s, variants: vs }),
            });
        },
        Err(_) => {
            assert(spec_parse_machine(full) is Err);
            assert(spec_parse_machine(bare) is Err);
        },
    }
}

/// The name of a state, if the token can name one.
pub open spec fn state_name(t: TokenTree) -> Option<Seq<char>> {
    match t {
        TokenTree::Ident(x) => if is_keyword(x@) {
            None
        } else {
            Some(x@)
        },
        _ => None,
    }
}

/// The fields of a state given by the group `fields` (or by nothing), if
/// they are read.
pub open spec fn state_fields(fields: Seq<TokenTree>) -> Option<Seq<SpecField>> {
    if fields.len() == 1 && is_group(fields[0], Delimiter::Brace) {
        match spec_parse_fields(group_body(fields[0]), 0, seq![], true) {
            Ok(fs) => Some(fs),
            Err(_) => None,
        }
    } else if fields.len() == 1 && is_group(fields[0], Delimiter::Parenthesis) {
        match spec_parse_fields(group_body(fields[0]), 0, seq![], false) {
            Ok(fs) => Some(fs),
            Err(_) => None,
        }
    } else {
        Some(seq![])
    }
}

/// A state with attributes and a discriminant, followed by nothing or by a
/// comma, is read from its name and its fields alone, and the reading stops
/// where what follows the state starts.
#[verifier::rlimit(30)]
proof fn lemma_state_read(
    attrs: Seq<TokenTree>,
    name: TokenTree,
    fields: Seq<TokenTree>,
    disc: Seq<TokenTree>,
    rest: Seq<TokenTree>,
)
    requires
        outer_attrs(attrs, 0),
        name is Ident,
        fields.len() <= 1,
        fields.len() == 1 ==> is_group(fields[0], Delimiter::Brace) || is_group(
            fields[0],
            Delimiter::Parenthesis,
        ),
        disc.len() == 0 || discriminant(disc),
        rest.len() == 0 || is_punct(rest[0], ','),
    ensures
        parsed_variant_at(spec_parse_variant(attrs + seq![name] + fields + disc + rest, 0)) == (
        match (state_name(name), state_fields(fields)) {
            (Some(n), Some(fs)) => Some(
                (
                    SpecVariant { name: n, fields: fs },
                    (attrs.len() + 1 + fields.len() + disc.len()) as int,
                ),
            ),
            _ => None,
        }),
{
    let head = attrs + seq![name] + fields;
    let full = head + disc + rest;
    let a = attrs.len() as int;
    assert(full =~= attrs + (seq![name] + fields + disc + rest));
    lemma_attrs_read_past(attrs, seq![name] + fields + disc + rest, 0);
    assert(full[a] == name);
    let b = a + 1;
    let c = b + fields.len();
    if fields.len() == 1 {
        assert(full[b] == fields[0]);
    }
    if disc.len() > 0 {
        assert(full[c] == disc[0]);
        lemma_discriminant_end(head, disc, rest, 1, 0);
        assert(expr_end(full, c + 1, 0) == c + disc.len());
    } else if rest.len() > 0 {
        assert(full[c] == rest[0]);
    }
    assert(skip_attrs(full, 0) == a);
    assert(punct_at(full, c, '=') == (disc.len() > 0));
    assert(group_at(full, b, Delimiter::Brace) == (fields.len() == 1 && is_group(
        fields[0],
        Delimiter::Brace,
    )));
    assert(group_at(full, b, Delimiter::Parenthesis) == (fields.len() == 1 && is_group(
        fields[0],
        Delimiter::Parenthesis,
    )));
    if fields.len() == 1 {
        assert(group_body(full[b]) == group_body(fields[0]));
    }
    match spec_parse_ident(full, a) {
        Ok((n, k)) => {
            assert(state_name(name) == Some(n));
            assert(k == b);
        },
        Err(_) => {
            assert(state_name(name) is None);
        },
    }
}

/// A state is read the same with or without attributes (doc comments
/// among them) before its name and a discriminant (`= expression`) after
/// its fields: `#[...] Name { ... } = 3` is read as the same state as
/// `Name { ... }`, or both are refused.
pub proof fn law_state_ignores_attributes_and_discriminant(
    attrs: Seq<TokenTree>,
    name: TokenTree,
    fields: Seq<TokenTree>,
    disc: Seq<TokenTree>,
    rest: Seq<TokenTree>,
)
    requires
        outer_attrs(attrs, 0),
        name is Ident,
        fields.len() <= 1,
        fields.len() == 1 ==> is_group(fields[0], Delimiter::Brace) || is_group(
            fields[0],
            Delimiter::Parenthesis,
        ),
        discriminant(disc),
        rest.len() == 0 || is_punct(rest[0], ','),
    ensures
        parsed_variant(spec_parse_variant(attrs + seq![name] + fields + disc + rest, 0))
            == parsed_variant(spec_parse_variant(seq![name] + fields + rest, 0)),
{
    lemma_state_read(attrs, name, fields, disc, rest);
    lemma_state_read(seq![], name, fields, seq![], rest);
    assert(seq![] + seq![name] + fields + seq![] + rest =~= seq![name] + fields + rest);
}

/// The states that a read gives, if it gives them.
pub open spec fn parsed_states(r: Result<Seq<SpecVariant>, SpecParseError>) -> Option<
    Seq<SpecVariant>,
> {
    match r {
        Ok(vs) => Some(vs),
        Err(_) => None,
    }
}

/// A state read, with the position after it, if it is read.
pub open spec fn parsed_variant_at(r: Result<(SpecVariant, int), SpecParseError>) -> Option<
    (SpecVariant, int),
> {
    match r {
        Ok(p) => Some(p),
        Err(_) => None,
    }
}

/// A state read, with the position after it moved on by `n`.
pub open spec fn moved_on(o: Option<(SpecVariant, int)>, n: int) -> Option<(SpecVariant, int)> {
    match o {
        Some((v, j)) => Some((v, j + n)),
        None => None,
    }
}

/// Attributes read after other tokens end where they end alone, moved on.
proof fn lemma_skip_attrs_shift(a: Seq<TokenTree>, r: Seq<TokenTree>, k: int)
    requires
        0 <= k <= r.len(),
    ensures
        skip_attrs(a + r, a.len() + k) == a.len() + skip_attrs(r, k),
    decreases r.len() - k,
{
    let ts = a + r;
    if k < r.len() {
        assert(ts[a.len() + k] == r[k]);
    }
    if k + 1 < r.len() {
        assert(ts[a.len() + k + 1] == r[k + 1]);
    }
    if punct_at(r, k, '#') && group_at(r, k + 1, Delimiter::Bracket) {
        lemma_skip_attrs_shift(a, r, k + 2);
    }
}

/// An expression read after other tokens ends where it ends alone, moved
/// on, when it does not start right after a `:`.
proof fn lemma_expr_end_shift(a: Seq<TokenTree>, r: Seq<TokenTree>, k: int, depth: nat)
    requires
        1 <= k <= r.len(),
        k >= 2 || !is_punct(r[0], ':'),
    ensures
        expr_end(a + r, a.len() + k, depth) == a.len() + expr_end(r, k, depth),
    decreases r.len() - k,
{
    let ts = a + r;
    let kk = a.len() + k;
    if k < r.len() {
        assert(ts[kk] == r[k]);
        assert(ts[kk - 1] == r[k - 1]);
        if k >= 2 {
            assert(ts[kk - 2] == r[k - 2]);
        }
        assert(expr_depth_after(ts, kk, depth) == expr_depth_after(r, k, depth));
        lemma_expr_end_shift(a, r, k + 1, expr_depth_after(r, k, depth));
    }
}

/// A state read after other tokens is read as alone, moved on.
proof fn lemma_variant_shift(a: Seq<TokenTree>, r: Seq<TokenTree>, k: int)
    requires
        0 <= k <= r.len(),
    ensures
        parsed_variant_at(spec_parse_variant(a + r, a.len() + k)) == moved_on(
            parsed_variant_at(spec_parse_variant(r, k)),
            a.len() as int,
        ),
{
    let ts = a + r;
    let n = a.len() as int;
    lemma_skip_attrs_shift(a, r, k);
    lemma_skip_attrs_ge(r, k);
    let x = skip_attrs(r, k);
    if x < r.len() {
        assert(ts[n + x] == r[x]);
    }
    if let Ok((_, b)) = spec_parse_ident(r, x) {
        if b < r.len() {
            assert(ts[n + b] == r[b]);
        }
        let c = if group_at(r, b, Delimiter::Brace) || group_at(r, b, Delimiter::Parenthesis) {
            b + 1
        } else {
            b
        };
        if c < r.len() {
            assert(ts[n + c] == r[c]);
        }
        if punct_at(r, c, '=') {
            lemma_expr_end_shift(a, r, c + 1, 0);
        }
    }
}

/// States read after other tokens are read as alone.
proof fn lemma_variants_shift(a: Seq<TokenTree>, r: Seq<TokenTree>, k: int, acc: Seq<SpecVariant>)
    requires
        0 <= k <= r.len(),
    ensures
        parsed_states(spec_parse_variants(a + r, a.len() + k, acc)) == parsed_states(
            spec_parse_variants(r, k, acc),
        ),
    decreases r.len() - k,
{
    let ts = a + r;
    if k < r.len() {
        lemma_variant_shift(a, r, k);
        lemma_variant_advances(r, k);
        if let Ok((v, j)) = spec_parse_variant(r, k) {
            if j < r.len() {
                assert(ts[a.len() + j] == r[j]);
                if punct_at(r, j, ',') {
                    lemma_variants_shift(a, r, j + 1, acc.push(v));
                }
            }
        }
    }
}

/// The tokens of a state: outer attributes, the name, the fields (a group
/// in braces or in parentheses, or nothing) and a discriminant (or nothing).
pub struct StateTokens {
    pub attrs: Seq<TokenTree>,
    pub name: TokenTree,
    pub fields: Seq<TokenTree>,
    pub disc: Seq<TokenTree>,
}

/// Whether the tokens of a state are laid out as `StateTokens` says.
pub open spec fn state_tokens(s: StateTokens) -> bool {
    &&& outer_attrs(s.attrs, 0)
    &&& s.name is Ident
    &&& s.fields.len() <= 1
    &&& (s.fields.len() == 1 ==> is_group(s.fields[0], Delimiter::Brace) || is_group(
        s.fields[0],
        Delimiter::Parenthesis,
    ))
    &&& (s.disc.len() == 0 || discriminant(s.disc))
}

/// A state written in full, or plainly: its name and its fields alone.
pub open spec fn state_text(s: StateTokens, full: bool) -> Seq<TokenTree> {
    if full {
        s.attrs + seq![s.name] + s.fields + s.disc
    } else {
        seq![s.name] + s.fields
    }
}

/// States written in full or plainly, separated by the comma `comma`.
pub open spec fn states_text(states: Seq<StateTokens>, comma: TokenTree, full: bool) -> Seq<
    TokenTree,
>
    decreases states.len(),
{
    if states.len() == 0 {
        seq![]
    } else if states.len() == 1 {
        state_text(states[0], full)
    } else {
        state_text(states[0], full) + seq![comma] + states_text(states.drop_first(), comma, full)
    }
}

/// A body of states written in full is read as the same states as written
/// plainly, after the same states `acc`.
proof fn lemma_states_text(states: Seq<StateTokens>, comma: TokenTree, acc: Seq<SpecVariant>)
    requires
        forall|i: int| 0 <= i < states.len() ==> #[trigger] state_tokens(states[i]),
        is_punct(comma, ','),
    ensures
        parsed_states(spec_parse_variants(states_text(states, comma, true), 0, acc))
            == parsed_states(spec_parse_variants(states_text(states, comma, false), 0, acc)),
    decreases states.len(),
{
    if states.len() > 0 {
        let s = states[0];
        assert(state_tokens(s));
        let tail = states.drop_first();
        let rest_f = if states.len() == 1 {
            Seq::<TokenTree>::empty()
        } else {
            seq![comma] + states_text(tail, comma, true)
        };
        let rest_b = if states.len() == 1 {
            Seq::<TokenTree>::empty()
        } else {
            seq![comma] + states_text(tail, comma, false)
        };
        let full = states_text(states, comma, true);
        let bare = states_text(states, comma, false);
        assert(full =~= state_text(s, true) + rest_f);
        assert(bare =~= state_text(s, false) + rest_b);
        lemma_state_read(s.attrs, s.name, s.fields, s.disc, rest_f);
        lemma_state_read(seq![], s.name, s.fields, seq![], rest_b);
        assert(seq![] + seq![s.name] + s.fields + seq![] + rest_b =~= bare);
        if let Ok((v, j)) = spec_parse_variant(bare, 0) {
            if states.len() > 1 {
                let lf = state_text(s, true) + seq![comma];
                let lb = state_text(s, false) + seq![comma];
                assert(full =~= lf + states_text(tail, comma, true));
                assert(bare =~= lb + states_text(tail, comma, false));
                assert(full[lf.len() - 1] == comma);
                assert(bare[lb.len() - 1] == comma);
                lemma_variants_shift(lf, states_text(tail, comma, true), 0, acc.push(v));
                lemma_variants_shift(lb, states_text(tail, comma, false), 0, acc.push(v));
                assert forall|i: int| 0 <= i < tail.len() implies #[trigger] state_tokens(
                    tail[i],
                ) by {
                    assert(tail[i] == states[i + 1]);
                }
                lemma_states_text(tail, comma, acc.push(v));
            }
        }
    }
}

/// A state is read the same with or without attributes (doc comments
/// among them) and a discriminant, wherever it stands among the states: a
/// body of states written with them is read as the same states as written
/// without them, or both are refused.
pub proof fn law_states_ignore_attributes_and_discriminants(
    states: Seq<StateTokens>,
    comma: TokenTree,
)
    requires
        forall|i: int| 0 <= i < states.len() ==> #[trigger] state_tokens(states[i]),
        is_punct(comma, ','),
    ensures
        parsed_states(spec_parse_variants(states_text(states, comma, true), 0, seq![]))
            == parsed_states(spec_parse_variants(states_text(states, comma, false), 0, seq![])),
{
    lemma_states_text(states, comma, seq![]);
}

/// The code generated for a machine depends only on the names and the
/// fields of the machine and of its states: the enum
/// `#[...] pub enum Name<...> { #[...] A { ... } = 1, ... }` is read as the
/// same machine as `enum Name { A { ... }, ... }`, or both are refused, so
/// both give the same code.
pub proof fn law_machine_code_ignores_decorations(
    pre: Seq<TokenTree>,
    kw: TokenTree,
    name: TokenTree,
    generics: Seq<TokenTree>,
    body: TokenTree,
    plain_body: TokenTree,
    states: Seq<StateTokens>,
    comma: TokenTree,
)
    requires
        attrs_then_vis(pre, 0),
        is_ident_str(kw, "enum"@),
        generic_params(generics),
        is_group(body, Delimiter::Brace),
        is_group(plain_body, Delimiter::Brace),
        forall|i: int| 0 <= i < states.len() ==> #[trigger] state_tokens(states[i]),
        is_punct(comma, ','),
        group_body(body) == states_text(states, comma, true),
        group_body(plain_body) == states_text(states, comma, false),
    ensures
        parsed_machine(spec_parse_machine(pre + seq![kw, name] + generics + seq![body]))
            == parsed_machine(spec_parse_machine(seq![kw, name, plain_body])),
{
    law_machine_ignores_attributes_visibility_and_generics(pre, kw, name, generics, body);
    lemma_states_text(states, comma, seq![]);
    let one = seq![kw, name, body];
    let two = seq![kw, name, plain_body];
    reveal_strlit("pub");
    reveal_strlit("crate");
    reveal_strlit("enum");
    assert("enum"@.len() != "pub"@.len());
    assert("enum"@.len() != "crate"@.len());
    assert(skip_attrs(one, 0) == 0);
    assert(skip_attrs(two, 0) == 0);
    assert(spec_skip_generics(one, 2) == Ok::<int, SpecParseError>(2));
    assert(spec_skip_generics(two, 2) == Ok::<int, SpecParseError>(2));
    assert(body_position(one, 2) == Ok::<int, int>(2));
    assert(body_position(two, 2) == Ok::<int, int>(2));
    assert(parsed_states(spec_parse_body(one, 2)) == parsed_states(spec_parse_body(two, 2)));
}

/// The fields that a read gives, if it gives them.
pub open spec fn parsed_fields(r: Result<Seq<SpecField>, SpecParseError>) -> Option<
    Seq<SpecField>,
> {
    match r {
        Ok(fs) => Some(fs),
        Err(_) => None,
    }
}

/// A type read, with the position after it, if it is read.
pub open spec fn parsed_type_at(r: Result<(Seq<char>, int), SpecParseError>) -> Option<
    (Seq<char>, int),
> {
    match r {
        Ok(p) => Some(p),
        Err(_) => None,
    }
}

/// A field read, with the position after it, if it is read.
pub open spec fn parsed_field_at(r: Result<(SpecField, int), SpecParseError>) -> Option<
    (SpecField, int),
> {
    match r {
        Ok(p) => Some(p),
        Err(_) => None,
    }
}

/// A type read before a last comma ends where it ends without the comma,
/// with as many angle brackets left open.
proof fn lemma_scan_before_last_comma(ts: Seq<TokenTree>, k: int, depth: nat)
    requires
        ts.len() >= 1,
        is_punct(ts.last(), ','),
        0 <= k <= ts.len() - 1,
    ensures
        scan_depth(ts, k, depth, false) == scan_depth(ts.drop_last(), k, depth, false),
        scan_depth(ts, k, depth, false) == 0 ==> scan_end(ts, k, depth, false) == scan_end(
            ts.drop_last(),
            k,
            depth,
            false,
        ),
        scan_end(ts.drop_last(), k, depth, false) <= ts.len() - 1,
    decreases ts.len() - k,
{
    let d = ts.drop_last();
    if k < ts.len() - 1 {
        assert(d[k] == ts[k]);
        if k > 0 {
            assert(d[k - 1] == ts[k - 1]);
        }
        assert(angle_depth_after(d, k, depth) == angle_depth_after(ts, k, depth));
        lemma_scan_before_last_comma(ts, k + 1, angle_depth_after(ts, k, depth));
    } else {
        assert(ts[k] == ts.last());
        assert(scan_end(d, k, depth, false) == k);
        assert(scan_depth(d, k, depth, false) == depth);
        if depth > 0 {
            assert(angle_depth_after(ts, k, depth) == depth);
            assert(scan_depth(ts, k + 1, depth, false) == depth);
            assert(scan_depth(ts, k, depth, false) == depth);
        } else {
            assert(scan_depth(ts, k, depth, false) == 0);
            assert(scan_end(ts, k, depth, false) == k);
        }
    }
}

/// A type read before a last comma is read as without the comma.
proof fn lemma_type_before_last_comma(ts: Seq<TokenTree>, k: int)
    requires
        ts.len() >= 1,
        is_punct(ts.last(), ','),
        0 <= k <= ts.len() - 1,
    ensures
        parsed_type_at(spec_parse_type(ts, k, false)) == parsed_type_at(
            spec_parse_type(ts.drop_last(), k, false),
        ),
        spec_parse_type(ts.drop_last(), k, false) matches Ok((_, e)) ==> e <= ts.len() - 1,
{
    let d = ts.drop_last();
    lemma_scan_before_last_comma(ts, k, 0);
    lemma_scan_end_ge(d, k, 0, false);
    lemma_scan_end_ge(ts, k, 0, false);
    let e = scan_end(d, k, 0, false);
    if k < e {
        assert(ts.subrange(k, e) =~= d.subrange(k, e));
    }
}

/// Attributes read before a last comma end where they end without it.
proof fn lemma_attrs_before_last_comma(ts: Seq<TokenTree>, k: int)
    requires
        ts.len() >= 1,
        is_punct(ts.last(), ','),
        0 <= k <= ts.len() - 1,
    ensures
        skip_attrs(ts, k) == skip_attrs(ts.drop_last(), k),
        skip_attrs(ts, k) <= ts.len() - 1,
    decreases ts.len() - k,
{
    let d = ts.drop_last();
    if k < ts.len() - 1 {
        assert(d[k] == ts[k]);
    }
    if k + 1 < ts.len() - 1 {
        assert(d[k + 1] == ts[k + 1]);
    }
    assert(ts[ts.len() - 1] == ts.last());
    if punct_at(d, k, '#') && group_at(d, k + 1, Delimiter::Bracket) {
        lemma_attrs_before_last_comma(ts, k + 2);
    }
}

/// A field read before a last comma is read as without the comma.
proof fn lemma_field_before_last_comma(ts: Seq<TokenTree>, i: int, named: bool)
    requires
        ts.len() >= 1,
        is_punct(ts.last(), ','),
        0 <= i <= ts.len() - 1,
    ensures
        parsed_field_at(spec_parse_field(ts, i, named)) == parsed_field_at(
            spec_parse_field(ts.drop_last(), i, named),
        ),
        spec_parse_field(ts.drop_last(), i, named) matches Ok((_, j)) ==> j <= ts.len() - 1,
{
    let d = ts.drop_last();
    let n = ts.len() - 1;
    assert(ts[n] == ts.last());
    lemma_attrs_before_last_comma(ts, i);
    lemma_skip_attrs_ge(d, i);
    let a = skip_attrs(d, i);
    if a < n {
        assert(d[a] == ts[a]);
    }
    if a + 1 < n {
        assert(d[a + 1] == ts[a + 1]);
    }
    assert(spec_parse_vis(ts, a).1 == spec_parse_vis(d, a).1);
    let b = spec_parse_vis(d, a).1;
    if b == a + 2 {
        assert(ts.subrange(a, a + 2) =~= d.subrange(a, a + 2));
    } else if b == a + 1 {
        assert(ts.subrange(a, a + 1) =~= d.subrange(a, a + 1));
    }
    assert(spec_parse_vis(ts, a) == spec_parse_vis(d, a));
    if b < n {
        assert(d[b] == ts[b]);
    }
    if named {
        if let Ok((_, c)) = spec_parse_ident(d, b) {
            if c < n {
                assert(d[c] == ts[c]);
                if punct_at(d, c, ':') {
                    lemma_type_before_last_comma(ts, c + 1);
                }
            }
        }
    } else {
        lemma_type_before_last_comma(ts, b);
    }
}

/// Fields read before a last comma, which follows no other comma, are read
/// as without it.
proof fn lemma_fields_before_last_comma(
    ts: Seq<TokenTree>,
    i: int,
    acc: Seq<SpecField>,
    named: bool,
)
    requires
        ts.len() >= 2,
        is_punct(ts.last(), ','),
        !is_punct(ts[ts.len() - 2], ','),
        0 <= i <= ts.len() - 2,
    ensures
        parsed_fields(spec_parse_fields(ts, i, acc, named)) == parsed_fields(
            spec_parse_fields(ts.drop_last(), i, acc, named),
        ),
    decreases ts.len() - i,
{
    let d = ts.drop_last();
    let n = ts.len() - 1;
    assert(ts[n] == ts.last());
    lemma_field_before_last_comma(ts, i, named);
    lemma_field_advances(d, i, named);
    if let Ok((f, j)) = spec_parse_field(d, i, named) {
        assert(spec_parse_field(ts, i, named) == Ok::<(SpecField, int), SpecParseError>((f, j)));
        if j < n {
            assert(d[j] == ts[j]);
            if punct_at(d, j, ',') {
                assert(j != n - 1);
                lemma_fields_before_last_comma(ts, j + 1, acc.push(f), named);
            }
        } else {
            assert(j == n);
            assert(punct_at(ts, j, ','));
            assert(spec_parse_fields(ts, j + 1, acc.push(f), named) == Ok::<
                Seq<SpecField>,
                SpecParseError,
            >(acc.push(f)));
        }
    } else {
        assert(spec_parse_field(ts, i, named) is Err);
    }
}

/// A comma after the last field changes nothing: the fields `a: A, b: B,`
/// (or `A, B,`) are read as the fields `a: A, b: B` (or `A, B`), or both
/// are refused.
pub proof fn law_last_comma_after_fields_changes_nothing(
    ts: Seq<TokenTree>,
    acc: Seq<SpecField>,
    named: bool,
)
    requires
        ts.len() >= 2,
        is_punct(ts.last(), ','),
        !is_punct(ts[ts.len() - 2], ','),
    ensures
        parsed_fields(spec_parse_fields(ts, 0, acc, named)) == parsed_fields(
            spec_parse_fields(ts.drop_last(), 0, acc, named),
        ),
{
    lemma_fields_before_last_comma(ts, 0, acc, named);
}

} // verus!
