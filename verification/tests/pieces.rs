use machine::grammar::{keyword, parse_type, skip_generics};
use machine::methods::{MethodSig, MethodType};
use machine::states::{impl_machine_named, MachineDef};
use machine::tokens::render_tokens;
use machine::{machine, methods, Delimiter, ErrorKind, ParseError, TokenTree};

fn id(s: &str) -> TokenTree {
    TokenTree::Ident(s.to_string())
}

fn p(c: char) -> TokenTree {
    TokenTree::Punct(c, false)
}

fn pj(c: char) -> TokenTree {
    TokenTree::Punct(c, true)
}

fn paren(ts: Vec<TokenTree>) -> TokenTree {
    TokenTree::Group(Delimiter::Parenthesis, ts)
}

fn err(kind: ErrorKind, at: &[usize]) -> ParseError {
    ParseError { kind, at: at.to_vec() }
}

#[test]
fn snake_case_of_message_names() {
    let on = |message: &str| {
        let ts = vec![
            id("T"),
            p(','),
            TokenTree::Group(
                Delimiter::Bracket,
                vec![paren(vec![id("A"), p(','), id(message)]), pj('='), p('>'), id("B")],
            ),
        ];
        machine::transitions(&ts).unwrap().code
    };
    assert!(on("martinLutherStringJr").contains("pub fn on_martin_luther_string_jr(self, input: martinLutherStringJr)"));
    assert!(on("fooby").contains("pub fn on_fooby(self"));
    assert!(on("WildUnderscoreS").contains("pub fn on_wild_underscore_s(self"));
    assert!(on("PassCar").contains("pub fn on_pass_car(self"));
}

#[test]
fn lower_case_of_state_names() {
    let ts = vec![
        id("enum"),
        id("Éclair"),
        TokenTree::Group(Delimiter::Brace, vec![id("ÀB")]),
    ];
    let x = machine(&ts).unwrap();
    assert_eq!(x.file_stem, "éclair");
    assert!(x.code.contains("pub fn àb() -> Éclair {"));
}

#[test]
fn token_text() {
    // Vec<fn(&'a u8) -> u8>
    let ts = vec![
        id("Vec"),
        p('<'),
        id("fn"),
        paren(vec![p('&'), pj('\''), id("a"), id("u8")]),
        pj('-'),
        p('>'),
        id("u8"),
        p('>'),
    ];
    assert_eq!(render_tokens(&ts, 0, ts.len()), "Vec < fn (& 'a u8) -> u8 >");
    assert_eq!(render_tokens(&ts, 3, 5), "(& 'a u8) -");
    assert_eq!(render_tokens(&ts, 2, 2), "");
}

#[test]
fn types_end_at_a_comma_outside_angle_brackets() {
    // HashMap<u8, fn() -> u8>, next
    let ts = vec![
        id("HashMap"),
        p('<'),
        id("u8"),
        p(','),
        id("fn"),
        paren(vec![]),
        pj('-'),
        p('>'),
        id("u8"),
        p('>'),
        p(','),
        id("next"),
    ];
    let (ty, e) = parse_type(&ts, 0, false).unwrap();
    assert_eq!(ty, "HashMap < u8 , fn () -> u8 >");
    assert_eq!(e, 10);
    assert_eq!(parse_type(&ts, 10, false).unwrap_err(), err(ErrorKind::ExpectedType, &[10]));
    // `where` ends a result type
    let ts = vec![id("u8"), id("where"), id("T")];
    assert_eq!(parse_type(&ts, 0, true).unwrap().1, 1);
    assert_eq!(parse_type(&ts, 0, false).unwrap().1, 3);
}

#[test]
fn generic_parameters() {
    let ts = vec![p('<'), id("T"), p(','), p('<'), p('>'), p('>'), id("x")];
    assert_eq!(skip_generics(&ts, 0).unwrap(), 6);
    assert_eq!(skip_generics(&ts, 6).unwrap(), 6);
    let open = vec![p('<'), id("T"), p(','), p('<'), p('>')];
    assert_eq!(skip_generics(&open, 0).unwrap_err(), err(ErrorKind::ExpectedCloseAngle, &[5]));
}

#[test]
fn keywords_are_no_names() {
    assert!(keyword("fn"));
    assert!(keyword("Self"));
    assert!(keyword("_"));
    assert!(!keyword("get"));
    assert!(!keyword("Green"));
}

#[test]
fn constructors_take_the_given_names() {
    // enum M { A { x: u8 }, B }
    let ts = vec![
        id("enum"),
        id("M"),
        TokenTree::Group(
            Delimiter::Brace,
            vec![
                id("A"),
                TokenTree::Group(Delimiter::Brace, vec![id("x"), p(':'), id("u8")]),
                p(','),
                id("B"),
            ],
        ),
    ];
    let m = MachineDef::parse(&ts).unwrap();
    let code = impl_machine_named(&m, &vec!["make_a".to_string(), "make_b".to_string()]);
    assert!(code.contains("pub fn make_a(x: u8, ) -> M {\nM::A(A {\nx,\n})\n}\n"));
    assert!(code.contains("pub fn make_b() -> M {\nM::B(B {\n})\n}\n"));
    assert!(!code.contains("pub fn a("));
}

#[test]
fn empty_parentheses_are_no_fields() {
    let ts = vec![
        id("enum"),
        id("M"),
        TokenTree::Group(Delimiter::Brace, vec![id("A"), paren(vec![])]),
    ];
    let x = machine(&ts).unwrap();
    assert!(x.code.contains("pub struct A {\n}\n"));
    assert!(x.code.contains("pub fn a() -> M {\nM::A(A {\n})\n}\n"));
}

#[test]
fn method_signatures() {
    // const unsafe extern "C" fn f<T>(x: T) -> Option<T>, rest
    let ts = vec![
        id("const"),
        id("unsafe"),
        id("extern"),
        TokenTree::Literal("\"C\"".to_string()),
        id("fn"),
        id("f"),
        p('<'),
        id("T"),
        p('>'),
        paren(vec![id("x"), p(':'), id("T")]),
        pj('-'),
        p('>'),
        id("Option"),
        p('<'),
        id("T"),
        p('>'),
        p(','),
        id("rest"),
    ];
    let (sig, k) = MethodSig::parse(&ts, 0).unwrap();
    assert_eq!(k, 16);
    assert_eq!(sig.ident, "f");
    assert_eq!(sig.inputs, "x : T");
    assert_eq!(sig.args, vec!["x".to_string()]);
    assert_eq!(sig.output, Some("Option < T >".to_string()));
    // not a signature: where the reading stopped
    assert_eq!(
        MethodSig::parse(&vec![id("unsafe"), id("get")], 0).unwrap_err(),
        (err(ErrorKind::ExpectedFn, &[1]), 1)
    );
    assert_eq!(
        MethodSig::parse(&vec![id("fn"), id("f"), id("x")], 0).unwrap_err(),
        (err(ErrorKind::ExpectedParens, &[2]), 2)
    );
    // a `where` predicate without `:` stops the reading where it was expected
    let ts = vec![id("fn"), id("f"), paren(vec![]), id("where"), id("T"), pj('='), p('>')];
    assert_eq!(MethodSig::parse(&ts, 0).unwrap_err(), (err(ErrorKind::ExpectedColon, &[5]), 5));
}

#[test]
fn accessor_read_where_the_signature_stopped() {
    // Green => unsafe get count: u8
    let ts = vec![
        id("Traffic"),
        p(','),
        TokenTree::Group(
            Delimiter::Bracket,
            vec![id("Green"), pj('='), p('>'), id("unsafe"), id("get"), id("count"), p(':'), id("u8")],
        ),
    ];
    let ms = machine::methods::Methods::parse(&ts).unwrap();
    match &ms.methods[0].method_type {
        MethodType::Get(name, ty) => {
            assert_eq!(name, "count");
            assert_eq!(ty, "u8");
        }
        _ => panic!("expected a getter"),
    }
    assert!(methods(&ts).unwrap().code.contains("pub fn count(&self) -> &u8 {"));
}

#[test]
fn tuple_states_have_unnamed_fields() {
    // enum M { A(pub u8, Vec<u8>,), B() }
    let ts = vec![
        id("enum"),
        id("M"),
        TokenTree::Group(
            Delimiter::Brace,
            vec![
                id("A"),
                paren(vec![id("pub"), id("u8"), p(','), id("Vec"), p('<'), id("u8"), p('>'), p(',')]),
                p(','),
                id("B"),
                paren(vec![]),
            ],
        ),
    ];
    let m = MachineDef::parse(&ts).unwrap();
    assert_eq!(m.variants[0].fields.len(), 2);
    assert_eq!(m.variants[0].fields[0].vis, "pub");
    assert_eq!(m.variants[0].fields[0].ident, "");
    assert_eq!(m.variants[0].fields[1].ty, "Vec < u8 >");
    assert!(m.variants[1].fields.is_empty());
    let x = machine(&ts).unwrap();
    assert!(x.code.contains("pub struct A {
pub : u8,
 : Vec < u8 >,
}
"));
    assert!(x.code.contains("pub fn a(: u8, : Vec < u8 >, ) -> M {
M::A(A {
,
,
})
}
"));
    // an unnamed field without a type
    let ts = vec![id("enum"), id("M"), TokenTree::Group(Delimiter::Brace, vec![id("A"), paren(vec![p(',')])])];
    assert_eq!(machine(&ts).unwrap_err(), err(ErrorKind::ExpectedType, &[2, 1, 0]));
}

#[test]
fn where_clause_of_the_machine() {
    // enum M<T> where T: Clone, { A }
    let ts = vec![
        id("enum"),
        id("M"),
        p('<'),
        id("T"),
        p('>'),
        id("where"),
        id("T"),
        p(':'),
        id("Clone"),
        p(','),
        TokenTree::Group(Delimiter::Brace, vec![id("A")]),
    ];
    assert!(machine(&ts).unwrap().code.contains("pub struct A {
}
"));
    // enum M where T { A }
    let ts = vec![id("enum"), id("M"), id("where"), id("T"), TokenTree::Group(Delimiter::Brace, vec![id("A")])];
    let e = machine(&ts).unwrap_err();
    assert_eq!(e, err(ErrorKind::ExpectedColon, &[4]));
    assert_eq!(e.message(&ts), "expected `:`");
}

#[test]
fn visibilities_as_syn_reads_them() {
    // enum M { A(pub (u8, u16)), B { crate x: u8 }, C { pub(crate) y: u8 } }
    let ts = vec![
        id("enum"),
        id("M"),
        TokenTree::Group(
            Delimiter::Brace,
            vec![
                id("A"),
                paren(vec![id("pub"), paren(vec![id("u8"), p(','), id("u16")])]),
                p(','),
                id("B"),
                TokenTree::Group(Delimiter::Brace, vec![id("crate"), id("x"), p(':'), id("u8")]),
                p(','),
                id("C"),
                TokenTree::Group(Delimiter::Brace, vec![id("pub"), paren(vec![id("crate")]), id("y"), p(':'), id("u8")]),
            ],
        ),
    ];
    let m = MachineDef::parse(&ts).unwrap();
    assert_eq!(m.variants[0].fields[0].vis, "pub");
    assert_eq!(m.variants[0].fields[0].ty, "(u8 , u16)");
    assert_eq!(m.variants[1].fields[0].vis, "crate");
    assert_eq!(m.variants[1].fields[0].ident, "x");
    assert_eq!(m.variants[2].fields[0].vis, "pub (crate)");
}

#[test]
fn abi_of_a_signature_is_a_string() {
    let ts = vec![id("extern"), TokenTree::Literal("5".to_string()), id("fn"), id("f"), paren(vec![])];
    assert_eq!(MethodSig::parse(&ts, 0).unwrap_err(), (err(ErrorKind::ExpectedFn, &[1]), 1));
    let ts = vec![id("extern"), TokenTree::Literal("r\"C\"".to_string()), id("fn"), id("f"), paren(vec![])];
    assert_eq!(MethodSig::parse(&ts, 0).unwrap().1, 5);
}
