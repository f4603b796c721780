use machine::{machine, methods, transitions, Delimiter, ErrorKind, ParseError, TokenTree};

fn id(s: &str) -> TokenTree {
    TokenTree::Ident(s.to_string())
}

fn p(c: char) -> TokenTree {
    TokenTree::Punct(c, false)
}

fn pj(c: char) -> TokenTree {
    TokenTree::Punct(c, true)
}

fn g(d: Delimiter, ts: Vec<TokenTree>) -> TokenTree {
    TokenTree::Group(d, ts)
}

fn brace(ts: Vec<TokenTree>) -> TokenTree {
    g(Delimiter::Brace, ts)
}

fn paren(ts: Vec<TokenTree>) -> TokenTree {
    g(Delimiter::Parenthesis, ts)
}

fn bracket(ts: Vec<TokenTree>) -> TokenTree {
    g(Delimiter::Bracket, ts)
}

fn err(kind: ErrorKind, at: &[usize]) -> ParseError {
    ParseError { kind, at: at.to_vec() }
}

/// `(start, message) => end` as tokens.
fn mv(start: &str, message: &str, end: TokenTree) -> Vec<TokenTree> {
    vec![paren(vec![id(start), p(','), id(message)]), pj('='), p('>'), end]
}

/// `enum Traffic { Green { count: u8 }, Orange, Red }`
fn traffic_enum() -> Vec<TokenTree> {
    vec![
        id("enum"),
        id("Traffic"),
        brace(vec![
            id("Green"),
            brace(vec![id("count"), p(':'), id("u8")]),
            p(','),
            id("Orange"),
            p(','),
            id("Red"),
        ]),
    ]
}

/// `Traffic, [ moves separated by commas ]`
fn traffic_moves(moves: Vec<Vec<TokenTree>>) -> Vec<TokenTree> {
    let mut body = Vec::new();
    for (i, m) in moves.into_iter().enumerate() {
        if i > 0 {
            body.push(p(','));
        }
        body.extend(m);
    }
    vec![id("Traffic"), p(','), bracket(body)]
}

#[test]
fn machine_traffic_light() {
    let x = machine(&traffic_enum()).unwrap();
    assert_eq!(x.file_stem, "traffic");
    assert!(x.graph.is_none());
    let expected = "#[derive(Clone,Debug,PartialEq)]\npub enum Traffic {\nError,\n\
Green(Green),\nOrange(Orange),\nRed(Red),\n}\n\
#[derive(Clone,Debug,PartialEq)]\npub struct Green {\n count: u8,\n}\n\
#[derive(Clone,Debug,PartialEq)]\npub struct Orange {\n}\n\
#[derive(Clone,Debug,PartialEq)]\npub struct Red {\n}\n\
impl Traffic {\n\
pub fn green(count: u8, ) -> Traffic {\nTraffic::Green(Green {\ncount,\n})\n}\n\
pub fn orange() -> Traffic {\nTraffic::Orange(Orange {\n})\n}\n\
pub fn red() -> Traffic {\nTraffic::Red(Red {\n})\n}\n\
pub fn error() -> Traffic {\nTraffic::Error\n}\n}\n";
    assert_eq!(x.code, expected);
}

#[test]
fn machine_keeps_visibility_types_and_skips_attributes() {
    // #[doc = "x"] pub enum Door<T> { #[doc = "y"] Open { pub(crate) angle: Vec<u8>, who: HashMap<u8, u8> }, Closed = 3, }
    let ts = vec![
        p('#'),
        bracket(vec![id("doc"), p('='), TokenTree::Literal("\"x\"".to_string())]),
        id("pub"),
        id("enum"),
        id("Door"),
        p('<'),
        id("T"),
        p('>'),
        brace(vec![
            p('#'),
            bracket(vec![id("doc")]),
            id("Open"),
            brace(vec![
                id("pub"),
                paren(vec![id("crate")]),
                id("angle"),
                p(':'),
                id("Vec"),
                p('<'),
                id("u8"),
                p('>'),
                p(','),
                id("who"),
                p(':'),
                id("HashMap"),
                p('<'),
                id("u8"),
                p(','),
                id("u8"),
                p('>'),
            ]),
            p(','),
            id("Closed"),
            p('='),
            TokenTree::Literal("3".to_string()),
            p(','),
        ]),
    ];
    let x = machine(&ts).unwrap();
    assert_eq!(x.file_stem, "door");
    assert!(x.code.contains("pub struct Open {\npub (crate) angle: Vec < u8 >,\n who: HashMap < u8 , u8 >,\n}\n"));
    assert!(x.code.contains("pub fn open(angle: Vec < u8 >, who: HashMap < u8 , u8 >, ) -> Door {\nDoor::Open(Open {\nangle,\nwho,\n})\n}\n"));
    assert!(x.code.contains("pub fn closed() -> Door {\nDoor::Closed(Closed {\n})\n}\n"));
}

#[test]
fn machine_errors() {
    // no `enum`
    assert_eq!(machine(&vec![id("struct"), id("A"), brace(vec![])]).unwrap_err(), err(ErrorKind::ExpectedEnum, &[0]));
    // keyword as a name
    assert_eq!(machine(&vec![id("enum"), id("fn"), brace(vec![])]).unwrap_err(), err(ErrorKind::ExpectedIdent, &[1]));
    // no braces
    assert_eq!(machine(&vec![id("enum"), id("A"), paren(vec![])]).unwrap_err(), err(ErrorKind::ExpectedBraces, &[2]));
    // nothing after the name
    let ts = vec![id("enum"), id("A")];
    assert_eq!(machine(&ts).unwrap_err().message(&ts), "unexpected end of input, expected curly braces");
    // field without a colon
    assert_eq!(
        machine(&vec![id("enum"), id("A"), brace(vec![id("B"), brace(vec![id("x"), id("u8")])])]).unwrap_err(),
        err(ErrorKind::ExpectedColon, &[2, 1, 1])
    );
    // field without a type
    let ts = vec![id("enum"), id("A"), brace(vec![id("B"), brace(vec![id("x"), p(':')])])];
    let e = machine(&ts).unwrap_err();
    assert_eq!(e, err(ErrorKind::ExpectedType, &[2, 1, 2]));
    assert_eq!(e.message(&ts), "unexpected end of input, expected type");
    // discriminant without an expression
    assert_eq!(
        machine(&vec![id("enum"), id("A"), brace(vec![id("B"), p('='), p(',')])]).unwrap_err(),
        err(ErrorKind::ExpectedExpression, &[2, 2])
    );
    // unclosed generic parameters
    let ts = vec![id("enum"), id("A"), p('<'), id("T"), brace(vec![])];
    let e = machine(&ts).unwrap_err();
    assert_eq!(e, err(ErrorKind::ExpectedCloseAngle, &[5]));
    assert_eq!(e.message(&ts), "unexpected end of input, expected `>`");
    // states not separated by a comma
    assert_eq!(
        machine(&vec![id("enum"), id("A"), brace(vec![id("B"), id("C")])]).unwrap_err(),
        err(ErrorKind::ExpectedComma, &[2, 1])
    );
    // tokens after the braces
    let ts = vec![id("enum"), id("A"), brace(vec![]), p(';')];
    let e = machine(&ts).unwrap_err();
    assert_eq!(e, err(ErrorKind::UnexpectedToken, &[3]));
    assert_eq!(e.message(&ts), "unexpected token");
}

#[test]
fn transitions_traffic_light() {
    let ts = traffic_moves(vec![
        mv("Green", "Advance", id("Orange")),
        mv("Orange", "Advance", id("Red")),
        mv("Red", "Advance", id("Green")),
        mv("Green", "PassCar", bracket(vec![id("Green"), p(','), id("Orange")])),
    ]);
    let x = transitions(&ts).unwrap();
    assert_eq!(x.file_stem, "traffic");
    let graph = "digraph Traffic {\n\
Green -> Orange [ label = \"Advance\" ];\n\
Orange -> Red [ label = \"Advance\" ];\n\
Red -> Green [ label = \"Advance\" ];\n\
Green -> Green [ label = \"PassCar\" ];\n\
Green -> Orange [ label = \"PassCar\" ];\n\
}";
    assert_eq!(x.graph.unwrap(), graph);
    let code = "#[derive(Clone,Debug,PartialEq)]\npub enum TrafficMessages {\n\
Advance(Advance),\nPassCar(PassCar),\n}\n\
impl Traffic {\n\
pub fn on_advance(self, input: Advance) -> Traffic {\nmatch self {\n\
Traffic::Green(state) => Traffic::Orange(state.on_advance(input)),\n\
Traffic::Orange(state) => Traffic::Red(state.on_advance(input)),\n\
Traffic::Red(state) => Traffic::Green(state.on_advance(input)),\n\
_ => Traffic::Error,\n}\n}\n\
pub fn on_pass_car(self, input: PassCar) -> Traffic {\nmatch self {\n\
Traffic::Green(state) => state.on_pass_car(input),\n\
_ => Traffic::Error,\n}\n}\n}\n";
    assert_eq!(x.code, code);
}

#[test]
fn transitions_errors() {
    // missing comma after the machine name
    assert_eq!(transitions(&vec![id("T"), bracket(vec![])]).unwrap_err(), err(ErrorKind::ExpectedComma, &[1]));
    // no brackets
    assert_eq!(transitions(&vec![id("T"), p(','), paren(vec![])]).unwrap_err(), err(ErrorKind::ExpectedBrackets, &[2]));
    // no moves at all
    let ts = vec![id("T"), p(','), bracket(vec![])];
    let e = transitions(&ts).unwrap_err();
    assert_eq!(e, err(ErrorKind::ExpectedParens, &[2, 0]));
    assert_eq!(e.message(&ts), "unexpected end of input, expected parentheses");
    // a move without `=>`
    assert_eq!(
        transitions(&traffic_moves(vec![vec![paren(vec![id("A"), p(','), id("M")]), id("B")]])).unwrap_err(),
        err(ErrorKind::ExpectedFatArrow, &[2, 1])
    );
    // `=` not joined to `>`
    assert_eq!(
        transitions(&traffic_moves(vec![vec![paren(vec![id("A"), p(','), id("M")]), p('='), p('>'), id("B")]]))
            .unwrap_err(),
        err(ErrorKind::ExpectedFatArrow, &[2, 1])
    );
    // state and message not separated
    assert_eq!(
        transitions(&traffic_moves(vec![vec![paren(vec![id("A"), id("M")]), pj('='), p('>'), id("B")]])).unwrap_err(),
        err(ErrorKind::ExpectedComma, &[2, 0, 1])
    );
    // a keyword as a state
    assert_eq!(
        transitions(&traffic_moves(vec![mv("self", "M", id("B"))])).unwrap_err(),
        err(ErrorKind::ExpectedIdent, &[2, 0, 0])
    );
    // end state neither a name nor brackets
    assert_eq!(
        transitions(&traffic_moves(vec![mv("A", "M", paren(vec![id("B")]))])).unwrap_err(),
        err(ErrorKind::ExpectedBrackets, &[2, 3])
    );
    // empty list of end states
    let ts = traffic_moves(vec![mv("A", "M", bracket(vec![]))]);
    let e = transitions(&ts).unwrap_err();
    assert_eq!(e, err(ErrorKind::ExpectedIdent, &[2, 3, 0]));
    assert_eq!(e.message(&ts), "unexpected end of input, expected identifier");
    // a comma after the last move
    let mut ts = mv("A", "M", id("B"));
    ts.push(p(','));
    assert_eq!(transitions(&vec![id("T"), p(','), bracket(ts)]).unwrap_err(), err(ErrorKind::ExpectedParens, &[2, 5]));
    // moves not separated by a comma
    let mut ts = mv("A", "M", id("B"));
    ts.extend(mv("B", "M", id("A")));
    assert_eq!(transitions(&vec![id("T"), p(','), bracket(ts)]).unwrap_err(), err(ErrorKind::UnexpectedToken, &[2, 4]));
    // tokens after the brackets
    let mut ts = traffic_moves(vec![mv("A", "M", id("B"))]);
    ts.push(p(','));
    assert_eq!(transitions(&ts).unwrap_err(), err(ErrorKind::UnexpectedToken, &[3]));
}

#[test]
fn transitions_one_method_per_message_and_unlisted_states_go_to_error() {
    // Both moves are on `Go`: one method; `C` has no move on `Go`, so the
    // method ends with the arm that sends every other state to `Error`.
    let ts = traffic_moves(vec![mv("A", "Go", id("B")), mv("B", "Go", id("A"))]);
    let x = transitions(&ts).unwrap();
    assert_eq!(x.code.matches("pub fn on_go(").count(), 1);
    assert_eq!(x.code.matches("Go(Go),").count(), 1);
    assert!(x.code.contains("Traffic::A(state) => Traffic::B(state.on_go(input)),\nTraffic::B(state) => Traffic::A(state.on_go(input)),\n_ => Traffic::Error,\n"));
    assert!(!x.code.contains("Traffic::C("));
}

#[test]
fn transitions_first_move_is_taken() {
    // Two moves from `A` on `Go`: their arms come in the order written, so the
    // first one is taken.
    let ts = traffic_moves(vec![mv("A", "Go", id("B")), mv("A", "Go", id("C"))]);
    let x = transitions(&ts).unwrap();
    let first = x.code.find("Traffic::A(state) => Traffic::B(").unwrap();
    let second = x.code.find("Traffic::A(state) => Traffic::C(").unwrap();
    assert!(first < second);
}

#[test]
fn transitions_graph_has_one_edge_per_end_state() {
    let ts = traffic_moves(vec![mv(
        "A",
        "SwitchOnNow",
        bracket(vec![id("B"), p(','), id("C"), p(','), id("D")]),
    )]);
    let x = transitions(&ts).unwrap();
    assert_eq!(
        x.graph.unwrap(),
        "digraph Traffic {\nA -> B [ label = \"SwitchOnNow\" ];\nA -> C [ label = \"SwitchOnNow\" ];\nA -> D [ label = \"SwitchOnNow\" ];\n}"
    );
    // several end states: the state's method gives the machine state
    assert!(x.code.contains("pub fn on_switch_on_now(self, input: SwitchOnNow) -> Traffic {"));
    assert!(x.code.contains("Traffic::A(state) => state.on_switch_on_now(input),\n"));
}

/// `Traffic, [ Green => get count: u8, Green => set count: u8, Green, Orange, Red => fn can_pass(&self) -> bool ]`
fn traffic_methods() -> Vec<TokenTree> {
    vec![
        id("Traffic"),
        p(','),
        bracket(vec![
            id("Green"),
            pj('='),
            p('>'),
            id("get"),
            id("count"),
            p(':'),
            id("u8"),
            p(','),
            id("Green"),
            pj('='),
            p('>'),
            id("set"),
            id("count"),
            p(':'),
            id("u8"),
            p(','),
            id("Green"),
            p(','),
            id("Orange"),
            p(','),
            id("Red"),
            pj('='),
            p('>'),
            id("fn"),
            id("can_pass"),
            paren(vec![p('&'), id("self")]),
            pj('-'),
            p('>'),
            id("bool"),
        ]),
    ]
}

#[test]
fn methods_traffic_light() {
    let x = methods(&traffic_methods()).unwrap();
    assert_eq!(x.file_stem, "traffic");
    assert!(x.graph.is_none());
    let code = "impl Green {\n\
pub fn count(&self) -> &u8 {\n&self.count\n}\n\
pub fn count_mut(&mut self) -> &mut u8 {\n&mut self.count\n}\n}\n\
impl Orange {\n}\n\
impl Red {\n}\n\
impl Traffic {\n\
pub fn count(&self) -> Option<&u8> {\nmatch self {\nTraffic::Green(ref v) => Some(v.count()),\n_ => None,\n}\n}\n\
pub fn count_mut(&mut self) -> Option<&mut u8> {\nmatch self {\nTraffic::Green(ref mut v) => Some(v.count_mut()),\n_ => None,\n}\n}\n\
pub fn can_pass(& self) -> Option<bool> {\nmatch self {\n\
Traffic::Green(ref v) => Some(v.can_pass()),\n\
Traffic::Orange(ref v) => Some(v.can_pass()),\n\
Traffic::Red(ref v) => Some(v.can_pass()),\n\
_ => None,\n}\n}\n}\n";
    assert_eq!(x.code, code);
}

#[test]
fn methods_passes_named_parameters_on() {
    // Red => fn wait<'a>(&'a mut self, secs: u32, (a, b): (u8, u8), u64) where Self: Sized
    let ts = vec![
        id("Traffic"),
        p(','),
        bracket(vec![
            id("Red"),
            pj('='),
            p('>'),
            id("fn"),
            id("wait"),
            p('<'),
            pj('\''),
            id("a"),
            p('>'),
            paren(vec![
                p('&'),
                pj('\''),
                id("a"),
                id("mut"),
                id("self"),
                p(','),
                id("secs"),
                p(':'),
                id("u32"),
                p(','),
                paren(vec![id("a"), p(','), id("b")]),
                p(':'),
                paren(vec![id("u8"), p(','), id("u8")]),
                p(','),
                id("u64"),
            ]),
            id("where"),
            id("Self"),
            p(':'),
            id("Sized"),
        ]),
    ];
    let x = methods(&ts).unwrap();
    assert!(x.code.contains(
        "pub fn wait(& 'a mut self , secs : u32 , (a , b) : (u8 , u8) , u64)  {\nmatch self {\nTraffic::Red(ref v) => Some(v.wait(secs, (a , b), )),\n_ => None,\n}\n}\n"
    ));
}

#[test]
fn methods_one_impl_per_listed_state_and_none_elsewhere() {
    // Green listed by two entries and twice by one: one impl block, with an
    // accessor per listing.
    let ts = vec![
        id("Traffic"),
        p(','),
        bracket(vec![
            id("Green"),
            p(','),
            id("Red"),
            pj('='),
            p('>'),
            id("get"),
            id("a"),
            p(':'),
            id("u8"),
            p(','),
            id("Red"),
            pj('='),
            p('>'),
            id("get"),
            id("b"),
            p(':'),
            id("u8"),
        ]),
    ];
    let x = methods(&ts).unwrap();
    assert_eq!(x.code.matches("impl Green {").count(), 1);
    assert_eq!(x.code.matches("impl Red {").count(), 1);
    assert!(x.code.starts_with("impl Green {\npub fn a(&self) -> &u8 {\n&self.a\n}\n}\nimpl Red {\npub fn a(&self)"));
    assert!(x.code.contains("pub fn b(&self) -> Option<&u8> {\nmatch self {\nTraffic::Red(ref v) => Some(v.b()),\n_ => None,\n}\n}\n"));
}

#[test]
fn methods_errors() {
    let entry = |body: Vec<TokenTree>| {
        let mut v = vec![id("Green"), pj('='), p('>')];
        v.extend(body);
        vec![id("Traffic"), p(','), bracket(v)]
    };
    // a misspelled accessor word is reported at that word
    let ts = entry(vec![id("fetch"), id("count"), p(':'), id("u8")]);
    let e = methods(&ts).unwrap_err();
    assert_eq!(e, err(ErrorKind::ExpectedGetOrSet, &[2, 3]));
    assert_eq!(e.message(&ts), "expected `get` or `set`");
    // only the exact lower-case words
    assert_eq!(
        methods(&entry(vec![id("Get"), id("count"), p(':'), id("u8")])).unwrap_err(),
        err(ErrorKind::ExpectedGetOrSet, &[2, 3])
    );
    assert_eq!(methods(&entry(vec![id("get"), id("x"), id("u8")])).unwrap_err(), err(ErrorKind::ExpectedColon, &[2, 5]));
    let ts = entry(vec![id("get"), id("x"), p(':')]);
    let e = methods(&ts).unwrap_err();
    assert_eq!(e, err(ErrorKind::ExpectedType, &[2, 6]));
    assert_eq!(e.message(&ts), "unexpected end of input, expected type");
    assert_eq!(
        methods(&vec![id("Traffic"), p(','), bracket(vec![id("Green"), id("get")])]).unwrap_err(),
        err(ErrorKind::ExpectedFatArrow, &[2, 1])
    );
    assert_eq!(methods(&vec![id("Traffic"), bracket(vec![])]).unwrap_err(), err(ErrorKind::ExpectedComma, &[1]));
    assert_eq!(methods(&vec![id("Traffic"), p(','), brace(vec![])]).unwrap_err(), err(ErrorKind::ExpectedBrackets, &[2]));
}

#[test]
fn methods_where_clause_reads_every_predicate() {
    // Green => fn f(&self) -> u8 where Self: Sized, u8: Copy
    let ts = vec![
        id("Traffic"),
        p(','),
        bracket(vec![
            id("Green"),
            pj('='),
            p('>'),
            id("fn"),
            id("f"),
            paren(vec![p('&'), id("self")]),
            pj('-'),
            p('>'),
            id("u8"),
            id("where"),
            id("Self"),
            p(':'),
            id("Sized"),
            p(','),
            id("u8"),
            p(':'),
            id("Copy"),
        ]),
    ];
    let x = methods(&ts).unwrap();
    assert!(x.code.contains("pub fn f(& self) -> Option<u8> {"));
    // Green => fn f(&self) where Self: Sized, Red => get x: u8
    let ts = vec![
        id("Traffic"),
        p(','),
        bracket(vec![
            id("Green"),
            pj('='),
            p('>'),
            id("fn"),
            id("f"),
            paren(vec![p('&'), id("self")]),
            id("where"),
            id("Self"),
            p(':'),
            id("Sized"),
            p(','),
            id("Red"),
            pj('='),
            p('>'),
            id("get"),
            id("x"),
            p(':'),
            id("u8"),
        ]),
    ];
    let e = methods(&ts).unwrap_err();
    assert_eq!(e, err(ErrorKind::ExpectedIdent, &[2, 12]));
    assert_eq!(e.message(&ts), "expected identifier");
}

#[test]
fn error_messages() {
    assert_eq!(ErrorKind::ExpectedGetOrSet.text(), "expected `get` or `set`");
    assert_eq!(ErrorKind::UnexpectedToken.text(), "unexpected token");
    // a path through a group to its end
    let ts = vec![id("T"), bracket(vec![id("x")])];
    assert_eq!(err(ErrorKind::ExpectedComma, &[1, 1]).message(&ts), "unexpected end of input, expected `,`");
    assert_eq!(err(ErrorKind::ExpectedComma, &[1, 0]).message(&ts), "expected `,`");
    assert_eq!(err(ErrorKind::ExpectedComma, &[2]).message(&ts), "unexpected end of input, expected `,`");
}

#[test]
fn machine_code_ignores_attributes_visibility_generics_and_discriminants() {
    let fields = || brace(vec![id("x"), p(':'), id("u8")]);
    // enum M { A { x: u8 }, B }
    let plain = vec![id("enum"), id("M"), brace(vec![id("A"), fields(), p(','), id("B")])];
    // #[allow(dead_code)] pub(crate) enum M<T: Clone> { #[doc = "a"] A { x: u8 }, B = 3 }
    let dressed = vec![
        p('#'),
        bracket(vec![id("allow"), paren(vec![id("dead_code")])]),
        id("pub"),
        paren(vec![id("crate")]),
        id("enum"),
        id("M"),
        p('<'),
        id("T"),
        p(':'),
        id("Clone"),
        p('>'),
        brace(vec![
            p('#'),
            bracket(vec![id("doc"), p('='), TokenTree::Literal("\"a\"".to_string())]),
            id("A"),
            fields(),
            p(','),
            id("B"),
            p('='),
            TokenTree::Literal("3".to_string()),
        ]),
    ];
    let a = machine(&plain).unwrap();
    let b = machine(&dressed).unwrap();
    assert_eq!(a.code, b.code);
    assert_eq!(a.file_stem, b.file_stem);
    assert!(b.code.starts_with("#[derive(Clone,Debug,PartialEq)]\npub enum M {\nError,\n"));
}

#[test]
fn discriminants_with_generic_arguments_and_comparisons() {
    let fields = || brace(vec![id("x"), p(':'), id("u8")]);
    let plain = vec![id("enum"), id("M"), brace(vec![id("A"), fields(), p(','), id("B"), p(','), id("C")])];
    // enum M { A { x: u8 }, B = foo::<u8, u8>(), C = 1 < 2 }
    let with = vec![
        id("enum"),
        id("M"),
        brace(vec![
            id("A"),
            fields(),
            p(','),
            id("B"),
            p('='),
            id("foo"),
            pj(':'),
            p(':'),
            p('<'),
            id("u8"),
            p(','),
            id("u8"),
            p('>'),
            paren(vec![]),
            p(','),
            id("C"),
            p('='),
            TokenTree::Literal("1".to_string()),
            p('<'),
            TokenTree::Literal("2".to_string()),
        ]),
    ];
    assert_eq!(machine(&with).unwrap().code, machine(&plain).unwrap().code);
}

#[test]
fn single_end_state_in_brackets_reads_as_plain() {
    let plain = transitions(&traffic_moves(vec![mv("Green", "Advance", id("Orange"))])).unwrap();
    let bracketed = transitions(&traffic_moves(vec![mv("Green", "Advance", bracket(vec![id("Orange")]))])).unwrap();
    assert_eq!(plain.code, bracketed.code);
    assert_eq!(plain.graph, bracketed.graph);
    assert!(plain.code.contains("Traffic::Green(state) => Traffic::Orange(state.on_advance(input)),"));
}
