//! The `transitions` macro: a list of moves `(State, Message) => End` (or
//! `=> [End1, End2, ...]`), expanded into an enum of the messages, one
//! `on_<message>` method per message on the machine enum, and a graph of the
//! moves in the dot language.
use vstd::prelude::*;
use crate::error::{error_at, nested_in, ErrorKind, ParseError, SpecParseError};
use crate::expansion::Expansion;
use crate::grammar::{
    fat_arrow_at, fat_arrow_is, group_at, group_body, group_is, group_tokens, is_group, parse_ident,
    punct_at, punct_is, spec_parse_ident, view_result,
};
use crate::text::{
    concat_map, lemma_concat_map_append, lemma_concat_map_push, lemma_concat_map_take,
    lemma_push_contains, lowercase, push_distinct, snake_case, to_lowercase, to_snake, has_infix,
    lemma_concat_map_has, lemma_infix_around, lemma_infix_trans,
};
use crate::tokens::{Delimiter, TokenTree};

verus! {

/// A move of the machine: on `message`, state `start` goes to one of `end`.
#[derive(Debug)]
pub struct Transition {
    pub start: String,
    pub message: String,
    pub end: Vec<String>,
}

/// The mathematical form of a `Transition`.
pub struct SpecTransition {
    pub start: Seq<char>,
    pub message: Seq<char>,
    pub end: Seq<Seq<char>>,
}

impl View for Transition {
    type V = SpecTransition;

    open spec fn view(&self) -> SpecTransition {
        SpecTransition { start: self.start@, message: self.message@, end: self.end.deep_view() }
    }
}

/// The moves of the machine named `machine_name`, in the order written.
#[derive(Debug)]
pub struct Transitions {
    pub machine_name: String,
    pub transitions: Vec<Transition>,
}

/// The mathematical form of `Transitions`.
pub struct SpecTransitions {
    pub machine_name: Seq<char>,
    pub transitions: Seq<SpecTransition>,
}

/// The views of a sequence of moves.
pub open spec fn transitions_view(v: Seq<Transition>) -> Seq<SpecTransition> {
    v.map_values(|t: Transition| t@)
}

impl View for Transitions {
    type V = SpecTransitions;

    open spec fn view(&self) -> SpecTransitions {
        SpecTransitions {
            machine_name: self.machine_name@,
            transitions: transitions_view(self.transitions@),
        }
    }
}

// ---------------------------------------------------------------------------
// Grammar.

/// `Ident ("," Ident)*` up to the end of `ts`, read from `i` on, after the
/// identifiers `acc` already read.
pub open spec fn spec_parse_ident_list(ts: Seq<TokenTree>, i: int, acc: Seq<Seq<char>>) -> Result<
    Seq<Seq<char>>,
    SpecParseError,
>
    decreases ts.len() - i,
{
    match spec_parse_ident(ts, i) {
        Err(e) => Err(e),
        Ok((x, j)) => if punct_at(ts, j, ',') {
            spec_parse_ident_list(ts, j + 1, acc.push(x))
        } else if j == ts.len() {
            Ok(acc.push(x))
        } else {
            Err(error_at(ErrorKind::UnexpectedToken, j))
        },
    }
}

/// The end states of a move at `i`: one identifier, or identifiers in square
/// brackets separated by commas.
pub open spec fn spec_parse_end_states(ts: Seq<TokenTree>, i: int) -> Result<
    (Seq<Seq<char>>, int),
    SpecParseError,
> {
    match spec_parse_ident(ts, i) {
        Ok((x, j)) => Ok((seq![x], j)),
        Err(_) => if group_at(ts, i, Delimiter::Bracket) {
            match spec_parse_ident_list(group_body(ts[i]), 0, seq![]) {
                Ok(l) => Ok((l, i + 1)),
                Err(e) => Err(nested_in(i, e)),
            }
        } else {
            Err(error_at(ErrorKind::ExpectedBrackets, i))
        },
    }
}

/// The start state and the message of a move, `Start, Message`, filling all
/// of `inner`.
pub open spec fn spec_parse_move_head(inner: Seq<TokenTree>) -> Result<
    (Seq<char>, Seq<char>),
    SpecParseError,
> {
    match spec_parse_ident(inner, 0) {
        Err(e) => Err(e),
        Ok((start, p)) => if !punct_at(inner, p, ',') {
            Err(error_at(ErrorKind::ExpectedComma, p))
        } else {
            match spec_parse_ident(inner, p + 1) {
                Err(e) => Err(e),
                Ok((message, q)) => if q != inner.len() {
                    Err(error_at(ErrorKind::UnexpectedToken, q))
                } else {
                    Ok((start, message))
                },
            }
        },
    }
}

/// A move at `i`: `(Start, Message) => Ends`.
pub open spec fn spec_parse_transition(ts: Seq<TokenTree>, i: int) -> Result<
    (SpecTransition, int),
    SpecParseError,
> {
    if !group_at(ts, i, Delimiter::Parenthesis) {
        Err(error_at(ErrorKind::ExpectedParens, i))
    } else {
        match spec_parse_move_head(group_body(ts[i])) {
            Err(e) => Err(nested_in(i, e)),
            Ok((start, message)) => if !fat_arrow_at(ts, i + 1) {
                Err(error_at(ErrorKind::ExpectedFatArrow, i + 1))
            } else {
                match spec_parse_end_states(ts, i + 3) {
                    Err(e) => Err(e),
                    Ok((end, j)) => Ok((SpecTransition { start, message, end }, j)),
                }
            },
        }
    }
}

/// Moves separated by commas up to the end of `ts`, read from `i` on, after
/// the moves `acc` already read.
pub open spec fn spec_parse_transition_list(
    ts: Seq<TokenTree>,
    i: int,
    acc: Seq<SpecTransition>,
) -> Result<Seq<SpecTransition>, SpecParseError>
    decreases ts.len() - i,
{
    match spec_parse_transition(ts, i) {
        Err(e) => Err(e),
        Ok((t, j)) => if punct_at(ts, j, ',') {
            spec_parse_transition_list(ts, j + 1, acc.push(t))
        } else if j == ts.len() {
            Ok(acc.push(t))
        } else {
            Err(error_at(ErrorKind::UnexpectedToken, j))
        },
    }
}

/// The whole input of the `transitions` macro: `Machine, [ moves ]`.
pub open spec fn spec_parse_transitions(ts: Seq<TokenTree>) -> Result<
    SpecTransitions,
    SpecParseError,
> {
    match spec_parse_ident(ts, 0) {
        Err(e) => Err(e),
        Ok((name, p)) => if !punct_at(ts, p, ',') {
            Err(error_at(ErrorKind::ExpectedComma, p))
        } else if !group_at(ts, p + 1, Delimiter::Bracket) {
            Err(error_at(ErrorKind::ExpectedBrackets, p + 1))
        } else {
            match spec_parse_transition_list(group_body(ts[p + 1]), 0, seq![]) {
                Err(e) => Err(nested_in(p + 1, e)),
                Ok(l) => if p + 2 != ts.len() {
                    Err(error_at(ErrorKind::UnexpectedToken, p + 2))
                } else {
                    Ok(SpecTransitions { machine_name: name, transitions: l })
                },
            }
        },
    }
}

// ---------------------------------------------------------------------------
// Readers.

/// Reads `Ident ("," Ident)*` filling all of `ts`.
pub fn parse_ident_list(ts: &Vec<TokenTree>) -> (res: Result<Vec<String>, ParseError>)
    ensures
        match res {
            Ok(v) => spec_parse_ident_list(ts@, 0, seq![]) == Ok::<
                Seq<Seq<char>>,
                SpecParseError,
            >(v.deep_view()),
            Err(e) => spec_parse_ident_list(ts@, 0, seq![]) == Err::<
                Seq<Seq<char>>,
                SpecParseError,
            >(e@),
        },
{
    let mut acc: Vec<String> = Vec::new();
    let mut i: usize = 0;
    assert(acc.deep_view() =~= Seq::<Seq<char>>::empty());
    loop
        invariant
            i <= ts.len(),
            spec_parse_ident_list(ts@, 0, seq![]) == spec_parse_ident_list(
                ts@,
                i as int,
                acc.deep_view(),
            ),
        decreases ts.len() - i,
    {
        match parse_ident(ts, i) {
            Err(e) => {
                return Err(e);
            },
            Ok((x, j)) => {
                let ghost before = acc.deep_view();
                let ghost xv = x@;
                acc.push(x);
                assert(acc.deep_view() =~= before.push(xv));
                if punct_is(ts, j, ',') {
                    i = j + 1;
                } else if j == ts.len() {
                    return Ok(acc);
                } else {
                    return Err(ParseError::new(ErrorKind::UnexpectedToken, j));
                }
            },
        }
    }
}

/// Reads the start state and the message of a move, filling all of `inner`.
fn parse_move_head(inner: &Vec<TokenTree>) -> (res: Result<(String, String), ParseError>)
    ensures
        match res {
            Ok((s, m)) => spec_parse_move_head(inner@) == Ok::<
                (Seq<char>, Seq<char>),
                SpecParseError,
            >((s@, m@)),
            Err(e) => spec_parse_move_head(inner@) == Err::<
                (Seq<char>, Seq<char>),
                SpecParseError,
            >(e@),
        },
{
    let (start, p) = match parse_ident(inner, 0) {
        Err(e) => {
            return Err(e);
        },
        Ok(r) => r,
    };
    if !punct_is(inner, p, ',') {
        return Err(ParseError::new(ErrorKind::ExpectedComma, p));
    }
    let (message, q) = match parse_ident(inner, p + 1) {
        Err(e) => {
            return Err(e);
        },
        Ok(r) => r,
    };
    if q != inner.len() {
        return Err(ParseError::new(ErrorKind::UnexpectedToken, q));
    }
    Ok((start, message))
}

impl Transition {
    /// Reads a move at position `i`.
    pub fn parse(ts: &Vec<TokenTree>, i: usize) -> (res: Result<(Transition, usize), ParseError>)
        requires
            i <= ts.len(),
        ensures
            view_result(res) == spec_parse_transition(ts@, i as int),
            res matches Ok((_, j)) ==> i < j <= ts.len(),
    {
        if !group_is(ts, i, Delimiter::Parenthesis) {
            return Err(ParseError::new(ErrorKind::ExpectedParens, i));
        }
        let inner = group_tokens(ts, i);
        let (start, message) = match parse_move_head(inner) {
            Err(e) => {
                return Err(e.within(i));
            },
            Ok(r) => r,
        };
        if !fat_arrow_is(ts, i + 1) {
            return Err(ParseError::new(ErrorKind::ExpectedFatArrow, i + 1));
        }
        let k = i + 3;
        match parse_ident(ts, k) {
            Ok((x, j)) => {
                let mut end = Vec::new();
                end.push(x);
                let t = Transition { start, message, end };
                assert(t@.end =~= seq![x@]);
                Ok((t, j))
            },
            Err(_) => {
                if !group_is(ts, k, Delimiter::Bracket) {
                    return Err(ParseError::new(ErrorKind::ExpectedBrackets, k));
                }
                let list = group_tokens(ts, k);
                match parse_ident_list(list) {
                    Err(e) => Err(e.within(k)),
                    Ok(end) => Ok((Transition { start, message, end }, k + 1)),
                }
            },
        }
    }
}

/// Reads moves separated by commas filling all of `ts`.
pub fn parse_transition_list(ts: &Vec<TokenTree>) -> (res: Result<Vec<Transition>, ParseError>)
    ensures
        match res {
            Ok(v) => spec_parse_transition_list(ts@, 0, seq![]) == Ok::<
                Seq<SpecTransition>,
                SpecParseError,
            >(transitions_view(v@)),
            Err(e) => spec_parse_transition_list(ts@, 0, seq![]) == Err::<
                Seq<SpecTransition>,
                SpecParseError,
            >(e@),
        },
{
    let mut acc: Vec<Transition> = Vec::new();
    let mut i: usize = 0;
    assert(transitions_view(acc@) =~= Seq::<SpecTransition>::empty());
    loop
        invariant
            i <= ts.len(),
            spec_parse_transition_list(ts@, 0, seq![]) == spec_parse_transition_list(
                ts@,
                i as int,
                transitions_view(acc@),
            ),
        decreases ts.len() - i,
    {
        match Transition::parse(ts, i) {
            Err(e) => {
                return Err(e);
            },
            Ok((t, j)) => {
                let ghost before = transitions_view(acc@);
                let ghost tv = t@;
                acc.push(t);
                assert(transitions_view(acc@) =~= before.push(tv));
                if punct_is(ts, j, ',') {
                    i = j + 1;
                } else if j == ts.len() {
                    return Ok(acc);
                } else {
                    return Err(ParseError::new(ErrorKind::UnexpectedToken, j));
                }
            },
        }
    }
}

impl Transitions {
    /// Reads the whole input of the `transitions` macro.
    pub fn parse(ts: &Vec<TokenTree>) -> (res: Result<Transitions, ParseError>)
        ensures
            match res {
                Ok(t) => spec_parse_transitions(ts@) == Ok::<SpecTransitions, SpecParseError>(t@),
                Err(e) => spec_parse_transitions(ts@) == Err::<SpecTransitions, SpecParseError>(
                    e@,
                ),
            },
    {
        let (machine_name, p) = match parse_ident(ts, 0) {
            Err(e) => {
                return Err(e);
            },
            Ok(r) => r,
        };
        if !punct_is(ts, p, ',') {
            return Err(ParseError::new(ErrorKind::ExpectedComma, p));
        }
        if !group_is(ts, p + 1, Delimiter::Bracket) {
            return Err(ParseError::new(ErrorKind::ExpectedBrackets, p + 1));
        }
        let body = group_tokens(ts, p + 1);
        let transitions = match parse_transition_list(body) {
            Err(e) => {
                return Err(e.within(p + 1));
            },
            Ok(l) => l,
        };
        if p + 2 != ts.len() {
            return Err(ParseError::new(ErrorKind::UnexpectedToken, p + 2));
        }
        Ok(Transitions { machine_name, transitions })
    }
}


// ---------------------------------------------------------------------------
// The graph of the moves.

/// The dot line of the edge from `start` to `end` labelled `message`.
pub open spec fn edge_line(start: Seq<char>, message: Seq<char>, end: Seq<char>) -> Seq<char> {
    start + " -> "@ + end + " [ label = \""@ + message + "\" ];\n"@
}

/// The dot line of each end state of a move from `start` on `message`.
pub open spec fn edge_of(start: Seq<char>, message: Seq<char>) -> spec_fn(Seq<char>) -> Seq<char> {
    |e: Seq<char>| edge_line(start, message, e)
}

/// The dot lines of the edges of one move: one per end state, in order.
pub open spec fn transition_edges(t: SpecTransition) -> Seq<char> {
    concat_map(t.end, edge_of(t.start, t.message))
}

/// The dot lines of the edges of each move.
pub open spec fn edges_of_move() -> spec_fn(SpecTransition) -> Seq<char> {
    |t: SpecTransition| transition_edges(t)
}

/// The graph of the moves in the dot language.
pub open spec fn dot_text(tr: SpecTransitions) -> Seq<char> {
    "digraph "@ + tr.machine_name + " {\n"@ + concat_map(tr.transitions, edges_of_move()) + "}"@
}

/// Appends the dot lines of the edges of one move.
fn emit_edges(out: &mut String, t: &Transition)
    ensures
        final(out)@ == old(out)@ + transition_edges(t@),
{
    let ghost start = old(out)@;
    let ghost f = edge_of(t@.start, t@.message);
    let n = t.end.len();
    assert(t@.end.take(0) =~= Seq::<Seq<char>>::empty());
    for k in 0..n
        invariant
            n == t.end.len(),
            f == edge_of(t@.start, t@.message),
            out@ == start + concat_map(t@.end.take(k as int), f),
    {
        let mut line = String::new();
        line.append(t.start.as_str());
        line.append(" -> ");
        line.append(t.end[k].as_str());
        line.append(" [ label = \"");
        line.append(t.message.as_str());
        line.append("\" ];\n");
        assert(t@.end[k as int] == t.end@[k as int]@);
        assert(line@ =~= edge_line(t@.start, t@.message, t@.end[k as int]));
        assert(f(t@.end[k as int]) == edge_line(t@.start, t@.message, t@.end[k as int]));
        proof {
            lemma_concat_map_take(t@.end, k as int, f);
        }
        out.append(line.as_str());
        assert(out@ =~= start + concat_map(t@.end.take(k + 1), f));
    }
    assert(t@.end.take(n as int) =~= t@.end);
}

impl Transitions {
    /// The graph of the moves in the dot language: one edge per move and end
    /// state, labelled with the message.
    pub fn render(&self) -> (res: String)
        ensures
            res@ == dot_text(self@),
    {
        let ghost tv = self@.transitions;
        let ghost f = edges_of_move();
        let mut out = String::new();
        out.append("digraph ");
        out.append(self.machine_name.as_str());
        out.append(" {\n");
        let ghost head = out@;
        let n = self.transitions.len();
        assert(tv.take(0) =~= Seq::<SpecTransition>::empty());
        for i in 0..n
            invariant
                n == self.transitions.len(),
                tv == self@.transitions,
                tv.len() == n,
                f == edges_of_move(),
                out@ == head + concat_map(tv.take(i as int), f),
        {
            proof {
                lemma_concat_map_take(tv, i as int, f);
            }
            assert(tv[i as int] == self.transitions@[i as int]@);
            emit_edges(&mut out, &self.transitions[i]);
            assert(out@ =~= head + concat_map(tv.take(i + 1), f));
        }
        assert(tv.take(n as int) =~= tv);
        out.append("}");
        assert(out@ =~= dot_text(self@));
        out
    }
}

// ---------------------------------------------------------------------------
// The generated code.

/// The messages of the moves, each once, in the order in which they first
/// appear.
pub open spec fn distinct_messages(ts: Seq<SpecTransition>) -> Seq<Seq<char>>
    decreases ts.len(),
{
    if ts.len() == 0 {
        seq![]
    } else {
        let d = distinct_messages(ts.subrange(0, ts.len() - 1));
        let m = ts[ts.len() - 1].message;
        if d.contains(m) {
            d
        } else {
            d.push(m)
        }
    }
}

/// The moves on message `m`, in the order written.
pub open spec fn moves_of(ts: Seq<SpecTransition>, m: Seq<char>) -> Seq<SpecTransition>
    decreases ts.len(),
{
    if ts.len() == 0 {
        seq![]
    } else {
        let rest = moves_of(ts.subrange(0, ts.len() - 1), m);
        if ts[ts.len() - 1].message == m {
            rest.push(ts[ts.len() - 1])
        } else {
            rest
        }
    }
}

/// The name of the method that hands message `m` to the machine.
pub open spec fn handler_name(m: Seq<char>) -> Seq<char> {
    "on_"@ + snake_case(m)
}

/// The match arm of one move in the method `fname` of `machine`: with one end
/// state, the state's own method gives the next state's contents; with more,
/// it gives the next machine state itself.
pub open spec fn arm_text(machine: Seq<char>, fname: Seq<char>, t: SpecTransition) -> Seq<char> {
    if t.end.len() == 1 {
        machine + "::"@ + t.start + "(state) => "@ + machine + "::"@ + t.end[0] + "(state."@
            + fname + "(input)),\n"@
    } else {
        machine + "::"@ + t.start + "(state) => state."@ + fname + "(input),\n"@
    }
}

/// The match arm of each move in the method `fname` of `machine`.
pub open spec fn arm_of(machine: Seq<char>, fname: Seq<char>) -> spec_fn(SpecTransition) -> Seq<char> {
    |t: SpecTransition| arm_text(machine, fname, t)
}

/// The method of `machine` that hands message `m` over, with the arms of
/// `moves` and every other state going to `Error`.
pub open spec fn handler_text(machine: Seq<char>, m: Seq<char>, moves: Seq<SpecTransition>) -> Seq<
    char,
> {
    "pub fn "@ + handler_name(m) + "(self, input: "@ + m + ") -> "@ + machine
        + " {\nmatch self {\n"@ + concat_map(moves, arm_of(machine, handler_name(m)))
        + "_ => "@ + machine + "::Error,\n}\n}\n"@
}

/// The variant of the message enum for message `m`.
pub open spec fn message_variant(m: Seq<char>) -> Seq<char> {
    m + "("@ + m + "),\n"@
}

/// The variant of the message enum for each message.
pub open spec fn variant_of_message() -> spec_fn(Seq<char>) -> Seq<char> {
    |m: Seq<char>| message_variant(m)
}

/// The method that hands each message over to `machine`, given the moves.
pub open spec fn handler_of(machine: Seq<char>, ts: Seq<SpecTransition>) -> spec_fn(Seq<char>) -> Seq<
    char,
> {
    |m: Seq<char>| handler_text(machine, m, moves_of(ts, m))
}

/// The code that the `transitions` macro generates: the enum of the messages
/// and, on the machine enum, one method per message.
pub open spec fn transitions_code(tr: SpecTransitions) -> Seq<char> {
    let ms = distinct_messages(tr.transitions);
    "#[derive(Clone,Debug,PartialEq)]\npub enum "@ + tr.machine_name + "Messages {\n"@
        + concat_map(ms, variant_of_message()) + "}\nimpl "@ + tr.machine_name + " {\n"@
        + concat_map(ms, handler_of(tr.machine_name, tr.transitions)) + "}\n"@
}

/// The messages of the moves, each once, in the order of first appearance.
pub fn message_names(ts: &Vec<Transition>) -> (res: Vec<String>)
    ensures
        res.deep_view() == distinct_messages(transitions_view(ts@)),
{
    let ghost tv = transitions_view(ts@);
    let mut acc: Vec<String> = Vec::new();
    let n = ts.len();
    assert(tv.take(0) =~= Seq::<SpecTransition>::empty());
    assert(acc.deep_view() =~= Seq::<Seq<char>>::empty());
    for i in 0..n
        invariant
            n == ts.len(),
            tv == transitions_view(ts@),
            acc.deep_view() == distinct_messages(tv.take(i as int)),
    {
        assert(tv.take(i + 1).subrange(0, i as int) =~= tv.take(i as int));
        push_distinct(&mut acc, &ts[i].message);
    }
    assert(tv.take(n as int) =~= tv);
    acc
}

/// Appends the match arm of one move.
fn emit_arm(out: &mut String, machine: &String, fname: &String, t: &Transition)
    ensures
        final(out)@ == old(out)@ + arm_text(machine@, fname@, t@),
{
    let mut line = String::new();
    line.append(machine.as_str());
    line.append("::");
    line.append(t.start.as_str());
    if t.end.len() == 1 {
        line.append("(state) => ");
        line.append(machine.as_str());
        line.append("::");
        line.append(t.end[0].as_str());
        line.append("(state.");
        line.append(fname.as_str());
        line.append("(input)),\n");
    } else {
        line.append("(state) => state.");
        line.append(fname.as_str());
        line.append("(input),\n");
    }
    assert(line@ =~= arm_text(machine@, fname@, t@));
    out.append(line.as_str());
}

/// Appends the method that hands message `m` over.
fn emit_handler(out: &mut String, machine: &String, m: &String, ts: &Vec<Transition>)
    ensures
        final(out)@ == old(out)@ + handler_text(machine@, m@, moves_of(transitions_view(ts@), m@)),
{
    let ghost tv = transitions_view(ts@);
    let snake = to_snake(m.as_str());
    let mut fname = String::new();
    fname.append("on_");
    fname.append(snake.as_str());
    assert(fname@ =~= handler_name(m@));
    let ghost f = arm_of(machine@, handler_name(m@));
    let mut text = String::new();
    text.append("pub fn ");
    text.append(fname.as_str());
    text.append("(self, input: ");
    text.append(m.as_str());
    text.append(") -> ");
    text.append(machine.as_str());
    text.append(" {\nmatch self {\n");
    let ghost head = text@;
    let n = ts.len();
    assert(tv.take(0) =~= Seq::<SpecTransition>::empty());
    for i in 0..n
        invariant
            n == ts.len(),
            tv == transitions_view(ts@),
            fname@ == handler_name(m@),
            f == arm_of(machine@, handler_name(m@)),
            text@ == head + concat_map(moves_of(tv.take(i as int), m@), f),
    {
        assert(tv.take(i + 1).subrange(0, i as int) =~= tv.take(i as int));
        assert(tv[i as int] == ts@[i as int]@);
        assert(tv.take(i + 1)[i as int] == tv[i as int]);
        if ts[i].message == *m {
            proof {
                lemma_concat_map_push(moves_of(tv.take(i as int), m@), tv[i as int], f);
            }
            emit_arm(&mut text, machine, &fname, &ts[i]);
            assert(text@ =~= head + concat_map(moves_of(tv.take(i + 1), m@), f));
        }
    }
    assert(tv.take(n as int) =~= tv);
    text.append("_ => ");
    text.append(machine.as_str());
    text.append("::Error,\n}\n}\n");
    assert(text@ =~= handler_text(machine@, m@, moves_of(tv, m@)));
    out.append(text.as_str());
}

/// The code that the `transitions` macro generates for the moves.
pub fn transitions_code_of(tr: &Transitions) -> (res: String)
    ensures
        res@ == transitions_code(tr@),
{
    let ghost tv = tr@.transitions;
    let ms = message_names(&tr.transitions);
    let ghost msv = ms.deep_view();
    let ghost fv = variant_of_message();
    let ghost fh = handler_of(tr@.machine_name, tv);
    let name = &tr.machine_name;
    let mut out = String::new();
    out.append("#[derive(Clone,Debug,PartialEq)]\npub enum ");
    out.append(name.as_str());
    out.append("Messages {\n");
    let ghost head = out@;
    let n = ms.len();
    assert(msv.take(0) =~= Seq::<Seq<char>>::empty());
    for i in 0..n
        invariant
            n == ms.len(),
            msv == ms.deep_view(),
            fv == variant_of_message(),
            out@ == head + concat_map(msv.take(i as int), fv),
    {
        proof {
            lemma_concat_map_take(msv, i as int, fv);
        }
        let mut line = String::new();
        line.append(ms[i].as_str());
        line.append("(");
        line.append(ms[i].as_str());
        line.append("),\n");
        assert(msv[i as int] == ms@[i as int]@);
        assert(line@ =~= fv(msv[i as int]));
        out.append(line.as_str());
        assert(out@ =~= head + concat_map(msv.take(i + 1), fv));
    }
    assert(msv.take(n as int) =~= msv);
    out.append("}\nimpl ");
    out.append(name.as_str());
    out.append(" {\n");
    let ghost mid = out@;
    for i in 0..n
        invariant
            n == ms.len(),
            msv == ms.deep_view(),
            tv == transitions_view(tr.transitions@),
            name@ == tr@.machine_name,
            fh == handler_of(tr@.machine_name, tv),
            out@ == mid + concat_map(msv.take(i as int), fh),
    {
        proof {
            lemma_concat_map_take(msv, i as int, fh);
        }
        assert(msv[i as int] == ms@[i as int]@);
        emit_handler(&mut out, name, &ms[i], &tr.transitions);
        assert(out@ =~= mid + concat_map(msv.take(i + 1), fh));
    }
    out.append("}\n");
    assert(out@ =~= transitions_code(tr@));
    out
}


/// The `transitions` macro: reads the moves of a machine and generates the
/// enum of its messages and one method per message, and the graph of the
/// moves.
pub fn transitions(ts: &Vec<TokenTree>) -> (res: Result<Expansion, ParseError>)
    ensures
        match spec_parse_transitions(ts@) {
            Err(e) => res matches Err(x) && x@ == e,
            Ok(tr) => res matches Ok(x) && {
                &&& x.file_stem@ == lowercase(tr.machine_name)
                &&& x.code@ == transitions_code(tr)
                &&& x.graph matches Some(g) && g@ == dot_text(tr)
            },
        },
{
    match Transitions::parse(ts) {
        Err(e) => Err(e),
        Ok(tr) => {
            let graph = tr.render();
            let code = transitions_code_of(&tr);
            let file_stem = to_lowercase(tr.machine_name.as_str());
            Ok(Expansion { file_stem, code, graph: Some(graph) })
        },
    }
}


// ---------------------------------------------------------------------------
// Laws.

/// What the machine does with a message, by the method generated for it.
pub enum Outcome {
    /// The machine goes to the error state.
    Error,
    /// The state's own method gives the contents of this next state.
    Next(Seq<char>),
    /// The state's own method gives the next machine state.
    Delegated,
}

/// What a move does when it is taken.
pub open spec fn move_outcome(t: SpecTransition) -> Outcome {
    if t.end.len() == 1 {
        Outcome::Next(t.end[0])
    } else {
        Outcome::Delegated
    }
}

/// What state `s` does in a method whose match arms are the moves `moves`
/// (in order) followed by an arm that sends every state to `Error`: the first
/// move from `s` is taken.
pub open spec fn dispatch(moves: Seq<SpecTransition>, s: Seq<char>) -> Outcome
    decreases moves.len(),
{
    if moves.len() == 0 {
        Outcome::Error
    } else {
        let d = dispatch(moves.subrange(0, moves.len() - 1), s);
        let last = moves[moves.len() - 1];
        if d is Error && last.start == s {
            move_outcome(last)
        } else {
            d
        }
    }
}

proof fn lemma_dispatch_push(moves: Seq<SpecTransition>, t: SpecTransition, s: Seq<char>)
    ensures
        dispatch(moves.push(t), s) == if dispatch(moves, s) is Error && t.start == s {
            move_outcome(t)
        } else {
            dispatch(moves, s)
        },
{
    assert(moves.push(t).subrange(0, moves.len() as int) =~= moves);
}

/// A state that has no move on a message goes, on that message, to the error
/// state.
pub proof fn law_unhandled_state_goes_to_error(ts: Seq<SpecTransition>, m: Seq<char>, s: Seq<char>)
    requires
        forall|k: int| 0 <= k < ts.len() && ts[k].message == m ==> ts[k].start != s,
    ensures
        dispatch(moves_of(ts, m), s) is Error,
    decreases ts.len(),
{
    if ts.len() > 0 {
        let pre = ts.subrange(0, ts.len() - 1);
        law_unhandled_state_goes_to_error(pre, m, s);
        if ts[ts.len() - 1].message == m {
            lemma_dispatch_push(moves_of(pre, m), ts[ts.len() - 1], s);
        }
    }
}

/// Once in the error state, the machine stays there whatever the message, as
/// long as no move is written from a state named `Error`.
pub proof fn law_error_state_is_kept(ts: Seq<SpecTransition>, m: Seq<char>)
    requires
        forall|k: int| 0 <= k < ts.len() ==> ts[k].start != "Error"@,
    ensures
        dispatch(moves_of(ts, m), "Error"@) is Error,
{
    law_unhandled_state_goes_to_error(ts, m, "Error"@);
}

/// On a message, a state takes the first move written from it on that
/// message: to the one end state's contents given by the state's own method,
/// or, with several end states, to the machine state that method gives.
pub proof fn law_first_move_is_taken(ts: Seq<SpecTransition>, k: int)
    requires
        0 <= k < ts.len(),
        forall|j: int|
            0 <= j < k ==> !(ts[j].start == ts[k].start && ts[j].message == ts[k].message),
    ensures
        dispatch(moves_of(ts, ts[k].message), ts[k].start) == move_outcome(ts[k]),
    decreases ts.len(),
{
    let m = ts[k].message;
    let s = ts[k].start;
    let pre = ts.subrange(0, ts.len() - 1);
    if k == ts.len() - 1 {
        law_unhandled_state_goes_to_error(pre, m, s);
        lemma_dispatch_push(moves_of(pre, m), ts[k], s);
    } else {
        law_first_move_is_taken(pre, k);
        assert(pre[k] == ts[k]);
        if ts[ts.len() - 1].message == m {
            lemma_dispatch_push(moves_of(pre, m), ts[ts.len() - 1], s);
        }
    }
}

/// Whether some move is on message `m`.
pub open spec fn has_message(ts: Seq<SpecTransition>, m: Seq<char>) -> bool {
    exists|k: int| 0 <= k < ts.len() && #[trigger] ts[k].message == m
}

proof fn lemma_has_message_last(ts: Seq<SpecTransition>, m: Seq<char>)
    requires
        ts.len() > 0,
    ensures
        has_message(ts, m) <==> has_message(ts.subrange(0, ts.len() - 1), m) || ts[ts.len()
            - 1].message == m,
{
    let pre = ts.subrange(0, ts.len() - 1);
    if has_message(ts, m) {
        let k = choose|k: int| 0 <= k < ts.len() && #[trigger] ts[k].message == m;
        if k < ts.len() - 1 {
            assert(pre[k].message == m);
        }
    }
    if has_message(pre, m) {
        let k = choose|k: int| 0 <= k < pre.len() && #[trigger] pre[k].message == m;
        assert(ts[k].message == m);
    }
    if ts[ts.len() - 1].message == m {
        assert(ts[ts.len() - 1].message == m);
    }
}

/// Every message of the moves gets exactly one method: the messages of the
/// generated methods are those of the moves, each once.
pub proof fn law_one_method_per_message(ts: Seq<SpecTransition>, m: Seq<char>)
    ensures
        distinct_messages(ts).contains(m) <==> has_message(ts, m),
        distinct_messages(ts).no_duplicates(),
    decreases ts.len(),
{
    if ts.len() > 0 {
        let pre = ts.subrange(0, ts.len() - 1);
        let x = ts[ts.len() - 1].message;
        law_one_method_per_message(pre, m);
        law_one_method_per_message(pre, x);
        lemma_has_message_last(ts, m);
        let d = distinct_messages(pre);
        if !d.contains(x) {
            lemma_push_contains(d, x, m);
            let dp = d.push(x);
            assert forall|i: int, j: int|
                0 <= i < dp.len() && 0 <= j < dp.len() && i != j implies #[trigger] dp[i]
                != #[trigger] dp[j] by {
                if j == d.len() {
                    assert(d.contains(d[i]));
                } else if i == d.len() {
                    assert(d.contains(d[j]));
                }
            }
        }
    }
}

/// The edges of the graph of one move: from its start, labelled with its
/// message, to each end state.
pub open spec fn move_edges(t: SpecTransition) -> Seq<(Seq<char>, Seq<char>, Seq<char>)> {
    t.end.map_values(|e: Seq<char>| (t.start, t.message, e))
}

/// The edges of the graph of the moves: one per move and end state, in order.
pub open spec fn graph_edges(ts: Seq<SpecTransition>) -> Seq<(Seq<char>, Seq<char>, Seq<char>)>
    decreases ts.len(),
{
    if ts.len() == 0 {
        seq![]
    } else {
        graph_edges(ts.subrange(0, ts.len() - 1)) + move_edges(ts[ts.len() - 1])
    }
}

/// The dot line of each edge `(start, message, end)`.
pub open spec fn edge_text() -> spec_fn((Seq<char>, Seq<char>, Seq<char>)) -> Seq<char> {
    |e: (Seq<char>, Seq<char>, Seq<char>)| edge_line(e.0, e.1, e.2)
}

proof fn lemma_move_edges_text(t: SpecTransition, n: int)
    requires
        0 <= n <= t.end.len(),
    ensures
        concat_map(move_edges(t).take(n), edge_text()) == concat_map(
            t.end.take(n),
            edge_of(t.start, t.message),
        ),
    decreases n,
{
    if n > 0 {
        lemma_move_edges_text(t, n - 1);
        lemma_concat_map_take(move_edges(t), n - 1, edge_text());
        lemma_concat_map_take(t.end, n - 1, edge_of(t.start, t.message));
    }
}

proof fn lemma_graph_edges_text(ts: Seq<SpecTransition>)
    ensures
        concat_map(graph_edges(ts), edge_text()) == concat_map(ts, edges_of_move()),
    decreases ts.len(),
{
    if ts.len() > 0 {
        let pre = ts.subrange(0, ts.len() - 1);
        let t = ts[ts.len() - 1];
        lemma_graph_edges_text(pre);
        lemma_concat_map_append(graph_edges(pre), move_edges(t), edge_text());
        lemma_move_edges_text(t, t.end.len() as int);
        assert(move_edges(t).take(t.end.len() as int) =~= move_edges(t));
        assert(t.end.take(t.end.len() as int) =~= t.end);
    }
}

/// The graph of the moves has one edge per move and end state, in the order
/// written, from the move's start to the end state, labelled with the
/// message.
pub proof fn law_graph_has_one_edge_per_end_state(tr: SpecTransitions)
    ensures
        dot_text(tr) == "digraph "@ + tr.machine_name + " {\n"@ + concat_map(
            graph_edges(tr.transitions),
            edge_text(),
        ) + "}"@,
{
    lemma_graph_edges_text(tr.transitions);
}


proof fn lemma_ident_list_nonempty(ts: Seq<TokenTree>, i: int, acc: Seq<Seq<char>>)
    ensures
        spec_parse_ident_list(ts, i, acc) matches Ok(l) ==> l.len() >= 1,
    decreases ts.len() - i,
{
    if let Ok((x, j)) = spec_parse_ident(ts, i) {
        if punct_at(ts, j, ',') {
            lemma_ident_list_nonempty(ts, j + 1, acc.push(x));
        }
    }
}

proof fn lemma_transition_has_end(ts: Seq<TokenTree>, i: int)
    ensures
        spec_parse_transition(ts, i) matches Ok((t, _)) ==> t.end.len() >= 1,
{
    if spec_parse_ident(ts, i + 3) is Err && group_at(ts, i + 3, Delimiter::Bracket) {
        lemma_ident_list_nonempty(group_body(ts[i + 3]), 0, seq![]);
    }
}

proof fn lemma_transition_list_has_ends(ts: Seq<TokenTree>, i: int, acc: Seq<SpecTransition>)
    requires
        forall|k: int| 0 <= k < acc.len() ==> #[trigger] acc[k].end.len() >= 1,
    ensures
        spec_parse_transition_list(ts, i, acc) matches Ok(l) ==> forall|k: int|
            0 <= k < l.len() ==> #[trigger] l[k].end.len() >= 1,
    decreases ts.len() - i,
{
    lemma_transition_has_end(ts, i);
    if let Ok((t, j)) = spec_parse_transition(ts, i) {
        let acc2 = acc.push(t);
        assert forall|k: int| 0 <= k < acc2.len() implies #[trigger] acc2[k].end.len() >= 1 by {
            if k < acc.len() {
                assert(acc2[k] == acc[k]);
            }
        }
        if punct_at(ts, j, ',') {
            lemma_transition_list_has_ends(ts, j + 1, acc2);
        }
    }
}

/// Every move that the `transitions` macro accepts has at least one end
/// state; it has several exactly when written with a bracketed list of more
/// than one state.
pub proof fn law_every_move_has_an_end_state(ts: Seq<TokenTree>)
    ensures
        spec_parse_transitions(ts) matches Ok(tr) ==> forall|k: int|
            0 <= k < tr.transitions.len() ==> #[trigger] tr.transitions[k].end.len() >= 1,
{
    if let Ok((name, p)) = spec_parse_ident(ts, 0) {
        if punct_at(ts, p, ',') && group_at(ts, p + 1, Delimiter::Bracket) {
            lemma_transition_list_has_ends(group_body(ts[p + 1]), 0, seq![]);
        }
    }
}

/// A move whose single end state is written in square brackets, `(S, M) =>
/// [E]`, is read exactly as the move written `(S, M) => E`: the same start,
/// message and one end state, and the reading goes on at the same position.
pub proof fn law_bracketed_single_end_is_plain(ts: Seq<TokenTree>, i: int, g: TokenTree)
    requires
        0 <= i,
        i + 3 < ts.len(),
        spec_parse_ident(ts, i + 3) is Ok,
        is_group(g, Delimiter::Bracket),
        group_body(g) == seq![ts[i + 3]],
    ensures
        spec_parse_transition(ts.update(i + 3, g), i) == spec_parse_transition(ts, i),
{
    let ts2 = ts.update(i + 3, g);
    let inner = group_body(g);
    assert(ts2[i] == ts[i]);
    assert(ts2[i + 1] == ts[i + 1]);
    assert(ts2[i + 2] == ts[i + 2]);
    assert(ts2[i + 3] == g);
    assert(inner[0] == ts[i + 3]);
    assert(spec_parse_ident(inner, 0) matches Ok((x, k)) && k == 1 && spec_parse_ident(ts, i + 3)
        == Ok::<(Seq<char>, int), SpecParseError>((x, i + 4)));
    assert(spec_parse_end_states(ts2, i + 3) == spec_parse_end_states(ts, i + 3));
}

/// A move is among the moves of its message.
proof fn lemma_move_among_moves(ts: Seq<SpecTransition>, j: int) -> (k: int)
    requires
        0 <= j < ts.len(),
    ensures
        0 <= k < moves_of(ts, ts[j].message).len(),
        moves_of(ts, ts[j].message)[k] == ts[j],
    decreases ts.len(),
{
    let m = ts[j].message;
    let pre = ts.subrange(0, ts.len() - 1);
    if j == ts.len() - 1 {
        moves_of(pre, m).len() as int
    } else {
        let k = lemma_move_among_moves(pre, j);
        assert(pre[j] == ts[j]);
        k
    }
}

/// The generated code moves every state as its moves say, for every move:
/// a move `(S, M) => E` with one end state gives, in the method `on_m` of
/// the machine, the arm `Machine::S(state) => Machine::E(state.on_m(input))`
/// (S's own method is called with the input and its result is state E,
/// also where E is S), and a move with several end states the arm
/// `Machine::S(state) => state.on_m(input)`.
pub proof fn law_each_move_has_its_arm(tr: SpecTransitions, j: int)
    requires
        0 <= j < tr.transitions.len(),
    ensures
        ({
            let t = tr.transitions[j];
            let mn = tr.machine_name;
            let f = "on_"@ + snake_case(t.message);
            &&& t.end.len() == 1 ==> has_infix(
                transitions_code(tr),
                mn + "::"@ + t.start + "(state) => "@ + mn + "::"@ + t.end[0] + "(state."@ + f
                    + "(input)),\n"@,
            )
            &&& t.end.len() != 1 ==> has_infix(
                transitions_code(tr),
                mn + "::"@ + t.start + "(state) => state."@ + f + "(input),\n"@,
            )
        }),
{
    let ts = tr.transitions;
    let t = ts[j];
    let m = t.message;
    let mn = tr.machine_name;
    let hn = handler_name(m);
    let ms = distinct_messages(ts);
    assert(ts[j].message == m);
    law_one_method_per_message(ts, m);
    let idx = choose|i: int| 0 <= i < ms.len() && ms[i] == m;
    lemma_concat_map_has(ms, idx, handler_of(mn, ts));
    let cm = concat_map(ms, handler_of(mn, ts));
    let a = "#[derive(Clone,Debug,PartialEq)]\npub enum "@ + mn + "Messages {\n"@ + concat_map(
        ms,
        variant_of_message(),
    ) + "}\nimpl "@ + mn + " {\n"@;
    lemma_infix_around(a, cm, "}\n"@, handler_text(mn, m, moves_of(ts, m)));
    let moves = moves_of(ts, m);
    let k = lemma_move_among_moves(ts, j);
    lemma_concat_map_has(moves, k, arm_of(mn, hn));
    let cma = concat_map(moves, arm_of(mn, hn));
    let p = "pub fn "@ + hn + "(self, input: "@ + m + ") -> "@ + mn + " {\nmatch self {\n"@;
    let q = "_ => "@ + mn + "::Error,\n}\n}\n"@;
    assert(handler_text(mn, m, moves) =~= p + cma + q);
    lemma_infix_around(p, cma, q, arm_text(mn, hn, t));
    lemma_infix_trans(transitions_code(tr), handler_text(mn, m, moves), arm_text(mn, hn, t));
}

} // verus!
