use vstd::prelude::*;

use crate::compile_model::{
    lemma_parameters_keep, lemma_variable_declarations_count, lemma_variable_declarations_keep,
    parameter_list, subroutine, variable_declarations,
    expression_list_rest,
    pop_variable, push_variable,
    append_chars_code, string_constant_code,
    this_setup,
    array_element, let_index,
    else_branch, if_statement,
    fresh_label, lemma_expression_grows, lemma_statements_grows, statements, while_statement,
    do_local_call, do_qualified_call, expression_list, segment_of,
    emit, expression, expression_rest, grows, lemma_expression_rest_grows, lemma_read_token,
    lemma_term_grows, lemma_expression_list_grows, operator_code, read_token, term, State,
};
use crate::numbers::decimal_digits;
use crate::text::{starts_with, trim_matches};
use crate::tokenizer::TokenType;
use crate::symbol::{define_in, Kind};
use crate::writer::{function_line, arithmetic_line, goto_line, if_line, label_line, Commands, call_line, lemma_arithmetic_lines, lemma_line_formats, pop_line, push_line, VMSegment};

verus! {

/// The code that compiling from `a` to `b` wrote.
pub open spec fn added(a: State, b: State) -> Seq<char> {
    b.output.skip(a.output.len() as int)
}

/// A state that grows from `a` holds the code of `a` and then the code
/// added.
pub proof fn lemma_added(a: State, b: State)
    requires
        grows(a, b),
    ensures
        b.output == a.output + added(a, b),
{
    assert(b.output =~= b.output.take(a.output.len() as int) + b.output.skip(a.output.len() as int));
}

/// An expression compiles left to right: its first term, then the rest,
/// read after the token that follows the term.
pub proof fn lemma_expression_shape(st: State)
    requires
        expression(st).0 is Ok,
    ensures
        ({
            let s1 = term(st).1;
            let s2 = read_token(s1).1;
            expression(st).1.output == st.output + added(st, s1) + added(
                s2,
                expression_rest(s2).1,
            )
        }),
{
    let s1 = term(st).1;
    let s2 = read_token(s1).1;
    lemma_read_token(s1);
    lemma_term_grows(st);
    lemma_added(st, s1);
    lemma_expression_rest_grows(s2);
    lemma_added(s2, expression_rest(s2).1);
}

/// After a term, an operator compiles as its right-hand term, then the
/// operator's code, then the rest of the expression.
pub proof fn lemma_operator_shape(st: State)
    requires
        expression_rest(st).0 is Ok,
        operator_code(st.token) is Some,
        st.token_type == TokenType::Symbol,
        st.token != "]"@ && st.token != ";"@ && st.token != ")"@ && st.token != ","@,
    ensures
        ({
            let s1 = term(st).1;
            let s3 = read_token(emit(s1, operator_code(st.token).unwrap())).1;
            expression_rest(st).1.output == st.output + added(st, s1) + operator_code(
                st.token,
            ).unwrap() + added(s3, expression_rest(s3).1)
        }),
{
    let s1 = term(st).1;
    let code = operator_code(st.token).unwrap();
    let s3 = read_token(emit(s1, code)).1;
    lemma_read_token(emit(s1, code));
    lemma_term_grows(st);
    lemma_added(st, s1);
    lemma_expression_rest_grows(s3);
    lemma_added(s3, expression_rest(s3).1);
}

/// Texts of one character differ where their characters do.
proof fn lemma_one_char_differs(a: char, b: char)
    requires
        a != b,
    ensures
        seq![a] != seq![b],
{
    assert(seq![a][0] != seq![b][0]);
}

/// Each of the nine binary operators of Jack compiles to its fixed VM text:
/// `+` to `add`, `-` to `sub`, `*` and `/` to calls of `Math.multiply` and
/// `Math.divide` with two arguments, `&` to `and`, `|` to `or`, `<` to `lt`,
/// `>` to `gt` and `=` to `eq`; no other token is an operator.
pub proof fn lemma_operator_codes(op: Seq<char>)
    ensures
        operator_code(seq!['+']) == Some(seq!['a', 'd', 'd', '\n']),
        operator_code(seq!['-']) == Some(seq!['s', 'u', 'b', '\n']),
        operator_code(seq!['*']) == Some(
            seq!['c', 'a', 'l', 'l', ' ', 'M', 'a', 't', 'h', '.', 'm', 'u', 'l', 't', 'i', 'p', 'l', 'y', ' ', '2', '\n'],
        ),
        operator_code(seq!['/']) == Some(
            seq!['c', 'a', 'l', 'l', ' ', 'M', 'a', 't', 'h', '.', 'd', 'i', 'v', 'i', 'd', 'e', ' ', '2', '\n'],
        ),
        operator_code(seq!['&']) == Some(seq!['a', 'n', 'd', '\n']),
        operator_code(seq!['|']) == Some(seq!['o', 'r', '\n']),
        operator_code(seq!['<']) == Some(seq!['l', 't', '\n']),
        operator_code(seq!['>']) == Some(seq!['g', 't', '\n']),
        operator_code(seq!['=']) == Some(seq!['e', 'q', '\n']),
        operator_code(op) is Some <==> (op == seq!['+'] || op == seq!['-'] || op == seq!['*'] || op
            == seq!['/'] || op == seq!['&'] || op == seq!['|'] || op == seq!['<'] || op == seq!['>']
            || op == seq!['=']),
{
    reveal_strlit("+");
    reveal_strlit("-");
    reveal_strlit("*");
    reveal_strlit("/");
    reveal_strlit("&");
    reveal_strlit("|");
    reveal_strlit("<");
    reveal_strlit(">");
    reveal_strlit("=");
    reveal_strlit("Math.multiply");
    reveal_strlit("Math.divide");
    lemma_arithmetic_lines();
    lemma_line_formats(VMSegment::CONSTANT, seq![], "Math.multiply"@, 2);
    lemma_line_formats(VMSegment::CONSTANT, seq![], "Math.divide"@, 2);
    assert(decimal_digits(2) =~= seq!['2']);
    assert(seq!['+'] =~= "+"@);
    assert(seq!['-'] =~= "-"@);
    assert(seq!['*'] =~= "*"@);
    assert(seq!['/'] =~= "/"@);
    assert(seq!['&'] =~= "&"@);
    assert(seq!['|'] =~= "|"@);
    assert(seq!['<'] =~= "<"@);
    assert(seq!['>'] =~= ">"@);
    assert(seq!['='] =~= "="@);
    lemma_one_char_differs('-', '+');
    lemma_one_char_differs('*', '+');
    lemma_one_char_differs('*', '-');
    lemma_one_char_differs('/', '+');
    lemma_one_char_differs('/', '-');
    lemma_one_char_differs('/', '*');
    lemma_one_char_differs('|', '+');
    lemma_one_char_differs('|', '-');
    lemma_one_char_differs('|', '*');
    lemma_one_char_differs('|', '/');
    lemma_one_char_differs('=', '+');
    lemma_one_char_differs('=', '-');
    lemma_one_char_differs('=', '*');
    lemma_one_char_differs('=', '/');
    lemma_one_char_differs('=', '|');
    lemma_one_char_differs('<', '+');
    lemma_one_char_differs('<', '-');
    lemma_one_char_differs('<', '*');
    lemma_one_char_differs('<', '/');
    lemma_one_char_differs('<', '|');
    lemma_one_char_differs('<', '=');
    lemma_one_char_differs('>', '+');
    lemma_one_char_differs('>', '-');
    lemma_one_char_differs('>', '*');
    lemma_one_char_differs('>', '/');
    lemma_one_char_differs('>', '|');
    lemma_one_char_differs('>', '=');
    lemma_one_char_differs('>', '<');
    lemma_one_char_differs('&', '+');
    lemma_one_char_differs('&', '-');
    lemma_one_char_differs('&', '*');
    lemma_one_char_differs('&', '/');
    lemma_one_char_differs('&', '|');
    lemma_one_char_differs('&', '=');
    lemma_one_char_differs('&', '<');
    lemma_one_char_differs('&', '>');
    assert(seq!['a', 'd', 'd'].push('\n') =~= seq!['a', 'd', 'd', '\n']);
    assert(seq!['s', 'u', 'b'].push('\n') =~= seq!['s', 'u', 'b', '\n']);
    assert(seq!['a', 'n', 'd'].push('\n') =~= seq!['a', 'n', 'd', '\n']);
    assert(seq!['o', 'r'].push('\n') =~= seq!['o', 'r', '\n']);
    assert(seq!['l', 't'].push('\n') =~= seq!['l', 't', '\n']);
    assert(seq!['g', 't'].push('\n') =~= seq!['g', 't', '\n']);
    assert(seq!['e', 'q'].push('\n') =~= seq!['e', 'q', '\n']);
    assert(seq!['c', 'a', 'l', 'l', ' '] + "Math.multiply"@ + seq![' '] + seq!['2'] + seq!['\n'] =~= seq![
        'c', 'a', 'l', 'l', ' ', 'M', 'a', 't', 'h', '.', 'm', 'u', 'l', 't', 'i', 'p', 'l', 'y', ' ', '2', '\n',
    ]);
    assert(seq!['c', 'a', 'l', 'l', ' '] + "Math.divide"@ + seq![' '] + seq!['2'] + seq!['\n'] =~= seq![
        'c', 'a', 'l', 'l', ' ', 'M', 'a', 't', 'h', '.', 'd', 'i', 'v', 'i', 'd', 'e', ' ', '2', '\n',
    ]);
}

/// In `do v.f(e1, ..., en);`, `v` a variable of type `T` in scope, the
/// object is pushed first and counts as an argument: the code is the push
/// of `v`, the code of the arguments, `call T.f n+1` and `pop temp 0`. A
/// name that no scope holds is a class: `call v.f n`, nothing pushed
/// before the arguments.
pub proof fn lemma_do_method_call(
    st: State,
    name: Seq<char>,
    info: Option<(Seq<char>, Kind, nat)>,
)
    ensures
        ({
            let s1 = read_token(st).1;
            let s2 = read_token(s1).1;
            let s3 = read_token(s2).1;
            let s4 = match info {
                Some((_, kind, index)) => emit(s3, push_line(segment_of(kind).unwrap(), index)),
                None => s3,
            };
            let s5 = expression_list(s4).1;
            let n: nat = match expression_list(s4).0 {
                Ok(k) => k,
                Err(_) => 0,
            };
            let callee = match info {
                Some((ty, _, _)) => ty + seq!['.'] + s2.token,
                None => name + seq!['.'] + s2.token,
            };
            let args = match info {
                Some(_) => n + 1,
                None => n,
            };
            (read_token(st).0 is Ok && read_token(s1).0 is Ok && read_token(s2).0 is Ok
                && s3.token == seq!['('] && (info matches Some((_, kind, _)) ==> segment_of(
                kind,
            ) is Some) && expression_list(s4).0 is Ok && s5.token == seq![')'])
                ==> do_qualified_call(st, name, info) == (
                Ok::<Seq<char>, crate::compile_model::Failure>(seq![]),
                State {
                    output: s5.output + seq!['c', 'a', 'l', 'l', ' '] + callee + seq![' ']
                        + decimal_digits(args) + seq!['\n'] + seq![
                        'p', 'o', 'p', ' ', 't', 'e', 'm', 'p', ' ', '0', '\n'],
                    ..s5
                },
            )
        }),
{
    reveal_strlit("(");
    reveal_strlit(")");
    reveal_strlit("temp");
    let s1 = read_token(st).1;
    let s2 = read_token(s1).1;
    let s3 = read_token(s2).1;
    let s4 = match info {
        Some((_, kind, index)) => emit(s3, push_line(segment_of(kind).unwrap(), index)),
        None => s3,
    };
    let s5 = expression_list(s4).1;
    let n: nat = match expression_list(s4).0 {
                Ok(k) => k,
                Err(_) => 0,
            };
    let callee = match info {
        Some((ty, _, _)) => ty + seq!['.'] + s2.token,
        None => name + seq!['.'] + s2.token,
    };
    let args: nat = match info {
        Some(_) => n + 1,
        None => n,
    };
    if read_token(st).0 is Ok && read_token(s1).0 is Ok && read_token(s2).0 is Ok && s3.token
        == seq!['('] && (info matches Some((_, kind, _)) ==> segment_of(kind) is Some)
        && expression_list(s4).0 is Ok && s5.token == seq![')'] {
        assert(seq!['('] =~= "("@);
        assert(seq![')'] =~= ")"@);
        assert(do_qualified_call(st, name, info) == (
            Ok::<Seq<char>, crate::compile_model::Failure>(seq![]),
            emit(emit(s5, call_line(callee, args)), pop_line(VMSegment::TEMP, 0)),
        ));
        lemma_call_then_pop(s5, callee, args);
    }
}

/// A call line, then `pop temp 0`, written out.
proof fn lemma_call_then_pop(s: State, callee: Seq<char>, args: nat)
    ensures
        emit(emit(s, call_line(callee, args)), pop_line(VMSegment::TEMP, 0)) == (State {
            output: s.output + seq!['c', 'a', 'l', 'l', ' '] + callee + seq![' '] + decimal_digits(args)
                + seq!['\n'] + seq!['p', 'o', 'p', ' ', 't', 'e', 'm', 'p', ' ', '0', '\n'],
            ..s
        }),
{
    reveal_strlit("temp");
    lemma_line_formats(VMSegment::TEMP, seq![], callee, args);
    lemma_line_formats(VMSegment::TEMP, seq![], callee, 0);
    assert(decimal_digits(0) =~= seq!['0']);
    assert(crate::writer::segment_name(VMSegment::TEMP) =~= seq!['t', 'e', 'm', 'p']);
    assert(s.output + call_line(callee, args) + pop_line(VMSegment::TEMP, 0) =~= s.output + seq![
        'c', 'a', 'l', 'l', ' '] + callee + seq![' '] + decimal_digits(args) + seq!['\n'] + seq![
        'p', 'o', 'p', ' ', 't', 'e', 'm', 'p', ' ', '0', '\n']);
}

/// In `do f(e1, ..., en);` on the current object of class `C`, the object
/// is pushed first and counts as an argument: `push pointer 0`, the code
/// of the arguments, `call C.f n+1` and `pop temp 0`.
#[verifier::spinoff_prover]
#[verifier::rlimit(60)]
pub proof fn lemma_do_local_call(st: State, name: Seq<char>)
    ensures
        ({
            let s1 = read_token(st).1;
            let s2 = emit(s1, seq!['p', 'u', 's', 'h', ' ', 'p', 'o', 'i', 'n', 't', 'e', 'r', ' ', '0', '\n']);
            let s3 = expression_list(s2).1;
            let n: nat = match expression_list(s2).0 {
                Ok(k) => k,
                Err(_) => 0,
            };
            (read_token(st).0 is Ok && expression_list(s2).0 is Ok && s3.token == seq![')'])
                ==> do_local_call(st, name) == (
                Ok::<Seq<char>, crate::compile_model::Failure>(seq![]),
                State {
                    output: s3.output + seq!['c', 'a', 'l', 'l', ' '] + st.class_name + seq!['.'] + name
                        + seq![' '] + decimal_digits(n + 1) + seq!['\n'] + seq![
                        'p', 'o', 'p', ' ', 't', 'e', 'm', 'p', ' ', '0', '\n'],
                    ..s3
                },
            )
        }),
{
    let s1 = read_token(st).1;
    let s2 = emit(s1, push_line(VMSegment::POINTER, 0));
    let s3 = expression_list(s2).1;
    let n: nat = match expression_list(s2).0 {
        Ok(k) => k,
        Err(_) => 0,
    };
    lemma_pointer_push();
    assert(s2 == emit(s1, seq!['p', 'u', 's', 'h', ' ', 'p', 'o', 'i', 'n', 't', 'e', 'r', ' ', '0', '\n']));
    if read_token(st).0 is Ok && expression_list(s2).0 is Ok && s3.token == seq![')'] {
        lemma_class_kept(st, s2);
        let callee = st.class_name + seq!['.'] + name;
        assert(seq![')'] =~= ")"@) by {
            reveal_strlit(")");
        }
        assert(do_local_call(st, name) == (
            Ok::<Seq<char>, crate::compile_model::Failure>(seq![]),
            emit(emit(s3, call_line(callee, n + 1)), pop_line(VMSegment::TEMP, 0)),
        ));
        lemma_call_then_pop(s3, callee, n + 1);
    }
}

/// Reading a token, writing a line and compiling an expression list keep
/// the class name.
proof fn lemma_class_kept(st: State, s2: State)
    requires
        s2 == emit(read_token(st).1, push_line(VMSegment::POINTER, 0)),
    ensures
        expression_list(s2).1.class_name == st.class_name,
{
    lemma_read_token(st);
    lemma_expression_list_grows(s2);
}

/// `push pointer 0`, written out.
proof fn lemma_pointer_push()
    ensures
        push_line(VMSegment::POINTER, 0) == seq!['p', 'u', 's', 'h', ' ', 'p', 'o', 'i', 'n', 't', 'e', 'r', ' ', '0', '\n'],
{
    reveal_strlit("pointer");
    lemma_line_formats(VMSegment::POINTER, seq![], seq![], 0);
    assert(decimal_digits(0) =~= seq!['0']);
    assert(crate::writer::segment_name(VMSegment::POINTER) =~= seq!['p', 'o', 'i', 'n', 't', 'e', 'r']);
    assert(push_line(VMSegment::POINTER, 0) =~= seq!['p', 'u', 's', 'h', ' ', 'p', 'o', 'i', 'n', 't', 'e', 'r', ' ', '0', '\n']);
}

/// The keyword constants and the unary operators compile to fixed VM text:
/// `true` to `push constant 1` and `neg` (all bits set), `false` and
/// `null` to `push constant 0`, `this` to `push pointer 0`; `-t` to the
/// code of `t` and `neg`, `~t` to the code of `t` and `not`.
#[verifier::spinoff_prover]
pub proof fn lemma_term_constants(st: State)
    ensures
        ({
            let s = read_token(st).1;
            read_token(st).0 is Ok && s.token_type == TokenType::Keyword ==> {
                &&& s.token == seq!['t', 'r', 'u', 'e'] ==> term(st) == (
                    Ok::<(), crate::compile_model::Failure>(()),
                    State { output: s.output + seq!['p', 'u', 's', 'h', ' ', 'c', 'o', 'n', 's', 't', 'a', 'n', 't', ' ', '1', '\n', 'n', 'e', 'g', '\n'], ..s },
                )
                &&& (s.token == seq!['f', 'a', 'l', 's', 'e'] || s.token == seq!['n', 'u', 'l', 'l']) ==> term(st) == (
                    Ok::<(), crate::compile_model::Failure>(()),
                    State { output: s.output + seq!['p', 'u', 's', 'h', ' ', 'c', 'o', 'n', 's', 't', 'a', 'n', 't', ' ', '0', '\n'], ..s },
                )
                &&& s.token == seq!['t', 'h', 'i', 's'] ==> term(st) == (
                    Ok::<(), crate::compile_model::Failure>(()),
                    State { output: s.output + seq!['p', 'u', 's', 'h', ' ', 'p', 'o', 'i', 'n', 't', 'e', 'r', ' ', '0', '\n'], ..s },
                )
            }
        }),
        ({
            let s = read_token(st).1;
            let s1 = term(s).1;
            read_token(st).0 is Ok && s.token_type == TokenType::Symbol && term(s).0 is Ok ==> {
                &&& s.token == seq!['-'] ==> term(st) == (
                    Ok::<(), crate::compile_model::Failure>(()),
                    State { output: s1.output + seq!['n', 'e', 'g', '\n'], ..s1 },
                )
                &&& s.token == seq!['~'] ==> term(st) == (
                    Ok::<(), crate::compile_model::Failure>(()),
                    State { output: s1.output + seq!['n', 'o', 't', '\n'], ..s1 },
                )
            }
        }),
{
    reveal_strlit("true");
    reveal_strlit("false");
    reveal_strlit("null");
    reveal_strlit("this");
    reveal_strlit("-");
    reveal_strlit("~");
    reveal_strlit("(");
    reveal_strlit("constant");
    reveal_strlit("pointer");
    lemma_arithmetic_lines();
    lemma_line_formats(VMSegment::CONSTANT, seq![], seq![], 1);
    lemma_line_formats(VMSegment::CONSTANT, seq![], seq![], 0);
    lemma_line_formats(VMSegment::POINTER, seq![], seq![], 0);
    assert(decimal_digits(0) =~= seq!['0']);
    assert(decimal_digits(1) =~= seq!['1']);
    assert(crate::writer::segment_name(VMSegment::CONSTANT) =~= seq!['c', 'o', 'n', 's', 't', 'a', 'n', 't']);
    assert(crate::writer::segment_name(VMSegment::POINTER) =~= seq!['p', 'o', 'i', 'n', 't', 'e', 'r']);
    assert(seq!['t', 'r', 'u', 'e'] =~= "true"@);
    assert(seq!['f', 'a', 'l', 's', 'e'] =~= "false"@);
    assert(seq!['n', 'u', 'l', 'l'] =~= "null"@);
    assert(seq!['t', 'h', 'i', 's'] =~= "this"@);
    assert(seq!['-'] =~= "-"@);
    assert(seq!['~'] =~= "~"@);
    assert(seq!['n', 'u', 'l', 'l'] != seq!['f', 'a', 'l', 's', 'e']) by {
        assert(seq!['n', 'u', 'l', 'l'][0] != seq!['f', 'a', 'l', 's', 'e'][0]);
    }
    assert(seq!['t', 'h', 'i', 's'] != seq!['f', 'a', 'l', 's', 'e'] && seq!['t', 'h', 'i', 's'] != seq!['n', 'u', 'l', 'l']) by {
        assert(seq!['t', 'h', 'i', 's'][0] != seq!['f', 'a', 'l', 's', 'e'][0]);
        assert(seq!['t', 'h', 'i', 's'][0] != seq!['n', 'u', 'l', 'l'][0]);
    }
    assert(seq!['f', 'a', 'l', 's', 'e'] != seq!['t', 'r', 'u', 'e'] && seq!['n', 'u', 'l', 'l'] != seq!['t', 'r', 'u', 'e'] && seq!['t', 'h', 'i', 's'] != seq!['t', 'r', 'u', 'e']) by {
        assert(seq!['f', 'a', 'l', 's', 'e'][0] != seq!['t', 'r', 'u', 'e'][0]);
        assert(seq!['n', 'u', 'l', 'l'][0] != seq!['t', 'r', 'u', 'e'][0]);
        assert(seq!['t', 'h', 'i', 's'][1] != seq!['t', 'r', 'u', 'e'][1]);
    }
    lemma_one_char_differs('-', '(');
    lemma_one_char_differs('~', '(');
    lemma_one_char_differs('~', '-');
    let s = read_token(st).1;
    let s1 = term(s).1;
    assert(s.output + seq!['p', 'u', 's', 'h', ' ', 'c', 'o', 'n', 's', 't', 'a', 'n', 't', ' ', '1', '\n'] + seq!['n', 'e', 'g', '\n'] =~= s.output + seq!['p', 'u', 's', 'h', ' ', 'c', 'o', 'n', 's', 't', 'a', 'n', 't', ' ', '1', '\n', 'n', 'e', 'g', '\n']);
    assert(seq!['p', 'u', 's', 'h', ' '] + seq!['c', 'o', 'n', 's', 't', 'a', 'n', 't'] + seq![' '] + seq!['1'] + seq!['\n'] =~= seq!['p', 'u', 's', 'h', ' ', 'c', 'o', 'n', 's', 't', 'a', 'n', 't', ' ', '1', '\n']);
    assert(seq!['p', 'u', 's', 'h', ' '] + seq!['c', 'o', 'n', 's', 't', 'a', 'n', 't'] + seq![' '] + seq!['0'] + seq!['\n'] =~= seq!['p', 'u', 's', 'h', ' ', 'c', 'o', 'n', 's', 't', 'a', 'n', 't', ' ', '0', '\n']);
    assert(seq!['p', 'u', 's', 'h', ' '] + seq!['p', 'o', 'i', 'n', 't', 'e', 'r'] + seq![' '] + seq!['0'] + seq!['\n'] =~= seq!['p', 'u', 's', 'h', ' ', 'p', 'o', 'i', 'n', 't', 'e', 'r', ' ', '0', '\n']);
    assert(seq!['n', 'e', 'g'].push('\n') =~= seq!['n', 'e', 'g', '\n']);
    assert(seq!['n', 'o', 't'].push('\n') =~= seq!['n', 'o', 't', '\n']);
}

/// A `while` loop compiles to: a fresh label at the top, the code of the
/// condition, `not`, an `if-goto` to a second, later label, the code of the
/// body, a `goto` back to the top label, and the second label.
pub proof fn lemma_while_shape(st: State)
    ensures
        ({
            let (top, s0) = fresh_label(st);
            let s1 = emit(s0, label_line(st.class_name, top));
            let s2 = read_token(s1).1;
            let s3 = expression(s2).1;
            let exit = s3.next_label;
            let s6 = emit(fresh_label(emit(s3, arithmetic_line(Commands::NOT))).1, if_line(st.class_name, exit));
            let s7 = read_token(s6).1;
            let s8 = statements(s7).1;
            (read_token(s1).0 is Ok && s2.token == seq!['('] && expression(s2).0 is Ok && s3.token
                == seq![')'] && read_token(s6).0 is Ok && s7.token == seq!['{'] && statements(s7).0 is Ok
                && s8.token == seq!['}']) ==> {
                &&& while_statement(st).0 is Ok
                &&& top < exit
                &&& while_statement(st).1.output == st.output + label_line(st.class_name, top) + added(
                    s2,
                    s3,
                ) + seq!['n', 'o', 't', '\n'] + if_line(st.class_name, exit) + added(s7, s8) + goto_line(
                    st.class_name,
                    top,
                ) + label_line(st.class_name, exit)
            }
        }),
{
    let (top, s0) = fresh_label(st);
    let s1 = emit(s0, label_line(st.class_name, top));
    let s2 = read_token(s1).1;
    let s3 = expression(s2).1;
    let exit = s3.next_label;
    let s4 = emit(s3, arithmetic_line(Commands::NOT));
    let s6 = emit(fresh_label(s4).1, if_line(st.class_name, exit));
    let s7 = read_token(s6).1;
    let s8 = statements(s7).1;
    if read_token(s1).0 is Ok && s2.token == seq!['('] && expression(s2).0 is Ok && s3.token == seq![')']
        && read_token(s6).0 is Ok && s7.token == seq!['{'] && statements(s7).0 is Ok && s8.token
        == seq!['}'] {
        reveal_strlit("(");
        reveal_strlit(")");
        reveal_strlit("{");
        reveal_strlit("}");
        assert(seq!['('] =~= "("@);
        assert(seq![')'] =~= ")"@);
        assert(seq!['{'] =~= "{"@);
        assert(seq!['}'] =~= "}"@);
        lemma_read_token(s1);
        lemma_expression_grows(s2);
        lemma_read_token(s6);
        lemma_statements_grows(s7);
        lemma_added(s2, s3);
        lemma_added(s7, s8);
        lemma_arithmetic_lines();
        assert(arithmetic_line(Commands::NOT) =~= seq!['n', 'o', 't', '\n']);
        assert(s6.content.len() <= s2.content.len());
        assert(while_statement(st) == (
            Ok::<(), crate::compile_model::Failure>(()),
            emit(emit(s8, goto_line(st.class_name, top)), label_line(st.class_name, exit)),
        ));
        assert(s8.output =~= s7.output + added(s7, s8));
        assert(s7.output =~= s3.output + seq!['n', 'o', 't', '\n'] + if_line(st.class_name, exit));
        assert(s3.output =~= s2.output + added(s2, s3));
        assert(s2.output =~= st.output + label_line(st.class_name, top));
    }
}

/// An `if` statement compiles to: the code of the condition, `not`, an
/// `if-goto` to a second label, the code of the first branch, a `goto` to
/// the first (end) label, then the second label, the code of the `else`
/// branch if there is one, and the end label. The end label is made before
/// the second one.
pub proof fn lemma_if_shape(st: State)
    ensures
        ({
            let (end, s0) = fresh_label(st);
            let s1 = read_token(s0).1;
            let s2 = expression(s1).1;
            let other = s2.next_label;
            let s5 = emit(fresh_label(emit(s2, arithmetic_line(Commands::NOT))).1, if_line(st.class_name, other));
            let s6 = read_token(s5).1;
            let s7 = statements(s6).1;
            let s8 = emit(s7, goto_line(st.class_name, end));
            let front = st.output + added(s1, s2) + seq!['n', 'o', 't', '\n'] + if_line(
                st.class_name,
                other,
            ) + added(s6, s7) + goto_line(st.class_name, end) + label_line(st.class_name, other);
            let e1 = emit(s8, label_line(st.class_name, other));
            let e2 = read_token(e1).1;
            let e3 = read_token(e2).1;
            let e4 = statements(e3).1;
            (read_token(s0).0 is Ok && s1.token == seq!['('] && expression(s1).0 is Ok && s2.token
                == seq![')'] && read_token(s5).0 is Ok && s6.token == seq!['{'] && statements(s6).0 is Ok
                && s7.token == seq!['}']) ==> {
                &&& end < other
                &&& !starts_with(s8.content, seq!['e', 'l', 's', 'e']) ==> if_statement(st).0 is Ok
                    && if_statement(st).1.output == front + label_line(st.class_name, end)
                &&& (starts_with(s8.content, seq!['e', 'l', 's', 'e']) && read_token(e1).0 is Ok
                    && read_token(e2).0 is Ok && e3.token == seq!['{'] && statements(e3).0 is Ok
                    && e4.token == seq!['}']) ==> if_statement(st).0 is Ok && if_statement(st).1.output
                    == front + added(e3, e4) + label_line(st.class_name, end)
            }
        }),
{
    let (end, s0) = fresh_label(st);
    let s1 = read_token(s0).1;
    let s2 = expression(s1).1;
    let other = s2.next_label;
    let s4 = fresh_label(emit(s2, arithmetic_line(Commands::NOT))).1;
    let s5 = emit(s4, if_line(st.class_name, other));
    let s6 = read_token(s5).1;
    let s7 = statements(s6).1;
    let s8 = emit(s7, goto_line(st.class_name, end));
    let e1 = emit(s8, label_line(st.class_name, other));
    let e2 = read_token(e1).1;
    let e3 = read_token(e2).1;
    let e4 = statements(e3).1;
    if read_token(s0).0 is Ok && s1.token == seq!['('] && expression(s1).0 is Ok && s2.token == seq![')']
        && read_token(s5).0 is Ok && s6.token == seq!['{'] && statements(s6).0 is Ok && s7.token
        == seq!['}'] {
        reveal_strlit("(");
        reveal_strlit(")");
        reveal_strlit("{");
        reveal_strlit("}");
        reveal_strlit("else");
        assert(seq!['('] =~= "("@);
        assert(seq![')'] =~= ")"@);
        assert(seq!['{'] =~= "{"@);
        assert(seq!['}'] =~= "}"@);
        assert(seq!['e', 'l', 's', 'e'] =~= "else"@);
        lemma_read_token(s0);
        lemma_expression_grows(s1);
        lemma_read_token(s5);
        lemma_statements_grows(s6);
        lemma_added(s1, s2);
        lemma_added(s6, s7);
        lemma_arithmetic_lines();
        assert(arithmetic_line(Commands::NOT) =~= seq!['n', 'o', 't', '\n']);
        assert(s5.content.len() <= s1.content.len());
        assert(s8.content.len() < st.content.len());
        assert(s7.output =~= s6.output + added(s6, s7));
        assert(s6.output =~= s2.output + seq!['n', 'o', 't', '\n'] + if_line(st.class_name, other));
        assert(s2.output =~= st.output + added(s1, s2));
        let front = st.output + added(s1, s2) + seq!['n', 'o', 't', '\n'] + if_line(st.class_name, other)
            + added(s6, s7) + goto_line(st.class_name, end) + label_line(st.class_name, other);
        if !starts_with(s8.content, seq!['e', 'l', 's', 'e']) {
            assert(if_statement(st) == (
                Ok::<(), crate::compile_model::Failure>(()),
                emit(emit(s8, label_line(st.class_name, other)), label_line(st.class_name, end)),
            ));
        }
        if starts_with(s8.content, seq!['e', 'l', 's', 'e']) && read_token(e1).0 is Ok
            && read_token(e2).0 is Ok && e3.token == seq!['{'] && statements(e3).0 is Ok && e4.token
            == seq!['}'] {
            lemma_read_token(e1);
            lemma_read_token(e2);
            lemma_statements_grows(e3);
            lemma_added(e3, e4);
            assert(if_statement(st) == else_branch(s8, other, end));
            assert(else_branch(s8, other, end) == (
                Ok::<(), crate::compile_model::Failure>(()),
                emit(e4, label_line(st.class_name, end)),
            ));
            assert(e4.output =~= e3.output + added(e3, e4));
            assert(e3.output =~= front);
        }
    }
}

/// Reading `a[i]` compiles to the code of `i`, the push of `a`, `add`,
/// `pop pointer 1` and `push that 0`.
pub proof fn lemma_array_read_shape(st: State, ty: Seq<char>, kind: Kind, index: nat)
    ensures
        ({
            let s1 = read_token(st).1;
            let s2 = expression(s1).1;
            (read_token(st).0 is Ok && expression(s1).0 is Ok && s2.token == seq![']'] && segment_of(
                kind,
            ) is Some) ==> array_element(st, Some((ty, kind, index))) == (
                Ok::<Seq<char>, crate::compile_model::Failure>(seq![]),
                State {
                    output: s1.output + added(s1, s2) + push_line(segment_of(kind).unwrap(), index)
                        + seq!['a', 'd', 'd', '\n'] + seq!['p', 'o', 'p', ' ', 'p', 'o', 'i', 'n', 't', 'e', 'r', ' ', '1', '\n']
                        + seq!['p', 'u', 's', 'h', ' ', 't', 'h', 'a', 't', ' ', '0', '\n'],
                    ..s2
                },
            )
        }),
{
    let s1 = read_token(st).1;
    let s2 = expression(s1).1;
    if read_token(st).0 is Ok && expression(s1).0 is Ok && s2.token == seq![']'] && segment_of(kind) is Some {
        reveal_strlit("]");
        assert(seq![']'] =~= "]"@);
        lemma_expression_grows(s1);
        lemma_added(s1, s2);
        lemma_pointer_that_lines();
        lemma_arithmetic_lines();
        assert(arithmetic_line(Commands::ADD) =~= seq!['a', 'd', 'd', '\n']);
        let seg = segment_of(kind).unwrap();
        assert(array_element(st, Some((ty, kind, index))) == (
            Ok::<Seq<char>, crate::compile_model::Failure>(seq![]),
            emit(
                emit(emit(emit(s2, push_line(seg, index)), arithmetic_line(Commands::ADD)), pop_line(VMSegment::POINTER, 1)),
                push_line(VMSegment::THAT, 0),
            ),
        ));
        assert(s2.output + push_line(seg, index) + arithmetic_line(Commands::ADD) + pop_line(VMSegment::POINTER, 1)
            + push_line(VMSegment::THAT, 0) =~= s1.output + added(s1, s2) + push_line(seg, index)
            + seq!['a', 'd', 'd', '\n'] + seq!['p', 'o', 'p', ' ', 'p', 'o', 'i', 'n', 't', 'e', 'r', ' ', '1', '\n']
            + seq!['p', 'u', 's', 'h', ' ', 't', 'h', 'a', 't', ' ', '0', '\n']);
    }
}

/// Storing into `a[i]` (from the `[` on) compiles to the code of `i`, the
/// push of `a`, `add`, the code of the value, then `pop temp 0`, `pop
/// pointer 1`, `push temp 0` and `pop that 0`: the address is computed
/// first and the value stored through `that`.
pub proof fn lemma_array_store_shape(st: State, kind: Kind, index: nat)
    ensures
        ({
            let s1 = expression(st).1;
            let s3 = emit(emit(s1, push_line(segment_of(kind).unwrap(), index)), arithmetic_line(Commands::ADD));
            let s4 = read_token(s3).1;
            let s5 = expression(s4).1;
            (expression(st).0 is Ok && s1.token == seq![']'] && segment_of(kind) is Some && read_token(
                s3,
            ).0 is Ok && s4.token == seq!['='] && expression(s4).0 is Ok && s5.token == seq![';'])
                ==> let_index(st, kind, index) == (
                Ok::<(), crate::compile_model::Failure>(()),
                State {
                    output: st.output + added(st, s1) + push_line(segment_of(kind).unwrap(), index) + seq![
                        'a', 'd', 'd', '\n'] + added(s4, s5) + seq!['p', 'o', 'p', ' ', 't', 'e', 'm', 'p', ' ', '0', '\n']
                        + seq!['p', 'o', 'p', ' ', 'p', 'o', 'i', 'n', 't', 'e', 'r', ' ', '1', '\n']
                        + seq!['p', 'u', 's', 'h', ' ', 't', 'e', 'm', 'p', ' ', '0', '\n']
                        + seq!['p', 'o', 'p', ' ', 't', 'h', 'a', 't', ' ', '0', '\n'],
                    ..s5
                },
            )
        }),
{
    let s1 = expression(st).1;
    let seg = segment_of(kind).unwrap();
    let s3 = emit(emit(s1, push_line(seg, index)), arithmetic_line(Commands::ADD));
    let s4 = read_token(s3).1;
    let s5 = expression(s4).1;
    if expression(st).0 is Ok && s1.token == seq![']'] && segment_of(kind) is Some && read_token(s3).0 is Ok
        && s4.token == seq!['='] && expression(s4).0 is Ok && s5.token == seq![';'] {
        reveal_strlit("]");
        reveal_strlit("=");
        reveal_strlit(";");
        assert(seq![']'] =~= "]"@);
        assert(seq!['='] =~= "="@);
        assert(seq![';'] =~= ";"@);
        lemma_expression_grows(st);
        lemma_added(st, s1);
        lemma_read_token(s3);
        lemma_expression_grows(s4);
        lemma_added(s4, s5);
        lemma_pointer_that_lines();
        lemma_arithmetic_lines();
        assert(arithmetic_line(Commands::ADD) =~= seq!['a', 'd', 'd', '\n']);
        assert(let_index(st, kind, index) == (
            Ok::<(), crate::compile_model::Failure>(()),
            emit(
                emit(emit(emit(s5, pop_line(VMSegment::TEMP, 0)), pop_line(VMSegment::POINTER, 1)), push_line(VMSegment::TEMP, 0)),
                pop_line(VMSegment::THAT, 0),
            ),
        ));
        assert(s5.output =~= s4.output + added(s4, s5));
        assert(s4.output =~= st.output + added(st, s1) + push_line(seg, index) + seq!['a', 'd', 'd', '\n']);
    }
}

/// The lines that reach an array element through `that`, written out.
proof fn lemma_pointer_that_lines()
    ensures
        pop_line(VMSegment::POINTER, 1) == seq!['p', 'o', 'p', ' ', 'p', 'o', 'i', 'n', 't', 'e', 'r', ' ', '1', '\n'],
        push_line(VMSegment::THAT, 0) == seq!['p', 'u', 's', 'h', ' ', 't', 'h', 'a', 't', ' ', '0', '\n'],
        pop_line(VMSegment::THAT, 0) == seq!['p', 'o', 'p', ' ', 't', 'h', 'a', 't', ' ', '0', '\n'],
        pop_line(VMSegment::TEMP, 0) == seq!['p', 'o', 'p', ' ', 't', 'e', 'm', 'p', ' ', '0', '\n'],
        push_line(VMSegment::TEMP, 0) == seq!['p', 'u', 's', 'h', ' ', 't', 'e', 'm', 'p', ' ', '0', '\n'],
{
    reveal_strlit("pointer");
    reveal_strlit("that");
    reveal_strlit("temp");
    lemma_line_formats(VMSegment::POINTER, seq![], seq![], 1);
    lemma_line_formats(VMSegment::THAT, seq![], seq![], 0);
    lemma_line_formats(VMSegment::TEMP, seq![], seq![], 0);
    assert(decimal_digits(0) =~= seq!['0']);
    assert(decimal_digits(1) =~= seq!['1']);
    assert(crate::writer::segment_name(VMSegment::POINTER) =~= seq!['p', 'o', 'i', 'n', 't', 'e', 'r']);
    assert(crate::writer::segment_name(VMSegment::THAT) =~= seq!['t', 'h', 'a', 't']);
    assert(crate::writer::segment_name(VMSegment::TEMP) =~= seq!['t', 'e', 'm', 'p']);
    assert(pop_line(VMSegment::POINTER, 1) =~= seq!['p', 'o', 'p', ' ', 'p', 'o', 'i', 'n', 't', 'e', 'r', ' ', '1', '\n']);
    assert(push_line(VMSegment::THAT, 0) =~= seq!['p', 'u', 's', 'h', ' ', 't', 'h', 'a', 't', ' ', '0', '\n']);
    assert(pop_line(VMSegment::THAT, 0) =~= seq!['p', 'o', 'p', ' ', 't', 'h', 'a', 't', ' ', '0', '\n']);
    assert(pop_line(VMSegment::TEMP, 0) =~= seq!['p', 'o', 'p', ' ', 't', 'e', 'm', 'p', ' ', '0', '\n']);
    assert(push_line(VMSegment::TEMP, 0) =~= seq!['p', 'u', 's', 'h', ' ', 't', 'e', 'm', 'p', ' ', '0', '\n']);
}

/// Setting up `this` at the start of a subroutine: a constructor allocates
/// as many words as the class has fields (`push constant n`, `call
/// Memory.alloc 1`) and points `this` at them (`pop pointer 0`); a method
/// points `this` at its hidden argument (`push argument i`, `pop pointer
/// 0`); a function does nothing.
pub proof fn lemma_this_setup_lines(st: State)
    ensures
        this_setup(st, true, false) == (State {
            output: st.output + seq!['p', 'u', 's', 'h', ' ', 'c', 'o', 'n', 's', 't', 'a', 'n', 't', ' '] + decimal_digits(st.class_scope.fields)
                + seq!['\n', 'c', 'a', 'l', 'l', ' ', 'M', 'e', 'm', 'o', 'r', 'y', '.', 'a', 'l', 'l', 'o', 'c', ' ', '1', '\n', 'p', 'o', 'p', ' ', 'p', 'o', 'i', 'n', 't', 'e', 'r', ' ', '0', '\n'],
            ..st
        }),
        st.sub_scope.symbols.contains_key(seq!['t', 'h', 'i', 's']) ==> this_setup(st, false, false) == (State {
            output: st.output + seq!['p', 'u', 's', 'h', ' ', 'a', 'r', 'g', 'u', 'm', 'e', 'n', 't', ' '] + decimal_digits(st.sub_scope.symbols[seq!['t', 'h', 'i', 's']].2)
                + seq!['\n', 'p', 'o', 'p', ' ', 'p', 'o', 'i', 'n', 't', 'e', 'r', ' ', '0', '\n'],
            ..st
        }),
        !st.sub_scope.symbols.contains_key(seq!['t', 'h', 'i', 's']) ==> this_setup(st, false, true) == st,
{
    reveal_strlit("this");
    reveal_strlit("constant");
    reveal_strlit("argument");
    reveal_strlit("Memory.alloc");
    reveal_strlit("pointer");
    assert(seq!['t', 'h', 'i', 's'] =~= "this"@);
    lemma_pointer_push();
    lemma_line_formats(VMSegment::CONSTANT, seq![], "Memory.alloc"@, 1);
    lemma_line_formats(VMSegment::ARGUMENT, seq![], seq![], 0);
    lemma_line_formats(VMSegment::POINTER, seq![], seq![], 0);
    lemma_line_formats(VMSegment::CONSTANT, seq![], seq![], st.class_scope.fields);
    assert(decimal_digits(0) =~= seq!['0']);
    assert(decimal_digits(1) =~= seq!['1']);
    assert(crate::writer::segment_name(VMSegment::CONSTANT) =~= seq!['c', 'o', 'n', 's', 't', 'a', 'n', 't']);
    assert(crate::writer::segment_name(VMSegment::ARGUMENT) =~= seq!['a', 'r', 'g', 'u', 'm', 'e', 'n', 't']);
    assert(crate::writer::segment_name(VMSegment::POINTER) =~= seq!['p', 'o', 'i', 'n', 't', 'e', 'r']);
    assert(pop_line(VMSegment::POINTER, 0) =~= seq!['p', 'o', 'p', ' ', 'p', 'o', 'i', 'n', 't', 'e', 'r', ' ', '0', '\n']);
    assert(call_line("Memory.alloc"@, 1) =~= seq!['c', 'a', 'l', 'l', ' ', 'M', 'e', 'm', 'o', 'r', 'y', '.', 'a', 'l', 'l', 'o', 'c', ' ', '1', '\n']);
    let n = st.class_scope.fields;
    assert(st.output + push_line(VMSegment::CONSTANT, n) + call_line("Memory.alloc"@, 1) + pop_line(
        VMSegment::POINTER,
        0,
    ) =~= st.output + seq!['p', 'u', 's', 'h', ' ', 'c', 'o', 'n', 's', 't', 'a', 'n', 't', ' '] + decimal_digits(n) + seq!['\n', 'c', 'a', 'l', 'l', ' ', 'M', 'e', 'm', 'o', 'r', 'y', '.', 'a', 'l', 'l', 'o', 'c', ' ', '1', '\n', 'p', 'o', 'p', ' ', 'p', 'o', 'i', 'n', 't', 'e', 'r', ' ', '0', '\n']);
    if st.sub_scope.symbols.contains_key(seq!['t', 'h', 'i', 's']) {
        let i = st.sub_scope.symbols[seq!['t', 'h', 'i', 's']].2;
        lemma_line_formats(VMSegment::ARGUMENT, seq![], seq![], i);
        assert(st.output + push_line(VMSegment::ARGUMENT, i) + pop_line(VMSegment::POINTER, 0) =~= st.output
            + seq!['p', 'u', 's', 'h', ' ', 'a', 'r', 'g', 'u', 'm', 'e', 'n', 't', ' '] + decimal_digits(i) + seq!['\n', 'p', 'o', 'p', ' ', 'p', 'o', 'i', 'n', 't', 'e', 'r', ' ', '0', '\n']);
    }
}

/// A string constant compiles to `push constant n` with `n` the length of
/// its text in UTF-8 bytes, `call String.new 1`, and, for each character
/// in order, `push constant` of its code and `call String.appendChar 2`.
pub proof fn lemma_string_constant_lines(token: Seq<char>, cs: Seq<char>, c: char)
    ensures
        string_constant_code(token) == seq!['p', 'u', 's', 'h', ' ', 'c', 'o', 'n', 's', 't', 'a', 'n', 't', ' '] + decimal_digits(
            vstd::utf8::encode_utf8(trim_matches(token, seq!['"'])).len(),
        ) + seq!['\n', 'c', 'a', 'l', 'l', ' ', 'S', 't', 'r', 'i', 'n', 'g', '.', 'n', 'e', 'w', ' ', '1', '\n'] + append_chars_code(trim_matches(token, seq!['"'])),
        append_chars_code(seq![]) == Seq::<char>::empty(),
        append_chars_code(cs.push(c)) == append_chars_code(cs) + seq!['p', 'u', 's', 'h', ' ', 'c', 'o', 'n', 's', 't', 'a', 'n', 't', ' '] + decimal_digits(
            c as u32 as nat,
        ) + seq!['\n', 'c', 'a', 'l', 'l', ' ', 'S', 't', 'r', 'i', 'n', 'g', '.', 'a', 'p', 'p', 'e', 'n', 'd', 'C', 'h', 'a', 'r', ' ', '2', '\n'],
{
    reveal_strlit("constant");
    reveal_strlit("String.new");
    reveal_strlit("String.appendChar");
    let text = trim_matches(token, seq!['"']);
    let n = vstd::utf8::encode_utf8(text).len();
    lemma_line_formats(VMSegment::CONSTANT, seq![], "String.new"@, n);
    lemma_line_formats(VMSegment::CONSTANT, seq![], "String.new"@, 1);
    lemma_line_formats(VMSegment::CONSTANT, seq![], "String.appendChar"@, c as u32 as nat);
    lemma_line_formats(VMSegment::CONSTANT, seq![], "String.appendChar"@, 2);
    assert(decimal_digits(1) =~= seq!['1']);
    assert(decimal_digits(2) =~= seq!['2']);
    assert(crate::writer::segment_name(VMSegment::CONSTANT) =~= seq!['c', 'o', 'n', 's', 't', 'a', 'n', 't']);
    assert(call_line("String.new"@, 1) =~= seq!['c', 'a', 'l', 'l', ' ', 'S', 't', 'r', 'i', 'n', 'g', '.', 'n', 'e', 'w', ' ', '1', '\n']);
    assert(call_line("String.appendChar"@, 2) =~= seq!['c', 'a', 'l', 'l', ' ', 'S', 't', 'r', 'i', 'n', 'g', '.', 'a', 'p', 'p', 'e', 'n', 'd', 'C', 'h', 'a', 'r', ' ', '2', '\n']);
    assert(string_constant_code(token) =~= seq!['p', 'u', 's', 'h', ' ', 'c', 'o', 'n', 's', 't', 'a', 'n', 't', ' '] + decimal_digits(n) + seq!['\n', 'c', 'a', 'l', 'l', ' ', 'S', 't', 'r', 'i', 'n', 'g', '.', 'n', 'e', 'w', ' ', '1', '\n'] + append_chars_code(text));
    assert(cs.push(c).drop_last() =~= cs);
    let d = decimal_digits(c as u32 as nat);
    assert(append_chars_code(cs.push(c)) =~= append_chars_code(cs) + seq!['p', 'u', 's', 'h', ' ', 'c', 'o', 'n', 's', 't', 'a', 'n', 't', ' '] + d + seq!['\n', 'c', 'a', 'l', 'l', ' ', 'S', 't', 'r', 'i', 'n', 'g', '.', 'a', 'p', 'p', 'e', 'n', 'd', 'C', 'h', 'a', 'r', ' ', '2', '\n']);
}

/// Variables live in the segment of their kind: statics in `static`,
/// arguments in `argument`, locals in `local`, fields in `this`; a name of
/// no kind is pushed and popped nowhere.
pub proof fn lemma_variable_segments(st: State, i: nat)
    ensures
        push_variable(st, Kind::STATIC, i) == (true, State { output: st.output + seq!['p', 'u', 's', 'h', ' ', 's', 't', 'a', 't', 'i', 'c', ' '] + decimal_digits(i) + seq!['\n'], ..st }),
        pop_variable(st, Kind::STATIC, i) == (true, State { output: st.output + seq!['p', 'o', 'p', ' ', 's', 't', 'a', 't', 'i', 'c', ' '] + decimal_digits(i) + seq!['\n'], ..st }),
        push_variable(st, Kind::ARG, i) == (true, State { output: st.output + seq!['p', 'u', 's', 'h', ' ', 'a', 'r', 'g', 'u', 'm', 'e', 'n', 't', ' '] + decimal_digits(i) + seq!['\n'], ..st }),
        pop_variable(st, Kind::ARG, i) == (true, State { output: st.output + seq!['p', 'o', 'p', ' ', 'a', 'r', 'g', 'u', 'm', 'e', 'n', 't', ' '] + decimal_digits(i) + seq!['\n'], ..st }),
        push_variable(st, Kind::LOCAL, i) == (true, State { output: st.output + seq!['p', 'u', 's', 'h', ' ', 'l', 'o', 'c', 'a', 'l', ' '] + decimal_digits(i) + seq!['\n'], ..st }),
        pop_variable(st, Kind::LOCAL, i) == (true, State { output: st.output + seq!['p', 'o', 'p', ' ', 'l', 'o', 'c', 'a', 'l', ' '] + decimal_digits(i) + seq!['\n'], ..st }),
        push_variable(st, Kind::THIS, i) == (true, State { output: st.output + seq!['p', 'u', 's', 'h', ' ', 't', 'h', 'i', 's', ' '] + decimal_digits(i) + seq!['\n'], ..st }),
        pop_variable(st, Kind::THIS, i) == (true, State { output: st.output + seq!['p', 'o', 'p', ' ', 't', 'h', 'i', 's', ' '] + decimal_digits(i) + seq!['\n'], ..st }),
        push_variable(st, Kind::NONE, i) == (false, st),
        pop_variable(st, Kind::NONE, i) == (false, st),
{
    reveal_strlit("static");
    reveal_strlit("argument");
    reveal_strlit("local");
    reveal_strlit("this");
    lemma_line_formats(VMSegment::STATIC, seq![], seq![], i);
    assert(crate::writer::segment_name(VMSegment::STATIC) =~= seq!['s', 't', 'a', 't', 'i', 'c']);
    assert(st.output + push_line(VMSegment::STATIC, i) =~= st.output + seq!['p', 'u', 's', 'h', ' ', 's', 't', 'a', 't', 'i', 'c', ' '] + decimal_digits(i) + seq!['\n']);
    assert(st.output + pop_line(VMSegment::STATIC, i) =~= st.output + seq!['p', 'o', 'p', ' ', 's', 't', 'a', 't', 'i', 'c', ' '] + decimal_digits(i) + seq!['\n']);
    lemma_line_formats(VMSegment::ARGUMENT, seq![], seq![], i);
    assert(crate::writer::segment_name(VMSegment::ARGUMENT) =~= seq!['a', 'r', 'g', 'u', 'm', 'e', 'n', 't']);
    assert(st.output + push_line(VMSegment::ARGUMENT, i) =~= st.output + seq!['p', 'u', 's', 'h', ' ', 'a', 'r', 'g', 'u', 'm', 'e', 'n', 't', ' '] + decimal_digits(i) + seq!['\n']);
    assert(st.output + pop_line(VMSegment::ARGUMENT, i) =~= st.output + seq!['p', 'o', 'p', ' ', 'a', 'r', 'g', 'u', 'm', 'e', 'n', 't', ' '] + decimal_digits(i) + seq!['\n']);
    lemma_line_formats(VMSegment::LOCAL, seq![], seq![], i);
    assert(crate::writer::segment_name(VMSegment::LOCAL) =~= seq!['l', 'o', 'c', 'a', 'l']);
    assert(st.output + push_line(VMSegment::LOCAL, i) =~= st.output + seq!['p', 'u', 's', 'h', ' ', 'l', 'o', 'c', 'a', 'l', ' '] + decimal_digits(i) + seq!['\n']);
    assert(st.output + pop_line(VMSegment::LOCAL, i) =~= st.output + seq!['p', 'o', 'p', ' ', 'l', 'o', 'c', 'a', 'l', ' '] + decimal_digits(i) + seq!['\n']);
    lemma_line_formats(VMSegment::THIS, seq![], seq![], i);
    assert(crate::writer::segment_name(VMSegment::THIS) =~= seq!['t', 'h', 'i', 's']);
    assert(st.output + push_line(VMSegment::THIS, i) =~= st.output + seq!['p', 'u', 's', 'h', ' ', 't', 'h', 'i', 's', ' '] + decimal_digits(i) + seq!['\n']);
    assert(st.output + pop_line(VMSegment::THIS, i) =~= st.output + seq!['p', 'o', 'p', ' ', 't', 'h', 'i', 's', ' '] + decimal_digits(i) + seq!['\n']);
}

/// The count of a call's arguments: an empty list `()` counts none and
/// writes nothing; a list counts its first expression, then one more for
/// each expression after a `,`, up to the `)`.
pub proof fn lemma_argument_count(st: State, n: nat)
    ensures
        starts_with(st.content, seq![')']) && read_token(st).0 is Ok ==> expression_list(st) == (
            Ok::<nat, crate::compile_model::Failure>(0),
            read_token(st).1,
        ) && read_token(st).1.output == st.output,
        (!starts_with(st.content, seq![')']) && expression(st).0 is Ok && expression(st).1.content.len()
            < st.content.len()) ==> expression_list(st) == expression_list_rest(expression(st).1, 1),
        st.token == seq![')'] ==> expression_list_rest(st, n) == (
            Ok::<nat, crate::compile_model::Failure>(n),
            st,
        ),
        (st.token == seq![','] && expression(st).0 is Ok && expression(st).1.content.len()
            < st.content.len()) ==> expression_list_rest(st, n) == expression_list_rest(
            expression(st).1,
            n + 1,
        ),
{
    reveal_strlit(")");
    reveal_strlit(",");
    assert(seq![')'] =~= ")"@);
    assert(seq![','] =~= ","@);
    lemma_one_char_differs(',', ')');
    lemma_read_token(st);
}

/// A subroutine compiles to `function C.f n`, `n` the number of local
/// variables its `var` declarations define, then the setting of `this`
/// (for a constructor, a method or a function), then the code of its
/// body. A method's `this` is defined as an argument ahead of the
/// parameters.
#[verifier::spinoff_prover]
#[verifier::rlimit(80)]
pub proof fn lemma_subroutine_shape(st: State)
    ensures
        ({
            let t = st.token;
            let is_method = t == seq!['m', 'e', 't', 'h', 'o', 'd'];
            let s0 = if is_method {
                State {
                    sub_scope: match define_in(st.sub_scope, seq!['t', 'h', 'i', 's'], st.class_name, Kind::ARG) {
                    Ok(sc) => sc,
                    Err(_) => st.sub_scope,
                },
                    ..st
                }
            } else {
                st
            };
            let s1 = read_token(s0).1;
            let s2 = read_token(s1).1;
            let s3 = read_token(s2).1;
            let s4 = parameter_list(s3).1;
            let s5 = read_token(s4).1;
            let locals: nat = match variable_declarations(s5, 0).0 {
                Ok(k) => k,
                Err(_) => 0,
            };
            let s6 = variable_declarations(s5, 0).1;
            let s7 = emit(s6, function_line(st.class_name, s2.token, locals));
            let s8 = this_setup(s7, t == seq!['c', 'o', 'n', 's', 't', 'r', 'u', 'c', 't', 'o', 'r'], t == seq!['f', 'u', 'n', 'c', 't', 'i', 'o', 'n']);
            let s9 = statements(s8).1;
            ((is_method ==> define_in(st.sub_scope, seq!['t', 'h', 'i', 's'], st.class_name, Kind::ARG) is Ok)
                && read_token(s0).0 is Ok && read_token(s1).0 is Ok && read_token(s2).0 is Ok
                && s3.token == seq!['('] && parameter_list(s3).0 is Ok && s4.token == seq![')']
                && read_token(s4).0 is Ok && s5.token == seq!['{'] && variable_declarations(s5, 0).0 is Ok
                && statements(s8).0 is Ok && s9.token == seq!['}']) ==> {
                &&& subroutine(st).0 is Ok
                &&& subroutine(st).1.output == st.output + function_line(st.class_name, s2.token, locals)
                    + added(s7, s8) + added(s8, s9)
                &&& s6.sub_scope.locals == s5.sub_scope.locals + locals
                &&& is_method ==> s0.sub_scope.symbols[seq!['t', 'h', 'i', 's']] == (st.class_name, Kind::ARG, st.sub_scope.args)
            }
        }),
{
    reveal_strlit("method");
    reveal_strlit("this");
    reveal_strlit("constructor");
    reveal_strlit("function");
    reveal_strlit("(");
    reveal_strlit(")");
    reveal_strlit("{");
    reveal_strlit("}");
    assert(seq!['m', 'e', 't', 'h', 'o', 'd'] =~= "method"@);
    assert(seq!['t', 'h', 'i', 's'] =~= "this"@);
    assert(seq!['c', 'o', 'n', 's', 't', 'r', 'u', 'c', 't', 'o', 'r'] =~= "constructor"@);
    assert(seq!['f', 'u', 'n', 'c', 't', 'i', 'o', 'n'] =~= "function"@);
    assert(seq!['('] =~= "("@);
    assert(seq![')'] =~= ")"@);
    assert(seq!['{'] =~= "{"@);
    assert(seq!['}'] =~= "}"@);
    let t = st.token;
    let is_method = t == seq!['m', 'e', 't', 'h', 'o', 'd'];
    let s0 = if is_method {
        State { sub_scope: match define_in(st.sub_scope, seq!['t', 'h', 'i', 's'], st.class_name, Kind::ARG) {
                    Ok(sc) => sc,
                    Err(_) => st.sub_scope,
                }, ..st }
    } else {
        st
    };
    let s1 = read_token(s0).1;
    let s2 = read_token(s1).1;
    let s3 = read_token(s2).1;
    let s4 = parameter_list(s3).1;
    let s5 = read_token(s4).1;
    let locals: nat = match variable_declarations(s5, 0).0 {
                Ok(k) => k,
                Err(_) => 0,
            };
    let s6 = variable_declarations(s5, 0).1;
    let s7 = emit(s6, function_line(st.class_name, s2.token, locals));
    let s8 = this_setup(s7, t == seq!['c', 'o', 'n', 's', 't', 'r', 'u', 'c', 't', 'o', 'r'], t == seq!['f', 'u', 'n', 'c', 't', 'i', 'o', 'n']);
    let s9 = statements(s8).1;
    if (is_method ==> define_in(st.sub_scope, seq!['t', 'h', 'i', 's'], st.class_name, Kind::ARG) is Ok)
        && read_token(s0).0 is Ok && read_token(s1).0 is Ok && read_token(s2).0 is Ok && s3.token
        == seq!['('] && parameter_list(s3).0 is Ok && s4.token == seq![')'] && read_token(s4).0 is Ok
        && s5.token == seq!['{'] && variable_declarations(s5, 0).0 is Ok && statements(s8).0 is Ok
        && s9.token == seq!['}'] {
        lemma_read_token(s0);
        lemma_read_token(s1);
        lemma_read_token(s2);
        lemma_read_token(s3);
        lemma_parameters_keep(read_token(s3).1, 0);
        lemma_read_token(s4);
        lemma_variable_declarations_keep(s5, 0);
        lemma_variable_declarations_count(s5, 0);
        assert(s6.class_name == st.class_name);
        assert(s6.output == st.output);
        lemma_this_setup_grows(s7, t == seq!['c', 'o', 'n', 's', 't', 'r', 'u', 'c', 't', 'o', 'r'], t == seq!['f', 'u', 'n', 'c', 't', 'i', 'o', 'n']);
        lemma_statements_grows(s8);
        lemma_added(s7, s8);
        lemma_added(s8, s9);
        assert(subroutine(st) == (Ok::<(), crate::compile_model::Failure>(()), s9));
        assert(s9.output =~= st.output + function_line(st.class_name, s2.token, locals) + added(s7, s8)
            + added(s8, s9));
    }
}

/// Setting up `this` only adds code.
proof fn lemma_this_setup_grows(st: State, is_constructor: bool, is_function: bool)
    ensures
        grows(st, this_setup(st, is_constructor, is_function)),
{
    broadcast use crate::text::group_extends;

    let s = this_setup(st, is_constructor, is_function);
    assert(s.content == st.content);
}

} // verus!
