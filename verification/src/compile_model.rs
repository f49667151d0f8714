use vstd::prelude::*;

use crate::compile::Construct;
use crate::numbers::{all_digits, decimal, is_digit, parse_usize};
use crate::symbol::{define_in, empty_scope, Kind, Scope, SymbolError};
use crate::text::{extends, is_white, lead_len, lemma_lead_len_skip, starts_with, trim_matches, trim_start, white};
use crate::tokenizer::{
    ascii_ident_char, ascii_letter, consume, jack_keywords, jack_symbols, lemma_one_byte,
    lemma_scan_identifier, lemma_scan_digits, lemma_scan_progress, lemma_scan_symbol,
    lemma_trim_start_len, scan, scan_error, TokenType, TokenizeError,
};
use crate::writer::{
    arithmetic_line, call_line, function_line, goto_line, if_line, label_line, pop_line, push_line,
    return_line, Commands, VMSegment, VmWriteError,
};

verus! {

broadcast use crate::text::group_extends;

/// Why compiling stopped, as a value.
pub enum Failure {
    Tokenize(TokenizeError),
    Write(VmWriteError),
    Symbol(SymbolError),
    BadInteger,
    BadToken(Construct, Seq<char>),
}

/// What compiling works on: the text not yet read, the current token and
/// its kind, the code written so far, the class name, the next label
/// number, and the class and subroutine scopes.
#[verifier::ext_equal]
pub struct State {
    pub content: Seq<char>,
    pub token: Seq<char>,
    pub token_type: TokenType,
    pub output: Seq<char>,
    pub class_name: Seq<char>,
    pub next_label: nat,
    pub class_scope: Scope,
    pub sub_scope: Scope,
}

/// The state before anything of the Jack text `content` (already cleaned)
/// of class `class_name` is read.
pub open spec fn initial_state(content: Seq<char>, class_name: Seq<char>) -> State {
    State {
        content,
        token: seq![],
        token_type: TokenType::NoToken,
        output: seq![],
        class_name,
        next_label: 0,
        class_scope: empty_scope(),
        sub_scope: empty_scope(),
    }
}

/// Reads the next token, as `JackTokenizer::advance` does.
#[verifier::opaque]
pub open spec fn read_token(st: State) -> (Result<(), Failure>, State) {
    if st.content.len() == 0 {
        (Err(Failure::Tokenize(TokenizeError::NoMoreTokens)), st)
    } else {
        let c = trim_start(st.content);
        match scan(c) {
            Some((t, ty, p)) => (
                Ok(()),
                State { content: consume(c, t, p), token: t, token_type: ty, ..st },
            ),
            None => (Err(Failure::Tokenize(scan_error(c))), State { content: c, ..st }),
        }
    }
}

/// Reading a token never lengthens the text, and a token read shortens it.
pub proof fn lemma_read_token(st: State)
    ensures
        read_token(st).1.content.len() <= st.content.len(),
        read_token(st).0 is Ok ==> read_token(st).1.content.len() < st.content.len(),
        read_token(st).1 == (State {
            content: read_token(st).1.content,
            token: read_token(st).1.token,
            token_type: read_token(st).1.token_type,
            ..st
        }),
{
    reveal(read_token);
    if st.content.len() > 0 {
        let c = trim_start(st.content);
        lemma_trim_start_len(st.content);
        if scan(c) is Some {
            lemma_scan_progress(c);
        }
    }
}

/// `st` with `line` added to the code.
pub open spec fn emit(st: State, line: Seq<char>) -> State {
    State { output: st.output + line, ..st }
}

/// A fresh label number, and the state after it.
pub open spec fn fresh_label(st: State) -> (nat, State) {
    (st.next_label, State { next_label: st.next_label + 1, ..st })
}

/// The segment in which variables of kind `kind` live.
pub open spec fn segment_of(kind: Kind) -> Option<VMSegment> {
    match kind {
        Kind::STATIC => Some(VMSegment::STATIC),
        Kind::ARG => Some(VMSegment::ARGUMENT),
        Kind::LOCAL => Some(VMSegment::LOCAL),
        Kind::THIS => Some(VMSegment::THIS),
        Kind::NONE => None,
    }
}

/// Pushes the variable of kind `kind` and index `index`; `false` for the
/// kind `NONE`, which has no segment.
pub open spec fn push_variable(st: State, kind: Kind, index: nat) -> (bool, State) {
    match segment_of(kind) {
        Some(seg) => (true, emit(st, push_line(seg, index))),
        None => (false, st),
    }
}

/// Pops into the variable of kind `kind` and index `index`; `false` for
/// the kind `NONE`.
pub open spec fn pop_variable(st: State, kind: Kind, index: nat) -> (bool, State) {
    match segment_of(kind) {
        Some(seg) => (true, emit(st, pop_line(seg, index))),
        None => (false, st),
    }
}

/// The type, kind and index of the variable `name`: from the subroutine
/// scope, else from the class scope.
pub open spec fn lookup(st: State, name: Seq<char>) -> Option<(Seq<char>, Kind, nat)> {
    if st.sub_scope.symbols.contains_key(name) {
        Some(st.sub_scope.symbols[name])
    } else if st.class_scope.symbols.contains_key(name) {
        Some(st.class_scope.symbols[name])
    } else {
        None
    }
}

/// How a construct ends: a failure naming the token `bad`, unless it is
/// empty.
pub open spec fn verdict(construct: Construct, bad: Seq<char>) -> Result<(), Failure> {
    if bad.len() > 0 {
        Err(Failure::BadToken(construct, bad))
    } else {
        Ok(())
    }
}

/// The code of the binary operator `op`, if it is one.
pub open spec fn operator_code(op: Seq<char>) -> Option<Seq<char>> {
    if op == "+"@ {
        Some(arithmetic_line(Commands::ADD))
    } else if op == "-"@ {
        Some(arithmetic_line(Commands::SUB))
    } else if op == "*"@ {
        Some(call_line("Math.multiply"@, 2))
    } else if op == "/"@ {
        Some(call_line("Math.divide"@, 2))
    } else if op == "|"@ {
        Some(arithmetic_line(Commands::OR))
    } else if op == "="@ {
        Some(arithmetic_line(Commands::EQ))
    } else if op == "<"@ {
        Some(arithmetic_line(Commands::LT))
    } else if op == ">"@ {
        Some(arithmetic_line(Commands::GT))
    } else if op == "&"@ {
        Some(arithmetic_line(Commands::AND))
    } else {
        None
    }
}

/// The code that appends the characters `cs` to the string on the stack.
pub open spec fn append_chars_code(cs: Seq<char>) -> Seq<char>
    decreases cs.len(),
{
    if cs.len() == 0 {
        seq![]
    } else {
        append_chars_code(cs.drop_last()) + push_line(VMSegment::CONSTANT, cs.last() as u32 as nat)
            + call_line("String.appendChar"@, 2)
    }
}

/// The code of the string constant `token`: a new string as long as the
/// UTF-8 bytes of its text, then one `appendChar` for each character.
pub open spec fn string_constant_code(token: Seq<char>) -> Seq<char> {
    let text = trim_matches(token, seq!['"']);
    push_line(VMSegment::CONSTANT, vstd::utf8::encode_utf8(text).len()) + call_line(
        "String.new"@,
        1,
    ) + append_chars_code(text)
}

/// Compiling a term: the token is read first.
pub open spec fn term(st: State) -> (Result<(), Failure>, State)
    decreases st.content.len(), 2nat,
{
    proof {
        lemma_read_token(st);
    }
    match read_token(st) {
        (Err(e), s) => (Err(e), s),
        (Ok(_), s) => {
            let t = s.token;
            match s.token_type {
                TokenType::IntConstant => match parse_usize(t) {
                    Some(v) => (Ok(()), emit(s, push_line(VMSegment::CONSTANT, v as nat))),
                    None => (Err(Failure::BadInteger), s),
                },
                TokenType::StringConst => (Ok(()), emit(s, string_constant_code(t))),
                TokenType::Keyword => if t == "true"@ {
                    (
                        Ok(()),
                        emit(
                            emit(s, push_line(VMSegment::CONSTANT, 1)),
                            arithmetic_line(Commands::NEG),
                        ),
                    )
                } else if t == "false"@ || t == "null"@ {
                    (Ok(()), emit(s, push_line(VMSegment::CONSTANT, 0)))
                } else if t == "this"@ {
                    (Ok(()), emit(s, push_line(VMSegment::POINTER, 0)))
                } else {
                    (verdict(Construct::Term, t), s)
                },
                TokenType::Identifier => match identifier_term(s, t) {
                    (Err(e), s1) => (Err(e), s1),
                    (Ok(bad), s1) => (verdict(Construct::Term, bad), s1),
                },
                TokenType::Symbol => if t == "("@ {
                    match expression(s) {
                        (Err(e), s1) => (Err(e), s1),
                        (Ok(_), s1) => (
                            verdict(
                                Construct::Term,
                                if s1.token != ")"@ {
                                    s1.token
                                } else {
                                    seq![]
                                },
                            ),
                            s1,
                        ),
                    }
                } else if t == "-"@ {
                    match term(s) {
                        (Err(e), s1) => (Err(e), s1),
                        (Ok(_), s1) => (Ok(()), emit(s1, arithmetic_line(Commands::NEG))),
                    }
                } else if t == "~"@ {
                    match term(s) {
                        (Err(e), s1) => (Err(e), s1),
                        (Ok(_), s1) => (Ok(()), emit(s1, arithmetic_line(Commands::NOT))),
                    }
                } else {
                    (verdict(Construct::Term, t), s)
                },
                TokenType::NoToken => (verdict(Construct::Term, t), s),
            }
        },
    }
}

/// Pushes the variable `info` (if there is one) ahead of an array index or
/// a call; the token to report when it has no segment.
pub open spec fn push_found(st: State, info: Option<(Seq<char>, Kind, nat)>, report: Seq<char>) -> (
    Seq<char>,
    State,
) {
    match info {
        Some((_, kind, index)) => {
            let (ok, s) = push_variable(st, kind, index);
            (
                if ok {
                    seq![]
                } else {
                    report
                },
                s,
            )
        },
        None => (seq![], st),
    }
}

/// Compiling an array element `name[index]` (the name read, the bracket
/// not yet), `info` being what the scopes hold of `name`. Yields the token
/// to report, empty when there is none.
pub open spec fn array_element(st: State, info: Option<(Seq<char>, Kind, nat)>) -> (
    Result<Seq<char>, Failure>,
    State,
)
    decreases st.content.len(), 0nat,
{
    proof {
        lemma_read_token(st);
    }
    match read_token(st) {
        (Err(e), s1) => (Err(e), s1),
        (Ok(_), s1) => match expression(s1) {
            (Err(e), s2) => (Err(e), s2),
            (Ok(_), s2) => {
                let inner = s2.token;
                let (bad, s3) = push_found(s2, info, inner);
                let s4 = emit(s3, arithmetic_line(Commands::ADD));
                if inner == "]"@ {
                    (
                        Ok(bad),
                        emit(
                            emit(s4, pop_line(VMSegment::POINTER, 1)),
                            push_line(VMSegment::THAT, 0),
                        ),
                    )
                } else {
                    (Ok(inner), s4)
                }
            },
        },
    }
}

/// Compiling a call `name(arguments)` of a subroutine of the class (the
/// name read, the bracket not yet). Yields the token to report.
pub open spec fn local_call(st: State, name: Seq<char>, info: Option<(Seq<char>, Kind, nat)>) -> (
    Result<Seq<char>, Failure>,
    State,
)
    decreases st.content.len(), 0nat,
{
    let (bad, s1) = push_found(st, info, name);
    proof {
        lemma_read_token(s1);
    }
    match read_token(s1) {
        (Err(e), s2) => (Err(e), s2),
        (Ok(_), s2) => match expression_list(s2) {
            (Err(e), s3) => (Err(e), s3),
            (Ok(n), s3) => if s3.token == ")"@ {
                (Ok(bad), emit(s3, call_line(s3.class_name + seq!['.'] + name, n)))
            } else {
                (Ok(s3.token), s3)
            },
        },
    }
}

/// Compiling a call `name.function(arguments)` (the name read, the dot not
/// yet): a method of the variable `name`, if the scopes hold it, else a
/// function of the class `name`. Yields the token to report.
pub open spec fn qualified_call(
    st: State,
    name: Seq<char>,
    info: Option<(Seq<char>, Kind, nat)>,
) -> (Result<Seq<char>, Failure>, State)
    decreases st.content.len(), 0nat,
{
    let (bad, s1) = push_found(st, info, name);
    proof {
        lemma_read_token(s1);
    }
    match read_token(s1) {
        (Err(e), s2) => (Err(e), s2),
        (Ok(_), s2) => {
            proof {
                lemma_read_token(s2);
            }
            match read_token(s2) {
                (Err(e), s3) => (Err(e), s3),
                (Ok(_), s3) => {
                    let function_name = s3.token;
                    proof {
                        lemma_read_token(s3);
                    }
                    match read_token(s3) {
                        (Err(e), s4) => (Err(e), s4),
                        (Ok(_), s4) => if s4.token == "("@ {
                            match expression_list(s4) {
                                (Err(e), s5) => (Err(e), s5),
                                (Ok(n), s5) => if s5.token == ")"@ {
                                    match info {
                                        Some((ty, _, _)) => (
                                            Ok(bad),
                                            emit(s5, call_line(ty + seq!['.'] + function_name, n + 1)),
                                        ),
                                        None => (
                                            Ok(bad),
                                            emit(s5, call_line(name + seq!['.'] + function_name, n)),
                                        ),
                                    }
                                } else {
                                    (Ok(s5.token), s5)
                                },
                            }
                        } else {
                            (Ok(s4.token), s4)
                        },
                    }
                },
            }
        },
    }
}

/// Compiling a term that starts with the identifier `name` (already read):
/// an array element, a call, or a variable. Yields the token to report,
/// empty when there is none.
pub open spec fn identifier_term(st: State, name: Seq<char>) -> (Result<Seq<char>, Failure>, State)
    decreases st.content.len(), 1nat,
{
    let info = lookup(st, name);
    if starts_with(st.content, "["@) {
        array_element(st, info)
    } else if starts_with(st.content, "("@) {
        local_call(st, name, info)
    } else if starts_with(st.content, "."@) {
        qualified_call(st, name, info)
    } else {
        let (bad, s1) = push_found(st, info, name);
        (Ok(bad), s1)
    }
}

/// Compiling the operators and terms that follow the first term of an
/// expression, from the current token on.
pub open spec fn expression_rest(st: State) -> (Result<(), Failure>, State)
    decreases st.content.len(), 3nat,
{
    let t = st.token;
    if st.token_type == TokenType::Symbol && t != "]"@ && t != ";"@ && t != ")"@ && t != ","@ {
        match operator_code(t) {
            None => (verdict(Construct::Expression, t), st),
            Some(code) => match term(st) {
                (Err(e), s1) => (Err(e), s1),
                (Ok(_), s1) => {
                    let s2 = emit(s1, code);
                    if s2.content.len() <= st.content.len() {
                        proof {
                            lemma_read_token(s2);
                        }
                        match read_token(s2) {
                            (Err(e), s3) => (Err(e), s3),
                            (Ok(_), s3) => expression_rest(s3),
                        }
                    } else {
                        (Ok(()), s2)
                    }
                },
            },
        }
    } else {
        (Ok(()), st)
    }
}

/// Compiling an expression: a term, then operators and terms up to a `]`,
/// `;`, `)`, `,` or a token that is no symbol.
pub open spec fn expression(st: State) -> (Result<(), Failure>, State)
    decreases st.content.len(), 4nat,
{
    match term(st) {
        (Err(e), s1) => (Err(e), s1),
        (Ok(_), s1) => if s1.content.len() <= st.content.len() {
            proof {
                lemma_read_token(s1);
            }
            match read_token(s1) {
                (Err(e), s2) => (Err(e), s2),
                (Ok(_), s2) => expression_rest(s2),
            }
        } else {
            (Ok(()), s1)
        },
    }
}

/// Compiling the expressions that follow the first one of a call, `n` of
/// them counted so far, up to the closing bracket. A token that is neither
/// `,` nor `)` ends the list, with a failure naming it.
pub open spec fn expression_list_rest(st: State, n: nat) -> (Result<nat, Failure>, State)
    decreases st.content.len(), 5nat,
{
    if st.token == ")"@ {
        (Ok(n), st)
    } else if st.token == ","@ {
        match expression(st) {
            (Err(e), s1) => (Err(e), s1),
            (Ok(_), s1) => if s1.content.len() < st.content.len() {
                expression_list_rest(s1, n + 1)
            } else {
                (Ok(n + 1), s1)
            },
        }
    } else {
        (Err(Failure::BadToken(Construct::ExpressionList, st.token)), st)
    }
}

/// Compiling the expressions of a call, up to the closing bracket; their
/// number.
pub open spec fn expression_list(st: State) -> (Result<nat, Failure>, State)
    decreases st.content.len(), 6nat,
{
    if !starts_with(st.content, ")"@) {
        match expression(st) {
            (Err(e), s1) => (Err(e), s1),
            (Ok(_), s1) => if s1.content.len() < st.content.len() {
                expression_list_rest(s1, 1)
            } else {
                (Ok(1), s1)
            },
        }
    } else {
        match read_token(st) {
            (Err(e), s1) => (Err(e), s1),
            (Ok(_), s1) => (Ok(0), s1),
        }
    }
}

/// The assignment part of a `let` statement, from the token `token` on:
/// `= expression;`. `is_array` tells whether the target is an array
/// element (its address already on the stack), `bad` is the token to
/// report so far.
pub open spec fn let_assignment(
    st: State,
    kind: Kind,
    index: nat,
    is_array: bool,
    token: Seq<char>,
    bad: Seq<char>,
) -> (Result<(), Failure>, State) {
    if token == "="@ {
        match expression(st) {
            (Err(e), s1) => (Err(e), s1),
            (Ok(_), s1) => {
                let t = s1.token;
                if t == ";"@ {
                    if is_array {
                        (
                            verdict(Construct::Statements, bad),
                            emit(
                                emit(
                                    emit(
                                        emit(s1, pop_line(VMSegment::TEMP, 0)),
                                        pop_line(VMSegment::POINTER, 1),
                                    ),
                                    push_line(VMSegment::TEMP, 0),
                                ),
                                pop_line(VMSegment::THAT, 0),
                            ),
                        )
                    } else {
                        let (ok, s2) = pop_variable(s1, kind, index);
                        (
                            verdict(
                                Construct::Statements,
                                if ok {
                                    bad
                                } else {
                                    t
                                },
                            ),
                            s2,
                        )
                    }
                } else {
                    (verdict(Construct::Statements, t), s1)
                }
            },
        }
    } else {
        (verdict(Construct::Statements, token), st)
    }
}

/// The index part of a `let` statement to an array element, from `[` on:
/// the address of the element ends on the stack.
pub open spec fn let_index(st: State, kind: Kind, index: nat) -> (Result<(), Failure>, State) {
    match expression(st) {
        (Err(e), s1) => (Err(e), s1),
        (Ok(_), s1) => {
            let t = s1.token;
            let (ok, s2) = push_variable(s1, kind, index);
            let bad = if ok {
                seq![]
            } else {
                t
            };
            if bad.len() == 0 {
                let s3 = emit(s2, arithmetic_line(Commands::ADD));
                let bad2 = if t != "]"@ {
                    t
                } else {
                    seq![]
                };
                if bad2.len() == 0 {
                    match read_token(s3) {
                        (Err(e), s4) => (Err(e), s4),
                        (Ok(_), s4) => let_assignment(s4, kind, index, true, s4.token, seq![]),
                    }
                } else {
                    let_assignment(s3, kind, index, true, t, bad2)
                }
            } else {
                let_assignment(s2, kind, index, true, t, bad)
            }
        },
    }
}

/// Compiling `let name = expression;` or `let name[index] = expression;`
/// (the `let` already read).
pub open spec fn let_statement(st: State) -> (Result<(), Failure>, State) {
    match read_token(st) {
        (Err(e), s1) => (Err(e), s1),
        (Ok(_), s1) => {
            let name = s1.token;
            match lookup(s1, name) {
                None => (verdict(Construct::Statements, name), s1),
                Some((_, kind, index)) => match read_token(s1) {
                    (Err(e), s2) => (Err(e), s2),
                    (Ok(_), s2) => if s2.token == "["@ {
                        let_index(s2, kind, index)
                    } else {
                        let_assignment(s2, kind, index, false, s2.token, seq![])
                    },
                },
            }
        },
    }
}

/// The `else` part of an `if` statement (the `else` not yet read), the
/// first branch ending at the label `end` and the second starting at
/// `other`.
pub open spec fn else_branch(st: State, other: nat, end: nat) -> (Result<(), Failure>, State)
    decreases st.content.len(), 0nat,
{
    let s1 = emit(st, label_line(st.class_name, other));
    proof {
        lemma_read_token(s1);
    }
    match read_token(s1) {
        (Err(e), s2) => (Err(e), s2),
        (Ok(_), s2) => {
            proof {
                lemma_read_token(s2);
            }
            match read_token(s2) {
                (Err(e), s3) => (Err(e), s3),
                (Ok(_), s3) => if s3.token == "{"@ {
                    match statements(s3) {
                        (Err(e), s4) => (Err(e), s4),
                        (Ok(_), s4) => (
                            verdict(
                                Construct::IfStatement,
                                if s4.token != "}"@ {
                                    s4.token
                                } else {
                                    seq![]
                                },
                            ),
                            emit(s4, label_line(s4.class_name, end)),
                        ),
                    }
                } else {
                    (verdict(Construct::IfStatement, s3.token), emit(s3, label_line(s3.class_name, end)))
                },
            }
        },
    }
}

/// Compiling `if (condition) { statements }`, with an optional
/// `else { statements }` (the `if` already read).
pub open spec fn if_statement(st: State) -> (Result<(), Failure>, State)
    decreases st.content.len(), 1nat,
{
    let (end, s0) = fresh_label(st);
    proof {
        lemma_read_token(s0);
    }
    match read_token(s0) {
        (Err(e), s1) => (Err(e), s1),
        (Ok(_), s1) => if s1.token == "("@ {
            match expression(s1) {
                (Err(e), s2) => (Err(e), s2),
                (Ok(_), s2) => {
                    let s3 = emit(s2, arithmetic_line(Commands::NOT));
                    let (other, s4) = fresh_label(s3);
                    let s5 = emit(s4, if_line(s4.class_name, other));
                    if s5.token == ")"@ && s5.content.len() <= s1.content.len() {
                        proof {
                            lemma_read_token(s5);
                        }
                        match read_token(s5) {
                            (Err(e), s6) => (Err(e), s6),
                            (Ok(_), s6) => if s6.token == "{"@ {
                                match statements(s6) {
                                    (Err(e), s7) => (Err(e), s7),
                                    (Ok(_), s7) => {
                                        let s8 = emit(s7, goto_line(s7.class_name, end));
                                        if s8.token == "}"@ {
                                            if starts_with(s8.content, "else"@) {
                                                if s8.content.len() < st.content.len() {
                                                    else_branch(s8, other, end)
                                                } else {
                                                    (Ok(()), s8)
                                                }
                                            } else {
                                                (
                                                    Ok(()),
                                                    emit(
                                                        emit(s8, label_line(s8.class_name, other)),
                                                        label_line(s8.class_name, end),
                                                    ),
                                                )
                                            }
                                        } else {
                                            (verdict(Construct::IfStatement, s8.token), s8)
                                        }
                                    },
                                }
                            } else {
                                (verdict(Construct::IfStatement, s6.token), s6)
                            },
                        }
                    } else {
                        (verdict(Construct::IfStatement, s5.token), s5)
                    }
                },
            }
        } else {
            (verdict(Construct::IfStatement, s1.token), s1)
        },
    }
}

/// Compiling `while (condition) { statements }` (the `while` already
/// read).
pub open spec fn while_statement(st: State) -> (Result<(), Failure>, State)
    decreases st.content.len(), 1nat,
{
    let (top, s0) = fresh_label(st);
    let s1 = emit(s0, label_line(s0.class_name, top));
    proof {
        lemma_read_token(s1);
    }
    match read_token(s1) {
        (Err(e), s2) => (Err(e), s2),
        (Ok(_), s2) => if s2.token == "("@ {
            match expression(s2) {
                (Err(e), s3) => (Err(e), s3),
                (Ok(_), s3) => {
                    let s4 = emit(s3, arithmetic_line(Commands::NOT));
                    let (exit, s5) = fresh_label(s4);
                    let s6 = emit(s5, if_line(s5.class_name, exit));
                    if s6.token == ")"@ && s6.content.len() <= s2.content.len() {
                        proof {
                            lemma_read_token(s6);
                        }
                        match read_token(s6) {
                            (Err(e), s7) => (Err(e), s7),
                            (Ok(_), s7) => if s7.token == "{"@ {
                                match statements(s7) {
                                    (Err(e), s8) => (Err(e), s8),
                                    (Ok(_), s8) => {
                                        let s9 = emit(s8, goto_line(s8.class_name, top));
                                        if s9.token == "}"@ {
                                            (Ok(()), emit(s9, label_line(s9.class_name, exit)))
                                        } else {
                                            (verdict(Construct::WhileStatement, s9.token), s9)
                                        }
                                    },
                                }
                            } else {
                                (verdict(Construct::WhileStatement, s7.token), s7)
                            },
                        }
                    } else {
                        (verdict(Construct::WhileStatement, s6.token), s6)
                    }
                },
            }
        } else {
            (verdict(Construct::WhileStatement, s2.token), s2)
        },
    }
}

/// The call `name(arguments)` of a `do` statement on the current object
/// (the name read, the bracket not yet); its value is dropped. Yields the
/// token to report.
pub open spec fn do_local_call(st: State, name: Seq<char>) -> (Result<Seq<char>, Failure>, State) {
    match read_token(st) {
        (Err(e), s1) => (Err(e), s1),
        (Ok(_), s1) => {
            let s2 = emit(s1, push_line(VMSegment::POINTER, 0));
            match expression_list(s2) {
                (Err(e), s3) => (Err(e), s3),
                (Ok(n), s3) => if s3.token == ")"@ {
                    (
                        Ok(seq![]),
                        emit(
                            emit(s3, call_line(s3.class_name + seq!['.'] + name, n + 1)),
                            pop_line(VMSegment::TEMP, 0),
                        ),
                    )
                } else {
                    (Ok(s3.token), s3)
                },
            }
        },
    }
}

/// The call `name.function(arguments)` of a `do` statement (the name
/// read, the dot not yet), `info` being what the scopes hold of `name`; its
/// value is dropped. Yields the token to report.
pub open spec fn do_qualified_call(
    st: State,
    name: Seq<char>,
    info: Option<(Seq<char>, Kind, nat)>,
) -> (Result<Seq<char>, Failure>, State) {
    match read_token(st) {
        (Err(e), s1) => (Err(e), s1),
        (Ok(_), s1) => match read_token(s1) {
            (Err(e), s2) => (Err(e), s2),
            (Ok(_), s2) => {
                let function_name = s2.token;
                match read_token(s2) {
                    (Err(e), s3) => (Err(e), s3),
                    (Ok(_), s3) => {
                        let inner = s3.token;
                        if inner == "("@ {
                            let (bad, pushed, s4) = match info {
                                Some((_, kind, index)) => {
                                    let (ok, s) = push_variable(s3, kind, index);
                                    (
                                        if ok {
                                            seq![]
                                        } else {
                                            inner
                                        },
                                        1nat,
                                        s,
                                    )
                                },
                                None => (seq![], 0nat, s3),
                            };
                            match expression_list(s4) {
                                (Err(e), s5) => (Err(e), s5),
                                (Ok(n), s5) => if s5.token == ")"@ {
                                    let callee = match info {
                                        Some((ty, _, _)) => ty + seq!['.'] + function_name,
                                        None => name + seq!['.'] + function_name,
                                    };
                                    (
                                        Ok(bad),
                                        emit(
                                            emit(s5, call_line(callee, pushed + n)),
                                            pop_line(VMSegment::TEMP, 0),
                                        ),
                                    )
                                } else {
                                    (Ok(s5.token), s5)
                                },
                            }
                        } else {
                            (Ok(inner), s3)
                        }
                    },
                }
            },
        },
    }
}

/// The call of a `do` statement, its name `name` read: `name(arguments)`
/// on the current object, or `name.function(arguments)`; its value is
/// dropped. Yields the token to report, empty when there is none.
pub open spec fn do_call(st: State, name: Seq<char>) -> (Result<Seq<char>, Failure>, State) {
    if starts_with(st.content, "("@) {
        do_local_call(st, name)
    } else if starts_with(st.content, "."@) {
        do_qualified_call(st, name, lookup(st, name))
    } else {
        (Ok(name), st)
    }
}

/// Compiling `do call;` (the `do` already read).
pub open spec fn do_statement(st: State) -> (Result<(), Failure>, State) {
    match read_token(st) {
        (Err(e), s1) => (Err(e), s1),
        (Ok(_), s1) => match do_call(s1, s1.token) {
            (Err(e), s2) => (Err(e), s2),
            (Ok(bad), s2) => match read_token(s2) {
                (Err(e), s3) => (Err(e), s3),
                (Ok(_), s3) => (
                    verdict(
                        Construct::DoStatement,
                        if s3.token != ";"@ {
                            s3.token
                        } else {
                            bad
                        },
                    ),
                    s3,
                ),
            },
        },
    }
}

/// Compiling `return;` or `return expression;` (the `return` already
/// read).
pub open spec fn return_statement(st: State) -> (Result<(), Failure>, State) {
    let (r, s) = if !starts_with(st.content, ";"@) {
        expression(st)
    } else {
        read_token(emit(st, push_line(VMSegment::CONSTANT, 0)))
    };
    match r {
        Err(e) => (Err(e), s),
        Ok(_) => if s.token == ";"@ {
            (Ok(()), emit(s, return_line()))
        } else {
            (verdict(Construct::ReturnStatement, s.token), s)
        },
    }
}

/// The statement that the keyword `st.token` starts, compiled; `None` for
/// a keyword that starts none.
pub open spec fn statement(st: State) -> Option<(Result<(), Failure>, State)>
    decreases st.content.len(), 2nat,
{
    let t = st.token;
    if t == "let"@ {
        Some(let_statement(st))
    } else if t == "if"@ {
        Some(if_statement(st))
    } else if t == "while"@ {
        Some(while_statement(st))
    } else if t == "do"@ {
        Some(do_statement(st))
    } else if t == "return"@ {
        Some(return_statement(st))
    } else {
        None
    }
}

/// Compiling statements from the current token on, as long as each starts
/// with a keyword.
pub open spec fn statements_rest(st: State) -> (Result<(), Failure>, State)
    decreases st.content.len(), 3nat,
{
    if st.token_type == TokenType::Keyword {
        match statement(st) {
            None => (verdict(Construct::Statements, st.token), st),
            Some((Err(e), s1)) => (Err(e), s1),
            Some((Ok(_), s1)) => if s1.content.len() <= st.content.len() {
                proof {
                    lemma_read_token(s1);
                }
                match read_token(s1) {
                    (Err(e), s2) => (Err(e), s2),
                    (Ok(_), s2) => statements_rest(s2),
                }
            } else {
                (Ok(()), s1)
            },
        }
    } else {
        (Ok(()), st)
    }
}

/// Compiling statements, the first token not yet read.
pub open spec fn statements(st: State) -> (Result<(), Failure>, State)
    decreases st.content.len(), 4nat,
{
    proof {
        lemma_read_token(st);
    }
    match read_token(st) {
        (Err(e), s1) => (Err(e), s1),
        (Ok(_), s1) => if s1.token_type == TokenType::Keyword {
            statements_rest(s1)
        } else {
            (Ok(()), s1)
        },
    }
}

/// The names after the first one of a class variable declaration, each
/// after a comma, defined in the class scope with type `ty` and kind
/// `kind`.
pub open spec fn class_variable_names(st: State, ty: Seq<char>, kind: Kind) -> (
    Result<(), Failure>,
    State,
)
    decreases st.content.len(),
{
    if st.token == ","@ {
        proof {
            lemma_read_token(st);
        }
        match read_token(st) {
            (Err(e), s1) => (Err(e), s1),
            (Ok(_), s1) => match define_in(s1.class_scope, s1.token, ty, kind) {
                Err(e) => (Err(Failure::Symbol(e)), s1),
                Ok(sc) => {
                    let s2 = State { class_scope: sc, ..s1 };
                    proof {
                        lemma_read_token(s2);
                    }
                    match read_token(s2) {
                        (Err(e), s3) => (Err(e), s3),
                        (Ok(_), s3) => class_variable_names(s3, ty, kind),
                    }
                },
            },
        }
    } else {
        (Ok(()), st)
    }
}

/// The class variable declarations `static type name, ...;` and
/// `field type name, ...;` that follow one another from the current
/// token on; `bad` is the token to report so far.
pub open spec fn class_variable_declarations(st: State, bad: Seq<char>) -> (
    Result<(), Failure>,
    State,
)
    decreases st.content.len(),
{
    let t = st.token;
    if t == "static"@ || t == "field"@ {
        let kind = if t == "static"@ {
            Kind::STATIC
        } else {
            Kind::THIS
        };
        match read_token(st) {
            (Err(e), s1) => (Err(e), s1),
            (Ok(_), s1) => {
                let ty = s1.token;
                match read_token(s1) {
                    (Err(e), s2) => (Err(e), s2),
                    (Ok(_), s2) => match define_in(s2.class_scope, s2.token, ty, kind) {
                        Err(e) => (Err(Failure::Symbol(e)), s2),
                        Ok(sc) => match read_token(State { class_scope: sc, ..s2 }) {
                            (Err(e), s3) => (Err(e), s3),
                            (Ok(_), s3) => match class_variable_names(s3, ty, kind) {
                                (Err(e), s4) => (Err(e), s4),
                                (Ok(_), s4) => if s4.content.len() < st.content.len() {
                                    class_variable_declarations(
                                        s4,
                                        if s4.token != ";"@ {
                                            s4.token
                                        } else {
                                            bad
                                        },
                                    )
                                } else {
                                    (Ok(()), s4)
                                },
                            },
                        },
                    },
                }
            },
        }
    } else {
        (verdict(Construct::ClassVariableDeclaration, bad), st)
    }
}

/// The parameters `type name, ...` from the current token up to the
/// closing bracket, each defined as an argument; `n` counted so far.
pub open spec fn parameters(st: State, n: nat) -> (Result<nat, Failure>, State)
    decreases st.content.len(),
{
    if st.token != ")"@ {
        let ty = st.token;
        proof {
            lemma_read_token(st);
        }
        match read_token(st) {
            (Err(e), s1) => (Err(e), s1),
            (Ok(_), s1) => match define_in(s1.sub_scope, s1.token, ty, Kind::ARG) {
                Err(e) => (Err(Failure::Symbol(e)), s1),
                Ok(sc) => {
                    let s2 = State { sub_scope: sc, ..s1 };
                    proof {
                        lemma_read_token(s2);
                    }
                    match read_token(s2) {
                        (Err(e), s3) => (Err(e), s3),
                        (Ok(_), s3) => {
                            let (r, s4) = if s3.token == ","@ {
                                read_token(s3)
                            } else {
                                (Ok(()), s3)
                            };
                            proof {
                                lemma_read_token(s3);
                            }
                            match r {
                                Err(e) => (Err(e), s4),
                                Ok(_) => parameters(s4, n + 1),
                            }
                        },
                    }
                },
            },
        }
    } else {
        (Ok(n), st)
    }
}

/// Compiling a parameter list up to its closing bracket (the opening one
/// already read): the number of parameters.
pub open spec fn parameter_list(st: State) -> (Result<nat, Failure>, State) {
    match read_token(st) {
        (Err(e), s1) => (Err(e), s1),
        (Ok(_), s1) => parameters(s1, 0),
    }
}

/// The names of a `var` declaration from the current token up to `;`,
/// each defined as a local of type `ty`; `n` counted so far.
pub open spec fn local_names(st: State, ty: Seq<char>, n: nat) -> (Result<nat, Failure>, State)
    decreases st.content.len(),
{
    if st.token != ";"@ {
        match define_in(st.sub_scope, st.token, ty, Kind::LOCAL) {
            Err(e) => (Err(Failure::Symbol(e)), st),
            Ok(sc) => {
                let s1 = State { sub_scope: sc, ..st };
                proof {
                    lemma_read_token(s1);
                }
                match read_token(s1) {
                    (Err(e), s2) => (Err(e), s2),
                    (Ok(_), s2) => {
                        let (r, s3) = if s2.token == ","@ {
                            read_token(s2)
                        } else {
                            (Ok(()), s2)
                        };
                        proof {
                            lemma_read_token(s2);
                        }
                        match r {
                            Err(e) => (Err(e), s3),
                            Ok(_) => local_names(s3, ty, n + 1),
                        }
                    },
                }
            },
        }
    } else {
        (Ok(n), st)
    }
}

/// The `var type name, ...;` declarations at the start of a subroutine
/// body, `n` variables counted so far: the number of variables.
pub open spec fn variable_declarations(st: State, n: nat) -> (Result<nat, Failure>, State)
    decreases st.content.len(),
{
    if starts_with(st.content, "var"@) {
        match read_token(st) {
            (Err(e), s1) => (Err(e), s1),
            (Ok(_), s1) => match read_token(s1) {
                (Err(e), s2) => (Err(e), s2),
                (Ok(_), s2) => {
                    let ty = s2.token;
                    match read_token(s2) {
                        (Err(e), s3) => (Err(e), s3),
                        (Ok(_), s3) => match local_names(s3, ty, n) {
                            (Err(e), s4) => (Err(e), s4),
                            (Ok(m), s4) => if s4.content.len() < st.content.len() {
                                variable_declarations(s4, m)
                            } else {
                                (Ok(m), s4)
                            },
                        },
                    }
                },
            },
        }
    } else {
        (Ok(n), st)
    }
}

/// The code that sets `this` at the start of a subroutine: a new object
/// with room for the fields in a constructor, the first argument in a
/// method, nothing in a function.
pub open spec fn this_setup(st: State, is_constructor: bool, is_function: bool) -> State {
    let s1 = if is_constructor {
        emit(
            emit(st, push_line(VMSegment::CONSTANT, st.class_scope.fields)),
            call_line("Memory.alloc"@, 1),
        )
    } else if st.sub_scope.symbols.contains_key("this"@) {
        emit(st, push_line(VMSegment::ARGUMENT, st.sub_scope.symbols["this"@].2))
    } else {
        st
    };
    if !is_function {
        emit(s1, pop_line(VMSegment::POINTER, 0))
    } else {
        s1
    }
}

/// Compiling a constructor, function or method (its keyword the current
/// token): the function header, the setting of `this`, and the body.
pub open spec fn subroutine(st: State) -> (Result<(), Failure>, State) {
    let t = st.token;
    let (r0, s0) = if t == "method"@ {
        match define_in(st.sub_scope, "this"@, st.class_name, Kind::ARG) {
            Err(e) => (Err(Failure::Symbol(e)), st),
            Ok(sc) => (Ok(()), State { sub_scope: sc, ..st }),
        }
    } else {
        (Ok(()), st)
    };
    match r0 {
        Err(e) => (Err(e), s0),
        Ok(_) => match read_token(s0) {
            (Err(e), s1) => (Err(e), s1),
            (Ok(_), s1) => match read_token(s1) {
                (Err(e), s2) => (Err(e), s2),
                (Ok(_), s2) => {
                    let name = s2.token;
                    match read_token(s2) {
                        (Err(e), s3) => (Err(e), s3),
                        (Ok(_), s3) => if s3.token == "("@ {
                            match parameter_list(s3) {
                                (Err(e), s4) => (Err(e), s4),
                                (Ok(_), s4) => if s4.token == ")"@ {
                                    match read_token(s4) {
                                        (Err(e), s5) => (Err(e), s5),
                                        (Ok(_), s5) => if s5.token == "{"@ {
                                            match variable_declarations(s5, 0) {
                                                (Err(e), s6) => (Err(e), s6),
                                                (Ok(locals), s6) => {
                                                    let s7 = emit(
                                                        s6,
                                                        function_line(s6.class_name, name, locals),
                                                    );
                                                    let s8 = this_setup(
                                                        s7,
                                                        t == "constructor"@,
                                                        t == "function"@,
                                                    );
                                                    match statements(s8) {
                                                        (Err(e), s9) => (Err(e), s9),
                                                        (Ok(_), s9) => (
                                                            verdict(
                                                                Construct::SubroutineDeclaration,
                                                                if s9.token != "}"@ {
                                                                    s9.token
                                                                } else {
                                                                    seq![]
                                                                },
                                                            ),
                                                            s9,
                                                        ),
                                                    }
                                                },
                                            }
                                        } else {
                                            (verdict(Construct::SubroutineDeclaration, s5.token), s5)
                                        },
                                    }
                                } else {
                                    (verdict(Construct::SubroutineDeclaration, s4.token), s4)
                                },
                            }
                        } else {
                            (verdict(Construct::SubroutineDeclaration, s3.token), s3)
                        },
                    }
                },
            },
        },
    }
}

/// The class variable declarations from the current token on, each
/// followed by the next token.
pub open spec fn class_variables(st: State) -> (Result<(), Failure>, State)
    decreases st.content.len(),
{
    if st.token == "static"@ || st.token == "field"@ {
        match class_variable_declarations(st, seq![]) {
            (Err(e), s1) => (Err(e), s1),
            (Ok(_), s1) => if s1.content.len() <= st.content.len() {
                proof {
                    lemma_read_token(s1);
                }
                match read_token(s1) {
                    (Err(e), s2) => (Err(e), s2),
                    (Ok(_), s2) => class_variables(s2),
                }
            } else {
                (Ok(()), s1)
            },
        }
    } else {
        (Ok(()), st)
    }
}

/// The subroutines from the current token on, each compiled in a fresh
/// subroutine scope and followed by the next token.
pub open spec fn subroutines(st: State) -> (Result<(), Failure>, State)
    decreases st.content.len(),
{
    let t = st.token;
    if t == "constructor"@ || t == "function"@ || t == "method"@ {
        match subroutine(State { sub_scope: empty_scope(), ..st }) {
            (Err(e), s1) => (Err(e), s1),
            (Ok(_), s1) => if s1.content.len() <= st.content.len() {
                proof {
                    lemma_read_token(s1);
                }
                match read_token(s1) {
                    (Err(e), s2) => (Err(e), s2),
                    (Ok(_), s2) => subroutines(s2),
                }
            } else {
                (Ok(()), s1)
            },
        }
    } else {
        (Ok(()), st)
    }
}

/// Compiling a class: `class Name {`, its variable declarations, its
/// subroutines, and `}`.
pub open spec fn class(st: State) -> (Result<(), Failure>, State) {
    match read_token(st) {
        (Err(e), s1) => (Err(e), s1),
        (Ok(_), s1) => if s1.token == "class"@ {
            match read_token(s1) {
                (Err(e), s2) => (Err(e), s2),
                (Ok(_), s2) => match read_token(s2) {
                    (Err(e), s3) => (Err(e), s3),
                    (Ok(_), s3) => if s3.token == "{"@ {
                        match read_token(s3) {
                            (Err(e), s4) => (Err(e), s4),
                            (Ok(_), s4) => match class_variables(s4) {
                                (Err(e), s5) => (Err(e), s5),
                                (Ok(_), s5) => match subroutines(s5) {
                                    (Err(e), s6) => (Err(e), s6),
                                    (Ok(_), s6) => (
                                        verdict(
                                            Construct::Class,
                                            if s6.token != "}"@ {
                                                s6.token
                                            } else {
                                                seq![]
                                            },
                                        ),
                                        s6,
                                    ),
                                },
                            },
                        }
                    } else {
                        (verdict(Construct::Class, s3.token), s3)
                    },
                },
            }
        } else {
            (verdict(Construct::Class, s1.token), s1)
        },
    }
}

/// White space `w` before a text `x` that does not start with white space
/// is dropped by `trim_start`.
pub proof fn lemma_trim_start_after(w: Seq<char>, x: Seq<char>)
    requires
        forall|i: int| 0 <= i < w.len() ==> is_white(#[trigger] w[i]),
        x.len() > 0,
        !is_white(x[0]),
    ensures
        trim_start(w + x) == x,
{
    let c = w + x;
    assert forall|i: int| 0 <= i < w.len() implies white()(#[trigger] c[i]) by {
        assert(c[i] == w[i]);
    }
    lemma_lead_len_skip(c, white(), w.len() as int);
    assert(c.skip(w.len() as int) =~= x);
    assert(lead_len(x, white()) == 0);
}

/// Reading, after white space `w`, the symbol `sym`.
pub proof fn lemma_read_symbol(st: State, w: Seq<char>, sym: char, rest: Seq<char>)
    requires
        st.content == w + seq![sym] + rest,
        forall|i: int| 0 <= i < w.len() ==> is_white(#[trigger] w[i]),
        jack_symbols().contains(sym),
        !('a' <= sym <= 'z'),
        !is_white(sym),
        (sym as u32) <= 0x7f,
    ensures
        read_token(st) == (
            Ok::<(), Failure>(()),
            State { content: rest, token: seq![sym], token_type: TokenType::Symbol, ..st },
        ),
{
    reveal(read_token);
    let x = seq![sym] + rest;
    assert(st.content =~= w + x);
    lemma_trim_start_after(w, x);
    lemma_scan_symbol(x);
    lemma_one_byte(seq![sym]);
    assert(x.skip(1) =~= rest);
}

/// Reading, after white space `w`, the integer constant `d`.
pub proof fn lemma_read_digits(st: State, w: Seq<char>, d: Seq<char>, rest: Seq<char>)
    requires
        st.content == w + d + rest,
        forall|i: int| 0 <= i < w.len() ==> is_white(#[trigger] w[i]),
        d.len() > 0,
        all_digits(d),
        rest.len() > 0 ==> !is_digit(rest[0]),
    ensures
        read_token(st) == (
            Ok::<(), Failure>(()),
            State { content: rest, token: d, token_type: TokenType::IntConstant, ..st },
        ),
{
    reveal(read_token);
    let x = d + rest;
    assert(st.content =~= w + x);
    assert(x[0] == d[0] && is_digit(d[0]));
    lemma_trim_start_after(w, x);
    lemma_scan_digits(d, rest);
}

/// Digits that fit in `usize` parse as the number they write.
pub proof fn lemma_parse_digits(d: Seq<char>)
    requires
        d.len() > 0,
        all_digits(d),
        decimal(d) <= usize::MAX,
    ensures
        parse_usize(d) == Some(decimal(d) as usize),
{
    assert(is_digit(d[0]));
}

/// `return;` compiles to pushing 0 and returning.
pub proof fn lemma_return_nothing(st: State, rest: Seq<char>)
    requires
        st.content == seq![';'] + rest,
    ensures
        return_statement(st) == (
            Ok::<(), Failure>(()),
            State {
                content: rest,
                token: seq![';'],
                token_type: TokenType::Symbol,
                output: st.output + push_line(VMSegment::CONSTANT, 0) + return_line(),
                ..st
            },
        ),
{
    reveal_strlit(";");
    assert(starts_with(st.content, ";"@)) by {
        assert(st.content.take(1) =~= ";"@);
    }
    let s0 = emit(st, push_line(VMSegment::CONSTANT, 0));
    assert(jack_symbols()[8] == ';');
    assert(s0.content =~= seq![] + seq![';'] + rest);
    lemma_read_symbol(s0, seq![], ';', rest);
    assert(seq![';'] =~= ";"@);
}

/// `return n;`, `n` an integer constant that fits in `usize`, compiles to
/// pushing `n` and returning.
pub proof fn lemma_return_constant(st: State, w: Seq<char>, d: Seq<char>, rest: Seq<char>)
    requires
        st.content == w + d + seq![';'] + rest,
        forall|i: int| 0 <= i < w.len() ==> is_white(#[trigger] w[i]),
        d.len() > 0,
        all_digits(d),
        decimal(d) <= usize::MAX,
    ensures
        return_statement(st) == (
            Ok::<(), Failure>(()),
            State {
                content: rest,
                token: seq![';'],
                token_type: TokenType::Symbol,
                output: st.output + push_line(VMSegment::CONSTANT, decimal(d)) + return_line(),
                ..st
            },
        ),
{
    reveal_strlit(";");
    let c = st.content;
    assert(!starts_with(c, ";"@)) by {
        if starts_with(c, ";"@) {
            assert(c.take(1)[0] == ';');
            if w.len() > 0 {
                assert(c[0] == w[0]);
            } else {
                assert(c[0] == d[0]);
            }
        }
    }
    let after = seq![';'] + rest;
    assert(c =~= w + d + after);
    lemma_read_digits(st, w, d, after);
    lemma_parse_digits(d);
    let s1 = emit(
        State { content: after, token: d, token_type: TokenType::IntConstant, ..st },
        push_line(VMSegment::CONSTANT, decimal(d)),
    );
    assert(term(st) == (Ok::<(), Failure>(()), s1));
    assert(jack_symbols()[8] == ';');
    lemma_read_symbol(s1, seq![], ';', rest);
    assert(s1.content =~= seq![] + seq![';'] + rest);
    let s2 = State { content: rest, token: seq![';'], token_type: TokenType::Symbol, ..s1 };
    assert(seq![';'] =~= ";"@);
    assert(expression_rest(s2) == (Ok::<(), Failure>(()), s2));
    assert(expression(st) == (Ok::<(), Failure>(()), s2));
}

/// A binary operator is a one-byte symbol, no letter, no white space, and
/// none of the tokens that end an expression.
pub proof fn lemma_operator_symbol(op: char)
    requires
        operator_code(seq![op]) is Some,
    ensures
        jack_symbols().contains(op),
        !('a' <= op <= 'z'),
        !is_white(op),
        (op as u32) <= 0x7f,
        seq![op] != "]"@ && seq![op] != ";"@ && seq![op] != ")"@ && seq![op] != ","@,
{
    reveal_strlit("+");
    reveal_strlit("-");
    reveal_strlit("*");
    reveal_strlit("/");
    reveal_strlit("|");
    reveal_strlit("=");
    reveal_strlit("<");
    reveal_strlit(">");
    reveal_strlit("&");
    reveal_strlit("]");
    reveal_strlit(";");
    reveal_strlit(")");
    reveal_strlit(",");
    let ss = jack_symbols();
    let o = seq![op];
    assert(o[0] == op);
    let c: char = if o == "+"@ {
        '+'
    } else if o == "-"@ {
        '-'
    } else if o == "*"@ {
        '*'
    } else if o == "/"@ {
        '/'
    } else if o == "|"@ {
        '|'
    } else if o == "="@ {
        '='
    } else if o == "<"@ {
        '<'
    } else if o == ">"@ {
        '>'
    } else {
        '&'
    };
    assert(op == c);
    assert(ss[9] == '+' && ss[10] == '-' && ss[11] == '*' && ss[12] == '/' && ss[13] == '&' && ss[14]
        == '|' && ss[15] == '<' && ss[16] == '>' && ss[17] == '=');
    if o == "]"@ {
        assert(o[0] == "]"@[0]);
    }
    if o == ";"@ {
        assert(o[0] == ";"@[0]);
    }
    if o == ")"@ {
        assert(o[0] == ")"@[0]);
    }
    if o == ","@ {
        assert(o[0] == ","@[0]);
    }
}

/// An expression of two integer constants and a binary operator, `a op b`
/// followed by `;`, compiles to pushing `a`, pushing `b`, and the code of
/// the operator; the `;` is left as the current token.
pub proof fn lemma_binary_expression(
    st: State,
    a: Seq<char>,
    op: char,
    b: Seq<char>,
    rest: Seq<char>,
)
    requires
        st.content == seq![' '] + a + seq![' ', op, ' '] + b + seq![';'] + rest,
        a.len() > 0,
        all_digits(a),
        decimal(a) <= usize::MAX,
        b.len() > 0,
        all_digits(b),
        decimal(b) <= usize::MAX,
        operator_code(seq![op]) is Some,
    ensures
        expression(st) == (
            Ok::<(), Failure>(()),
            State {
                content: rest,
                token: seq![';'],
                token_type: TokenType::Symbol,
                output: st.output + push_line(VMSegment::CONSTANT, decimal(a)) + push_line(
                    VMSegment::CONSTANT,
                    decimal(b),
                ) + operator_code(seq![op]).unwrap(),
                ..st
            },
        ),
{
    lemma_operator_symbol(op);
    let ss = jack_symbols();
    assert(seq![op][0] == op);
    assert(ss[8] == ';');
    let sp = seq![' '];
    assert(is_white(' '));
    // The first term.
    let after_a = seq![' ', op, ' '] + b + seq![';'] + rest;
    assert(st.content =~= sp + a + after_a);
    lemma_read_digits(st, sp, a, after_a);
    lemma_parse_digits(a);
    let s1 = emit(
        State { content: after_a, token: a, token_type: TokenType::IntConstant, ..st },
        push_line(VMSegment::CONSTANT, decimal(a)),
    );
    assert(term(st) == (Ok::<(), Failure>(()), s1));
    // The operator.
    let after_op = seq![' '] + b + seq![';'] + rest;
    assert(s1.content =~= sp + seq![op] + after_op);
    lemma_read_symbol(s1, sp, op, after_op);
    let s2 = State { content: after_op, token: seq![op], token_type: TokenType::Symbol, ..s1 };
    // The second term.
    let after_b = seq![';'] + rest;
    assert(s2.content =~= sp + b + after_b);
    lemma_read_digits(s2, sp, b, after_b);
    lemma_parse_digits(b);
    let s3 = emit(
        State { content: after_b, token: b, token_type: TokenType::IntConstant, ..s2 },
        push_line(VMSegment::CONSTANT, decimal(b)),
    );
    assert(term(s2) == (Ok::<(), Failure>(()), s3));
    let s4 = emit(s3, operator_code(seq![op]).unwrap());
    // The closing `;`.
    assert(s4.content =~= seq![] + seq![';'] + rest);
    lemma_read_symbol(s4, seq![], ';', rest);
    let s5 = State { content: rest, token: seq![';'], token_type: TokenType::Symbol, ..s4 };
    reveal_strlit(";");
    assert(seq![';'] =~= ";"@);
    assert(expression_rest(s5) == (Ok::<(), Failure>(()), s5));
    assert(expression_rest(s2) == (Ok::<(), Failure>(()), s5));
    assert(s5.output =~= st.output + push_line(VMSegment::CONSTANT, decimal(a)) + push_line(
        VMSegment::CONSTANT,
        decimal(b),
    ) + operator_code(seq![op]).unwrap());
}

/// Reading, after white space `w`, the identifier `x` (ASCII, no
/// keyword), followed by an ASCII character that cannot continue it.
pub proof fn lemma_read_identifier(st: State, w: Seq<char>, x: Seq<char>, rest: Seq<char>)
    requires
        st.content == w + x + rest,
        forall|i: int| 0 <= i < w.len() ==> is_white(#[trigger] w[i]),
        x.len() > 0,
        ascii_letter(x[0]) || x[0] == '_',
        forall|i: int| 0 <= i < x.len() ==> ascii_ident_char(#[trigger] x[i]),
        rest.len() > 0 ==> !ascii_ident_char(rest[0]) && (rest[0] as u32) <= 0x7f,
        !jack_keywords().contains(x),
    ensures
        read_token(st) == (
            Ok::<(), Failure>(()),
            State { content: rest, token: x, token_type: TokenType::Identifier, ..st },
        ),
{
    reveal(read_token);
    let c = x + rest;
    assert(st.content =~= w + c);
    assert(c[0] == x[0]);
    lemma_trim_start_after(w, c);
    lemma_scan_identifier(x, rest);
}

/// `let x = n;`, `x` a variable in scope (its name ASCII and no keyword)
/// and `n` an integer constant that fits in `usize`, compiles to pushing
/// `n` and popping it into the variable's segment at its index.
pub proof fn lemma_let_constant(
    st: State,
    x: Seq<char>,
    d: Seq<char>,
    rest: Seq<char>,
    ty: Seq<char>,
    kind: Kind,
    index: nat,
)
    requires
        st.content == seq![' '] + x + seq![' ', '=', ' '] + d + seq![';'] + rest,
        x.len() > 0,
        ascii_letter(x[0]) || x[0] == '_',
        forall|i: int| 0 <= i < x.len() ==> ascii_ident_char(#[trigger] x[i]),
        !jack_keywords().contains(x),
        lookup(st, x) == Some((ty, kind, index)),
        kind != Kind::NONE,
        d.len() > 0,
        all_digits(d),
        decimal(d) <= usize::MAX,
    ensures
        let_statement(st) == (
            Ok::<(), Failure>(()),
            State {
                content: rest,
                token: seq![';'],
                token_type: TokenType::Symbol,
                output: st.output + push_line(VMSegment::CONSTANT, decimal(d)) + pop_line(
                    segment_of(kind).unwrap(),
                    index,
                ),
                ..st
            },
        ),
{
    reveal_strlit("[");
    reveal_strlit("=");
    reveal_strlit(";");
    reveal_strlit("]");
    reveal_strlit(")");
    reveal_strlit(",");
    let sp = seq![' '];
    assert(is_white(' '));
    let ss = jack_symbols();
    assert(ss[8] == ';' && ss[17] == '=');
    // The name.
    let after_x = seq![' ', '=', ' '] + d + seq![';'] + rest;
    assert(st.content =~= sp + x + after_x);
    lemma_read_identifier(st, sp, x, after_x);
    let s1 = State { content: after_x, token: x, token_type: TokenType::Identifier, ..st };
    // The `=`.
    let after_eq = seq![' '] + d + seq![';'] + rest;
    assert(s1.content =~= sp + seq!['='] + after_eq);
    lemma_read_symbol(s1, sp, '=', after_eq);
    let s2 = State { content: after_eq, token: seq!['='], token_type: TokenType::Symbol, ..s1 };
    assert(seq!['='] =~= "="@);
    assert(seq!['='] != "["@) by {
        assert("["@[0] == '[');
    }
    // The constant.
    let after_d = seq![';'] + rest;
    assert(s2.content =~= sp + d + after_d);
    lemma_read_digits(s2, sp, d, after_d);
    lemma_parse_digits(d);
    let s3 = emit(
        State { content: after_d, token: d, token_type: TokenType::IntConstant, ..s2 },
        push_line(VMSegment::CONSTANT, decimal(d)),
    );
    assert(term(s2) == (Ok::<(), Failure>(()), s3));
    // The `;`.
    assert(s3.content =~= seq![] + seq![';'] + rest);
    lemma_read_symbol(s3, seq![], ';', rest);
    let s4 = State { content: rest, token: seq![';'], token_type: TokenType::Symbol, ..s3 };
    assert(seq![';'] =~= ";"@);
    assert(expression_rest(s4) == (Ok::<(), Failure>(()), s4));
    assert(expression(s2) == (Ok::<(), Failure>(()), s4));
    assert(lookup(s1, x) == lookup(st, x));
    let s5 = emit(s4, pop_line(segment_of(kind).unwrap(), index));
    assert(let_assignment(s2, kind, index, false, s2.token, seq![]) == (Ok::<(), Failure>(()), s5));
    assert(s5.output =~= st.output + push_line(VMSegment::CONSTANT, decimal(d)) + pop_line(
        segment_of(kind).unwrap(),
        index,
    ));
}

/// Compiling from `a` reached `b`: text was only read, code only added,
/// labels only made, and the class name kept.
pub open spec fn grows(a: State, b: State) -> bool {
    &&& b.content.len() <= a.content.len()
    &&& extends(a.output, b.output)
    &&& a.next_label <= b.next_label
    &&& a.class_name == b.class_name
}

/// Growing is transitive.
pub broadcast proof fn lemma_grows_trans(a: State, b: State, c: State)
    requires
        #[trigger] grows(a, b),
        #[trigger] grows(b, c),
    ensures
        grows(a, c),
{
}

/// Reading a token, writing a line, making a label, pushing or popping a
/// variable all grow the state.
pub proof fn lemma_steps_grow(st: State, line: Seq<char>, kind: Kind, index: nat)
    ensures
        grows(st, read_token(st).1),
        grows(st, emit(st, line)),
        grows(st, fresh_label(st).1),
        grows(st, push_variable(st, kind, index).1),
        grows(st, pop_variable(st, kind, index).1),
{
    lemma_read_token(st);
}

/// Compiling a term grows the state and makes no label.
pub proof fn lemma_term_grows(st: State)
    ensures
        grows(st, term(st).1),
        term(st).1.next_label == st.next_label,
    decreases st.content.len(), 2nat,
{
    lemma_read_token(st);
    match read_token(st) {
        (Err(_), s) => {},
        (Ok(_), s) => {
            let t = s.token;
            match s.token_type {
                TokenType::Identifier => {
                    lemma_identifier_term_grows(s, t);
                },
                TokenType::Symbol => {
                    lemma_expression_grows(s);
                    lemma_term_grows(s);
                },
                _ => {},
            }
        },
    }
}

/// Compiling an array element grows the state and makes no label.
pub proof fn lemma_array_element_grows(st: State, info: Option<(Seq<char>, Kind, nat)>)
    ensures
        grows(st, array_element(st, info).1),
        array_element(st, info).1.next_label == st.next_label,
    decreases st.content.len(), 0nat,
{
    lemma_read_token(st);
    match read_token(st) {
        (Err(_), _) => {},
        (Ok(_), s1) => {
            lemma_expression_grows(s1);
        },
    }
}

/// Compiling a call of the class's own subroutine grows the state and
/// makes no label.
pub proof fn lemma_local_call_grows(st: State, name: Seq<char>, info: Option<(Seq<char>, Kind, nat)>)
    ensures
        grows(st, local_call(st, name, info).1),
        local_call(st, name, info).1.next_label == st.next_label,
    decreases st.content.len(), 0nat,
{
    let (bad, s1) = push_found(st, info, name);
    lemma_read_token(s1);
    match read_token(s1) {
        (Err(_), _) => {},
        (Ok(_), s2) => {
            lemma_expression_list_grows(s2);
        },
    }
}

/// Compiling a call `name.function(...)` grows the state and makes no
/// label.
pub proof fn lemma_qualified_call_grows(
    st: State,
    name: Seq<char>,
    info: Option<(Seq<char>, Kind, nat)>,
)
    ensures
        grows(st, qualified_call(st, name, info).1),
        qualified_call(st, name, info).1.next_label == st.next_label,
    decreases st.content.len(), 0nat,
{
    let (bad, s1) = push_found(st, info, name);
    lemma_read_token(s1);
    match read_token(s1) {
        (Err(_), _) => {},
        (Ok(_), s2) => {
            lemma_read_token(s2);
            match read_token(s2) {
                (Err(_), _) => {},
                (Ok(_), s3) => {
                    lemma_read_token(s3);
                    match read_token(s3) {
                        (Err(_), _) => {},
                        (Ok(_), s4) => {
                            lemma_expression_list_grows(s4);
                        },
                    }
                },
            }
        },
    }
}

/// Compiling a term that starts with an identifier grows the state and
/// makes no label.
pub proof fn lemma_identifier_term_grows(st: State, name: Seq<char>)
    ensures
        grows(st, identifier_term(st, name).1),
        identifier_term(st, name).1.next_label == st.next_label,
    decreases st.content.len(), 1nat,
{
    let info = lookup(st, name);
    if starts_with(st.content, "["@) {
        lemma_array_element_grows(st, info);
    } else if starts_with(st.content, "("@) {
        lemma_local_call_grows(st, name, info);
    } else if starts_with(st.content, "."@) {
        lemma_qualified_call_grows(st, name, info);
    } else {
        let (bad, s1) = push_found(st, info, name);
        assert(grows(st, s1));
    }
}

/// Compiling the rest of an expression grows the state and makes no label.
pub proof fn lemma_expression_rest_grows(st: State)
    ensures
        grows(st, expression_rest(st).1),
        expression_rest(st).1.next_label == st.next_label,
    decreases st.content.len(), 3nat,
{
    lemma_term_grows(st);
    let s1 = term(st).1;
    match operator_code(st.token) {
        Some(code) => {
            let s2 = emit(s1, code);
            if s2.content.len() <= st.content.len() {
                lemma_read_token(s2);
                match read_token(s2) {
                    (Err(_), _) => {},
                    (Ok(_), s3) => {
                        lemma_expression_rest_grows(s3);
                    },
                }
            }
        },
        None => {},
    }
}

/// Compiling an expression grows the state and makes no label.
pub proof fn lemma_expression_grows(st: State)
    ensures
        grows(st, expression(st).1),
        expression(st).1.next_label == st.next_label,
    decreases st.content.len(), 4nat,
{
    lemma_term_grows(st);
    let s1 = term(st).1;
    if s1.content.len() <= st.content.len() {
        lemma_read_token(s1);
        match read_token(s1) {
            (Err(_), _) => {},
            (Ok(_), s2) => {
                lemma_expression_rest_grows(s2);
            },
        }
    }
}

/// Compiling the rest of an expression list grows the state and makes no
/// label.
pub proof fn lemma_expression_list_rest_grows(st: State, n: nat)
    ensures
        grows(st, expression_list_rest(st, n).1),
        expression_list_rest(st, n).1.next_label == st.next_label,
    decreases st.content.len(), 5nat,
{
    if st.token == ")"@ {
    } else if st.token == ","@ {
        lemma_expression_grows(st);
        match expression(st) {
            (Err(_), _) => {},
            (Ok(_), s1) => {
                if s1.content.len() < st.content.len() {
                    lemma_expression_list_rest_grows(s1, n + 1);
                }
            },
        }
    }
}

/// Compiling an expression list grows the state and makes no label.
#[verifier::rlimit(30)]
pub proof fn lemma_expression_list_grows(st: State)
    ensures
        grows(st, expression_list(st).1),
        expression_list(st).1.next_label == st.next_label,
    decreases st.content.len(), 6nat,
{
    if !starts_with(st.content, ")"@) {
        lemma_expression_grows(st);
        match expression(st) {
            (Err(_), _) => {},
            (Ok(_), s1) => {
                if s1.content.len() < st.content.len() {
                    lemma_expression_list_rest_grows(s1, 1);
                }
            },
        }
    } else {
        lemma_read_token(st);
    }
}

/// Compiling the assignment of a `let` statement grows the state and makes
/// no label.
pub proof fn lemma_let_assignment_grows(
    st: State,
    kind: Kind,
    index: nat,
    is_array: bool,
    token: Seq<char>,
    bad: Seq<char>,
)
    ensures
        grows(st, let_assignment(st, kind, index, is_array, token, bad).1),
        let_assignment(st, kind, index, is_array, token, bad).1.next_label == st.next_label,
{
    lemma_expression_grows(st);
}

/// Compiling the index of a `let` statement grows the state and makes no
/// label.
pub proof fn lemma_let_index_grows(st: State, kind: Kind, index: nat)
    ensures
        grows(st, let_index(st, kind, index).1),
        let_index(st, kind, index).1.next_label == st.next_label,
{
    lemma_expression_grows(st);
    match expression(st) {
        (Err(_), _) => {},
        (Ok(_), s1) => {
            let t = s1.token;
            let (ok, s2) = push_variable(s1, kind, index);
            let s3 = emit(s2, arithmetic_line(Commands::ADD));
            lemma_let_assignment_grows(s2, kind, index, true, t, t);
            lemma_let_assignment_grows(s3, kind, index, true, t, t);
            lemma_read_token(s3);
            let s4 = read_token(s3).1;
            lemma_let_assignment_grows(s4, kind, index, true, s4.token, seq![]);
        },
    }
}

/// Compiling a `let` statement grows the state and makes no label.
pub proof fn lemma_let_statement_grows(st: State)
    ensures
        grows(st, let_statement(st).1),
        let_statement(st).1.next_label == st.next_label,
{
    lemma_read_token(st);
    let s1 = read_token(st).1;
    lemma_read_token(s1);
    let s2 = read_token(s1).1;
    match lookup(s1, s1.token) {
        Some((_, kind, index)) => {
            lemma_let_index_grows(s2, kind, index);
            lemma_let_assignment_grows(s2, kind, index, false, s2.token, seq![]);
        },
        None => {},
    }
}

/// Compiling the `else` branch of an `if` statement grows the state.
pub proof fn lemma_else_branch_grows(st: State, other: nat, end: nat)
    ensures
        grows(st, else_branch(st, other, end).1),
    decreases st.content.len(), 0nat,
{
    let s1 = emit(st, label_line(st.class_name, other));
    lemma_read_token(s1);
    match read_token(s1) {
        (Err(_), _) => {},
        (Ok(_), s2) => {
            lemma_read_token(s2);
            match read_token(s2) {
                (Err(_), _) => {},
                (Ok(_), s3) => {
                    lemma_statements_grows(s3);
                },
            }
        },
    }
}

/// Compiling an `if` statement grows the state by at least its two labels.
pub proof fn lemma_if_statement_grows(st: State)
    ensures
        grows(st, if_statement(st).1),
    decreases st.content.len(), 1nat,
{
    let (end, s0) = fresh_label(st);
    lemma_read_token(s0);
    match read_token(s0) {
        (Err(_), _) => {},
        (Ok(_), s1) => {
            lemma_expression_grows(s1);
            match expression(s1) {
                (Err(_), _) => {},
                (Ok(_), s2) => {
                    let s3 = emit(s2, arithmetic_line(Commands::NOT));
                    let (other, s4) = fresh_label(s3);
                    let s5 = emit(s4, if_line(s4.class_name, other));
                    if s5.token == ")"@ && s5.content.len() <= s1.content.len() {
                        lemma_read_token(s5);
                        match read_token(s5) {
                            (Err(_), _) => {},
                            (Ok(_), s6) => {
                                lemma_statements_grows(s6);
                                match statements(s6) {
                                    (Err(_), _) => {},
                                    (Ok(_), s7) => {
                                        let s8 = emit(s7, goto_line(s7.class_name, end));
                                        if s8.content.len() < st.content.len() {
                                            lemma_else_branch_grows(s8, other, end);
                                        }
                                    },
                                }
                            },
                        }
                    }
                },
            }
        },
    }
}

/// Compiling a `while` statement grows the state.
pub proof fn lemma_while_statement_grows(st: State)
    ensures
        grows(st, while_statement(st).1),
    decreases st.content.len(), 1nat,
{
    let (top, s0) = fresh_label(st);
    let s1 = emit(s0, label_line(s0.class_name, top));
    lemma_read_token(s1);
    match read_token(s1) {
        (Err(_), _) => {},
        (Ok(_), s2) => {
            lemma_expression_grows(s2);
            match expression(s2) {
                (Err(_), _) => {},
                (Ok(_), s3) => {
                    let s4 = emit(s3, arithmetic_line(Commands::NOT));
                    let (exit, s5) = fresh_label(s4);
                    let s6 = emit(s5, if_line(s5.class_name, exit));
                    if s6.token == ")"@ && s6.content.len() <= s2.content.len() {
                        lemma_read_token(s6);
                        match read_token(s6) {
                            (Err(_), _) => {},
                            (Ok(_), s7) => {
                                lemma_statements_grows(s7);
                            },
                        }
                    }
                },
            }
        },
    }
}

/// Compiling a call of a `do` statement on the current object grows the
/// state and makes no label.
pub proof fn lemma_do_local_call_grows(st: State, name: Seq<char>)
    ensures
        grows(st, do_local_call(st, name).1),
        do_local_call(st, name).1.next_label == st.next_label,
{
    lemma_read_token(st);
    match read_token(st) {
        (Err(_), _) => {},
        (Ok(_), s1) => {
            let s2 = emit(s1, push_line(VMSegment::POINTER, 0));
            lemma_expression_list_grows(s2);
        },
    }
}

/// Compiling a call `name.function(...)` of a `do` statement grows the
/// state and makes no label.
pub proof fn lemma_do_qualified_call_grows(
    st: State,
    name: Seq<char>,
    info: Option<(Seq<char>, Kind, nat)>,
)
    ensures
        grows(st, do_qualified_call(st, name, info).1),
        do_qualified_call(st, name, info).1.next_label == st.next_label,
{
    lemma_read_token(st);
    let (r1, s1) = read_token(st);
    if r1 is Ok {
        lemma_read_token(s1);
        let (r2, s2) = read_token(s1);
        if r2 is Ok {
            lemma_read_token(s2);
            let (r3, s3) = read_token(s2);
            if r3 is Ok && s3.token == "("@ {
                match info {
                    Some((_, kind, index)) => {
                        let s4 = push_variable(s3, kind, index).1;
                        assert(grows(st, s4));
                        lemma_expression_list_grows(s4);
                    },
                    None => {
                        assert(grows(st, s3));
                        lemma_expression_list_grows(s3);
                    },
                }
            }
        }
    }
}

/// Compiling a `do` statement grows the state and makes no label.
pub proof fn lemma_do_statement_grows(st: State)
    ensures
        grows(st, do_statement(st).1),
        do_statement(st).1.next_label == st.next_label,
{
    lemma_read_token(st);
    match read_token(st) {
        (Err(_), _) => {},
        (Ok(_), s1) => {
            let name = s1.token;
            if starts_with(s1.content, "("@) {
                lemma_do_local_call_grows(s1, name);
            } else if starts_with(s1.content, "."@) {
                lemma_do_qualified_call_grows(s1, name, lookup(s1, name));
            }
            let s2 = do_call(s1, name).1;
            lemma_read_token(s2);
        },
    }
}

/// Compiling a `return` statement grows the state and makes no label.
pub proof fn lemma_return_statement_grows(st: State)
    ensures
        grows(st, return_statement(st).1),
        return_statement(st).1.next_label == st.next_label,
{
    lemma_expression_grows(st);
    lemma_read_token(emit(st, push_line(VMSegment::CONSTANT, 0)));
}

/// Compiling the statement that the current keyword starts grows the
/// state.
pub proof fn lemma_statement_grows(st: State)
    ensures
        statement(st) matches Some((_, s)) ==> grows(st, s),
    decreases st.content.len(), 2nat,
{
    let t = st.token;
    if t == "let"@ {
        lemma_let_statement_grows(st);
    } else if t == "if"@ {
        lemma_if_statement_grows(st);
    } else if t == "while"@ {
        lemma_while_statement_grows(st);
    } else if t == "do"@ {
        lemma_do_statement_grows(st);
    } else if t == "return"@ {
        lemma_return_statement_grows(st);
    }
}

/// Compiling statements from the current token on grows the state.
pub proof fn lemma_statements_rest_grows(st: State)
    ensures
        grows(st, statements_rest(st).1),
    decreases st.content.len(), 3nat,
{
    if st.token_type == TokenType::Keyword {
        lemma_statement_grows(st);
        match statement(st) {
            Some((Ok(_), s1)) => if s1.content.len() <= st.content.len() {
                lemma_read_token(s1);
                match read_token(s1) {
                    (Err(_), _) => {},
                    (Ok(_), s2) => {
                        lemma_statements_rest_grows(s2);
                    },
                }
            },
            _ => {},
        }
    }
}

/// Compiling statements grows the state.
pub proof fn lemma_statements_grows(st: State)
    ensures
        grows(st, statements(st).1),
    decreases st.content.len(), 4nat,
{
    lemma_read_token(st);
    match read_token(st) {
        (Err(_), _) => {},
        (Ok(_), s1) => {
            lemma_statements_rest_grows(s1);
        },
    }
}


/// The count of local variables that a list of names yields is the number
/// of locals that it defined in the subroutine scope.
pub proof fn lemma_local_names_count(st: State, ty: Seq<char>, n: nat)
    ensures
        local_names(st, ty, n).0 matches Ok(m) ==> n <= m && local_names(st, ty, n).1.sub_scope.locals
            + n == st.sub_scope.locals + m,
    decreases st.content.len(),
{
    if st.token != ";"@ {
        if let Ok(sc) = define_in(st.sub_scope, st.token, ty, Kind::LOCAL) {
            let s1 = State { sub_scope: sc, ..st };
            lemma_read_token(s1);
            let s2 = read_token(s1).1;
            lemma_read_token(s2);
            if read_token(s1).0 is Ok {
                let (r, s3) = if s2.token == ","@ {
                    read_token(s2)
                } else {
                    (Ok(()), s2)
                };
                if r is Ok {
                    lemma_local_names_count(s3, ty, n + 1);
                }
            }
        }
    }
}

/// The count of local variables that the `var` declarations of a
/// subroutine yield, and that its `function` line carries, is the number
/// of locals that they defined in the subroutine scope.
pub proof fn lemma_variable_declarations_count(st: State, n: nat)
    ensures
        variable_declarations(st, n).0 matches Ok(m) ==> n <= m && variable_declarations(st, n).1.sub_scope.locals
            + n == st.sub_scope.locals + m,
    decreases st.content.len(),
{
    if starts_with(st.content, "var"@) {
        lemma_read_token(st);
        let s1 = read_token(st).1;
        lemma_read_token(s1);
        let s2 = read_token(s1).1;
        lemma_read_token(s2);
        let s3 = read_token(s2).1;
        if read_token(st).0 is Ok && read_token(s1).0 is Ok && read_token(s2).0 is Ok {
            lemma_local_names_count(s3, s2.token, n);
            if let (Ok(m), s4) = local_names(s3, s2.token, n) {
                if s4.content.len() < st.content.len() {
                    lemma_variable_declarations_count(s4, m);
                }
            }
        }
    }
}


/// The parameters of a subroutine write no code, keep the class, and
/// count as many arguments as they define.
pub proof fn lemma_parameters_keep(st: State, n: nat)
    ensures
        parameters(st, n).1.output == st.output,
        parameters(st, n).1.class_name == st.class_name,
        parameters(st, n).0 matches Ok(m) ==> n <= m && parameters(st, n).1.sub_scope.args + n
            == st.sub_scope.args + m,
    decreases st.content.len(),
{
    if st.token != ")"@ {
        lemma_read_token(st);
        let s1 = read_token(st).1;
        if read_token(st).0 is Ok {
            if let Ok(sc) = define_in(s1.sub_scope, s1.token, st.token, Kind::ARG) {
                let s2 = State { sub_scope: sc, ..s1 };
                lemma_read_token(s2);
                let s3 = read_token(s2).1;
                lemma_read_token(s3);
                if read_token(s2).0 is Ok {
                    let (r, s4) = if s3.token == ","@ {
                        read_token(s3)
                    } else {
                        (Ok(()), s3)
                    };
                    if r is Ok {
                        lemma_parameters_keep(s4, n + 1);
                    }
                }
            }
        }
    }
}

/// The names of a `var` declaration write no code and keep the class.
pub proof fn lemma_local_names_keep(st: State, ty: Seq<char>, n: nat)
    ensures
        local_names(st, ty, n).1.output == st.output,
        local_names(st, ty, n).1.class_name == st.class_name,
    decreases st.content.len(),
{
    if st.token != ";"@ {
        if let Ok(sc) = define_in(st.sub_scope, st.token, ty, Kind::LOCAL) {
            let s1 = State { sub_scope: sc, ..st };
            lemma_read_token(s1);
            let s2 = read_token(s1).1;
            lemma_read_token(s2);
            if read_token(s1).0 is Ok {
                let (r, s3) = if s2.token == ","@ {
                    read_token(s2)
                } else {
                    (Ok(()), s2)
                };
                if r is Ok {
                    lemma_local_names_keep(s3, ty, n + 1);
                }
            }
        }
    }
}

/// The `var` declarations of a subroutine write no code and keep the
/// class.
pub proof fn lemma_variable_declarations_keep(st: State, n: nat)
    ensures
        variable_declarations(st, n).1.output == st.output,
        variable_declarations(st, n).1.class_name == st.class_name,
    decreases st.content.len(),
{
    if starts_with(st.content, "var"@) {
        lemma_read_token(st);
        let s1 = read_token(st).1;
        lemma_read_token(s1);
        let s2 = read_token(s1).1;
        lemma_read_token(s2);
        let s3 = read_token(s2).1;
        if read_token(st).0 is Ok && read_token(s1).0 is Ok && read_token(s2).0 is Ok {
            lemma_local_names_keep(s3, s2.token, n);
            if let (Ok(m), s4) = local_names(s3, s2.token, n) {
                if s4.content.len() < st.content.len() {
                    lemma_variable_declarations_keep(s4, m);
                }
            }
        }
    }
}


/// Where no definition fails, the names after the first one of a class
/// variable declaration keep every variable the class scope held.
pub proof fn lemma_class_variable_names_keep(st: State, ty: Seq<char>, kind: Kind)
    ensures
        class_variable_names(st, ty, kind).0 is Ok ==> st.class_scope.symbols.submap_of(
            class_variable_names(st, ty, kind).1.class_scope.symbols,
        ),
    decreases st.content.len(),
{
    if st.token == ","@ {
        lemma_read_token(st);
        let s1 = read_token(st).1;
        if read_token(st).0 is Ok {
            if let Ok(sc) = define_in(s1.class_scope, s1.token, ty, kind) {
                let s2 = State { class_scope: sc, ..s1 };
                lemma_read_token(s2);
                assert(st.class_scope.symbols.submap_of(sc.symbols));
                if read_token(s2).0 is Ok {
                    let s3 = read_token(s2).1;
                    lemma_class_variable_names_keep(s3, ty, kind);
                    if class_variable_names(s3, ty, kind).0 is Ok {
                        vstd::map_lib::lemma_submap_of_trans(
                            st.class_scope.symbols,
                            sc.symbols,
                            class_variable_names(s3, ty, kind).1.class_scope.symbols,
                        );
                    }
                }
            }
        }
    }
}

/// Where no definition fails, class variable declarations keep every
/// variable the class scope held.
pub proof fn lemma_class_variable_declarations_keep(st: State, bad: Seq<char>)
    ensures
        class_variable_declarations(st, bad).0 is Ok ==> st.class_scope.symbols.submap_of(
            class_variable_declarations(st, bad).1.class_scope.symbols,
        ),
    decreases st.content.len(),
{
    let t = st.token;
    if t == "static"@ || t == "field"@ {
        let kind = if t == "static"@ {
            Kind::STATIC
        } else {
            Kind::THIS
        };
        lemma_read_token(st);
        let s1 = read_token(st).1;
        lemma_read_token(s1);
        let s2 = read_token(s1).1;
        if read_token(st).0 is Ok && read_token(s1).0 is Ok {
            if let Ok(sc) = define_in(s2.class_scope, s2.token, s1.token, kind) {
                let s2b = State { class_scope: sc, ..s2 };
                lemma_read_token(s2b);
                let s3 = read_token(s2b).1;
                assert(st.class_scope.symbols.submap_of(sc.symbols));
                if read_token(s2b).0 is Ok {
                    lemma_class_variable_names_keep(s3, s1.token, kind);
                    let s4 = class_variable_names(s3, s1.token, kind).1;
                    if class_variable_names(s3, s1.token, kind).0 is Ok {
                        vstd::map_lib::lemma_submap_of_trans(st.class_scope.symbols, sc.symbols, s4.class_scope.symbols);
                        if s4.content.len() < st.content.len() {
                            let b2 = if s4.token != ";"@ {
                                s4.token
                            } else {
                                bad
                            };
                            lemma_class_variable_declarations_keep(s4, b2);
                            if class_variable_declarations(s4, b2).0 is Ok {
                                vstd::map_lib::lemma_submap_of_trans(
                                    st.class_scope.symbols,
                                    s4.class_scope.symbols,
                                    class_variable_declarations(s4, b2).1.class_scope.symbols,
                                );
                            }
                        }
                    }
                }
            }
        }
    }
}

/// A `field` declaration makes its first name a variable of kind `THIS`
/// (a field, reached through the `this` segment), a `static` one of kind
/// `STATIC`, with the declared type and the index that counts the
/// variables of that kind declared before; it stays so when the
/// declarations compile.
pub proof fn lemma_class_variable_kind(st: State, bad: Seq<char>)
    ensures
        ({
            let s1 = read_token(st).1;
            let s2 = read_token(s1).1;
            let is_field = st.token == seq!['f', 'i', 'e', 'l', 'd'];
            let is_static = st.token == seq!['s', 't', 'a', 't', 'i', 'c'];
            ((is_field || is_static) && read_token(st).0 is Ok && read_token(s1).0 is Ok
                && class_variable_declarations(st, bad).0 is Ok) ==> {
                let table = class_variable_declarations(st, bad).1.class_scope.symbols;
                &&& table.contains_key(s2.token)
                &&& is_field ==> table[s2.token] == (s1.token, Kind::THIS, s2.class_scope.fields)
                &&& is_static ==> table[s2.token] == (s1.token, Kind::STATIC, s2.class_scope.statics)
            }
        }),
{
    reveal_strlit("field");
    reveal_strlit("static");
    assert(seq!['f', 'i', 'e', 'l', 'd'] =~= "field"@);
    assert(seq!['s', 't', 'a', 't', 'i', 'c'] =~= "static"@);
    let t = st.token;
    if (t == "static"@ || t == "field"@) && read_token(st).0 is Ok {
        assert("field"@ != "static"@) by {
            assert("field"@[0] != "static"@[0]);
        }
        let kind = if t == "static"@ {
            Kind::STATIC
        } else {
            Kind::THIS
        };
        lemma_read_token(st);
        let s1 = read_token(st).1;
        lemma_read_token(s1);
        let s2 = read_token(s1).1;
        if read_token(s1).0 is Ok && class_variable_declarations(st, bad).0 is Ok {
            let sc = define_in(s2.class_scope, s2.token, s1.token, kind)->Ok_0;
            let s2b = State { class_scope: sc, ..s2 };
            lemma_read_token(s2b);
            let s3 = read_token(s2b).1;
            lemma_class_variable_names_keep(s3, s1.token, kind);
            let s4 = class_variable_names(s3, s1.token, kind).1;
            assert(sc.symbols.contains_key(s2.token));
            assert(sc.symbols[s2.token] == (s1.token, kind, crate::symbol::scope_count(s2.class_scope, kind)));
            let m = map![s2.token => sc.symbols[s2.token]];
            assert(m.submap_of(sc.symbols));
            vstd::map_lib::lemma_submap_of_trans(m, sc.symbols, s4.class_scope.symbols);
            let b2 = if s4.token != ";"@ {
                s4.token
            } else {
                bad
            };
            assert(class_variable_declarations(st, bad) == (if s4.content.len() < st.content.len() {
                class_variable_declarations(s4, b2)
            } else {
                (Ok(()), s4)
            }));
            if s4.content.len() < st.content.len() {
                lemma_class_variable_declarations_keep(s4, b2);
                vstd::map_lib::lemma_submap_of_trans(m, s4.class_scope.symbols, class_variable_declarations(s4, b2).1.class_scope.symbols);
            }
            let table = class_variable_declarations(st, bad).1.class_scope.symbols;
            assert(m.submap_of(table));
            assert(m.contains_key(s2.token));
            assert(table.contains_key(s2.token));
            assert(table[s2.token] == (s1.token, kind, crate::symbol::scope_count(s2.class_scope, kind)));
        }
    }
}

} // verus!
