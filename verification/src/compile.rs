use vstd::prelude::*;

use crate::compile_model::{
    append_chars_code, array_element, class, class_variable_declarations, class_variable_names,
    class_variables, do_call, do_local_call, do_qualified_call, do_statement, else_branch, emit,
    expression, expression_list, expression_list_rest, expression_rest, identifier_term,
    if_statement, initial_state, let_assignment, let_index, let_statement, local_call, local_names,
    lookup, operator_code, parameter_list, parameters, pop_variable, push_found, push_variable,
    qualified_call, read_token, return_statement, statement, statements, statements_rest,
    string_constant_code, subroutine, subroutines, term, this_setup, variable_declarations,
    verdict, while_statement, Failure, State,
};
use crate::numbers::parse_usize_chars;
use crate::symbol::{define_in, Kind, SymbolError, SymbolTable};
use crate::text::{
    chars_of, concat_text, dotted, extends, same_text, string_of, text_starts_with, trim_set_chars,
};
use crate::tokenizer::{JackTokenizer, TokenType, TokenizeError};
use crate::writer::{call_line, push_line, Commands, VMSegment, VmWriteError, VmWriter};

verus! {

/// The constructs of the grammar, as compilation errors name them.
#[derive(PartialEq, Eq, Structural, Debug, Clone, Copy)]
pub enum Construct {
    Class,
    ClassVariableDeclaration,
    SubroutineDeclaration,
    Statements,
    IfStatement,
    WhileStatement,
    DoStatement,
    ReturnStatement,
    Expression,
    Term,
    ExpressionList,
}

/// Why a class could not be compiled.
#[derive(PartialEq, Eq, Debug, Clone)]
pub enum CompileError {
    /// No token could be read.
    Tokenize(TokenizeError),
    /// A VM command could not be written.
    Write(VmWriteError),
    /// A variable could not be defined.
    Symbol(SymbolError),
    /// An integer constant does not fit in `usize`.
    BadInteger,
    /// A token that the construct does not allow.
    BadToken(Construct, String),
}

impl Construct {
    /// How error reports name the construct, as characters.
    pub open spec fn name(&self) -> Seq<char> {
        match *self {
            Construct::Class => "Class"@,
            Construct::ClassVariableDeclaration => "Class variable declaration"@,
            Construct::SubroutineDeclaration => "Subroutine declaration"@,
            Construct::Statements => "Statements"@,
            Construct::IfStatement => "If statement"@,
            Construct::WhileStatement => "While statement"@,
            Construct::DoStatement => "Do statement"@,
            Construct::ReturnStatement => "Return statement"@,
            Construct::Expression => "Expression"@,
            Construct::Term => "Term"@,
            Construct::ExpressionList => "Expression List"@,
        }
    }

    /// How error reports name the construct.
    pub fn label(&self) -> (m: &'static str)
        ensures
            m@ == self.name(),
    {
        match self {
            Construct::Class => "Class",
            Construct::ClassVariableDeclaration => "Class variable declaration",
            Construct::SubroutineDeclaration => "Subroutine declaration",
            Construct::Statements => "Statements",
            Construct::IfStatement => "If statement",
            Construct::WhileStatement => "While statement",
            Construct::DoStatement => "Do statement",
            Construct::ReturnStatement => "Return statement",
            Construct::Expression => "Expression",
            Construct::Term => "Term",
            Construct::ExpressionList => "Expression List",
        }
    }
}

impl CompileError {
    /// The text that reports the error, as characters.
    pub open spec fn report(&self) -> Seq<char> {
        match *self {
            CompileError::Tokenize(e) => e.report(),
            CompileError::Write(e) => e.report(),
            CompileError::Symbol(e) => e.report(),
            CompileError::BadInteger => "number too large to fit in target type"@,
            CompileError::BadToken(c, t) => c.name()
                + " compilation failed, invalid token type or wrong token: "@ + t@,
        }
    }

    /// The text that reports the error.
    pub fn message(&self) -> (m: String)
        ensures
            m@ == self.report(),
    {
        match self {
            CompileError::Tokenize(e) => e.message().to_owned(),
            CompileError::Write(e) => e.message().to_owned(),
            CompileError::Symbol(e) => e.message().to_owned(),
            CompileError::BadInteger => "number too large to fit in target type".to_owned(),
            CompileError::BadToken(c, t) => {
                let head = concat_text(
                    c.label(),
                    " compilation failed, invalid token type or wrong token: ",
                );
                concat_text(head.as_str(), t.as_str())
            },
        }
    }
}

/// The failure that the error `e` reports.
pub open spec fn failure_of(e: CompileError) -> Failure {
    match e {
        CompileError::Tokenize(t) => Failure::Tokenize(t),
        CompileError::Write(w) => Failure::Write(w),
        CompileError::Symbol(y) => Failure::Symbol(y),
        CompileError::BadInteger => Failure::BadInteger,
        CompileError::BadToken(c, t) => Failure::BadToken(c, t@),
    }
}

/// The outcome of a step that yields nothing, as a value.
pub open spec fn outcome(r: Result<(), CompileError>) -> Result<(), Failure> {
    match r {
        Ok(()) => Ok(()),
        Err(e) => Err(failure_of(e)),
    }
}

/// The outcome of a step that yields a number, as a value.
pub open spec fn outcome_count(r: Result<usize, CompileError>) -> Result<nat, Failure> {
    match r {
        Ok(n) => Ok(n as nat),
        Err(e) => Err(failure_of(e)),
    }
}

/// The outcome of a step that yields a token, as a value.
pub open spec fn outcome_text(r: Result<String, CompileError>) -> Result<Seq<char>, Failure> {
    match r {
        Ok(t) => Ok(t@),
        Err(e) => Err(failure_of(e)),
    }
}

/// How a construct ends: an error naming the token `bad_token`, unless it
/// is empty.
fn conclude(construct: Construct, bad_token: String) -> (r: Result<(), CompileError>)
    ensures
        outcome(r) == verdict(construct, bad_token@),
{
    if !bad_token.as_str().is_empty() {
        return Err(CompileError::BadToken(construct, bad_token));
    }
    Ok(())
}

/// Whether `t` is one of the binary operators `+ - * / | = < > &`.
fn is_operator(t: &str) -> (b: bool)
    ensures
        b == operator_code(t@) is Some,
{
    same_text(t, "+") || same_text(t, "-") || same_text(t, "*") || same_text(t, "/") || same_text(
        t,
        "|",
    ) || same_text(t, "=") || same_text(t, "<") || same_text(t, ">") || same_text(t, "&")
}

/// What the scopes hold of a name, as `lookup` finds it: its type, kind
/// and index, when all three are there.
pub open spec fn found(info: (Option<Kind>, Option<usize>, Option<String>)) -> Option<(Seq<char>, Kind, nat)> {
    match info {
        (Some(kind), Some(index), Some(ty)) => Some((ty@, kind, index as nat)),
        _ => None,
    }
}

broadcast use crate::text::group_extends;

/// Compiles one Jack class to VM code.
pub struct CompilationEngine {
    tokenizer: JackTokenizer,
    vm_writer: VmWriter,
    class_symbol_table: SymbolTable,
    subroutine_symbol_table: SymbolTable,
}

impl CompilationEngine {
    /// The engine as a value.
    pub closed spec fn state(&self) -> State {
        State {
            content: self.tokenizer.content(),
            token: self.tokenizer.token(),
            token_type: self.tokenizer.token_type(),
            output: self.vm_writer.output(),
            class_name: self.vm_writer.class(),
            next_label: self.vm_writer.next_label(),
            class_scope: self.class_symbol_table.scope(),
            sub_scope: self.subroutine_symbol_table.scope(),
        }
    }

    /// The text not yet read.
    pub closed spec fn content(&self) -> Seq<char> {
        self.tokenizer.content()
    }

    /// The current token.
    pub closed spec fn token(&self) -> Seq<char> {
        self.tokenizer.token()
    }

    /// The VM code written so far.
    pub closed spec fn output(&self) -> Seq<char> {
        self.vm_writer.output()
    }

    /// The name of the class.
    pub closed spec fn class_name(&self) -> Seq<char> {
        self.vm_writer.class()
    }

    /// The next label number.
    pub closed spec fn next_label(&self) -> nat {
        self.vm_writer.next_label()
    }

    /// The engine is well formed: its symbol tables are, and each label
    /// still to be made can be paid for with a character still to be read.
    pub closed spec fn wf(&self) -> bool {
        &&& self.class_symbol_table.wf()
        &&& self.subroutine_symbol_table.wf()
        &&& self.vm_writer.next_label() + self.tokenizer.content().len() <= usize::MAX
    }

    /// `self` is a state that compiling from `before` can reach: code was
    /// only added, text only read, labels only made.
    pub closed spec fn follows(self, before: Self) -> bool {
        &&& self.wf()
        &&& self.tokenizer.content().len() <= before.tokenizer.content().len()
        &&& extends(before.vm_writer.output(), self.vm_writer.output())
        &&& self.vm_writer.class() == before.vm_writer.class()
        &&& self.vm_writer.next_label() >= before.vm_writer.next_label()
    }

    /// The class scope is the same in `self` as in `before`.
    pub closed spec fn class_fixed(self, before: Self) -> bool {
        &&& self.class_symbol_table.symbols() == before.class_symbol_table.symbols()
        &&& forall|k: Kind| #[trigger] self.class_symbol_table.count(k)
            == before.class_symbol_table.count(k)
    }

    /// Only the tokenizer differs between `self` and `before`.
    spec fn steady(self, before: Self) -> bool {
        &&& self.vm_writer == before.vm_writer
        &&& self.class_symbol_table == before.class_symbol_table
        &&& self.subroutine_symbol_table == before.subroutine_symbol_table
    }

    /// An engine for the class `class_name`, whose Jack source is `source`.
    pub fn new(source: String, class_name: String) -> (e: Self)
        ensures
            e.wf(),
            e.state() == initial_state(crate::tokenizer::clean_jack(source@), class_name@),
    {
        let jack_tokenizer = JackTokenizer::new(source);
        // The text is no longer than `usize::MAX`, so neither are the labels
        // made while reading it.
        let text_length = jack_tokenizer.get_file_content().unicode_len();
        assert(text_length == jack_tokenizer.content().len());
        let vm_writer = VmWriter::new(class_name);
        CompilationEngine {
            tokenizer: jack_tokenizer,
            vm_writer,
            class_symbol_table: SymbolTable::new(),
            subroutine_symbol_table: SymbolTable::new(),
        }
    }

    /// The VM code written so far.
    pub fn get_output(&self) -> (s: &str)
        ensures
            s@ == self.state().output,
    {
        self.vm_writer.get_output()
    }

    /// The current token, copied.
    fn tok(&self) -> (s: String)
        ensures
            s@ == self.token(),
    {
        self.tokenizer.get_token().to_owned()
    }

    /// Reads the next token.
    fn adv(&mut self) -> (r: Result<(), CompileError>)
        requires
            old(self).wf(),
        ensures
            final(self).wf(),
            final(self).steady(*old(self)),
            final(self).content().len() <= old(self).content().len(),
            r is Ok ==> final(self).content().len() + final(self).token().len() <= old(
                self,
            ).content().len(),
            r is Ok ==> final(self).content().len() < old(self).content().len(),
            (outcome(r), final(self).state()) == read_token(old(self).state()),
    {
        proof {
            reveal(read_token);
        }
        match self.tokenizer.advance() {
            Ok(()) => Ok(()),
            Err(e) => Err(CompileError::Tokenize(e)),
        }
    }

    /// Pushes the variable of kind `kind` and index `index`; `false` when
    /// the kind is `NONE`.
    fn push_variable(&mut self, kind: Kind, index: usize) -> (ok: bool)
        requires
            old(self).wf(),
        ensures
            final(self).follows(*old(self)),
            final(self).class_fixed(*old(self)),
            final(self).next_label() == old(self).next_label(),
            final(self).content() == old(self).content(),
            final(self).token() == old(self).token(),
            ok == (kind != Kind::NONE),
            (ok, final(self).state()) == push_variable(old(self).state(), kind, index as nat),
    {
        match kind {
            Kind::STATIC => {
                let _ = self.vm_writer.write_push(&VMSegment::STATIC, index);
            },
            Kind::ARG => {
                let _ = self.vm_writer.write_push(&VMSegment::ARGUMENT, index);
            },
            Kind::LOCAL => {
                let _ = self.vm_writer.write_push(&VMSegment::LOCAL, index);
            },
            Kind::THIS => {
                let _ = self.vm_writer.write_push(&VMSegment::THIS, index);
            },
            Kind::NONE => {
                return false;
            },
        }
        true
    }

    /// Pops into the variable of kind `kind` and index `index`; `false`
    /// when the kind is `NONE`.
    fn pop_variable(&mut self, kind: Kind, index: usize) -> (ok: bool)
        requires
            old(self).wf(),
        ensures
            final(self).follows(*old(self)),
            final(self).class_fixed(*old(self)),
            final(self).next_label() == old(self).next_label(),
            final(self).content() == old(self).content(),
            final(self).token() == old(self).token(),
            ok == (kind != Kind::NONE),
            (ok, final(self).state()) == pop_variable(old(self).state(), kind, index as nat),
    {
        match kind {
            Kind::STATIC => {
                let _ = self.vm_writer.write_pop(&VMSegment::STATIC, index);
            },
            Kind::ARG => {
                let _ = self.vm_writer.write_pop(&VMSegment::ARGUMENT, index);
            },
            Kind::LOCAL => {
                let _ = self.vm_writer.write_pop(&VMSegment::LOCAL, index);
            },
            Kind::THIS => {
                let _ = self.vm_writer.write_pop(&VMSegment::THIS, index);
            },
            Kind::NONE => {
                return false;
            },
        }
        true
    }

    /// Compiles an expression: a term, then pairs of an operator and a
    /// term, up to a `]`, `;`, `)`, `,` or a token that is no symbol.
    #[verifier::rlimit(30)]
    fn compile_expression(&mut self) -> (r: Result<(), CompileError>)
        requires
            old(self).wf(),
        ensures
            final(self).follows(*old(self)),
            final(self).class_fixed(*old(self)),
            final(self).next_label() == old(self).next_label(),
            r is Ok ==> final(self).content().len() < old(self).content().len(),
            (outcome(r), final(self).state()) == expression(old(self).state()),
        decreases old(self).content().len(), 2nat,
    {
        self.compile_term()?;
        self.adv()?;
        loop
            invariant
                self.follows(*old(self)),
                self.class_fixed(*old(self)),
                self.next_label() == old(self).next_label(),
                self.content().len() < old(self).content().len(),
                expression(old(self).state()) == expression_rest(self.state()),
            decreases self.content().len(),
        {
            let token = self.tok();
            let token_type = *self.tokenizer.get_token_type();
            if !(token_type == TokenType::Symbol && !same_text(token.as_str(), "]") && !same_text(
                token.as_str(),
                ";",
            ) && !same_text(token.as_str(), ")") && !same_text(token.as_str(), ",")) {
                return Ok(());
            }
            if !is_operator(token.as_str()) {
                return conclude(Construct::Expression, token);
            }
            self.compile_term()?;
            self.write_operator(token.as_str());
            self.adv()?;
        }
    }

    /// Writes the code of the binary operator `op`.
    fn write_operator(&mut self, op: &str)
        requires
            old(self).wf(),
            operator_code(op@) is Some,
        ensures
            final(self).follows(*old(self)),
            final(self).class_fixed(*old(self)),
            final(self).next_label() == old(self).next_label(),
            final(self).content() == old(self).content(),
            final(self).state() == emit(old(self).state(), operator_code(op@).unwrap()),
    {
        if same_text(op, "+") {
            let _ = self.vm_writer.write_arithmetic(&Commands::ADD);
        } else if same_text(op, "-") {
            let _ = self.vm_writer.write_arithmetic(&Commands::SUB);
        } else if same_text(op, "*") {
            let _ = self.vm_writer.write_call("Math.multiply", 2);
        } else if same_text(op, "/") {
            let _ = self.vm_writer.write_call("Math.divide", 2);
        } else if same_text(op, "|") {
            let _ = self.vm_writer.write_arithmetic(&Commands::OR);
        } else if same_text(op, "=") {
            let _ = self.vm_writer.write_arithmetic(&Commands::EQ);
        } else if same_text(op, "<") {
            let _ = self.vm_writer.write_arithmetic(&Commands::LT);
        } else if same_text(op, ">") {
            let _ = self.vm_writer.write_arithmetic(&Commands::GT);
        } else {
            let _ = self.vm_writer.write_arithmetic(&Commands::AND);
        }
    }

    /// The kind, index and type of the variable `name`: from the subroutine
    /// scope when it has all three, else from the class scope.
    fn lookup(&self, name: &str) -> (r: (Option<Kind>, Option<usize>, Option<String>))
        requires
            self.wf(),
        ensures
            found(r) == lookup(self.state(), name@),
            r.0 is Some == r.1 is Some,
            r.0 is Some == r.2 is Some,
    {
        let kind = self.subroutine_symbol_table.kind_of(name);
        let index = self.subroutine_symbol_table.index_of(name);
        let ty = self.subroutine_symbol_table.type_of(name);
        if kind.is_none() || index.is_none() || ty.is_none() {
            (
                self.class_symbol_table.kind_of(name),
                self.class_symbol_table.index_of(name),
                self.class_symbol_table.type_of(name),
            )
        } else {
            (kind, index, ty)
        }
    }

    /// Pushes the variable `info` (if there is one); `report` when it has
    /// no segment, empty otherwise.
    fn push_found(&mut self, info: &(Option<Kind>, Option<usize>, Option<String>), report: String) -> (bad: String)
        requires
            old(self).wf(),
            info.0 is Some == info.1 is Some,
            info.0 is Some == info.2 is Some,
        ensures
            final(self).follows(*old(self)),
            final(self).class_fixed(*old(self)),
            final(self).next_label() == old(self).next_label(),
            final(self).content() == old(self).content(),
            final(self).token() == old(self).token(),
            (bad@, final(self).state()) == push_found(old(self).state(), found(*info), report@),
    {
        match (&info.0, &info.1) {
            (Some(kind), Some(index)) => {
                if self.push_variable(*kind, *index) {
                    String::new()
                } else {
                    report
                }
            },
            _ => String::new(),
        }
    }

    /// Compiles a term: a constant, a keyword constant, a variable, an
    /// array element, a call, an expression in brackets, or a unary
    /// operator and a term.
    #[verifier::rlimit(30)]
    fn compile_term(&mut self) -> (r: Result<(), CompileError>)
        requires
            old(self).wf(),
        ensures
            final(self).follows(*old(self)),
            final(self).class_fixed(*old(self)),
            final(self).next_label() == old(self).next_label(),
            r is Ok ==> final(self).content().len() < old(self).content().len(),
            (outcome(r), final(self).state()) == term(old(self).state()),
        decreases old(self).content().len(), 1nat,
    {
        self.adv()?;
        let token = self.tok();
        let token_type = *self.tokenizer.get_token_type();
        match token_type {
            TokenType::IntConstant => {
                let digits = chars_of(token.as_str());
                match parse_usize_chars(digits.as_slice()) {
                    Some(v) => {
                        let _ = self.vm_writer.write_push(&VMSegment::CONSTANT, v);
                        Ok(())
                    },
                    None => Err(CompileError::BadInteger),
                }
            },
            TokenType::StringConst => {
                self.compile_string_constant(token.as_str());
                Ok(())
            },
            TokenType::Keyword => {
                let t = token.as_str();
                if same_text(t, "true") {
                    let _ = self.vm_writer.write_push(&VMSegment::CONSTANT, 1);
                    let _ = self.vm_writer.write_arithmetic(&Commands::NEG);
                    Ok(())
                } else if same_text(t, "false") || same_text(t, "null") {
                    let _ = self.vm_writer.write_push(&VMSegment::CONSTANT, 0);
                    Ok(())
                } else if same_text(t, "this") {
                    let _ = self.vm_writer.write_push(&VMSegment::POINTER, 0);
                    Ok(())
                } else {
                    conclude(Construct::Term, token)
                }
            },
            TokenType::Identifier => {
                let bad_token = self.compile_identifier_term(token)?;
                conclude(Construct::Term, bad_token)
            },
            TokenType::Symbol => {
                let t = token.as_str();
                if same_text(t, "(") {
                    self.compile_expression()?;
                    let inner = self.tok();
                    if !same_text(inner.as_str(), ")") {
                        conclude(Construct::Term, inner)
                    } else {
                        Ok(())
                    }
                } else if same_text(t, "-") {
                    self.compile_term()?;
                    let _ = self.vm_writer.write_arithmetic(&Commands::NEG);
                    Ok(())
                } else if same_text(t, "~") {
                    self.compile_term()?;
                    let _ = self.vm_writer.write_arithmetic(&Commands::NOT);
                    Ok(())
                } else {
                    conclude(Construct::Term, token)
                }
            },
            TokenType::NoToken => conclude(Construct::Term, token),
        }
    }

    /// Compiles the string constant `token`: a new string of its length,
    /// then one `appendChar` for each of its characters.
    fn compile_string_constant(&mut self, token: &str)
        requires
            old(self).wf(),
        ensures
            final(self).follows(*old(self)),
            final(self).class_fixed(*old(self)),
            final(self).next_label() == old(self).next_label(),
            final(self).content() == old(self).content(),
            final(self).state() == emit(old(self).state(), string_constant_code(token@)),
    {
        let chars = chars_of(token);
        let quote = ['"'];
        let trimmed = trim_set_chars(chars.as_slice(), &quote);
        let text = string_of(trimmed.as_slice());
        let byte_count = text.as_str().as_bytes().len();
        let _ = self.vm_writer.write_push(&VMSegment::CONSTANT, byte_count);
        let _ = self.vm_writer.write_call("String.new", 1);
        let ghost head = old(self).state().output + push_line(
            VMSegment::CONSTANT,
            vstd::utf8::encode_utf8(trimmed@).len(),
        ) + call_line("String.new"@, 1);
        assert(trimmed@.take(0) =~= Seq::<char>::empty());
        let mut i: usize = 0;
        while i < trimmed.len()
            invariant
                i <= trimmed@.len(),
                self.follows(*old(self)),
                self.class_fixed(*old(self)),
                self.next_label() == old(self).next_label(),
                self.content() == old(self).content(),
                self.state() == (State {
                    output: head + append_chars_code(trimmed@.take(i as int)),
                    ..old(self).state()
                }),
            decreases trimmed.len() - i,
        {
            let character = trimmed[i];
            let _ = self.vm_writer.write_push(&VMSegment::CONSTANT, character as u32 as usize);
            let _ = self.vm_writer.write_call("String.appendChar", 2);
            assert(trimmed@.take(i + 1).drop_last() =~= trimmed@.take(i as int));
            assert(trimmed@.take(i + 1).last() == character);
            i = i + 1;
        }
        assert(trimmed@.take(trimmed.len() as int) =~= trimmed@);
        assert(quote@ =~= seq!['"']);
        assert(head + append_chars_code(trimmed@) =~= old(self).state().output
            + string_constant_code(token@));
    }

    /// Compiles a term that starts with the identifier `token` (already
    /// read): an array element, a call, or a variable. The token to report,
    /// empty when there is none.
    fn compile_identifier_term(&mut self, token: String) -> (r: Result<String, CompileError>)
        requires
            old(self).wf(),
        ensures
            final(self).follows(*old(self)),
            final(self).class_fixed(*old(self)),
            final(self).next_label() == old(self).next_label(),
            (outcome_text(r), final(self).state()) == identifier_term(old(self).state(), token@),
        decreases old(self).content().len(), 1nat,
    {
        let info = self.lookup(token.as_str());
        if text_starts_with(self.tokenizer.get_file_content(), "[") {
            self.compile_array_element(&info)
        } else if text_starts_with(self.tokenizer.get_file_content(), "(") {
            self.compile_local_call(token, &info)
        } else if text_starts_with(self.tokenizer.get_file_content(), ".") {
            self.compile_qualified_call(token, &info)
        } else {
            Ok(self.push_found(&info, token))
        }
    }

    /// Compiles an array element `name[index]` (the name read), `info`
    /// being what the scopes hold of the name; the token to report.
    fn compile_array_element(&mut self, info: &(Option<Kind>, Option<usize>, Option<String>)) -> (r:
        Result<String, CompileError>)
        requires
            old(self).wf(),
            info.0 is Some == info.1 is Some,
            info.0 is Some == info.2 is Some,
        ensures
            final(self).follows(*old(self)),
            final(self).class_fixed(*old(self)),
            final(self).next_label() == old(self).next_label(),
            (outcome_text(r), final(self).state()) == array_element(old(self).state(), found(*info)),
        decreases old(self).content().len(), 0nat,
    {
        self.adv()?;
        self.compile_expression()?;
        let inner = self.tok();
        let bad_token = self.push_found(info, inner.clone());
        let _ = self.vm_writer.write_arithmetic(&Commands::ADD);
        if same_text(inner.as_str(), "]") {
            let _ = self.vm_writer.write_pop(&VMSegment::POINTER, 1);
            let _ = self.vm_writer.write_push(&VMSegment::THAT, 0);
            Ok(bad_token)
        } else {
            Ok(inner)
        }
    }

    /// Compiles a call `name(arguments)` of a subroutine of the class (the
    /// name read); the token to report.
    fn compile_local_call(&mut self, name: String, info: &(Option<Kind>, Option<usize>, Option<String>)) -> (r:
        Result<String, CompileError>)
        requires
            old(self).wf(),
            info.0 is Some == info.1 is Some,
            info.0 is Some == info.2 is Some,
        ensures
            final(self).follows(*old(self)),
            final(self).class_fixed(*old(self)),
            final(self).next_label() == old(self).next_label(),
            (outcome_text(r), final(self).state()) == local_call(old(self).state(), name@, found(*info)),
        decreases old(self).content().len(), 0nat,
    {
        let bad_token = self.push_found(info, name.clone());
        self.adv()?;
        let arg_count = self.compile_expression_list()?;
        let inner = self.tok();
        if same_text(inner.as_str(), ")") {
            let callee = dotted(self.vm_writer.get_class_name(), name.as_str());
            let _ = self.vm_writer.write_call(callee.as_str(), arg_count);
            Ok(bad_token)
        } else {
            Ok(inner)
        }
    }

    /// Compiles a call `name.function(arguments)` (the name read): a method
    /// of the variable `name` if the scopes hold it, else a function of the
    /// class `name`; the token to report.
    #[verifier::rlimit(30)]
    fn compile_qualified_call(&mut self, name: String, info: &(Option<Kind>, Option<usize>, Option<String>)) -> (r:
        Result<String, CompileError>)
        requires
            old(self).wf(),
            info.0 is Some == info.1 is Some,
            info.0 is Some == info.2 is Some,
        ensures
            final(self).follows(*old(self)),
            final(self).class_fixed(*old(self)),
            final(self).next_label() == old(self).next_label(),
            (outcome_text(r), final(self).state()) == qualified_call(old(self).state(), name@, found(*info)),
        decreases old(self).content().len(), 0nat,
    {
        let bad_token = self.push_found(info, name.clone());
        self.adv()?;
        self.adv()?;
        let function_name = self.tok();
        self.adv()?;
        let inner = self.tok();
        if !same_text(inner.as_str(), "(") {
            return Ok(inner);
        }
        let arg_count = self.compile_expression_list()?;
        let after = self.tok();
        if !same_text(after.as_str(), ")") {
            return Ok(after);
        }
        match &info.2 {
            Some(t) => {
                let callee = dotted(t.as_str(), function_name.as_str());
                let _ = self.vm_writer.write_call(callee.as_str(), arg_count + 1);
            },
            None => {
                let callee = dotted(name.as_str(), function_name.as_str());
                let _ = self.vm_writer.write_call(callee.as_str(), arg_count);
            },
        }
        Ok(bad_token)
    }

    /// Compiles the expressions of a call, separated by commas, up to the
    /// closing bracket; their number. A token after an expression that is
    /// neither `,` nor `)` ends the list with an error naming it.
    #[verifier::rlimit(30)]
    fn compile_expression_list(&mut self) -> (r: Result<usize, CompileError>)
        requires
            old(self).wf(),
        ensures
            final(self).follows(*old(self)),
            final(self).class_fixed(*old(self)),
            final(self).next_label() == old(self).next_label(),
            r is Ok ==> final(self).content().len() < old(self).content().len(),
            r matches Ok(n) ==> n + final(self).content().len() <= old(self).content().len(),
            (outcome_count(r), final(self).state()) == expression_list(old(self).state()),
        decreases old(self).content().len(), 3nat,
    {
        if text_starts_with(self.tokenizer.get_file_content(), ")") {
            self.adv()?;
            return Ok(0);
        }
        self.compile_expression()?;
        let mut arg_count: usize = 1;
        loop
            invariant
                self.follows(*old(self)),
                self.class_fixed(*old(self)),
                self.next_label() == old(self).next_label(),
                self.content().len() < old(self).content().len(),
                arg_count + self.content().len() <= old(self).content().len(),
                old(self).content().len() <= usize::MAX,
                expression_list(old(self).state()) == expression_list_rest(self.state(), arg_count as nat),
            decreases self.content().len(),
        {
            let token = self.tok();
            if same_text(token.as_str(), ")") {
                return Ok(arg_count);
            }
            if !same_text(token.as_str(), ",") {
                return Err(CompileError::BadToken(Construct::ExpressionList, token));
            }
            self.compile_expression()?;
            arg_count = arg_count + 1;
        }
    }

    /// Compiles statements, one after the other, as long as each starts
    /// with a keyword; a keyword that starts no statement is an error.
    #[verifier::rlimit(30)]
    fn compile_statements(&mut self) -> (r: Result<(), CompileError>)
        requires
            old(self).wf(),
        ensures
            final(self).follows(*old(self)),
            final(self).class_fixed(*old(self)),
            r is Ok ==> final(self).content().len() < old(self).content().len(),
            (outcome(r), final(self).state()) == statements(old(self).state()),
        decreases old(self).content().len(), 6nat,
    {
        self.adv()?;
        if *self.tokenizer.get_token_type() != TokenType::Keyword {
            return Ok(());
        }
        loop
            invariant
                self.follows(*old(self)),
                self.class_fixed(*old(self)),
                self.content().len() < old(self).content().len(),
                self.next_label() + self.content().len() + self.token().len() <= usize::MAX,
                statements(old(self).state()) == statements_rest(self.state()),
            decreases self.content().len(),
        {
            if *self.tokenizer.get_token_type() != TokenType::Keyword {
                return Ok(());
            }
            let token = self.tok();
            match self.compile_statement(token.as_str()) {
                None => {
                    return conclude(Construct::Statements, token);
                },
                Some(r) => r?,
            }
            self.adv()?;
        }
    }

    /// Compiles the statement that the keyword `keyword`, the current
    /// token, starts; `None` when it starts none.
    #[verifier::rlimit(30)]
    fn compile_statement(&mut self, keyword: &str) -> (r: Option<Result<(), CompileError>>)
        requires
            old(self).wf(),
            keyword@ == old(self).token(),
            old(self).next_label() + old(self).content().len() + old(self).token().len() <= usize::MAX,
        ensures
            final(self).follows(*old(self)),
            final(self).class_fixed(*old(self)),
            match statement(old(self).state()) {
                None => r is None && final(self).state() == old(self).state(),
                Some((o, s)) => r matches Some(x) && outcome(x) == o && final(self).state() == s,
            },
        decreases old(self).content().len(), 5nat,
    {
        proof {
            reveal_strlit("if");
            reveal_strlit("while");
        }
        if same_text(keyword, "let") {
            Some(self.compile_let_statement())
        } else if same_text(keyword, "if") {
            Some(self.compile_if_statement())
        } else if same_text(keyword, "while") {
            Some(self.compile_while_statement())
        } else if same_text(keyword, "do") {
            Some(self.compile_do_statement())
        } else if same_text(keyword, "return") {
            Some(self.compile_return_statement())
        } else {
            None
        }
    }

    /// Compiles `let name = expression;` or `let name[index] = expression;`
    /// (the `let` already read).
    fn compile_let_statement(&mut self) -> (r: Result<(), CompileError>)
        requires
            old(self).wf(),
        ensures
            final(self).follows(*old(self)),
            final(self).class_fixed(*old(self)),
            final(self).next_label() == old(self).next_label(),
            r is Ok ==> final(self).content().len() < old(self).content().len(),
            (outcome(r), final(self).state()) == let_statement(old(self).state()),
        decreases old(self).content().len(), 4nat,
    {
        self.adv()?;
        let name = self.tok();
        let (kind, index, _) = self.lookup(name.as_str());
        match (kind, index) {
            (Some(kind), Some(index)) => {
                self.adv()?;
                let token = self.tok();
                if same_text(token.as_str(), "[") {
                    self.compile_let_index(kind, index)
                } else {
                    self.compile_let_assignment(kind, index, false, token, String::new())
                }
            },
            _ => conclude(Construct::Statements, name),
        }
    }

    /// Compiles the index of a `let` statement to an array element, from
    /// `[` on, and then the assignment.
    fn compile_let_index(&mut self, kind: Kind, index: usize) -> (r: Result<(), CompileError>)
        requires
            old(self).wf(),
        ensures
            final(self).follows(*old(self)),
            final(self).class_fixed(*old(self)),
            final(self).next_label() == old(self).next_label(),
            r is Ok ==> final(self).content().len() <= old(self).content().len(),
            (outcome(r), final(self).state()) == let_index(old(self).state(), kind, index as nat),
        decreases old(self).content().len(), 3nat,
    {
        self.compile_expression()?;
        let token = self.tok();
        let bad_token = if self.push_variable(kind, index) {
            String::new()
        } else {
            token.clone()
        };
        if !bad_token.as_str().is_empty() {
            return self.compile_let_assignment(kind, index, true, token, bad_token);
        }
        let _ = self.vm_writer.write_arithmetic(&Commands::ADD);
        if !same_text(token.as_str(), "]") && !token.as_str().is_empty() {
            return self.compile_let_assignment(kind, index, true, token.clone(), token);
        }
        self.adv()?;
        let next = self.tok();
        self.compile_let_assignment(kind, index, true, next, String::new())
    }

    /// Compiles the assignment of a `let` statement, from the token `token`
    /// on: `= expression;`; `bad_token` is the token to report so far.
    fn compile_let_assignment(
        &mut self,
        kind: Kind,
        index: usize,
        is_array: bool,
        token: String,
        bad_token: String,
    ) -> (r: Result<(), CompileError>)
        requires
            old(self).wf(),
        ensures
            final(self).follows(*old(self)),
            final(self).class_fixed(*old(self)),
            final(self).next_label() == old(self).next_label(),
            r is Ok ==> final(self).content().len() <= old(self).content().len(),
            (outcome(r), final(self).state()) == let_assignment(
                old(self).state(),
                kind,
                index as nat,
                is_array,
                token@,
                bad_token@,
            ),
        decreases old(self).content().len(), 3nat,
    {
        if !same_text(token.as_str(), "=") {
            return conclude(Construct::Statements, token);
        }
        self.compile_expression()?;
        let after = self.tok();
        if !same_text(after.as_str(), ";") {
            return conclude(Construct::Statements, after);
        }
        if is_array {
            let _ = self.vm_writer.write_pop(&VMSegment::TEMP, 0);
            let _ = self.vm_writer.write_pop(&VMSegment::POINTER, 1);
            let _ = self.vm_writer.write_push(&VMSegment::TEMP, 0);
            let _ = self.vm_writer.write_pop(&VMSegment::THAT, 0);
            conclude(Construct::Statements, bad_token)
        } else if self.pop_variable(kind, index) {
            conclude(Construct::Statements, bad_token)
        } else {
            conclude(Construct::Statements, after)
        }
    }

    /// Compiles `if (condition) { statements }`, with an optional
    /// `else { statements }` (the `if` already read).
    #[verifier::rlimit(40)]
    fn compile_if_statement(&mut self) -> (r: Result<(), CompileError>)
        requires
            old(self).wf(),
            old(self).next_label() + 2 + old(self).content().len() <= usize::MAX,
        ensures
            final(self).follows(*old(self)),
            final(self).class_fixed(*old(self)),
            r is Ok ==> final(self).content().len() < old(self).content().len(),
            (outcome(r), final(self).state()) == if_statement(old(self).state()),
        decreases old(self).content().len(), 4nat,
    {
        let goto_label: usize = self.vm_writer.get_label_index();
        self.adv()?;
        let token = self.tok();
        if !same_text(token.as_str(), "(") {
            return conclude(Construct::IfStatement, token);
        }
        self.compile_expression()?;
        let _ = self.vm_writer.write_arithmetic(&Commands::NOT);
        let if_goto_label = self.vm_writer.get_label_index();
        let _ = self.vm_writer.write_if(if_goto_label);
        let token = self.tok();
        if !same_text(token.as_str(), ")") {
            return conclude(Construct::IfStatement, token);
        }
        self.adv()?;
        let token = self.tok();
        if !same_text(token.as_str(), "{") {
            return conclude(Construct::IfStatement, token);
        }
        self.compile_statements()?;
        let _ = self.vm_writer.write_goto(goto_label);
        let token = self.tok();
        if !same_text(token.as_str(), "}") {
            return conclude(Construct::IfStatement, token);
        }
        if text_starts_with(self.tokenizer.get_file_content(), "else") {
            self.compile_else_branch(if_goto_label, goto_label)
        } else {
            let _ = self.vm_writer.write_label(if_goto_label);
            let _ = self.vm_writer.write_label(goto_label);
            Ok(())
        }
    }

    /// Compiles the `else { statements }` of an `if` statement (the `else`
    /// not yet read): the label `other` before it, the label `end` after.
    fn compile_else_branch(&mut self, other: usize, end: usize) -> (r: Result<(), CompileError>)
        requires
            old(self).wf(),
        ensures
            final(self).follows(*old(self)),
            final(self).class_fixed(*old(self)),
            r is Ok ==> final(self).content().len() < old(self).content().len(),
            (outcome(r), final(self).state()) == else_branch(old(self).state(), other as nat, end as nat),
        decreases old(self).content().len(), 3nat,
    {
        let _ = self.vm_writer.write_label(other);
        self.adv()?;
        self.adv()?;
        let token = self.tok();
        if !same_text(token.as_str(), "{") {
            let _ = self.vm_writer.write_label(end);
            return conclude(Construct::IfStatement, token);
        }
        self.compile_statements()?;
        let token = self.tok();
        let _ = self.vm_writer.write_label(end);
        if !same_text(token.as_str(), "}") {
            conclude(Construct::IfStatement, token)
        } else {
            Ok(())
        }
    }

    /// Compiles `while (condition) { statements }` (the `while` already
    /// read).
    #[verifier::rlimit(40)]
    fn compile_while_statement(&mut self) -> (r: Result<(), CompileError>)
        requires
            old(self).wf(),
            old(self).next_label() + 2 + old(self).content().len() <= usize::MAX,
        ensures
            final(self).follows(*old(self)),
            final(self).class_fixed(*old(self)),
            r is Ok ==> final(self).content().len() < old(self).content().len(),
            (outcome(r), final(self).state()) == while_statement(old(self).state()),
        decreases old(self).content().len(), 4nat,
    {
        let continue_while_label: usize = self.vm_writer.get_label_index();
        let _ = self.vm_writer.write_label(continue_while_label);
        self.adv()?;
        let token = self.tok();
        if !same_text(token.as_str(), "(") {
            return conclude(Construct::WhileStatement, token);
        }
        self.compile_expression()?;
        let _ = self.vm_writer.write_arithmetic(&Commands::NOT);
        let skip_while_label = self.vm_writer.get_label_index();
        let _ = self.vm_writer.write_if(skip_while_label);
        let token = self.tok();
        if !same_text(token.as_str(), ")") {
            return conclude(Construct::WhileStatement, token);
        }
        self.adv()?;
        let token = self.tok();
        if !same_text(token.as_str(), "{") {
            return conclude(Construct::WhileStatement, token);
        }
        self.compile_statements()?;
        let _ = self.vm_writer.write_goto(continue_while_label);
        let token = self.tok();
        if !same_text(token.as_str(), "}") {
            return conclude(Construct::WhileStatement, token);
        }
        let _ = self.vm_writer.write_label(skip_while_label);
        Ok(())
    }

    /// Compiles `do call;` (the `do` already read); the value of the call
    /// is dropped.
    fn compile_do_statement(&mut self) -> (r: Result<(), CompileError>)
        requires
            old(self).wf(),
        ensures
            final(self).follows(*old(self)),
            final(self).class_fixed(*old(self)),
            final(self).next_label() == old(self).next_label(),
            r is Ok ==> final(self).content().len() < old(self).content().len(),
            (outcome(r), final(self).state()) == do_statement(old(self).state()),
        decreases old(self).content().len(), 4nat,
    {
        self.adv()?;
        let name = self.tok();
        let bad_token = self.compile_do_call(name)?;
        self.adv()?;
        let token = self.tok();
        if !same_text(token.as_str(), ";") {
            conclude(Construct::DoStatement, token)
        } else {
            conclude(Construct::DoStatement, bad_token)
        }
    }

    /// Compiles the call of a `do` statement, its name `name` read: a call
    /// on the current object, or `name.function(arguments)`; the value is
    /// dropped. The token to report, empty when there is none.
    fn compile_do_call(&mut self, name: String) -> (r: Result<String, CompileError>)
        requires
            old(self).wf(),
        ensures
            final(self).follows(*old(self)),
            final(self).class_fixed(*old(self)),
            final(self).next_label() == old(self).next_label(),
            (outcome_text(r), final(self).state()) == do_call(old(self).state(), name@),
        decreases old(self).content().len(), 3nat,
    {
        if text_starts_with(self.tokenizer.get_file_content(), "(") {
            self.compile_do_local_call(name)
        } else if text_starts_with(self.tokenizer.get_file_content(), ".") {
            let info = self.lookup(name.as_str());
            self.compile_do_qualified_call(name, &info)
        } else {
            Ok(name)
        }
    }

    /// Compiles the call `name(arguments)` of a `do` statement on the
    /// current object (the name read); the value is dropped. The token to
    /// report.
    #[verifier::rlimit(30)]
    fn compile_do_local_call(&mut self, name: String) -> (r: Result<String, CompileError>)
        requires
            old(self).wf(),
        ensures
            final(self).follows(*old(self)),
            final(self).class_fixed(*old(self)),
            final(self).next_label() == old(self).next_label(),
            (outcome_text(r), final(self).state()) == do_local_call(old(self).state(), name@),
        decreases old(self).content().len(), 2nat,
    {
        self.adv()?;
        let _ = self.vm_writer.write_push(&VMSegment::POINTER, 0);
        let listed = self.compile_expression_list()?;
        let token = self.tok();
        if !same_text(token.as_str(), ")") {
            return Ok(token);
        }
        let callee = dotted(self.vm_writer.get_class_name(), name.as_str());
        let _ = self.vm_writer.write_call(callee.as_str(), 1 + listed);
        let _ = self.vm_writer.write_pop(&VMSegment::TEMP, 0);
        Ok(String::new())
    }

    /// Compiles the call `name.function(arguments)` of a `do` statement (the
    /// name read), `info` being what the scopes hold of the name; the value
    /// is dropped. The token to report.
    #[verifier::rlimit(30)]
    fn compile_do_qualified_call(
        &mut self,
        name: String,
        info: &(Option<Kind>, Option<usize>, Option<String>),
    ) -> (r: Result<String, CompileError>)
        requires
            old(self).wf(),
            info.0 is Some == info.1 is Some,
            info.0 is Some == info.2 is Some,
        ensures
            final(self).follows(*old(self)),
            final(self).class_fixed(*old(self)),
            final(self).next_label() == old(self).next_label(),
            (outcome_text(r), final(self).state()) == do_qualified_call(
                old(self).state(),
                name@,
                found(*info),
            ),
        decreases old(self).content().len(), 2nat,
    {
        self.adv()?;
        self.adv()?;
        let function_name = self.tok();
        self.adv()?;
        let inner = self.tok();
        if !same_text(inner.as_str(), "(") {
            return Ok(inner);
        }
        let mut arg_count: usize = 0;
        let mut bad_token = String::new();
        if let (Some(kind), Some(index)) = (info.0, info.1) {
            if !self.push_variable(kind, index) {
                bad_token = inner.clone();
            }
            arg_count = 1;
        }
        let listed = self.compile_expression_list()?;
        let after = self.tok();
        if !same_text(after.as_str(), ")") {
            return Ok(after);
        }
        let callee = match &info.2 {
            Some(t) => dotted(t.as_str(), function_name.as_str()),
            None => dotted(name.as_str(), function_name.as_str()),
        };
        let _ = self.vm_writer.write_call(callee.as_str(), arg_count + listed);
        let _ = self.vm_writer.write_pop(&VMSegment::TEMP, 0);
        Ok(bad_token)
    }

    /// Compiles `return;` or `return expression;` (the `return` already
    /// read).
    fn compile_return_statement(&mut self) -> (r: Result<(), CompileError>)
        requires
            old(self).wf(),
        ensures
            final(self).follows(*old(self)),
            final(self).class_fixed(*old(self)),
            final(self).next_label() == old(self).next_label(),
            r is Ok ==> final(self).content().len() < old(self).content().len(),
            (outcome(r), final(self).state()) == return_statement(old(self).state()),
        decreases old(self).content().len(), 4nat,
    {
        if !text_starts_with(self.tokenizer.get_file_content(), ";") {
            self.compile_expression()?;
        } else {
            let _ = self.vm_writer.write_push(&VMSegment::CONSTANT, 0);
            self.adv()?;
        }
        let token = self.tok();
        if !same_text(token.as_str(), ";") {
            return conclude(Construct::ReturnStatement, token);
        }
        let _ = self.vm_writer.write_return();
        Ok(())
    }

    /// Defines a variable in the class scope.
    fn define_class_variable(&mut self, name: String, symbol_type: String, kind: Kind) -> (r: Result<
        (),
        CompileError,
    >)
        requires
            old(self).wf(),
        ensures
            final(self).follows(*old(self)),
            final(self).next_label() == old(self).next_label(),
            final(self).content() == old(self).content(),
            final(self).output() == old(self).output(),
            final(self).token() == old(self).token(),
            match define_in(old(self).state().class_scope, name@, symbol_type@, kind) {
                Ok(sc) => r is Ok && final(self).state() == (State { class_scope: sc, ..old(self).state() }),
                Err(e) => outcome(r) == Err::<(), Failure>(Failure::Symbol(e)) && final(self).state()
                    == old(self).state(),
            },
    {
        match self.class_symbol_table.define(name, symbol_type, kind) {
            Ok(()) => Ok(()),
            Err(e) => Err(CompileError::Symbol(e)),
        }
    }

    /// Defines a variable in the subroutine scope.
    fn define_subroutine_variable(&mut self, name: String, symbol_type: String, kind: Kind) -> (r:
        Result<(), CompileError>)
        requires
            old(self).wf(),
        ensures
            final(self).follows(*old(self)),
            final(self).class_fixed(*old(self)),
            final(self).next_label() == old(self).next_label(),
            final(self).content() == old(self).content(),
            final(self).output() == old(self).output(),
            final(self).token() == old(self).token(),
            match define_in(old(self).state().sub_scope, name@, symbol_type@, kind) {
                Ok(sc) => r is Ok && final(self).state() == (State { sub_scope: sc, ..old(self).state() }),
                Err(e) => outcome(r) == Err::<(), Failure>(Failure::Symbol(e)) && final(self).state()
                    == old(self).state(),
            },
    {
        match self.subroutine_symbol_table.define(name, symbol_type, kind) {
            Ok(()) => Ok(()),
            Err(e) => Err(CompileError::Symbol(e)),
        }
    }

    /// Compiles the declarations `static type name, ...;` and
    /// `field type name, ...;` that follow one another (the first keyword
    /// already read).
    fn compile_class_variable_declaration(&mut self) -> (r: Result<(), CompileError>)
        requires
            old(self).wf(),
        ensures
            final(self).follows(*old(self)),
            final(self).next_label() == old(self).next_label(),
            (outcome(r), final(self).state()) == class_variable_declarations(old(self).state(), seq![]),
    {
        let mut bad_token = String::new();
        loop
            invariant
                self.follows(*old(self)),
                self.next_label() == old(self).next_label(),
                class_variable_declarations(old(self).state(), seq![])
                    == class_variable_declarations(self.state(), bad_token@),
            decreases self.content().len(),
        {
            let token = self.tok();
            let is_static = same_text(token.as_str(), "static");
            if !is_static && !same_text(token.as_str(), "field") {
                return conclude(Construct::ClassVariableDeclaration, bad_token);
            }
            let curr_kind = if is_static {
                Kind::STATIC
            } else {
                Kind::THIS
            };
            self.adv()?;
            let curr_type = self.tok();
            self.adv()?;
            let curr_name = self.tok();
            self.define_class_variable(curr_name, curr_type.clone(), curr_kind)?;
            self.adv()?;
            self.compile_class_variable_names(curr_type, curr_kind)?;
            let after = self.tok();
            if !same_text(after.as_str(), ";") {
                bad_token = after;
            }
        }
    }

    /// Compiles the names after the first one of a class variable
    /// declaration, each after a comma.
    fn compile_class_variable_names(&mut self, curr_type: String, curr_kind: Kind) -> (r: Result<
        (),
        CompileError,
    >)
        requires
            old(self).wf(),
        ensures
            final(self).follows(*old(self)),
            final(self).next_label() == old(self).next_label(),
            (outcome(r), final(self).state()) == class_variable_names(
                old(self).state(),
                curr_type@,
                curr_kind,
            ),
    {
        loop
            invariant
                self.follows(*old(self)),
                self.next_label() == old(self).next_label(),
                class_variable_names(old(self).state(), curr_type@, curr_kind)
                    == class_variable_names(self.state(), curr_type@, curr_kind),
            decreases self.content().len(),
        {
            let token = self.tok();
            if !same_text(token.as_str(), ",") {
                return Ok(());
            }
            self.adv()?;
            let curr_name = self.tok();
            self.define_class_variable(curr_name, curr_type.clone(), curr_kind)?;
            self.adv()?;
        }
    }

    /// Compiles a parameter list `(type name, ...)` up to its closing
    /// bracket (the opening one already read); the number of parameters,
    /// each defined as an argument.
    fn compile_parameter_list(&mut self) -> (r: Result<usize, CompileError>)
        requires
            old(self).wf(),
        ensures
            final(self).follows(*old(self)),
            final(self).class_fixed(*old(self)),
            final(self).next_label() == old(self).next_label(),
            (outcome_count(r), final(self).state()) == parameter_list(old(self).state()),
    {
        self.adv()?;
        let mut var_count: usize = 0;
        loop
            invariant
                self.follows(*old(self)),
                self.class_fixed(*old(self)),
                self.next_label() == old(self).next_label(),
                self.state().sub_scope.args == old(self).state().sub_scope.args + var_count,
                parameter_list(old(self).state()) == parameters(self.state(), var_count as nat),
            decreases self.content().len(),
        {
            let token = self.tok();
            if same_text(token.as_str(), ")") {
                return Ok(var_count);
            }
            self.adv()?;
            let curr_name = self.tok();
            self.define_subroutine_variable(curr_name, token, Kind::ARG)?;
            proof {
                self.subroutine_symbol_table.lemma_count_fits(Kind::ARG);
            }
            self.adv()?;
            let after = self.tok();
            if same_text(after.as_str(), ",") {
                self.adv()?;
            }
            var_count = var_count + 1;
        }
    }

    /// Compiles the declarations `var type name, ...;` at the start of a
    /// subroutine body; the number of variables, each defined as a local.
    fn compile_variable_declaration(&mut self) -> (r: Result<usize, CompileError>)
        requires
            old(self).wf(),
        ensures
            final(self).follows(*old(self)),
            final(self).class_fixed(*old(self)),
            final(self).next_label() == old(self).next_label(),
            (outcome_count(r), final(self).state()) == variable_declarations(old(self).state(), 0),
    {
        let mut var_count: usize = 0;
        loop
            invariant
                self.follows(*old(self)),
                self.class_fixed(*old(self)),
                self.next_label() == old(self).next_label(),
                self.state().sub_scope.locals == old(self).state().sub_scope.locals + var_count,
                variable_declarations(old(self).state(), 0) == variable_declarations(
                    self.state(),
                    var_count as nat,
                ),
            decreases self.content().len(),
        {
            if !text_starts_with(self.tokenizer.get_file_content(), "var") {
                return Ok(var_count);
            }
            self.adv()?;
            self.adv()?;
            let curr_type = self.tok();
            self.adv()?;
            var_count = self.compile_local_names(curr_type, var_count)?;
        }
    }

    /// Compiles the names of a `var` declaration up to `;`, each defined as
    /// a local of type `curr_type`; `count` locals counted before them, the
    /// number counted after them.
    fn compile_local_names(&mut self, curr_type: String, count: usize) -> (r: Result<
        usize,
        CompileError,
    >)
        requires
            old(self).wf(),
            old(self).state().sub_scope.locals >= count,
        ensures
            final(self).follows(*old(self)),
            final(self).class_fixed(*old(self)),
            final(self).next_label() == old(self).next_label(),
            r matches Ok(n) ==> final(self).state().sub_scope.locals - n == old(
                self,
            ).state().sub_scope.locals - count,
            r is Ok ==> final(self).content().len() < old(self).content().len()
                || final(self).state() == old(self).state(),
            (outcome_count(r), final(self).state()) == local_names(
                old(self).state(),
                curr_type@,
                count as nat,
            ),
    {
        let mut var_count = count;
        loop
            invariant
                self.follows(*old(self)),
                self.class_fixed(*old(self)),
                self.next_label() == old(self).next_label(),
                var_count >= count,
                old(self).state().sub_scope.locals >= count,
                self.state().sub_scope.locals - var_count == old(self).state().sub_scope.locals
                    - count,
                var_count == count || self.content().len() < old(self).content().len(),
                var_count == count ==> self.state() == old(self).state(),
                local_names(old(self).state(), curr_type@, count as nat) == local_names(
                    self.state(),
                    curr_type@,
                    var_count as nat,
                ),
            decreases self.content().len(),
        {
            let token = self.tok();
            if same_text(token.as_str(), ";") {
                return Ok(var_count);
            }
            let ghost before = self.state();
            self.define_subroutine_variable(token, curr_type.clone(), Kind::LOCAL)?;
            proof {
                self.subroutine_symbol_table.lemma_count_fits(Kind::LOCAL);
                assert(self.state().sub_scope.locals == before.sub_scope.locals + 1);
                assert(self.state().sub_scope.locals <= usize::MAX);
            }
            var_count = var_count + 1;
            self.adv()?;
            let after = self.tok();
            if same_text(after.as_str(), ",") {
                self.adv()?;
            }
        }
    }

    /// Writes the code that sets `this` at the start of a subroutine: a new
    /// object with room for the fields in a constructor, the first argument
    /// in a method.
    fn write_this_setup(&mut self, is_constructor: bool, is_function: bool)
        requires
            old(self).wf(),
        ensures
            final(self).follows(*old(self)),
            final(self).class_fixed(*old(self)),
            final(self).next_label() == old(self).next_label(),
            final(self).content() == old(self).content(),
            final(self).state() == this_setup(old(self).state(), is_constructor, is_function),
    {
        proof {
            reveal_strlit("this");
        }
        if is_constructor {
            let fields = self.class_symbol_table.var_count(&Kind::THIS);
            let _ = self.vm_writer.write_push(&VMSegment::CONSTANT, fields);
            let _ = self.vm_writer.write_call("Memory.alloc", 1);
        } else if let Some(this_arg_index) = self.subroutine_symbol_table.index_of("this") {
            let _ = self.vm_writer.write_push(&VMSegment::ARGUMENT, this_arg_index);
        }
        if !is_function {
            let _ = self.vm_writer.write_pop(&VMSegment::POINTER, 0);
        }
    }

    /// Compiles a constructor, function or method (its first keyword
    /// already read): the function header, the setting of `this`, and the
    /// body.
    #[verifier::rlimit(40)]
    fn compile_subroutine_declaration(&mut self) -> (r: Result<(), CompileError>)
        requires
            old(self).wf(),
        ensures
            final(self).follows(*old(self)),
            final(self).class_fixed(*old(self)),
            (outcome(r), final(self).state()) == subroutine(old(self).state()),
    {
        let token = self.tok();
        let is_constructor = same_text(token.as_str(), "constructor");
        let is_function = same_text(token.as_str(), "function");
        if same_text(token.as_str(), "method") {
            let class_name = self.vm_writer.get_class_name().to_owned();
            self.define_subroutine_variable("this".to_owned(), class_name, Kind::ARG)?;
        }
        self.adv()?;
        self.adv()?;
        let curr_name = self.tok();
        self.adv()?;
        let token = self.tok();
        if !same_text(token.as_str(), "(") {
            return conclude(Construct::SubroutineDeclaration, token);
        }
        self.compile_parameter_list()?;
        let token = self.tok();
        if !same_text(token.as_str(), ")") {
            return conclude(Construct::SubroutineDeclaration, token);
        }
        self.adv()?;
        let token = self.tok();
        if !same_text(token.as_str(), "{") {
            return conclude(Construct::SubroutineDeclaration, token);
        }
        let var_count = self.compile_variable_declaration()?;
        let _ = self.vm_writer.write_function(curr_name.as_str(), var_count);
        self.write_this_setup(is_constructor, is_function);
        self.compile_statements()?;
        let token = self.tok();
        if !same_text(token.as_str(), "}") {
            conclude(Construct::SubroutineDeclaration, token)
        } else {
            Ok(())
        }
    }

    /// Compiles the class variable declarations from the current token on,
    /// reading the token after each.
    fn compile_class_variables(&mut self) -> (r: Result<(), CompileError>)
        requires
            old(self).wf(),
        ensures
            final(self).follows(*old(self)),
            (outcome(r), final(self).state()) == class_variables(old(self).state()),
    {
        loop
            invariant
                self.follows(*old(self)),
                class_variables(old(self).state()) == class_variables(self.state()),
            decreases self.content().len(),
        {
            let token = self.tok();
            if !same_text(token.as_str(), "static") && !same_text(token.as_str(), "field") {
                return Ok(());
            }
            self.compile_class_variable_declaration()?;
            self.adv()?;
        }
    }

    /// Compiles the subroutines from the current token on, each in a fresh
    /// subroutine scope, reading the token after each.
    fn compile_subroutines(&mut self) -> (r: Result<(), CompileError>)
        requires
            old(self).wf(),
        ensures
            final(self).follows(*old(self)),
            (outcome(r), final(self).state()) == subroutines(old(self).state()),
    {
        loop
            invariant
                self.follows(*old(self)),
                subroutines(old(self).state()) == subroutines(self.state()),
            decreases self.content().len(),
        {
            let token = self.tok();
            if !same_text(token.as_str(), "constructor") && !same_text(token.as_str(), "function")
                && !same_text(token.as_str(), "method") {
                return Ok(());
            }
            self.subroutine_symbol_table.reset();
            self.compile_subroutine_declaration()?;
            self.adv()?;
        }
    }

    /// Compiles the class: `class Name {`, its variable declarations, its
    /// subroutines (each with a fresh subroutine scope), and `}`. The code
    /// collects in the engine (see `get_output`).
    pub fn compile_class(&mut self) -> (r: Result<(), CompileError>)
        requires
            old(self).wf(),
        ensures
            final(self).follows(*old(self)),
            (outcome(r), final(self).state()) == class(old(self).state()),
    {
        self.adv()?;
        let token = self.tok();
        if !same_text(token.as_str(), "class") {
            return conclude(Construct::Class, token);
        }
        self.adv()?;
        self.adv()?;
        let token = self.tok();
        if !same_text(token.as_str(), "{") {
            return conclude(Construct::Class, token);
        }
        self.adv()?;
        self.compile_class_variables()?;
        self.compile_subroutines()?;
        let token = self.tok();
        if !same_text(token.as_str(), "}") {
            conclude(Construct::Class, token)
        } else {
            Ok(())
        }
    }
}

} // verus!
