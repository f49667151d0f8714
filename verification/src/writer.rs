use vstd::prelude::*;

use crate::numbers::{decimal_digits, lemma_decimal_digits_read_back, push_decimal};
use crate::text::{append_chars, chars_of, push_char};

verus! {

/// The memory segments of the VM.
#[derive(PartialEq, Eq, Structural, Debug, Clone, Copy)]
pub enum VMSegment {
    CONSTANT,
    ARGUMENT,
    LOCAL,
    STATIC,
    THIS,
    THAT,
    POINTER,
    TEMP,
}

/// The arithmetic and logical commands of the VM.
#[derive(PartialEq, Eq, Structural, Debug, Clone, Copy)]
pub enum Commands {
    ADD,
    SUB,
    NEG,
    EQ,
    GT,
    LT,
    AND,
    OR,
    NOT,
}

/// Why a VM command could not be written.
#[derive(PartialEq, Eq, Structural, Debug, Clone, Copy)]
pub enum VmWriteError {
    /// `pop constant` does not exist.
    ConstantPop,
}

impl VmWriteError {
    /// The text that reports the error, as characters.
    pub open spec fn report(&self) -> Seq<char> {
        match *self {
            VmWriteError::ConstantPop => "Constant segment is invalid for popping"@,
        }
    }

    /// The text that reports the error.
    pub fn message(&self) -> (m: &'static str)
        ensures
            m@ == self.report(),
    {
        match self {
            VmWriteError::ConstantPop => "Constant segment is invalid for popping",
        }
    }
}

/// The name of `segment` in VM code.
pub open spec fn segment_name(segment: VMSegment) -> Seq<char> {
    match segment {
        VMSegment::CONSTANT => "constant"@,
        VMSegment::ARGUMENT => "argument"@,
        VMSegment::LOCAL => "local"@,
        VMSegment::STATIC => "static"@,
        VMSegment::THIS => "this"@,
        VMSegment::THAT => "that"@,
        VMSegment::POINTER => "pointer"@,
        VMSegment::TEMP => "temp"@,
    }
}

/// The name of `command` in VM code.
pub open spec fn command_name(command: Commands) -> Seq<char> {
    match command {
        Commands::ADD => "add"@,
        Commands::SUB => "sub"@,
        Commands::NEG => "neg"@,
        Commands::EQ => "eq"@,
        Commands::GT => "gt"@,
        Commands::LT => "lt"@,
        Commands::AND => "and"@,
        Commands::OR => "or"@,
        Commands::NOT => "not"@,
    }
}

/// `push segment index`, with its newline.
pub open spec fn push_line(segment: VMSegment, index: nat) -> Seq<char> {
    "push "@ + segment_name(segment) + " "@ + decimal_digits(index) + "\n"@
}

/// `pop segment index`, with its newline.
pub open spec fn pop_line(segment: VMSegment, index: nat) -> Seq<char> {
    "pop "@ + segment_name(segment) + " "@ + decimal_digits(index) + "\n"@
}

/// `function Class.name vars`, with its newline.
pub open spec fn function_line(class_name: Seq<char>, name: Seq<char>, vars: nat) -> Seq<char> {
    "function "@ + class_name + "."@ + name + " "@ + decimal_digits(vars) + "\n"@
}

/// The line of an arithmetic or logical command.
pub open spec fn arithmetic_line(command: Commands) -> Seq<char> {
    command_name(command) + "\n"@
}

/// The name of label `index` of the class `class_name`.
pub open spec fn label_name(class_name: Seq<char>, index: nat) -> Seq<char> {
    class_name + "_"@ + decimal_digits(index)
}

/// Distinct label numbers give distinct label names, so the labels that
/// `get_label_index` hands out, one number each, never clash within a class.
pub proof fn lemma_label_names_distinct(class_name: Seq<char>, i: nat, j: nat)
    requires
        i != j,
    ensures
        label_name(class_name, i) != label_name(class_name, j),
{
    reveal_strlit("_");
    lemma_decimal_digits_read_back(i);
    lemma_decimal_digits_read_back(j);
    let k = class_name.len() + 1;
    assert(label_name(class_name, i).skip(k as int) =~= decimal_digits(i));
    assert(label_name(class_name, j).skip(k as int) =~= decimal_digits(j));
}

/// The lines of the VM language: `push segment i`, `pop segment i`,
/// `function Class.name k`, `call name n`, `label Class_i`,
/// `goto Class_i`, `if-goto Class_i` and `return`, each with its newline,
/// numbers in decimal.
pub proof fn lemma_line_formats(segment: VMSegment, class_name: Seq<char>, name: Seq<char>, n: nat)
    ensures
        push_line(segment, n) == seq!['p', 'u', 's', 'h', ' '] + segment_name(segment) + seq![' '] + decimal_digits(n)
            + seq!['\n'],
        pop_line(segment, n) == seq!['p', 'o', 'p', ' '] + segment_name(segment) + seq![' '] + decimal_digits(n)
            + seq!['\n'],
        function_line(class_name, name, n) == seq!['f', 'u', 'n', 'c', 't', 'i', 'o', 'n', ' '] + class_name + seq!['.'] + name
            + seq![' '] + decimal_digits(n) + seq!['\n'],
        call_line(name, n) == seq!['c', 'a', 'l', 'l', ' '] + name + seq![' '] + decimal_digits(n) + seq!['\n'],
        label_line(class_name, n) == seq!['l', 'a', 'b', 'e', 'l', ' '] + class_name + seq!['_'] + decimal_digits(n)
            + seq!['\n'],
        goto_line(class_name, n) == seq!['g', 'o', 't', 'o', ' '] + class_name + seq!['_'] + decimal_digits(n)
            + seq!['\n'],
        if_line(class_name, n) == seq!['i', 'f', '-', 'g', 'o', 't', 'o', ' '] + class_name + seq!['_'] + decimal_digits(n)
            + seq!['\n'],
        return_line() == seq!['r', 'e', 't', 'u', 'r', 'n'] + seq!['\n'],
{
    reveal_strlit("push ");
    reveal_strlit("pop ");
    reveal_strlit("function ");
    reveal_strlit("call ");
    reveal_strlit("label ");
    reveal_strlit("goto ");
    reveal_strlit("if-goto ");
    reveal_strlit("return\n");
    reveal_strlit(" ");
    reveal_strlit(".");
    reveal_strlit("_");
    reveal_strlit("\n");
    assert(push_line(segment, n) =~= seq!['p', 'u', 's', 'h', ' '] + segment_name(segment) + seq![' '] + decimal_digits(n)
        + seq!['\n']);
    assert(pop_line(segment, n) =~= seq!['p', 'o', 'p', ' '] + segment_name(segment) + seq![' '] + decimal_digits(n)
        + seq!['\n']);
    assert(function_line(class_name, name, n) =~= seq!['f', 'u', 'n', 'c', 't', 'i', 'o', 'n', ' '] + class_name + seq!['.'] + name
        + seq![' '] + decimal_digits(n) + seq!['\n']);
    assert(call_line(name, n) =~= seq!['c', 'a', 'l', 'l', ' '] + name + seq![' '] + decimal_digits(n) + seq!['\n']);
    assert(label_line(class_name, n) =~= seq!['l', 'a', 'b', 'e', 'l', ' '] + class_name + seq!['_'] + decimal_digits(n)
        + seq!['\n']);
    assert(goto_line(class_name, n) =~= seq!['g', 'o', 't', 'o', ' '] + class_name + seq!['_'] + decimal_digits(n)
        + seq!['\n']);
    assert(if_line(class_name, n) =~= seq!['i', 'f', '-', 'g', 'o', 't', 'o', ' '] + class_name + seq!['_'] + decimal_digits(n)
        + seq!['\n']);
    assert(return_line() =~= seq!['r', 'e', 't', 'u', 'r', 'n'] + seq!['\n']);
}

/// Each arithmetic or logical command is written as its name in the VM
/// language on a line of its own: `add`, `sub`, `neg`, `eq`, `gt`, `lt`,
/// `and`, `or`, `not`.
pub proof fn lemma_arithmetic_lines()
    ensures
        arithmetic_line(Commands::ADD) == seq!['a', 'd', 'd'].push('\n'),
        arithmetic_line(Commands::SUB) == seq!['s', 'u', 'b'].push('\n'),
        arithmetic_line(Commands::NEG) == seq!['n', 'e', 'g'].push('\n'),
        arithmetic_line(Commands::EQ) == seq!['e', 'q'].push('\n'),
        arithmetic_line(Commands::GT) == seq!['g', 't'].push('\n'),
        arithmetic_line(Commands::LT) == seq!['l', 't'].push('\n'),
        arithmetic_line(Commands::AND) == seq!['a', 'n', 'd'].push('\n'),
        arithmetic_line(Commands::OR) == seq!['o', 'r'].push('\n'),
        arithmetic_line(Commands::NOT) == seq!['n', 'o', 't'].push('\n'),
{
    reveal_strlit("add");
    reveal_strlit("sub");
    reveal_strlit("neg");
    reveal_strlit("eq");
    reveal_strlit("gt");
    reveal_strlit("lt");
    reveal_strlit("and");
    reveal_strlit("or");
    reveal_strlit("not");
    reveal_strlit("\n");
    assert(arithmetic_line(Commands::ADD) =~= seq!['a', 'd', 'd'].push('\n'));
    assert(arithmetic_line(Commands::SUB) =~= seq!['s', 'u', 'b'].push('\n'));
    assert(arithmetic_line(Commands::NEG) =~= seq!['n', 'e', 'g'].push('\n'));
    assert(arithmetic_line(Commands::EQ) =~= seq!['e', 'q'].push('\n'));
    assert(arithmetic_line(Commands::GT) =~= seq!['g', 't'].push('\n'));
    assert(arithmetic_line(Commands::LT) =~= seq!['l', 't'].push('\n'));
    assert(arithmetic_line(Commands::AND) =~= seq!['a', 'n', 'd'].push('\n'));
    assert(arithmetic_line(Commands::OR) =~= seq!['o', 'r'].push('\n'));
    assert(arithmetic_line(Commands::NOT) =~= seq!['n', 'o', 't'].push('\n'));
}

/// Distinct commands are written as distinct lines.
pub proof fn lemma_arithmetic_lines_distinct(a: Commands, b: Commands)
    requires
        a != b,
    ensures
        arithmetic_line(a) != arithmetic_line(b),
{
    lemma_arithmetic_lines();
    assert(arithmetic_line(a)[0] != arithmetic_line(b)[0] || arithmetic_line(a)[1] != arithmetic_line(
        b,
    )[1]);
}

/// Each segment is named as in the VM language: `constant`, `argument`,
/// `local`, `static`, `this`, `that`, `pointer`, `temp`.
pub proof fn lemma_segment_names()
    ensures
        segment_name(VMSegment::CONSTANT) == seq!['c', 'o', 'n', 's', 't', 'a', 'n', 't'],
        segment_name(VMSegment::ARGUMENT) == seq!['a', 'r', 'g', 'u', 'm', 'e', 'n', 't'],
        segment_name(VMSegment::LOCAL) == seq!['l', 'o', 'c', 'a', 'l'],
        segment_name(VMSegment::STATIC) == seq!['s', 't', 'a', 't', 'i', 'c'],
        segment_name(VMSegment::THIS) == seq!['t', 'h', 'i', 's'],
        segment_name(VMSegment::THAT) == seq!['t', 'h', 'a', 't'],
        segment_name(VMSegment::POINTER) == seq!['p', 'o', 'i', 'n', 't', 'e', 'r'],
        segment_name(VMSegment::TEMP) == seq!['t', 'e', 'm', 'p'],
{
    reveal_strlit("constant");
    reveal_strlit("argument");
    reveal_strlit("local");
    reveal_strlit("static");
    reveal_strlit("this");
    reveal_strlit("that");
    reveal_strlit("pointer");
    reveal_strlit("temp");
    assert(segment_name(VMSegment::CONSTANT) =~= seq!['c', 'o', 'n', 's', 't', 'a', 'n', 't']);
    assert(segment_name(VMSegment::ARGUMENT) =~= seq!['a', 'r', 'g', 'u', 'm', 'e', 'n', 't']);
    assert(segment_name(VMSegment::LOCAL) =~= seq!['l', 'o', 'c', 'a', 'l']);
    assert(segment_name(VMSegment::STATIC) =~= seq!['s', 't', 'a', 't', 'i', 'c']);
    assert(segment_name(VMSegment::THIS) =~= seq!['t', 'h', 'i', 's']);
    assert(segment_name(VMSegment::THAT) =~= seq!['t', 'h', 'a', 't']);
    assert(segment_name(VMSegment::POINTER) =~= seq!['p', 'o', 'i', 'n', 't', 'e', 'r']);
    assert(segment_name(VMSegment::TEMP) =~= seq!['t', 'e', 'm', 'p']);
}

/// Pushes to distinct segments are distinct lines, as are pops.
pub proof fn lemma_segment_lines_distinct(a: VMSegment, b: VMSegment, i: nat, j: nat)
    requires
        a != b,
    ensures
        push_line(a, i) != push_line(b, j),
        pop_line(a, i) != pop_line(b, j),
{
    lemma_segment_names();
    reveal_strlit("push ");
    reveal_strlit("pop ");
    let na = segment_name(a);
    let nb = segment_name(b);
    assert(na[0] != nb[0] || na[2] != nb[2]);
    if push_line(a, i) == push_line(b, j) {
        assert(push_line(a, i)[5] == na[0] && push_line(a, i)[7] == na[2]);
        assert(push_line(b, j)[5] == nb[0] && push_line(b, j)[7] == nb[2]);
    }
    if pop_line(a, i) == pop_line(b, j) {
        assert(pop_line(a, i)[4] == na[0] && pop_line(a, i)[6] == na[2]);
        assert(pop_line(b, j)[4] == nb[0] && pop_line(b, j)[6] == nb[2]);
    }
}

/// `label Class_index`, with its newline.
pub open spec fn label_line(class_name: Seq<char>, index: nat) -> Seq<char> {
    "label "@ + label_name(class_name, index) + "\n"@
}

/// `goto Class_index`, with its newline.
pub open spec fn goto_line(class_name: Seq<char>, index: nat) -> Seq<char> {
    "goto "@ + label_name(class_name, index) + "\n"@
}

/// `if-goto Class_index`, with its newline.
pub open spec fn if_line(class_name: Seq<char>, index: nat) -> Seq<char> {
    "if-goto "@ + label_name(class_name, index) + "\n"@
}

/// `call name args`, with its newline.
pub open spec fn call_line(name: Seq<char>, args: nat) -> Seq<char> {
    "call "@ + name + " "@ + decimal_digits(args) + "\n"@
}

/// `return`, with its newline.
pub open spec fn return_line() -> Seq<char> {
    "return\n"@
}

/// Writes the VM code of one class; the code collects in the writer, from
/// which it can be taken as text.
pub struct VmWriter {
    output_vm_file: String,
    class_name: String,
    label_index: usize,
}

impl VmWriter {
    /// The code written so far.
    pub closed spec fn output(&self) -> Seq<char> {
        self.output_vm_file@
    }

    /// The name of the class.
    pub closed spec fn class(&self) -> Seq<char> {
        self.class_name@
    }

    /// The next label number.
    pub closed spec fn next_label(&self) -> nat {
        self.label_index as nat
    }

    /// A writer for the class `class_name`, with no code yet and labels
    /// numbered from 0.
    pub fn new(class_name: String) -> (w: Self)
        ensures
            w.output() == Seq::<char>::empty(),
            w.class() == class_name@,
            w.next_label() == 0,
    {
        VmWriter { output_vm_file: String::new(), class_name, label_index: 0 }
    }

    /// The code written so far.
    pub fn get_output(&self) -> (s: &str)
        ensures
            s@ == self.output(),
    {
        self.output_vm_file.as_str()
    }

    /// The name of the class.
    pub fn get_class_name(&self) -> (s: &str)
        ensures
            s@ == self.class(),
    {
        self.class_name.as_str()
    }

    /// A fresh label number: the current one, which is then advanced.
    pub fn get_label_index(&mut self) -> (i: usize)
        requires
            old(self).next_label() < usize::MAX,
        ensures
            i == old(self).next_label(),
            final(self).next_label() == old(self).next_label() + 1,
            final(self).output() == old(self).output(),
            final(self).class() == old(self).class(),
    {
        let curr_label = self.label_index;
        self.label_index = self.label_index + 1;
        curr_label
    }

    /// Appends `line` to the code.
    fn emit(&mut self, line: &[char])
        ensures
            final(self).output() == old(self).output() + line@,
            final(self).class() == old(self).class(),
            final(self).next_label() == old(self).next_label(),
    {
        let mut i: usize = 0;
        while i < line.len()
            invariant
                i <= line.len(),
                self.output() == old(self).output() + line@.take(i as int),
                self.class() == old(self).class(),
                self.next_label() == old(self).next_label(),
            decreases line.len() - i,
        {
            push_char(&mut self.output_vm_file, line[i]);
            assert(line@.take(i + 1) == line@.take(i as int).push(line@[i as int]));
            i = i + 1;
        }
        assert(line@.take(line.len() as int) == line@);
    }

    /// Writes `push segment segment_index`.
    pub fn write_push(&mut self, segment: &VMSegment, segment_index: usize) -> (r: Result<
        (),
        VmWriteError,
    >)
        ensures
            r is Ok,
            final(self).output() == old(self).output() + push_line(*segment, segment_index as nat),
            final(self).class() == old(self).class(),
            final(self).next_label() == old(self).next_label(),
    {
        let mut line: Vec<char> = chars_of("push ");
        let name = segment_text(segment);
        append_chars(&mut line, name.as_slice());
        line.push(' ');
        push_decimal(&mut line, segment_index);
        line.push('\n');
        proof {
            reveal_strlit(" ");
            reveal_strlit("\n");
        }
        assert(line@ =~= push_line(*segment, segment_index as nat));
        self.emit(line.as_slice());
        Ok(())
    }

    /// Writes `pop segment segment_index`; there is no `pop constant`.
    pub fn write_pop(&mut self, segment: &VMSegment, segment_index: usize) -> (r: Result<
        (),
        VmWriteError,
    >)
        ensures
            *segment == VMSegment::CONSTANT ==> r == Err::<(), VmWriteError>(
                VmWriteError::ConstantPop,
            ) && *final(self) == *old(self),
            *segment != VMSegment::CONSTANT ==> r is Ok && final(self).output() == old(
                self,
            ).output() + pop_line(*segment, segment_index as nat),
            final(self).class() == old(self).class(),
            final(self).next_label() == old(self).next_label(),
    {
        if *segment == VMSegment::CONSTANT {
            return Err(VmWriteError::ConstantPop);
        }
        let mut line: Vec<char> = chars_of("pop ");
        let name = segment_text(segment);
        append_chars(&mut line, name.as_slice());
        line.push(' ');
        push_decimal(&mut line, segment_index);
        line.push('\n');
        proof {
            reveal_strlit(" ");
            reveal_strlit("\n");
        }
        assert(line@ =~= pop_line(*segment, segment_index as nat));
        self.emit(line.as_slice());
        Ok(())
    }

    /// Writes `function Class.function_name var_count`.
    pub fn write_function(&mut self, function_name: &str, var_count: usize) -> (r: Result<
        (),
        VmWriteError,
    >)
        ensures
            r is Ok,
            final(self).output() == old(self).output() + function_line(
                old(self).class(),
                function_name@,
                var_count as nat,
            ),
            final(self).class() == old(self).class(),
            final(self).next_label() == old(self).next_label(),
    {
        let mut line: Vec<char> = chars_of("function ");
        let class = chars_of(self.class_name.as_str());
        append_chars(&mut line, class.as_slice());
        line.push('.');
        let name = chars_of(function_name);
        append_chars(&mut line, name.as_slice());
        line.push(' ');
        push_decimal(&mut line, var_count);
        line.push('\n');
        proof {
            reveal_strlit(" ");
            reveal_strlit(".");
            reveal_strlit("\n");
        }
        assert(line@ =~= function_line(self.class(), function_name@, var_count as nat));
        self.emit(line.as_slice());
        Ok(())
    }

    /// Writes the command `command_type`.
    pub fn write_arithmetic(&mut self, command_type: &Commands) -> (r: Result<(), VmWriteError>)
        ensures
            r is Ok,
            final(self).output() == old(self).output() + arithmetic_line(*command_type),
            final(self).class() == old(self).class(),
            final(self).next_label() == old(self).next_label(),
    {
        let mut line: Vec<char> = command_text(command_type);
        line.push('\n');
        proof {
            reveal_strlit("\n");
        }
        assert(line@ =~= arithmetic_line(*command_type));
        self.emit(line.as_slice());
        Ok(())
    }

    /// The line `keyword Class_label_index`.
    fn label_command(&self, keyword: &str, label_index: usize) -> (line: Vec<char>)
        ensures
            line@ == keyword@ + label_name(self.class(), label_index as nat) + "\n"@,
    {
        let mut line: Vec<char> = chars_of(keyword);
        let class = chars_of(self.class_name.as_str());
        append_chars(&mut line, class.as_slice());
        line.push('_');
        push_decimal(&mut line, label_index);
        line.push('\n');
        proof {
            reveal_strlit("_");
            reveal_strlit("\n");
        }
        assert(line@ =~= keyword@ + label_name(self.class(), label_index as nat) + "\n"@);
        line
    }

    /// Writes `label Class_label_index`.
    pub fn write_label(&mut self, label_index: usize) -> (r: Result<(), VmWriteError>)
        ensures
            r is Ok,
            final(self).output() == old(self).output() + label_line(
                old(self).class(),
                label_index as nat,
            ),
            final(self).class() == old(self).class(),
            final(self).next_label() == old(self).next_label(),
    {
        let line = self.label_command("label ", label_index);
        self.emit(line.as_slice());
        Ok(())
    }

    /// Writes `goto Class_label_index`.
    pub fn write_goto(&mut self, label_index: usize) -> (r: Result<(), VmWriteError>)
        ensures
            r is Ok,
            final(self).output() == old(self).output() + goto_line(
                old(self).class(),
                label_index as nat,
            ),
            final(self).class() == old(self).class(),
            final(self).next_label() == old(self).next_label(),
    {
        let line = self.label_command("goto ", label_index);
        self.emit(line.as_slice());
        Ok(())
    }

    /// Writes `if-goto Class_label_index`.
    pub fn write_if(&mut self, label_index: usize) -> (r: Result<(), VmWriteError>)
        ensures
            r is Ok,
            final(self).output() == old(self).output() + if_line(
                old(self).class(),
                label_index as nat,
            ),
            final(self).class() == old(self).class(),
            final(self).next_label() == old(self).next_label(),
    {
        let line = self.label_command("if-goto ", label_index);
        self.emit(line.as_slice());
        Ok(())
    }

    /// Writes `call function_name arg_count`.
    pub fn write_call(&mut self, function_name: &str, arg_count: usize) -> (r: Result<
        (),
        VmWriteError,
    >)
        ensures
            r is Ok,
            final(self).output() == old(self).output() + call_line(
                function_name@,
                arg_count as nat,
            ),
            final(self).class() == old(self).class(),
            final(self).next_label() == old(self).next_label(),
    {
        let mut line: Vec<char> = chars_of("call ");
        let name = chars_of(function_name);
        append_chars(&mut line, name.as_slice());
        line.push(' ');
        push_decimal(&mut line, arg_count);
        line.push('\n');
        proof {
            reveal_strlit(" ");
            reveal_strlit("\n");
        }
        assert(line@ =~= call_line(function_name@, arg_count as nat));
        self.emit(line.as_slice());
        Ok(())
    }

    /// Writes `return`.
    pub fn write_return(&mut self) -> (r: Result<(), VmWriteError>)
        ensures
            r is Ok,
            final(self).output() == old(self).output() + return_line(),
            final(self).class() == old(self).class(),
            final(self).next_label() == old(self).next_label(),
    {
        let line = chars_of("return\n");
        self.emit(line.as_slice());
        Ok(())
    }
}

/// The name of `segment` in VM code.
fn segment_text(segment: &VMSegment) -> (v: Vec<char>)
    ensures
        v@ == segment_name(*segment),
{
    match segment {
        VMSegment::CONSTANT => chars_of("constant"),
        VMSegment::ARGUMENT => chars_of("argument"),
        VMSegment::LOCAL => chars_of("local"),
        VMSegment::STATIC => chars_of("static"),
        VMSegment::THIS => chars_of("this"),
        VMSegment::THAT => chars_of("that"),
        VMSegment::POINTER => chars_of("pointer"),
        VMSegment::TEMP => chars_of("temp"),
    }
}

/// The name of `command` in VM code.
fn command_text(command: &Commands) -> (v: Vec<char>)
    ensures
        v@ == command_name(*command),
{
    match command {
        Commands::ADD => chars_of("add"),
        Commands::SUB => chars_of("sub"),
        Commands::NEG => chars_of("neg"),
        Commands::EQ => chars_of("eq"),
        Commands::GT => chars_of("gt"),
        Commands::LT => chars_of("lt"),
        Commands::AND => chars_of("and"),
        Commands::OR => chars_of("or"),
        Commands::NOT => chars_of("not"),
    }
}

} // verus!
