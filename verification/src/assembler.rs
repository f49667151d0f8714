use vstd::prelude::*;

use crate::numbers::{bits16, binary16, is_bits, lemma_binary_digits_bits, parse_i16, parse_i16_chars};
use crate::table::Table;
use crate::text::{
    is_white, lemma_find_pair_facts, lemma_lines_join, lemma_lines_no_newline, lemma_trail_len_bound,
    lemma_trim_fixed, lemma_trim_shape, pair_at, trail_len, white, append_chars, chars_of, copy_range, find_char, find_char_in, find_comment, find_comment_start,
    first_of, has_prefix, join, join_push, lead_len, lemma_lead_len_bound, lines, other_than,
    split_lines, starts_with, string_of, trim, trim_chars, trim_matches, trim_set_chars, views,
};

verus! {

/// The kind of a line of Hack assembly.
#[derive(PartialEq, Eq, Structural, Debug, Clone, Copy)]
pub enum InstructionType {
    A,
    C,
    /// A label declaration, `(NAME)`.
    L,
}

/// The three fields of a C-instruction, `dest=comp;jump`.
pub enum CInstructionField {
    Dest,
    Comp,
    Jump,
}

/// A parser of Hack assembly, holding the text of one `.asm` file.
pub struct AsmParser(String);

/// The kind of the line `s`: a label when it starts with `(`, an
/// A-instruction when it starts with `@`, a C-instruction otherwise.
pub open spec fn instruction_kind(s: Seq<char>) -> InstructionType {
    if s.len() > 0 && s[0] == '(' {
        InstructionType::L
    } else if s.len() > 0 && s[0] == '@' {
        InstructionType::A
    } else {
        InstructionType::C
    }
}

/// `s` up to its first `c`, or the whole of `s`.
pub open spec fn piece_until(s: Seq<char>, c: char) -> Seq<char> {
    match first_of(s, c) {
        Some(k) => s.take(k),
        None => s,
    }
}

/// The dest field: what stands before the first `=`, if there is one.
pub open spec fn dest_field(s: Seq<char>) -> Option<Seq<char>> {
    match first_of(s, '=') {
        Some(k) => Some(s.take(k)),
        None => None,
    }
}

/// The comp field: what follows the first `=` (up to a second `=`), or the
/// whole line when there is none, cut at the first `;`.
pub open spec fn comp_field(s: Seq<char>) -> Seq<char> {
    let c = match first_of(s, '=') {
        Some(k) => piece_until(s.skip(k + 1), '='),
        None => s,
    };
    piece_until(c, ';')
}

/// The jump field: what follows the first `;` (up to a second `;`), if
/// there is one.
pub open spec fn jump_field(s: Seq<char>) -> Option<Seq<char>> {
    match first_of(s, ';') {
        Some(k) => Some(piece_until(s.skip(k + 1), ';')),
        None => None,
    }
}

/// The field `f` of the C-instruction `s`.
pub open spec fn c_field(s: Seq<char>, f: CInstructionField) -> Option<Seq<char>> {
    match f {
        CInstructionField::Dest => dest_field(s),
        CInstructionField::Comp => Some(comp_field(s)),
        CInstructionField::Jump => jump_field(s),
    }
}

/// The C-instruction `dest=comp;jump`, where the dest and jump parts (and
/// their `=` and `;`) may be absent.
pub open spec fn c_instruction(
    dest: Option<Seq<char>>,
    comp: Seq<char>,
    jump: Option<Seq<char>>,
) -> Seq<char> {
    (match dest {
        Some(d) => d + seq!['='],
        None => seq![],
    }) + comp + (match jump {
        Some(j) => seq![';'] + j,
        None => seq![],
    })
}

/// The first `x` of a sequence that holds none is not there; in `a`, `x`,
/// `b`, where `a` holds no `x`, it is at the end of `a`.
pub proof fn lemma_first_of_split(a: Seq<char>, x: char, b: Seq<char>)
    requires
        !a.contains(x),
    ensures
        first_of(a, x) is None,
        first_of(a + seq![x] + b, x) == Some(a.len() as int),
{
    assert forall|j: int| 0 <= j < a.len() implies other_than(x)(#[trigger] a[j]) by {}
    crate::text::lemma_lead_len_skip(a, other_than(x), a.len() as int);
    assert(a.skip(a.len() as int).len() == 0);
    let s = a + seq![x] + b;
    assert forall|j: int| 0 <= j < a.len() implies other_than(x)(#[trigger] s[j]) by {
        assert(s[j] == a[j]);
    }
    crate::text::lemma_lead_len_skip(s, other_than(x), a.len() as int);
    assert(s.skip(a.len() as int)[0] == x);
}

/// `get_c_instruction_field` takes apart what `c_instruction` puts
/// together: where no part holds `=` or `;`, the dest, comp and jump
/// fields of `dest=comp;jump` are `dest`, `comp` and `jump`.
pub proof fn lemma_c_fields_of_instruction(
    dest: Option<Seq<char>>,
    comp: Seq<char>,
    jump: Option<Seq<char>>,
)
    requires
        dest matches Some(d) ==> !d.contains('=') && !d.contains(';'),
        !comp.contains('=') && !comp.contains(';'),
        jump matches Some(j) ==> !j.contains('=') && !j.contains(';'),
    ensures
        c_field(c_instruction(dest, comp, jump), CInstructionField::Dest) == dest,
        c_field(c_instruction(dest, comp, jump), CInstructionField::Comp) == Some(comp),
        c_field(c_instruction(dest, comp, jump), CInstructionField::Jump) == jump,
{
    let s = c_instruction(dest, comp, jump);
    let dp: Seq<char> = match dest {
        Some(d) => d + seq!['='],
        None => seq![],
    };
    let jp: Seq<char> = match jump {
        Some(j) => seq![';'] + j,
        None => seq![],
    };
    let tail = comp + jp;
    assert(!tail.contains('=')) by {
        if tail.contains('=') {
            let i = choose|i: int| 0 <= i < tail.len() && tail[i] == '=';
            if i < comp.len() {
                assert(comp[i] == '=');
            } else {
                assert(jp[i - comp.len()] == '=');
                if let Some(j) = jump {
                    assert(j[i - comp.len() - 1] == '=');
                }
            }
        }
    }
    match dest {
        Some(d) => {
            assert(s =~= d + seq!['='] + tail);
            lemma_first_of_split(d, '=', tail);
            assert(s.take(d.len() as int) =~= d);
            assert(s.skip(d.len() as int + 1) =~= tail);
            lemma_first_of_split(tail, '=', seq![]);
        },
        None => {
            assert(s =~= tail);
            lemma_first_of_split(tail, '=', seq![]);
        },
    }
    let head = dp + comp;
    assert(!head.contains(';')) by {
        if head.contains(';') {
            let i = choose|i: int| 0 <= i < head.len() && head[i] == ';';
            if i < dp.len() {
                if let Some(d) = dest {
                    assert(d[i] == ';');
                }
            } else {
                assert(comp[i - dp.len()] == ';');
            }
        }
    }
    match jump {
        Some(j) => {
            assert(s =~= head + seq![';'] + j);
            lemma_first_of_split(head, ';', j);
            assert(s.skip(head.len() as int + 1) =~= j);
            lemma_first_of_split(j, ';', seq![]);
            assert(tail =~= comp + seq![';'] + j);
            lemma_first_of_split(comp, ';', j);
            assert(tail.take(comp.len() as int) =~= comp);
        },
        None => {
            assert(s =~= head);
            lemma_first_of_split(head, ';', seq![]);
            assert(tail =~= comp);
            lemma_first_of_split(comp, ';', seq![]);
        },
    }
}

/// A line as cleaning leaves it: trimmed, cut at a `//` comment, and
/// dropped when nothing but a comment or white space is left.
pub open spec fn clean_line(line: Seq<char>) -> Option<Seq<char>> {
    let l = trim(line);
    if l.len() == 0 || starts_with(l, seq!['/', '/']) {
        None
    } else {
        match find_comment(l) {
            Some(k) => Some(trim(l.take(k))),
            None => Some(l),
        }
    }
}

/// The cleaned forms of the lines `ls` that cleaning keeps, in order.
pub open spec fn kept_lines(ls: Seq<Seq<char>>) -> Seq<Seq<char>>
    decreases ls.len(),
{
    if ls.len() == 0 {
        seq![]
    } else {
        match clean_line(ls.last()) {
            Some(p) => kept_lines(ls.drop_last()).push(p),
            None => kept_lines(ls.drop_last()),
        }
    }
}

/// The program `src` without comments, blank lines and surrounding
/// white space, one instruction per line.
pub open spec fn cleaned(src: Seq<char>) -> Seq<char> {
    join(kept_lines(lines(src)))
}

/// The name declared by the label line `l`.
pub open spec fn label_name(l: Seq<char>) -> Seq<char> {
    trim_matches(l, seq!['(', ')'])
}

/// The symbol or number of the A-instruction `l`.
pub open spec fn a_operand(l: Seq<char>) -> Seq<char> {
    trim_matches(l, seq!['@'])
}

/// The first pass over the lines `ls`, starting from the symbols `t`: each
/// label gets the number of instructions before it, and the instructions
/// are kept. Yields the symbols, the number of instructions and the
/// instructions.
pub open spec fn first_pass(ls: Seq<Seq<char>>, t: Map<Seq<char>, i16>) -> (
    Map<Seq<char>, i16>,
    int,
    Seq<Seq<char>>,
)
    decreases ls.len(),
{
    if ls.len() == 0 {
        (t, 0, seq![])
    } else {
        let p = first_pass(ls.drop_last(), t);
        let l = ls.last();
        if instruction_kind(l) == InstructionType::L {
            (p.0.insert(label_name(l), p.1 as i16), p.1, p.2)
        } else {
            (p.0, p.1 + 1, p.2.push(l))
        }
    }
}

/// The codes that a table of strings holds, as character sequences.
pub open spec fn code_view(m: Map<Seq<char>, String>) -> Map<Seq<char>, Seq<char>> {
    m.map_values(|s: String| s@)
}

/// The name `null`, under which the tables hold the code of an absent
/// dest or jump field.
pub open spec fn null_name() -> Seq<char> {
    seq!['n', 'u', 'l', 'l']
}

/// The key under which the dest table holds the code of `l`.
pub open spec fn dest_key(l: Seq<char>) -> Seq<char> {
    match dest_field(l) {
        Some(d) => d,
        None => null_name(),
    }
}

/// The key under which the jump table holds the code of `l`.
pub open spec fn jump_key(l: Seq<char>) -> Seq<char> {
    match jump_field(l) {
        Some(j) => j,
        None => null_name(),
    }
}

/// Whether the tables have codes for each field of the C-instruction `l`.
pub open spec fn c_known(
    l: Seq<char>,
    comp: Map<Seq<char>, Seq<char>>,
    dest: Map<Seq<char>, Seq<char>>,
    jump: Map<Seq<char>, Seq<char>>,
) -> bool {
    &&& comp.contains_key(comp_field(l))
    &&& dest.contains_key(dest_key(l))
    &&& jump.contains_key(jump_key(l))
}

/// The machine code of the C-instruction `l`: `111`, then the codes of its
/// comp, dest and jump fields.
pub open spec fn c_code(
    l: Seq<char>,
    comp: Map<Seq<char>, Seq<char>>,
    dest: Map<Seq<char>, Seq<char>>,
    jump: Map<Seq<char>, Seq<char>>,
) -> Seq<char> {
    seq!['1', '1', '1'] + comp[comp_field(l)] + dest[dest_key(l)] + jump[jump_key(l)]
}

/// The second pass over the instructions `ks`, with the symbols `t` and the
/// next free variable address `next`: an A-instruction gets its number, the
/// address of its symbol, or a new address for a new variable; a
/// C-instruction gets its code. Yields the symbols, the next free address
/// and the machine code of each instruction.
pub open spec fn second_pass(
    ks: Seq<Seq<char>>,
    t: Map<Seq<char>, i16>,
    next: int,
    comp: Map<Seq<char>, Seq<char>>,
    dest: Map<Seq<char>, Seq<char>>,
    jump: Map<Seq<char>, Seq<char>>,
) -> (Map<Seq<char>, i16>, int, Seq<Seq<char>>)
    decreases ks.len(),
{
    if ks.len() == 0 {
        (t, next, seq![])
    } else {
        let p = second_pass(ks.drop_last(), t, next, comp, dest, jump);
        let l = ks.last();
        if instruction_kind(l) == InstructionType::A {
            let s = a_operand(l);
            match parse_i16(s) {
                Some(v) => (p.0, p.1, p.2.push(bits16(v))),
                None => if p.0.contains_key(s) {
                    (p.0, p.1, p.2.push(bits16(p.0[s])))
                } else {
                    (p.0.insert(s, p.1 as i16), p.1 + 1, p.2.push(bits16(p.1 as i16)))
                },
            }
        } else {
            (p.0, p.1, p.2.push(c_code(l, comp, dest, jump)))
        }
    }
}

/// The first address given to a variable.
pub open spec fn first_variable_address() -> int {
    16
}

/// Whether the program `src` translates with the symbols `t` and the code
/// tables: at most 32767 instructions, a code for each field of each
/// C-instruction, and variable addresses that stay within `i16`.
pub open spec fn translatable(
    src: Seq<char>,
    t: Map<Seq<char>, i16>,
    comp: Map<Seq<char>, Seq<char>>,
    dest: Map<Seq<char>, Seq<char>>,
    jump: Map<Seq<char>, Seq<char>>,
) -> bool {
    let p = first_pass(lines(src), t);
    &&& p.1 <= 32767
    &&& forall|i: int|
        0 <= i < p.2.len() && instruction_kind(#[trigger] p.2[i]) == InstructionType::C
            ==> c_known(p.2[i], comp, dest, jump)
    &&& second_pass(p.2, p.0, first_variable_address(), comp, dest, jump).1 <= 32767
}

/// What cleaning keeps of a line is not empty, neither starts nor ends with
/// white space, holds no `//`, holds a newline only where the line does,
/// and is kept whole by a second cleaning.
pub proof fn lemma_clean_line_fixed(x: Seq<char>)
    requires
        clean_line(x) is Some,
    ensures
        clean_line(x).unwrap().len() > 0,
        !is_white(clean_line(x).unwrap()[0]),
        !is_white(clean_line(x).unwrap().last()),
        find_comment(clean_line(x).unwrap()) is None,
        !x.contains('\n') ==> !clean_line(x).unwrap().contains('\n'),
        clean_line(clean_line(x).unwrap()) == clean_line(x),
{
    let l = trim(x);
    lemma_trim_shape(x);
    let a = lead_len(x, white());
    lemma_find_pair_facts(l, '/', '/');
    let slashes = seq!['/', '/'];
    match find_comment(l) {
        None => {
            lemma_trim_fixed(l);
            assert forall|j: int| 0 <= j < l.len() implies l[j] == x[a + j] by {}
        },
        Some(k) => {
            if k == 0 {
                assert(l.take(2) =~= slashes);
            }
            assert(k >= 1);
            let m = l.take(k);
            assert(m[0] == l[0]);
            assert(lead_len(m, white()) == 0);
            lemma_trim_shape(m);
            lemma_trail_len_bound(m, white());
            let p = trim(m);
            assert(m.skip(0) =~= m);
            if trail_len(m, white()) == m.len() {
                assert(white()(m[0]));
            }
            assert(p.len() > 0);
            assert(p == m.subrange(0, p.len() as int));
            assert(forall|j: int| 0 <= j < p.len() ==> p[j] == l[j]);
            lemma_trim_fixed(p);
            lemma_find_pair_facts(p, '/', '/');
            if starts_with(p, slashes) {
                assert(p[0] == slashes[0] && p[1] == slashes[1]);
                assert(pair_at(l, '/', '/', 0));
            }
            match find_comment(p) {
                Some(j) => {
                    assert(pair_at(l, '/', '/', j));
                },
                None => {},
            }
            assert forall|j: int| 0 <= j < p.len() implies p[j] == x[a + j] by {}
        },
    }
}

/// Every line that cleaning keeps of `ls` is kept whole by a second
/// cleaning, and holds no newline where the lines `ls` hold none.
pub proof fn lemma_kept_lines_fixed(ls: Seq<Seq<char>>)
    requires
        forall|i: int| 0 <= i < ls.len() ==> !(#[trigger] ls[i]).contains('\n'),
    ensures
        forall|i: int|
            0 <= i < kept_lines(ls).len() ==> {
                let p = #[trigger] kept_lines(ls)[i];
                &&& p.len() > 0
                &&& !is_white(p[0])
                &&& !is_white(p.last())
                &&& !p.contains('\n')
                &&& find_comment(p) is None
                &&& clean_line(p) == Some(p)
            },
    decreases ls.len(),
{
    if ls.len() > 0 {
        let rest = ls.drop_last();
        assert forall|i: int| 0 <= i < rest.len() implies !(#[trigger] rest[i]).contains('\n') by {
            assert(rest[i] == ls[i]);
        }
        lemma_kept_lines_fixed(rest);
        assert(ls[ls.len() - 1] == ls.last());
        match clean_line(ls.last()) {
            Some(p) => {
                lemma_clean_line_fixed(ls.last());
            },
            None => {},
        }
    }
}

/// Lines that cleaning keeps whole are all kept.
pub proof fn lemma_kept_lines_of_clean(ps: Seq<Seq<char>>)
    requires
        forall|i: int| 0 <= i < ps.len() ==> clean_line(#[trigger] ps[i]) == Some(ps[i]),
    ensures
        kept_lines(ps) == ps,
    decreases ps.len(),
{
    if ps.len() > 0 {
        let rest = ps.drop_last();
        assert forall|i: int| 0 <= i < rest.len() implies clean_line(#[trigger] rest[i]) == Some(rest[i]) by {
            assert(rest[i] == ps[i]);
        }
        lemma_kept_lines_of_clean(rest);
        assert(ps[ps.len() - 1] == ps.last());
        assert(rest.push(ps.last()) =~= ps);
    }
}

/// Cleaning is idempotent: cleaning a cleaned program changes nothing. The
/// lines of a cleaned program are the lines that cleaning kept, none of
/// them blank, none with white space at either end or a `//` comment.
pub proof fn lemma_cleaned_idempotent(src: Seq<char>)
    ensures
        cleaned(cleaned(src)) == cleaned(src),
        lines(cleaned(src)) == kept_lines(lines(src)),
        forall|i: int|
            0 <= i < lines(cleaned(src)).len() ==> {
                let l = #[trigger] lines(cleaned(src))[i];
                &&& l.len() > 0
                &&& !is_white(l[0])
                &&& !is_white(l.last())
                &&& find_comment(l) is None
            },
{
    let ls = lines(src);
    lemma_lines_no_newline(src);
    lemma_kept_lines_fixed(ls);
    let k = kept_lines(ls);
    assert forall|i: int| 0 <= i < k.len() implies (#[trigger] k[i]).len() > 0 && !k[i].contains('\n')
        && k[i].last() != '\r' by {
        assert(is_white('\r'));
    }
    lemma_lines_join(k);
    lemma_kept_lines_of_clean(k);
}

/// The instructions of the program `src`: its lines but the labels.
pub open spec fn instructions(src: Seq<char>) -> Seq<Seq<char>> {
    first_pass(lines(src), Map::empty()).2
}

/// The machine words of the program `src`, one per instruction.
pub open spec fn machine_words(
    src: Seq<char>,
    t: Map<Seq<char>, i16>,
    comp: Map<Seq<char>, Seq<char>>,
    dest: Map<Seq<char>, Seq<char>>,
    jump: Map<Seq<char>, Seq<char>>,
) -> Seq<Seq<char>> {
    let p = first_pass(lines(src), t);
    second_pass(p.2, p.0, first_variable_address(), comp, dest, jump).2
}

/// The machine code of the program `src`, one instruction per line.
pub open spec fn translation(
    src: Seq<char>,
    t: Map<Seq<char>, i16>,
    comp: Map<Seq<char>, Seq<char>>,
    dest: Map<Seq<char>, Seq<char>>,
    jump: Map<Seq<char>, Seq<char>>,
) -> Seq<char> {
    join(machine_words(src, t, comp, dest, jump))
}

/// The symbols after translating the program `src`.
pub open spec fn final_symbols(
    src: Seq<char>,
    t: Map<Seq<char>, i16>,
    comp: Map<Seq<char>, Seq<char>>,
    dest: Map<Seq<char>, Seq<char>>,
    jump: Map<Seq<char>, Seq<char>>,
) -> Map<Seq<char>, i16> {
    let p = first_pass(lines(src), t);
    second_pass(p.2, p.0, first_variable_address(), comp, dest, jump).0
}

/// For code tables whose codes are 7 (comp) and 3 (dest, jump) binary
/// digits, the second pass gives each instruction of `ks` (none of them a
/// label, every C-instruction with known fields) exactly one word of 16
/// binary digits, in order.
pub proof fn lemma_second_pass_words(
    ks: Seq<Seq<char>>,
    t: Map<Seq<char>, i16>,
    next: int,
    comp: Map<Seq<char>, Seq<char>>,
    dest: Map<Seq<char>, Seq<char>>,
    jump: Map<Seq<char>, Seq<char>>,
)
    requires
        forall|k: Seq<char>| #[trigger] comp.contains_key(k) ==> is_bits(comp[k], 7),
        forall|k: Seq<char>| #[trigger] dest.contains_key(k) ==> is_bits(dest[k], 3),
        forall|k: Seq<char>| #[trigger] jump.contains_key(k) ==> is_bits(jump[k], 3),
        forall|i: int|
            0 <= i < ks.len() ==> instruction_kind(#[trigger] ks[i]) != InstructionType::L,
        forall|i: int|
            0 <= i < ks.len() && instruction_kind(#[trigger] ks[i]) == InstructionType::C
                ==> c_known(ks[i], comp, dest, jump),
    ensures
        second_pass(ks, t, next, comp, dest, jump).2.len() == ks.len(),
        forall|i: int|
            0 <= i < ks.len() ==> is_bits(#[trigger] second_pass(ks, t, next, comp, dest, jump).2[i], 16),
    decreases ks.len(),
{
    if ks.len() > 0 {
        let rest = ks.drop_last();
        assert forall|i: int| 0 <= i < rest.len() implies instruction_kind(#[trigger] rest[i])
            != InstructionType::L by {
            assert(rest[i] == ks[i]);
        }
        assert forall|i: int|
            0 <= i < rest.len() && instruction_kind(#[trigger] rest[i]) == InstructionType::C
                implies c_known(rest[i], comp, dest, jump) by {
            assert(rest[i] == ks[i]);
        }
        lemma_second_pass_words(rest, t, next, comp, dest, jump);
        let p = second_pass(rest, t, next, comp, dest, jump);
        let l = ks.last();
        assert(ks[ks.len() - 1] == l);
        let w = second_pass(ks, t, next, comp, dest, jump).2;
        assert(forall|i: int| 0 <= i < rest.len() ==> w[i] == p.2[i]);
        if instruction_kind(l) == InstructionType::A {
            let s = a_operand(l);
            match parse_i16(s) {
                Some(v) => lemma_bits16_bits(v),
                None => if p.0.contains_key(s) {
                    lemma_bits16_bits(p.0[s]);
                } else {
                    lemma_bits16_bits(p.1 as i16);
                },
            }
        } else {
            let code = c_code(l, comp, dest, jump);
            let c = comp[comp_field(l)];
            let d = dest[dest_key(l)];
            let j = jump[jump_key(l)];
            assert(is_bits(c, 7) && is_bits(d, 3) && is_bits(j, 3));
            assert(code == seq!['1', '1', '1'] + c + d + j);
            assert forall|i: int| 0 <= i < 16 implies (#[trigger] code[i] == '0' || code[i] == '1') by {
                if i < 3 {
                } else if i < 10 {
                    assert(code[i] == c[i - 3]);
                } else if i < 13 {
                    assert(code[i] == d[i - 10]);
                } else {
                    assert(code[i] == j[i - 13]);
                }
            }
        }
    }
}

/// The word of each instruction: an A-instruction with a number gets the
/// sixteen bits of the number; a C-instruction gets `111`, then at bits
/// 3 to 9 the code of its comp field, at bits 10 to 12 that of its dest
/// field (`null` when there is none), at bits 13 to 15 that of its jump
/// field (`null` when there is none).
pub proof fn lemma_second_pass_word_layout(
    ks: Seq<Seq<char>>,
    t: Map<Seq<char>, i16>,
    next: int,
    comp: Map<Seq<char>, Seq<char>>,
    dest: Map<Seq<char>, Seq<char>>,
    jump: Map<Seq<char>, Seq<char>>,
    i: int,
)
    requires
        0 <= i < ks.len(),
        instruction_kind(ks[i]) == InstructionType::C ==> is_bits(comp[comp_field(ks[i])], 7) && is_bits(
            dest[dest_key(ks[i])],
            3,
        ),
    ensures
        ({
            let w = second_pass(ks, t, next, comp, dest, jump).2[i];
            let l = ks[i];
            &&& instruction_kind(l) == InstructionType::C ==> {
                &&& w.subrange(0, 3) == seq!['1', '1', '1']
                &&& w.subrange(3, 10) == comp[comp_field(l)]
                &&& w.subrange(10, 13) == dest[dest_key(l)]
                &&& w.skip(13) == jump[jump_key(l)]
            }
            &&& (instruction_kind(l) == InstructionType::A && parse_i16(a_operand(l)) is Some) ==> w
                == bits16(parse_i16(a_operand(l)).unwrap())
        }),
    decreases ks.len(),
{
    let rest = ks.drop_last();
    if i < ks.len() - 1 {
        assert(rest[i] == ks[i]);
        lemma_second_pass_word_layout(rest, t, next, comp, dest, jump, i);
        lemma_second_pass_len(rest, t, next, comp, dest, jump);
    } else {
        lemma_second_pass_len(rest, t, next, comp, dest, jump);
        let l = ks[i];
        if instruction_kind(l) == InstructionType::C {
            let code = c_code(l, comp, dest, jump);
            let c = comp[comp_field(l)];
            let d = dest[dest_key(l)];
            let j = jump[jump_key(l)];
            assert(code.subrange(0, 3) =~= seq!['1', '1', '1']);
            assert(code.subrange(3, 10) =~= c);
            assert(code.subrange(10, 13) =~= d);
            assert(code.skip(13) =~= j);
        }
    }
}

/// The second pass gives one word per instruction.
proof fn lemma_second_pass_len(
    ks: Seq<Seq<char>>,
    t: Map<Seq<char>, i16>,
    next: int,
    comp: Map<Seq<char>, Seq<char>>,
    dest: Map<Seq<char>, Seq<char>>,
    jump: Map<Seq<char>, Seq<char>>,
)
    ensures
        second_pass(ks, t, next, comp, dest, jump).2.len() == ks.len(),
    decreases ks.len(),
{
    if ks.len() > 0 {
        lemma_second_pass_len(ks.drop_last(), t, next, comp, dest, jump);
    }
}

/// Variables get addresses from 16 on: the second pass of a program
/// starts at address 16.
pub proof fn lemma_variables_from_sixteen(
    src: Seq<char>,
    t: Map<Seq<char>, i16>,
    comp: Map<Seq<char>, Seq<char>>,
    dest: Map<Seq<char>, Seq<char>>,
    jump: Map<Seq<char>, Seq<char>>,
)
    ensures
        machine_words(src, t, comp, dest, jump) == second_pass(
            first_pass(lines(src), t).2,
            first_pass(lines(src), t).0,
            16,
            comp,
            dest,
            jump,
        ).2,
{
}

/// `bits16(v)` is sixteen binary digits.
pub proof fn lemma_bits16_bits(v: i16)
    ensures
        is_bits(bits16(v), 16),
{
    lemma_binary_digits_bits((if v < 0 { v + 65536 } else { v as int }) as nat, 16);
}

/// The instructions that the first pass keeps do not depend on the symbols
/// it starts from.
pub proof fn lemma_first_pass_instructions(ls: Seq<Seq<char>>, t: Map<Seq<char>, i16>, u: Map<Seq<char>, i16>)
    ensures
        first_pass(ls, t).1 == first_pass(ls, u).1,
        first_pass(ls, t).2 == first_pass(ls, u).2,
    decreases ls.len(),
{
    if ls.len() > 0 {
        lemma_first_pass_instructions(ls.drop_last(), t, u);
    }
}

/// The first pass gives a label that no later line declares again the
/// number of instructions before it.
pub proof fn lemma_first_pass_label(ls: Seq<Seq<char>>, t: Map<Seq<char>, i16>, i: int)
    requires
        0 <= i < ls.len(),
        instruction_kind(ls[i]) == InstructionType::L,
        forall|j: int|
            i < j < ls.len() && instruction_kind(#[trigger] ls[j]) == InstructionType::L
                ==> label_name(ls[j]) != label_name(ls[i]),
    ensures
        first_pass(ls, t).0.contains_key(label_name(ls[i])),
        first_pass(ls, t).0[label_name(ls[i])] == first_pass(ls.take(i), t).1 as i16,
    decreases ls.len(),
{
    let rest = ls.drop_last();
    if i == ls.len() - 1 {
        assert(rest == ls.take(i));
    } else {
        assert(rest[i] == ls[i]);
        assert forall|j: int|
            i < j < rest.len() && instruction_kind(#[trigger] rest[j]) == InstructionType::L
                implies label_name(rest[j]) != label_name(rest[i]) by {
            assert(rest[j] == ls[j]);
        }
        lemma_first_pass_label(rest, t, i);
        assert(rest.take(i) == ls.take(i));
        assert(ls[ls.len() - 1] == ls.last());
    }
}

/// The second pass keeps every symbol it starts with, at its address.
pub proof fn lemma_second_pass_keeps(
    ks: Seq<Seq<char>>,
    t: Map<Seq<char>, i16>,
    next: int,
    comp: Map<Seq<char>, Seq<char>>,
    dest: Map<Seq<char>, Seq<char>>,
    jump: Map<Seq<char>, Seq<char>>,
    name: Seq<char>,
)
    requires
        t.contains_key(name),
    ensures
        second_pass(ks, t, next, comp, dest, jump).0.contains_key(name),
        second_pass(ks, t, next, comp, dest, jump).0[name] == t[name],
    decreases ks.len(),
{
    if ks.len() > 0 {
        lemma_second_pass_keeps(ks.drop_last(), t, next, comp, dest, jump, name);
    }
}

/// The symbols that the second pass adds are variables: each gets an
/// address from `next` up to (not including) the next free one, and no two
/// share an address, as long as the addresses stay within `i16`.
pub proof fn lemma_second_pass_variables(
    ks: Seq<Seq<char>>,
    t: Map<Seq<char>, i16>,
    next: int,
    comp: Map<Seq<char>, Seq<char>>,
    dest: Map<Seq<char>, Seq<char>>,
    jump: Map<Seq<char>, Seq<char>>,
)
    requires
        0 <= next,
        second_pass(ks, t, next, comp, dest, jump).1 <= 32767,
    ensures
        forall|n: Seq<char>|
            #[trigger] second_pass(ks, t, next, comp, dest, jump).0.contains_key(n) && !t.contains_key(n)
                ==> next <= second_pass(ks, t, next, comp, dest, jump).0[n] < second_pass(
                ks,
                t,
                next,
                comp,
                dest,
                jump,
            ).1,
        forall|a: Seq<char>, b: Seq<char>|
            #![trigger second_pass(ks, t, next, comp, dest, jump).0[a], second_pass(ks, t, next, comp, dest, jump).0[b]]
            second_pass(ks, t, next, comp, dest, jump).0.contains_key(a) && second_pass(
                ks,
                t,
                next,
                comp,
                dest,
                jump,
            ).0.contains_key(b) && !t.contains_key(a) && !t.contains_key(b) && a != b
                ==> second_pass(ks, t, next, comp, dest, jump).0[a] != second_pass(
                ks,
                t,
                next,
                comp,
                dest,
                jump,
            ).0[b],
    decreases ks.len(),
{
    if ks.len() > 0 {
        let rest = ks.drop_last();
        lemma_second_pass_next_grows(ks, t, next, comp, dest, jump, rest.len() as int);
        assert(ks.take(rest.len() as int) == rest);
        lemma_second_pass_variables(rest, t, next, comp, dest, jump);
    }
}

/// A label that the program `src` declares once and that no later line
/// declares again ends in the symbol table with the number of instructions
/// before it: the address of the instruction that follows it.
pub proof fn lemma_label_address(
    src: Seq<char>,
    t: Map<Seq<char>, i16>,
    comp: Map<Seq<char>, Seq<char>>,
    dest: Map<Seq<char>, Seq<char>>,
    jump: Map<Seq<char>, Seq<char>>,
    i: int,
)
    requires
        0 <= i < lines(src).len(),
        instruction_kind(lines(src)[i]) == InstructionType::L,
        forall|j: int|
            i < j < lines(src).len() && instruction_kind(#[trigger] lines(src)[j]) == InstructionType::L
                ==> label_name(lines(src)[j]) != label_name(lines(src)[i]),
    ensures
        final_symbols(src, t, comp, dest, jump).contains_key(label_name(lines(src)[i])),
        final_symbols(src, t, comp, dest, jump)[label_name(lines(src)[i])] == first_pass(
            lines(src).take(i),
            t,
        ).1 as i16,
{
    let ls = lines(src);
    lemma_first_pass_label(ls, t, i);
    let p = first_pass(ls, t);
    lemma_second_pass_keeps(p.2, p.0, first_variable_address(), comp, dest, jump, label_name(ls[i]));
}

/// The first pass keeps no label line among the instructions.
pub proof fn lemma_first_pass_kept_no_labels(ls: Seq<Seq<char>>, t: Map<Seq<char>, i16>)
    ensures
        forall|i: int|
            0 <= i < first_pass(ls, t).2.len() ==> instruction_kind(#[trigger] first_pass(ls, t).2[i])
                != InstructionType::L,
    decreases ls.len(),
{
    if ls.len() > 0 {
        lemma_first_pass_kept_no_labels(ls.drop_last(), t);
    }
}

/// Cleaning keeps at most as many lines as there are.
pub proof fn lemma_kept_lines_len(ls: Seq<Seq<char>>)
    ensures
        kept_lines(ls).len() <= ls.len(),
    decreases ls.len(),
{
    if ls.len() > 0 {
        lemma_kept_lines_len(ls.drop_last());
    }
}

/// The number of instructions that the first pass counts grows with the
/// lines it has seen.
pub proof fn lemma_first_pass_count_grows(ls: Seq<Seq<char>>, t: Map<Seq<char>, i16>, i: int)
    requires
        0 <= i <= ls.len(),
    ensures
        0 <= first_pass(ls.take(i), t).1 <= first_pass(ls, t).1,
    decreases ls.len(),
{
    if i < ls.len() {
        lemma_first_pass_count_grows(ls.drop_last(), t, i);
        assert(ls.drop_last().take(i) == ls.take(i));
    } else {
        assert(ls.take(i) == ls);
        if ls.len() > 0 {
            lemma_first_pass_count_grows(ls.drop_last(), t, 0);
        }
    }
}

/// The next free variable address only grows along the second pass.
pub proof fn lemma_second_pass_next_grows(
    ks: Seq<Seq<char>>,
    t: Map<Seq<char>, i16>,
    next: int,
    comp: Map<Seq<char>, Seq<char>>,
    dest: Map<Seq<char>, Seq<char>>,
    jump: Map<Seq<char>, Seq<char>>,
    i: int,
)
    requires
        0 <= i <= ks.len(),
    ensures
        next <= second_pass(ks.take(i), t, next, comp, dest, jump).1 <= second_pass(
            ks,
            t,
            next,
            comp,
            dest,
            jump,
        ).1,
    decreases ks.len(),
{
    if i < ks.len() {
        lemma_second_pass_next_grows(ks.drop_last(), t, next, comp, dest, jump, i);
        assert(ks.drop_last().take(i) == ks.take(i));
    } else {
        assert(ks.take(i) == ks);
        if ks.len() > 0 {
            lemma_second_pass_next_grows(ks.drop_last(), t, next, comp, dest, jump, 0);
        }
    }
}

/// The kind of the line `v`.
fn kind_of(v: &[char]) -> (k: InstructionType)
    ensures
        k == instruction_kind(v@),
{
    if v.len() > 0 && v[0] == '(' {
        InstructionType::L
    } else if v.len() > 0 && v[0] == '@' {
        InstructionType::A
    } else {
        InstructionType::C
    }
}

/// The first pass over the lines `ls`: labels go into `symbol_table`, the
/// instructions are returned; `None` when there are more than 32767
/// instructions.
fn run_first_pass(ls: &Vec<Vec<char>>, symbol_table: &mut Table<i16>) -> (r: Option<Vec<Vec<char>>>)
    requires
        old(symbol_table).wf(),
    ensures
        final(symbol_table).wf(),
        r is Some <==> first_pass(views(ls@), old(symbol_table)@).1 <= 32767,
        r matches Some(kept) ==> views(kept@) == first_pass(views(ls@), old(symbol_table)@).2
            && final(symbol_table)@ == first_pass(views(ls@), old(symbol_table)@).0,
{
    let ghost lv = views(ls@);
    let ghost t0 = symbol_table@;
    let mut kept: Vec<Vec<char>> = Vec::new();
    let mut line_number: i16 = 0;
    let paren = ['(', ')'];
    assert(paren@ == seq!['(', ')']);
    assert(views(kept@) =~= Seq::<Seq<char>>::empty());
    assert(lv.take(0) =~= Seq::<Seq<char>>::empty());
    let mut i: usize = 0;
    while i < ls.len()
        invariant
            i <= ls@.len(),
            lv == views(ls@),
            t0 == old(symbol_table)@,
            symbol_table.wf(),
            first_pass(lv.take(i as int), t0) == (symbol_table@, line_number as int, views(kept@)),
            paren@ == seq!['(', ')'],
        decreases ls.len() - i,
    {
        proof {
            assert(lv.take(i + 1).drop_last() == lv.take(i as int));
            assert(lv.take(i + 1).last() == ls@[i as int]@);
            lemma_first_pass_count_grows(lv, t0, i + 1);
        }
        let line = &ls[i];
        match kind_of(line.as_slice()) {
            InstructionType::L => {
                let name = trim_set_chars(line.as_slice(), &paren);
                symbol_table.insert(string_of(name.as_slice()), line_number);
            },
            _ => {
                if line_number == 32767 {
                    assert(first_pass(lv.take(i + 1), t0).1 == 32768);
                    return None;
                }
                line_number = line_number + 1;
                let ghost before = views(kept@);
                let copy = copy_range(line.as_slice(), 0, line.len());
                assert(copy@ =~= line@);
                kept.push(copy);
                assert(views(kept@) =~= before.push(line@));
            },
        }
        i = i + 1;
    }
    assert(lv.take(ls.len() as int) == lv);
    Some(kept)
}

impl AsmParser {
    /// The text that the parser holds.
    pub closed spec fn source(&self) -> Seq<char> {
        self.0@
    }

    /// A parser of the given text.
    pub fn new(asm_file_contents: String) -> (p: AsmParser)
        ensures
            p.source() == asm_file_contents@,
    {
        AsmParser(asm_file_contents)
    }

    /// The kind of `instruction_line`.
    pub fn get_instruction_type(&self, instruction_line: &str) -> (k: InstructionType)
        ensures
            k == instruction_kind(instruction_line@),
    {
        if instruction_line.is_empty() {
            return InstructionType::C;
        }
        let first = instruction_line.get_char(0);
        if first == '(' {
            InstructionType::L
        } else if first == '@' {
            InstructionType::A
        } else {
            InstructionType::C
        }
    }

    /// The text without comments, blank lines and surrounding white space,
    /// one instruction per line, with no newline at the end.
    pub fn clean_instructions(&self) -> (r: String)
        ensures
            r@ == cleaned(self.source()),
    {
        let src = chars_of(self.0.as_str());
        let ls = split_lines(src.as_slice());
        let ghost lv = views(ls@);
        let mut out: Vec<char> = Vec::new();
        let mut count: usize = 0;
        let mut i: usize = 0;
        while i < ls.len()
            invariant
                i <= ls@.len(),
                lv == views(ls@),
                out@ == join(kept_lines(lv.take(i as int))),
                count == kept_lines(lv.take(i as int)).len(),
            decreases ls.len() - i,
        {
            let ghost ps = kept_lines(lv.take(i as int));
            proof {
                lemma_kept_lines_len(lv.take(i as int));
            }
            assert(lv.take(i + 1).drop_last() == lv.take(i as int));
            assert(lv.take(i + 1).last() == ls@[i as int]@);
            let line = trim_chars(ls[i].as_slice());
            let slashes = ['/', '/'];
            assert(slashes@ == seq!['/', '/']);
            if line.len() == 0 || has_prefix(line.as_slice(), &slashes) {
            } else {
                let piece = match find_comment_start(line.as_slice()) {
                    Some(k) => {
                        let before = copy_range(line.as_slice(), 0, k);
                        trim_chars(before.as_slice())
                    },
                    None => line,
                };
                proof {
                    assert(clean_line(ls@[i as int]@) == Some(piece@));
                }
                join_push(&mut out, count, piece.as_slice(), Ghost(ps));
                count = count + 1;
            }
            i = i + 1;
        }
        assert(lv.take(ls.len() as int) == lv);
        string_of(out.as_slice())
    }

    /// `instruction_line` without the characters of `pattern` at its front
    /// and back.
    pub fn get_symbol<'a>(&self, instruction_line: &'a str, pattern: &[char]) -> (r: &'a str)
        ensures
            r@ == trim_matches(instruction_line@, pattern@),
    {
        let v = chars_of(instruction_line);
        let t = trim_set_chars(v.as_slice(), pattern);
        let a = crate::text::lead_in_set_len(v.as_slice(), pattern);
        proof {
            lemma_lead_len_bound(v@, crate::text::in_set(pattern@));
        }
        proof {
            let rest = v@.skip(a as int);
            crate::text::lemma_trail_len_bound(rest, crate::text::in_set(pattern@));
            assert(rest.len() == v@.len() - a);
            assert(t@.len() <= rest.len());
            assert(t@ =~= v@.subrange(a as int, a + t@.len()));
            assert(a + t@.len() <= v@.len());
        }
        // The trimmed part ends within the line, whose length is a `usize`.
        let line_length = v.len();
        assert(a + t.len() <= line_length);
        let end = a + t.len();
        instruction_line.substring_char(a, end)
    }

    /// The field `field_type` of the C-instruction `instruction_line`; the
    /// comp field is always there, dest only with a `=`, jump only with a `;`.
    pub fn get_c_instruction_field<'a>(
        &self,
        instruction_line: &'a str,
        field_type: CInstructionField,
    ) -> (r: Option<&'a str>)
        ensures
            r matches Some(s) ==> c_field(instruction_line@, field_type) == Some(s@),
            r is None ==> c_field(instruction_line@, field_type) is None,
    {
        let v = chars_of(instruction_line);
        let n = v.len();
        match field_type {
            CInstructionField::Dest => match find_char(v.as_slice(), '=') {
                Some(k) => Some(instruction_line.substring_char(0, k)),
                None => None,
            },
            CInstructionField::Comp => {
                let (from, to) = match find_char(v.as_slice(), '=') {
                    Some(k) => {
                        proof {
                            lemma_lead_len_bound(v@, other_than('='));
                        }
                        match find_char_in(v.as_slice(), k + 1, n, '=') {
                            Some(m) => (k + 1, m),
                            None => (k + 1, n),
                        }
                    },
                    None => (0, n),
                };
                let ghost c = match first_of(v@, '=') {
                    Some(k) => piece_until(v@.skip(k + 1), '='),
                    None => v@,
                };
                proof {
                    match first_of(v@, '=') {
                        Some(k) => {
                            assert(v@.skip(k + 1) == v@.subrange(k + 1, n as int));
                            assert(c == v@.subrange(from as int, to as int));
                        },
                        None => {
                            assert(v@ == v@.subrange(0, n as int));
                        },
                    }
                }
                let end = match find_char_in(v.as_slice(), from, to, ';') {
                    Some(m) => m,
                    None => to,
                };
                proof {
                    assert(piece_until(c, ';') == v@.subrange(from as int, end as int));
                }
                Some(instruction_line.substring_char(from, end))
            },
            CInstructionField::Jump => match find_char(v.as_slice(), ';') {
                Some(k) => {
                    proof {
                        lemma_lead_len_bound(v@, other_than(';'));
                    }
                    let end = match find_char_in(v.as_slice(), k + 1, n, ';') {
                        Some(m) => m,
                        None => n,
                    };
                    proof {
                        assert(v@.skip(k + 1) == v@.subrange(k + 1, n as int));
                        assert(piece_until(v@.skip(k + 1), ';') == v@.subrange(
                            k + 1,
                            end as int,
                        ));
                    }
                    Some(instruction_line.substring_char(k + 1, end))
                },
                None => None,
            },
        }
    }

    /// The machine code of the cleaned program `clean_instructions`, one
    /// line per instruction. The first pass gives each label the number of
    /// instructions before it; the second gives each A-instruction its
    /// number, the address of its symbol, or the next free address from 16
    /// on for a new variable, and each C-instruction `111` followed by the
    /// codes of its comp, dest and jump fields (`null` for an absent one).
    /// `symbol_table` ends with all labels and variables in it.
    pub fn parse_instructions(
        &self,
        clean_instructions: String,
        symbol_table: &mut Table<i16>,
        c_instruction_comp_table: &Table<String>,
        c_instruction_dest_table: &Table<String>,
        c_instruction_jump_table: &Table<String>,
    ) -> (r: String)
        requires
            old(symbol_table).wf(),
            c_instruction_comp_table.wf(),
            c_instruction_dest_table.wf(),
            c_instruction_jump_table.wf(),
            translatable(
                clean_instructions@,
                old(symbol_table)@,
                code_view(c_instruction_comp_table@),
                code_view(c_instruction_dest_table@),
                code_view(c_instruction_jump_table@),
            ),
        ensures
            final(symbol_table).wf(),
            r@ == translation(
                clean_instructions@,
                old(symbol_table)@,
                code_view(c_instruction_comp_table@),
                code_view(c_instruction_dest_table@),
                code_view(c_instruction_jump_table@),
            ),
            final(symbol_table)@ == final_symbols(
                clean_instructions@,
                old(symbol_table)@,
                code_view(c_instruction_comp_table@),
                code_view(c_instruction_dest_table@),
                code_view(c_instruction_jump_table@),
            ),
    {
        match self.translate(
            clean_instructions,
            symbol_table,
            c_instruction_comp_table,
            c_instruction_dest_table,
            c_instruction_jump_table,
        ) {
            Some(r) => r,
            None => String::new(),
        }
    }

    /// Whether the tables have codes for the fields of each C-instruction
    /// among `kept`.
    fn all_c_known(
        &self,
        kept: &Vec<Vec<char>>,
        comp: &Table<String>,
        dest: &Table<String>,
        jump: &Table<String>,
    ) -> (b: bool)
        requires
            comp.wf(),
            dest.wf(),
            jump.wf(),
        ensures
            b == forall|i: int|
                0 <= i < kept@.len() && instruction_kind(#[trigger] views(kept@)[i]) == InstructionType::C
                    ==> c_known(views(kept@)[i], code_view(comp@), code_view(dest@), code_view(jump@)),
    {
        let null = "null";
        proof {
            reveal_strlit("null");
        }
        let mut j: usize = 0;
        while j < kept.len()
            invariant
                j <= kept@.len(),
                comp.wf(),
                dest.wf(),
                jump.wf(),
                null@ == null_name(),
                forall|i: int|
                    0 <= i < j && instruction_kind(#[trigger] views(kept@)[i]) == InstructionType::C
                        ==> c_known(views(kept@)[i], code_view(comp@), code_view(dest@), code_view(jump@)),
            decreases kept.len() - j,
        {
            let line = &kept[j];
            assert(views(kept@)[j as int] == line@);
            match kind_of(line.as_slice()) {
                InstructionType::C => {
                    let text = string_of(line.as_slice());
                    let comp_name = match self.get_c_instruction_field(
                        text.as_str(),
                        CInstructionField::Comp,
                    ) {
                        Some(f) => f,
                        None => null,
                    };
                    let dest_name = match self.get_c_instruction_field(
                        text.as_str(),
                        CInstructionField::Dest,
                    ) {
                        Some(f) => f,
                        None => null,
                    };
                    let jump_name = match self.get_c_instruction_field(
                        text.as_str(),
                        CInstructionField::Jump,
                    ) {
                        Some(f) => f,
                        None => null,
                    };
                    if !(comp.contains_key(comp_name) && dest.contains_key(dest_name)
                        && jump.contains_key(jump_name)) {
                        return false;
                    }
                },
                _ => {},
            }
            j = j + 1;
        }
        true
    }

    /// The translation of `clean_instructions`, or `None` where
    /// `parse_instructions` cannot translate it.
    pub(crate) fn translate(
        &self,
        clean_instructions: String,
        symbol_table: &mut Table<i16>,
        c_instruction_comp_table: &Table<String>,
        c_instruction_dest_table: &Table<String>,
        c_instruction_jump_table: &Table<String>,
    ) -> (r: Option<String>)
        requires
            old(symbol_table).wf(),
            c_instruction_comp_table.wf(),
            c_instruction_dest_table.wf(),
            c_instruction_jump_table.wf(),
        ensures
            final(symbol_table).wf(),
            r is Some <==> translatable(
                clean_instructions@,
                old(symbol_table)@,
                code_view(c_instruction_comp_table@),
                code_view(c_instruction_dest_table@),
                code_view(c_instruction_jump_table@),
            ),
            r matches Some(r) ==> r@ == translation(
                clean_instructions@,
                old(symbol_table)@,
                code_view(c_instruction_comp_table@),
                code_view(c_instruction_dest_table@),
                code_view(c_instruction_jump_table@),
            ),
            r is Some ==> final(symbol_table)@ == final_symbols(
                clean_instructions@,
                old(symbol_table)@,
                code_view(c_instruction_comp_table@),
                code_view(c_instruction_dest_table@),
                code_view(c_instruction_jump_table@),
            ),
    {
        let src = chars_of(clean_instructions.as_str());
        let ls = split_lines(src.as_slice());
        let ghost t0 = symbol_table@;
        let kept = match run_first_pass(&ls, symbol_table) {
            Some(k) => k,
            None => {
                return None;
            },
        };
        proof {
            lemma_first_pass_kept_no_labels(views(ls@), t0);
        }
        if !self.all_c_known(
            &kept,
            c_instruction_comp_table,
            c_instruction_dest_table,
            c_instruction_jump_table,
        ) {
            return None;
        }
        match self.run_second_pass(
            &kept,
            symbol_table,
            c_instruction_comp_table,
            c_instruction_dest_table,
            c_instruction_jump_table,
        ) {
            Some(out) => Some(string_of(out.as_slice())),
            None => None,
        }
    }

    /// The second pass over the instructions `kept`, or `None` when a new
    /// variable would get an address beyond `i16`.
    fn run_second_pass(
        &self,
        kept: &Vec<Vec<char>>,
        symbol_table: &mut Table<i16>,
        c_instruction_comp_table: &Table<String>,
        c_instruction_dest_table: &Table<String>,
        c_instruction_jump_table: &Table<String>,
    ) -> (r: Option<Vec<char>>)
        requires
            old(symbol_table).wf(),
            c_instruction_comp_table.wf(),
            c_instruction_dest_table.wf(),
            c_instruction_jump_table.wf(),
            forall|i: int|
                0 <= i < kept@.len() && instruction_kind(#[trigger] views(kept@)[i]) == InstructionType::C
                    ==> c_known(
                    views(kept@)[i],
                    code_view(c_instruction_comp_table@),
                    code_view(c_instruction_dest_table@),
                    code_view(c_instruction_jump_table@),
                ),
            forall|i: int|
                0 <= i < kept@.len() ==> instruction_kind(#[trigger] views(kept@)[i])
                    != InstructionType::L,
        ensures
            final(symbol_table).wf(),
            r is Some <==> second_pass(
                views(kept@),
                old(symbol_table)@,
                16,
                code_view(c_instruction_comp_table@),
                code_view(c_instruction_dest_table@),
                code_view(c_instruction_jump_table@),
            ).1 <= 32767,
            r matches Some(out) ==> out@ == join(
                second_pass(
                    views(kept@),
                    old(symbol_table)@,
                    16,
                    code_view(c_instruction_comp_table@),
                    code_view(c_instruction_dest_table@),
                    code_view(c_instruction_jump_table@),
                ).2,
            ),
            r is Some ==> final(symbol_table)@ == second_pass(
                views(kept@),
                old(symbol_table)@,
                16,
                code_view(c_instruction_comp_table@),
                code_view(c_instruction_dest_table@),
                code_view(c_instruction_jump_table@),
            ).0,
    {
        let ghost comp = code_view(c_instruction_comp_table@);
        let ghost dest = code_view(c_instruction_dest_table@);
        let ghost jump = code_view(c_instruction_jump_table@);
        let ghost kv = views(kept@);
        let ghost t1 = symbol_table@;
        let mut out: Vec<char> = Vec::new();
        let mut next: i16 = 16;
        let at = ['@'];
        assert(at@ == seq!['@']);
        let null = "null";
        proof {
            reveal_strlit("null");
        }
        assert(null@ == null_name());
        let ones = ['1', '1', '1'];
        assert(ones@ == seq!['1', '1', '1']);
        assert(kv.take(0) =~= Seq::<Seq<char>>::empty());
        let mut j: usize = 0;
        while j < kept.len()
            invariant
                j <= kept@.len(),
                kv == views(kept@),
                t1 == old(symbol_table)@,
                symbol_table.wf(),
                c_instruction_comp_table.wf(),
                c_instruction_dest_table.wf(),
                c_instruction_jump_table.wf(),
                comp == code_view(c_instruction_comp_table@),
                dest == code_view(c_instruction_dest_table@),
                jump == code_view(c_instruction_jump_table@),
                forall|i: int|
                    0 <= i < kv.len() && instruction_kind(#[trigger] kv[i]) == InstructionType::C
                        ==> c_known(kv[i], comp, dest, jump),
                forall|i: int| 0 <= i < kv.len() ==> instruction_kind(#[trigger] kv[i]) != InstructionType::L,
                second_pass(kv.take(j as int), t1, 16, comp, dest, jump).0 == symbol_table@,
                second_pass(kv.take(j as int), t1, 16, comp, dest, jump).1 == next as int,
                second_pass(kv.take(j as int), t1, 16, comp, dest, jump).2.len() == j,
                out@ == join(second_pass(kv.take(j as int), t1, 16, comp, dest, jump).2),
                at@ == seq!['@'],
                null@ == null_name(),
                ones@ == seq!['1', '1', '1'],
            decreases kept.len() - j,
        {
            let ghost pieces = second_pass(kv.take(j as int), t1, 16, comp, dest, jump).2;
            proof {
                assert(kv.take(j + 1).drop_last() == kv.take(j as int));
                assert(kv.take(j + 1).last() == kept@[j as int]@);
                lemma_second_pass_next_grows(kv, t1, 16, comp, dest, jump, j + 1);
            }
            let line = &kept[j];
            let piece: Vec<char> = match kind_of(line.as_slice()) {
                InstructionType::A => {
                    let operand = trim_set_chars(line.as_slice(), &at);
                    match parse_i16_chars(operand.as_slice()) {
                        Some(v) => binary16(v),
                        None => {
                            let key = string_of(operand.as_slice());
                            match symbol_table.get(key.as_str()) {
                                Some(addr) => binary16(*addr),
                                None => {
                                    if next == 32767 {
                                        assert(second_pass(kv.take(j + 1), t1, 16, comp, dest, jump).1
                                            == 32768);
                                        return None;
                                    }
                                    let address = next;
                                    symbol_table.insert(key, address);
                                    next = next + 1;
                                    binary16(address)
                                },
                            }
                        },
                    }
                },
                _ => {
                    proof {
                        assert(kv[j as int] == line@);
                        assert(c_known(line@, comp, dest, jump));
                    }
                    self.c_instruction_code(
                        line,
                        c_instruction_comp_table,
                        c_instruction_dest_table,
                        c_instruction_jump_table,
                    )
                },
            };
            join_push(&mut out, j, piece.as_slice(), Ghost(pieces));
            j = j + 1;
        }
        assert(kv.take(kept.len() as int) == kv);
        Some(out)
    }

    /// The machine code of the C-instruction `line`.
    fn c_instruction_code(
        &self,
        line: &Vec<char>,
        comp: &Table<String>,
        dest: &Table<String>,
        jump: &Table<String>,
    ) -> (code: Vec<char>)
        requires
            comp.wf(),
            dest.wf(),
            jump.wf(),
            c_known(line@, code_view(comp@), code_view(dest@), code_view(jump@)),
        ensures
            code@ == c_code(line@, code_view(comp@), code_view(dest@), code_view(jump@)),
    {
        let null = "null";
        proof {
            reveal_strlit("null");
        }
        let ones = ['1', '1', '1'];
        assert(ones@ == seq!['1', '1', '1']);
        let text = string_of(line.as_slice());
        let comp_name = match self.get_c_instruction_field(text.as_str(), CInstructionField::Comp) {
            Some(f) => f,
            None => null,
        };
        let dest_name = match self.get_c_instruction_field(text.as_str(), CInstructionField::Dest) {
            Some(f) => f,
            None => null,
        };
        let jump_name = match self.get_c_instruction_field(text.as_str(), CInstructionField::Jump) {
            Some(f) => f,
            None => null,
        };
        assert(comp_name@ == comp_field(line@));
        assert(dest_name@ == dest_key(line@));
        assert(jump_name@ == jump_key(line@));
        let mut code: Vec<char> = Vec::new();
        append_chars(&mut code, &ones);
        if let Some(c) = comp.get(comp_name) {
            let cc = chars_of(c.as_str());
            append_chars(&mut code, cc.as_slice());
        }
        assert(code@ == seq!['1', '1', '1'] + code_view(comp@)[comp_field(line@)]);
        if let Some(c) = dest.get(dest_name) {
            let dc = chars_of(c.as_str());
            append_chars(&mut code, dc.as_slice());
        }
        assert(code@ == seq!['1', '1', '1'] + code_view(comp@)[comp_field(line@)] + code_view(dest@)[dest_key(line@)]);
        if let Some(c) = jump.get(jump_name) {
            let jc = chars_of(c.as_str());
            append_chars(&mut code, jc.as_slice());
        }
        code
    }
}

} // verus!
