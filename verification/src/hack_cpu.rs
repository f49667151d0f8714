use vstd::prelude::*;

use crate::hack_tables::{comp_code_map, dest_code_map, jump_code_map, predefined_symbol_map};
use crate::numbers::decimal_digits;

verus! {

/// The Hack ALU on 16-bit words: `zx` and `zy` zero an input, `nx` and `ny`
/// negate it bitwise, `f` picks the sum (else the bitwise and), `no`
/// negates the output bitwise.
pub open spec fn alu(zx: bool, nx: bool, zy: bool, ny: bool, f: bool, no: bool, x: u16, y: u16) -> u16 {
    let x1: u16 = if zx {
        0u16
    } else {
        x
    };
    let x2: u16 = if nx {
        !x1
    } else {
        x1
    };
    let y1: u16 = if zy {
        0u16
    } else {
        y
    };
    let y2: u16 = if ny {
        !y1
    } else {
        y1
    };
    let o: u16 = if f {
        (x2 + y2) as u16
    } else {
        x2 & y2
    };
    if no {
        !o
    } else {
        o
    }
}

/// The word that the comp code `code` (the a-bit, then the six c-bits)
/// makes of the registers `d` and `a` and the memory word `m`: the ALU
/// takes `d` and, by the a-bit, `m` or `a`.
pub open spec fn comp_value(code: Seq<char>, d: u16, a: u16, m: u16) -> u16 {
    alu(
        code[1] == '1',
        code[2] == '1',
        code[3] == '1',
        code[4] == '1',
        code[5] == '1',
        code[6] == '1',
        d,
        if code[0] == '1' {
            m
        } else {
            a
        },
    )
}

/// The eighteen settings of the c-bits that Hack names, and what the ALU
/// makes of `x` and `y` under each.
proof fn lemma_alu_settings(x: u16, y: u16)
    by (bit_vector)
    ensures
        alu(true, false, true, false, true, false, x, y) == 0u16,
        alu(true, true, true, true, true, true, x, y) == 1u16,
        alu(true, true, true, false, true, false, x, y) == (0 - 1) as u16,
        alu(false, false, true, true, false, false, x, y) == x,
        alu(true, true, false, false, false, false, x, y) == y,
        alu(false, false, true, true, false, true, x, y) == !x,
        alu(true, true, false, false, false, true, x, y) == !y,
        alu(false, false, true, true, true, true, x, y) == (0 - x) as u16,
        alu(true, true, false, false, true, true, x, y) == (0 - y) as u16,
        alu(false, true, true, true, true, true, x, y) == (x + 1) as u16,
        alu(true, true, false, true, true, true, x, y) == (y + 1) as u16,
        alu(false, false, true, true, true, false, x, y) == (x - 1) as u16,
        alu(true, true, false, false, true, false, x, y) == (y - 1) as u16,
        alu(false, false, false, false, true, false, x, y) == (x + y) as u16,
        alu(false, true, false, false, true, true, x, y) == (x - y) as u16,
        alu(false, false, false, true, true, true, x, y) == (y - x) as u16,
        alu(false, false, false, false, false, false, x, y) == x & y,
        alu(false, true, false, true, false, true, x, y) == x | y,
{
}

/// Where each comp mnemonic stands in the table.
proof fn lemma_comp_lookups()
    ensures
        comp_code_map().contains_key("0"@) && comp_code_map()["0"@] == "0101010"@,
        comp_code_map().contains_key("1"@) && comp_code_map()["1"@] == "0111111"@,
        comp_code_map().contains_key("-1"@) && comp_code_map()["-1"@] == "0111010"@,
        comp_code_map().contains_key("D"@) && comp_code_map()["D"@] == "0001100"@,
        comp_code_map().contains_key("A"@) && comp_code_map()["A"@] == "0110000"@,
        comp_code_map().contains_key("M"@) && comp_code_map()["M"@] == "1110000"@,
        comp_code_map().contains_key("!D"@) && comp_code_map()["!D"@] == "0001101"@,
        comp_code_map().contains_key("!A"@) && comp_code_map()["!A"@] == "0110001"@,
        comp_code_map().contains_key("!M"@) && comp_code_map()["!M"@] == "1110001"@,
        comp_code_map().contains_key("-D"@) && comp_code_map()["-D"@] == "0001111"@,
        comp_code_map().contains_key("-A"@) && comp_code_map()["-A"@] == "0110011"@,
        comp_code_map().contains_key("-M"@) && comp_code_map()["-M"@] == "1110011"@,
        comp_code_map().contains_key("D+1"@) && comp_code_map()["D+1"@] == "0011111"@,
        comp_code_map().contains_key("1+D"@) && comp_code_map()["1+D"@] == "0011111"@,
        comp_code_map().contains_key("A+1"@) && comp_code_map()["A+1"@] == "0110111"@,
        comp_code_map().contains_key("1+A"@) && comp_code_map()["1+A"@] == "0110111"@,
        comp_code_map().contains_key("M+1"@) && comp_code_map()["M+1"@] == "1110111"@,
        comp_code_map().contains_key("1+M"@) && comp_code_map()["1+M"@] == "1110111"@,
        comp_code_map().contains_key("D-1"@) && comp_code_map()["D-1"@] == "0001110"@,
        comp_code_map().contains_key("A-1"@) && comp_code_map()["A-1"@] == "0110010"@,
        comp_code_map().contains_key("M-1"@) && comp_code_map()["M-1"@] == "1110010"@,
        comp_code_map().contains_key("D+A"@) && comp_code_map()["D+A"@] == "0000010"@,
        comp_code_map().contains_key("A+D"@) && comp_code_map()["A+D"@] == "0000010"@,
        comp_code_map().contains_key("D+M"@) && comp_code_map()["D+M"@] == "1000010"@,
        comp_code_map().contains_key("M+D"@) && comp_code_map()["M+D"@] == "1000010"@,
        comp_code_map().contains_key("D-A"@) && comp_code_map()["D-A"@] == "0010011"@,
        comp_code_map().contains_key("D-M"@) && comp_code_map()["D-M"@] == "1010011"@,
        comp_code_map().contains_key("A-D"@) && comp_code_map()["A-D"@] == "0000111"@,
        comp_code_map().contains_key("M-D"@) && comp_code_map()["M-D"@] == "1000111"@,
        comp_code_map().contains_key("D&A"@) && comp_code_map()["D&A"@] == "0000000"@,
        comp_code_map().contains_key("A&D"@) && comp_code_map()["A&D"@] == "0000000"@,
        comp_code_map().contains_key("D&M"@) && comp_code_map()["D&M"@] == "1000000"@,
        comp_code_map().contains_key("M&D"@) && comp_code_map()["M&D"@] == "1000000"@,
        comp_code_map().contains_key("D|A"@) && comp_code_map()["D|A"@] == "0010101"@,
        comp_code_map().contains_key("A|D"@) && comp_code_map()["A|D"@] == "0010101"@,
        comp_code_map().contains_key("D|M"@) && comp_code_map()["D|M"@] == "1010101"@,
        comp_code_map().contains_key("M|D"@) && comp_code_map()["M|D"@] == "1010101"@,
{
    reveal_strlit("0");
    reveal_strlit("1");
    reveal_strlit("-1");
    reveal_strlit("D");
    reveal_strlit("A");
    reveal_strlit("M");
    reveal_strlit("!D");
    reveal_strlit("!A");
    reveal_strlit("!M");
    reveal_strlit("-D");
    reveal_strlit("-A");
    reveal_strlit("-M");
    reveal_strlit("D+1");
    reveal_strlit("1+D");
    reveal_strlit("A+1");
    reveal_strlit("1+A");
    reveal_strlit("M+1");
    reveal_strlit("1+M");
    reveal_strlit("D-1");
    reveal_strlit("A-1");
    reveal_strlit("M-1");
    reveal_strlit("D+A");
    reveal_strlit("A+D");
    reveal_strlit("D+M");
    reveal_strlit("M+D");
    reveal_strlit("D-A");
    reveal_strlit("D-M");
    reveal_strlit("A-D");
    reveal_strlit("M-D");
    reveal_strlit("D&A");
    reveal_strlit("A&D");
    reveal_strlit("D&M");
    reveal_strlit("M&D");
    reveal_strlit("D|A");
    reveal_strlit("A|D");
    reveal_strlit("D|M");
    reveal_strlit("M|D");
    assert("0"@.len() == 1 && "0"@[0] == '0');
    assert("1"@.len() == 1 && "1"@[0] == '1');
    assert("-1"@.len() == 2 && "-1"@[0] == '-' && "-1"@[1] == '1');
    assert("D"@.len() == 1 && "D"@[0] == 'D');
    assert("A"@.len() == 1 && "A"@[0] == 'A');
    assert("M"@.len() == 1 && "M"@[0] == 'M');
    assert("!D"@.len() == 2 && "!D"@[0] == '!' && "!D"@[1] == 'D');
    assert("!A"@.len() == 2 && "!A"@[0] == '!' && "!A"@[1] == 'A');
    assert("!M"@.len() == 2 && "!M"@[0] == '!' && "!M"@[1] == 'M');
    assert("-D"@.len() == 2 && "-D"@[0] == '-' && "-D"@[1] == 'D');
    assert("-A"@.len() == 2 && "-A"@[0] == '-' && "-A"@[1] == 'A');
    assert("-M"@.len() == 2 && "-M"@[0] == '-' && "-M"@[1] == 'M');
    assert("D+1"@.len() == 3 && "D+1"@[0] == 'D' && "D+1"@[1] == '+' && "D+1"@[2] == '1');
    assert("1+D"@.len() == 3 && "1+D"@[0] == '1' && "1+D"@[1] == '+' && "1+D"@[2] == 'D');
    assert("A+1"@.len() == 3 && "A+1"@[0] == 'A' && "A+1"@[1] == '+' && "A+1"@[2] == '1');
    assert("1+A"@.len() == 3 && "1+A"@[0] == '1' && "1+A"@[1] == '+' && "1+A"@[2] == 'A');
    assert("M+1"@.len() == 3 && "M+1"@[0] == 'M' && "M+1"@[1] == '+' && "M+1"@[2] == '1');
    assert("1+M"@.len() == 3 && "1+M"@[0] == '1' && "1+M"@[1] == '+' && "1+M"@[2] == 'M');
    assert("D-1"@.len() == 3 && "D-1"@[0] == 'D' && "D-1"@[1] == '-' && "D-1"@[2] == '1');
    assert("A-1"@.len() == 3 && "A-1"@[0] == 'A' && "A-1"@[1] == '-' && "A-1"@[2] == '1');
    assert("M-1"@.len() == 3 && "M-1"@[0] == 'M' && "M-1"@[1] == '-' && "M-1"@[2] == '1');
    assert("D+A"@.len() == 3 && "D+A"@[0] == 'D' && "D+A"@[1] == '+' && "D+A"@[2] == 'A');
    assert("A+D"@.len() == 3 && "A+D"@[0] == 'A' && "A+D"@[1] == '+' && "A+D"@[2] == 'D');
    assert("D+M"@.len() == 3 && "D+M"@[0] == 'D' && "D+M"@[1] == '+' && "D+M"@[2] == 'M');
    assert("M+D"@.len() == 3 && "M+D"@[0] == 'M' && "M+D"@[1] == '+' && "M+D"@[2] == 'D');
    assert("D-A"@.len() == 3 && "D-A"@[0] == 'D' && "D-A"@[1] == '-' && "D-A"@[2] == 'A');
    assert("D-M"@.len() == 3 && "D-M"@[0] == 'D' && "D-M"@[1] == '-' && "D-M"@[2] == 'M');
    assert("A-D"@.len() == 3 && "A-D"@[0] == 'A' && "A-D"@[1] == '-' && "A-D"@[2] == 'D');
    assert("M-D"@.len() == 3 && "M-D"@[0] == 'M' && "M-D"@[1] == '-' && "M-D"@[2] == 'D');
    assert("D&A"@.len() == 3 && "D&A"@[0] == 'D' && "D&A"@[1] == '&' && "D&A"@[2] == 'A');
    assert("A&D"@.len() == 3 && "A&D"@[0] == 'A' && "A&D"@[1] == '&' && "A&D"@[2] == 'D');
    assert("D&M"@.len() == 3 && "D&M"@[0] == 'D' && "D&M"@[1] == '&' && "D&M"@[2] == 'M');
    assert("M&D"@.len() == 3 && "M&D"@[0] == 'M' && "M&D"@[1] == '&' && "M&D"@[2] == 'D');
    assert("D|A"@.len() == 3 && "D|A"@[0] == 'D' && "D|A"@[1] == '|' && "D|A"@[2] == 'A');
    assert("A|D"@.len() == 3 && "A|D"@[0] == 'A' && "A|D"@[1] == '|' && "A|D"@[2] == 'D');
    assert("D|M"@.len() == 3 && "D|M"@[0] == 'D' && "D|M"@[1] == '|' && "D|M"@[2] == 'M');
    assert("M|D"@.len() == 3 && "M|D"@[0] == 'M' && "M|D"@[1] == '|' && "M|D"@[2] == 'D');
}

/// Each comp mnemonic of Hack computes what its name says, on the
/// registers `d` and `a` and the memory word `m`, with 16-bit wrapping
/// arithmetic: `D-M` is `d - m`, `M-D` is `m - d`, `D&A` is `d & a`, and
/// so on for all twenty-eight of them; a mnemonic that names `M` reads the
/// memory word, one that names `A` the register.
pub proof fn lemma_comp_meanings(d: u16, a: u16, m: u16)
    ensures
        comp_code_map().contains_key("0"@) && comp_value(comp_code_map()["0"@], d, a, m) == 0u16,
        comp_code_map().contains_key("1"@) && comp_value(comp_code_map()["1"@], d, a, m) == 1u16,
        comp_code_map().contains_key("-1"@) && comp_value(comp_code_map()["-1"@], d, a, m) == (0 - 1) as u16,
        comp_code_map().contains_key("D"@) && comp_value(comp_code_map()["D"@], d, a, m) == d,
        comp_code_map().contains_key("A"@) && comp_value(comp_code_map()["A"@], d, a, m) == a,
        comp_code_map().contains_key("M"@) && comp_value(comp_code_map()["M"@], d, a, m) == m,
        comp_code_map().contains_key("!D"@) && comp_value(comp_code_map()["!D"@], d, a, m) == !d,
        comp_code_map().contains_key("!A"@) && comp_value(comp_code_map()["!A"@], d, a, m) == !a,
        comp_code_map().contains_key("!M"@) && comp_value(comp_code_map()["!M"@], d, a, m) == !m,
        comp_code_map().contains_key("-D"@) && comp_value(comp_code_map()["-D"@], d, a, m) == (0 - d) as u16,
        comp_code_map().contains_key("-A"@) && comp_value(comp_code_map()["-A"@], d, a, m) == (0 - a) as u16,
        comp_code_map().contains_key("-M"@) && comp_value(comp_code_map()["-M"@], d, a, m) == (0 - m) as u16,
        comp_code_map().contains_key("D+1"@) && comp_value(comp_code_map()["D+1"@], d, a, m) == (d + 1) as u16,
        comp_code_map().contains_key("1+D"@) && comp_value(comp_code_map()["1+D"@], d, a, m) == (d + 1) as u16,
        comp_code_map().contains_key("A+1"@) && comp_value(comp_code_map()["A+1"@], d, a, m) == (a + 1) as u16,
        comp_code_map().contains_key("1+A"@) && comp_value(comp_code_map()["1+A"@], d, a, m) == (a + 1) as u16,
        comp_code_map().contains_key("M+1"@) && comp_value(comp_code_map()["M+1"@], d, a, m) == (m + 1) as u16,
        comp_code_map().contains_key("1+M"@) && comp_value(comp_code_map()["1+M"@], d, a, m) == (m + 1) as u16,
        comp_code_map().contains_key("D-1"@) && comp_value(comp_code_map()["D-1"@], d, a, m) == (d - 1) as u16,
        comp_code_map().contains_key("A-1"@) && comp_value(comp_code_map()["A-1"@], d, a, m) == (a - 1) as u16,
        comp_code_map().contains_key("M-1"@) && comp_value(comp_code_map()["M-1"@], d, a, m) == (m - 1) as u16,
        comp_code_map().contains_key("D+A"@) && comp_value(comp_code_map()["D+A"@], d, a, m) == (d + a) as u16,
        comp_code_map().contains_key("A+D"@) && comp_value(comp_code_map()["A+D"@], d, a, m) == (d + a) as u16,
        comp_code_map().contains_key("D+M"@) && comp_value(comp_code_map()["D+M"@], d, a, m) == (d + m) as u16,
        comp_code_map().contains_key("M+D"@) && comp_value(comp_code_map()["M+D"@], d, a, m) == (d + m) as u16,
        comp_code_map().contains_key("D-A"@) && comp_value(comp_code_map()["D-A"@], d, a, m) == (d - a) as u16,
        comp_code_map().contains_key("D-M"@) && comp_value(comp_code_map()["D-M"@], d, a, m) == (d - m) as u16,
        comp_code_map().contains_key("A-D"@) && comp_value(comp_code_map()["A-D"@], d, a, m) == (a - d) as u16,
        comp_code_map().contains_key("M-D"@) && comp_value(comp_code_map()["M-D"@], d, a, m) == (m - d) as u16,
        comp_code_map().contains_key("D&A"@) && comp_value(comp_code_map()["D&A"@], d, a, m) == d & a,
        comp_code_map().contains_key("A&D"@) && comp_value(comp_code_map()["A&D"@], d, a, m) == d & a,
        comp_code_map().contains_key("D&M"@) && comp_value(comp_code_map()["D&M"@], d, a, m) == d & m,
        comp_code_map().contains_key("M&D"@) && comp_value(comp_code_map()["M&D"@], d, a, m) == d & m,
        comp_code_map().contains_key("D|A"@) && comp_value(comp_code_map()["D|A"@], d, a, m) == d | a,
        comp_code_map().contains_key("A|D"@) && comp_value(comp_code_map()["A|D"@], d, a, m) == d | a,
        comp_code_map().contains_key("D|M"@) && comp_value(comp_code_map()["D|M"@], d, a, m) == d | m,
        comp_code_map().contains_key("M|D"@) && comp_value(comp_code_map()["M|D"@], d, a, m) == d | m,
{
    lemma_comp_lookups();
    reveal_strlit("0");
    reveal_strlit("1");
    reveal_strlit("0000000");
    reveal_strlit("0000010");
    reveal_strlit("0000111");
    reveal_strlit("0001100");
    reveal_strlit("0001101");
    reveal_strlit("0001110");
    reveal_strlit("0001111");
    reveal_strlit("0010011");
    reveal_strlit("0010101");
    reveal_strlit("0011111");
    reveal_strlit("0101010");
    reveal_strlit("0110000");
    reveal_strlit("0110001");
    reveal_strlit("0110010");
    reveal_strlit("0110011");
    reveal_strlit("0110111");
    reveal_strlit("0111010");
    reveal_strlit("0111111");
    reveal_strlit("1000000");
    reveal_strlit("1000010");
    reveal_strlit("1000111");
    reveal_strlit("1010011");
    reveal_strlit("1010101");
    reveal_strlit("1110000");
    reveal_strlit("1110001");
    reveal_strlit("1110010");
    reveal_strlit("1110011");
    reveal_strlit("1110111");
    assert("0"@[0] == '0');
    assert("1"@[0] == '1');
    assert("0000000"@[0] == '0' && "0000000"@[1] == '0' && "0000000"@[2] == '0' && "0000000"@[3] == '0' && "0000000"@[4] == '0' && "0000000"@[5] == '0' && "0000000"@[6] == '0');
    assert("0000010"@[0] == '0' && "0000010"@[1] == '0' && "0000010"@[2] == '0' && "0000010"@[3] == '0' && "0000010"@[4] == '0' && "0000010"@[5] == '1' && "0000010"@[6] == '0');
    assert("0000111"@[0] == '0' && "0000111"@[1] == '0' && "0000111"@[2] == '0' && "0000111"@[3] == '0' && "0000111"@[4] == '1' && "0000111"@[5] == '1' && "0000111"@[6] == '1');
    assert("0001100"@[0] == '0' && "0001100"@[1] == '0' && "0001100"@[2] == '0' && "0001100"@[3] == '1' && "0001100"@[4] == '1' && "0001100"@[5] == '0' && "0001100"@[6] == '0');
    assert("0001101"@[0] == '0' && "0001101"@[1] == '0' && "0001101"@[2] == '0' && "0001101"@[3] == '1' && "0001101"@[4] == '1' && "0001101"@[5] == '0' && "0001101"@[6] == '1');
    assert("0001110"@[0] == '0' && "0001110"@[1] == '0' && "0001110"@[2] == '0' && "0001110"@[3] == '1' && "0001110"@[4] == '1' && "0001110"@[5] == '1' && "0001110"@[6] == '0');
    assert("0001111"@[0] == '0' && "0001111"@[1] == '0' && "0001111"@[2] == '0' && "0001111"@[3] == '1' && "0001111"@[4] == '1' && "0001111"@[5] == '1' && "0001111"@[6] == '1');
    assert("0010011"@[0] == '0' && "0010011"@[1] == '0' && "0010011"@[2] == '1' && "0010011"@[3] == '0' && "0010011"@[4] == '0' && "0010011"@[5] == '1' && "0010011"@[6] == '1');
    assert("0010101"@[0] == '0' && "0010101"@[1] == '0' && "0010101"@[2] == '1' && "0010101"@[3] == '0' && "0010101"@[4] == '1' && "0010101"@[5] == '0' && "0010101"@[6] == '1');
    assert("0011111"@[0] == '0' && "0011111"@[1] == '0' && "0011111"@[2] == '1' && "0011111"@[3] == '1' && "0011111"@[4] == '1' && "0011111"@[5] == '1' && "0011111"@[6] == '1');
    assert("0101010"@[0] == '0' && "0101010"@[1] == '1' && "0101010"@[2] == '0' && "0101010"@[3] == '1' && "0101010"@[4] == '0' && "0101010"@[5] == '1' && "0101010"@[6] == '0');
    assert("0110000"@[0] == '0' && "0110000"@[1] == '1' && "0110000"@[2] == '1' && "0110000"@[3] == '0' && "0110000"@[4] == '0' && "0110000"@[5] == '0' && "0110000"@[6] == '0');
    assert("0110001"@[0] == '0' && "0110001"@[1] == '1' && "0110001"@[2] == '1' && "0110001"@[3] == '0' && "0110001"@[4] == '0' && "0110001"@[5] == '0' && "0110001"@[6] == '1');
    assert("0110010"@[0] == '0' && "0110010"@[1] == '1' && "0110010"@[2] == '1' && "0110010"@[3] == '0' && "0110010"@[4] == '0' && "0110010"@[5] == '1' && "0110010"@[6] == '0');
    assert("0110011"@[0] == '0' && "0110011"@[1] == '1' && "0110011"@[2] == '1' && "0110011"@[3] == '0' && "0110011"@[4] == '0' && "0110011"@[5] == '1' && "0110011"@[6] == '1');
    assert("0110111"@[0] == '0' && "0110111"@[1] == '1' && "0110111"@[2] == '1' && "0110111"@[3] == '0' && "0110111"@[4] == '1' && "0110111"@[5] == '1' && "0110111"@[6] == '1');
    assert("0111010"@[0] == '0' && "0111010"@[1] == '1' && "0111010"@[2] == '1' && "0111010"@[3] == '1' && "0111010"@[4] == '0' && "0111010"@[5] == '1' && "0111010"@[6] == '0');
    assert("0111111"@[0] == '0' && "0111111"@[1] == '1' && "0111111"@[2] == '1' && "0111111"@[3] == '1' && "0111111"@[4] == '1' && "0111111"@[5] == '1' && "0111111"@[6] == '1');
    assert("1000000"@[0] == '1' && "1000000"@[1] == '0' && "1000000"@[2] == '0' && "1000000"@[3] == '0' && "1000000"@[4] == '0' && "1000000"@[5] == '0' && "1000000"@[6] == '0');
    assert("1000010"@[0] == '1' && "1000010"@[1] == '0' && "1000010"@[2] == '0' && "1000010"@[3] == '0' && "1000010"@[4] == '0' && "1000010"@[5] == '1' && "1000010"@[6] == '0');
    assert("1000111"@[0] == '1' && "1000111"@[1] == '0' && "1000111"@[2] == '0' && "1000111"@[3] == '0' && "1000111"@[4] == '1' && "1000111"@[5] == '1' && "1000111"@[6] == '1');
    assert("1010011"@[0] == '1' && "1010011"@[1] == '0' && "1010011"@[2] == '1' && "1010011"@[3] == '0' && "1010011"@[4] == '0' && "1010011"@[5] == '1' && "1010011"@[6] == '1');
    assert("1010101"@[0] == '1' && "1010101"@[1] == '0' && "1010101"@[2] == '1' && "1010101"@[3] == '0' && "1010101"@[4] == '1' && "1010101"@[5] == '0' && "1010101"@[6] == '1');
    assert("1110000"@[0] == '1' && "1110000"@[1] == '1' && "1110000"@[2] == '1' && "1110000"@[3] == '0' && "1110000"@[4] == '0' && "1110000"@[5] == '0' && "1110000"@[6] == '0');
    assert("1110001"@[0] == '1' && "1110001"@[1] == '1' && "1110001"@[2] == '1' && "1110001"@[3] == '0' && "1110001"@[4] == '0' && "1110001"@[5] == '0' && "1110001"@[6] == '1');
    assert("1110010"@[0] == '1' && "1110010"@[1] == '1' && "1110010"@[2] == '1' && "1110010"@[3] == '0' && "1110010"@[4] == '0' && "1110010"@[5] == '1' && "1110010"@[6] == '0');
    assert("1110011"@[0] == '1' && "1110011"@[1] == '1' && "1110011"@[2] == '1' && "1110011"@[3] == '0' && "1110011"@[4] == '0' && "1110011"@[5] == '1' && "1110011"@[6] == '1');
    assert("1110111"@[0] == '1' && "1110111"@[1] == '1' && "1110111"@[2] == '1' && "1110111"@[3] == '0' && "1110111"@[4] == '1' && "1110111"@[5] == '1' && "1110111"@[6] == '1');
    lemma_alu_settings(d, a);
    lemma_alu_settings(d, m);
}

/// The registers that the dest code `code` stores the result in: `A`, `D`
/// and the memory word `M`, by its three bits.
pub open spec fn stores(code: Seq<char>) -> (bool, bool, bool) {
    (code[0] == '1', code[1] == '1', code[2] == '1')
}

/// Whether the jump code `code` jumps on the result `v`: its bits stand
/// for a negative, a zero and a positive result.
pub open spec fn jump_taken(code: Seq<char>, v: i16) -> bool {
    (code[0] == '1' && v < 0) || (code[1] == '1' && v == 0) || (code[2] == '1' && v > 0)
}

/// Each dest mnemonic stores the result in the registers whose letters it
/// holds, in any order; `null` stores it nowhere.
pub proof fn lemma_dest_meanings()
    ensures
        dest_code_map().contains_key("null"@) && stores(dest_code_map()["null"@]) == (false, false, false),
        dest_code_map().contains_key("M"@) && stores(dest_code_map()["M"@]) == ("M"@.contains('A'), "M"@.contains('D'), "M"@.contains('M')),
        dest_code_map().contains_key("D"@) && stores(dest_code_map()["D"@]) == ("D"@.contains('A'), "D"@.contains('D'), "D"@.contains('M')),
        dest_code_map().contains_key("DM"@) && stores(dest_code_map()["DM"@]) == ("DM"@.contains('A'), "DM"@.contains('D'), "DM"@.contains('M')),
        dest_code_map().contains_key("MD"@) && stores(dest_code_map()["MD"@]) == ("MD"@.contains('A'), "MD"@.contains('D'), "MD"@.contains('M')),
        dest_code_map().contains_key("A"@) && stores(dest_code_map()["A"@]) == ("A"@.contains('A'), "A"@.contains('D'), "A"@.contains('M')),
        dest_code_map().contains_key("AM"@) && stores(dest_code_map()["AM"@]) == ("AM"@.contains('A'), "AM"@.contains('D'), "AM"@.contains('M')),
        dest_code_map().contains_key("MA"@) && stores(dest_code_map()["MA"@]) == ("MA"@.contains('A'), "MA"@.contains('D'), "MA"@.contains('M')),
        dest_code_map().contains_key("AD"@) && stores(dest_code_map()["AD"@]) == ("AD"@.contains('A'), "AD"@.contains('D'), "AD"@.contains('M')),
        dest_code_map().contains_key("DA"@) && stores(dest_code_map()["DA"@]) == ("DA"@.contains('A'), "DA"@.contains('D'), "DA"@.contains('M')),
        dest_code_map().contains_key("ADM"@) && stores(dest_code_map()["ADM"@]) == ("ADM"@.contains('A'), "ADM"@.contains('D'), "ADM"@.contains('M')),
        dest_code_map().contains_key("AMD"@) && stores(dest_code_map()["AMD"@]) == ("AMD"@.contains('A'), "AMD"@.contains('D'), "AMD"@.contains('M')),
        dest_code_map().contains_key("DAM"@) && stores(dest_code_map()["DAM"@]) == ("DAM"@.contains('A'), "DAM"@.contains('D'), "DAM"@.contains('M')),
        dest_code_map().contains_key("DMA"@) && stores(dest_code_map()["DMA"@]) == ("DMA"@.contains('A'), "DMA"@.contains('D'), "DMA"@.contains('M')),
        dest_code_map().contains_key("MAD"@) && stores(dest_code_map()["MAD"@]) == ("MAD"@.contains('A'), "MAD"@.contains('D'), "MAD"@.contains('M')),
        dest_code_map().contains_key("MDA"@) && stores(dest_code_map()["MDA"@]) == ("MDA"@.contains('A'), "MDA"@.contains('D'), "MDA"@.contains('M')),
{
    reveal_strlit("null");
    reveal_strlit("M");
    reveal_strlit("D");
    reveal_strlit("DM");
    reveal_strlit("MD");
    reveal_strlit("A");
    reveal_strlit("AM");
    reveal_strlit("MA");
    reveal_strlit("AD");
    reveal_strlit("DA");
    reveal_strlit("ADM");
    reveal_strlit("AMD");
    reveal_strlit("DAM");
    reveal_strlit("DMA");
    reveal_strlit("MAD");
    reveal_strlit("MDA");
    reveal_strlit("000");
    reveal_strlit("001");
    reveal_strlit("010");
    reveal_strlit("011");
    reveal_strlit("100");
    reveal_strlit("101");
    reveal_strlit("110");
    reveal_strlit("111");
    assert("null"@.len() == 4 && "null"@[0] == 'n' && "null"@[1] == 'u' && "null"@[2] == 'l' && "null"@[3] == 'l');
    assert("M"@.len() == 1 && "M"@[0] == 'M');
    assert("D"@.len() == 1 && "D"@[0] == 'D');
    assert("DM"@.len() == 2 && "DM"@[0] == 'D' && "DM"@[1] == 'M');
    assert("MD"@.len() == 2 && "MD"@[0] == 'M' && "MD"@[1] == 'D');
    assert("A"@.len() == 1 && "A"@[0] == 'A');
    assert("AM"@.len() == 2 && "AM"@[0] == 'A' && "AM"@[1] == 'M');
    assert("MA"@.len() == 2 && "MA"@[0] == 'M' && "MA"@[1] == 'A');
    assert("AD"@.len() == 2 && "AD"@[0] == 'A' && "AD"@[1] == 'D');
    assert("DA"@.len() == 2 && "DA"@[0] == 'D' && "DA"@[1] == 'A');
    assert("ADM"@.len() == 3 && "ADM"@[0] == 'A' && "ADM"@[1] == 'D' && "ADM"@[2] == 'M');
    assert("AMD"@.len() == 3 && "AMD"@[0] == 'A' && "AMD"@[1] == 'M' && "AMD"@[2] == 'D');
    assert("DAM"@.len() == 3 && "DAM"@[0] == 'D' && "DAM"@[1] == 'A' && "DAM"@[2] == 'M');
    assert("DMA"@.len() == 3 && "DMA"@[0] == 'D' && "DMA"@[1] == 'M' && "DMA"@[2] == 'A');
    assert("MAD"@.len() == 3 && "MAD"@[0] == 'M' && "MAD"@[1] == 'A' && "MAD"@[2] == 'D');
    assert("MDA"@.len() == 3 && "MDA"@[0] == 'M' && "MDA"@[1] == 'D' && "MDA"@[2] == 'A');
    assert("000"@.len() == 3 && "000"@[0] == '0' && "000"@[1] == '0' && "000"@[2] == '0');
    assert("001"@.len() == 3 && "001"@[0] == '0' && "001"@[1] == '0' && "001"@[2] == '1');
    assert("010"@.len() == 3 && "010"@[0] == '0' && "010"@[1] == '1' && "010"@[2] == '0');
    assert("011"@.len() == 3 && "011"@[0] == '0' && "011"@[1] == '1' && "011"@[2] == '1');
    assert("100"@.len() == 3 && "100"@[0] == '1' && "100"@[1] == '0' && "100"@[2] == '0');
    assert("101"@.len() == 3 && "101"@[0] == '1' && "101"@[1] == '0' && "101"@[2] == '1');
    assert("110"@.len() == 3 && "110"@[0] == '1' && "110"@[1] == '1' && "110"@[2] == '0');
    assert("111"@.len() == 3 && "111"@[0] == '1' && "111"@[1] == '1' && "111"@[2] == '1');
}

/// Each jump mnemonic jumps on the results it names: `JGT` on a positive
/// one, `JEQ` on zero, `JGE` on one not negative, `JLT` on a negative one,
/// `JNE` on one not zero, `JLE` on one not positive, `JMP` always, `null`
/// never.
pub proof fn lemma_jump_meanings(v: i16)
    ensures
        jump_code_map().contains_key("null"@) && jump_taken(jump_code_map()["null"@], v) == (false),
        jump_code_map().contains_key("JGT"@) && jump_taken(jump_code_map()["JGT"@], v) == (v > 0),
        jump_code_map().contains_key("JEQ"@) && jump_taken(jump_code_map()["JEQ"@], v) == (v == 0),
        jump_code_map().contains_key("JGE"@) && jump_taken(jump_code_map()["JGE"@], v) == (v >= 0),
        jump_code_map().contains_key("JLT"@) && jump_taken(jump_code_map()["JLT"@], v) == (v < 0),
        jump_code_map().contains_key("JNE"@) && jump_taken(jump_code_map()["JNE"@], v) == (v != 0),
        jump_code_map().contains_key("JLE"@) && jump_taken(jump_code_map()["JLE"@], v) == (v <= 0),
        jump_code_map().contains_key("JMP"@) && jump_taken(jump_code_map()["JMP"@], v) == (true),
{
    reveal_strlit("null");
    reveal_strlit("JGT");
    reveal_strlit("JEQ");
    reveal_strlit("JGE");
    reveal_strlit("JLT");
    reveal_strlit("JNE");
    reveal_strlit("JLE");
    reveal_strlit("JMP");
    reveal_strlit("000");
    reveal_strlit("001");
    reveal_strlit("010");
    reveal_strlit("011");
    reveal_strlit("100");
    reveal_strlit("101");
    reveal_strlit("110");
    reveal_strlit("111");
    assert("null"@.len() == 4 && "null"@[0] == 'n' && "null"@[1] == 'u' && "null"@[2] == 'l' && "null"@[3] == 'l');
    assert("JGT"@.len() == 3 && "JGT"@[0] == 'J' && "JGT"@[1] == 'G' && "JGT"@[2] == 'T');
    assert("JEQ"@.len() == 3 && "JEQ"@[0] == 'J' && "JEQ"@[1] == 'E' && "JEQ"@[2] == 'Q');
    assert("JGE"@.len() == 3 && "JGE"@[0] == 'J' && "JGE"@[1] == 'G' && "JGE"@[2] == 'E');
    assert("JLT"@.len() == 3 && "JLT"@[0] == 'J' && "JLT"@[1] == 'L' && "JLT"@[2] == 'T');
    assert("JNE"@.len() == 3 && "JNE"@[0] == 'J' && "JNE"@[1] == 'N' && "JNE"@[2] == 'E');
    assert("JLE"@.len() == 3 && "JLE"@[0] == 'J' && "JLE"@[1] == 'L' && "JLE"@[2] == 'E');
    assert("JMP"@.len() == 3 && "JMP"@[0] == 'J' && "JMP"@[1] == 'M' && "JMP"@[2] == 'P');
    assert("000"@.len() == 3 && "000"@[0] == '0' && "000"@[1] == '0' && "000"@[2] == '0');
    assert("001"@.len() == 3 && "001"@[0] == '0' && "001"@[1] == '0' && "001"@[2] == '1');
    assert("010"@.len() == 3 && "010"@[0] == '0' && "010"@[1] == '1' && "010"@[2] == '0');
    assert("011"@.len() == 3 && "011"@[0] == '0' && "011"@[1] == '1' && "011"@[2] == '1');
    assert("100"@.len() == 3 && "100"@[0] == '1' && "100"@[1] == '0' && "100"@[2] == '0');
    assert("101"@.len() == 3 && "101"@[0] == '1' && "101"@[1] == '0' && "101"@[2] == '1');
    assert("110"@.len() == 3 && "110"@[0] == '1' && "110"@[1] == '1' && "110"@[2] == '0');
    assert("111"@.len() == 3 && "111"@[0] == '1' && "111"@[1] == '1' && "111"@[2] == '1');
}

/// The registers `R0` to `R15` are the first sixteen addresses of memory,
/// and `SP`, `LCL`, `ARG`, `THIS` and `THAT` the first five; `SCREEN` is
/// at 16384 and `KBD` at 24576.
pub proof fn lemma_predefined_addresses(n: nat)
    requires
        n < 16,
    ensures
        predefined_symbol_map().contains_key(seq!['R'] + decimal_digits(n)),
        predefined_symbol_map()[seq!['R'] + decimal_digits(n)] == n,
        predefined_symbol_map().contains_key("SP"@) && predefined_symbol_map()["SP"@] == 0,
        predefined_symbol_map().contains_key("LCL"@) && predefined_symbol_map()["LCL"@] == 1,
        predefined_symbol_map().contains_key("ARG"@) && predefined_symbol_map()["ARG"@] == 2,
        predefined_symbol_map().contains_key("THIS"@) && predefined_symbol_map()["THIS"@] == 3,
        predefined_symbol_map().contains_key("THAT"@) && predefined_symbol_map()["THAT"@] == 4,
        predefined_symbol_map().contains_key("SCREEN"@) && predefined_symbol_map()["SCREEN"@] == 16384,
        predefined_symbol_map().contains_key("KBD"@) && predefined_symbol_map()["KBD"@] == 24576,
{
    reveal_strlit("SCREEN");
    reveal_strlit("KBD");
    reveal_strlit("SP");
    reveal_strlit("LCL");
    reveal_strlit("ARG");
    reveal_strlit("THIS");
    reveal_strlit("THAT");
    reveal_strlit("R0");
    reveal_strlit("R1");
    reveal_strlit("R2");
    reveal_strlit("R3");
    reveal_strlit("R4");
    reveal_strlit("R5");
    reveal_strlit("R6");
    reveal_strlit("R7");
    reveal_strlit("R8");
    reveal_strlit("R9");
    reveal_strlit("R10");
    reveal_strlit("R11");
    reveal_strlit("R12");
    reveal_strlit("R13");
    reveal_strlit("R14");
    reveal_strlit("R15");
    assert("SCREEN"@.len() == 6 && "SCREEN"@[0] == 'S' && "SCREEN"@[1] == 'C' && "SCREEN"@[2] == 'R' && "SCREEN"@[3] == 'E' && "SCREEN"@[4] == 'E' && "SCREEN"@[5] == 'N');
    assert("KBD"@.len() == 3 && "KBD"@[0] == 'K' && "KBD"@[1] == 'B' && "KBD"@[2] == 'D');
    assert("SP"@.len() == 2 && "SP"@[0] == 'S' && "SP"@[1] == 'P');
    assert("LCL"@.len() == 3 && "LCL"@[0] == 'L' && "LCL"@[1] == 'C' && "LCL"@[2] == 'L');
    assert("ARG"@.len() == 3 && "ARG"@[0] == 'A' && "ARG"@[1] == 'R' && "ARG"@[2] == 'G');
    assert("THIS"@.len() == 4 && "THIS"@[0] == 'T' && "THIS"@[1] == 'H' && "THIS"@[2] == 'I' && "THIS"@[3] == 'S');
    assert("THAT"@.len() == 4 && "THAT"@[0] == 'T' && "THAT"@[1] == 'H' && "THAT"@[2] == 'A' && "THAT"@[3] == 'T');
    assert("R0"@.len() == 2 && "R0"@[0] == 'R' && "R0"@[1] == '0');
    assert("R1"@.len() == 2 && "R1"@[0] == 'R' && "R1"@[1] == '1');
    assert("R2"@.len() == 2 && "R2"@[0] == 'R' && "R2"@[1] == '2');
    assert("R3"@.len() == 2 && "R3"@[0] == 'R' && "R3"@[1] == '3');
    assert("R4"@.len() == 2 && "R4"@[0] == 'R' && "R4"@[1] == '4');
    assert("R5"@.len() == 2 && "R5"@[0] == 'R' && "R5"@[1] == '5');
    assert("R6"@.len() == 2 && "R6"@[0] == 'R' && "R6"@[1] == '6');
    assert("R7"@.len() == 2 && "R7"@[0] == 'R' && "R7"@[1] == '7');
    assert("R8"@.len() == 2 && "R8"@[0] == 'R' && "R8"@[1] == '8');
    assert("R9"@.len() == 2 && "R9"@[0] == 'R' && "R9"@[1] == '9');
    assert("R10"@.len() == 3 && "R10"@[0] == 'R' && "R10"@[1] == '1' && "R10"@[2] == '0');
    assert("R11"@.len() == 3 && "R11"@[0] == 'R' && "R11"@[1] == '1' && "R11"@[2] == '1');
    assert("R12"@.len() == 3 && "R12"@[0] == 'R' && "R12"@[1] == '1' && "R12"@[2] == '2');
    assert("R13"@.len() == 3 && "R13"@[0] == 'R' && "R13"@[1] == '1' && "R13"@[2] == '3');
    assert("R14"@.len() == 3 && "R14"@[0] == 'R' && "R14"@[1] == '1' && "R14"@[2] == '4');
    assert("R15"@.len() == 3 && "R15"@[0] == 'R' && "R15"@[1] == '1' && "R15"@[2] == '5');
    let r = seq!['R'] + decimal_digits(n);
    if n < 10 {
        assert(decimal_digits(n) == seq![(n + '0' as nat) as char]);
    } else {
        assert(decimal_digits(n) == seq!['1', ((n - 10) + '0' as nat) as char]) by {
            assert(n / 10 == 1);
            assert(decimal_digits(n / 10) == seq!['1']);
        }
    }
    if n == 0 {
        assert(r =~= "R0"@);
    }
    if n == 1 {
        assert(r =~= "R1"@);
    }
    if n == 2 {
        assert(r =~= "R2"@);
    }
    if n == 3 {
        assert(r =~= "R3"@);
    }
    if n == 4 {
        assert(r =~= "R4"@);
    }
    if n == 5 {
        assert(r =~= "R5"@);
    }
    if n == 6 {
        assert(r =~= "R6"@);
    }
    if n == 7 {
        assert(r =~= "R7"@);
    }
    if n == 8 {
        assert(r =~= "R8"@);
    }
    if n == 9 {
        assert(r =~= "R9"@);
    }
    if n == 10 {
        assert(r =~= "R10"@);
    }
    if n == 11 {
        assert(r =~= "R11"@);
    }
    if n == 12 {
        assert(r =~= "R12"@);
    }
    if n == 13 {
        assert(r =~= "R13"@);
    }
    if n == 14 {
        assert(r =~= "R14"@);
    }
    if n == 15 {
        assert(r =~= "R15"@);
    }
}

} // verus!
