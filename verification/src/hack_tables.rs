use vstd::prelude::*;

use crate::assembler::{
    cleaned, code_view, first_pass, instructions, lemma_first_pass_instructions,
    lemma_first_pass_kept_no_labels, lemma_second_pass_words, machine_words, translatable,
    translation, AsmParser,
};
use crate::numbers::is_bits;
use crate::text::{join, lines};
use crate::table::Table;

verus! {

/// The predefined symbols of the Hack platform and their addresses.
pub open spec fn predefined_symbol_map() -> Map<Seq<char>, i16> {
    Map::empty()
        .insert("SCREEN"@, 16384i16)
        .insert("KBD"@, 24576i16)
        .insert("SP"@, 0i16)
        .insert("LCL"@, 1i16)
        .insert("ARG"@, 2i16)
        .insert("THIS"@, 3i16)
        .insert("THAT"@, 4i16)
        .insert("R0"@, 0i16)
        .insert("R1"@, 1i16)
        .insert("R2"@, 2i16)
        .insert("R3"@, 3i16)
        .insert("R4"@, 4i16)
        .insert("R5"@, 5i16)
        .insert("R6"@, 6i16)
        .insert("R7"@, 7i16)
        .insert("R8"@, 8i16)
        .insert("R9"@, 9i16)
        .insert("R10"@, 10i16)
        .insert("R11"@, 11i16)
        .insert("R12"@, 12i16)
        .insert("R13"@, 13i16)
        .insert("R14"@, 14i16)
        .insert("R15"@, 15i16)
}

/// A table of the predefined symbols: `SCREEN`, `KBD`, `SP`, `LCL`, `ARG`,
/// `THIS`, `THAT` and `R0` to `R15`.
pub fn predefined_symbols() -> (t: Table<i16>)
    ensures
        t.wf(),
        t@ == predefined_symbol_map(),
{
    let mut t: Table<i16> = Table::new();
    t.insert("SCREEN".to_owned(), 16384);
    t.insert("KBD".to_owned(), 24576);
    t.insert("SP".to_owned(), 0);
    t.insert("LCL".to_owned(), 1);
    t.insert("ARG".to_owned(), 2);
    t.insert("THIS".to_owned(), 3);
    t.insert("THAT".to_owned(), 4);
    t.insert("R0".to_owned(), 0);
    t.insert("R1".to_owned(), 1);
    t.insert("R2".to_owned(), 2);
    t.insert("R3".to_owned(), 3);
    t.insert("R4".to_owned(), 4);
    t.insert("R5".to_owned(), 5);
    t.insert("R6".to_owned(), 6);
    t.insert("R7".to_owned(), 7);
    t.insert("R8".to_owned(), 8);
    t.insert("R9".to_owned(), 9);
    t.insert("R10".to_owned(), 10);
    t.insert("R11".to_owned(), 11);
    t.insert("R12".to_owned(), 12);
    t.insert("R13".to_owned(), 13);
    t.insert("R14".to_owned(), 14);
    t.insert("R15".to_owned(), 15);
    t
}

/// The codes (the a-bit and six c-bits) of the comp mnemonics.
pub open spec fn comp_code_map() -> Map<Seq<char>, Seq<char>> {
    Map::empty()
        .insert("0"@, "0101010"@)
        .insert("1"@, "0111111"@)
        .insert("-1"@, "0111010"@)
        .insert("D"@, "0001100"@)
        .insert("A"@, "0110000"@)
        .insert("M"@, "1110000"@)
        .insert("!D"@, "0001101"@)
        .insert("!A"@, "0110001"@)
        .insert("!M"@, "1110001"@)
        .insert("-D"@, "0001111"@)
        .insert("-A"@, "0110011"@)
        .insert("-M"@, "1110011"@)
        .insert("D+1"@, "0011111"@)
        .insert("1+D"@, "0011111"@)
        .insert("A+1"@, "0110111"@)
        .insert("1+A"@, "0110111"@)
        .insert("M+1"@, "1110111"@)
        .insert("1+M"@, "1110111"@)
        .insert("D-1"@, "0001110"@)
        .insert("A-1"@, "0110010"@)
        .insert("M-1"@, "1110010"@)
        .insert("D+A"@, "0000010"@)
        .insert("A+D"@, "0000010"@)
        .insert("D+M"@, "1000010"@)
        .insert("M+D"@, "1000010"@)
        .insert("D-A"@, "0010011"@)
        .insert("D-M"@, "1010011"@)
        .insert("A-D"@, "0000111"@)
        .insert("M-D"@, "1000111"@)
        .insert("D&A"@, "0000000"@)
        .insert("A&D"@, "0000000"@)
        .insert("D&M"@, "1000000"@)
        .insert("M&D"@, "1000000"@)
        .insert("D|A"@, "0010101"@)
        .insert("A|D"@, "0010101"@)
        .insert("D|M"@, "1010101"@)
        .insert("M|D"@, "1010101"@)
}

/// A table of codes (the a-bit and six c-bits) of the comp mnemonics.
pub fn comp_table() -> (t: Table<String>)
    ensures
        t.wf(),
        t@.dom() == comp_code_map().dom(),
        forall|k: Seq<char>| #[trigger] t@.contains_key(k) ==> t@[k]@ == comp_code_map()[k],
{
    let mut t: Table<String> = Table::new();
    let ghost mut m: Map<Seq<char>, Seq<char>> = Map::empty();
    t.insert("0".to_owned(), "0101010".to_owned());
    proof {
        m = m.insert("0"@, "0101010"@);
    }
    assert(t@.dom() == m.dom() && forall|k: Seq<char>| #[trigger] t@.contains_key(k) ==> t@[k]@ == m[k]);
    t.insert("1".to_owned(), "0111111".to_owned());
    proof {
        m = m.insert("1"@, "0111111"@);
    }
    assert(t@.dom() == m.dom() && forall|k: Seq<char>| #[trigger] t@.contains_key(k) ==> t@[k]@ == m[k]);
    t.insert("-1".to_owned(), "0111010".to_owned());
    proof {
        m = m.insert("-1"@, "0111010"@);
    }
    assert(t@.dom() == m.dom() && forall|k: Seq<char>| #[trigger] t@.contains_key(k) ==> t@[k]@ == m[k]);
    t.insert("D".to_owned(), "0001100".to_owned());
    proof {
        m = m.insert("D"@, "0001100"@);
    }
    assert(t@.dom() == m.dom() && forall|k: Seq<char>| #[trigger] t@.contains_key(k) ==> t@[k]@ == m[k]);
    t.insert("A".to_owned(), "0110000".to_owned());
    proof {
        m = m.insert("A"@, "0110000"@);
    }
    assert(t@.dom() == m.dom() && forall|k: Seq<char>| #[trigger] t@.contains_key(k) ==> t@[k]@ == m[k]);
    t.insert("M".to_owned(), "1110000".to_owned());
    proof {
        m = m.insert("M"@, "1110000"@);
    }
    assert(t@.dom() == m.dom() && forall|k: Seq<char>| #[trigger] t@.contains_key(k) ==> t@[k]@ == m[k]);
    t.insert("!D".to_owned(), "0001101".to_owned());
    proof {
        m = m.insert("!D"@, "0001101"@);
    }
    assert(t@.dom() == m.dom() && forall|k: Seq<char>| #[trigger] t@.contains_key(k) ==> t@[k]@ == m[k]);
    t.insert("!A".to_owned(), "0110001".to_owned());
    proof {
        m = m.insert("!A"@, "0110001"@);
    }
    assert(t@.dom() == m.dom() && forall|k: Seq<char>| #[trigger] t@.contains_key(k) ==> t@[k]@ == m[k]);
    t.insert("!M".to_owned(), "1110001".to_owned());
    proof {
        m = m.insert("!M"@, "1110001"@);
    }
    assert(t@.dom() == m.dom() && forall|k: Seq<char>| #[trigger] t@.contains_key(k) ==> t@[k]@ == m[k]);
    t.insert("-D".to_owned(), "0001111".to_owned());
    proof {
        m = m.insert("-D"@, "0001111"@);
    }
    assert(t@.dom() == m.dom() && forall|k: Seq<char>| #[trigger] t@.contains_key(k) ==> t@[k]@ == m[k]);
    t.insert("-A".to_owned(), "0110011".to_owned());
    proof {
        m = m.insert("-A"@, "0110011"@);
    }
    assert(t@.dom() == m.dom() && forall|k: Seq<char>| #[trigger] t@.contains_key(k) ==> t@[k]@ == m[k]);
    t.insert("-M".to_owned(), "1110011".to_owned());
    proof {
        m = m.insert("-M"@, "1110011"@);
    }
    assert(t@.dom() == m.dom() && forall|k: Seq<char>| #[trigger] t@.contains_key(k) ==> t@[k]@ == m[k]);
    t.insert("D+1".to_owned(), "0011111".to_owned());
    proof {
        m = m.insert("D+1"@, "0011111"@);
    }
    assert(t@.dom() == m.dom() && forall|k: Seq<char>| #[trigger] t@.contains_key(k) ==> t@[k]@ == m[k]);
    t.insert("1+D".to_owned(), "0011111".to_owned());
    proof {
        m = m.insert("1+D"@, "0011111"@);
    }
    assert(t@.dom() == m.dom() && forall|k: Seq<char>| #[trigger] t@.contains_key(k) ==> t@[k]@ == m[k]);
    t.insert("A+1".to_owned(), "0110111".to_owned());
    proof {
        m = m.insert("A+1"@, "0110111"@);
    }
    assert(t@.dom() == m.dom() && forall|k: Seq<char>| #[trigger] t@.contains_key(k) ==> t@[k]@ == m[k]);
    t.insert("1+A".to_owned(), "0110111".to_owned());
    proof {
        m = m.insert("1+A"@, "0110111"@);
    }
    assert(t@.dom() == m.dom() && forall|k: Seq<char>| #[trigger] t@.contains_key(k) ==> t@[k]@ == m[k]);
    t.insert("M+1".to_owned(), "1110111".to_owned());
    proof {
        m = m.insert("M+1"@, "1110111"@);
    }
    assert(t@.dom() == m.dom() && forall|k: Seq<char>| #[trigger] t@.contains_key(k) ==> t@[k]@ == m[k]);
    t.insert("1+M".to_owned(), "1110111".to_owned());
    proof {
        m = m.insert("1+M"@, "1110111"@);
    }
    assert(t@.dom() == m.dom() && forall|k: Seq<char>| #[trigger] t@.contains_key(k) ==> t@[k]@ == m[k]);
    t.insert("D-1".to_owned(), "0001110".to_owned());
    proof {
        m = m.insert("D-1"@, "0001110"@);
    }
    assert(t@.dom() == m.dom() && forall|k: Seq<char>| #[trigger] t@.contains_key(k) ==> t@[k]@ == m[k]);
    t.insert("A-1".to_owned(), "0110010".to_owned());
    proof {
        m = m.insert("A-1"@, "0110010"@);
    }
    assert(t@.dom() == m.dom() && forall|k: Seq<char>| #[trigger] t@.contains_key(k) ==> t@[k]@ == m[k]);
    t.insert("M-1".to_owned(), "1110010".to_owned());
    proof {
        m = m.insert("M-1"@, "1110010"@);
    }
    assert(t@.dom() == m.dom() && forall|k: Seq<char>| #[trigger] t@.contains_key(k) ==> t@[k]@ == m[k]);
    t.insert("D+A".to_owned(), "0000010".to_owned());
    proof {
        m = m.insert("D+A"@, "0000010"@);
    }
    assert(t@.dom() == m.dom() && forall|k: Seq<char>| #[trigger] t@.contains_key(k) ==> t@[k]@ == m[k]);
    t.insert("A+D".to_owned(), "0000010".to_owned());
    proof {
        m = m.insert("A+D"@, "0000010"@);
    }
    assert(t@.dom() == m.dom() && forall|k: Seq<char>| #[trigger] t@.contains_key(k) ==> t@[k]@ == m[k]);
    t.insert("D+M".to_owned(), "1000010".to_owned());
    proof {
        m = m.insert("D+M"@, "1000010"@);
    }
    assert(t@.dom() == m.dom() && forall|k: Seq<char>| #[trigger] t@.contains_key(k) ==> t@[k]@ == m[k]);
    t.insert("M+D".to_owned(), "1000010".to_owned());
    proof {
        m = m.insert("M+D"@, "1000010"@);
    }
    assert(t@.dom() == m.dom() && forall|k: Seq<char>| #[trigger] t@.contains_key(k) ==> t@[k]@ == m[k]);
    t.insert("D-A".to_owned(), "0010011".to_owned());
    proof {
        m = m.insert("D-A"@, "0010011"@);
    }
    assert(t@.dom() == m.dom() && forall|k: Seq<char>| #[trigger] t@.contains_key(k) ==> t@[k]@ == m[k]);
    t.insert("D-M".to_owned(), "1010011".to_owned());
    proof {
        m = m.insert("D-M"@, "1010011"@);
    }
    assert(t@.dom() == m.dom() && forall|k: Seq<char>| #[trigger] t@.contains_key(k) ==> t@[k]@ == m[k]);
    t.insert("A-D".to_owned(), "0000111".to_owned());
    proof {
        m = m.insert("A-D"@, "0000111"@);
    }
    assert(t@.dom() == m.dom() && forall|k: Seq<char>| #[trigger] t@.contains_key(k) ==> t@[k]@ == m[k]);
    t.insert("M-D".to_owned(), "1000111".to_owned());
    proof {
        m = m.insert("M-D"@, "1000111"@);
    }
    assert(t@.dom() == m.dom() && forall|k: Seq<char>| #[trigger] t@.contains_key(k) ==> t@[k]@ == m[k]);
    t.insert("D&A".to_owned(), "0000000".to_owned());
    proof {
        m = m.insert("D&A"@, "0000000"@);
    }
    assert(t@.dom() == m.dom() && forall|k: Seq<char>| #[trigger] t@.contains_key(k) ==> t@[k]@ == m[k]);
    t.insert("A&D".to_owned(), "0000000".to_owned());
    proof {
        m = m.insert("A&D"@, "0000000"@);
    }
    assert(t@.dom() == m.dom() && forall|k: Seq<char>| #[trigger] t@.contains_key(k) ==> t@[k]@ == m[k]);
    t.insert("D&M".to_owned(), "1000000".to_owned());
    proof {
        m = m.insert("D&M"@, "1000000"@);
    }
    assert(t@.dom() == m.dom() && forall|k: Seq<char>| #[trigger] t@.contains_key(k) ==> t@[k]@ == m[k]);
    t.insert("M&D".to_owned(), "1000000".to_owned());
    proof {
        m = m.insert("M&D"@, "1000000"@);
    }
    assert(t@.dom() == m.dom() && forall|k: Seq<char>| #[trigger] t@.contains_key(k) ==> t@[k]@ == m[k]);
    t.insert("D|A".to_owned(), "0010101".to_owned());
    proof {
        m = m.insert("D|A"@, "0010101"@);
    }
    assert(t@.dom() == m.dom() && forall|k: Seq<char>| #[trigger] t@.contains_key(k) ==> t@[k]@ == m[k]);
    t.insert("A|D".to_owned(), "0010101".to_owned());
    proof {
        m = m.insert("A|D"@, "0010101"@);
    }
    assert(t@.dom() == m.dom() && forall|k: Seq<char>| #[trigger] t@.contains_key(k) ==> t@[k]@ == m[k]);
    t.insert("D|M".to_owned(), "1010101".to_owned());
    proof {
        m = m.insert("D|M"@, "1010101"@);
    }
    assert(t@.dom() == m.dom() && forall|k: Seq<char>| #[trigger] t@.contains_key(k) ==> t@[k]@ == m[k]);
    t.insert("M|D".to_owned(), "1010101".to_owned());
    proof {
        m = m.insert("M|D"@, "1010101"@);
    }
    assert(t@.dom() == m.dom() && forall|k: Seq<char>| #[trigger] t@.contains_key(k) ==> t@[k]@ == m[k]);
    assert(m == comp_code_map());
    t
}

/// The codes of the dest mnemonics, `null` for none.
pub open spec fn dest_code_map() -> Map<Seq<char>, Seq<char>> {
    Map::empty()
        .insert("null"@, "000"@)
        .insert("M"@, "001"@)
        .insert("D"@, "010"@)
        .insert("DM"@, "011"@)
        .insert("MD"@, "011"@)
        .insert("A"@, "100"@)
        .insert("AM"@, "101"@)
        .insert("MA"@, "101"@)
        .insert("AD"@, "110"@)
        .insert("DA"@, "110"@)
        .insert("ADM"@, "111"@)
        .insert("AMD"@, "111"@)
        .insert("DAM"@, "111"@)
        .insert("DMA"@, "111"@)
        .insert("MAD"@, "111"@)
        .insert("MDA"@, "111"@)
}

/// A table of codes of the dest mnemonics, `null` for none.
pub fn dest_table() -> (t: Table<String>)
    ensures
        t.wf(),
        t@.dom() == dest_code_map().dom(),
        forall|k: Seq<char>| #[trigger] t@.contains_key(k) ==> t@[k]@ == dest_code_map()[k],
{
    let mut t: Table<String> = Table::new();
    let ghost mut m: Map<Seq<char>, Seq<char>> = Map::empty();
    t.insert("null".to_owned(), "000".to_owned());
    proof {
        m = m.insert("null"@, "000"@);
    }
    assert(t@.dom() == m.dom() && forall|k: Seq<char>| #[trigger] t@.contains_key(k) ==> t@[k]@ == m[k]);
    t.insert("M".to_owned(), "001".to_owned());
    proof {
        m = m.insert("M"@, "001"@);
    }
    assert(t@.dom() == m.dom() && forall|k: Seq<char>| #[trigger] t@.contains_key(k) ==> t@[k]@ == m[k]);
    t.insert("D".to_owned(), "010".to_owned());
    proof {
        m = m.insert("D"@, "010"@);
    }
    assert(t@.dom() == m.dom() && forall|k: Seq<char>| #[trigger] t@.contains_key(k) ==> t@[k]@ == m[k]);
    t.insert("DM".to_owned(), "011".to_owned());
    proof {
        m = m.insert("DM"@, "011"@);
    }
    assert(t@.dom() == m.dom() && forall|k: Seq<char>| #[trigger] t@.contains_key(k) ==> t@[k]@ == m[k]);
    t.insert("MD".to_owned(), "011".to_owned());
    proof {
        m = m.insert("MD"@, "011"@);
    }
    assert(t@.dom() == m.dom() && forall|k: Seq<char>| #[trigger] t@.contains_key(k) ==> t@[k]@ == m[k]);
    t.insert("A".to_owned(), "100".to_owned());
    proof {
        m = m.insert("A"@, "100"@);
    }
    assert(t@.dom() == m.dom() && forall|k: Seq<char>| #[trigger] t@.contains_key(k) ==> t@[k]@ == m[k]);
    t.insert("AM".to_owned(), "101".to_owned());
    proof {
        m = m.insert("AM"@, "101"@);
    }
    assert(t@.dom() == m.dom() && forall|k: Seq<char>| #[trigger] t@.contains_key(k) ==> t@[k]@ == m[k]);
    t.insert("MA".to_owned(), "101".to_owned());
    proof {
        m = m.insert("MA"@, "101"@);
    }
    assert(t@.dom() == m.dom() && forall|k: Seq<char>| #[trigger] t@.contains_key(k) ==> t@[k]@ == m[k]);
    t.insert("AD".to_owned(), "110".to_owned());
    proof {
        m = m.insert("AD"@, "110"@);
    }
    assert(t@.dom() == m.dom() && forall|k: Seq<char>| #[trigger] t@.contains_key(k) ==> t@[k]@ == m[k]);
    t.insert("DA".to_owned(), "110".to_owned());
    proof {
        m = m.insert("DA"@, "110"@);
    }
    assert(t@.dom() == m.dom() && forall|k: Seq<char>| #[trigger] t@.contains_key(k) ==> t@[k]@ == m[k]);
    t.insert("ADM".to_owned(), "111".to_owned());
    proof {
        m = m.insert("ADM"@, "111"@);
    }
    assert(t@.dom() == m.dom() && forall|k: Seq<char>| #[trigger] t@.contains_key(k) ==> t@[k]@ == m[k]);
    t.insert("AMD".to_owned(), "111".to_owned());
    proof {
        m = m.insert("AMD"@, "111"@);
    }
    assert(t@.dom() == m.dom() && forall|k: Seq<char>| #[trigger] t@.contains_key(k) ==> t@[k]@ == m[k]);
    t.insert("DAM".to_owned(), "111".to_owned());
    proof {
        m = m.insert("DAM"@, "111"@);
    }
    assert(t@.dom() == m.dom() && forall|k: Seq<char>| #[trigger] t@.contains_key(k) ==> t@[k]@ == m[k]);
    t.insert("DMA".to_owned(), "111".to_owned());
    proof {
        m = m.insert("DMA"@, "111"@);
    }
    assert(t@.dom() == m.dom() && forall|k: Seq<char>| #[trigger] t@.contains_key(k) ==> t@[k]@ == m[k]);
    t.insert("MAD".to_owned(), "111".to_owned());
    proof {
        m = m.insert("MAD"@, "111"@);
    }
    assert(t@.dom() == m.dom() && forall|k: Seq<char>| #[trigger] t@.contains_key(k) ==> t@[k]@ == m[k]);
    t.insert("MDA".to_owned(), "111".to_owned());
    proof {
        m = m.insert("MDA"@, "111"@);
    }
    assert(t@.dom() == m.dom() && forall|k: Seq<char>| #[trigger] t@.contains_key(k) ==> t@[k]@ == m[k]);
    assert(m == dest_code_map());
    t
}

/// The codes of the jump mnemonics, `null` for none.
pub open spec fn jump_code_map() -> Map<Seq<char>, Seq<char>> {
    Map::empty()
        .insert("null"@, "000"@)
        .insert("JGT"@, "001"@)
        .insert("JEQ"@, "010"@)
        .insert("JGE"@, "011"@)
        .insert("JLT"@, "100"@)
        .insert("JNE"@, "101"@)
        .insert("JLE"@, "110"@)
        .insert("JMP"@, "111"@)
}

/// A table of codes of the jump mnemonics, `null` for none.
pub fn jump_table() -> (t: Table<String>)
    ensures
        t.wf(),
        t@.dom() == jump_code_map().dom(),
        forall|k: Seq<char>| #[trigger] t@.contains_key(k) ==> t@[k]@ == jump_code_map()[k],
{
    let mut t: Table<String> = Table::new();
    let ghost mut m: Map<Seq<char>, Seq<char>> = Map::empty();
    t.insert("null".to_owned(), "000".to_owned());
    proof {
        m = m.insert("null"@, "000"@);
    }
    assert(t@.dom() == m.dom() && forall|k: Seq<char>| #[trigger] t@.contains_key(k) ==> t@[k]@ == m[k]);
    t.insert("JGT".to_owned(), "001".to_owned());
    proof {
        m = m.insert("JGT"@, "001"@);
    }
    assert(t@.dom() == m.dom() && forall|k: Seq<char>| #[trigger] t@.contains_key(k) ==> t@[k]@ == m[k]);
    t.insert("JEQ".to_owned(), "010".to_owned());
    proof {
        m = m.insert("JEQ"@, "010"@);
    }
    assert(t@.dom() == m.dom() && forall|k: Seq<char>| #[trigger] t@.contains_key(k) ==> t@[k]@ == m[k]);
    t.insert("JGE".to_owned(), "011".to_owned());
    proof {
        m = m.insert("JGE"@, "011"@);
    }
    assert(t@.dom() == m.dom() && forall|k: Seq<char>| #[trigger] t@.contains_key(k) ==> t@[k]@ == m[k]);
    t.insert("JLT".to_owned(), "100".to_owned());
    proof {
        m = m.insert("JLT"@, "100"@);
    }
    assert(t@.dom() == m.dom() && forall|k: Seq<char>| #[trigger] t@.contains_key(k) ==> t@[k]@ == m[k]);
    t.insert("JNE".to_owned(), "101".to_owned());
    proof {
        m = m.insert("JNE"@, "101"@);
    }
    assert(t@.dom() == m.dom() && forall|k: Seq<char>| #[trigger] t@.contains_key(k) ==> t@[k]@ == m[k]);
    t.insert("JLE".to_owned(), "110".to_owned());
    proof {
        m = m.insert("JLE"@, "110"@);
    }
    assert(t@.dom() == m.dom() && forall|k: Seq<char>| #[trigger] t@.contains_key(k) ==> t@[k]@ == m[k]);
    t.insert("JMP".to_owned(), "111".to_owned());
    proof {
        m = m.insert("JMP"@, "111"@);
    }
    assert(t@.dom() == m.dom() && forall|k: Seq<char>| #[trigger] t@.contains_key(k) ==> t@[k]@ == m[k]);
    assert(m == jump_code_map());
    t
}
/// The Hack machine code of the assembly program `source`, with the
/// predefined symbols and the standard mnemonics: the text is cleaned and
/// then translated as `AsmParser::parse_instructions` does. `None` where
/// that translation is impossible: more than 32767 instructions, a
/// mnemonic without a code, or more variables than addresses.
pub fn assemble(source: String) -> (r: Option<String>)
    ensures
        r is Some <==> translatable(
            cleaned(source@),
            predefined_symbol_map(),
            comp_code_map(),
            dest_code_map(),
            jump_code_map(),
        ),
        r matches Some(code) ==> code@ == translation(
            cleaned(source@),
            predefined_symbol_map(),
            comp_code_map(),
            dest_code_map(),
            jump_code_map(),
        ),
{
    let parser = AsmParser::new(source);
    let clean = parser.clean_instructions();
    let mut symbols = predefined_symbols();
    let comp = comp_table();
    let dest = dest_table();
    let jump = jump_table();
    assert(code_view(comp@) =~= comp_code_map());
    assert(code_view(dest@) =~= dest_code_map());
    assert(code_view(jump@) =~= jump_code_map());
    parser.translate(clean, &mut symbols, &comp, &dest, &jump)
}

/// The codes of the comp mnemonics are seven binary digits, those of the
/// dest and jump mnemonics three.
pub proof fn lemma_code_maps_bits()
    ensures
        forall|k: Seq<char>| #[trigger] comp_code_map().contains_key(k) ==> is_bits(comp_code_map()[k], 7),
        forall|k: Seq<char>| #[trigger] dest_code_map().contains_key(k) ==> is_bits(dest_code_map()[k], 3),
        forall|k: Seq<char>| #[trigger] jump_code_map().contains_key(k) ==> is_bits(jump_code_map()[k], 3),
{
    reveal_strlit("0101010");
    reveal_strlit("0111111");
    reveal_strlit("0111010");
    reveal_strlit("0001100");
    reveal_strlit("0110000");
    reveal_strlit("1110000");
    reveal_strlit("0001101");
    reveal_strlit("0110001");
    reveal_strlit("1110001");
    reveal_strlit("0001111");
    reveal_strlit("0110011");
    reveal_strlit("1110011");
    reveal_strlit("0011111");
    reveal_strlit("0110111");
    reveal_strlit("1110111");
    reveal_strlit("0001110");
    reveal_strlit("0110010");
    reveal_strlit("1110010");
    reveal_strlit("0000010");
    reveal_strlit("1000010");
    reveal_strlit("0010011");
    reveal_strlit("1010011");
    reveal_strlit("0000111");
    reveal_strlit("1000111");
    reveal_strlit("0000000");
    reveal_strlit("1000000");
    reveal_strlit("0010101");
    reveal_strlit("1010101");
    reveal_strlit("000");
    reveal_strlit("001");
    reveal_strlit("010");
    reveal_strlit("011");
    reveal_strlit("100");
    reveal_strlit("101");
    reveal_strlit("110");
    reveal_strlit("111");
}

/// A program that assembles with the Hack tables becomes one word of
/// sixteen binary digits per instruction, labels giving none, in the order
/// of the instructions and joined by newlines.
pub proof fn lemma_one_word_per_instruction(src: Seq<char>)
    requires
        translatable(
            src,
            predefined_symbol_map(),
            comp_code_map(),
            dest_code_map(),
            jump_code_map(),
        ),
    ensures
        machine_words(src, predefined_symbol_map(), comp_code_map(), dest_code_map(), jump_code_map()).len()
            == instructions(src).len(),
        forall|i: int|
            0 <= i < instructions(src).len() ==> is_bits(
                #[trigger] machine_words(
                    src,
                    predefined_symbol_map(),
                    comp_code_map(),
                    dest_code_map(),
                    jump_code_map(),
                )[i],
                16,
            ),
        translation(src, predefined_symbol_map(), comp_code_map(), dest_code_map(), jump_code_map())
            == join(machine_words(src, predefined_symbol_map(), comp_code_map(), dest_code_map(), jump_code_map())),
{
    let ls = lines(src);
    let p = first_pass(ls, predefined_symbol_map());
    lemma_first_pass_instructions(ls, predefined_symbol_map(), Map::empty());
    lemma_first_pass_kept_no_labels(ls, predefined_symbol_map());
    lemma_code_maps_bits();
    lemma_second_pass_words(p.2, p.0, 16, comp_code_map(), dest_code_map(), jump_code_map());
}

} // verus!
