use hack_toolchain::assembler::{AsmParser, CInstructionField, InstructionType};
use std::path::Path;
use hack_toolchain::args::{has_extension, check_valid_asm_file, check_valid_jack_files, is_jack_file_name, ArgumentError};
use hack_toolchain::hack_tables::{assemble, comp_table, dest_table, jump_table, predefined_symbols};

#[test]
fn parse_clean_instructions() {
    let test_parser1 = AsmParser::new("abc hello // sad\n ".to_string());
    let test_parser2 = AsmParser::new("abc hello  ".to_string());
    let test_parser3 = AsmParser::new("\nabc hello // sad\n test".to_string());
    let cleaned_instructions1 = test_parser1.clean_instructions();
    let cleaned_instructions2 = test_parser2.clean_instructions();
    let cleaned_instructions3 = test_parser3.clean_instructions();

    assert_eq!("abc hello".to_string(), cleaned_instructions1);
    assert_eq!("abc hello".to_string(), cleaned_instructions2);
    assert_eq!("abc hello\ntest".to_string(), cleaned_instructions3);
}

#[test]
fn parse_symbol() {
    let test_symbol_a_instruction = "@poopy";
    let test_symbol_l_instruiction = "(poopy)";
    let test_parser = AsmParser::new("dummy".to_string());
    let symbol_a_instruction = test_parser.get_symbol(&test_symbol_a_instruction, &['@']);
    let symbol_l_instruction1 = test_parser.get_symbol(&test_symbol_l_instruiction, &['(', ')']);
    let symbol_l_instruction2 = test_parser.get_symbol(&test_symbol_l_instruiction, &[')', '(']);
    assert_eq!("poopy", symbol_a_instruction);
    assert_eq!("poopy", symbol_l_instruction1);
    assert_eq!("poopy", symbol_l_instruction2);
}

#[test]
fn parse_instruction_type() {
    let test_instruction_a = "@hello";
    let test_instruction_l = "(what)";
    let test_instruction_c = "MD=D+A";
    let test_parser = AsmParser::new("dummy".to_string());

    let a_instruction = test_parser.get_instruction_type(&test_instruction_a);
    let l_instruction = test_parser.get_instruction_type(&test_instruction_l);
    let c_instruction = test_parser.get_instruction_type(&test_instruction_c);

    assert_eq!(InstructionType::A, a_instruction);
    assert_eq!(InstructionType::L, l_instruction);
    assert_eq!(InstructionType::C, c_instruction);
}

#[test]
fn parse_instruction_field() {
    let c_instruction_test1 = "MD=D+A;JMP";
    let c_instruction_test2 = "D;JMP";
    let c_instruction_test3 = "D=A";
    let test_parser = AsmParser::new("dummy".to_string());
    let dest_field1 = test_parser.get_c_instruction_field(&c_instruction_test1, CInstructionField::Dest);
    let comp_field1 = test_parser.get_c_instruction_field(&c_instruction_test1, CInstructionField::Comp);
    let jump_field1 = test_parser.get_c_instruction_field(&c_instruction_test1, CInstructionField::Jump);
    let dest_field2 = test_parser.get_c_instruction_field(&c_instruction_test2, CInstructionField::Dest);
    let comp_field2 = test_parser.get_c_instruction_field(&c_instruction_test2, CInstructionField::Comp);
    let jump_field2 = test_parser.get_c_instruction_field(&c_instruction_test2, CInstructionField::Jump);
    let dest_field3 = test_parser.get_c_instruction_field(&c_instruction_test3, CInstructionField::Dest);
    let comp_field3 = test_parser.get_c_instruction_field(&c_instruction_test3, CInstructionField::Comp);
    let jump_field3 = test_parser.get_c_instruction_field(&c_instruction_test3, CInstructionField::Jump);

    assert_eq!(Some("MD"), dest_field1);
    assert_eq!(Some("D+A"), comp_field1);
    assert_eq!(Some("JMP"), jump_field1);
    assert_eq!(None, dest_field2);
    assert_eq!(Some("D"), comp_field2);
    assert_eq!(Some("JMP"), jump_field2);
    assert_eq!(Some("D"), dest_field3);
    assert_eq!(Some("A"), comp_field3);
    assert_eq!(None, jump_field3);
}

#[test]
fn asm_file_validation_little_args() {
    let too_little_arguments = vec!["test".to_string()];
    let result = check_valid_asm_file(&too_little_arguments);
    assert!(result.is_err());
}

#[test]
fn asm_file_validation_many_args() {
    let too_many_arguments = vec!["test".to_string(), "test1".to_string(), "test2".to_string()];
    let result = check_valid_asm_file(&too_many_arguments);
    assert!(result.is_err());
}

#[test]
fn asm_file_validation_bad_path() {
    let bad_path_argument = vec!["test".to_string(), "bad_path.exe".to_string()];
    let result = check_valid_asm_file(&bad_path_argument);
    assert!(result.is_err());
}

#[test]
fn assemble_program_without_symbols() {
    let source = "// Adds 2 and 3\n@2\nD=A\n@3\nD=D+A\n@0\nM=D\n";
    let expected = "0000000000000010\n1110110000010000\n0000000000000011\n1110000010010000\n0000000000000000\n1110001100001000";
    assert_eq!(assemble(source.to_string()), Some(expected.to_string()));
}

#[test]
fn assemble_labels_and_variables() {
    let source = "@i\nM=1 // start\n(LOOP)\n@i\nD=M\n@LOOP\nD;JGT\n(END)\n@END\n0;JMP\n";
    let expected = [
        "0000000000010000",
        "1110111111001000",
        "0000000000010000",
        "1111110000010000",
        "0000000000000010",
        "1110001100000001",
        "0000000000000110",
        "1110101010000111",
    ];
    let code = assemble(source.to_string()).unwrap();
    assert_eq!(code.lines().collect::<Vec<&str>>(), expected.to_vec());
}

#[test]
fn assemble_predefined_symbols_and_negative_numbers() {
    let source = "@SCREEN\n@KBD\n@R15\n@THAT\n@-1\n@32767\n";
    let expected = "0100000000000000\n0110000000000000\n0000000000001111\n0000000000000100\n1111111111111111\n0111111111111111";
    assert_eq!(assemble(source.to_string()), Some(expected.to_string()));
}

#[test]
fn assemble_two_variables_get_consecutive_addresses() {
    let source = "@first\n@second\n@first\n";
    let expected = "0000000000010000\n0000000000010001\n0000000000010000";
    assert_eq!(assemble(source.to_string()), Some(expected.to_string()));
}

#[test]
fn assemble_rejects_unknown_mnemonics() {
    assert_eq!(assemble("D=Q\n".to_string()), None);
    assert_eq!(assemble("X=D\n".to_string()), None);
    assert_eq!(assemble("D;JXX\n".to_string()), None);
}

#[test]
fn assemble_empty_program() {
    assert_eq!(assemble("// nothing\n\n".to_string()), Some(String::new()));
}

#[test]
fn parse_instructions_fills_symbol_table() {
    let parser = AsmParser::new("(START)\n@x\n@START\n".to_string());
    let clean = parser.clean_instructions();
    let mut symbols = predefined_symbols();
    let comp = comp_table();
    let dest = dest_table();
    let jump = jump_table();
    let code = parser.parse_instructions(clean, &mut symbols, &comp, &dest, &jump);
    assert_eq!(code, "0000000000010000\n0000000000000000");
    assert_eq!(symbols.get("START"), Some(&0));
    assert_eq!(symbols.get("x"), Some(&16));
    assert_eq!(symbols.get("SP"), Some(&0));
}

#[test]
fn cleaning_twice_changes_nothing() {
    let parser = AsmParser::new("  @1 // one\r\n\r\n// only a comment\n\tD=A\t\n".to_string());
    let once = parser.clean_instructions();
    assert_eq!(once, "@1\nD=A");
    let twice = AsmParser::new(once.clone()).clean_instructions();
    assert_eq!(twice, once);
}

#[test]
fn c_fields_take_apart_what_was_put_together() {
    let parser = AsmParser::new(String::new());
    let line = "AM=M-1;JNE";
    assert_eq!(parser.get_c_instruction_field(line, CInstructionField::Dest), Some("AM"));
    assert_eq!(parser.get_c_instruction_field(line, CInstructionField::Comp), Some("M-1"));
    assert_eq!(parser.get_c_instruction_field(line, CInstructionField::Jump), Some("JNE"));
    assert_eq!(parser.get_c_instruction_field("0;JMP", CInstructionField::Dest), None);
    assert_eq!(parser.get_c_instruction_field("0;JMP", CInstructionField::Comp), Some("0"));
}

#[test]
fn symbol_trimming_ignores_pattern_order() {
    let parser = AsmParser::new(String::new());
    assert_eq!(parser.get_symbol("((LOOP))", &['(', ')']), "LOOP");
    assert_eq!(parser.get_symbol("((LOOP))", &[')', '(', ')']), "LOOP");
    assert_eq!(parser.get_symbol("@@", &['@']), "");
}

#[test]
fn instruction_type_of_empty_line_is_c() {
    let parser = AsmParser::new(String::new());
    assert_eq!(parser.get_instruction_type(""), InstructionType::C);
}

#[test]
fn asm_file_accepted_and_error_messages() {
    let args = vec!["prog".to_string(), "dir/Add.asm".to_string()];
    assert_eq!(check_valid_asm_file(&args), Ok(&args[1]));
    let no_ext = vec!["prog".to_string(), "Add".to_string()];
    assert_eq!(check_valid_asm_file(&no_ext), Err(ArgumentError::NotAsmFile));
    let dotfile = vec!["prog".to_string(), ".asm".to_string()];
    assert_eq!(check_valid_asm_file(&dotfile), Err(ArgumentError::NotAsmFile));
    assert_eq!(
        ArgumentError::WrongArgumentCount.message(),
        "Please enter a file path as an argument to the program."
    );
    assert!(is_jack_file_name("src/Main.jack"));
}

#[test]
fn jack_files_found_are_returned() {
    let args = vec!["prog".to_string(), "dir".to_string()];
    let found = vec!["dir/Main.jack".to_string()];
    assert_eq!(check_valid_jack_files(&args, found.clone()), Ok(found));
}

#[test]
fn extension_check_agrees_with_std_path() {
    let samples = [
        "a.asm", "dir/a.asm", ".asm", "a.", "a..asm", "a.b.asm", "dir.asm/", "dir.asm/a", "a/..",
        "..", "/", "", "a.jack", "x/.jack", "x/y.tar.asm", "./a.asm", "a.asm/.", "x//y.asm",
    ];
    for p in samples.iter() {
        let std_asm = Path::new(p).extension().is_some_and(|e| e == "asm");
        let std_jack = Path::new(p).extension().is_some_and(|e| e == "jack");
        assert_eq!(has_extension(p, &['a', 's', 'm']), std_asm, "path {:?}", p);
        assert_eq!(has_extension(p, &['j', 'a', 'c', 'k']), std_jack, "path {:?}", p);
    }
}
