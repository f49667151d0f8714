use hack_toolchain::args::check_valid_jack_files;
use hack_toolchain::compile::{CompilationEngine, CompileError, Construct};
use hack_toolchain::symbol::SymbolError;
use hack_toolchain::tokenizer::{JackTokenizer, TokenType, TokenizeError};
use hack_toolchain::writer::{Commands, VMSegment, VmWriter};

#[test]
fn validate_jack_files_invalid_args() {
    // No file system is consulted here: the paths below hold no `.jack`
    // files, so the list of files found under them is empty.
    let too_little_arguments = vec!["test".to_string()];
    let too_many_arguments = vec!["test".to_string(), "test2".to_string(), "test3".to_string()];
    let bad_file_path = vec!["test".to_string(), "something.jak".to_string()];
    let missing_single_jack_file = vec!["test".to_string(), "hello.jack".to_string()];
    let missing_multi_jack_files = vec!["test".to_string(), "./hello".to_string()];
    let result_too_little = check_valid_jack_files(&too_little_arguments, Vec::new());
    let result_too_many = check_valid_jack_files(&too_many_arguments, Vec::new());
    let result_bad_path = check_valid_jack_files(&bad_file_path, Vec::new());
    let result_missing_single_jack_file = check_valid_jack_files(&missing_single_jack_file, Vec::new());
    let result_missing_multi_jack_files = check_valid_jack_files(&missing_multi_jack_files, Vec::new());
    assert!(result_too_little.is_err());
    assert!(result_too_many.is_err());
    assert!(result_bad_path.is_err());
    assert!(result_missing_single_jack_file.is_err());
    assert!(result_missing_multi_jack_files.is_err());
}

#[test]
fn validate_tokenization() {
    let mut dummy_tokenizer = JackTokenizer::new("function void main(){var SquareGame game;let game2 = 2;do game.run();do game.dispose();let game3 = \"hello\";return;}".to_string());
    let mut correct_tokens = Vec::new();
    correct_tokens.push(("function", TokenType::Keyword));
    correct_tokens.push(("void", TokenType::Keyword));
    correct_tokens.push(("main", TokenType::Identifier));
    correct_tokens.push(("(", TokenType::Symbol));
    correct_tokens.push((")", TokenType::Symbol));
    correct_tokens.push(("{", TokenType::Symbol));
    correct_tokens.push(("var", TokenType::Keyword));
    correct_tokens.push(("SquareGame", TokenType::Identifier));
    correct_tokens.push(("game", TokenType::Identifier));
    correct_tokens.push((";", TokenType::Symbol));
    correct_tokens.push(("let", TokenType::Keyword));
    correct_tokens.push(("game2", TokenType::Identifier));
    correct_tokens.push(("=", TokenType::Symbol));
    correct_tokens.push(("2", TokenType::IntConstant));
    correct_tokens.push((";", TokenType::Symbol));
    correct_tokens.push(("do", TokenType::Keyword));
    correct_tokens.push(("game", TokenType::Identifier));
    correct_tokens.push((".", TokenType::Symbol));
    correct_tokens.push(("run", TokenType::Identifier));
    correct_tokens.push(("(", TokenType::Symbol));
    correct_tokens.push((")", TokenType::Symbol));
    correct_tokens.push((";", TokenType::Symbol));
    correct_tokens.push(("do", TokenType::Keyword));
    correct_tokens.push(("game", TokenType::Identifier));
    correct_tokens.push((".", TokenType::Symbol));
    correct_tokens.push(("dispose", TokenType::Identifier));
    correct_tokens.push(("(", TokenType::Symbol));
    correct_tokens.push((")", TokenType::Symbol));
    correct_tokens.push((";", TokenType::Symbol));
    correct_tokens.push(("let", TokenType::Keyword));
    correct_tokens.push(("game3", TokenType::Identifier));
    correct_tokens.push(("=", TokenType::Symbol));
    correct_tokens.push(("hello", TokenType::StringConst));
    correct_tokens.push((";", TokenType::Symbol));
    correct_tokens.push(("return", TokenType::Keyword));
    correct_tokens.push((";", TokenType::Symbol));
    correct_tokens.push(("}", TokenType::Symbol));
    let mut count = 0;
    while !dummy_tokenizer.get_file_content().is_empty() {
        if dummy_tokenizer.advance().is_ok() {
            let (correct_token, correct_token_type) = &correct_tokens[count];
            let token = dummy_tokenizer.get_token();
            let token_type = dummy_tokenizer.get_token_type();
            assert_eq!(correct_token.to_string(), token.to_string());
            assert_eq!(correct_token_type, token_type);
            count += 1;
        }
    }
    assert_eq!(count, correct_tokens.len());
}

#[test]
fn validate_writes() {
    let dummy_class_name = String::from("dummy_output");
    let mut correct_output = Vec::new();
    let mut dummy_writer = VmWriter::new(dummy_class_name.clone());
    assert!(dummy_writer.write_push(&VMSegment::LOCAL, 0).is_ok());
    correct_output.push("push local 0");
    assert!(dummy_writer.write_pop(&VMSegment::STATIC, 0).is_ok());
    correct_output.push("pop static 0");
    assert!(dummy_writer.write_return().is_ok());
    correct_output.push("return");
    assert!(dummy_writer.write_arithmetic(&Commands::EQ).is_ok());
    correct_output.push("eq");
    assert!(dummy_writer.write_call("test_function", 2).is_ok());
    correct_output.push("call test_function 2");
    assert!(dummy_writer.write_function("test_function", 1).is_ok());
    correct_output.push("function dummy_output.test_function 1");
    assert!(dummy_writer.write_goto(0).is_ok());
    correct_output.push("goto dummy_output_0");
    assert!(dummy_writer.write_if(1).is_ok());
    correct_output.push("if-goto dummy_output_1");
    assert!(dummy_writer.write_label(3).is_ok());
    correct_output.push("label dummy_output_3");

    let dummy_output_string = dummy_writer.get_output().to_string();
    let mut vec_index = 0;
    for curr_line in dummy_output_string.lines() {
        assert_eq!(*curr_line, **correct_output.get(vec_index).unwrap());
        vec_index += 1;
    }
    assert_eq!(vec_index, correct_output.len());
}

#[test]
fn compile_function_with_call() {
    let source = "class Main {\n    function void main() {\n        do Output.printInt(1 + 2);\n        return;\n    }\n}\n";
    let mut engine = CompilationEngine::new(source.to_string(), "Main".to_string());
    assert!(engine.compile_class().is_ok());
    let expected = "function Main.main 0\npush constant 1\npush constant 2\nadd\ncall Output.printInt 1\npop temp 0\npush constant 0\nreturn\n";
    assert_eq!(engine.get_output(), expected);
}

#[test]
fn compile_class_with_fields_methods_and_control_flow() {
    let source = "// A point.\nclass Point {\n    field int x, y;\n    static int count;\n    /* Makes a point. */\n    constructor Point new(int ax, int ay) {\n        let x = ax;\n        let y = ay;\n        let count = count + 1;\n        return this;\n    }\n    method int getX() {\n        return x;\n    }\n    method void loop(int n) {\n        var int i;\n        var Array a;\n        let i = 0;\n        while (i < n) {\n            let a[i] = i;\n            let i = i + 1;\n        }\n        if (i = n) {\n            do Output.printString(\"ok\");\n        }\n        else {\n            do draw();\n        }\n        return;\n    }\n}\n";
    let mut engine = CompilationEngine::new(source.to_string(), "Point".to_string());
    assert!(engine.compile_class().is_ok());
    let expected = [
        "function Point.new 0",
        "push constant 2",
        "call Memory.alloc 1",
        "pop pointer 0",
        "push argument 0",
        "pop this 0",
        "push argument 1",
        "pop this 1",
        "push static 0",
        "push constant 1",
        "add",
        "pop static 0",
        "push pointer 0",
        "return",
        "function Point.getX 0",
        "push argument 0",
        "pop pointer 0",
        "push this 0",
        "return",
        "function Point.loop 2",
        "push argument 0",
        "pop pointer 0",
        "push constant 0",
        "pop local 0",
        "label Point_0",
        "push local 0",
        "push argument 1",
        "lt",
        "not",
        "if-goto Point_1",
        "push local 0",
        "push local 1",
        "add",
        "push local 0",
        "pop temp 0",
        "pop pointer 1",
        "push temp 0",
        "pop that 0",
        "push local 0",
        "push constant 1",
        "add",
        "pop local 0",
        "goto Point_0",
        "label Point_1",
        "push local 0",
        "push argument 1",
        "eq",
        "not",
        "if-goto Point_3",
        "push constant 2",
        "call String.new 1",
        "push constant 111",
        "call String.appendChar 2",
        "push constant 107",
        "call String.appendChar 2",
        "call Output.printString 1",
        "pop temp 0",
        "goto Point_2",
        "label Point_3",
        "push pointer 0",
        "call Point.draw 1",
        "pop temp 0",
        "label Point_2",
        "push constant 0",
        "return",
    ];
    let output = engine.get_output().to_string();
    let lines: Vec<&str> = output.lines().collect();
    assert_eq!(lines, expected.to_vec());
}

#[test]
fn compile_rejects_undefined_variable() {
    let source = "class Main {\nfunction void main() {\nlet x = 1;\nreturn;\n}\n}";
    let mut engine = CompilationEngine::new(source.to_string(), "Main".to_string());
    let result = engine.compile_class();
    match result {
        Err(e) => {
            assert_eq!(e, CompileError::BadToken(Construct::Statements, "x".to_string()));
            assert_eq!(
                e.message(),
                "Statements compilation failed, invalid token type or wrong token: x"
            );
        },
        Ok(()) => panic!("an undefined variable was accepted"),
    }
    assert_eq!(engine.get_output(), "function Main.main 0\n");
}

#[test]
fn compile_rejects_missing_class_keyword() {
    let mut engine = CompilationEngine::new("function void main() {}".to_string(), "Main".to_string());
    assert_eq!(
        engine.compile_class(),
        Err(CompileError::BadToken(Construct::Class, "function".to_string()))
    );
    assert_eq!(engine.get_output(), "");
}

#[test]
fn compile_rejects_redefined_variable() {
    let source = "class Main {\nfield int x;\nfield int x;\n}";
    let mut engine = CompilationEngine::new(source.to_string(), "Main".to_string());
    assert_eq!(
        engine.compile_class(),
        Err(CompileError::Symbol(SymbolError::AlreadyDefined))
    );
}

#[test]
fn compile_reports_end_of_text() {
    let mut engine = CompilationEngine::new("class Main {".to_string(), "Main".to_string());
    assert_eq!(
        engine.compile_class(),
        Err(CompileError::Tokenize(TokenizeError::NoMoreTokens))
    );
}

#[test]
fn compile_let_constant_and_return_product() {
    let source = "class Main {\nfunction int main() {\nvar int x;\nlet x = 7;\nreturn 2 * 3;\n}\n}\n";
    let mut engine = CompilationEngine::new(source.to_string(), "Main".to_string());
    assert!(engine.compile_class().is_ok());
    let expected = "function Main.main 1\npush constant 7\npop local 0\npush constant 2\npush constant 3\ncall Math.multiply 2\nreturn\n";
    assert_eq!(engine.get_output(), expected);
}

#[test]
fn compile_reports_bad_separator_in_call() {
    let source = "class Main {\nfunction void main() {\ndo f(1 2);\nreturn;\n}\n}\n";
    let mut engine = CompilationEngine::new(source.to_string(), "Main".to_string());
    assert_eq!(
        engine.compile_class(),
        Err(CompileError::BadToken(Construct::ExpressionList, "2".to_string()))
    );
}

#[test]
fn compile_reports_empty_string_as_separator() {
    let source = "class Main {\nfunction void main() {\ndo f(1 \"\");\nreturn;\n}\n}\n";
    let mut engine = CompilationEngine::new(source.to_string(), "Main".to_string());
    assert_eq!(
        engine.compile_class(),
        Err(CompileError::BadToken(Construct::ExpressionList, String::new()))
    );
}
