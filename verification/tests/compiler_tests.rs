use what_the_brainfuck::compiler::compile_code;
use what_the_brainfuck::ops::BrainFuckError;
use what_the_brainfuck::ops::Operation;
use what_the_brainfuck::parser::parse_code;

#[test]
fn balanced_brackets_compile_and_keep_the_code() {
    let code = parse_code("+[>[-]<]");
    let compiled = compile_code(code.clone()).unwrap();
    assert_eq!(compiled.code, code);
}

#[test]
fn jump_table_pairs_nested_brackets_by_nesting_order() {
    // positions: 0 '[' 1 '[' 2 ']' 3 '[' 4 ']' 5 ']'
    let compiled = compile_code(parse_code("[[][]]")).unwrap();
    assert_eq!(compiled.redirection[0], 5);
    assert_eq!(compiled.redirection[5], 0);
    assert_eq!(compiled.redirection[1], 2);
    assert_eq!(compiled.redirection[2], 1);
    assert_eq!(compiled.redirection[3], 4);
    assert_eq!(compiled.redirection[4], 3);
}

#[test]
fn jump_table_is_an_involution_on_bracket_positions() {
    let compiled = compile_code(parse_code("+[->[.[-]],]<[]")).unwrap();
    for (i, op) in compiled.code.iter().enumerate() {
        if *op == Operation::LeftBracket || *op == Operation::RightBracket {
            let j = compiled.redirection[i];
            assert_eq!(compiled.redirection[j], i);
            if *op == Operation::LeftBracket {
                assert!(i < j);
                assert_eq!(compiled.code[j], Operation::RightBracket);
            } else {
                assert!(j < i);
                assert_eq!(compiled.code[j], Operation::LeftBracket);
            }
        }
    }
}

#[test]
fn unmatched_close_bracket_is_a_syntax_error() {
    assert!(matches!(
        compile_code(parse_code("]")),
        Err(BrainFuckError::SyntaxError)
    ));
    assert!(matches!(
        compile_code(parse_code("+]-")),
        Err(BrainFuckError::SyntaxError)
    ));
}

#[test]
fn unmatched_open_bracket_is_a_syntax_error() {
    assert!(matches!(
        compile_code(parse_code("[")),
        Err(BrainFuckError::SyntaxError)
    ));
    assert!(matches!(
        compile_code(parse_code("+[-")),
        Err(BrainFuckError::SyntaxError)
    ));
}

#[test]
fn unmatched_brackets_are_detected_beside_balanced_ones() {
    assert!(matches!(
        compile_code(parse_code("[][")),
        Err(BrainFuckError::SyntaxError)
    ));
    assert!(matches!(
        compile_code(parse_code("[]][]")),
        Err(BrainFuckError::SyntaxError)
    ));
    assert!(matches!(
        compile_code(parse_code("][")),
        Err(BrainFuckError::SyntaxError)
    ));
}

#[test]
fn empty_program_compiles() {
    let compiled = compile_code(parse_code("")).unwrap();
    assert!(compiled.code.is_empty());
}
