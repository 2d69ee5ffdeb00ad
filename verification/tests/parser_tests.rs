use what_the_brainfuck::ops::Operation;
use what_the_brainfuck::parser::parse_code;

#[test]
fn parses_all_eight_instructions() {
    assert_eq!(
        parse_code("><+-.,[]"),
        vec![
            Operation::Right,
            Operation::Left,
            Operation::Add,
            Operation::Sub,
            Operation::Output,
            Operation::Input,
            Operation::LeftBracket,
            Operation::RightBracket,
        ]
    );
}

#[test]
fn empty_source_parses_to_empty_program() {
    assert_eq!(parse_code(""), vec![]);
}

#[test]
fn source_with_no_instruction_characters_parses_to_empty_program() {
    assert_eq!(parse_code("hello world! 123 \n\t"), vec![]);
}

#[test]
fn noise_characters_never_affect_the_instruction_sequence() {
    let plain = parse_code("+[>-.]");
    let noisy = parse_code("x+ab[c > z- q.w ]\n");
    assert_eq!(plain, noisy);
    let noisier = parse_code("# + {[} ( > ) ~- ?. \t!]");
    assert_eq!(plain, noisier);
}

#[test]
fn instructions_may_span_line_boundaries() {
    assert_eq!(parse_code("+[\n-]"), parse_code("+[-]"));
}
