use rlox::chunk::OpCode;
use rlox::compiler::Compiler;
use rlox::scanner::Scanner;

#[test]
fn compiling_a_number_yields_load_then_return() {
    let program = Compiler::new(Scanner::new("3.0")).compile().unwrap();
    assert_eq!(program.literal.content, "3.0");
    assert_eq!(program.literal.line, 1);
    assert_eq!(program.return_line, 1);
    let value: f64 = program.literal.content.parse().unwrap();
    let chunk = program.emit(value.to_bits());
    // Decoded instructions are exactly [load constant 3.0, Return].
    let first = chunk.decode_at(0);
    assert_eq!(first.op, OpCode::Constant);
    assert_eq!(first.constant, Some((0, 3.0f64.to_bits())));
    let second = chunk.decode_at(first.width);
    assert_eq!(second.op, OpCode::Return);
    assert_eq!(second.constant, None);
    assert_eq!(first.width + second.width, chunk.code.len());
}

#[test]
fn emit_records_the_literal_and_return_lines() {
    let source = "\n\n7";
    let program = Compiler::new(Scanner::new(source)).compile().unwrap();
    assert_eq!(program.literal.line, 3);
    assert_eq!(program.return_line, 3);
    let chunk = program.emit(7.0f64.to_bits());
    assert_eq!(chunk.get_line(0), 3);
    assert_eq!(chunk.get_line(2), 3);
}

#[test]
fn trailing_tokens_fail_with_consume_message() {
    let err = Compiler::new(Scanner::new("3.0 4.0")).compile().unwrap_err();
    assert_eq!(
        err.message,
        "Expect end of expression. - Expected token type EndOfFile: Got Number"
    );
}

#[test]
fn unhandled_token_kind_fails_with_its_name() {
    let err = Compiler::new(Scanner::new("fun")).compile().unwrap_err();
    assert_eq!(err.message, "Don't know token yet: Fun");
    let err = Compiler::new(Scanner::new("")).compile().unwrap_err();
    assert_eq!(err.message, "Don't know token yet: EndOfFile");
    let err = Compiler::new(Scanner::new("(")).compile().unwrap_err();
    assert_eq!(err.message, "Don't know token yet: LeftParen");
}
