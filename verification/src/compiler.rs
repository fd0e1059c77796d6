//! The single-pass compiler: it drives the scanner with one token of
//! lookahead and plans the chunk to emit.
//!
//! Parsing a number literal into a double happens outside this library (it
//! is floating-point work), so compilation is split in two verified halves:
//! [`Compiler::compile`] checks the token sequence and returns the literal
//! token and the line for the return instruction, and
//! [`CompiledProgram::emit`] builds the chunk once the caller has turned the
//! lexeme into a value's bit pattern.

use vstd::prelude::*;

use crate::chunk::{spec_constant_encoding, spec_opcode_byte, spec_put, Chunk, OpCode, Value};
use crate::scanner::{spec_scan_token, spec_scanner_wf, spec_tokens, Scanner};
use crate::token::{LineNo, Token};
use crate::token_type::{spec_token_type_name, TokenType};

verus! {

/// A compile-time failure: a single message string.
#[derive(Debug)]
pub struct CompilerError {
    pub message: String,
}

/// The message reported for a token kind the expression parser does not
/// handle yet.
pub open spec fn spec_unknown_token_message(t: TokenType) -> Seq<char> {
    "Don't know token yet: "@ + spec_token_type_name(t)
}

/// The message reported when the token kind `got` arrives where `expected`
/// was required.
pub open spec fn spec_consume_error_message(
    msg: Seq<char>,
    expected: TokenType,
    got: TokenType,
) -> Seq<char> {
    msg + " - Expected token type "@ + spec_token_type_name(expected) + ": Got "@
        + spec_token_type_name(got)
}

/// The message reported when no token at all is left where `expected` was
/// required.
pub open spec fn spec_no_tokens_message(msg: Seq<char>, expected: TokenType) -> Seq<char> {
    msg + " - Expected token type "@ + spec_token_type_name(expected) + ": No tokens left"@
}

/// What a successful compilation of the current language subset yields: the
/// number literal to load and the line of the end-of-input token, where the
/// return instruction is recorded.
#[derive(Debug)]
pub struct CompiledProgram<'a> {
    pub literal: Token<'a>,
    pub return_line: LineNo,
}

impl<'a> CompiledProgram<'a> {
    /// Build the finished chunk: one instruction loading `value` at the
    /// literal's line, then a return at the recorded line.
    pub fn emit(&self, value: Value) -> (c: Chunk)
        ensures
            c.wf(),
            c.constants@ == seq![value],
            c.code@ == spec_constant_encoding(0).push(spec_opcode_byte(OpCode::Return)),
            c.lines@ == spec_put(
                spec_put(
                    spec_put(Seq::<usize>::empty(), self.literal@.line as int),
                    self.literal@.line as int,
                ),
                self.return_line as int,
            ),
    {
        let mut chunk = Chunk::new_chunk();
        chunk.write_constant(value, self.literal.line as usize);
        chunk.write_op_code(OpCode::Return, self.return_line as usize);
        proof {
            assert(chunk.code@ =~= spec_constant_encoding(0).push(
                spec_opcode_byte(OpCode::Return),
            ));
        }
        chunk
    }
}

/// The single-pass compiler: the scanner it drains and its one token of
/// lookahead (`current`), with the token consumed before it (`previous`).
pub struct Compiler<'a> {
    scanner: Scanner<'a>,
    previous: Option<Token<'a>>,
    current: Option<Token<'a>>,
}

impl<'a> Compiler<'a> {
    pub open spec fn wf(&self) -> bool {
        spec_scanner_wf(self.spec_scanner())
    }

    pub closed spec fn spec_scanner(&self) -> crate::scanner::ScannerView {
        self.scanner@
    }

    pub closed spec fn spec_current(&self) -> Option<Token<'a>> {
        self.current
    }

    pub fn new(scanner: Scanner<'a>) -> (r: Compiler<'a>)
        ensures
            r.spec_scanner() == scanner@,
            r.spec_current() is None,
            scanner.wf() ==> r.wf(),
    {
        Compiler { scanner, previous: None, current: None }
    }

    /// Shift the lookahead: `current` moves to `previous`, the scanner's
    /// next token (if any) becomes `current`.
    fn advance(&mut self)
        requires
            old(self).wf(),
        ensures
            final(self).wf(),
            final(self).previous == old(self).current,
            final(self).scanner@.source == old(self).scanner@.source,
            old(self).scanner@.done ==> final(self).current is None && final(self).scanner@ == old(
                self,
            ).scanner@,
            !old(self).scanner@.done ==> ({
                let (t, p, l) = spec_scan_token(
                    old(self).scanner@.source,
                    old(self).scanner@.pos,
                    old(self).scanner@.line,
                );
                &&& final(self).current is Some
                &&& final(self).current->Some_0@ == t
                &&& final(self).scanner@.pos == p
                &&& final(self).scanner@.line == l
                &&& (final(self).scanner@.done <==> t.token_type == TokenType::EndOfFile)
            }),
    {
        self.previous = self.current;
        self.current = self.scanner.next();
    }

    /// Parse one expression: today exactly a number literal, whose token is
    /// returned for the caller to evaluate; any other token kind fails.
    fn expression(&mut self) -> (r: Result<Token<'a>, CompilerError>)
        requires
            old(self).wf(),
            old(self).current is Some,
        ensures
            final(self).scanner@.source == old(self).scanner@.source,
            final(self).wf(),
            old(self).current->Some_0.token_type == TokenType::Number ==> ({
                &&& r is Ok
                &&& r->Ok_0 == old(self).current->Some_0
                &&& final(self).previous == old(self).current
                &&& (!old(self).scanner@.done ==> ({
                    let (t, p, l) = spec_scan_token(
                        old(self).scanner@.source,
                        old(self).scanner@.pos,
                        old(self).scanner@.line,
                    );
                    &&& final(self).current is Some
                    &&& final(self).current->Some_0@ == t
                    &&& final(self).scanner@.pos == p
                    &&& final(self).scanner@.line == l
                    &&& (final(self).scanner@.done <==> t.token_type == TokenType::EndOfFile)
                }))
                &&& (old(self).scanner@.done ==> final(self).current is None
                    && final(self).scanner@ == old(self).scanner@)
            }),
            old(self).current->Some_0.token_type != TokenType::Number ==> ({
                &&& r is Err
                &&& r->Err_0.message@ == spec_unknown_token_message(
                    old(self).current->Some_0.token_type,
                )
                &&& *final(self) == *old(self)
            }),
    {
        let token = self.current.unwrap();
        if token.token_type == TokenType::Number {
            self.advance();
            Ok(token)
        } else {
            let mut message = String::from_str("Don't know token yet: ");
            message.append(token.token_type.name());
            Err(CompilerError { message })
        }
    }

    /// Check that the lookahead has the expected kind and advance past it;
    /// otherwise fail with a message combining `error_message_input` with
    /// the expected kind and the actual kind, or with the absence of any
    /// token, leaving the compiler untouched.
    fn consume(&mut self, expected: TokenType, error_message_input: &str) -> (r: Result<
        (),
        CompilerError,
    >)
        requires
            old(self).wf(),
        ensures
            final(self).wf(),
            final(self).scanner@.source == old(self).scanner@.source,
            old(self).current is None ==> ({
                &&& r is Err
                &&& r->Err_0.message@ == spec_no_tokens_message(error_message_input@, expected)
                &&& *final(self) == *old(self)
            }),
            old(self).current is Some && old(self).current->Some_0.token_type == expected ==> ({
                &&& r is Ok
                &&& final(self).previous == old(self).current
                &&& (!old(self).scanner@.done ==> ({
                    let (t, p, l) = spec_scan_token(
                        old(self).scanner@.source,
                        old(self).scanner@.pos,
                        old(self).scanner@.line,
                    );
                    &&& final(self).current is Some
                    &&& final(self).current->Some_0@ == t
                    &&& final(self).scanner@.pos == p
                    &&& final(self).scanner@.line == l
                    &&& (final(self).scanner@.done <==> t.token_type == TokenType::EndOfFile)
                }))
                &&& (old(self).scanner@.done ==> final(self).current is None
                    && final(self).scanner@ == old(self).scanner@)
            }),
            old(self).current is Some && old(self).current->Some_0.token_type != expected ==> ({
                &&& r is Err
                &&& r->Err_0.message@ == spec_consume_error_message(
                    error_message_input@,
                    expected,
                    old(self).current->Some_0.token_type,
                )
                &&& *final(self) == *old(self)
            }),
    {
        let mut error_message = String::from_str(error_message_input);
        error_message.append(" - Expected token type ");
        error_message.append(expected.name());
        if self.current.is_none() {
            error_message.append(": No tokens left");
            return Err(CompilerError { message: error_message });
        }
        let token = self.current.unwrap();
        if token.token_type != expected {
            error_message.append(": Got ");
            error_message.append(token.token_type.name());
            return Err(CompilerError { message: error_message });
        }
        self.advance();
        Ok(())
    }

    /// Compile the scanner's whole token sequence: prime the lookahead,
    /// parse one expression, and require the end of the input, yielding the
    /// literal token and the line for the return instruction. The first
    /// failure aborts compilation with its message.
    pub fn compile(self) -> (r: Result<CompiledProgram<'a>, CompilerError>)
        requires
            self.wf(),
            !self.spec_scanner().done,
        ensures
            ({
                let ts = spec_tokens(
                    self.spec_scanner().source,
                    self.spec_scanner().pos,
                    self.spec_scanner().line,
                );
                &&& (ts[0].token_type == TokenType::Number && ts[1].token_type
                    == TokenType::EndOfFile) ==> {
                    &&& r is Ok
                    &&& r->Ok_0.literal@ == ts[0]
                    &&& r->Ok_0.return_line == ts[1].line
                }
                &&& (ts[0].token_type == TokenType::Number && ts[1].token_type
                    != TokenType::EndOfFile) ==> {
                    &&& r is Err
                    &&& r->Err_0.message@ == spec_consume_error_message(
                        "Expect end of expression."@,
                        TokenType::EndOfFile,
                        ts[1].token_type,
                    )
                }
                &&& ts[0].token_type != TokenType::Number ==> {
                    &&& r is Err
                    &&& r->Err_0.message@ == spec_unknown_token_message(ts[0].token_type)
                }
            }),
    {
        let ghost src = self.spec_scanner().source;
        let ghost pos0 = self.spec_scanner().pos;
        let ghost line0 = self.spec_scanner().line;
        let ghost ts = spec_tokens(src, pos0, line0);
        let mut this = self;
        this.advance();
        let ghost t0 = spec_scan_token(src, pos0, line0).0;
        proof {
            assert(ts[0] == t0);
        }
        let literal = match this.expression() {
            Ok(token) => token,
            Err(e) => {
                return Err(e);
            },
        };
        proof {
            if t0.token_type != TokenType::EndOfFile {
                let p1 = spec_scan_token(src, pos0, line0).1;
                let l1 = spec_scan_token(src, pos0, line0).2;
                assert(ts == seq![t0] + spec_tokens(src, p1, l1));
                assert(ts[1] == spec_tokens(src, p1, l1)[0]);
                assert(ts[1] == spec_scan_token(src, p1, l1).0);
            }
        }
        match this.consume(TokenType::EndOfFile, "Expect end of expression.") {
            Ok(u) => u,
            Err(e) => {
                return Err(e);
            },
        };
        let return_line = this.previous.unwrap().line;
        Ok(CompiledProgram { literal, return_line })
    }
}

} // verus!
