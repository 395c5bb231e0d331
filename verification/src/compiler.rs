//! The whole way from source text to assembly text.

use vstd::prelude::*;
use crate::codegen;
use crate::codegen::render::program_text;
use crate::ir_gen;
use crate::ir_gen::lemma_size_bounds;
use crate::lexer::{lex, lex_spec, LexError};
use crate::parser::{lemma_program_size, parse_program_spec, ParseError, Parser};

verus! {

/// Why a source text was not compiled.
#[derive(Debug)]
pub enum CompileError {
    /// The text is not made of tokens.
    Lex(LexError),
    /// The tokens are not a program.
    Parse(ParseError),
    /// The program uses an operator for which no code can be generated, or needs
    /// too large a frame.
    Unsupported,
}

/// Compiles a source text to assembly text.
///
/// The text is split into tokens, the tokens are parsed, the program is lowered
/// to the intermediate representation, and machine code is generated from that
/// and written out. The first stage that fails gives the error.
pub fn compile(source: &str) -> (result: Result<String, CompileError>)
    ensures
        match lex_spec(source@) {
            Err((c, pos)) => result matches Err(CompileError::Lex(LexError::UnknownToken(d, at)))
                && d == c && at == pos,
            Ok(tokens) => match parse_program_spec(tokens).result {
                Err(e) => result matches Err(CompileError::Parse(f)) && f@ == e,
                Ok(program) => {
                    let lowered = ir_gen::lower_program(program);
                    if codegen::supported(lowered) {
                        result matches Ok(text) && text@ == program_text(
                            codegen::generate_spec(lowered),
                        )
                    } else {
                        result matches Err(CompileError::Unsupported)
                    }
                },
            },
        },
{
    let tokens = match lex(source) {
        Ok(tokens) => tokens,
        Err(e) => {
            return Err(CompileError::Lex(e));
        },
    };
    let count = tokens.len();
    let mut parser = Parser::new(tokens);
    let ghost input = parser@;
    assert(input.len() == count);
    let program = match parser.parse_program() {
        Ok(program) => program,
        Err(e) => {
            return Err(CompileError::Parse(e));
        },
    };
    proof {
        lemma_program_size(input);
        lemma_size_bounds(program.function.body.expression());
        assert(program@.function.body == program.function.body);
    }
    let lowered = ir_gen::generate(&program);
    match codegen::try_generate(&lowered) {
        Some(assembly) => Ok(assembly.to_string()),
        None => Err(CompileError::Unsupported),
    }
}

} // verus!
