//! Source text to syntax tree to executable, with the first error reported.
use vstd::prelude::*;
use crate::ast::ProgramStmt;
use crate::codegen::{CodeGenError, CodeGenerator};
use crate::function::Executable;
use crate::interner::StringInterner;
use crate::lexer::{chars_of_str, Lexer, MAX_SOURCE_CHARS};
use crate::parser::{error_ok, stmts_shaped, ParseError, Parser};
use crate::print::program_to_string;

verus! {

#[derive(Debug)]
pub enum CompileError {
    /// The source has more than `MAX_SOURCE_CHARS` characters.
    SourceTooLarge,
    Parse(ParseError),
    CodeGen(CodeGenError),
}

/// Parses a program; gives the tree and the interner that holds its text.
pub fn parse_source(source: &str) -> (r: Result<(ProgramStmt, StringInterner), CompileError>)
    ensures
        r matches Ok((p, strings)) ==> strings.wf() && stmts_shaped(p.statements.stmts@),
        r is Ok ==> source@.len() <= MAX_SOURCE_CHARS,
        r matches Err(CompileError::Parse(e)) ==> error_ok(e),
        r matches Err(e) ==> (e is SourceTooLarge <==> source@.len() > MAX_SOURCE_CHARS),
{
    let chars = chars_of_str(source);
    if chars.len() > MAX_SOURCE_CHARS {
        return Err(CompileError::SourceTooLarge);
    }
    let mut parser = Parser::new(Lexer::from_chars(chars, StringInterner::new()));
    let parsed = parser.parse_program();
    let strings = parser.into_interner();
    proof {
        parser.lemma_strings_wf();
    }
    match parsed {
        Ok(p) => Ok((p, strings)),
        Err(e) => Err(CompileError::Parse(e)),
    }
}

/// The S-expression of a program's tree.
pub fn source_to_sexpr(source: &str) -> (r: Result<Vec<char>, CompileError>)
    ensures
        r matches Err(e) ==> (e is SourceTooLarge <==> source@.len() > MAX_SOURCE_CHARS),
{
    let (p, strings) = parse_source(source)?;
    Ok(program_to_string(&strings, &p))
}

/// Compiles a program into an executable whose one function is the script.
pub fn compile_source(source: &str, file_name: String) -> (r: Result<Executable, CompileError>)
    ensures
        r matches Ok(exec) ==> {
            &&& exec.functions@.len() == 1
            &&& forall|i: int|
                0 <= i < exec.functions@.len() ==> (#[trigger] exec.functions@[i]).code@.len()
                    == exec.functions@[i].code_map@.len()
            &&& exec.source_file@ == file_name@
        },
        r matches Err(e) ==> (e is SourceTooLarge <==> source@.len() > MAX_SOURCE_CHARS),
{
    let (p, strings) = parse_source(source)?;
    match CodeGenerator::gen_executable(file_name, &p, &strings) {
        Ok(exec) => Ok(exec),
        Err(e) => Err(CompileError::CodeGen(e)),
    }
}

} // verus!
