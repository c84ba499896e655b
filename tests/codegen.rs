use cahn_lang::codegen::{CodeGenError, CodeGenerator};
use cahn_lang::function::Executable;
use cahn_lang::instruction::Instruction;
use cahn_lang::pipeline::{compile_source, CompileError};

fn compile(source: &str) -> Executable {
    compile_source(source, "test".to_string()).unwrap()
}

fn code(source: &str) -> Vec<u8> {
    compile(source).functions[0].code.clone()
}

/// The script's code after the load of its own function value.
fn body(source: &str) -> Vec<u8> {
    let c = code(source);
    assert_eq!(&c[..5], &[Instruction::LoadFunction as u8, 0, 0, 0, 0]);
    c[5..].to_vec()
}

fn consts(exec: &Executable) -> Vec<String> {
    exec.num_consts.iter().map(|c| c.iter().collect()).collect()
}

#[test]
fn codegen() {
    let code = "print  2 +  2 * 3 + 0.3";
    let ast: String = cahn_lang::pipeline::source_to_sexpr(code).unwrap().iter().collect();
    assert_eq!(ast, "(program (print (+ (+ 2 (* 2 3)) 0.3))\n)");
    let exec = compile(code);
    assert_eq!(consts(&exec), vec!["0.3"]);
    assert_eq!(
        exec.functions[0].code[5..].to_vec(),
        vec![
            Instruction::LoadLitNum as u8, 2, Instruction::LoadLitNum as u8, 2, Instruction::LoadLitNum as u8, 3, Instruction::Mul as u8, Instruction::Add as u8,
            Instruction::LoadConstNum as u8, 0, Instruction::Add as u8, Instruction::Print as u8,
        ]
    );
}

#[test]
fn byte_literals_and_constants() {
    assert_eq!(body("print 0"), vec![Instruction::LoadLitNum as u8, 0, Instruction::Print as u8]);
    assert_eq!(body("print 255"), vec![Instruction::LoadLitNum as u8, 255, Instruction::Print as u8]);
    assert_eq!(body("print 7.000"), vec![Instruction::LoadLitNum as u8, 7, Instruction::Print as u8]);
    let exec = compile("print 256\nprint 0.5\nprint 256");
    assert_eq!(consts(&exec), vec!["256", "0.5"]);
    assert_eq!(
        exec.functions[0].code[5..].to_vec(),
        vec![
            Instruction::LoadConstNum as u8, 0, Instruction::Print as u8, Instruction::LoadConstNum as u8, 1, Instruction::Print as u8,
            Instruction::LoadConstNum as u8, 0, Instruction::Print as u8,
        ]
    );
}

#[test]
fn small_integer_rule() {
    let t = |s: &str| CodeGenerator::small_integer_of(&s.chars().collect::<Vec<char>>());
    assert_eq!(t("0"), Some(0));
    assert_eq!(t("255"), Some(255));
    assert_eq!(t("0255.00"), Some(255));
    assert_eq!(t("256"), None);
    assert_eq!(t("0.5"), None);
    assert_eq!(t("99999999999999999999"), None);
    assert_eq!(t("1."), None);
}

#[test]
fn narrow_and_wide_locals() {
    let mut src = String::new();
    for i in 0..300 {
        src.push_str(&format!("let v{} := {}\n", i, i % 200));
    }
    src.push_str("print v255\nprint v256\nv256 := 1\nv3 := 1\n");
    let c = code(&src);
    // Each of the 300 slots is popped when the outermost scope ends.
    let pops = &c[c.len() - 300..];
    assert!(pops.iter().all(|b| *b == Instruction::Pop as u8));
    let tail = &c[c.len() - 321..c.len() - 300];
    // `print v255` reads slot 256, since slot 0 holds the script itself.
    assert_eq!(&tail[..4], &[Instruction::GetLocalW as u8, 0, 1, Instruction::Print as u8]);
    assert_eq!(&tail[4..8], &[Instruction::GetLocalW as u8, 1, 1, Instruction::Print as u8]);
    assert_eq!(&tail[8..15], &[Instruction::LoadLitNum as u8, 1, Instruction::Dup as u8, Instruction::SetLocalW as u8, 1, 1, Instruction::Pop as u8]);
    assert_eq!(&tail[15..21], &[Instruction::LoadLitNum as u8, 1, Instruction::Dup as u8, Instruction::SetLocal as u8, 4, Instruction::Pop as u8]);
}

#[test]
fn empty_list_has_no_push() {
    assert_eq!(body("[]"), vec![Instruction::CreateList as u8, Instruction::Pop as u8]);
    assert_eq!(
        body("[7, 8]"),
        vec![
            Instruction::CreateListWithCap as u8, 2, Instruction::LoadLitNum as u8, 7, Instruction::ListPush as u8, Instruction::LoadLitNum as u8, 8,
            Instruction::ListPush as u8, Instruction::Pop as u8,
        ]
    );
}

#[test]
fn unresolved_variable_names_the_identifier() {
    match compile_source("print unknown_name", "t".to_string()) {
        Err(CompileError::CodeGen(CodeGenError::UnresolvedVariable { var_token })) => {
            assert_eq!(var_token.pos.column, 7);
        }
        other => panic!("expected an unresolved variable, got {:?}", other.map(|_| ())),
    }
}

#[test]
fn invalid_assignment_target() {
    assert!(matches!(
        compile_source("let x := 1\n1 := x", "t".to_string()),
        Err(CompileError::CodeGen(CodeGenError::InvalidAssignmentTarget { .. }))
    ));
}

#[test]
fn calls_are_not_implemented() {
    assert!(matches!(
        compile_source("let f := 1\nf()", "t".to_string()),
        Err(CompileError::CodeGen(CodeGenError::NotImplemented { .. }))
    ));
    assert!(matches!(
        compile_source("print 2 ** 3", "t".to_string()),
        Err(CompileError::CodeGen(CodeGenError::NotImplemented { .. }))
    ));
}

#[test]
fn same_string_same_range() {
    let exec = compile("print \"hi\"\nprint \"yo\"\nprint \"hi\"");
    let c = &exec.functions[0].code[5..];
    let lit = |k: usize| c[k * 10..k * 10 + 9].to_vec();
    assert_eq!(lit(0), lit(2));
    assert_ne!(lit(0), lit(1));
    assert_eq!(lit(0), vec![Instruction::LoadStringLiteral as u8, 8, 0, 0, 0, 10, 0, 0, 0]);
    let data: String = exec.string_data.iter().collect();
    assert_eq!(data, "CahnMainhiyo");
}

#[test]
fn code_map_matches_code() {
    let exec = compile("let i := 0\nwhile i < 3 { print i; i := i + 1 }\nif i { print [1][0] } else { print \"x\" .. 2 }");
    for f in &exec.functions {
        assert_eq!(f.code.len(), f.code_map.len());
    }
    assert_eq!(exec.source_file, "test");
}

#[test]
fn blocks_pop_their_locals() {
    assert_eq!(
        body("{ let a := 1 let b := 2 }"),
        vec![Instruction::LoadLitNum as u8, 1, Instruction::LoadLitNum as u8, 2, Instruction::Pop as u8, Instruction::Pop as u8]
    );
    assert_eq!(body("let a := 1"), vec![Instruction::LoadLitNum as u8, 1, Instruction::Pop as u8]);
}

#[test]
fn while_jumps_back_to_its_condition() {
    let c = body("while false { }");
    assert_eq!(
        c,
        vec![Instruction::LoadFalse as u8, Instruction::JumpIfFalse as u8, 16, 0, 0, 0, Instruction::Jump as u8, 5, 0, 0, 0]
    );
}

#[test]
fn if_else_jumps() {
    let c = body("if true { } else { }");
    assert_eq!(
        c,
        vec![Instruction::LoadTrue as u8, Instruction::JumpIfFalse as u8, 16, 0, 0, 0, Instruction::Jump as u8, 16, 0, 0, 0]
    );
}
