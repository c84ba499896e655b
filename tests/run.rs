use cahn_lang::function::{CahnFunction, Executable};
use cahn_lang::heap::{MemoryManager, Value};
use cahn_lang::instruction::Instruction;
use cahn_lang::pipeline::source_to_sexpr;
use cahn_lang::token::TokenPos;
use cahn_lang::pipeline::compile_source;
use cahn_lang::vm::{NumericOp, Piece, RuntimeError, Step, VM};

fn number_bits(text: &[char]) -> u64 {
    let s: String = text.iter().collect();
    s.parse::<f64>().unwrap().to_bits()
}

fn format_pieces(pieces: &[Piece]) -> String {
    let mut out = String::new();
    for p in pieces {
        match p {
            Piece::Text(t) => out.extend(t.iter()),
            Piece::Number(bits) => out.push_str(&format!("{}", f64::from_bits(*bits))),
        }
    }
    out
}

fn numeric(op: NumericOp, l: f64, r: f64) -> Result<f64, bool> {
    match op {
        NumericOp::Add => Ok(l + r),
        NumericOp::Sub => Ok(l - r),
        NumericOp::Mul => Ok(l * r),
        NumericOp::Div => Ok(l / r),
        NumericOp::Modulo => Ok(l % r),
        NumericOp::Negate => Ok(-l),
        NumericOp::Less => Err(l < r),
        NumericOp::LessEqual => Err(l <= r),
        NumericOp::Greater => Err(l > r),
        NumericOp::GreaterEqual => Err(l >= r),
        NumericOp::Equal => Err(l == r),
    }
}

fn run_exec(exec: &Executable) -> Result<String, RuntimeError> {
    let consts = exec.num_consts.iter().map(|c| number_bits(c)).collect();
    let bytes = (0..256u32).map(|n| (n as f64).to_bits()).collect();
    let mut vm = VM::new(consts, bytes).unwrap();
    let mut out = String::new();
    loop {
        match vm.step(exec) {
            Step::Continue => {}
            Step::Done => return Ok(out),
            Step::Error(e) => return Err(e),
            Step::Print(pieces) => {
                out.push_str(&format_pieces(&pieces));
                out.push('\n');
            }
            Step::Concat(pieces) => vm.resume_concat(format_pieces(&pieces).chars().collect()),
            Step::Numeric { op, left, right } => {
                match numeric(op, f64::from_bits(left), f64::from_bits(right)) {
                    Ok(n) => vm.resume_number(n.to_bits()),
                    Err(b) => vm.resume_bool(b),
                }
            }
            Step::Index { length, number } => {
                let n = f64::from_bits(number);
                let index = if n < 0.0 || n as usize >= length { None } else { Some(n as usize) };
                vm.resume_index(index)?;
            }
        }
    }
}

fn execute_source_to_string(source: &str, file_name: String) -> String {
    let exec = compile_source(source, file_name).unwrap();
    run_exec(&exec).unwrap()
}

fn run(source: &str) -> Result<String, RuntimeError> {
    run_exec(&compile_source(source, "test".to_string()).unwrap())
}

#[test]
fn basic_if_test() {
    let source = "
        let x := 3
        let y := 8

        if x < y {
            print 1000
        }

        if x > y {
            print 3000
        }

        print 2000
    ";

    let output = execute_source_to_string(source, "inline-test".into());
    assert_eq!(output, "1000\n2000\n");
}

#[test]
fn if_else_test() {
    let source = "if true {
    print 1000
    
    if false { print 2000 }
    else { print 3000 }

    print 4000

} else {
    
    print 5000
    
    if true { print 6000 }
    else { print 7000 }

    print 8000

}

print 9000";

    let output = execute_source_to_string(source, "inline-test".into());
    assert_eq!(output, "1000\n3000\n4000\n9000\n");
}

#[test]
fn arithmetic_prints_a_float() {
    assert_eq!(run("print (2 + 3) * -0.5 / 10 - -5").unwrap(), "4.75\n");
}

#[test]
fn if_without_braces_on_one_line() {
    assert_eq!(
        run("let x := 3\nlet y := 8\nif x < y { print 1000 }\nif x > y { print 3000 }\nprint 2000").unwrap(),
        "1000\n2000\n"
    );
    assert_eq!(
        run("if true { print 1000; if false { print 2000 } else { print 3000 }; print 4000 } else { print 5000 }\nprint 9000").unwrap(),
        "1000\n3000\n4000\n9000\n"
    );
}

#[test]
fn while_counts() {
    assert_eq!(run("let i := 0\nwhile i < 3 { print i; i := i + 1 }").unwrap(), "0\n1\n2\n");
}

#[test]
fn concatenation() {
    assert_eq!(run("print \"hi\" .. \" \" .. \"there\"").unwrap(), "hi there\n");
    assert_eq!(run("print 1 .. true").unwrap(), "1true\n");
}

#[test]
fn list_subscripts() {
    assert_eq!(run("let xs := [10, 20, 30]\nprint xs[0]\nprint xs[2]").unwrap(), "10\n30\n");
    match run("let xs := [10, 20, 30]\nprint xs[5]") {
        Err(RuntimeError::IndexOutOfBounds { index, length }) => {
            assert_eq!(f64::from_bits(index), 5.0);
            assert_eq!(length, 3);
        }
        other => panic!("expected an index error, got {:?}", other),
    }
}

#[test]
fn type_error_at_runtime() {
    assert!(matches!(run("print 1 + true"), Err(RuntimeError::TypeError { .. })));
    assert!(matches!(run("print -\"x\""), Err(RuntimeError::TypeError { .. })));
    assert!(matches!(run("print 5[0]"), Err(RuntimeError::TypeError { .. })));
}

#[test]
fn values_print() {
    assert_eq!(run("print [1, \"a\", [true, false], []]").unwrap(), "[1, a, [true, false], []]\n");
    assert_eq!(run("print not 0\nprint not false").unwrap(), "false\ntrue\n");
    assert_eq!(run("print 1 == 1\nprint \"a\" == \"b\"\nprint 1 != 2").unwrap(), "true\nfalse\ntrue\n");
    assert_eq!(run("print 7 % 4\nprint 1 / 4").unwrap(), "3\n0.25\n");
}

#[test]
fn assignment_is_an_expression() {
    assert_eq!(run("let a := 1\nlet b := 2\nprint a := b + 5\nprint a").unwrap(), "7\n7\n");
}

#[test]
fn strings_from_concat_are_shared() {
    assert_eq!(run("print (\"a\" .. \"b\") == (\"a\" .. \"b\")").unwrap(), "true\n");
}

#[test]
fn collection_keeps_live_lists() {
    let mut src = String::from("let keep := [1, 2, 3];\n");
    for _ in 0..50 {
        src.push_str("[[4], \"x\" .. \"y\"];\n");
    }
    src.push_str("print keep\nprint keep[1]");
    assert_eq!(run(&src).unwrap(), "[1, 2, 3]\n2\n");
}

#[test]
fn full_run_full_run_math() {
    let source = "(2 + 3) * -0.5 / 10 - -5";
    let ast: String = source_to_sexpr(source).unwrap().iter().collect();
    assert_eq!(ast, "(program (- (/ (* ((+ 2 3)) (- 0.5)) 10) (- 5))\n)");
    let printed = run(&format!("print {}", source)).unwrap();
    assert_eq!(printed, "4.75\n");
}

#[test]
fn full_run_math_full_run_math() {
    let source = "(2 + 3) * -0.5 / 10 - -5";
    let ast: String = source_to_sexpr(source).unwrap().iter().collect();
    assert_eq!(ast, "(program (- (/ (* ((+ 2 3)) (- 0.5)) 10) (- 5))\n)");
    assert_eq!(run(source).unwrap(), "");
    assert_eq!(run(&format!("print {}", source)).unwrap(), "4.75\n");
}

#[test]
pub fn vm_test() {
    let code = vec![
        Instruction::LoadConstNum as u8,
        0,
        Instruction::LoadConstNum as u8,
        1,
        Instruction::Add as u8,
        Instruction::Dup as u8,
        Instruction::Print as u8,
        Instruction::LoadConstNum as u8,
        2,
        Instruction::Equal as u8,
    ];
    let code_map = vec![TokenPos::new(1, 1); code.len()];
    let main = CahnFunction::new_anonymous(0, code, code_map);
    let consts = vec![vec!['4'], vec!['5'], vec!['9']];
    let exec = Executable::new(consts, vec![], "vm".to_string(), vec![main]);
    let const_bits = exec.num_consts.iter().map(|c| number_bits(c)).collect();
    let bytes = (0..256u32).map(|n| (n as f64).to_bits()).collect();
    let mut vm = VM::new(const_bits, bytes).unwrap();
    let mut out = String::new();
    loop {
        match vm.step(&exec) {
            Step::Continue => {}
            Step::Done => break,
            Step::Print(p) => {
                out.push_str(&format_pieces(&p));
                out.push('\n');
            }
            Step::Numeric { op, left, right } => match numeric(op, f64::from_bits(left), f64::from_bits(right)) {
                Ok(n) => vm.resume_number(n.to_bits()),
                Err(b) => vm.resume_bool(b),
            },
            other => panic!("unexpected step {:?}", other),
        }
    }
    assert_eq!(out, "9\n");
    assert_eq!(vm.stack().clone(), vec![Value::Bool(true)]);
}

#[test]
fn counters_follow_allocation_and_collection() {
    let mut m = MemoryManager::new();
    let keep = m.alloc_list(&[], 0);
    let _gone = m.alloc_string(&[keep], "x".chars().collect());
    assert_eq!(m.stats(), (2, 0));
    m.gc(&[keep], None);
    assert_eq!(m.stats(), (2, 1));
    m.gc(&[], None);
    assert_eq!(m.stats(), (2, 2));
}
