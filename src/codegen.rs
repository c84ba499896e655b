//! The code generator: resolves names to stack slots and emits bytecode with
//! a source position for every byte.
use vstd::prelude::*;
use crate::ast::{BlockStmt, Expr, IfStmt, ProgramStmt, Stmt, StmtList, WhileStmt};
use crate::function::{CahnFunction, Executable, FunctionName};
use crate::instruction::{op_byte, stack_effect, Instruction};
use crate::interner::{chars_of, Atom, StringInterner};
use crate::lexer::is_digit;
use crate::reader::{le_u16, le_u32};
use crate::token::{Token, TokenPos, TokenType};

verus! {

#[derive(Debug)]
pub enum CodeGenError {
    UnresolvedVariable { var_token: Token },
    InvalidAssignmentTarget { message: String },
    TooManyParameters { count: usize, max: usize },
    /// A local slot beyond the widest operand (`u16::MAX`).
    TooManyLocals { index: usize },
    /// Syntax that the generator does not compile: calls, function
    /// declarations, `return`, `**` and `//`.
    NotImplemented { token: Token },
    /// Code, constants or string data past what a `u32` operand addresses.
    ProgramTooLarge,
}

/// The value of a digit.
pub open spec fn digit_value(c: char) -> nat {
    ((c as int) - ('0' as int)) as nat
}

/// The value of a run of decimal digits.
pub open spec fn dec_value(d: Seq<char>) -> nat
    decreases d.len(),
{
    if d.len() == 0 {
        0
    } else {
        dec_value(d.drop_last()) * 10 + digit_value(d.last())
    }
}

pub open spec fn all_digits(d: Seq<char>) -> bool {
    forall|i: int| 0 <= i < d.len() ==> is_digit(#[trigger] d[i])
}

pub open spec fn all_zeros(d: Seq<char>) -> bool {
    forall|i: int| 0 <= i < d.len() ==> #[trigger] d[i] == '0'
}

/// The index of the first dot at or after `i`, or the length.
pub open spec fn dot_from(t: Seq<char>, i: int) -> int
    decreases t.len() - i,
{
    if i < 0 || i >= t.len() {
        t.len() as int
    } else if t[i] == '.' {
        i
    } else {
        dot_from(t, i + 1)
    }
}

/// The byte that a number literal's text stands for, where it is an
/// integer from 0 to 255: digits, then optionally a dot and digits that are
/// all zero.
pub open spec fn small_integer(t: Seq<char>) -> Option<u8> {
    let dot = dot_from(t, 0);
    let ip = t.subrange(0, dot);
    let fp = if dot < t.len() {
        t.subrange(dot + 1, t.len() as int)
    } else {
        Seq::<char>::empty()
    };
    if ip.len() > 0 && all_digits(ip) && (dot < t.len() ==> fp.len() > 0) && all_digits(fp)
        && all_zeros(fp) && dec_value(ip) <= 255 {
        Some(dec_value(ip) as u8)
    } else {
        None
    }
}

/// The first position of `a` in `atoms` from `i` on, or the length.
pub open spec fn first_index(atoms: Seq<Atom>, a: Atom, i: int) -> int
    decreases atoms.len() - i,
{
    if i < 0 || i >= atoms.len() {
        atoms.len() as int
    } else if atoms[i] == a {
        i
    } else {
        first_index(atoms, a, i + 1)
    }
}

/// The text of an atom where its range lies in `t`, else nothing.
pub open spec fn lexeme_text(t: Seq<char>, a: Atom) -> Seq<char> {
    if a.start <= a.end <= t.len() {
        chars_of(t, a)
    } else {
        Seq::<char>::empty()
    }
}

/// `n` pops.
pub open spec fn pops(n: nat) -> Seq<u8> {
    Seq::new(n, |_i: int| op_byte(Instruction::Pop))
}

/// Two bytes, little-endian.
pub open spec fn le2(v: nat) -> Seq<u8> {
    seq![(v % 256) as u8, ((v / 256) % 256) as u8]
}

/// Four bytes, little-endian.
pub open spec fn le4(v: nat) -> Seq<u8> {
    le2(v % 65536) + le2(v / 65536)
}

/// The bytes of a load of local slot `i`.
pub open spec fn get_local_code(i: nat) -> Seq<u8> {
    if i <= 255 {
        seq![op_byte(Instruction::GetLocal), i as u8]
    } else {
        seq![op_byte(Instruction::GetLocalW)] + le2(i)
    }
}

/// The bytes of a store to local slot `i`.
pub open spec fn set_local_code(i: nat) -> Seq<u8> {
    if i <= 255 {
        seq![op_byte(Instruction::SetLocal), i as u8]
    } else {
        seq![op_byte(Instruction::SetLocalW)] + le2(i)
    }
}

/// The bytes of a load of numeric constant `i`.
pub open spec fn load_const_code(i: nat) -> Seq<u8> {
    if i <= 255 {
        seq![op_byte(Instruction::LoadConstNum), i as u8]
    } else if i <= 65535 {
        seq![op_byte(Instruction::LoadConstNumW)] + le2(i)
    } else {
        seq![op_byte(Instruction::LoadConstNumWW)] + le4(i)
    }
}

pub proof fn lemma_le2(v: nat)
    requires
        v < 65536,
    ensures
        le_u16(le2(v), 0) == v,
{
}

pub proof fn lemma_le4(v: nat)
    requires
        v < 4294967296,
    ensures
        le_u32(le4(v), 0) == v,
{
    lemma_le2(v % 65536);
    lemma_le2(v / 65536);
    let b = le4(v);
    assert(b[0] == le2(v % 65536)[0]);
    assert(b[1] == le2(v % 65536)[1]);
    assert(b[2] == le2(v / 65536)[0]);
    assert(b[3] == le2(v / 65536)[1]);
}

/// The range paired with atom `a` in a table of atoms and ranges.
pub open spec fn range_in(atoms: Seq<Atom>, ranges: Seq<(u32, u32)>, a: Atom) -> Option<(u32, u32)> {
    if exists|i: int| 0 <= i < atoms.len() && atoms[i] == a {
        let i = choose|i: int| 0 <= i < atoms.len() && atoms[i] == a;
        Some(ranges[i])
    } else {
        None
    }
}

/// Whether some slot of the table is named `a`.
pub open spec fn declared(locals: Seq<Local>, a: Atom) -> bool {
    exists|j: int| 0 <= j < locals.len() && (#[trigger] locals[j]).name == Some(a)
}

/// The binary operators that code is generated for.
pub open spec fn infix_supported(t: TokenType) -> bool {
    t == TokenType::Plus || t == TokenType::Minus || t == TokenType::Star || t == TokenType::Slash
        || t == TokenType::Percent || t == TokenType::DoubleEqual || t == TokenType::Less || t
        == TokenType::LessEqual || t == TokenType::Greater || t == TokenType::GreaterEqual || t
        == TokenType::DoubleDot || t == TokenType::BangEqual
}

/// Something in the expression that no code can be generated for: a name
/// with no slot, an operator without an instruction, an assignment to
/// anything but a variable, or a call.
pub open spec fn expr_fault(e: Expr, locals: Seq<Local>) -> bool
    decreases e, 0nat,
{
    match e {
        Expr::Var(v) => !declared(locals, v.identifier.lexeme),
        Expr::Group(g) => expr_fault(g.inner, locals),
        Expr::Prefix(p) => expr_fault(p.inner, locals) || !(p.operator.token_type == TokenType::Minus
            || p.operator.token_type == TokenType::Not),
        Expr::Infix(i) => if i.operator.token_type == TokenType::ColonEqual {
            !(i.left is Var) || !declared(locals, i.left->Var_0.identifier.lexeme) || expr_fault(
                i.right,
                locals,
            )
        } else {
            expr_fault(i.left, locals) || expr_fault(i.right, locals) || !infix_supported(
                i.operator.token_type,
            )
        },
        Expr::List(l) => elems_fault(l.elements@, locals),
        Expr::Subscript(s) => expr_fault(s.subscriptee, locals) || expr_fault(s.index, locals),
        Expr::Call(_) => true,
        _ => false,
    }
}

pub open spec fn elems_fault(es: Seq<Expr>, locals: Seq<Local>) -> bool
    decreases es, 0nat,
{
    if es.len() == 0 {
        false
    } else {
        elems_fault(es.drop_last(), locals) || expr_fault(es.last(), locals)
    }
}

proof fn lemma_patch(x: Seq<u8>, y: Seq<u8>, v: nat)
    ensures
        ({
            let c = x + le4(0) + y;
            c.subrange(0, x.len() as int) + le4(v) + c.subrange(x.len() + 4int, c.len() as int) == x + le4(v) + y
        }),
{
    let c = x + le4(0) + y;
    assert(c.subrange(0, x.len() as int) =~= x);
    assert(c.subrange(x.len() + 4int, c.len() as int) =~= y);
}

proof fn lemma_elems_fault(es: Seq<Expr>, locals: Seq<Local>, k: int)
    requires
        0 <= k < es.len(),
        expr_fault(es[k], locals),
    ensures
        elems_fault(es, locals),
    decreases es.len(),
{
    if k < es.len() - 1 {
        assert(es.drop_last()[k] == es[k]);
        lemma_elems_fault(es.drop_last(), locals, k);
    }
}

proof fn lemma_first_index_bound(atoms: Seq<Atom>, a: Atom, i: int)
    requires
        0 <= i <= atoms.len(),
    ensures
        i <= first_index(atoms, a, i) <= atoms.len(),
    decreases atoms.len() - i,
{
    if i < atoms.len() && atoms[i] != a {
        lemma_first_index_bound(atoms, a, i + 1);
    }
}

/// Errors that come from a size limit rather than from the program's text.
pub open spec fn limit_error(e: CodeGenError) -> bool {
    e is ProgramTooLarge || e is TooManyLocals
}

/// The slot that a statement adds to its scope: one for `let`.
pub open spec fn decl_local(s: Stmt, level: int) -> Seq<Local> {
    if s is VarDecl {
        seq![Local { name: Some(s->VarDecl_0.identifier.lexeme), scope_level: level as usize }]
    } else {
        Seq::<Local>::empty()
    }
}

/// The slots that a list of statements adds to its scope.
pub open spec fn decls(ss: Seq<Stmt>, level: int) -> Seq<Local>
    decreases ss.len(),
{
    if ss.len() == 0 {
        Seq::<Local>::empty()
    } else {
        decls(ss.drop_last(), level) + decl_local(ss.last(), level)
    }
}

/// Something in the statement that no code can be generated for, with
/// `locals` in scope and the statement at scope `level`: a faulty
/// expression, a function declaration or a `return`.
pub open spec fn stmt_fault(s: Stmt, locals: Seq<Local>, level: int) -> bool
    decreases s, 0nat,
{
    match s {
        Stmt::Print(p) => expr_fault(p.inner, locals),
        Stmt::VarDecl(v) => expr_fault(v.init_expr, locals),
        Stmt::Block(b) => stmts_fault(b.statements.stmts@, locals, level + 1),
        Stmt::If(i) => expr_fault(i.condition, locals) || stmts_fault(
            i.then_clause.statements.stmts@,
            locals,
            level + 1,
        ) || (i.else_clause matches Some(e) && stmt_fault(*e, locals, level + 1)),
        Stmt::While(w) => expr_fault(w.condition, locals) || stmts_fault(
            w.block.statements.stmts@,
            locals,
            level + 1,
        ),
        Stmt::ExprStmt(e) => expr_fault(e.expr, locals),
        Stmt::FnDecl(_) => true,
        Stmt::Return(_) => true,
    }
}

/// A statement of the list is faulty, with the slots of those before it in
/// scope.
pub open spec fn stmts_fault(ss: Seq<Stmt>, locals: Seq<Local>, level: int) -> bool
    decreases ss, 0nat,
{
    if ss.len() == 0 {
        false
    } else {
        stmts_fault(ss.drop_last(), locals, level) || stmt_fault(
            ss.last(),
            locals + decls(ss.drop_last(), level),
            level,
        )
    }
}

proof fn lemma_stmts_fault_prefix(ss: Seq<Stmt>, k: int, locals: Seq<Local>, level: int)
    requires
        0 <= k <= ss.len(),
        stmts_fault(ss.subrange(0, k), locals, level),
    ensures
        stmts_fault(ss, locals, level),
    decreases ss.len(),
{
    if k == ss.len() {
        assert(ss.subrange(0, k) =~= ss);
    } else {
        assert(ss.drop_last().subrange(0, k) =~= ss.subrange(0, k));
        lemma_stmts_fault_prefix(ss.drop_last(), k, locals, level);
    }
}

/// What of the generator decides the code for an expression: the slots,
/// the atoms of the numeric constants, the atoms and ranges of the string
/// literals, and the length of the string data.
pub type GenState = (Seq<Local>, Seq<Atom>, Seq<Atom>, Seq<(u32, u32)>, nat);

/// The slot a name resolves to: the last one with that name, or -1.
pub open spec fn slot_of(ls: Seq<Local>, a: Atom) -> int
    decreases ls.len(),
{
    if ls.len() == 0 {
        -1
    } else if ls.last().name == Some(a) {
        ls.len() - 1
    } else {
        slot_of(ls.drop_last(), a)
    }
}

proof fn lemma_slot_of(ls: Seq<Local>, a: Atom, i: int)
    requires
        resolves_to(ls, a, i),
    ensures
        slot_of(ls, a) == i,
    decreases ls.len(),
{
    if i < ls.len() - 1 {
        assert(ls.last() == ls[ls.len() - 1]);
        assert forall|j: int| i < j < ls.drop_last().len() implies (#[trigger] ls.drop_last()[j]).name != Some(a) by {
            assert(ls.drop_last()[j] == ls[j]);
        }
        assert(ls.drop_last()[i] == ls[i]);
        lemma_slot_of(ls.drop_last(), a, i);
    }
}

/// The code and next state for a number literal.
pub open spec fn number_code(st: GenState, lexeme: Atom, t: Seq<char>) -> (Seq<u8>, GenState) {
    match small_integer(lexeme_text(t, lexeme)) {
        Some(n) => (seq![op_byte(Instruction::LoadLitNum), n], st),
        None => {
            let i = first_index(st.1, lexeme, 0);
            (load_const_code(i as nat), if i < st.1.len() {
                st
            } else {
                (st.0, st.1.push(lexeme), st.2, st.3, st.4)
            })
        },
    }
}

pub open spec fn string_load(q: (u32, u32)) -> Seq<u8> {
    seq![op_byte(Instruction::LoadStringLiteral)] + le4(q.0 as nat) + le4(q.1 as nat)
}

/// The code and next state for a string literal with atom `a`.
pub open spec fn string_code(st: GenState, a: Atom, t: Seq<char>) -> (Seq<u8>, GenState) {
    match range_in(st.2, st.3, a) {
        Some(q) => (string_load(q), st),
        None => {
            let n = lexeme_text(t, a).len();
            let q = (st.4 as u32, (st.4 + n) as u32);
            (string_load(q), (st.0, st.1, st.2.push(a), st.3.push(q), st.4 + n))
        },
    }
}

pub open spec fn infix_code(t: TokenType) -> Seq<u8> {
    if t == TokenType::BangEqual {
        seq![op_byte(Instruction::Equal), op_byte(Instruction::Not)]
    } else if t == TokenType::Plus {
        seq![op_byte(Instruction::Add)]
    } else if t == TokenType::Minus {
        seq![op_byte(Instruction::Sub)]
    } else if t == TokenType::Star {
        seq![op_byte(Instruction::Mul)]
    } else if t == TokenType::Slash {
        seq![op_byte(Instruction::Div)]
    } else if t == TokenType::Percent {
        seq![op_byte(Instruction::Modulo)]
    } else if t == TokenType::DoubleEqual {
        seq![op_byte(Instruction::Equal)]
    } else if t == TokenType::Less {
        seq![op_byte(Instruction::LessThan)]
    } else if t == TokenType::LessEqual {
        seq![op_byte(Instruction::LessThanOrEqual)]
    } else if t == TokenType::Greater {
        seq![op_byte(Instruction::GreaterThan)]
    } else if t == TokenType::GreaterEqual {
        seq![op_byte(Instruction::GreaterThanOrEqual)]
    } else {
        seq![op_byte(Instruction::Concat)]
    }
}

/// The instruction that creates a list of `n` elements.
pub open spec fn list_header(n: nat) -> Seq<u8> {
    if n == 0 {
        seq![op_byte(Instruction::CreateList)]
    } else if n <= 255 {
        seq![op_byte(Instruction::CreateListWithCap), n as u8]
    } else if n <= 65535 {
        seq![op_byte(Instruction::CreateListWithCapW)] + le2(n)
    } else {
        seq![op_byte(Instruction::CreateListWithCapW)] + le2(65535)
    }
}

/// The code of an expression without faults, and the generator's state after
/// it: operands before their operator, an assignment's value then `Dup` and
/// the store, a list's header then each element and `ListPush`.
pub open spec fn expr_code(e: Expr, st: GenState, t: Seq<char>) -> (Seq<u8>, GenState)
    decreases e, 0nat,
{
    match e {
        Expr::Number(n) => number_code(st, n.token.lexeme, t),
        Expr::String(s) => string_code(st, s.string, t),
        Expr::Bool(b) => (seq![op_byte(if b.value { Instruction::LoadTrue } else { Instruction::LoadFalse })], st),
        Expr::Var(v) => (get_local_code(slot_of(st.0, v.identifier.lexeme) as nat), st),
        Expr::Group(g) => expr_code(g.inner, st, t),
        Expr::Prefix(p) => {
            let (c, s1) = expr_code(p.inner, st, t);
            (c + seq![op_byte(if p.operator.token_type == TokenType::Minus {
                Instruction::Negate
            } else {
                Instruction::Not
            })], s1)
        },
        Expr::Infix(i) => if i.operator.token_type == TokenType::ColonEqual {
            let (c, s1) = expr_code(i.right, st, t);
            (c + seq![op_byte(Instruction::Dup)] + set_local_code(
                slot_of(st.0, i.left->Var_0.identifier.lexeme) as nat,
            ), s1)
        } else {
            let (c1, s1) = expr_code(i.left, st, t);
            let (c2, s2) = expr_code(i.right, s1, t);
            (c1 + c2 + infix_code(i.operator.token_type), s2)
        },
        Expr::List(l) => {
            let (c, s1) = elems_code(l.elements@, st, t);
            (list_header(l.elements@.len()) + c, s1)
        },
        Expr::Subscript(s) => {
            let (c1, s1) = expr_code(s.subscriptee, st, t);
            let (c2, s2) = expr_code(s.index, s1, t);
            (c1 + c2 + seq![op_byte(Instruction::ListGetIndex)], s2)
        },
        Expr::Call(_) => (Seq::<u8>::empty(), st),
    }
}

/// Each element's code followed by `ListPush`.
pub open spec fn elems_code(es: Seq<Expr>, st: GenState, t: Seq<char>) -> (Seq<u8>, GenState)
    decreases es, 0nat,
{
    if es.len() == 0 {
        (Seq::<u8>::empty(), st)
    } else {
        let (c0, s0) = elems_code(es.drop_last(), st, t);
        let (c1, s1) = expr_code(es.last(), s0, t);
        (c0 + c1 + seq![op_byte(Instruction::ListPush)], s1)
    }
}

/// The state after a scope: its own slots are gone again.
pub open spec fn leave_scope(outer: GenState, inner: GenState) -> GenState {
    (outer.0, inner.1, inner.2, inner.3, inner.4)
}

/// The code of a statement without faults, at scope `level`, whose code
/// starts at offset `at`; and the state after it. Jumps carry absolute
/// targets: an `if` jumps past its then-part (and the `Jump` that skips the
/// else-part), a `while` jumps past its loop and back to its condition.
pub open spec fn stmt_code(s: Stmt, st: GenState, level: int, at: nat, t: Seq<char>) -> (Seq<u8>, GenState)
    decreases s, 0nat,
{
    match s {
        Stmt::Print(p) => {
            let (c, s1) = expr_code(p.inner, st, t);
            (c + seq![op_byte(Instruction::Print)], s1)
        },
        Stmt::VarDecl(v) => {
            let (c, s1) = expr_code(v.init_expr, st, t);
            (c, (s1.0.push(Local { name: Some(v.identifier.lexeme), scope_level: level as usize }), s1.1, s1.2, s1.3, s1.4))
        },
        Stmt::ExprStmt(e) => {
            let (c, s1) = expr_code(e.expr, st, t);
            (c + seq![op_byte(Instruction::Pop)], s1)
        },
        Stmt::Block(b) => block_code(b.statements.stmts@, st, level, at, t),
        Stmt::If(i) => {
            let (c1, s1) = expr_code(i.condition, st, t);
            let p_then = at + c1.len() + 5;
            let (c2, s2) = block_code(i.then_clause.statements.stmts@, s1, level, p_then, t);
            match i.else_clause {
                None => (c1 + seq![op_byte(Instruction::JumpIfFalse)] + le4(p_then + c2.len()) + c2, s2),
                Some(e) => {
                    let p_else = p_then + c2.len() + 5;
                    let (c3, s3) = scoped_code(*e, s2, level, p_else, t);
                    (c1 + seq![op_byte(Instruction::JumpIfFalse)] + le4(p_else) + c2 + seq![
                        op_byte(Instruction::Jump),
                    ] + le4(p_else + c3.len()) + c3, s3)
                },
            }
        },
        Stmt::While(w) => {
            let (c1, s1) = expr_code(w.condition, st, t);
            let p_body = at + c1.len() + 5;
            let (c2, s2) = block_code(w.block.statements.stmts@, s1, level, p_body, t);
            (c1 + seq![op_byte(Instruction::JumpIfFalse)] + le4(p_body + c2.len() + 5) + c2 + seq![
                op_byte(Instruction::Jump),
            ] + le4(at), s2)
        },
        Stmt::FnDecl(_) => (Seq::<u8>::empty(), st),
        Stmt::Return(_) => (Seq::<u8>::empty(), st),
    }
}

/// A block: its statements one scope deeper, then a `Pop` for each slot
/// they declared.
pub open spec fn block_code(ss: Seq<Stmt>, st: GenState, level: int, at: nat, t: Seq<char>) -> (Seq<u8>, GenState)
    decreases ss, 1nat,
{
    let (c, s1) = stmts_code(ss, st, level + 1, at, t);
    (c + pops((s1.0.len() - st.0.len()) as nat), leave_scope(st, s1))
}

/// A statement in a scope of its own.
pub open spec fn scoped_code(s: Stmt, st: GenState, level: int, at: nat, t: Seq<char>) -> (Seq<u8>, GenState)
    decreases s, 1nat,
{
    let (c, s1) = stmt_code(s, st, level + 1, at, t);
    (c + pops((s1.0.len() - st.0.len()) as nat), leave_scope(st, s1))
}

/// The statements' code, one after the other.
pub open spec fn stmts_code(ss: Seq<Stmt>, st: GenState, level: int, at: nat, t: Seq<char>) -> (Seq<u8>, GenState)
    decreases ss, 0nat,
{
    if ss.len() == 0 {
        (Seq::<u8>::empty(), st)
    } else {
        let (c0, s0) = stmts_code(ss.drop_last(), st, level, at, t);
        let (c1, s1) = stmt_code(ss.last(), s0, level, at + c0.len(), t);
        (c0 + c1, s1)
    }
}

/// The code of the script: the load of its own function value, then the
/// program in the outermost scope, whose slots are popped at its end.
pub open spec fn script_code(p: ProgramStmt, t: Seq<char>) -> Seq<u8> {
    let st = (seq![Local { name: None, scope_level: 0 }], Seq::<Atom>::empty(), Seq::<Atom>::empty(), Seq::<(u32, u32)>::empty(), 8nat);
    seq![op_byte(Instruction::LoadFunction)] + le4(0) + block_code(p.statements.stmts@, st, 0, 5, t).0
}

/// A slot of the stack frame: named by a `let`, or unnamed for the callee.
#[derive(Debug, Clone, Copy, PartialEq, Eq, Structural)]
pub struct Local {
    pub name: Option<Atom>,
    pub scope_level: usize,
}

/// The most recent slot named `name`, looking from the end.
pub open spec fn resolves_to(locals: Seq<Local>, name: Atom, i: int) -> bool {
    &&& 0 <= i < locals.len()
    &&& locals[i].name == Some(name)
    &&& forall|j: int| i < j < locals.len() ==> (#[trigger] locals[j]).name != Some(name)
}

pub struct CodeGenerator {
    num_consts: Vec<Vec<char>>,
    num_const_atoms: Vec<Atom>,
    string_data: Vec<char>,
    string_atoms: Vec<Atom>,
    string_ranges: Vec<(u32, u32)>,
    code: Vec<u8>,
    code_map: Vec<TokenPos>,
    current_source_position: TokenPos,
    locals: Vec<Local>,
    scope_level: usize,
    /// The sum of the stack effects of all instructions emitted so far.
    net: Ghost<int>,
}

impl CodeGenerator {
    pub closed spec fn wf(&self) -> bool {
        &&& self.code@.len() == self.code_map@.len()
        &&& self.num_consts@.len() == self.num_const_atoms@.len()
        &&& self.string_atoms@.len() == self.string_ranges@.len()
        &&& forall|i: int, j: int|
            0 <= i < j < self.string_atoms@.len() ==> self.string_atoms@[i]
                != self.string_atoms@[j]
        &&& forall|i: int|
            0 <= i < self.locals@.len() ==> (#[trigger] self.locals@[i]).scope_level
                <= self.scope_level
        &&& forall|i: int, j: int|
            0 <= i < j < self.locals@.len() ==> (#[trigger] self.locals@[i]).scope_level
                <= (#[trigger] self.locals@[j]).scope_level
    }

    /// Everything but the code, its map and the position stay as they were.
    pub closed spec fn same_tables(&self, o: &Self) -> bool {
        &&& self.num_consts@ == o.num_consts@
        &&& self.num_const_atoms@ == o.num_const_atoms@
        &&& self.string_data@ == o.string_data@
        &&& self.string_atoms@ == o.string_atoms@
        &&& self.string_ranges@ == o.string_ranges@
        &&& self.locals@ == o.locals@
        &&& self.scope_level == o.scope_level
    }

    pub closed spec fn code(&self) -> Seq<u8> {
        self.code@
    }

    pub closed spec fn code_map(&self) -> Seq<TokenPos> {
        self.code_map@
    }

    pub closed spec fn locals(&self) -> Seq<Local> {
        self.locals@
    }

    pub closed spec fn scope(&self) -> usize {
        self.scope_level
    }

    /// What decides the code of the next expression.
    pub closed spec fn state(&self) -> GenState {
        (self.locals@, self.num_const_atoms@, self.string_atoms@, self.string_ranges@, self.string_data@.len())
    }

    /// A size that an operand cannot address is reached: code or constants
    /// past `u32`, string data that cannot take `extra` more characters, a
    /// slot past `u16`, or the deepest scope.
    pub closed spec fn at_limit(&self, extra: nat) -> bool {
        ||| self.code@.len() > 0xffff_ffff
        ||| self.num_consts@.len() > 0xffff_ffff
        ||| self.string_data@.len() + extra > 0xffff_ffff
        ||| self.locals@.len() > 65536
        ||| self.scope_level == usize::MAX
    }

    /// The string literals' table of `earlier` is kept, in order, in `self`.
    pub closed spec fn string_table_extends(&self, earlier: &Self) -> bool {
        &&& earlier.string_atoms@.is_prefix_of(self.string_atoms@)
        &&& earlier.string_ranges@.is_prefix_of(self.string_ranges@)
    }

    /// The string data gathered so far.
    pub closed spec fn data(&self) -> Seq<char> {
        self.string_data@
    }

    pub closed spec fn net_effect(&self) -> int {
        self.net@
    }

    /// The range given to the string literal with atom `a`, if it has one.
    pub closed spec fn string_range(&self, a: Atom) -> Option<(u32, u32)> {
        range_in(self.string_atoms@, self.string_ranges@, a)
    }

    pub fn new() -> (r: Self)
        ensures
            r.wf(),
            r.code().len() == 0,
            r.locals().len() == 0,
            r.scope() == 0,
            r.net_effect() == 0,
            r.data().len() == 0,
            r.state() == (Seq::<Local>::empty(), Seq::<Atom>::empty(), Seq::<Atom>::empty(), Seq::<(u32, u32)>::empty(), 0nat),
    {
        CodeGenerator {
            num_consts: Vec::new(),
            num_const_atoms: Vec::new(),
            string_data: Vec::new(),
            string_atoms: Vec::new(),
            string_ranges: Vec::new(),
            code: Vec::new(),
            code_map: Vec::new(),
            current_source_position: TokenPos::new(1, 1),
            locals: Vec::new(),
            scope_level: 0,
            net: Ghost(0),
        }
    }

    fn set_source_pos(&mut self, pos: TokenPos)
        ensures
            final(self).state() == old(self).state(),
            final(self).code@ == old(self).code@,
            *final(self) == (CodeGenerator { current_source_position: pos, ..*old(self) }),
    {
        self.current_source_position = pos;
    }

    fn emit_byte(&mut self, byte: u8)
        requires
            old(self).code@.len() == old(self).code_map@.len(),
        ensures
            final(self).code@.len() == final(self).code_map@.len(),
            final(self).state() == old(self).state(),
            final(self).same_tables(&*old(self)),
            old(self).wf() ==> final(self).wf(),
            final(self).code@ == old(self).code@.push(byte),
            final(self).locals@ == old(self).locals@,
            final(self).scope_level == old(self).scope_level,
            final(self).net@ == old(self).net@,
            final(self).string_atoms@ == old(self).string_atoms@,
            final(self).string_ranges@ == old(self).string_ranges@,
    {
        self.code.push(byte);
        self.code_map.push(self.current_source_position);
    }

    fn emit_instruction(&mut self, op: Instruction)
        requires
            old(self).code@.len() == old(self).code_map@.len(),
        ensures
            final(self).code@.len() == final(self).code_map@.len(),
            final(self).state() == old(self).state(),
            final(self).same_tables(&*old(self)),
            old(self).wf() ==> final(self).wf(),
            final(self).code@ == old(self).code@.push(op_byte(op)),
            final(self).locals@ == old(self).locals@,
            final(self).scope_level == old(self).scope_level,
            final(self).net@ == old(self).net@ + stack_effect(op),
            final(self).string_atoms@ == old(self).string_atoms@,
            final(self).string_ranges@ == old(self).string_ranges@,
    {
        self.emit_byte(op.opcode());
        self.net = Ghost(self.net@ + stack_effect(op));
    }

    fn emit_u16(&mut self, v: u16)
        requires
            old(self).code@.len() == old(self).code_map@.len(),
        ensures
            final(self).code@.len() == final(self).code_map@.len(),
            final(self).state() == old(self).state(),
            final(self).same_tables(&*old(self)),
            old(self).wf() ==> final(self).wf(),
            final(self).code@ == old(self).code@ + le2(v as nat),
            final(self).locals@ == old(self).locals@,
            final(self).scope_level == old(self).scope_level,
            final(self).net@ == old(self).net@,
            final(self).string_atoms@ == old(self).string_atoms@,
            final(self).string_ranges@ == old(self).string_ranges@,
    {
        self.emit_byte((v % 256) as u8);
        self.emit_byte(((v / 256) % 256) as u8);
        assert(self.code@ =~= old(self).code@ + le2(v as nat));
    }

    fn emit_u32(&mut self, v: u32)
        requires
            old(self).code@.len() == old(self).code_map@.len(),
        ensures
            final(self).code@.len() == final(self).code_map@.len(),
            final(self).state() == old(self).state(),
            final(self).same_tables(&*old(self)),
            old(self).wf() ==> final(self).wf(),
            final(self).code@ == old(self).code@ + le4(v as nat),
            final(self).locals@ == old(self).locals@,
            final(self).scope_level == old(self).scope_level,
            final(self).net@ == old(self).net@,
            final(self).string_atoms@ == old(self).string_atoms@,
            final(self).string_ranges@ == old(self).string_ranges@,
    {
        self.emit_u16((v % 65536) as u16);
        self.emit_u16((v / 65536) as u16);
        assert(self.code@ =~= old(self).code@ + le4(v as nat));
    }

    fn begin_scope(&mut self) -> (r: Result<(), CodeGenError>)
        requires
            old(self).wf(),
        ensures
            final(self).wf(),
            final(self).code@ == old(self).code@,
            final(self).locals@ == old(self).locals@,
            final(self).net@ == old(self).net@,
            final(self).string_atoms@ == old(self).string_atoms@,
            final(self).string_ranges@ == old(self).string_ranges@,
            r is Ok ==> final(self).scope_level == old(self).scope_level + 1,
            r is Err ==> final(self).scope_level == old(self).scope_level,
            r matches Err(e) ==> e is ProgramTooLarge && old(self).scope_level == usize::MAX,
            final(self).state() == old(self).state(),
    {
        if self.scope_level == usize::MAX {
            return Err(CodeGenError::ProgramTooLarge);
        }
        self.scope_level = self.scope_level + 1;
        Ok(())
    }

    /// Leaves a scope: pops, with a `Pop` each, the slots of deeper scopes.
    fn end_scope(&mut self)
        requires
            old(self).wf(),
            old(self).scope_level >= 1,
        ensures
            final(self).wf(),
            final(self).scope_level == old(self).scope_level - 1,
            final(self).locals@.len() <= old(self).locals@.len(),
            old(self).code@.len() <= final(self).code@.len(),
            final(self).code@ == old(self).code@ + pops((old(self).locals@.len() - final(self).locals@.len()) as nat),
            final(self).locals@ == old(self).locals@.subrange(0, final(self).locals@.len() as int),
            forall|i: int|
                final(self).locals@.len() <= i < old(self).locals@.len() ==> (#[trigger] old(self).locals@[i]).scope_level > final(self).scope_level,
            final(self).locals@.len() > 0 ==> final(self).locals@.last().scope_level
                <= final(self).scope_level,
            final(self).net@ == old(self).net@ - (old(self).locals@.len()
                - final(self).locals@.len()),
            final(self).num_const_atoms@ == old(self).num_const_atoms@,
            final(self).string_data@ == old(self).string_data@,
            final(self).string_atoms@ == old(self).string_atoms@,
            final(self).string_ranges@ == old(self).string_ranges@,
    {
        self.scope_level = self.scope_level - 1;
        loop
            invariant
                self.code@.len() == self.code_map@.len(),
                self.num_consts@.len() == self.num_const_atoms@.len(),
                self.string_atoms@.len() == self.string_ranges@.len(),
                self.num_const_atoms@ == old(self).num_const_atoms@,
                self.string_atoms@ == old(self).string_atoms@,
                self.string_ranges@ == old(self).string_ranges@,
                self.scope_level == old(self).scope_level - 1,
                self.locals@.len() <= old(self).locals@.len(),
                old(self).code@.len() <= self.code@.len(),
                self.code@ == old(self).code@ + pops((old(self).locals@.len() - self.locals@.len()) as nat),
                self.locals@ == old(self).locals@.subrange(0, self.locals@.len() as int),
                forall|i: int|
                    self.locals@.len() <= i < old(self).locals@.len() ==> (#[trigger] old(self).locals@[i]).scope_level > self.scope_level,
                self.num_consts@ == old(self).num_consts@,
                self.num_const_atoms@ == old(self).num_const_atoms@,
                self.string_data@ == old(self).string_data@,
                self.net@ == old(self).net@ - (old(self).locals@.len() - self.locals@.len()),
            ensures
                self.locals@.len() > 0 ==> self.locals@.last().scope_level <= self.scope_level,
            decreases self.locals@.len(),
        {
            let n = self.locals.len();
            if n == 0 || self.locals[n - 1].scope_level <= self.scope_level {
                break;
            }
            let ghost c0 = self.code@;
            self.emit_instruction(Instruction::Pop);
            self.locals.pop();
            assert(self.code@ =~= old(self).code@ + pops((old(self).locals@.len() - self.locals@.len()) as nat));
        }
        assert forall|i: int, j: int| 0 <= i < j < self.locals@.len() implies (#[trigger] self.locals@[i]).scope_level
            <= (#[trigger] self.locals@[j]).scope_level by {
            assert(self.locals@[i] == old(self).locals@[i]);
            assert(self.locals@[j] == old(self).locals@[j]);
        }
        assert forall|i: int| 0 <= i < self.locals@.len() implies (#[trigger] self.locals@[i]).scope_level
            <= self.scope_level by {
            let n = self.locals@.len();
            assert(self.locals@[i] == old(self).locals@[i]);
            assert(self.locals@[n - 1] == old(self).locals@[n - 1]);
        }
    }

    fn declare_local(&mut self, name: Option<Atom>) -> (r: usize)
        requires
            old(self).wf(),
        ensures
            final(self).wf(),
            r == old(self).locals@.len(),
            final(self).locals@ == old(self).locals@.push(
                Local { name, scope_level: old(self).scope_level },
            ),
            final(self).code@ == old(self).code@,
            final(self).scope_level == old(self).scope_level,
            final(self).net@ == old(self).net@,
            final(self).num_const_atoms@ == old(self).num_const_atoms@,
            final(self).string_data@ == old(self).string_data@,
            final(self).string_atoms@ == old(self).string_atoms@,
            final(self).string_ranges@ == old(self).string_ranges@,
    {
        let local_index = self.locals.len();
        self.locals.push(Local { name, scope_level: self.scope_level });
        local_index
    }

    /// The most recently declared slot named `name`.
    fn get_local_index(&self, name: Atom) -> (r: Option<usize>)
        ensures
            r matches Some(i) ==> resolves_to(self.locals@, name, i as int),
            r is None ==> forall|j: int|
                0 <= j < self.locals@.len() ==> (#[trigger] self.locals@[j]).name != Some(name),
    {
        let mut i = self.locals.len();
        while i > 0
            invariant
                i <= self.locals@.len(),
                forall|j: int|
                    i <= j < self.locals@.len() ==> (#[trigger] self.locals@[j]).name != Some(name),
            decreases i,
        {
            i = i - 1;
            match self.locals[i].name {
                Some(n) => {
                    if n == name {
                        return Some(i);
                    }
                },
                None => {},
            }
        }
        None
    }

    fn get_local_index_by_token(&self, identifier: &Token) -> (r: Result<usize, CodeGenError>)
        ensures
            r matches Ok(i) ==> resolves_to(self.locals@, identifier.lexeme, i as int),
            r matches Err(e) ==> e is UnresolvedVariable,
            r is Err ==> forall|j: int|
                0 <= j < self.locals@.len() ==> (#[trigger] self.locals@[j]).name != Some(
                    identifier.lexeme,
                ),
    {
        match self.get_local_index(identifier.lexeme) {
            Some(i) => Ok(i),
            None => Err(CodeGenError::UnresolvedVariable { var_token: *identifier }),
        }
    }

    fn emit_get_local_instruction(&mut self, index: usize) -> (r: Result<(), CodeGenError>)
        requires
            old(self).wf(),
        ensures
            final(self).wf(),
            r matches Err(e) ==> e is TooManyLocals,
            final(self).state() == old(self).state(),
            r is Ok <==> index <= 65535,
            r is Ok ==> final(self).code@ == old(self).code@ + get_local_code(index as nat),
            r is Err ==> final(self).code@ == old(self).code@,
            final(self).locals@ == old(self).locals@,
            final(self).scope_level == old(self).scope_level,
            r is Ok ==> final(self).net@ == old(self).net@ + 1,
            final(self).string_atoms@ == old(self).string_atoms@,
            final(self).string_ranges@ == old(self).string_ranges@,
    {
        if index <= 255 {
            self.emit_instruction(Instruction::GetLocal);
            self.emit_byte(index as u8);
            assert(self.code@ =~= old(self).code@ + get_local_code(index as nat));
            Ok(())
        } else if index <= 65535 {
            self.emit_instruction(Instruction::GetLocalW);
            self.emit_u16(index as u16);
            assert(self.code@ =~= old(self).code@ + get_local_code(index as nat));
            Ok(())
        } else {
            Err(CodeGenError::TooManyLocals { index })
        }
    }

    fn emit_set_local_instruction(&mut self, index: usize) -> (r: Result<(), CodeGenError>)
        requires
            old(self).wf(),
        ensures
            final(self).wf(),
            r matches Err(e) ==> e is TooManyLocals,
            final(self).state() == old(self).state(),
            r is Ok <==> index <= 65535,
            r is Ok ==> final(self).code@ == old(self).code@ + set_local_code(index as nat),
            r is Err ==> final(self).code@ == old(self).code@,
            final(self).locals@ == old(self).locals@,
            final(self).scope_level == old(self).scope_level,
            r is Ok ==> final(self).net@ == old(self).net@ - 1,
            final(self).string_atoms@ == old(self).string_atoms@,
            final(self).string_ranges@ == old(self).string_ranges@,
    {
        if index <= 255 {
            self.emit_instruction(Instruction::SetLocal);
            self.emit_byte(index as u8);
            assert(self.code@ =~= old(self).code@ + set_local_code(index as nat));
            Ok(())
        } else if index <= 65535 {
            self.emit_instruction(Instruction::SetLocalW);
            self.emit_u16(index as u16);
            assert(self.code@ =~= old(self).code@ + set_local_code(index as nat));
            Ok(())
        } else {
            Err(CodeGenError::TooManyLocals { index })
        }
    }

    /// The byte value of a number literal's text, where it is an integer
    /// from 0 to 255.
    pub fn small_integer_of(t: &[char]) -> (r: Option<u8>)
        ensures
            r == small_integer(t@),
    {
        let n = t.len();
        let mut dot: usize = 0;
        while dot < n && t[dot] != '.'
            invariant
                dot <= n == t@.len(),
                dot_from(t@, dot as int) == dot_from(t@, 0),
            decreases n - dot,
        {
            dot = dot + 1;
        }
        assert(dot_from(t@, dot as int) == dot);
        let ghost ip = t@.subrange(0, dot as int);
        if dot == 0 {
            return None;
        }
        let mut acc: u32 = 0;
        let mut k: usize = 0;
        while k < dot
            invariant
                dot <= n == t@.len(),
                dot_from(t@, 0) == dot,
                k <= dot,
                ip == t@.subrange(0, dot as int),
                all_digits(t@.subrange(0, k as int)),
                acc <= 256,
                acc == (if dec_value(t@.subrange(0, k as int)) < 256 {
                    dec_value(t@.subrange(0, k as int))
                } else {
                    256
                }),
            decreases dot - k,
        {
            let c = t[k];
            if !('0' <= c && c <= '9') {
                assert(ip[k as int] == c);
                assert(!all_digits(ip));
                assert(dot_from(t@, 0) == dot);
                assert(t@.subrange(0, dot_from(t@, 0)) == ip);
                assert(small_integer(t@) is None);
                return None;
            }
            let d = (c as u32) - 48;
            let ghost pre = t@.subrange(0, k as int);
            let ghost next = t@.subrange(0, k + 1);
            assert(next.drop_last() =~= pre);
            assert(next.last() == c);
            assert(dec_value(next) == dec_value(pre) * 10 + digit_value(c));
            acc = if acc * 10 + d < 256 {
                acc * 10 + d
            } else {
                256
            };
            k = k + 1;
            assert forall|i: int| 0 <= i < next.len() implies is_digit(#[trigger] next[i]) by {
                if i < k - 1 {
                    assert(next[i] == pre[i]);
                }
            }
        }
        assert(t@.subrange(0, dot as int) == ip);
        if dot < n {
            if dot + 1 == n {
                return None;
            }
            let mut j = dot + 1;
            while j < n
                invariant
                    dot + 1 <= j <= n == t@.len(),
                    dot_from(t@, 0) == dot,
                    forall|i: int| dot + 1 <= i < j ==> #[trigger] t@[i] == '0',
                decreases n - j,
            {
                if t[j] != '0' {
                    let ghost fp = t@.subrange(dot + 1, n as int);
                    assert(fp[j - dot - 1] == t@[j as int]);
                    assert(!all_zeros(fp));
                    return None;
                }
                j = j + 1;
            }
            let ghost fp = t@.subrange(dot + 1, n as int);
            assert forall|i: int| 0 <= i < fp.len() implies #[trigger] fp[i] == '0' by {
                assert(fp[i] == t@[dot + 1 + i]);
            }
        }
        if acc <= 255 {
            Some(acc as u8)
        } else {
            None
        }
    }

    /// The index of the constant table entry for the literal with atom
    /// `lexeme`, added with text `text` if it has none yet.
    fn num_const_index(&mut self, lexeme: Atom, text: Vec<char>) -> (r: usize)
        requires
            old(self).wf(),
        ensures
            final(self).wf(),
            r == first_index(old(self).num_const_atoms@, lexeme, 0),
            r < old(self).num_const_atoms@.len() ==> final(self).num_const_atoms@ == old(self).num_const_atoms@
                && final(self).num_consts@ == old(self).num_consts@,
            r == old(self).num_const_atoms@.len() ==> final(self).num_const_atoms@ == old(self).num_const_atoms@.push(lexeme)
                && final(self).num_consts@.drop_last() == old(self).num_consts@ && final(self).num_consts@.last()@ == text@,
            final(self).code@ == old(self).code@,
            final(self).locals@ == old(self).locals@,
            final(self).scope_level == old(self).scope_level,
            final(self).net@ == old(self).net@,
            final(self).string_atoms@ == old(self).string_atoms@,
            final(self).string_ranges@ == old(self).string_ranges@,
            final(self).string_data@ == old(self).string_data@,
    {
        let mut i: usize = 0;
        while i < self.num_const_atoms.len()
            invariant
                self.wf(),
                *self == *old(self),
                i <= self.num_const_atoms@.len(),
                first_index(self.num_const_atoms@, lexeme, i as int) == first_index(self.num_const_atoms@, lexeme, 0),
            decreases self.num_const_atoms@.len() - i,
        {
            if self.num_const_atoms[i] == lexeme {
                return i;
            }
            i = i + 1;
        }
        self.num_consts.push(text);
        self.num_const_atoms.push(lexeme);
        self.num_consts.len() - 1
    }

    /// Loads a number literal: a byte operand where its value is an integer
    /// from 0 to 255, else an entry of the constant table.
    fn emit_load_number_instruction(&mut self, strings: &StringInterner, lexeme: Atom) -> (r: Result<
        (),
        CodeGenError,
    >)
        requires
            old(self).wf(),
        ensures
            final(self).wf(),
            final(self).locals@ == old(self).locals@,
            final(self).scope_level == old(self).scope_level,
            old(self).code@.len() <= final(self).code@.len(),
            r is Ok ==> final(self).net@ == old(self).net@ + 1,
            final(self).string_atoms@ == old(self).string_atoms@,
            final(self).string_ranges@ == old(self).string_ranges@,
            final(self).string_data@ == old(self).string_data@,
            r is Ok ==> final(self).code@ == old(self).code@ + number_code(old(self).state(), lexeme, strings.text()).0
                && final(self).state() == number_code(old(self).state(), lexeme, strings.text()).1,
            ({
                let t = lexeme_text(strings.text(), lexeme);
                let i = first_index(old(self).num_const_atoms@, lexeme, 0);
                match small_integer(t) {
                    Some(n) => r is Ok && final(self).code@ == old(self).code@ + seq![
                        op_byte(Instruction::LoadLitNum),
                        n,
                    ] && final(self).num_consts@ == old(self).num_consts@
                        && final(self).num_const_atoms@ == old(self).num_const_atoms@,
                    None => {
                        &&& (r is Ok <==> i <= 0xffff_ffff)
                        &&& r is Ok ==> final(self).code@ == old(self).code@ + load_const_code(i as nat)
                        &&& r is Err ==> final(self).code@ == old(self).code@ && r->Err_0 is ProgramTooLarge
                            && final(self).at_limit(strings.text().len())
                        &&& i < old(self).num_const_atoms@.len() ==> final(self).num_consts@ == old(self).num_consts@
                            && final(self).num_const_atoms@ == old(self).num_const_atoms@
                        &&& i == old(self).num_const_atoms@.len() ==> final(self).num_const_atoms@
                            == old(self).num_const_atoms@.push(lexeme) && final(self).num_consts@.drop_last()
                            == old(self).num_consts@ && final(self).num_consts@.last()@ == t
                    },
                }
            }),
    {
        let text = strings.text_of(lexeme);
        match Self::small_integer_of(text.as_slice()) {
            Some(n) => {
                self.emit_instruction(Instruction::LoadLitNum);
                self.emit_byte(n);
                assert(self.code@ =~= old(self).code@ + seq![op_byte(Instruction::LoadLitNum), n]);
                assert(self.state() == old(self).state());
                Ok(())
            },
            None => {
                let index = self.num_const_index(lexeme, text);
                let ghost mid = self.code@;
                if index <= 255 {
                    self.emit_instruction(Instruction::LoadConstNum);
                    self.emit_byte(index as u8);
                } else if index <= 65535 {
                    self.emit_instruction(Instruction::LoadConstNumW);
                    self.emit_u16(index as u16);
                } else if index <= 0xffff_ffff {
                    self.emit_instruction(Instruction::LoadConstNumWW);
                    self.emit_u32(index as u32);
                } else {
                    proof {
                        lemma_first_index_bound(old(self).num_const_atoms@, lexeme, 0);
                    }
                    return Err(CodeGenError::ProgramTooLarge);
                }
                assert(self.code@ =~= old(self).code@ + load_const_code(index as nat));
                proof {
                    lemma_first_index_bound(old(self).num_const_atoms@, lexeme, 0);
                    let st = old(self).state();
                    if (index as int) < st.1.len() {
                        assert(self.state() == st);
                    } else {
                        assert(self.state() == (st.0, st.1.push(lexeme), st.2, st.3, st.4));
                    }
                }
                Ok(())
            },
        }
    }

    /// Appends text to the string data and gives its range.
    fn add_string_slice(&mut self, text: &[char]) -> (r: Result<(u32, u32), CodeGenError>)
        requires
            old(self).wf(),
        ensures
            final(self).wf(),
            final(self).code@ == old(self).code@,
            final(self).locals@ == old(self).locals@,
            final(self).scope_level == old(self).scope_level,
            final(self).net@ == old(self).net@,
            final(self).string_atoms@ == old(self).string_atoms@,
            final(self).string_ranges@ == old(self).string_ranges@,
            r matches Ok((a, b)) ==> a <= b == final(self).string_data@.len() && final(self).string_data@.subrange(a as int, b as int) == text@
                && a == old(self).string_data@.len() && final(self).string_data@.len() == old(self).string_data@.len() + text@.len(),
            r is Err ==> old(self).string_data@.len() + text@.len() > 0xffff_ffff && final(self).string_data@
                == old(self).string_data@,
            r matches Err(e) ==> e is ProgramTooLarge,
            final(self).num_const_atoms@ == old(self).num_const_atoms@,
            final(self).num_consts@ == old(self).num_consts@,
    {
        let start = self.string_data.len();
        if start > 0xffff_ffff || text.len() > 0xffff_ffff - start {
            return Err(CodeGenError::ProgramTooLarge);
        }
        let mut k: usize = 0;
        while k < text.len()
            invariant
                self.wf(),
                k <= text@.len(),
                self.code@ == old(self).code@,
                self.locals@ == old(self).locals@,
                self.scope_level == old(self).scope_level,
                self.net@ == old(self).net@,
                self.string_atoms@ == old(self).string_atoms@,
                self.string_ranges@ == old(self).string_ranges@,
                self.string_data@ == old(self).string_data@ + text@.subrange(0, k as int),
                self.num_consts@ == old(self).num_consts@,
                self.num_const_atoms@ == old(self).num_const_atoms@,
                start == old(self).string_data@.len(),
            decreases text@.len() - k,
        {
            self.string_data.push(text[k]);
            k = k + 1;
            assert(self.string_data@ =~= old(self).string_data@ + text@.subrange(0, k as int));
        }
        assert(self.string_data@.subrange(start as int, self.string_data@.len() as int) =~= text@);
        Ok((start as u32, self.string_data.len() as u32))
    }

    /// The range of the string literal with atom `a`: the one it was given
    /// before, or a new one holding its text.
    fn add_string(&mut self, strings: &StringInterner, a: Atom) -> (r: Result<
        (u32, u32),
        CodeGenError,
    >)
        requires
            old(self).wf(),
        ensures
            final(self).wf(),
            final(self).code@ == old(self).code@,
            final(self).locals@ == old(self).locals@,
            final(self).scope_level == old(self).scope_level,
            final(self).net@ == old(self).net@,
            r matches Ok(q) ==> final(self).string_range(a) == Some(q),
            old(self).string_range(a) matches Some(q) ==> r == Ok::<(u32, u32), CodeGenError>(q)
                && final(self).string_data@ == old(self).string_data@ && final(self).string_atoms@ == old(self).string_atoms@
                && final(self).string_ranges@ == old(self).string_ranges@,
            r is Ok ==> string_load(r->Ok_0) == string_code(old(self).state(), a, strings.text()).0
                && final(self).state() == string_code(old(self).state(), a, strings.text()).1,
            old(self).string_range(a) is None && r is Ok ==> final(self).string_data@.subrange(
                r->Ok_0.0 as int,
                r->Ok_0.1 as int,
            ) == lexeme_text(strings.text(), a) && r->Ok_0.1 == final(self).string_data@.len(),
            r is Err ==> final(self).at_limit(strings.text().len()),
            r matches Err(e) ==> e is ProgramTooLarge,
            final(self).num_consts@ == old(self).num_consts@,
            old(self).string_atoms@.is_prefix_of(final(self).string_atoms@),
            old(self).string_ranges@.is_prefix_of(final(self).string_ranges@),
    {
        let mut i: usize = 0;
        while i < self.string_atoms.len()
            invariant
                self.wf(),
                *self == *old(self),
                i <= self.string_atoms@.len(),
                forall|j: int| 0 <= j < i ==> self.string_atoms@[j] != a,
            decreases self.string_atoms@.len() - i,
        {
            if self.string_atoms[i] == a {
                let q = self.string_ranges[i];
                proof {
                    assert(self.string_atoms@[i as int] == a);
                    let c = choose|c: int| 0 <= c < self.string_atoms@.len() && self.string_atoms@[c] == a;
                    assert(self.string_atoms@[c] == a);
                    if c != i {
                        if c < i {
                            assert(self.string_atoms@[c] != self.string_atoms@[i as int]);
                        } else {
                            assert(self.string_atoms@[i as int] != self.string_atoms@[c]);
                        }
                    }
                }
                return Ok(q);
            }
            i = i + 1;
        }
        assert(old(self).string_range(a) is None);
        let text = strings.text_of(a);
        let q = self.add_string_slice(text.as_slice())?;
        let ghost before = *self;
        self.string_atoms.push(a);
        self.string_ranges.push(q);
        proof {
            let n = before.string_atoms@.len();
            assert(self.string_atoms@[n as int] == a);
            assert forall|x: int, y: int| 0 <= x < y < self.string_atoms@.len() implies
                self.string_atoms@[x] != self.string_atoms@[y] by {
                if y == n {
                    assert(self.string_atoms@[x] == before.string_atoms@[x]);
                } else {
                    assert(self.string_atoms@[x] == before.string_atoms@[x]);
                    assert(self.string_atoms@[y] == before.string_atoms@[y]);
                }
            }
            let c = choose|c: int| 0 <= c < self.string_atoms@.len() && self.string_atoms@[c] == a;
            if c != n {
                assert(before.string_atoms@[c] == a);
            }
            assert(before.string_atoms@.is_prefix_of(self.string_atoms@));
            assert(before.string_ranges@.is_prefix_of(self.string_ranges@));
            let st = old(self).state();
            assert(text@ == lexeme_text(strings.text(), a));
            assert(q == (st.4 as u32, (st.4 + text@.len()) as u32));
            assert(self.state() == (st.0, st.1, st.2.push(a), st.3.push(q), st.4 + text@.len()));
        }
        Ok(q)
    }

    /// Emits a jump to offset zero and gives the offset of its target, which
    /// is written once it is known.
    fn emit_jump_instruction(&mut self, op: Instruction) -> (r: usize)
        requires
            old(self).wf(),
        ensures
            final(self).wf(),
            r == old(self).code@.len() + 1,
            final(self).code@ == old(self).code@.push(op_byte(op)) + le4(0),
            final(self).same_tables(&*old(self)),
            final(self).net@ == old(self).net@ + stack_effect(op),
    {
        self.emit_instruction(op);
        let at = self.code.len();
        self.emit_u32(0);
        at
    }

    /// Writes `target` over the four bytes at `at`.
    fn patch_jump_instruction(&mut self, at: usize, target: usize) -> (r: Result<(), CodeGenError>)
        requires
            old(self).wf(),
            at + 4 <= old(self).code@.len(),
        ensures
            final(self).wf(),
            final(self).same_tables(&*old(self)),
            final(self).net@ == old(self).net@,
            final(self).code@.len() == old(self).code@.len(),
            r is Ok <==> target <= 0xffff_ffff,
            r matches Err(e) ==> e is ProgramTooLarge,
            r is Ok ==> final(self).code@ == old(self).code@.subrange(0, at as int) + le4(
                target as nat,
            ) + old(self).code@.subrange(at + 4, old(self).code@.len() as int),
    {
        if target > 0xffff_ffff {
            return Err(CodeGenError::ProgramTooLarge);
        }
        let n = self.code.len();
        let t = target as u32;
        let lo = t % 65536;
        let hi = t / 65536;
        self.code[at] = (lo % 256) as u8;
        self.code[at + 1] = ((lo / 256) % 256) as u8;
        self.code[at + 2] = (hi % 256) as u8;
        self.code[at + 3] = ((hi / 256) % 256) as u8;
        assert(self.code@ =~= old(self).code@.subrange(0, at as int) + le4(target as nat) + old(self).code@.subrange(at + 4, old(self).code@.len() as int));
        Ok(())
    }

    fn emit_assignment_instructions(
        &mut self,
        strings: &StringInterner,
        target: &Expr,
        source: &Expr,
    ) -> (r: Result<(), CodeGenError>)
        requires
            old(self).wf(),
        ensures
            final(self).wf(),
            final(self).locals@ == old(self).locals@,
            final(self).scope_level == old(self).scope_level,
            r is Ok ==> final(self).net@ == old(self).net@ + 1,
            old(self).code@.len() <= final(self).code@.len(),
            old(self).string_atoms@.is_prefix_of(final(self).string_atoms@),
            old(self).string_ranges@.is_prefix_of(final(self).string_ranges@),
            r is Err ==> !(*target is Var) || !declared(old(self).locals@, target->Var_0.identifier.lexeme)
                || expr_fault(*source, old(self).locals@) || final(self).at_limit(strings.text().len()),
            r matches Err(e) && !limit_error(e) ==> !(*target is Var) || !declared(old(self).locals@, target->Var_0.identifier.lexeme)
                || expr_fault(*source, old(self).locals@),
            r matches Err(e) && limit_error(e) ==> final(self).at_limit(strings.text().len()),
            r is Ok ==> *target is Var && final(self).code@ == old(self).code@ + expr_code(*source, old(self).state(), strings.text()).0
                + seq![op_byte(Instruction::Dup)] + set_local_code(slot_of(old(self).locals@, target->Var_0.identifier.lexeme) as nat)
                && final(self).state() == expr_code(*source, old(self).state(), strings.text()).1,
            r is Ok ==> *target is Var && declared(old(self).locals@, target->Var_0.identifier.lexeme)
                && !expr_fault(*source, old(self).locals@),
            !(*target is Var) ==> (r is Err && r->Err_0 is InvalidAssignmentTarget),
        decreases source, 1nat,
    {
        let identifier = match target {
            Expr::Var(ve) => ve.identifier,
            _ => {
                return Err(
                    CodeGenError::InvalidAssignmentTarget {
                        message: "only a variable can be assigned to".to_string(),
                    },
                );
            },
        };
        self.visit_expr(strings, source)?;
        let ghost c1 = self.code@;
        self.set_source_pos(identifier.pos);
        let local = self.get_local_index_by_token(&identifier)?;
        proof {
            lemma_slot_of(old(self).locals@, identifier.lexeme, local as int);
        }
        self.emit_instruction(Instruction::Dup);
        self.emit_set_local_instruction(local)?;
        assert(self.code@ =~= c1 + seq![op_byte(Instruction::Dup)] + set_local_code(local as nat));
        assert(self.state() == expr_code(*source, old(self).state(), strings.text()).1);
        Ok(())
    }

    /// The instruction for a binary operator, where there is one.
    fn infix_instruction(t: TokenType) -> (r: Option<Instruction>)
        ensures
            r matches Some(op) ==> stack_effect(op) == -1,
            r is Some <==> (infix_supported(t) && t != TokenType::BangEqual),
            r matches Some(op) ==> seq![op_byte(op)] == infix_code(t),
    {
        match t {
            TokenType::Plus => Some(Instruction::Add),
            TokenType::Minus => Some(Instruction::Sub),
            TokenType::Star => Some(Instruction::Mul),
            TokenType::Slash => Some(Instruction::Div),
            TokenType::Percent => Some(Instruction::Modulo),
            TokenType::DoubleEqual => Some(Instruction::Equal),
            TokenType::Less => Some(Instruction::LessThan),
            TokenType::LessEqual => Some(Instruction::LessThanOrEqual),
            TokenType::Greater => Some(Instruction::GreaterThan),
            TokenType::GreaterEqual => Some(Instruction::GreaterThanOrEqual),
            TokenType::DoubleDot => Some(Instruction::Concat),
            _ => None,
        }
    }

    /// Emits code that leaves the expression's value on top of the stack.
    #[verifier::rlimit(100)]
    #[verifier::spinoff_prover]
    fn visit_expr(&mut self, strings: &StringInterner, expr: &Expr) -> (r: Result<(), CodeGenError>)
        requires
            old(self).wf(),
        ensures
            final(self).wf(),
            final(self).locals@ == old(self).locals@,
            final(self).scope_level == old(self).scope_level,
            r is Ok ==> final(self).net@ == old(self).net@ + 1,
            old(self).code@.len() <= final(self).code@.len(),
            old(self).string_atoms@.is_prefix_of(final(self).string_atoms@),
            old(self).string_ranges@.is_prefix_of(final(self).string_ranges@),
            (expr is List && expr->List_0.elements@.len() == 0) ==> (r is Ok && final(self).code@
                == old(self).code@.push(op_byte(Instruction::CreateList))),
            r is Err ==> expr_fault(*expr, old(self).locals@) || final(self).at_limit(strings.text().len()),
            r matches Err(e) && !limit_error(e) ==> expr_fault(*expr, old(self).locals@),
            r matches Err(e) && limit_error(e) ==> final(self).at_limit(strings.text().len()),
            r is Ok ==> final(self).code@ == old(self).code@ + expr_code(*expr, old(self).state(), strings.text()).0
                && final(self).state() == expr_code(*expr, old(self).state(), strings.text()).1,
            r is Ok ==> !expr_fault(*expr, old(self).locals@),
            expr_fault(*expr, old(self).locals@) ==> r is Err,
        decreases expr, 0nat,
    {
        match expr {
            Expr::Group(ge) => self.visit_expr(strings, &ge.inner),
            Expr::Bool(be) => {
                self.set_source_pos(be.token.pos);
                if be.value {
                    self.emit_instruction(Instruction::LoadTrue);
                } else {
                    self.emit_instruction(Instruction::LoadFalse);
                }
                assert(self.state() == old(self).state());
                Ok(())
            },
            Expr::Number(ne) => {
                self.set_source_pos(ne.token.pos);
                self.emit_load_number_instruction(strings, ne.token.lexeme)
            },
            Expr::String(se) => {
                self.set_source_pos(se.token.pos);
                let (start, end) = self.add_string(strings, se.string)?;
                let ghost c0 = self.code@;
                let ghost st1 = self.state();
                self.emit_instruction(Instruction::LoadStringLiteral);
                self.emit_u32(start);
                self.emit_u32(end);
                assert(self.code@ =~= c0 + string_load((start, end)));
                assert(self.state() == st1);
                Ok(())
            },
            Expr::Prefix(pe) => {
                self.visit_expr(strings, &pe.inner)?;
                let ghost c1 = self.code@;
                let ghost st1 = self.state();
                self.set_source_pos(pe.operator.pos);
                match pe.operator.token_type {
                    TokenType::Minus => self.emit_instruction(Instruction::Negate),
                    TokenType::Not => self.emit_instruction(Instruction::Not),
                    _ => {
                        return Err(CodeGenError::NotImplemented { token: pe.operator });
                    },
                }
                assert(self.state() == st1);
                Ok(())
            },
            Expr::Infix(ie) => {
                if ie.operator.token_type == TokenType::ColonEqual {
                    return self.emit_assignment_instructions(strings, &ie.left, &ie.right);
                }
                self.visit_expr(strings, &ie.left)?;
                let ghost st1 = self.state();
                self.visit_expr(strings, &ie.right)?;
                let ghost c2 = self.code@;
                let ghost st2 = self.state();
                self.set_source_pos(ie.operator.pos);
                if ie.operator.token_type == TokenType::BangEqual {
                    self.emit_instruction(Instruction::Equal);
                    self.emit_instruction(Instruction::Not);
                    assert(self.code@ =~= c2 + infix_code(ie.operator.token_type));
                    assert(self.state() == st2);
                    return Ok(());
                }
                match Self::infix_instruction(ie.operator.token_type) {
                    Some(op) => {
                        self.emit_instruction(op);
                        assert(self.code@ =~= c2 + infix_code(ie.operator.token_type));
                        assert(self.state() == st2);
                        Ok(())
                    },
                    None => Err(CodeGenError::NotImplemented { token: ie.operator }),
                }
            },
            Expr::Var(ve) => {
                let offset = self.get_local_index_by_token(&ve.identifier)?;
                proof {
                    lemma_slot_of(old(self).locals@, ve.identifier.lexeme, offset as int);
                }
                self.set_source_pos(ve.identifier.pos);
                let r = self.emit_get_local_instruction(offset);
                assert(self.state() == old(self).state());
                r
            },
            Expr::List(le) => {
                let len = le.elements.len();
                let ghost st0 = old(self).state();
                self.set_source_pos(le.bracket_open.pos);
                if len == 0 {
                    self.emit_instruction(Instruction::CreateList);
                } else if len <= 255 {
                    self.emit_instruction(Instruction::CreateListWithCap);
                    self.emit_byte(len as u8);
                } else if len <= 65535 {
                    self.emit_instruction(Instruction::CreateListWithCapW);
                    self.emit_u16(len as u16);
                } else {
                    self.emit_instruction(Instruction::CreateListWithCapW);
                    self.emit_u16(65535);
                }
                let mut i: usize = 0;
                assert(*expr == Expr::List(*le));
                assert(self.code@ =~= old(self).code@ + list_header(len as nat) + elems_code(le.elements@.subrange(0, 0), st0, strings.text()).0);
                assert(self.state() == st0);
                while i < len
                    invariant
                        self.wf(),
                        *expr == Expr::List(*le),
                        len == le.elements@.len(),
                        i <= len,
                        self.locals@ == old(self).locals@,
                        self.scope_level == old(self).scope_level,
                        self.net@ == old(self).net@ + 1,
                        len == 0 ==> self.code@ == old(self).code@.push(
                            op_byte(Instruction::CreateList),
                        ),
                        old(self).code@.len() <= self.code@.len(),
                        old(self).string_atoms@.is_prefix_of(self.string_atoms@),
                        old(self).string_ranges@.is_prefix_of(self.string_ranges@),
                        st0 == old(self).state(),
                        self.code@ == old(self).code@ + list_header(len as nat) + elems_code(le.elements@.subrange(0, i as int), st0, strings.text()).0,
                        self.state() == elems_code(le.elements@.subrange(0, i as int), st0, strings.text()).1,
                        !elems_fault(le.elements@.subrange(0, i as int), old(self).locals@),
                    decreases len - i,
                {
                    proof {
                        assert(decreases_to!(*expr => *le));
                        assert(decreases_to!(*le => le.elements));
                        assert(decreases_to!(le.elements => le.elements@));
                        assert(decreases_to!(le.elements@ => le.elements@[i as int]));
                    }
                    match self.visit_expr(strings, &le.elements[i]) {
                        Ok(()) => {},
                        Err(e) => {
                            proof {
                                if expr_fault(le.elements@[i as int], old(self).locals@) {
                                    lemma_elems_fault(le.elements@, old(self).locals@, i as int);
                                }
                            }
                            return Err(e);
                        },
                    }
                    let ghost c1 = self.code@;
                    let ghost s1 = self.state();
                    self.emit_instruction(Instruction::ListPush);
                    proof {
                        let next = le.elements@.subrange(0, i + 1);
                        assert(next.drop_last() =~= le.elements@.subrange(0, i as int));
                        assert(next.last() == le.elements@[i as int]);
                        assert(self.state() == s1);
                        assert(self.code@ =~= old(self).code@ + list_header(len as nat) + elems_code(next, st0, strings.text()).0);
                    }
                    i = i + 1;
                }
                assert(le.elements@.subrange(0, len as int) =~= le.elements@);
                Ok(())
            },
            Expr::Subscript(se) => {
                self.visit_expr(strings, &se.subscriptee)?;
                self.visit_expr(strings, &se.index)?;
                let ghost c2 = self.code@;
                let ghost st2 = self.state();
                self.set_source_pos(se.bracket_open.pos);
                self.emit_instruction(Instruction::ListGetIndex);
                assert(self.state() == st2);
                Ok(())
            },
            Expr::Call(ce) => Err(CodeGenError::NotImplemented { token: ce.paren_open }),
        }
    }

    #[verifier::rlimit(100)]
    #[verifier::spinoff_prover]
    fn visit_if(&mut self, strings: &StringInterner, is: &IfStmt) -> (r: Result<(), CodeGenError>)
        requires
            old(self).wf(),
        ensures
            final(self).wf(),
            old(self).code@.len() <= final(self).code@.len(),
            old(self).string_atoms@.is_prefix_of(final(self).string_atoms@),
            old(self).string_ranges@.is_prefix_of(final(self).string_ranges@),
            r is Ok ==> final(self).scope_level == old(self).scope_level,
            r is Ok ==> final(self).locals@ == old(self).locals@,
            r is Ok ==> final(self).net@ == old(self).net@,
            r is Ok ==> final(self).code@ == old(self).code@ + stmt_code(Stmt::If(Box::new(*is)), old(self).state(), old(self).scope_level as int, old(self).code@.len(), strings.text()).0
                && final(self).state() == stmt_code(Stmt::If(Box::new(*is)), old(self).state(), old(self).scope_level as int, old(self).code@.len(), strings.text()).1,
            r is Ok ==> !stmt_fault(Stmt::If(Box::new(*is)), old(self).locals@, old(self).scope_level as int),
            r matches Err(e) && !limit_error(e) ==> stmt_fault(Stmt::If(Box::new(*is)), old(self).locals@, old(self).scope_level as int),
            r matches Err(e) && limit_error(e) ==> final(self).at_limit(strings.text().len()),
        decreases is, 2nat,
    {
        self.visit_expr(strings, &is.condition)?;
        let ghost a1 = self.code@;
        self.set_source_pos(is.if_token.pos);
        let then_jump = self.emit_jump_instruction(Instruction::JumpIfFalse);
        let ghost x1 = a1.push(op_byte(Instruction::JumpIfFalse));
        assert(self.code@ =~= x1 + le4(0));
        self.visit_block(strings, &is.then_clause)?;
        let ghost c2 = self.code@.subrange(x1.len() + 4int, self.code@.len() as int);
        assert(self.code@ =~= x1 + le4(0) + c2);
        match &is.else_clause {
            Some(else_stmt) => {
                if let Some(et) = is.else_token {
                    self.set_source_pos(et.pos);
                }
                let else_jump = self.emit_jump_instruction(Instruction::Jump);
                let here = self.code.len();
                let ghost y = c2.push(op_byte(Instruction::Jump)) + le4(0);
                assert(self.code@ =~= x1 + le4(0) + y);
                self.patch_jump_instruction(then_jump, here)?;
                proof {
                    lemma_patch(x1, y, here as nat);
                }
                let ghost x2 = x1 + le4(here as nat) + c2.push(op_byte(Instruction::Jump));
                assert(self.code@ =~= x2 + le4(0));
                self.visit_scoped(strings, else_stmt)?;
                let ghost c3 = self.code@.subrange(x2.len() + 4int, self.code@.len() as int);
                assert(self.code@ =~= x2 + le4(0) + c3);
                let end = self.code.len();
                self.patch_jump_instruction(else_jump, end)?;
                proof {
                    lemma_patch(x2, c3, end as nat);
                }
                assert(self.code@ =~= old(self).code@ + stmt_code(Stmt::If(Box::new(*is)), old(self).state(), old(self).scope_level as int, old(self).code@.len(), strings.text()).0);
            },
            None => {
                let here = self.code.len();
                self.patch_jump_instruction(then_jump, here)?;
                proof {
                    lemma_patch(x1, c2, here as nat);
                }
                assert(self.code@ =~= old(self).code@ + stmt_code(Stmt::If(Box::new(*is)), old(self).state(), old(self).scope_level as int, old(self).code@.len(), strings.text()).0);
            },
        }
        Ok(())
    }

    fn visit_while(&mut self, strings: &StringInterner, ws: &WhileStmt) -> (r: Result<(), CodeGenError>)
        requires
            old(self).wf(),
        ensures
            final(self).wf(),
            old(self).code@.len() <= final(self).code@.len(),
            old(self).string_atoms@.is_prefix_of(final(self).string_atoms@),
            old(self).string_ranges@.is_prefix_of(final(self).string_ranges@),
            r is Ok ==> final(self).scope_level == old(self).scope_level,
            r is Ok ==> final(self).locals@ == old(self).locals@,
            r is Ok ==> final(self).net@ == old(self).net@,
            r is Ok ==> final(self).code@ == old(self).code@ + stmt_code(Stmt::While(*ws), old(self).state(), old(self).scope_level as int, old(self).code@.len(), strings.text()).0
                && final(self).state() == stmt_code(Stmt::While(*ws), old(self).state(), old(self).scope_level as int, old(self).code@.len(), strings.text()).1,
            r is Ok ==> !stmt_fault(Stmt::While(*ws), old(self).locals@, old(self).scope_level as int),
            r matches Err(e) && !limit_error(e) ==> stmt_fault(Stmt::While(*ws), old(self).locals@, old(self).scope_level as int),
            r matches Err(e) && limit_error(e) ==> final(self).at_limit(strings.text().len()),
        decreases ws, 2nat,
    {
        let start = self.code.len();
        if start > 0xffff_ffff {
            return Err(CodeGenError::ProgramTooLarge);
        }
        self.visit_expr(strings, &ws.condition)?;
        let ghost a1 = self.code@;
        self.set_source_pos(ws.while_token.pos);
        let exit = self.emit_jump_instruction(Instruction::JumpIfFalse);
        let ghost x1 = a1.push(op_byte(Instruction::JumpIfFalse));
        assert(self.code@ =~= x1 + le4(0));
        self.visit_block(strings, &ws.block)?;
        let ghost c2 = self.code@.subrange(x1.len() + 4int, self.code@.len() as int);
        assert(self.code@ =~= x1 + le4(0) + c2);
        self.set_source_pos(ws.block.brace_close.pos);
        self.emit_instruction(Instruction::Jump);
        self.emit_u32(start as u32);
        let ghost y = c2.push(op_byte(Instruction::Jump)) + le4(start as nat);
        assert(self.code@ =~= x1 + le4(0) + y);
        let end = self.code.len();
        self.patch_jump_instruction(exit, end)?;
        proof {
            lemma_patch(x1, y, end as nat);
        }
        assert(self.code@ =~= old(self).code@ + stmt_code(Stmt::While(*ws), old(self).state(), old(self).scope_level as int, old(self).code@.len(), strings.text()).0);
        Ok(())
    }

    /// Emits a statement. Its net stack effect is the number of slots it
    /// declares: one for `let`, none for the others, whose code leaves the
    /// stack as it found it.
    #[verifier::rlimit(100)]
    #[verifier::spinoff_prover]
    fn visit_stmt(&mut self, strings: &StringInterner, stmt: &Stmt) -> (r: Result<(), CodeGenError>)
        requires
            old(self).wf(),
        ensures
            final(self).wf(),
            old(self).code@.len() <= final(self).code@.len(),
            old(self).string_atoms@.is_prefix_of(final(self).string_atoms@),
            old(self).string_ranges@.is_prefix_of(final(self).string_ranges@),
            r is Ok ==> final(self).scope_level == old(self).scope_level,
            r is Ok ==> old(self).locals@.is_prefix_of(final(self).locals@),
            r is Ok ==> forall|i: int|
                old(self).locals@.len() <= i < final(self).locals@.len() ==> (#[trigger] final(self).locals@[i]).scope_level == old(self).scope_level,
            r is Ok ==> final(self).net@ == old(self).net@ + (final(self).locals@.len() - old(self).locals@.len()),
            r is Ok && !(stmt is VarDecl) ==> final(self).locals@ == old(self).locals@,
            r is Ok && stmt is VarDecl ==> final(self).locals@.len() == old(self).locals@.len() + 1,
            r is Ok && stmt is Print ==> final(self).code@.len() > old(self).code@.len() && final(self).code@.last()
                == op_byte(Instruction::Print),
            r is Ok && stmt is ExprStmt ==> final(self).code@.len() > old(self).code@.len() && final(self).code@.last()
                == op_byte(Instruction::Pop),
            r is Ok && (stmt is Print || stmt is ExprStmt || stmt is VarDecl) ==> final(self).net@ == old(self).net@
                + (if stmt is VarDecl { 1int } else { 0int }),
            r is Ok ==> final(self).locals@ == old(self).locals@ + decl_local(*stmt, old(self).scope_level as int),
            r matches Err(e) && !limit_error(e) ==> stmt_fault(*stmt, old(self).locals@, old(self).scope_level as int),
            r matches Err(e) && limit_error(e) ==> final(self).at_limit(strings.text().len()),
            r is Ok ==> final(self).code@ == old(self).code@ + stmt_code(*stmt, old(self).state(), old(self).scope_level as int, old(self).code@.len(), strings.text()).0
                && final(self).state() == stmt_code(*stmt, old(self).state(), old(self).scope_level as int, old(self).code@.len(), strings.text()).1,
            r is Ok ==> !stmt_fault(*stmt, old(self).locals@, old(self).scope_level as int),
        decreases stmt, 0nat,
    {
        match stmt {
            Stmt::Print(ps) => {
                self.visit_expr(strings, &ps.inner)?;
                let ghost c1 = self.code@;
                self.set_source_pos(ps.print_token.pos);
                self.emit_instruction(Instruction::Print);
                assert(self.code@ =~= c1 + seq![op_byte(Instruction::Print)]);
                Ok(())
            },
            Stmt::VarDecl(vds) => {
                self.visit_expr(strings, &vds.init_expr)?;
                let ghost st1 = self.state();
                self.set_source_pos(vds.var_token.pos);
                self.declare_local(Some(vds.identifier.lexeme));
                assert(self.state() == (st1.0.push(Local { name: Some(vds.identifier.lexeme), scope_level: old(self).scope_level }), st1.1, st1.2, st1.3, st1.4));
                Ok(())
            },
            Stmt::Block(bs) => self.visit_block(strings, bs),
            Stmt::If(is) => self.visit_if(strings, is),
            Stmt::While(ws) => self.visit_while(strings, ws),
            Stmt::ExprStmt(es) => {
                self.visit_expr(strings, &es.expr)?;
                let ghost c1 = self.code@;
                self.emit_instruction(Instruction::Pop);
                assert(self.code@ =~= c1 + seq![op_byte(Instruction::Pop)]);
                Ok(())
            },
            Stmt::FnDecl(fd) => Err(CodeGenError::NotImplemented { token: fd.fn_token }),
            Stmt::Return(rs) => Err(CodeGenError::NotImplemented { token: rs.return_token }),
        }
    }

    fn visit_stmt_list(&mut self, strings: &StringInterner, list: &StmtList) -> (r: Result<
        (),
        CodeGenError,
    >)
        requires
            old(self).wf(),
        ensures
            final(self).wf(),
            old(self).code@.len() <= final(self).code@.len(),
            old(self).string_atoms@.is_prefix_of(final(self).string_atoms@),
            old(self).string_ranges@.is_prefix_of(final(self).string_ranges@),
            r is Ok ==> final(self).scope_level == old(self).scope_level,
            r is Ok ==> old(self).locals@.is_prefix_of(final(self).locals@),
            r is Ok ==> forall|i: int|
                old(self).locals@.len() <= i < final(self).locals@.len() ==> (#[trigger] final(self).locals@[i]).scope_level == old(self).scope_level,
            r is Ok ==> final(self).net@ == old(self).net@ + (final(self).locals@.len() - old(self).locals@.len()),
            r is Ok ==> final(self).locals@ == old(self).locals@ + decls(list.stmts@, old(self).scope_level as int),
            r matches Err(e) && !limit_error(e) ==> stmts_fault(list.stmts@, old(self).locals@, old(self).scope_level as int),
            r matches Err(e) && limit_error(e) ==> final(self).at_limit(strings.text().len()),
            r is Ok ==> final(self).code@ == old(self).code@ + stmts_code(list.stmts@, old(self).state(), old(self).scope_level as int, old(self).code@.len(), strings.text()).0
                && final(self).state() == stmts_code(list.stmts@, old(self).state(), old(self).scope_level as int, old(self).code@.len(), strings.text()).1,
            r is Ok ==> !stmts_fault(list.stmts@, old(self).locals@, old(self).scope_level as int),
        decreases list, 0nat,
    {
        assert(list.stmts@.subrange(0, 0) =~= Seq::<Stmt>::empty());
        assert(self.code@ =~= old(self).code@ + Seq::<u8>::empty());
        let mut i: usize = 0;
        while i < list.stmts.len()
            invariant
                self.wf(),
                i <= list.stmts@.len(),
                old(self).code@.len() <= self.code@.len(),
                old(self).string_atoms@.is_prefix_of(self.string_atoms@),
                old(self).string_ranges@.is_prefix_of(self.string_ranges@),
                self.scope_level == old(self).scope_level,
                old(self).locals@.is_prefix_of(self.locals@),
                forall|j: int|
                    old(self).locals@.len() <= j < self.locals@.len() ==> (#[trigger] self.locals@[j]).scope_level
                        == old(self).scope_level,
                self.net@ == old(self).net@ + (self.locals@.len() - old(self).locals@.len()),
                self.locals@ == old(self).locals@ + decls(list.stmts@.subrange(0, i as int), old(self).scope_level as int),
                self.code@ == old(self).code@ + stmts_code(list.stmts@.subrange(0, i as int), old(self).state(), old(self).scope_level as int, old(self).code@.len(), strings.text()).0,
                self.state() == stmts_code(list.stmts@.subrange(0, i as int), old(self).state(), old(self).scope_level as int, old(self).code@.len(), strings.text()).1,
                !stmts_fault(list.stmts@.subrange(0, i as int), old(self).locals@, old(self).scope_level as int),
            decreases list.stmts@.len() - i,
        {
            proof {
                assert(decreases_to!(*list => list.stmts));
                assert(decreases_to!(list.stmts => list.stmts@));
                assert(decreases_to!(list.stmts@ => list.stmts@[i as int]));
            }
            let ghost before = *self;
            let ghost level = old(self).scope_level as int;
            match self.visit_stmt(strings, &list.stmts[i]) {
                Ok(()) => {},
                Err(e) => {
                    proof {
                        if !limit_error(e) {
                            let next = list.stmts@.subrange(0, i + 1);
                            assert(next.drop_last() =~= list.stmts@.subrange(0, i as int));
                            assert(next.last() == list.stmts@[i as int]);
                            lemma_stmts_fault_prefix(list.stmts@, i + 1, old(self).locals@, level);
                        }
                    }
                    return Err(e);
                },
            }
            proof {
                let next = list.stmts@.subrange(0, i + 1);
                assert(next.drop_last() =~= list.stmts@.subrange(0, i as int));
                assert(next.last() == list.stmts@[i as int]);
                assert(self.locals@ =~= old(self).locals@ + decls(next, level));
                assert(self.code@ =~= old(self).code@ + stmts_code(next, old(self).state(), level, old(self).code@.len(), strings.text()).0);
                assert forall|j: int|
                    old(self).locals@.len() <= j < self.locals@.len() implies (#[trigger] self.locals@[j]).scope_level
                        == old(self).scope_level by {
                    if j < before.locals@.len() {
                        assert(self.locals@[j] == before.locals@[j]);
                    }
                }
            }
            i = i + 1;
        }
        assert(list.stmts@.subrange(0, list.stmts@.len() as int) =~= list.stmts@);
        Ok(())
    }

    /// Leaves a scope that began with slots `base` and whose own slots all
    /// lie above `base`, at its level: exactly those slots are popped.
    proof fn lemma_scope_exit(mid: &Self, fin: &Self, base: Seq<Local>)
        requires
            mid.wf(),
            mid.scope_level >= 1,
            base.is_prefix_of(mid.locals@),
            forall|i: int| 0 <= i < base.len() ==> (#[trigger] base[i]).scope_level < mid.scope_level,
            forall|i: int|
                base.len() <= i < mid.locals@.len() ==> (#[trigger] mid.locals@[i]).scope_level
                    == mid.scope_level,
            fin.scope_level == mid.scope_level - 1,
            fin.locals@.len() <= mid.locals@.len(),
            fin.locals@ == mid.locals@.subrange(0, fin.locals@.len() as int),
            forall|i: int|
                fin.locals@.len() <= i < mid.locals@.len() ==> (#[trigger] mid.locals@[i]).scope_level
                    > fin.scope_level,
            fin.locals@.len() > 0 ==> fin.locals@.last().scope_level <= fin.scope_level,
        ensures
            fin.locals@ == base,
    {
        let k = fin.locals@.len();
        if k < base.len() {
            assert(mid.locals@[k as int] == base[k as int]);
        }
        if k > base.len() {
            assert(fin.locals@[k - 1] == mid.locals@[k - 1]);
        }
        assert forall|i: int| 0 <= i < k implies fin.locals@[i] == base[i] by {
            assert(fin.locals@[i] == mid.locals@[i]);
        }
        assert(fin.locals@ =~= base);
    }

    /// Emits a block: its slots are popped at its end, so the slot table and
    /// the stack are as they were before it.
    fn visit_block(&mut self, strings: &StringInterner, block: &BlockStmt) -> (r: Result<
        (),
        CodeGenError,
    >)
        requires
            old(self).wf(),
        ensures
            final(self).wf(),
            old(self).code@.len() <= final(self).code@.len(),
            old(self).string_atoms@.is_prefix_of(final(self).string_atoms@),
            old(self).string_ranges@.is_prefix_of(final(self).string_ranges@),
            r is Ok ==> final(self).scope_level == old(self).scope_level,
            r is Ok ==> final(self).locals@ == old(self).locals@,
            r is Ok ==> final(self).net@ == old(self).net@,
            r matches Err(e) && !limit_error(e) ==> stmts_fault(block.statements.stmts@, old(self).locals@, old(self).scope_level + 1),
            r matches Err(e) && limit_error(e) ==> final(self).at_limit(strings.text().len()),
            r is Ok ==> final(self).code@ == old(self).code@ + block_code(block.statements.stmts@, old(self).state(), old(self).scope_level as int, old(self).code@.len(), strings.text()).0
                && final(self).state() == block_code(block.statements.stmts@, old(self).state(), old(self).scope_level as int, old(self).code@.len(), strings.text()).1,
            r is Ok ==> !stmts_fault(block.statements.stmts@, old(self).locals@, old(self).scope_level + 1),
        decreases block, 1nat,
    {
        self.set_source_pos(block.brace_open.pos);
        self.begin_scope()?;
        self.visit_stmt_list(strings, &block.statements)?;
        self.set_source_pos(block.brace_close.pos);
        let ghost mid = *self;
        self.end_scope();
        proof {
            Self::lemma_scope_exit(&mid, &*self, old(self).locals@);
            assert(self.state() == leave_scope(old(self).state(), mid.state()));
        }
        Ok(())
    }

    /// Emits a statement in a scope of its own.
    fn visit_scoped(&mut self, strings: &StringInterner, stmt: &Stmt) -> (r: Result<
        (),
        CodeGenError,
    >)
        requires
            old(self).wf(),
        ensures
            final(self).wf(),
            old(self).code@.len() <= final(self).code@.len(),
            old(self).string_atoms@.is_prefix_of(final(self).string_atoms@),
            old(self).string_ranges@.is_prefix_of(final(self).string_ranges@),
            r is Ok ==> final(self).scope_level == old(self).scope_level,
            r is Ok ==> final(self).locals@ == old(self).locals@,
            r is Ok ==> final(self).net@ == old(self).net@,
            r matches Err(e) && !limit_error(e) ==> stmt_fault(*stmt, old(self).locals@, old(self).scope_level + 1),
            r matches Err(e) && limit_error(e) ==> final(self).at_limit(strings.text().len()),
            r is Ok ==> final(self).code@ == old(self).code@ + scoped_code(*stmt, old(self).state(), old(self).scope_level as int, old(self).code@.len(), strings.text()).0
                && final(self).state() == scoped_code(*stmt, old(self).state(), old(self).scope_level as int, old(self).code@.len(), strings.text()).1,
            r is Ok ==> !stmt_fault(*stmt, old(self).locals@, old(self).scope_level + 1),
        decreases stmt, 1nat,
    {
        self.begin_scope()?;
        self.visit_stmt(strings, stmt)?;
        let ghost mid = *self;
        self.end_scope();
        proof {
            Self::lemma_scope_exit(&mid, &*self, old(self).locals@);
            assert(self.state() == leave_scope(old(self).state(), mid.state()));
        }
        Ok(())
    }

    /// Emits the program's statements in the outermost scope, whose slots
    /// are all popped at the end.
    fn visit_program_stmt(&mut self, strings: &StringInterner, prog: &ProgramStmt) -> (r: Result<
        (),
        CodeGenError,
    >)
        requires
            old(self).wf(),
        ensures
            final(self).wf(),
            r is Ok ==> final(self).scope_level == old(self).scope_level,
            r is Ok ==> final(self).locals@ == old(self).locals@,
            r is Ok ==> final(self).net@ == old(self).net@,
            r matches Err(e) && !limit_error(e) ==> stmts_fault(prog.statements.stmts@, old(self).locals@, old(self).scope_level + 1),
            r matches Err(e) && limit_error(e) ==> final(self).at_limit(strings.text().len()),
            r is Ok ==> final(self).code@ == old(self).code@ + block_code(prog.statements.stmts@, old(self).state(), old(self).scope_level as int, old(self).code@.len(), strings.text()).0,
            r is Ok ==> !stmts_fault(prog.statements.stmts@, old(self).locals@, old(self).scope_level + 1),
    {
        self.begin_scope()?;
        self.visit_stmt_list(strings, &prog.statements)?;
        self.set_source_pos(prog.eof_token.pos);
        let ghost mid = *self;
        self.end_scope();
        proof {
            Self::lemma_scope_exit(&mid, &*self, old(self).locals@);
            assert(self.state() == leave_scope(old(self).state(), mid.state()));
        }
        Ok(())
    }

    /// Compiles the script: a slot for the script's own function value,
    /// then the program. Afterwards only that slot remains, and the code
    /// leaves exactly one value, that function, on the stack.
    fn compile_script(&mut self, strings: &StringInterner, prog: &ProgramStmt) -> (r: Result<
        (u32, u32),
        CodeGenError,
    >)
        requires
            old(self).wf(),
            old(self).locals@.len() == 0,
            old(self).scope_level == 0,
            old(self).net@ == 0,
            old(self).string_data@.len() == 0,
            old(self).code@.len() == 0,
            old(self).state() == (Seq::<Local>::empty(), Seq::<Atom>::empty(), Seq::<Atom>::empty(), Seq::<(u32, u32)>::empty(), 0nat),
        ensures
            r is Ok ==> final(self).code@ == script_code(*prog, strings.text()),
            r is Ok ==> !stmts_fault(prog.statements.stmts@, seq![Local { name: None, scope_level: 0 }], 1),
            r matches Err(e) && !limit_error(e) ==> stmts_fault(
                prog.statements.stmts@,
                seq![Local { name: None, scope_level: 0 }],
                1,
            ),
            final(self).wf(),
            r is Ok ==> final(self).locals@ == seq![Local { name: None, scope_level: 0 }],
            r is Ok ==> final(self).scope_level == 0,
            r is Ok ==> final(self).net@ == 1,
    {
        self.declare_local(None);
        self.emit_instruction(Instruction::LoadFunction);
        self.emit_u32(0);
        let name = self.add_string_slice(&['C', 'a', 'h', 'n', 'M', 'a', 'i', 'n'])?;
        assert(self.locals@ =~= seq![Local { name: None, scope_level: 0 }]);
        assert(self.code@ =~= seq![op_byte(Instruction::LoadFunction)] + le4(0));
        assert(self.state() == (seq![Local { name: None, scope_level: 0 }], Seq::<Atom>::empty(), Seq::<Atom>::empty(), Seq::<(u32, u32)>::empty(), 8nat));
        self.visit_program_stmt(strings, prog)?;
        Ok(name)
    }

    /// Compiles a program into an executable whose one function is the
    /// script. Every function's code map has one position per code byte.
    pub fn gen_executable(
        source_file: String,
        prog: &ProgramStmt,
        strings: &StringInterner,
    ) -> (r: Result<Executable, CodeGenError>)
        ensures
            r matches Ok(exec) ==> {
                &&& exec.functions@.len() == 1
                &&& forall|i: int|
                    0 <= i < exec.functions@.len() ==> (#[trigger] exec.functions@[i]).code@.len()
                        == exec.functions@[i].code_map@.len()
                &&& exec.source_file@ == source_file@
            },
            r matches Err(e) && !limit_error(e) ==> stmts_fault(
                prog.statements.stmts@,
                seq![Local { name: None, scope_level: 0 }],
                1,
            ),
            r matches Ok(exec) ==> exec.functions@[0].code@ == script_code(*prog, strings.text()),
            stmts_fault(prog.statements.stmts@, seq![Local { name: None, scope_level: 0 }], 1) ==> r is Err,
    {
        let mut g = CodeGenerator::new();
        let (name_start, name_end) = g.compile_script(strings, prog)?;
        let main = CahnFunction::new(0, g.code, g.code_map, name_start as usize, name_end as usize);
        let mut functions: Vec<CahnFunction> = Vec::new();
        functions.push(main);
        Ok(Executable::new(g.num_consts, g.string_data, source_file, functions))
    }
}

/// Two string literals with the same text get the same range of the string
/// data: their atoms are one handle, and the generator keys ranges by atom.
pub proof fn law_same_text_same_range(g: CodeGenerator, strings: StringInterner, a: Atom, b: Atom)
    requires
        g.wf(),
        strings.wf(),
        strings.is_handle(a),
        strings.is_handle(b),
        strings.content(a) == strings.content(b),
    ensures
        g.string_range(a) == g.string_range(b),
{
    strings.lemma_handles_unique(a, b);
}

/// A range given to a string literal is kept as the generator goes on.
pub proof fn law_string_range_kept(earlier: CodeGenerator, later: CodeGenerator, a: Atom)
    requires
        later.wf(),
        earlier.wf(),
        later.string_table_extends(&earlier),
        earlier.string_range(a) is Some,
    ensures
        later.string_range(a) == earlier.string_range(a),
{
    let c0 = choose|i: int| 0 <= i < earlier.string_atoms@.len() && earlier.string_atoms@[i] == a;
    assert(later.string_atoms@[c0] == a);
    let c1 = choose|i: int| 0 <= i < later.string_atoms@.len() && later.string_atoms@[i] == a;
    if c1 != c0 {
        if c1 < c0 {
            assert(later.string_atoms@[c1] != later.string_atoms@[c0]);
        } else {
            assert(later.string_atoms@[c0] != later.string_atoms@[c1]);
        }
    }
}

} // verus!
