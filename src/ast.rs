//! The syntax tree. Each node owns its children and keeps the tokens it was
//! built from, for positions in later diagnostics.
use vstd::prelude::*;
use crate::interner::Atom;
use crate::token::Token;

verus! {

#[derive(Debug, Clone)]
pub struct NumberExpr {
    pub token: Token,
}

#[derive(Debug, Clone)]
pub struct StringExpr {
    pub token: Token,
    /// The literal's text without its quotes.
    pub string: Atom,
}

impl StringExpr {
    pub fn new(token: Token, string: Atom) -> (r: StringExpr)
        ensures
            r.token == token,
            r.string == string,
    {
        StringExpr { token, string }
    }
}

#[derive(Debug, Clone)]
pub struct VarExpr {
    pub identifier: Token,
}

impl VarExpr {
    pub fn new(identifier: Token) -> (r: VarExpr)
        ensures
            r.identifier == identifier,
    {
        VarExpr { identifier }
    }
}

#[derive(Debug, Clone)]
pub struct BoolExpr {
    pub token: Token,
    pub value: bool,
}

impl BoolExpr {
    pub fn new(token: Token, value: bool) -> (r: BoolExpr)
        ensures
            r.token == token,
            r.value == value,
    {
        BoolExpr { token, value }
    }
}

#[derive(Debug)]
pub struct GroupExpr {
    pub paren_open: Token,
    pub inner: Expr,
    pub paren_close: Token,
}

#[derive(Debug)]
pub struct PrefixExpr {
    pub operator: Token,
    pub inner: Expr,
}

#[derive(Debug)]
pub struct InfixExpr {
    pub left: Expr,
    pub operator: Token,
    pub right: Expr,
}

#[derive(Debug)]
pub struct ListExpr {
    pub bracket_open: Token,
    pub elements: Vec<Expr>,
    pub bracket_close: Token,
}

#[derive(Debug)]
pub struct SubscriptExpr {
    pub subscriptee: Expr,
    pub bracket_open: Token,
    pub index: Expr,
    pub bracket_close: Token,
}

#[derive(Debug)]
pub struct CallExpr {
    pub callee: Expr,
    pub paren_open: Token,
    pub args: Vec<Expr>,
    pub paren_close: Token,
}

#[derive(Debug)]
pub enum Expr {
    Number(NumberExpr),
    String(StringExpr),
    Var(VarExpr),
    Bool(BoolExpr),
    Group(Box<GroupExpr>),
    Prefix(Box<PrefixExpr>),
    Infix(Box<InfixExpr>),
    List(ListExpr),
    Subscript(Box<SubscriptExpr>),
    Call(Box<CallExpr>),
}

#[derive(Debug)]
pub struct PrintStmt {
    pub print_token: Token,
    pub inner: Expr,
}

#[derive(Debug)]
pub struct ReturnStmt {
    pub return_token: Token,
    pub return_val: Option<Expr>,
}

#[derive(Debug)]
pub struct VarDeclStmt {
    pub var_token: Token,
    pub identifier: Token,
    pub init_expr: Expr,
}

#[derive(Debug)]
pub struct StmtList {
    pub stmts: Vec<Stmt>,
}

#[derive(Debug)]
pub struct BlockStmt {
    pub brace_open: Token,
    pub statements: StmtList,
    pub brace_close: Token,
}

#[derive(Debug)]
pub struct ProgramStmt {
    pub statements: StmtList,
    pub eof_token: Token,
}

#[derive(Debug)]
pub struct IfStmt {
    pub if_token: Token,
    pub condition: Expr,
    pub then_clause: BlockStmt,
    pub else_token: Option<Token>,
    /// A block, or another `if` for `else if`.
    pub else_clause: Option<Box<Stmt>>,
}

#[derive(Debug)]
pub struct WhileStmt {
    pub while_token: Token,
    pub condition: Expr,
    pub block: BlockStmt,
}

#[derive(Debug)]
pub struct ExprStmt {
    pub expr: Expr,
}

#[derive(Debug)]
pub struct FnDeclStmt {
    pub fn_token: Token,
    pub name: Token,
    pub parameters: Vec<Token>,
    pub body: BlockStmt,
}

#[derive(Debug)]
pub enum Stmt {
    Print(PrintStmt),
    Return(ReturnStmt),
    VarDecl(VarDeclStmt),
    Block(BlockStmt),
    If(Box<IfStmt>),
    While(WhileStmt),
    ExprStmt(ExprStmt),
    FnDecl(FnDeclStmt),
}

impl NumberExpr {
    pub fn new(token: Token) -> (r: NumberExpr)
        ensures
            r.token == token,
    {
        NumberExpr { token }
    }
}

impl GroupExpr {
    pub fn new(paren_open: Token, inner: Expr, paren_close: Token) -> (r: GroupExpr)
        ensures
            r.paren_open == paren_open,
            r.inner == inner,
            r.paren_close == paren_close,
    {
        GroupExpr { paren_open, inner, paren_close }
    }
}

impl PrefixExpr {
    pub fn new(operator: Token, inner: Expr) -> (r: PrefixExpr)
        ensures
            r.operator == operator,
            r.inner == inner,
    {
        PrefixExpr { operator, inner }
    }
}

impl InfixExpr {
    pub fn new(left: Expr, operator: Token, right: Expr) -> (r: InfixExpr)
        ensures
            r.left == left,
            r.operator == operator,
            r.right == right,
    {
        InfixExpr { left, operator, right }
    }
}

impl ListExpr {
    pub fn new(bracket_open: Token, elements: Vec<Expr>, bracket_close: Token) -> (r: ListExpr)
        ensures
            r.bracket_open == bracket_open,
            r.elements == elements,
            r.bracket_close == bracket_close,
    {
        ListExpr { bracket_open, elements, bracket_close }
    }
}

impl SubscriptExpr {
    pub fn new(subscriptee: Expr, bracket_open: Token, index: Expr, bracket_close: Token) -> (r: SubscriptExpr)
        ensures
            r.subscriptee == subscriptee,
            r.bracket_open == bracket_open,
            r.index == index,
            r.bracket_close == bracket_close,
    {
        SubscriptExpr { subscriptee, bracket_open, index, bracket_close }
    }
}

impl CallExpr {
    pub fn new(callee: Expr, paren_open: Token, args: Vec<Expr>, paren_close: Token) -> (r: CallExpr)
        ensures
            r.callee == callee,
            r.paren_open == paren_open,
            r.args == args,
            r.paren_close == paren_close,
    {
        CallExpr { callee, paren_open, args, paren_close }
    }
}

impl PrintStmt {
    pub fn new(print_token: Token, inner: Expr) -> (r: PrintStmt)
        ensures
            r.print_token == print_token,
            r.inner == inner,
    {
        PrintStmt { print_token, inner }
    }
}

impl ReturnStmt {
    pub fn new(return_token: Token, return_val: Option<Expr>) -> (r: ReturnStmt)
        ensures
            r.return_token == return_token,
            r.return_val == return_val,
    {
        ReturnStmt { return_token, return_val }
    }
}

impl VarDeclStmt {
    pub fn new(var_token: Token, identifier: Token, init_expr: Expr) -> (r: VarDeclStmt)
        ensures
            r.var_token == var_token,
            r.identifier == identifier,
            r.init_expr == init_expr,
    {
        VarDeclStmt { var_token, identifier, init_expr }
    }
}

impl StmtList {
    pub fn new(stmts: Vec<Stmt>) -> (r: StmtList)
        ensures
            r.stmts == stmts,
    {
        StmtList { stmts }
    }
}

impl BlockStmt {
    pub fn new(brace_open: Token, statements: StmtList, brace_close: Token) -> (r: BlockStmt)
        ensures
            r.brace_open == brace_open,
            r.statements == statements,
            r.brace_close == brace_close,
    {
        BlockStmt { brace_open, statements, brace_close }
    }
}

impl ProgramStmt {
    pub fn new(statements: StmtList, eof_token: Token) -> (r: ProgramStmt)
        ensures
            r.statements == statements,
            r.eof_token == eof_token,
    {
        ProgramStmt { statements, eof_token }
    }
}

impl IfStmt {
    pub fn new(if_token: Token, condition: Expr, then_clause: BlockStmt, else_token: Option<Token>, else_clause: Option<Box<Stmt>>) -> (r: IfStmt)
        ensures
            r.if_token == if_token,
            r.condition == condition,
            r.then_clause == then_clause,
            r.else_token == else_token,
            r.else_clause == else_clause,
    {
        IfStmt { if_token, condition, then_clause, else_token, else_clause }
    }
}

impl WhileStmt {
    pub fn new(while_token: Token, condition: Expr, block: BlockStmt) -> (r: WhileStmt)
        ensures
            r.while_token == while_token,
            r.condition == condition,
            r.block == block,
    {
        WhileStmt { while_token, condition, block }
    }
}

impl ExprStmt {
    pub fn new(expr: Expr) -> (r: ExprStmt)
        ensures
            r.expr == expr,
    {
        ExprStmt { expr }
    }
}

impl FnDeclStmt {
    pub fn new(fn_token: Token, name: Token, parameters: Vec<Token>, body: BlockStmt) -> (r: FnDeclStmt)
        ensures
            r.fn_token == fn_token,
            r.name == name,
            r.parameters == parameters,
            r.body == body,
    {
        FnDeclStmt { fn_token, name, parameters, body }
    }
}

} // verus!
