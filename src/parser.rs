//! Recursive descent with one token of lookahead; the first error ends the parse.
use vstd::prelude::*;
use crate::ast::{
    BlockStmt, BoolExpr, CallExpr, Expr, ExprStmt, FnDeclStmt, GroupExpr, IfStmt, InfixExpr, ListExpr,
    NumberExpr, PrefixExpr, PrintStmt, ProgramStmt, ReturnStmt, Stmt, StmtList, StringExpr,
    SubscriptExpr, VarDeclStmt, VarExpr, WhileStmt,
};
use crate::interner::StringInterner;
use crate::lexer::{lemma_next_token_bounds, next_token, Lexer, MAX_SOURCE_CHARS};
use crate::token::{
    is_block_ending, is_block_ending_type, is_comparison_operator, is_comparison_operator_type,
    Token, TokenType,
};

verus! {

#[derive(Debug)]
pub enum ParseError {
    BadToken { message: String, token: Token },
    UnexpectedToken { message: String, token: Token },
    ChainingComparisonOperator { operator: Token },
    ChainingAssignmentOperator { operator: Token },
}

/// How tightly an operator binds; higher binds tighter.
pub open spec fn op_level(t: TokenType) -> nat {
    if t == TokenType::ColonEqual {
        1
    } else if t == TokenType::Or {
        2
    } else if t == TokenType::And {
        3
    } else if is_comparison_operator(t) {
        4
    } else if t == TokenType::DoubleDot {
        5
    } else if t == TokenType::Plus || t == TokenType::Minus {
        6
    } else if t == TokenType::Star || t == TokenType::Slash || t == TokenType::DoubleSlash || t
        == TokenType::Percent {
        7
    } else if t == TokenType::DoubleStar {
        9
    } else {
        0
    }
}

/// The binding level of an expression's outermost construct: its operator,
/// 8 for a prefix operator, 10 for an atom, a group, a call or a subscript.
pub open spec fn rank(e: Expr) -> nat {
    match e {
        Expr::Infix(i) => op_level(i.operator.token_type),
        Expr::Prefix(_) => 8,
        _ => 10,
    }
}

/// The tree follows the grammar's precedence and grouping: an operand binds
/// at least as tightly as its operator, more tightly on the right of a
/// left-grouping operator, and on both sides of one that does not chain
/// (`:=` and comparisons); `**` groups to the right.
pub open spec fn shaped(e: Expr) -> bool
    decreases e, 0nat,
{
    match e {
        Expr::Infix(i) => {
            let l = op_level(i.operator.token_type);
            &&& l > 0
            &&& shaped(i.left) && shaped(i.right)
            &&& (if l == 1 || l == 4 {
                rank(i.left) > l && rank(i.right) > l
            } else if l == 9 {
                rank(i.left) == 10 && rank(i.right) >= 8
            } else {
                rank(i.left) >= l && rank(i.right) > l
            })
        },
        Expr::Prefix(p) => shaped(p.inner) && rank(p.inner) >= 8,
        Expr::Group(g) => shaped(g.inner),
        Expr::Subscript(s) => shaped(s.subscriptee) && rank(s.subscriptee) == 10 && shaped(s.index),
        Expr::Call(c) => shaped(c.callee) && rank(c.callee) == 10 && all_shaped(c.args@),
        Expr::List(l) => all_shaped(l.elements@),
        _ => true,
    }
}

pub open spec fn all_shaped(es: Seq<Expr>) -> bool
    decreases es, 0nat,
{
    if es.len() == 0 {
        true
    } else {
        all_shaped(es.drop_last()) && shaped(es.last())
    }
}

proof fn lemma_all_shaped_push(es: Seq<Expr>, e: Expr)
    requires
        all_shaped(es),
        shaped(e),
    ensures
        all_shaped(es.push(e)),
{
    assert(es.push(e).drop_last() =~= es);
}

/// Every expression in the statement is shaped.
pub open spec fn stmt_shaped(s: Stmt) -> bool
    decreases s, 0nat,
{
    match s {
        Stmt::Print(p) => shaped(p.inner),
        Stmt::Return(r) => r.return_val matches Some(v) ==> shaped(v),
        Stmt::VarDecl(v) => shaped(v.init_expr),
        Stmt::Block(b) => stmts_shaped(b.statements.stmts@),
        Stmt::If(i) => shaped(i.condition) && stmts_shaped(i.then_clause.statements.stmts@) && (
        i.else_clause matches Some(e) ==> stmt_shaped(*e)),
        Stmt::While(w) => shaped(w.condition) && stmts_shaped(w.block.statements.stmts@),
        Stmt::ExprStmt(e) => shaped(e.expr),
        Stmt::FnDecl(f) => stmts_shaped(f.body.statements.stmts@),
    }
}

pub open spec fn stmts_shaped(ss: Seq<Stmt>) -> bool
    decreases ss, 0nat,
{
    if ss.len() == 0 {
        true
    } else {
        stmts_shaped(ss.drop_last()) && stmt_shaped(ss.last())
    }
}

proof fn lemma_stmts_shaped_push(ss: Seq<Stmt>, x: Stmt)
    requires
        stmts_shaped(ss),
        stmt_shaped(x),
    ensures
        stmts_shaped(ss.push(x)),
{
    assert(ss.push(x).drop_last() =~= ss);
}

/// The token that a bad-token or unexpected-token error reports.
pub open spec fn bad_token_of(e: ParseError) -> Option<Token> {
    match e {
        ParseError::BadToken { token, .. } => Some(token),
        ParseError::UnexpectedToken { token, .. } => Some(token),
        _ => None,
    }
}

/// A chaining error carries the second operator of its chain.
pub open spec fn error_ok(e: ParseError) -> bool {
    match e {
        ParseError::ChainingComparisonOperator { operator } => is_comparison_operator(
            operator.token_type,
        ),
        ParseError::ChainingAssignmentOperator { operator } => operator.token_type
            == TokenType::ColonEqual,
        _ => true,
    }
}

pub struct Parser {
    lexer: Lexer,
    peek_token: Token,
}

impl Parser {
    pub closed spec fn wf(&self) -> bool {
        &&& self.lexer.wf()
        &&& self.peek_token.token_type == TokenType::Eof ==> self.lexer.cursor()
            == self.lexer.source().len()
    }

    /// The token that the parser looks at next.
    pub closed spec fn peek(&self) -> Token {
        self.peek_token
    }

    pub closed spec fn source(&self) -> Seq<char> {
        self.lexer.source()
    }

    pub closed spec fn strings(&self) -> StringInterner {
        self.lexer.strings()
    }

    /// Falls with every token taken, except Eof, which is never used up.
    pub closed spec fn measure(&self) -> nat {
        (2 * (self.lexer.source().len() - self.lexer.cursor()) + (if self.peek_token.token_type
            == TokenType::Eof {
            0int
        } else {
            1int
        })) as nat
    }

    /// Whether all of the input has been read.
    pub closed spec fn at_end(&self) -> bool {
        self.peek_token.token_type == TokenType::Eof
    }

    pub proof fn lemma_strings_wf(&self)
        requires
            self.wf(),
        ensures
            self.strings().wf(),
    {
        self.lexer.lemma_cursor();
    }

    pub fn new(lexer: Lexer) -> (r: Self)
        requires
            lexer.wf(),
        ensures
            r.wf(),
            r.source() == lexer.source(),
            r.peek().token_type == next_token(lexer.source(), lexer.cursor()).0,
    {
        let mut lexer = lexer;
        proof {
            lexer.lemma_cursor();
            lemma_next_token_bounds(lexer.source(), lexer.cursor());
        }
        let t = lexer.lex_token();
        Parser { lexer, peek_token: t }
    }

    pub fn from_str(source: &str, interner: StringInterner) -> (r: Self)
        requires
            interner.wf(),
            interner.text().len() <= MAX_SOURCE_CHARS,
            interner.handles().len() <= MAX_SOURCE_CHARS,
            source@.len() <= MAX_SOURCE_CHARS,
        ensures
            r.wf(),
            r.source() == source@,
    {
        Self::new(Lexer::new(source, interner))
    }

    /// Gives the interner back, with the text of every token read.
    pub fn into_interner(self) -> (r: StringInterner)
        ensures
            r == self.strings(),
    {
        self.lexer.into_interner()
    }

    pub fn interner(&self) -> (r: &StringInterner)
        ensures
            *r == self.strings(),
    {
        self.lexer.interner()
    }

    fn peek_type(&self) -> (r: TokenType)
        ensures
            r == self.peek_token.token_type,
    {
        self.peek_token.token_type
    }

    fn advance_token(&mut self) -> (r: Token)
        requires
            old(self).wf(),
        ensures
            final(self).wf(),
            r == old(self).peek_token,
            final(self).source() == old(self).source(),
            final(self).measure() <= old(self).measure(),
            old(self).peek_token.token_type != TokenType::Eof ==> final(self).measure() < old(self).measure(),
            old(self).at_end() ==> final(self).at_end(),
    {
        proof {
            self.lexer.lemma_cursor();
            lemma_next_token_bounds(self.lexer.source(), self.lexer.cursor());
        }
        let t = self.lexer.lex_token();
        let prev = self.peek_token;
        self.peek_token = t;
        prev
    }

    fn check_advance(&mut self, expected: TokenType) -> (r: Option<Token>)
        requires
            old(self).wf(),
        ensures
            final(self).wf(),
            final(self).source() == old(self).source(),
            final(self).measure() <= old(self).measure(),
            r is None ==> *final(self) == *old(self),
            r is None ==> old(self).peek_token.token_type != expected,
            r matches Some(t) ==> t == old(self).peek_token && t.token_type == expected,
            r is Some && expected != TokenType::Eof ==> final(self).measure() < old(self).measure(),
    {
        if self.peek_type() == expected {
            Some(self.advance_token())
        } else {
            None
        }
    }

    /// Takes the next token if it has the expected type; otherwise takes it
    /// anyway and reports it as a bad token.
    fn expect(&mut self, expected: TokenType, message: &str) -> (r: Result<Token, ParseError>)
        requires
            old(self).wf(),
        ensures
            final(self).wf(),
            final(self).source() == old(self).source(),
            r matches Err(e) ==> error_ok(e),
            final(self).measure() <= old(self).measure(),
            r matches Ok(t) ==> t.token_type == expected && t == old(self).peek_token,
            old(self).peek_token.token_type == expected ==> r is Ok,
            r is Ok && expected != TokenType::Eof ==> final(self).measure() < old(self).measure(),
            r is Ok && expected == TokenType::Eof ==> final(self).at_end(),
            r matches Err(e) ==> e matches ParseError::BadToken { token, .. } && token == old(self).peek_token,
    {
        if self.peek_type() == expected {
            Ok(self.advance_token())
        } else {
            let token = self.advance_token();
            Err(ParseError::BadToken { message: message.to_string(), token })
        }
    }

    /// Parses a whole program, which must run to the end of the input.
    pub fn parse_program(&mut self) -> (r: Result<ProgramStmt, ParseError>)
        requires
            old(self).wf(),
        ensures
            final(self).wf(),
            final(self).source() == old(self).source(),
            r matches Ok(p) ==> stmts_shaped(p.statements.stmts@),
            old(self).at_end() ==> (r is Ok && r->Ok_0.statements.stmts@.len() == 0),
            r matches Err(e) ==> error_ok(e),
            r matches Ok(p) ==> p.eof_token.token_type == TokenType::Eof && final(self).at_end(),
        decreases old(self).measure(), 40nat,
    {
        let statements = self.parse_statement_list()?;
        let eof_token = self.expect(TokenType::Eof, "the program should end here")?;
        Ok(ProgramStmt { statements, eof_token })
    }

    fn parse_statement_list(&mut self) -> (r: Result<StmtList, ParseError>)
        requires
            old(self).wf(),
        ensures
            final(self).wf(),
            final(self).source() == old(self).source(),
            r matches Ok(l) ==> stmts_shaped(l.stmts@),
            is_block_ending(old(self).peek_token.token_type) ==> (r is Ok && r->Ok_0.stmts@.len() == 0 && *final(self) == *old(self)),
            r matches Err(e) ==> error_ok(e),
            final(self).measure() <= old(self).measure(),
            r is Ok ==> is_block_ending(final(self).peek_token.token_type),
        decreases old(self).measure(), 39nat,
    {
        let mut stmts: Vec<Stmt> = Vec::new();
        assert(stmts_shaped(stmts@));
        while !is_block_ending_type(self.peek_type())
            invariant
                self.wf(),
                self.source() == old(self).source(),
                is_block_ending(old(self).peek_token.token_type) ==> (*self == *old(self) && stmts@.len() == 0),
                stmts_shaped(stmts@),
                self.measure() <= old(self).measure(),
            decreases self.measure(),
        {
            let stmt = self.parse_statement()?;
            let ghost s0 = stmts@;
            stmts.push(stmt);
            proof {
                lemma_stmts_shaped_push(s0, stmt);
            }
        }
        Ok(StmtList { stmts })
    }

    fn finish_block_stmt(&mut self, brace_open: Token) -> (r: Result<BlockStmt, ParseError>)
        requires
            old(self).wf(),
        ensures
            final(self).wf(),
            final(self).source() == old(self).source(),
            r matches Ok(b) ==> stmts_shaped(b.statements.stmts@),
            r matches Err(e) ==> error_ok(e),
            final(self).measure() <= old(self).measure(),
            r is Ok ==> final(self).measure() < old(self).measure(),
        decreases old(self).measure(), 41nat,
    {
        let statements = self.parse_statement_list()?;
        let brace_close = self.expect(TokenType::BraceClose, "expected '}' to close block")?;
        Ok(BlockStmt { brace_open, statements, brace_close })
    }

    fn finish_var_decl_statement(&mut self, var_token: Token) -> (r: Result<VarDeclStmt, ParseError>)
        requires
            old(self).wf(),
        ensures
            final(self).wf(),
            final(self).source() == old(self).source(),
            r matches Ok(v) ==> shaped(v.init_expr),
            r matches Err(e) ==> error_ok(e),
            final(self).measure() <= old(self).measure(),
            r is Ok ==> final(self).measure() < old(self).measure(),
        decreases old(self).measure(), 36nat,
    {
        let identifier = self.expect(
            TokenType::Identifier,
            "expected identifier after variable declaration",
        )?;
        let _assign = self.expect(TokenType::ColonEqual, "expected := after variable name")?;
        let init_expr = self.parse_expression()?;
        Ok(VarDeclStmt { var_token, identifier, init_expr })
    }

    fn finish_if_stmt(&mut self, if_token: Token) -> (r: Result<IfStmt, ParseError>)
        requires
            old(self).wf(),
        ensures
            final(self).wf(),
            final(self).source() == old(self).source(),
            r matches Ok(i) ==> stmt_shaped(Stmt::If(Box::new(i))),
            r matches Err(e) ==> error_ok(e),
            final(self).measure() <= old(self).measure(),
            r is Ok ==> final(self).measure() < old(self).measure(),
        decreases old(self).measure(), 42nat,
    {
        let condition = self.parse_expression()?;
        let brace_open = self.expect(TokenType::BraceOpen, "expected '{' after if-condition")?;
        let then_clause = self.finish_block_stmt(brace_open)?;
        match self.check_advance(TokenType::Else) {
            Some(else_token) => {
                match self.check_advance(TokenType::If) {
                    Some(else_if_token) => {
                        let else_if = self.finish_if_stmt(else_if_token)?;
                        let ghost inner = Stmt::If(Box::new(else_if));
                        let res = IfStmt {
                            if_token,
                            condition,
                            then_clause,
                            else_token: Some(else_token),
                            else_clause: Some(Box::new(Stmt::If(Box::new(else_if)))),
                        };
                        assert(res.else_clause == Some(Box::new(inner)));
                        assert(stmt_shaped(inner));
                        assert(stmt_shaped(Stmt::If(Box::new(res))));
                        Ok(res)
                    },
                    None => {
                        let brace_open = self.expect(
                            TokenType::BraceOpen,
                            "expected '{' after else",
                        )?;
                        let else_block = self.finish_block_stmt(brace_open)?;
                        let ghost inner = Stmt::Block(else_block);
                        assert(stmt_shaped(inner));
                        let res = IfStmt {
                            if_token,
                            condition,
                            then_clause,
                            else_token: Some(else_token),
                            else_clause: Some(Box::new(Stmt::Block(else_block))),
                        };
                        assert(stmt_shaped(Stmt::If(Box::new(res))));
                        Ok(res)
                    },
                }
            },
            None => {
                let res = IfStmt {
                    if_token,
                    condition,
                    then_clause,
                    else_token: None,
                    else_clause: None,
                };
                assert(stmt_shaped(Stmt::If(Box::new(res))));
                Ok(res)
            },
        }
    }

    fn finish_while_stmt(&mut self, while_token: Token) -> (r: Result<WhileStmt, ParseError>)
        requires
            old(self).wf(),
        ensures
            final(self).wf(),
            final(self).source() == old(self).source(),
            r matches Ok(w) ==> shaped(w.condition) && stmts_shaped(w.block.statements.stmts@),
            r matches Err(e) ==> error_ok(e),
            final(self).measure() <= old(self).measure(),
            r is Ok ==> final(self).measure() < old(self).measure(),
        decreases old(self).measure(), 42nat,
    {
        let condition = self.parse_expression()?;
        let brace_open = self.expect(
            TokenType::BraceOpen,
            "expected '{' after condition in while statement",
        )?;
        let block = self.finish_block_stmt(brace_open)?;
        Ok(WhileStmt { while_token, condition, block })
    }

    fn finish_fn_decl_stmt(&mut self, fn_token: Token) -> (r: Result<FnDeclStmt, ParseError>)
        requires
            old(self).wf(),
        ensures
            final(self).wf(),
            final(self).source() == old(self).source(),
            r matches Ok(f) ==> stmts_shaped(f.body.statements.stmts@),
            r matches Err(e) ==> error_ok(e),
            final(self).measure() <= old(self).measure(),
            r is Ok ==> final(self).measure() < old(self).measure(),
        decreases old(self).measure(), 42nat,
    {
        let name = self.expect(
            TokenType::Identifier,
            "expected function name after 'fn' in statement",
        )?;
        let _paren_open = self.expect(TokenType::ParenOpen, "expected '(' after function name")?;
        let mut parameters: Vec<Token> = Vec::new();
        let ghost m1 = self.measure();
        loop
            invariant
                self.wf(),
                self.source() == old(self).source(),
                self.measure() <= m1 < old(self).measure(),
            decreases self.measure(),
        {
            if self.peek_type() == TokenType::ParenClose {
                break;
            }
            let p = self.expect(TokenType::Identifier, "expected parameter name")?;
            parameters.push(p);
            if self.check_advance(TokenType::Comma).is_none() {
                break;
            }
        }
        let _paren_close = self.expect(TokenType::ParenClose, "expected ')' after parameter list")?;
        let brace_open = self.expect(TokenType::BraceOpen, "expected function body")?;
        let body = self.finish_block_stmt(brace_open)?;
        Ok(FnDeclStmt { fn_token, name, parameters, body })
    }

    fn finish_return_statement(&mut self, return_token: Token) -> (r: Result<
        ReturnStmt,
        ParseError,
    >)
        requires
            old(self).wf(),
        ensures
            final(self).wf(),
            final(self).source() == old(self).source(),
            r matches Ok(x) ==> (x.return_val matches Some(v) ==> shaped(v)),
            r matches Err(e) ==> error_ok(e),
            final(self).measure() <= old(self).measure(),
        decreases old(self).measure(), 42nat,
    {
        if is_block_ending_type(self.peek_type()) {
            Ok(ReturnStmt { return_token, return_val: None })
        } else {
            let e = self.parse_expression()?;
            Ok(ReturnStmt { return_token, return_val: Some(e) })
        }
    }

    fn parse_statement(&mut self) -> (r: Result<Stmt, ParseError>)
        requires
            old(self).wf(),
            !is_block_ending(old(self).peek_token.token_type),
        ensures
            final(self).wf(),
            final(self).source() == old(self).source(),
            r matches Ok(x) ==> stmt_shaped(x),
            r matches Err(e) ==> error_ok(e),
            final(self).measure() <= old(self).measure(),
            r is Ok ==> final(self).measure() < old(self).measure(),
        decreases old(self).measure(), 38nat,
    {
        let node = match self.peek_type() {
            TokenType::Let => {
                let t = self.advance_token();
                Stmt::VarDecl(self.finish_var_decl_statement(t)?)
            },
            TokenType::Print => {
                let t = self.advance_token();
                let inner = self.parse_expression()?;
                Stmt::Print(PrintStmt { print_token: t, inner })
            },
            TokenType::BraceOpen => {
                let t = self.advance_token();
                Stmt::Block(self.finish_block_stmt(t)?)
            },
            TokenType::If => {
                let t = self.advance_token();
                Stmt::If(Box::new(self.finish_if_stmt(t)?))
            },
            TokenType::While => {
                let t = self.advance_token();
                Stmt::While(self.finish_while_stmt(t)?)
            },
            TokenType::Fn => {
                let t = self.advance_token();
                Stmt::FnDecl(self.finish_fn_decl_stmt(t)?)
            },
            TokenType::Return => {
                let t = self.advance_token();
                Stmt::Return(self.finish_return_statement(t)?)
            },
            _ => Stmt::ExprStmt(ExprStmt { expr: self.parse_expression()? }),
        };
        let ghost m1 = self.measure();
        while self.check_advance(TokenType::Semicolon).is_some()
            invariant
                self.wf(),
                self.source() == old(self).source(),
                self.measure() <= m1 < old(self).measure(),
            decreases self.measure(),
        {
        }
        Ok(node)
    }

    fn finish_group_expression(&mut self, paren_open: Token) -> (r: Result<Expr, ParseError>)
        requires
            old(self).wf(),
        ensures
            final(self).wf(),
            final(self).source() == old(self).source(),
            r matches Ok(e) ==> shaped(e) && rank(e) >= 10,
            r matches Err(e) ==> error_ok(e),
            final(self).measure() <= old(self).measure(),
            r is Ok ==> final(self).measure() < old(self).measure(),
        decreases old(self).measure(), 38nat,
    {
        let inner = self.parse_expression()?;
        let paren_close = self.expect(TokenType::ParenClose, "expected a closing parenthesis")?;
        Ok(Expr::Group(Box::new(GroupExpr { paren_open, inner, paren_close })))
    }

    /// Elements up to the closing bracket; a trailing comma is allowed.
    fn finish_list_expression(&mut self, bracket_open: Token) -> (r: Result<Expr, ParseError>)
        requires
            old(self).wf(),
        ensures
            final(self).wf(),
            final(self).source() == old(self).source(),
            r matches Ok(e) ==> shaped(e) && rank(e) >= 10,
            r matches Err(e) ==> error_ok(e),
            final(self).measure() <= old(self).measure(),
            r is Ok ==> final(self).measure() < old(self).measure(),
        decreases old(self).measure(), 38nat,
    {
        let mut elements: Vec<Expr> = Vec::new();
        assert(all_shaped(elements@));
        if let Some(bracket_close) = self.check_advance(TokenType::BracketClose) {
            return Ok(Expr::List(ListExpr { bracket_open, elements, bracket_close }));
        }
        let first = self.parse_expression()?;
        let ghost e0 = elements@;
        elements.push(first);
        proof {
            lemma_all_shaped_push(e0, first);
        }
        let ghost m1 = self.measure();
        loop
            invariant
                self.wf(),
                self.source() == old(self).source(),
                all_shaped(elements@),
                self.measure() <= m1 < old(self).measure(),
            decreases self.measure(),
        {
            if self.check_advance(TokenType::Comma).is_none() {
                break;
            }
            if let Some(bracket_close) = self.check_advance(TokenType::BracketClose) {
                return Ok(Expr::List(ListExpr { bracket_open, elements, bracket_close }));
            }
            let e = self.parse_expression()?;
            let ghost e0 = elements@;
            elements.push(e);
            proof {
                lemma_all_shaped_push(e0, e);
            }
        }
        let bracket_close = self.expect(TokenType::BracketClose, "expected ']' to terminate list")?;
        Ok(Expr::List(ListExpr { bracket_open, elements, bracket_close }))
    }

    fn parse_expression(&mut self) -> (r: Result<Expr, ParseError>)
        requires
            old(self).wf(),
        ensures
            final(self).wf(),
            final(self).source() == old(self).source(),
            r matches Ok(e) ==> shaped(e) && rank(e) >= 1,
            r matches Err(e) ==> error_ok(e),
            final(self).measure() <= old(self).measure(),
            r is Ok ==> final(self).measure() < old(self).measure(),
        decreases old(self).measure(), 37nat,
    {
        self.parse_assignment()
    }

    /// `or (':=' or)?`; a second `:=` is an error.
    fn parse_assignment(&mut self) -> (r: Result<Expr, ParseError>)
        requires
            old(self).wf(),
        ensures
            final(self).wf(),
            final(self).source() == old(self).source(),
            r matches Ok(e) ==> shaped(e) && rank(e) >= 1,
            r matches Err(e) ==> error_ok(e),
            final(self).measure() <= old(self).measure(),
            r is Ok ==> final(self).measure() < old(self).measure(),
        decreases old(self).measure(), 36nat,
    {
        let left = self.parse_or()?;
        match self.check_advance(TokenType::ColonEqual) {
            Some(operator) => {
                let right = self.parse_or()?;
                if let Some(chained) = self.check_advance(TokenType::ColonEqual) {
                    return Err(ParseError::ChainingAssignmentOperator { operator: chained });
                }
                Ok(Expr::Infix(Box::new(InfixExpr { left, operator, right })))
            },
            None => Ok(left),
        }
    }

    fn parse_or(&mut self) -> (r: Result<Expr, ParseError>)
        requires
            old(self).wf(),
        ensures
            final(self).wf(),
            final(self).source() == old(self).source(),
            r matches Ok(e) ==> shaped(e) && rank(e) >= 2,
            r matches Err(e) ==> error_ok(e),
            final(self).measure() <= old(self).measure(),
            r is Ok ==> final(self).measure() < old(self).measure(),
        decreases old(self).measure(), 35nat,
    {
        let mut expr = self.parse_and()?;
        let ghost m1 = self.measure();
        loop
            invariant
                self.wf(),
                self.source() == old(self).source(),
                shaped(expr) && rank(expr) >= 2,
                self.measure() <= m1 < old(self).measure(),
            decreases self.measure(),
        {
            match self.check_advance(TokenType::Or) {
                Some(operator) => {
                    let right = self.parse_and()?;
                    expr = Expr::Infix(Box::new(InfixExpr { left: expr, operator, right }));
                },
                None => break,
            }
        }
        Ok(expr)
    }

    fn parse_and(&mut self) -> (r: Result<Expr, ParseError>)
        requires
            old(self).wf(),
        ensures
            final(self).wf(),
            final(self).source() == old(self).source(),
            r matches Ok(e) ==> shaped(e) && rank(e) >= 3,
            r matches Err(e) ==> error_ok(e),
            final(self).measure() <= old(self).measure(),
            r is Ok ==> final(self).measure() < old(self).measure(),
        decreases old(self).measure(), 34nat,
    {
        let mut expr = self.parse_comparison()?;
        let ghost m1 = self.measure();
        loop
            invariant
                self.wf(),
                self.source() == old(self).source(),
                shaped(expr) && rank(expr) >= 3,
                self.measure() <= m1 < old(self).measure(),
            decreases self.measure(),
        {
            match self.check_advance(TokenType::And) {
                Some(operator) => {
                    let right = self.parse_comparison()?;
                    expr = Expr::Infix(Box::new(InfixExpr { left: expr, operator, right }));
                },
                None => break,
            }
        }
        Ok(expr)
    }

    /// Takes a comparison operator if one is next.
    fn check_advance_comparison(&mut self) -> (r: Option<Token>)
        requires
            old(self).wf(),
        ensures
            final(self).wf(),
            final(self).source() == old(self).source(),
            final(self).measure() <= old(self).measure(),
            r is None ==> *final(self) == *old(self),
            r is None ==> !is_comparison_operator(old(self).peek_token.token_type),
            r matches Some(t) ==> t == old(self).peek_token && is_comparison_operator(t.token_type),
            r is Some ==> final(self).measure() < old(self).measure(),
    {
        if is_comparison_operator_type(self.peek_type()) {
            Some(self.advance_token())
        } else {
            None
        }
    }

    /// `concat (cmp_op concat)?`; a second comparison operator is an error.
    fn parse_comparison(&mut self) -> (r: Result<Expr, ParseError>)
        requires
            old(self).wf(),
        ensures
            final(self).wf(),
            final(self).source() == old(self).source(),
            r matches Ok(e) ==> shaped(e) && rank(e) >= 4,
            r matches Err(e) ==> error_ok(e),
            final(self).measure() <= old(self).measure(),
            r is Ok ==> final(self).measure() < old(self).measure(),
        decreases old(self).measure(), 33nat,
    {
        let left = self.parse_concatenation()?;
        match self.check_advance_comparison() {
            Some(operator) => {
                let right = self.parse_concatenation()?;
                if let Some(chained) = self.check_advance_comparison() {
                    return Err(ParseError::ChainingComparisonOperator { operator: chained });
                }
                Ok(Expr::Infix(Box::new(InfixExpr { left, operator, right })))
            },
            None => Ok(left),
        }
    }

    fn parse_concatenation(&mut self) -> (r: Result<Expr, ParseError>)
        requires
            old(self).wf(),
        ensures
            final(self).wf(),
            final(self).source() == old(self).source(),
            r matches Ok(e) ==> shaped(e) && rank(e) >= 5,
            r matches Err(e) ==> error_ok(e),
            final(self).measure() <= old(self).measure(),
            r is Ok ==> final(self).measure() < old(self).measure(),
        decreases old(self).measure(), 32nat,
    {
        let mut expr = self.parse_addition()?;
        let ghost m1 = self.measure();
        loop
            invariant
                self.wf(),
                self.source() == old(self).source(),
                shaped(expr) && rank(expr) >= 5,
                self.measure() <= m1 < old(self).measure(),
            decreases self.measure(),
        {
            match self.check_advance(TokenType::DoubleDot) {
                Some(operator) => {
                    let right = self.parse_addition()?;
                    expr = Expr::Infix(Box::new(InfixExpr { left: expr, operator, right }));
                },
                None => break,
            }
        }
        Ok(expr)
    }

    fn parse_addition(&mut self) -> (r: Result<Expr, ParseError>)
        requires
            old(self).wf(),
        ensures
            final(self).wf(),
            final(self).source() == old(self).source(),
            r matches Ok(e) ==> shaped(e) && rank(e) >= 6,
            r matches Err(e) ==> error_ok(e),
            final(self).measure() <= old(self).measure(),
            r is Ok ==> final(self).measure() < old(self).measure(),
        decreases old(self).measure(), 31nat,
    {
        let mut expr = self.parse_multiplication()?;
        let ghost m1 = self.measure();
        loop
            invariant
                self.wf(),
                self.source() == old(self).source(),
                shaped(expr) && rank(expr) >= 6,
                self.measure() <= m1 < old(self).measure(),
            decreases self.measure(),
        {
            let t = self.peek_type();
            if t != TokenType::Plus && t != TokenType::Minus {
                break;
            }
            let operator = self.advance_token();
            let right = self.parse_multiplication()?;
            expr = Expr::Infix(Box::new(InfixExpr { left: expr, operator, right }));
        }
        Ok(expr)
    }

    fn parse_multiplication(&mut self) -> (r: Result<Expr, ParseError>)
        requires
            old(self).wf(),
        ensures
            final(self).wf(),
            final(self).source() == old(self).source(),
            r matches Ok(e) ==> shaped(e) && rank(e) >= 7,
            r matches Err(e) ==> error_ok(e),
            final(self).measure() <= old(self).measure(),
            r is Ok ==> final(self).measure() < old(self).measure(),
        decreases old(self).measure(), 30nat,
    {
        let mut expr = self.parse_unary()?;
        let ghost m1 = self.measure();
        loop
            invariant
                self.wf(),
                self.source() == old(self).source(),
                shaped(expr) && rank(expr) >= 7,
                self.measure() <= m1 < old(self).measure(),
            decreases self.measure(),
        {
            let t = self.peek_type();
            if t != TokenType::Star && t != TokenType::Slash && t != TokenType::DoubleSlash && t
                != TokenType::Percent {
                break;
            }
            let operator = self.advance_token();
            let right = self.parse_unary()?;
            expr = Expr::Infix(Box::new(InfixExpr { left: expr, operator, right }));
        }
        Ok(expr)
    }

    fn parse_unary(&mut self) -> (r: Result<Expr, ParseError>)
        requires
            old(self).wf(),
        ensures
            final(self).wf(),
            final(self).source() == old(self).source(),
            r matches Ok(e) ==> shaped(e) && rank(e) >= 8,
            r matches Err(e) ==> error_ok(e),
            final(self).measure() <= old(self).measure(),
            r is Ok ==> final(self).measure() < old(self).measure(),
        decreases old(self).measure(), 29nat,
    {
        let t = self.peek_type();
        if t == TokenType::Not || t == TokenType::Minus {
            let operator = self.advance_token();
            let inner = self.parse_unary()?;
            Ok(Expr::Prefix(Box::new(PrefixExpr { operator, inner })))
        } else {
            self.parse_exponent()
        }
    }

    /// `call ('**' unary)?`, so that `**` groups to the right.
    fn parse_exponent(&mut self) -> (r: Result<Expr, ParseError>)
        requires
            old(self).wf(),
        ensures
            final(self).wf(),
            final(self).source() == old(self).source(),
            r matches Ok(e) ==> shaped(e) && rank(e) >= 9,
            r matches Err(e) ==> error_ok(e),
            final(self).measure() <= old(self).measure(),
            r is Ok ==> final(self).measure() < old(self).measure(),
        decreases old(self).measure(), 28nat,
    {
        let left = self.parse_call()?;
        match self.check_advance(TokenType::DoubleStar) {
            Some(operator) => {
                let right = self.parse_unary()?;
                Ok(Expr::Infix(Box::new(InfixExpr { left, operator, right })))
            },
            None => Ok(left),
        }
    }

    /// An atom followed by any number of calls and subscripts.
    fn parse_call(&mut self) -> (r: Result<Expr, ParseError>)
        requires
            old(self).wf(),
        ensures
            final(self).wf(),
            final(self).source() == old(self).source(),
            r matches Ok(e) ==> shaped(e) && rank(e) >= 10,
            r matches Err(e) ==> error_ok(e),
            final(self).measure() <= old(self).measure(),
            r is Ok ==> final(self).measure() < old(self).measure(),
        decreases old(self).measure(), 27nat,
    {
        let mut expr = self.parse_atom()?;
        let ghost m1 = self.measure();
        loop
            invariant
                self.wf(),
                self.source() == old(self).source(),
                shaped(expr) && rank(expr) == 10,
                self.measure() <= m1 < old(self).measure(),
            decreases self.measure(),
        {
            let t = self.peek_type();
            if t == TokenType::BracketOpen {
                let bracket_open = self.advance_token();
                let index = self.parse_expression()?;
                let bracket_close = self.expect(
                    TokenType::BracketClose,
                    "expected ] to close subscript operator",
                )?;
                expr = Expr::Subscript(
                    Box::new(SubscriptExpr { subscriptee: expr, bracket_open, index, bracket_close }),
                );
            } else if t == TokenType::ParenOpen {
                let paren_open = self.advance_token();
                let (args, paren_close) = self.finish_arguments()?;
                expr = Expr::Call(Box::new(CallExpr { callee: expr, paren_open, args, paren_close }));
            } else {
                break;
            }
        }
        Ok(expr)
    }

    /// Arguments up to the closing parenthesis; a trailing comma is allowed.
    fn finish_arguments(&mut self) -> (r: Result<(Vec<Expr>, Token), ParseError>)
        requires
            old(self).wf(),
        ensures
            final(self).wf(),
            final(self).source() == old(self).source(),
            r matches Ok((args, _)) ==> all_shaped(args@),
            r matches Err(e) ==> error_ok(e),
            final(self).measure() <= old(self).measure(),
            r is Ok ==> final(self).measure() < old(self).measure(),
        decreases old(self).measure(), 38nat,
    {
        let mut args: Vec<Expr> = Vec::new();
        if let Some(paren_close) = self.check_advance(TokenType::ParenClose) {
            return Ok((args, paren_close));
        }
        let first = self.parse_expression()?;
        let ghost a0 = args@;
        args.push(first);
        proof {
            lemma_all_shaped_push(a0, first);
        }
        let ghost m1 = self.measure();
        loop
            invariant
                self.wf(),
                self.source() == old(self).source(),
                all_shaped(args@),
                self.measure() <= m1 < old(self).measure(),
            decreases self.measure(),
        {
            if self.check_advance(TokenType::Comma).is_none() {
                break;
            }
            if let Some(paren_close) = self.check_advance(TokenType::ParenClose) {
                return Ok((args, paren_close));
            }
            let e = self.parse_expression()?;
            let ghost a0 = args@;
            args.push(e);
            proof {
                lemma_all_shaped_push(a0, e);
            }
        }
        let paren_close = self.expect(TokenType::ParenClose, "expected ')' to close argument list")?;
        Ok((args, paren_close))
    }

    fn parse_atom(&mut self) -> (r: Result<Expr, ParseError>)
        requires
            old(self).wf(),
        ensures
            ({
                let t = old(self).peek_token;
                &&& t.token_type == TokenType::Number ==> r == Ok::<Expr, ParseError>(
                    Expr::Number(NumberExpr { token: t }),
                )
                &&& t.token_type == TokenType::String ==> r == Ok::<Expr, ParseError>(
                    Expr::String(StringExpr { token: t, string: old(self).lexer.unquoted() }),
                )
                &&& t.token_type == TokenType::True ==> r == Ok::<Expr, ParseError>(
                    Expr::Bool(BoolExpr { token: t, value: true }),
                )
                &&& t.token_type == TokenType::False ==> r == Ok::<Expr, ParseError>(
                    Expr::Bool(BoolExpr { token: t, value: false }),
                )
                &&& t.token_type == TokenType::Identifier ==> r == Ok::<Expr, ParseError>(
                    Expr::Var(VarExpr { identifier: t }),
                )
                &&& !(t.token_type == TokenType::Number || t.token_type == TokenType::String
                    || t.token_type == TokenType::True || t.token_type == TokenType::False
                    || t.token_type == TokenType::Identifier || t.token_type == TokenType::ParenOpen
                    || t.token_type == TokenType::BracketOpen) ==> r is Err && bad_token_of(r->Err_0)
                    == Some(t)
            }),
            final(self).wf(),
            final(self).source() == old(self).source(),
            r matches Ok(e) ==> shaped(e) && rank(e) >= 10,
            r matches Err(e) ==> error_ok(e),
            final(self).measure() <= old(self).measure(),
            r is Ok ==> final(self).measure() < old(self).measure(),
        decreases old(self).measure(), 26nat,
    {
        let unquoted = self.lexer.unquoted_string();
        let token = self.advance_token();
        match token.token_type {
            TokenType::Number => Ok(Expr::Number(NumberExpr { token })),
            TokenType::String => Ok(Expr::String(StringExpr::new(token, unquoted))),
            TokenType::True => Ok(Expr::Bool(BoolExpr::new(token, true))),
            TokenType::False => Ok(Expr::Bool(BoolExpr::new(token, false))),
            TokenType::Identifier => Ok(Expr::Var(VarExpr::new(token))),
            TokenType::ParenOpen => self.finish_group_expression(token),
            TokenType::BracketOpen => self.finish_list_expression(token),
            TokenType::Fn => Err(
                ParseError::UnexpectedToken {
                    message: "anonymous functions are not implemented".to_string(),
                    token,
                },
            ),
            _ => Err(
                ParseError::BadToken {
                    message: "expected either a literal, a variable or (".to_string(),
                    token,
                },
            ),
        }
    }
}

} // verus!
