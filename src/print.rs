//! The syntax tree written out as S-expressions.
use vstd::prelude::*;
use crate::ast::{BlockStmt, Expr, ProgramStmt, Stmt, StmtList};
use crate::interner::{chars_of, Atom, StringInterner};
use crate::token::Token;

verus! {

/// The text of an atom where its range lies in `t`, else nothing.
pub open spec fn atom_text(t: Seq<char>, a: Atom) -> Seq<char> {
    if a.start <= a.end <= t.len() {
        chars_of(t, a)
    } else {
        Seq::<char>::empty()
    }
}

pub open spec fn tok(t: Seq<char>, k: Token) -> Seq<char> {
    atom_text(t, k.lexeme)
}

pub open spec fn expr_text(e: Expr, t: Seq<char>) -> Seq<char>
    decreases e, 0nat,
{
    match e {
        Expr::Number(n) => tok(t, n.token),
        Expr::String(s) => tok(t, s.token),
        Expr::Var(v) => tok(t, v.identifier),
        Expr::Bool(b) => tok(t, b.token),
        Expr::Group(g) => seq!['('] + expr_text(g.inner, t) + seq![')'],
        Expr::Prefix(p) => seq!['('] + tok(t, p.operator) + seq![' '] + expr_text(p.inner, t) + seq![
            ')',
        ],
        Expr::Infix(i) => seq!['('] + tok(t, i.operator) + seq![' '] + expr_text(i.left, t) + seq![
            ' ',
        ] + expr_text(i.right, t) + seq![')'],
        Expr::List(l) => seq!['(', 'l', 'i', 's', 't', ' '] + elems_text(l.elements@, t) + seq![')'],
        Expr::Subscript(s) => seq!['(', '[', ']', ' '] + expr_text(s.subscriptee, t) + seq![' ']
            + expr_text(s.index, t) + seq![')'],
        Expr::Call(c) => seq!['(', 'c', 'a', 'l', 'l', ' '] + expr_text(c.callee, t) + seq![' ']
            + elems_text(c.args@, t) + seq![')'],
    }
}

/// Each expression followed by ", ".
pub open spec fn elems_text(es: Seq<Expr>, t: Seq<char>) -> Seq<char>
    decreases es, 0nat,
{
    if es.len() == 0 {
        Seq::<char>::empty()
    } else {
        elems_text(es.drop_last(), t) + expr_text(es.last(), t) + seq![',', ' ']
    }
}

fn push_chars(out: &mut Vec<char>, s: &[char])
    ensures
        final(out)@ == old(out)@ + s@,
{
    let mut k: usize = 0;
    while k < s.len()
        invariant
            k <= s@.len(),
            out@ == old(out)@ + s@.subrange(0, k as int),
        decreases s@.len() - k,
    {
        out.push(s[k]);
        k = k + 1;
        assert(out@ =~= old(out)@ + s@.subrange(0, k as int));
    }
    assert(s@.subrange(0, s@.len() as int) =~= s@);
}

fn push_token(out: &mut Vec<char>, strings: &StringInterner, k: &Token)
    ensures
        final(out)@ == old(out)@ + tok(strings.text(), *k),
{
    let text = strings.text_of(k.lexeme);
    push_chars(out, text.as_slice());
}

/// Appends the S-expression of `e`.
pub fn write_expr(out: &mut Vec<char>, strings: &StringInterner, e: &Expr)
    ensures
        final(out)@ == old(out)@ + expr_text(*e, strings.text()),
    decreases e, 0nat,
{
    let ghost t = strings.text();
    match e {
        Expr::Number(n) => push_token(out, strings, &n.token),
        Expr::String(s) => push_token(out, strings, &s.token),
        Expr::Var(v) => push_token(out, strings, &v.identifier),
        Expr::Bool(b) => push_token(out, strings, &b.token),
        Expr::Group(g) => {
            out.push('(');
            write_expr(out, strings, &g.inner);
            out.push(')');
            assert(out@ =~= old(out)@ + expr_text(*e, t));
        },
        Expr::Prefix(p) => {
            out.push('(');
            push_token(out, strings, &p.operator);
            out.push(' ');
            write_expr(out, strings, &p.inner);
            out.push(')');
            assert(out@ =~= old(out)@ + expr_text(*e, t));
        },
        Expr::Infix(i) => {
            out.push('(');
            push_token(out, strings, &i.operator);
            out.push(' ');
            write_expr(out, strings, &i.left);
            out.push(' ');
            write_expr(out, strings, &i.right);
            out.push(')');
            assert(out@ =~= old(out)@ + expr_text(*e, t));
        },
        Expr::List(l) => {
            push_chars(out, &['(', 'l', 'i', 's', 't', ' ']);
            write_elems(out, strings, &l.elements);
            out.push(')');
            assert(out@ =~= old(out)@ + expr_text(*e, t));
        },
        Expr::Subscript(s) => {
            push_chars(out, &['(', '[', ']', ' ']);
            write_expr(out, strings, &s.subscriptee);
            out.push(' ');
            write_expr(out, strings, &s.index);
            out.push(')');
            assert(out@ =~= old(out)@ + expr_text(*e, t));
        },
        Expr::Call(c) => {
            push_chars(out, &['(', 'c', 'a', 'l', 'l', ' ']);
            write_expr(out, strings, &c.callee);
            out.push(' ');
            write_elems(out, strings, &c.args);
            out.push(')');
            assert(out@ =~= old(out)@ + expr_text(*e, t));
        },
    }
}

fn write_elems(out: &mut Vec<char>, strings: &StringInterner, es: &Vec<Expr>)
    ensures
        final(out)@ == old(out)@ + elems_text(es@, strings.text()),
    decreases es, 0nat,
{
    let ghost t = strings.text();
    let mut i: usize = 0;
    while i < es.len()
        invariant
            i <= es@.len(),
            out@ == old(out)@ + elems_text(es@.subrange(0, i as int), t),
            t == strings.text(),
        decreases es@.len() - i,
    {
        proof {
            assert(decreases_to!(*es => es@));
            assert(decreases_to!(es@ => es@[i as int]));
        }
        write_expr(out, strings, &es[i]);
        push_chars(out, &[',', ' ']);
        proof {
            let pre = es@.subrange(0, i as int);
            let next = es@.subrange(0, i + 1);
            assert(next.drop_last() =~= pre);
            assert(next.last() == es@[i as int]);
        }
        i = i + 1;
        assert(out@ =~= old(out)@ + elems_text(es@.subrange(0, i as int), t));
    }
    assert(es@.subrange(0, es@.len() as int) =~= es@);
}

pub open spec fn stmt_text(s: Stmt, t: Seq<char>) -> Seq<char>
    decreases s, 0nat,
{
    match s {
        Stmt::Print(p) => seq!['(', 'p', 'r', 'i', 'n', 't', ' '] + expr_text(p.inner, t) + seq![')'],
        Stmt::Return(r) => seq!['(', 'r', 'e', 't', 'u', 'r', 'n'] + (match r.return_val {
            Some(v) => seq![' '] + expr_text(v, t),
            None => Seq::<char>::empty(),
        }) + seq![')'],
        Stmt::VarDecl(v) => seq!['('] + tok(t, v.var_token) + seq![' '] + tok(t, v.identifier)
            + seq![' '] + expr_text(v.init_expr, t) + seq![')'],
        Stmt::Block(b) => block_text(b, t),
        Stmt::If(i) => seq!['(', 'i', 'f', ' '] + expr_text(i.condition, t) + seq![
            ' ',
            't',
            'h',
            'e',
            'n',
            ' ',
        ] + block_text(i.then_clause, t) + (match i.else_clause {
            Some(e) => seq![' ', 'e', 'l', 's', 'e', ' '] + stmt_text(*e, t),
            None => Seq::<char>::empty(),
        }) + seq![')'],
        Stmt::While(w) => seq!['(', 'w', 'h', 'i', 'l', 'e', ' '] + expr_text(w.condition, t)
            + seq![' '] + block_text(w.block, t) + seq![')'],
        Stmt::ExprStmt(e) => expr_text(e.expr, t),
        Stmt::FnDecl(f) => seq!['(', 'f', 'n', ' '] + tok(t, f.name) + seq![' ', '('] + params_text(
            f.parameters@,
            t,
        ) + seq![')', ' '] + block_text(f.body, t) + seq![')'],
    }
}

pub open spec fn block_text(b: BlockStmt, t: Seq<char>) -> Seq<char>
    decreases b, 0nat,
{
    seq!['(', 'b', 'l', 'o', 'c', 'k', ' '] + stmts_text(b.statements.stmts@, t) + seq![')']
}

/// Each statement followed by a newline.
pub open spec fn stmts_text(ss: Seq<Stmt>, t: Seq<char>) -> Seq<char>
    decreases ss, 0nat,
{
    if ss.len() == 0 {
        Seq::<char>::empty()
    } else {
        stmts_text(ss.drop_last(), t) + stmt_text(ss.last(), t) + seq!['\n']
    }
}

/// Parameter names separated by ", ".
pub open spec fn params_text(ps: Seq<Token>, t: Seq<char>) -> Seq<char>
    decreases ps.len(),
{
    if ps.len() == 0 {
        Seq::<char>::empty()
    } else if ps.len() == 1 {
        tok(t, ps[0])
    } else {
        params_text(ps.drop_last(), t) + seq![',', ' '] + tok(t, ps.last())
    }
}

pub open spec fn program_text(p: ProgramStmt, t: Seq<char>) -> Seq<char> {
    seq!['(', 'p', 'r', 'o', 'g', 'r', 'a', 'm', ' '] + stmts_text(p.statements.stmts@, t) + seq![
        ')',
    ]
}

/// Appends the S-expression of `s`.
pub fn write_stmt(out: &mut Vec<char>, strings: &StringInterner, s: &Stmt)
    ensures
        final(out)@ == old(out)@ + stmt_text(*s, strings.text()),
    decreases s, 0nat,
{
    let ghost t = strings.text();
    match s {
        Stmt::Print(p) => {
            push_chars(out, &['(', 'p', 'r', 'i', 'n', 't', ' ']);
            write_expr(out, strings, &p.inner);
            out.push(')');
        },
        Stmt::Return(r) => {
            push_chars(out, &['(', 'r', 'e', 't', 'u', 'r', 'n']);
            match &r.return_val {
                Some(v) => {
                    out.push(' ');
                    write_expr(out, strings, v);
                },
                None => {},
            }
            out.push(')');
        },
        Stmt::VarDecl(v) => {
            out.push('(');
            push_token(out, strings, &v.var_token);
            out.push(' ');
            push_token(out, strings, &v.identifier);
            out.push(' ');
            write_expr(out, strings, &v.init_expr);
            out.push(')');
        },
        Stmt::Block(b) => write_block(out, strings, b),
        Stmt::If(i) => {
            push_chars(out, &['(', 'i', 'f', ' ']);
            write_expr(out, strings, &i.condition);
            push_chars(out, &[' ', 't', 'h', 'e', 'n', ' ']);
            write_block(out, strings, &i.then_clause);
            match &i.else_clause {
                Some(e) => {
                    push_chars(out, &[' ', 'e', 'l', 's', 'e', ' ']);
                    write_stmt(out, strings, e);
                },
                None => {},
            }
            out.push(')');
        },
        Stmt::While(w) => {
            push_chars(out, &['(', 'w', 'h', 'i', 'l', 'e', ' ']);
            write_expr(out, strings, &w.condition);
            out.push(' ');
            write_block(out, strings, &w.block);
            out.push(')');
        },
        Stmt::ExprStmt(e) => write_expr(out, strings, &e.expr),
        Stmt::FnDecl(f) => {
            push_chars(out, &['(', 'f', 'n', ' ']);
            push_token(out, strings, &f.name);
            push_chars(out, &[' ', '(']);
            write_params(out, strings, &f.parameters);
            push_chars(out, &[')', ' ']);
            write_block(out, strings, &f.body);
            out.push(')');
        },
    }
    assert(out@ =~= old(out)@ + stmt_text(*s, t));
}

fn write_params(out: &mut Vec<char>, strings: &StringInterner, ps: &Vec<Token>)
    ensures
        final(out)@ == old(out)@ + params_text(ps@, strings.text()),
{
    let ghost t = strings.text();
    let mut i: usize = 0;
    while i < ps.len()
        invariant
            i <= ps@.len(),
            out@ == old(out)@ + params_text(ps@.subrange(0, i as int), t),
            t == strings.text(),
        decreases ps@.len() - i,
    {
        if i > 0 {
            push_chars(out, &[',', ' ']);
        }
        push_token(out, strings, &ps[i]);
        proof {
            let next = ps@.subrange(0, i + 1);
            assert(next.drop_last() =~= ps@.subrange(0, i as int));
            assert(next.last() == ps@[i as int]);
        }
        i = i + 1;
        assert(out@ =~= old(out)@ + params_text(ps@.subrange(0, i as int), t));
    }
    assert(ps@.subrange(0, ps@.len() as int) =~= ps@);
}

fn write_block(out: &mut Vec<char>, strings: &StringInterner, b: &BlockStmt)
    ensures
        final(out)@ == old(out)@ + block_text(*b, strings.text()),
    decreases b, 0nat,
{
    push_chars(out, &['(', 'b', 'l', 'o', 'c', 'k', ' ']);
    write_stmts(out, strings, &b.statements);
    out.push(')');
    assert(out@ =~= old(out)@ + block_text(*b, strings.text()));
}

fn write_stmts(out: &mut Vec<char>, strings: &StringInterner, list: &StmtList)
    ensures
        final(out)@ == old(out)@ + stmts_text(list.stmts@, strings.text()),
    decreases list, 0nat,
{
    let ghost t = strings.text();
    let mut i: usize = 0;
    while i < list.stmts.len()
        invariant
            i <= list.stmts@.len(),
            out@ == old(out)@ + stmts_text(list.stmts@.subrange(0, i as int), t),
            t == strings.text(),
        decreases list.stmts@.len() - i,
    {
        proof {
            assert(decreases_to!(*list => list.stmts));
            assert(decreases_to!(list.stmts => list.stmts@));
            assert(decreases_to!(list.stmts@ => list.stmts@[i as int]));
        }
        write_stmt(out, strings, &list.stmts[i]);
        out.push('\n');
        proof {
            let next = list.stmts@.subrange(0, i + 1);
            assert(next.drop_last() =~= list.stmts@.subrange(0, i as int));
            assert(next.last() == list.stmts@[i as int]);
        }
        i = i + 1;
        assert(out@ =~= old(out)@ + stmts_text(list.stmts@.subrange(0, i as int), t));
    }
    assert(list.stmts@.subrange(0, list.stmts@.len() as int) =~= list.stmts@);
}

/// The S-expression of a whole program, such as `(program (print 1)\n)`.
pub fn program_to_string(strings: &StringInterner, p: &ProgramStmt) -> (r: Vec<char>)
    ensures
        r@ == program_text(*p, strings.text()),
{
    let mut out: Vec<char> = Vec::new();
    push_chars(&mut out, &['(', 'p', 'r', 'o', 'g', 'r', 'a', 'm', ' ']);
    write_stmts(&mut out, strings, &p.statements);
    out.push(')');
    assert(out@ =~= program_text(*p, strings.text()));
    out
}

/// The S-expression of an expression.
pub fn expr_to_string(strings: &StringInterner, e: &Expr) -> (r: Vec<char>)
    ensures
        r@ == expr_text(*e, strings.text()),
{
    let mut out: Vec<char> = Vec::new();
    write_expr(&mut out, strings, e);
    assert(out@ =~= expr_text(*e, strings.text()));
    out
}

/// Printing is a function of the tree and the interned text: equal trees
/// over the same interner print equally.
pub proof fn law_printing_is_stable(p: ProgramStmt, q: ProgramStmt, t: Seq<char>)
    requires
        p == q,
    ensures
        program_text(p, t) == program_text(q, t),
{
}

} // verus!
