//! The numbers of the nodes that the parser builds: each variable and each
//! assignment of a program has a number of its own, under which the
//! resolver files its scope distance.

use crate::expression::ExprView;
use crate::grammar::{
    arguments, assignment, at_end, binary, binary_rest, block, call, call_rest, check, combine,
    declaration, expression, expression_statement, finish_call, for_loop, for_statement, function,
    if_statement, matches_any, operand, parameters, primary, print_statement, program,
    return_statement, statement, unary, var_declaration, well_formed, while_statement, Parse,
};
use crate::statement::StmtView;
use crate::token::TokenView;
use crate::token_type::TokenType;
use vstd::prelude::*;

verus! {

/// The numbers of the variables and assignments of an expression, each as
/// often as a node carries it.
pub open spec fn expr_ids(e: ExprView) -> Seq<usize>
    decreases e,
{
    match e {
        ExprView::Literal { literal } => Seq::empty(),
        ExprView::Grouping { expression } => expr_ids(*expression),
        ExprView::Unary { operator, right } => expr_ids(*right),
        ExprView::Binary { left, operator, right } => expr_ids(*left) + expr_ids(*right),
        ExprView::Logical { left, operator, right } => expr_ids(*left) + expr_ids(*right),
        ExprView::Variable { name, id } => seq![id],
        ExprView::Assign { name, value, id } => seq![id] + expr_ids(*value),
        ExprView::Call { callee, paren, arguments } => expr_ids(*callee) + exprs_ids(arguments),
        ExprView::Get { object, name } => expr_ids(*object),
    }
}

/// The numbers of the variables and assignments of a list of expressions.
pub open spec fn exprs_ids(list: Seq<ExprView>) -> Seq<usize>
    decreases list,
{
    if list.len() == 0 {
        Seq::empty()
    } else {
        exprs_ids(list.drop_last()) + expr_ids(list.last())
    }
}

/// Whether the numbers of a list lie from `lo` up to `hi` and no two of
/// them are the same.
#[verifier::opaque]
pub open spec fn numbered(ids: Seq<usize>, lo: int, hi: int) -> bool {
    &&& forall|i: int| 0 <= i < ids.len() ==> lo <= #[trigger] ids[i] < hi
    &&& forall|i: int, j: int| 0 <= i < j < ids.len() ==> ids[i] != ids[j]
}

/// Numbers from two ranges that do not meet are numbered apart, in either
/// order.
pub proof fn lemma_numbered_join(a: Seq<usize>, b: Seq<usize>, lo: int, mid: int, hi: int)
    requires
        numbered(a, lo, mid),
        numbered(b, mid, hi),
        lo <= mid <= hi,
    ensures
        numbered(a + b, lo, hi),
        numbered(b + a, lo, hi),
{
    reveal(numbered);
    let ab = a + b;
    assert forall|i: int| 0 <= i < ab.len() implies lo <= #[trigger] ab[i] < hi by {
        if i < a.len() {
            assert(ab[i] == a[i]);
        } else {
            assert(ab[i] == b[i - a.len()]);
        }
    }
    assert forall|i: int, j: int| 0 <= i < j < ab.len() implies ab[i] != ab[j] by {
        if j < a.len() {
            assert(ab[i] == a[i] && ab[j] == a[j]);
        } else if i >= a.len() {
            assert(ab[i] == b[i - a.len()] && ab[j] == b[j - a.len()]);
        } else {
            assert(ab[i] == a[i] && ab[j] == b[j - a.len()]);
        }
    }
    let ba = b + a;
    assert forall|i: int| 0 <= i < ba.len() implies lo <= #[trigger] ba[i] < hi by {
        if i < b.len() {
            assert(ba[i] == b[i]);
        } else {
            assert(ba[i] == a[i - b.len()]);
        }
    }
    assert forall|i: int, j: int| 0 <= i < j < ba.len() implies ba[i] != ba[j] by {
        if j < b.len() {
            assert(ba[i] == b[i] && ba[j] == b[j]);
        } else if i >= b.len() {
            assert(ba[i] == a[i - b.len()] && ba[j] == a[j - b.len()]);
        } else {
            assert(ba[i] == b[i] && ba[j] == a[j - b.len()]);
        }
    }
}

/// Numbers of a range are numbers of every range around it.
pub proof fn lemma_numbered_widen(a: Seq<usize>, lo: int, hi: int, lower: int, higher: int)
    requires
        numbered(a, lo, hi),
        lower <= lo,
        hi <= higher,
    ensures
        numbered(a, lower, higher),
{
    reveal(numbered);
}

/// A list without numbers is numbered apart, and so is a list of one number
/// of the range.
pub proof fn lemma_numbered_few(lo: int, hi: int, id: usize)
    ensures
        numbered(Seq::empty(), lo, hi),
        lo <= id < hi ==> numbered(seq![id], lo, hi),
{
    reveal(numbered);
}

/// What the parser needs of a list of tokens and of the number from which
/// it counts: the list ends with the end token, and every number fits.
pub open spec fn countable(t: Seq<TokenView>, base: int) -> bool {
    &&& well_formed(t)
    &&& 0 <= base
    &&& base + t.len() <= usize::MAX
}

/// Whether what the parser has read, where it is an error, is a runtime
/// error.
pub open spec fn refused<T>(read: Parse<T>) -> bool {
    read matches Err((e, _)) ==> e is RuntimeError
}

/// Whether what the parser has read from `pos` on is an expression that
/// ends within the list, behind `pos`, and whose nodes are numbered apart
/// by the places of the tokens that were read.
pub open spec fn spans(t: Seq<TokenView>, base: int, pos: int, e: ExprView, reached: int) -> bool {
    &&& pos < reached < t.len()
    &&& numbered(expr_ids(e), base + pos, base + reached)
}

/// A primary expression is numbered apart.
#[verifier::rlimit(60)]
pub proof fn lemma_primary_spans(t: Seq<TokenView>, base: int, pos: int)
    requires
        countable(t, base),
        0 <= pos < t.len(),
    ensures
        primary(t, base, pos) matches Ok((e, p)) ==> spans(t, base, pos, e, p),
        refused(primary(t, base, pos)),
    decreases t.len() - pos, 0nat,
{
    lemma_numbered_few(base + pos, base + pos + 1, (base + pos) as usize);
    if check(t, pos, TokenType::FALSE) || check(t, pos, TokenType::TRUE) || check(
        t,
        pos,
        TokenType::NIL,
    ) {
    } else if check(t, pos, TokenType::NUMBER) || check(t, pos, TokenType::STRING) {
    } else if check(t, pos, TokenType::IDENTIFIER) {
    } else if check(t, pos, TokenType::LEFT_PAREN) {
        lemma_expression_spans(t, base, pos + 1);
        match expression(t, base, pos + 1) {
            Ok((e, p2)) => {
                lemma_numbered_widen(
                    expr_ids(e),
                    base + pos + 1,
                    base + p2,
                    base + pos,
                    base + p2 + 1,
                );
            },
            Err(_) => {},
        }
    }
}

/// A primary expression with its calls is numbered apart.
#[verifier::rlimit(60)]
pub proof fn lemma_call_spans(t: Seq<TokenView>, base: int, pos: int)
    requires
        countable(t, base),
        0 <= pos < t.len(),
    ensures
        call(t, base, pos) matches Ok((e, p)) ==> spans(t, base, pos, e, p),
        refused(call(t, base, pos)),
    decreases t.len() - pos, 1nat,
{
    lemma_primary_spans(t, base, pos);
    match primary(t, base, pos) {
        Ok((e, p)) => {
            lemma_call_rest_spans(t, base, pos, p, e);
        },
        Err(_) => {},
    }
}

/// The calls that follow a callee that is numbered apart leave the whole
/// numbered apart.
#[verifier::rlimit(60)]
pub proof fn lemma_call_rest_spans(
    t: Seq<TokenView>,
    base: int,
    start: int,
    pos: int,
    callee: ExprView,
)
    requires
        countable(t, base),
        0 <= start,
        spans(t, base, start, callee, pos),
    ensures
        call_rest(t, base, pos, callee) matches Ok((e, p)) ==> spans(t, base, start, e, p),
        refused(call_rest(t, base, pos, callee)),
    decreases t.len() - pos, 0nat,
{
    if check(t, pos, TokenType::LEFT_PAREN) {
        lemma_finish_call_spans(t, base, start, pos + 1, callee);
        match finish_call(t, base, pos + 1, callee) {
            Ok((e, p)) => {
                lemma_call_rest_spans(t, base, start, p, e);
            },
            Err(_) => {},
        }
    }
}

/// A call of a callee that is numbered apart is numbered apart.
#[verifier::rlimit(60)]
pub proof fn lemma_finish_call_spans(
    t: Seq<TokenView>,
    base: int,
    start: int,
    pos: int,
    callee: ExprView,
)
    requires
        countable(t, base),
        0 <= start,
        0 < pos < t.len(),
        spans(t, base, start, callee, pos - 1),
    ensures
        finish_call(t, base, pos, callee) matches Ok((e, p)) ==> pos < p && spans(
            t,
            base,
            start,
            e,
            p,
        ),
        refused(finish_call(t, base, pos, callee)),
    decreases t.len() - pos, 30nat,
{
    assert(exprs_ids(Seq::empty()) =~= Seq::<usize>::empty());
    lemma_numbered_few(base + pos, base + pos, 0);
    if check(t, pos, TokenType::RIGHT_PAREN) {
        match finish_call(t, base, pos, callee) {
            Ok((e, p)) => {
                assert(expr_ids(e) =~= expr_ids(callee));
                lemma_numbered_widen(
                    expr_ids(callee),
                    base + start,
                    base + pos - 1,
                    base + start,
                    base + p,
                );
            },
            Err(_) => {},
        }
    } else {
        lemma_arguments_spans(t, base, pos, pos, Seq::empty());
        match arguments(t, base, pos, Seq::empty()) {
            Ok((list, p)) => {
                match finish_call(t, base, pos, callee) {
                    Ok((e, p2)) => {
                        lemma_numbered_widen(
                            expr_ids(callee),
                            base + start,
                            base + pos - 1,
                            base + start,
                            base + pos,
                        );
                        lemma_numbered_join(
                            expr_ids(callee),
                            exprs_ids(list),
                            base + start,
                            base + pos,
                            base + p,
                        );
                        lemma_numbered_widen(
                            expr_ids(e),
                            base + start,
                            base + p,
                            base + start,
                            base + p2,
                        );
                    },
                    Err(_) => {},
                }
            },
            Err(_) => {},
        }
    }
}

/// The arguments of a call are numbered apart.
#[verifier::rlimit(60)]
pub proof fn lemma_arguments_spans(
    t: Seq<TokenView>,
    base: int,
    start: int,
    pos: int,
    read: Seq<ExprView>,
)
    requires
        countable(t, base),
        0 <= start <= pos < t.len(),
        numbered(exprs_ids(read), base + start, base + pos),
    ensures
        arguments(t, base, pos, read) matches Ok((list, p)) ==> pos < p < t.len() && numbered(
            exprs_ids(list),
            base + start,
            base + p,
        ),
        refused(arguments(t, base, pos, read)),
    decreases t.len() - pos, 29nat,
{
    if read.len() < 255 {
        lemma_expression_spans(t, base, pos);
        match expression(t, base, pos) {
            Ok((e, p)) => {
                let more = read.push(e);
                assert(more.drop_last() =~= read);
                lemma_numbered_join(exprs_ids(read), expr_ids(e), base + start, base + pos, base + p);
                if check(t, p, TokenType::COMMA) {
                    lemma_numbered_widen(
                        exprs_ids(more),
                        base + start,
                        base + p,
                        base + start,
                        base + p + 1,
                    );
                    lemma_arguments_spans(t, base, start, p + 1, more);
                }
            },
            Err(_) => {},
        }
    }
}

/// A unary expression is numbered apart.
#[verifier::rlimit(60)]
pub proof fn lemma_unary_spans(t: Seq<TokenView>, base: int, pos: int)
    requires
        countable(t, base),
        0 <= pos < t.len(),
    ensures
        unary(t, base, pos) matches Ok((e, p)) ==> spans(t, base, pos, e, p),
        refused(unary(t, base, pos)),
    decreases t.len() - pos, 2nat,
{
    if check(t, pos, TokenType::BANG) || check(t, pos, TokenType::MINUS) {
        lemma_unary_spans(t, base, pos + 1);
        match unary(t, base, pos + 1) {
            Ok((right, p)) => {
                lemma_numbered_widen(expr_ids(right), base + pos + 1, base + p, base + pos, base + p);
            },
            Err(_) => {},
        }
    } else {
        lemma_call_spans(t, base, pos);
    }
}

/// An operand of a level of binary expressions is numbered apart.
#[verifier::rlimit(60)]
pub proof fn lemma_operand_spans(t: Seq<TokenView>, base: int, pos: int, level: nat)
    requires
        countable(t, base),
        0 <= pos < t.len(),
    ensures
        operand(t, base, pos, level) matches Ok((e, p)) ==> spans(t, base, pos, e, p),
        refused(operand(t, base, pos, level)),
    decreases t.len() - pos, 3 + 2 * level,
{
    if level == 0 {
        lemma_unary_spans(t, base, pos);
    } else {
        lemma_binary_spans(t, base, pos, (level - 1) as nat);
    }
}

/// A binary expression of a level is numbered apart.
#[verifier::rlimit(60)]
pub proof fn lemma_binary_spans(t: Seq<TokenView>, base: int, pos: int, level: nat)
    requires
        countable(t, base),
        0 <= pos < t.len(),
    ensures
        binary(t, base, pos, level) matches Ok((e, p)) ==> spans(t, base, pos, e, p),
        refused(binary(t, base, pos, level)),
    decreases t.len() - pos, 4 + 2 * level,
{
    lemma_operand_spans(t, base, pos, level);
    match operand(t, base, pos, level) {
        Ok((e, p)) => {
            lemma_binary_rest_spans(t, base, pos, p, level, e);
        },
        Err(_) => {},
    }
}

/// What follows an operand that is numbered apart leaves the whole
/// numbered apart.
#[verifier::rlimit(60)]
pub proof fn lemma_binary_rest_spans(
    t: Seq<TokenView>,
    base: int,
    start: int,
    pos: int,
    level: nat,
    before: ExprView,
)
    requires
        countable(t, base),
        0 <= start,
        spans(t, base, start, before, pos),
    ensures
        binary_rest(t, base, pos, level, before) matches Ok((e, p)) ==> spans(
            t,
            base,
            start,
            e,
            p,
        ),
        refused(binary_rest(t, base, pos, level, before)),
    decreases t.len() - pos, 0nat,
{
    if matches_any(t, pos, crate::grammar::level_operators(level)) {
        lemma_operand_spans(t, base, pos + 1, level);
        match operand(t, base, pos + 1, level) {
            Ok((after, p)) => {
                lemma_numbered_widen(
                    expr_ids(before),
                    base + start,
                    base + pos,
                    base + start,
                    base + pos + 1,
                );
                lemma_numbered_join(
                    expr_ids(before),
                    expr_ids(after),
                    base + start,
                    base + pos + 1,
                    base + p,
                );
                let joined = combine(level, before, t[pos], after);
                assert(expr_ids(joined) == expr_ids(before) + expr_ids(after));
                lemma_binary_rest_spans(t, base, start, p, level, joined);
            },
            Err(_) => {},
        }
    }
}

/// An assignment is numbered apart: it takes the number of the variable
/// that it replaces.
#[verifier::rlimit(60)]
pub proof fn lemma_assignment_spans(t: Seq<TokenView>, base: int, pos: int)
    requires
        countable(t, base),
        0 <= pos < t.len(),
    ensures
        assignment(t, base, pos) matches Ok((e, p)) ==> spans(t, base, pos, e, p),
        refused(assignment(t, base, pos)),
    decreases t.len() - pos, 20nat,
{
    lemma_binary_spans(t, base, pos, 5);
    match binary(t, base, pos, 5) {
        Ok((e, p)) => {
            if check(t, p, TokenType::EQUAL) {
                lemma_assignment_spans(t, base, p + 1);
                match assignment(t, base, p + 1) {
                    Ok((value, p2)) => match e {
                        ExprView::Variable { name, id } => {
                            assert(expr_ids(e)[0] == id);
                            assert(base + pos <= id < base + p) by {
                                reveal(numbered);
                            }
                            lemma_numbered_few(base + pos, base + p + 1, id);
                            lemma_numbered_join(
                                seq![id],
                                expr_ids(value),
                                base + pos,
                                base + p + 1,
                                base + p2,
                            );
                        },
                        _ => {},
                    },
                    Err(_) => {},
                }
            }
        },
        Err(_) => {},
    }
}

/// An expression is numbered apart.
#[verifier::rlimit(60)]
pub proof fn lemma_expression_spans(t: Seq<TokenView>, base: int, pos: int)
    requires
        countable(t, base),
        0 <= pos < t.len(),
    ensures
        expression(t, base, pos) matches Ok((e, p)) ==> spans(t, base, pos, e, p),
        refused(expression(t, base, pos)),
    decreases t.len() - pos, 21nat,
{
    lemma_assignment_spans(t, base, pos);
}


/// The numbers of the variables and assignments of an expression that may
/// be left out.
pub open spec fn optional_ids(e: Option<ExprView>) -> Seq<usize> {
    match e {
        Some(e) => expr_ids(e),
        None => Seq::empty(),
    }
}

/// The numbers of the variables and assignments of a statement, each as
/// often as a node carries it.
pub open spec fn stmt_ids(s: StmtView) -> Seq<usize>
    decreases s,
{
    match s {
        StmtView::If { condition, then_branch, else_branch } => expr_ids(condition) + stmt_ids(
            *then_branch,
        ) + match else_branch {
            Some(other) => stmt_ids(*other),
            None => Seq::empty(),
        },
        StmtView::Return { keyword, value } => optional_ids(value),
        StmtView::Function { name, params, body } => stmts_ids(body),
        StmtView::Print { expression } => expr_ids(expression),
        StmtView::Expression { expression } => expr_ids(expression),
        StmtView::Variable { name, initializer } => optional_ids(initializer),
        StmtView::Class { name, methods } => stmts_ids(methods),
        StmtView::Block { statements } => stmts_ids(statements),
        StmtView::While { condition, body } => expr_ids(condition) + stmt_ids(*body),
    }
}

/// The numbers of the variables and assignments of a list of statements.
pub open spec fn stmts_ids(list: Seq<StmtView>) -> Seq<usize>
    decreases list,
{
    if list.len() == 0 {
        Seq::empty()
    } else {
        stmts_ids(list.drop_last()) + stmt_ids(list.last())
    }
}

/// Whether what the parser has read from `pos` on is a statement that ends
/// within the list, behind `pos`, and whose nodes are numbered apart by the
/// places of the tokens that were read.
pub open spec fn stmt_spans(t: Seq<TokenView>, base: int, pos: int, s: StmtView, reached: int) -> bool {
    &&& pos < reached < t.len()
    &&& numbered(stmt_ids(s), base + pos, base + reached)
}

/// The numbers of a list of one statement are those of the statement, and
/// the numbers of a list of two are those of the first and of the second.
pub proof fn lemma_ids_of_short_lists(a: StmtView, b: StmtView)
    ensures
        stmts_ids(Seq::empty()) == Seq::<usize>::empty(),
        stmts_ids(seq![a]) == stmt_ids(a),
        stmts_ids(seq![a, b]) == stmt_ids(a) + stmt_ids(b),
{
    reveal_with_fuel(stmts_ids, 3);
    assert(seq![a].drop_last() =~= Seq::<StmtView>::empty());
    assert(seq![a, b].drop_last() =~= seq![a]);
    assert(stmts_ids(seq![a]) =~= stmt_ids(a));
    assert(stmts_ids(seq![a, b]) =~= stmt_ids(a) + stmt_ids(b));
}

/// An expression statement is numbered apart.
#[verifier::rlimit(60)]
pub proof fn lemma_expression_statement_spans(t: Seq<TokenView>, base: int, pos: int)
    requires
        countable(t, base),
        0 <= pos < t.len(),
    ensures
        expression_statement(t, base, pos) matches Ok((s, p)) ==> stmt_spans(t, base, pos, s, p),
        refused(expression_statement(t, base, pos)),
    decreases t.len() - pos, 40nat,
{
    lemma_expression_spans(t, base, pos);
    match expression(t, base, pos) {
        Ok((e, p)) => {
            lemma_numbered_widen(expr_ids(e), base + pos, base + p, base + pos, base + p + 1);
        },
        Err(_) => {},
    }
}

/// A `print` statement is numbered apart.
#[verifier::rlimit(60)]
pub proof fn lemma_print_statement_spans(t: Seq<TokenView>, base: int, pos: int)
    requires
        countable(t, base),
        0 <= pos < t.len(),
    ensures
        print_statement(t, base, pos) matches Ok((s, p)) ==> stmt_spans(t, base, pos, s, p),
        refused(print_statement(t, base, pos)),
    decreases t.len() - pos, 40nat,
{
    lemma_expression_spans(t, base, pos);
    match expression(t, base, pos) {
        Ok((e, p)) => {
            lemma_numbered_widen(expr_ids(e), base + pos, base + p, base + pos, base + p + 1);
        },
        Err(_) => {},
    }
}

/// A `return` statement is numbered apart.
#[verifier::rlimit(60)]
pub proof fn lemma_return_statement_spans(t: Seq<TokenView>, base: int, pos: int)
    requires
        countable(t, base),
        0 <= pos < t.len(),
    ensures
        return_statement(t, base, pos) matches Ok((s, p)) ==> stmt_spans(t, base, pos, s, p),
        refused(return_statement(t, base, pos)),
    decreases t.len() - pos, 40nat,
{
    lemma_numbered_few(base + pos, base + pos + 1, 0);
    if !check(t, pos, TokenType::SEMICOLON) {
        lemma_expression_spans(t, base, pos);
        match expression(t, base, pos) {
            Ok((e, p)) => {
                lemma_numbered_widen(expr_ids(e), base + pos, base + p, base + pos, base + p + 1);
            },
            Err(_) => {},
        }
    }
}

/// A `while` statement is numbered apart.
#[verifier::rlimit(60)]
pub proof fn lemma_while_statement_spans(t: Seq<TokenView>, base: int, pos: int)
    requires
        countable(t, base),
        0 <= pos < t.len(),
    ensures
        while_statement(t, base, pos) matches Ok((s, p)) ==> stmt_spans(t, base, pos, s, p),
        refused(while_statement(t, base, pos)),
    decreases t.len() - pos, 50nat,
{
    if check(t, pos, TokenType::LEFT_PAREN) {
        lemma_expression_spans(t, base, pos + 1);
        match expression(t, base, pos + 1) {
            Ok((condition, p2)) => {
                if check(t, p2, TokenType::RIGHT_PAREN) {
                    lemma_statement_spans(t, base, p2 + 1);
                    match statement(t, base, p2 + 1) {
                        Ok((body, p4)) => {
                            lemma_numbered_widen(
                                expr_ids(condition),
                                base + pos + 1,
                                base + p2,
                                base + pos,
                                base + p2 + 1,
                            );
                            lemma_numbered_join(
                                expr_ids(condition),
                                stmt_ids(body),
                                base + pos,
                                base + p2 + 1,
                                base + p4,
                            );
                        },
                        Err(_) => {},
                    }
                }
            },
            Err(_) => {},
        }
    }
}

/// An `if` statement is numbered apart.
#[verifier::rlimit(60)]
pub proof fn lemma_if_statement_spans(t: Seq<TokenView>, base: int, pos: int)
    requires
        countable(t, base),
        0 <= pos < t.len(),
    ensures
        if_statement(t, base, pos) matches Ok((s, p)) ==> stmt_spans(t, base, pos, s, p),
        refused(if_statement(t, base, pos)),
    decreases t.len() - pos, 50nat,
{
    if check(t, pos, TokenType::LEFT_PAREN) {
        lemma_expression_spans(t, base, pos + 1);
        match expression(t, base, pos + 1) {
            Ok((condition, p2)) => {
                if check(t, p2, TokenType::RIGHT_PAREN) {
                    lemma_statement_spans(t, base, p2 + 1);
                    match statement(t, base, p2 + 1) {
                        Ok((then_branch, p4)) => {
                            lemma_numbered_widen(
                                expr_ids(condition),
                                base + pos + 1,
                                base + p2,
                                base + pos,
                                base + p2 + 1,
                            );
                            lemma_numbered_join(
                                expr_ids(condition),
                                stmt_ids(then_branch),
                                base + pos,
                                base + p2 + 1,
                                base + p4,
                            );
                            let both = expr_ids(condition) + stmt_ids(then_branch);
                            if check(t, p4, TokenType::ELSE) {
                                lemma_statement_spans(t, base, p4 + 1);
                                match statement(t, base, p4 + 1) {
                                    Ok((other, p5)) => {
                                        lemma_numbered_widen(
                                            both,
                                            base + pos,
                                            base + p4,
                                            base + pos,
                                            base + p4 + 1,
                                        );
                                        lemma_numbered_join(
                                            both,
                                            stmt_ids(other),
                                            base + pos,
                                            base + p4 + 1,
                                            base + p5,
                                        );
                                    },
                                    Err(_) => {},
                                }
                            } else {
                                assert(both + Seq::<usize>::empty() =~= both);
                            }
                        },
                        Err(_) => {},
                    }
                }
            },
            Err(_) => {},
        }
    }
}

/// The numbers of the loop that a `for` statement stands for are those of
/// its parts.
#[verifier::rlimit(60)]
pub proof fn lemma_for_loop_ids(
    initializer: Option<StmtView>,
    condition: Option<ExprView>,
    increment: Option<ExprView>,
    body: StmtView,
)
    ensures
        stmt_ids(for_loop(initializer, condition, increment, body)) == match initializer {
            Some(i) => stmt_ids(i),
            None => Seq::empty(),
        } + (optional_ids(condition) + (stmt_ids(body) + optional_ids(increment))),
{
    let stepped = match increment {
        Some(e) => StmtView::Block { statements: seq![body, StmtView::Expression { expression: e }] },
        None => body,
    };
    match increment {
        Some(e) => {
            lemma_ids_of_short_lists(body, StmtView::Expression { expression: e });
        },
        None => {},
    }
    assert(stmt_ids(stepped) =~= stmt_ids(body) + optional_ids(increment));
    let looped = StmtView::While {
        condition: match condition {
            Some(c) => c,
            None => ExprView::Literal { literal: crate::literal::LiteralView::Boolean(true) },
        },
        body: Box::new(stepped),
    };
    assert(stmt_ids(looped) =~= optional_ids(condition) + stmt_ids(stepped));
    match initializer {
        Some(i) => {
            lemma_ids_of_short_lists(i, looped);
        },
        None => {
            assert(Seq::<usize>::empty() + stmt_ids(looped) =~= stmt_ids(looped));
        },
    }
}

/// The loop that a `for` statement stands for is numbered apart: it holds
/// each part of the statement once.
#[verifier::rlimit(60)]
pub proof fn lemma_for_statement_spans(t: Seq<TokenView>, base: int, pos: int)
    requires
        countable(t, base),
        0 <= pos < t.len(),
    ensures
        for_statement(t, base, pos) matches Ok((s, p)) ==> stmt_spans(t, base, pos, s, p),
        refused(for_statement(t, base, pos)),
    decreases t.len() - pos, 50nat,
{
    if check(t, pos, TokenType::LEFT_PAREN) {
        let p = pos + 1;
        lemma_numbered_few(base + pos, base + p + 1, 0);
        // The initializer.
        let first: crate::grammar::Parse<Option<StmtView>> = if check(t, p, TokenType::SEMICOLON) {
            Ok((None, p + 1))
        } else if check(t, p, TokenType::VAR) {
            lemma_var_declaration_spans(t, base, p + 1);
            match var_declaration(t, base, p + 1) {
                Ok((s, q)) => Ok((Some(s), q)),
                Err(m) => Err(m),
            }
        } else {
            lemma_expression_statement_spans(t, base, p);
            match expression_statement(t, base, p) {
                Ok((s, q)) => Ok((Some(s), q)),
                Err(m) => Err(m),
            }
        };
        match first {
            Ok((initializer, p2)) => {
                let first_ids = match initializer {
                    Some(i) => stmt_ids(i),
                    None => Seq::empty(),
                };
                assert(numbered(first_ids, base + pos, base + p2)) by {
                    match initializer {
                        Some(i) => {
                            if check(t, p, TokenType::VAR) {
                                lemma_numbered_widen(
                                    first_ids,
                                    base + p + 1,
                                    base + p2,
                                    base + pos,
                                    base + p2,
                                );
                            } else {
                                lemma_numbered_widen(
                                    first_ids,
                                    base + p,
                                    base + p2,
                                    base + pos,
                                    base + p2,
                                );
                            }
                        },
                        None => {
                            lemma_numbered_few(base + pos, base + p2, 0);
                        },
                    }
                }
                assert(pos < p2 < t.len());
                // The condition.
                lemma_numbered_few(base + p2, base + p2, 0);
                let second: crate::grammar::Parse<Option<ExprView>> = if check(
                    t,
                    p2,
                    TokenType::SEMICOLON,
                ) {
                    Ok((None, p2))
                } else {
                    lemma_expression_spans(t, base, p2);
                    match expression(t, base, p2) {
                        Ok((e, q)) => Ok((Some(e), q)),
                        Err(m) => Err(m),
                    }
                };
                match second {
                    Ok((condition, p3)) => {
                        assert(numbered(optional_ids(condition), base + p2, base + p3));
                        if check(t, p3, TokenType::SEMICOLON) {
                            let p4 = p3 + 1;
                            // The increment.
                            lemma_numbered_few(base + p4, base + p4, 0);
                            let third: crate::grammar::Parse<Option<ExprView>> = if check(
                                t,
                                p4,
                                TokenType::RIGHT_PAREN,
                            ) {
                                Ok((None, p4))
                            } else {
                                lemma_expression_spans(t, base, p4);
                                match expression(t, base, p4) {
                                    Ok((e, q)) => Ok((Some(e), q)),
                                    Err(m) => Err(m),
                                }
                            };
                            match third {
                                Ok((increment, p5)) => {
                                    assert(numbered(optional_ids(increment), base + p4, base + p5));
                                    if check(t, p5, TokenType::RIGHT_PAREN) {
                                        let p6 = p5 + 1;
                                        lemma_statement_spans(t, base, p6);
                                        match statement(t, base, p6) {
                                            Ok((body, p7)) => {
                                                lemma_for_loop_ids(
                                                    initializer,
                                                    condition,
                                                    increment,
                                                    body,
                                                );
                                                lemma_numbered_widen(
                                                    optional_ids(increment),
                                                    base + p4,
                                                    base + p5,
                                                    base + p4,
                                                    base + p6,
                                                );
                                                lemma_numbered_join(
                                                    optional_ids(increment),
                                                    stmt_ids(body),
                                                    base + p4,
                                                    base + p6,
                                                    base + p7,
                                                );
                                                let tail = stmt_ids(body) + optional_ids(increment);
                                                lemma_numbered_widen(
                                                    optional_ids(condition),
                                                    base + p2,
                                                    base + p3,
                                                    base + p2,
                                                    base + p4,
                                                );
                                                lemma_numbered_join(
                                                    optional_ids(condition),
                                                    tail,
                                                    base + p2,
                                                    base + p4,
                                                    base + p7,
                                                );
                                                lemma_numbered_join(
                                                    first_ids,
                                                    optional_ids(condition) + tail,
                                                    base + pos,
                                                    base + p2,
                                                    base + p7,
                                                );
                                            },
                                            Err(_) => {},
                                        }
                                    }
                                },
                                Err(_) => {},
                            }
                        }
                    },
                    Err(_) => {},
                }
            },
            Err(_) => {},
        }
    }
}

/// A variable declaration is numbered apart.
#[verifier::rlimit(60)]
pub proof fn lemma_var_declaration_spans(t: Seq<TokenView>, base: int, pos: int)
    requires
        countable(t, base),
        0 <= pos < t.len(),
    ensures
        var_declaration(t, base, pos) matches Ok((s, p)) ==> stmt_spans(t, base, pos, s, p),
        refused(var_declaration(t, base, pos)),
    decreases t.len() - pos, 45nat,
{
    if check(t, pos, TokenType::IDENTIFIER) {
        let p = pos + 1;
        lemma_numbered_few(base + pos, base + p + 1, 0);
        if check(t, p, TokenType::EQUAL) {
            lemma_expression_spans(t, base, p + 1);
            match expression(t, base, p + 1) {
                Ok((e, q)) => {
                    lemma_numbered_widen(expr_ids(e), base + p + 1, base + q, base + pos, base + q + 1);
                },
                Err(_) => {},
            }
        }
    }
}

/// The parameters of a function end within the list.
pub proof fn lemma_parameters_end(t: Seq<TokenView>, pos: int, read: Seq<TokenView>)
    requires
        well_formed(t),
        0 <= pos < t.len(),
    ensures
        parameters(t, pos, read) matches Ok((list, p)) ==> pos < p < t.len(),
        refused(parameters(t, pos, read)),
    decreases t.len() - pos,
{
    if read.len() < 255 && check(t, pos, TokenType::IDENTIFIER) {
        if check(t, pos + 1, TokenType::COMMA) {
            lemma_parameters_end(t, pos + 2, read.push(t[pos]));
        }
    }
}

/// A function declaration is numbered apart.
#[verifier::rlimit(60)]
pub proof fn lemma_function_spans(t: Seq<TokenView>, base: int, pos: int)
    requires
        countable(t, base),
        0 <= pos < t.len(),
    ensures
        function(t, base, pos) matches Ok((s, p)) ==> stmt_spans(t, base, pos, s, p),
        refused(function(t, base, pos)),
    decreases t.len() - pos, 50nat,
{
    if check(t, pos, TokenType::IDENTIFIER) && check(t, pos + 1, TokenType::LEFT_PAREN) {
        let p2 = pos + 2;
        let list: crate::grammar::Parse<Seq<TokenView>> = if check(t, p2, TokenType::RIGHT_PAREN) {
            Ok((Seq::empty(), p2))
        } else {
            lemma_parameters_end(t, p2, Seq::empty());
            parameters(t, p2, Seq::empty())
        };
        match list {
            Ok((params, p3)) => {
                if check(t, p3, TokenType::RIGHT_PAREN) && check(t, p3 + 1, TokenType::LEFT_BRACE) {
                    let p5 = p3 + 2;
                    lemma_numbered_few(base + pos, base + p5, 0);
                    lemma_ids_of_short_lists(
                        StmtView::Block { statements: Seq::empty() },
                        StmtView::Block { statements: Seq::empty() },
                    );
                    lemma_block_spans(t, base, pos, p5, Seq::empty());
                }
            },
            Err(_) => {},
        }
    }
}

/// The statements of a block are numbered apart.
#[verifier::rlimit(60)]
pub proof fn lemma_block_spans(
    t: Seq<TokenView>,
    base: int,
    start: int,
    pos: int,
    read: Seq<StmtView>,
)
    requires
        countable(t, base),
        0 <= start <= pos < t.len(),
        numbered(stmts_ids(read), base + start, base + pos),
    ensures
        block(t, base, pos, read) matches Ok((list, p)) ==> pos < p < t.len() && numbered(
            stmts_ids(list),
            base + start,
            base + p,
        ),
        refused(block(t, base, pos, read)),
    decreases t.len() - pos, 75nat,
{
    if !check(t, pos, TokenType::RIGHT_BRACE) && !at_end(t, pos) {
        lemma_declaration_spans(t, base, pos);
        match declaration(t, base, pos) {
            Ok((s, p)) => {
                assert(crate::grammar::recovering(t, base, pos) == Ok::<
                    (StmtView, int),
                    (crate::lox_error::LoxErrorView, int),
                >((s, p)));
                let more = read.push(s);
                assert(more.drop_last() =~= read);
                lemma_numbered_join(stmts_ids(read), stmt_ids(s), base + start, base + pos, base + p);
                lemma_block_spans(t, base, start, p, more);
                assert(block(t, base, pos, read) == block(t, base, p, more));
            },
            Err(_) => {
                assert(crate::grammar::recovering(t, base, pos) is Err);
                assert(block(t, base, pos, read) is Err);
            },
        }
    } else {
        lemma_numbered_widen(stmts_ids(read), base + start, base + pos, base + start, base + pos + 1);
    }
}

/// A statement is numbered apart.
#[verifier::rlimit(60)]
pub proof fn lemma_statement_spans(t: Seq<TokenView>, base: int, pos: int)
    requires
        countable(t, base),
        0 <= pos < t.len(),
    ensures
        statement(t, base, pos) matches Ok((s, p)) ==> stmt_spans(t, base, pos, s, p),
        refused(statement(t, base, pos)),
    decreases t.len() - pos, 60nat,
{
    let read = statement(t, base, pos);
    if check(t, pos, TokenType::IF) {
        assert(read == if_statement(t, base, pos + 1));
        lemma_if_statement_spans(t, base, pos + 1);
        lemma_keyword_before(t, base, pos, read);
    } else if check(t, pos, TokenType::RETURN) {
        assert(read == return_statement(t, base, pos + 1));
        lemma_return_statement_spans(t, base, pos + 1);
        lemma_keyword_before(t, base, pos, read);
    } else if check(t, pos, TokenType::FOR) {
        assert(read == for_statement(t, base, pos + 1));
        lemma_for_statement_spans(t, base, pos + 1);
        lemma_keyword_before(t, base, pos, read);
    } else if check(t, pos, TokenType::WHILE) {
        assert(read == while_statement(t, base, pos + 1));
        lemma_while_statement_spans(t, base, pos + 1);
        lemma_keyword_before(t, base, pos, read);
    } else if check(t, pos, TokenType::PRINT) {
        assert(read == print_statement(t, base, pos + 1));
        lemma_print_statement_spans(t, base, pos + 1);
        lemma_keyword_before(t, base, pos, read);
    } else if check(t, pos, TokenType::LEFT_BRACE) {
        lemma_numbered_few(base + pos, base + pos + 1, 0);
        lemma_ids_of_short_lists(
            StmtView::Block { statements: Seq::empty() },
            StmtView::Block { statements: Seq::empty() },
        );
        lemma_block_spans(t, base, pos, pos + 1, Seq::empty());
        match block(t, base, pos + 1, Seq::empty()) {
            Ok((statements, p)) => {
                assert(read == Ok::<(StmtView, int), (crate::lox_error::LoxErrorView, int)>(
                    (StmtView::Block { statements }, p),
                ));
            },
            Err(_) => {
                assert(read is Err);
            },
        }
    } else {
        assert(read == expression_statement(t, base, pos));
        lemma_expression_statement_spans(t, base, pos);
    }
}

/// What spans the tokens behind a keyword spans the keyword too.
pub proof fn lemma_keyword_before(
    t: Seq<TokenView>,
    base: int,
    pos: int,
    read: crate::grammar::Parse<StmtView>,
)
    requires
        read matches Ok((s, p)) ==> stmt_spans(t, base, pos + 1, s, p),
    ensures
        read matches Ok((s, p)) ==> stmt_spans(t, base, pos, s, p),
{
    match read {
        Ok((s, p)) => {
            lemma_numbered_widen(stmt_ids(s), base + pos + 1, base + p, base + pos, base + p);
        },
        Err(_) => {},
    }
}

/// A declaration is numbered apart.
#[verifier::rlimit(60)]
pub proof fn lemma_declaration_spans(t: Seq<TokenView>, base: int, pos: int)
    requires
        countable(t, base),
        0 <= pos < t.len(),
    ensures
        declaration(t, base, pos) matches Ok((s, p)) ==> stmt_spans(t, base, pos, s, p),
        refused(declaration(t, base, pos)),
    decreases t.len() - pos, 70nat,
{
    let read = declaration(t, base, pos);
    if check(t, pos, TokenType::VAR) {
        assert(read == var_declaration(t, base, pos + 1));
        lemma_var_declaration_spans(t, base, pos + 1);
        lemma_keyword_before(t, base, pos, read);
    } else if check(t, pos, TokenType::FUN) {
        assert(read == function(t, base, pos + 1));
        lemma_function_spans(t, base, pos + 1);
        lemma_keyword_before(t, base, pos, read);
    } else {
        assert(read == statement(t, base, pos));
        lemma_statement_spans(t, base, pos);
    }
}

/// The declarations of a program are numbered apart.
#[verifier::rlimit(60)]
pub proof fn lemma_program_spans(
    t: Seq<TokenView>,
    base: int,
    start: int,
    pos: int,
    read: Seq<StmtView>,
)
    requires
        countable(t, base),
        0 <= start <= pos < t.len(),
        numbered(stmts_ids(read), base + start, base + pos),
    ensures
        program(t, base, pos, read) matches Ok((list, p)) ==> pos <= p < t.len() && numbered(
            stmts_ids(list),
            base + start,
            base + p,
        ),
        refused(program(t, base, pos, read)),
    decreases t.len() - pos, 80nat,
{
    if !at_end(t, pos) {
        lemma_declaration_spans(t, base, pos);
        match declaration(t, base, pos) {
            Ok((s, p)) => {
                assert(crate::grammar::recovering(t, base, pos) == Ok::<
                    (StmtView, int),
                    (crate::lox_error::LoxErrorView, int),
                >((s, p)));
                let more = read.push(s);
                assert(more.drop_last() =~= read);
                lemma_numbered_join(stmts_ids(read), stmt_ids(s), base + start, base + pos, base + p);
                lemma_program_spans(t, base, start, p, more);
                assert(program(t, base, pos, read) == program(t, base, p, more));
            },
            Err(_) => {
                assert(crate::grammar::recovering(t, base, pos) is Err);
                assert(program(t, base, pos, read) is Err);
            },
        }
    }
}

/// The nodes of a program are numbered apart.
///
/// No two variables or assignments of a program that the parser has read
/// carry the same number, and the number of each lies from the number from
/// which the parser counts up to that number and the count of the tokens.
/// Programs that are read one after the other, each counted from where the
/// one before ended, therefore share no number.
pub proof fn lemma_program_is_numbered(t: Seq<TokenView>, base: int)
    requires
        countable(t, base),
    ensures
        program(t, base, 0, Seq::empty()) matches Ok((list, p)) ==> numbered(
            stmts_ids(list),
            base,
            base + t.len(),
        ),
        refused(program(t, base, 0, Seq::empty())),
{
    lemma_numbered_few(base, base, 0);
    lemma_ids_of_short_lists(
        StmtView::Block { statements: Seq::empty() },
        StmtView::Block { statements: Seq::empty() },
    );
    lemma_program_spans(t, base, 0, 0, Seq::empty());
    match program(t, base, 0, Seq::empty()) {
        Ok((list, p)) => {
            lemma_numbered_widen(stmts_ids(list), base, base + p, base, base + t.len());
        },
        Err(_) => {},
    }
}

/// The nodes of an expression are numbered apart, as those of a program.
pub proof fn lemma_expression_is_numbered(t: Seq<TokenView>, base: int)
    requires
        countable(t, base),
    ensures
        expression(t, base, 0) matches Ok((e, p)) ==> numbered(
            expr_ids(e),
            base,
            base + t.len(),
        ),
        refused(expression(t, base, 0)),
{
    lemma_expression_spans(t, base, 0);
    match expression(t, base, 0) {
        Ok((e, p)) => {
            lemma_numbered_widen(expr_ids(e), base, base + p, base, base + t.len());
        },
        Err(_) => {},
    }
}

} // verus!
