//! What holds of every tree that the grammar gives.

use vstd::prelude::*;
use crate::ast::{
    all_well_formed, are_names, groupings, looseness, statement_well_formed, well_formed, ExprView,
};
use crate::grammar::{
    advanced, binary_operator_at, continues, count_kind, is_prefix_operator, kind_at,
    lemma_binary_progress, lemma_declaration_progress, lemma_operand_progress,
    lemma_parameters_progress, lemma_unary_progress, operand_continues, operator_at, operator_rank,
    parse_binary, parse_block, parse_declaration, parse_expression, parse_operand, parse_operators,
    parse_parameter_list, parse_parameters, parse_primary, parse_program, parse_unary, rank,
    starts_function, width, writes, Level, ParserErrorView,
};
use crate::token::{TokenKind, TokenView};

verus! {

/// A primary expression is well formed and binds tightest.
pub proof fn lemma_primary_well_formed(ts: Seq<TokenView>, pos: int)
    ensures
        parse_primary(ts, pos) matches Ok((expr, _)) ==> well_formed(expr) && looseness(expr) == 0,
    decreases ts.len() - pos, 0nat,
{
    if 0 <= pos < ts.len() && ts[pos].kind == TokenKind::LParen {
        lemma_binary_well_formed(ts, pos + 1, Level::Equality);
    }
}

/// A unary expression is well formed and binds tightest.
pub proof fn lemma_unary_well_formed(ts: Seq<TokenView>, pos: int)
    ensures
        parse_unary(ts, pos) matches Ok((expr, _)) ==> well_formed(expr) && looseness(expr) == 0,
    decreases ts.len() - pos, 1nat,
{
    if 0 <= pos < ts.len() && is_prefix_operator(ts[pos].kind) {
        lemma_unary_well_formed(ts, pos + 1);
    } else {
        lemma_primary_well_formed(ts, pos);
    }
}

/// An operand of a level is well formed and binds tighter than the level.
pub proof fn lemma_operand_well_formed(ts: Seq<TokenView>, pos: int, level: Level)
    ensures
        parse_operand(ts, pos, level) matches Ok((expr, _)) ==> well_formed(expr) && looseness(expr)
            < rank(level),
    decreases ts.len() - pos, 2 * rank(level),
{
    match level {
        Level::Equality => lemma_binary_well_formed(ts, pos, Level::Comparison),
        Level::Comparison => lemma_binary_well_formed(ts, pos, Level::Term),
        Level::Term => lemma_binary_well_formed(ts, pos, Level::Factor),
        Level::Factor => lemma_unary_well_formed(ts, pos),
    }
}

/// An expression of a level is well formed and binds no looser than the
/// level.
pub proof fn lemma_binary_well_formed(ts: Seq<TokenView>, pos: int, level: Level)
    ensures
        parse_binary(ts, pos, level) matches Ok((expr, _)) ==> well_formed(expr) && looseness(expr)
            <= rank(level),
    decreases ts.len() - pos, 2 * rank(level) + 1,
{
    lemma_operand_well_formed(ts, pos, level);
    match parse_operand(ts, pos, level) {
        Ok((first, next)) => {
            if advanced(ts, pos, next) {
                lemma_operators_well_formed(ts, next, level, first);
            }
        },
        Err(_) => {},
    }
}

/// The operators of a level, after a well-formed left side that binds no
/// looser than the level, give such an expression again.
pub proof fn lemma_operators_well_formed(
    ts: Seq<TokenView>,
    pos: int,
    level: Level,
    left: ExprView,
)
    requires
        well_formed(left),
        looseness(left) <= rank(level),
    ensures
        parse_operators(ts, pos, level, left) matches Ok((expr, _)) ==> well_formed(expr)
            && looseness(expr) <= rank(level),
    decreases ts.len() - pos, 0nat,
{
    if operator_at(ts, pos, level) {
        lemma_operand_well_formed(ts, pos + 1, level);
        match parse_operand(ts, pos + 1, level) {
            Ok((right, next)) => {
                if advanced(ts, pos, next) {
                    let joined = ExprView::Binary {
                        left: Box::new(left),
                        operator: ts[pos],
                        right: Box::new(right),
                    };
                    assert(operator_rank(ts[pos].kind) == rank(level));
                    assert(well_formed(joined));
                    lemma_operators_well_formed(ts, next, level, joined);
                }
            },
            Err(_) => {},
        }
    }
}

/// Every expression that the grammar gives is well formed: precedence and
/// left nesting hold at every binary node, and every node holds tokens of
/// the kinds that belong to it.
pub proof fn expressions_are_well_formed(ts: Seq<TokenView>, pos: int)
    ensures
        parse_expression(ts, pos) matches Ok((expr, _)) ==> well_formed(expr),
{
    lemma_binary_well_formed(ts, pos, Level::Equality);
}

/// The names of parameters are `Identifier` tokens.
pub proof fn lemma_parameters_are_names(ts: Seq<TokenView>, pos: int)
    ensures
        parse_parameters(ts, pos) matches Ok((names, _)) ==> are_names(names),
        parse_parameter_list(ts, pos) matches Ok((names, _)) ==> are_names(names),
    decreases ts.len() - pos,
{
    if 0 <= pos < ts.len() && kind_at(ts, pos + 1) == Some(TokenKind::Identifier) && kind_at(
        ts,
        pos + 2,
    ) == Some(TokenKind::Comma) {
        lemma_parameters_are_names(ts, pos + 3);
    }
}

/// A declaration is a well-formed statement.
pub proof fn lemma_declaration_well_formed(ts: Seq<TokenView>, pos: int)
    ensures
        parse_declaration(ts, pos) matches Ok((statement, _)) ==> statement_well_formed(statement),
    decreases ts.len() - pos, 2nat,
{
    expressions_are_well_formed(ts, pos);
    expressions_are_well_formed(ts, pos + 1);
    expressions_are_well_formed(ts, pos + 3);
    if starts_function(ts, pos) {
        lemma_parameters_are_names(ts, pos + 3);
        lemma_parameters_progress(ts, pos + 3);
        match parse_parameters(ts, pos + 3) {
            Ok((_, after_params)) => {
                if kind_at(ts, after_params) == Some(TokenKind::LBrace) {
                    lemma_block_well_formed(ts, after_params + 1);
                }
            },
            Err(_) => {},
        }
    }
}

/// The statements of a body are well formed.
pub proof fn lemma_block_well_formed(ts: Seq<TokenView>, pos: int)
    ensures
        parse_block(ts, pos) matches Ok((statements, _)) ==> all_well_formed(statements),
    decreases ts.len() - pos, 3nat,
{
    if kind_at(ts, pos) is Some && kind_at(ts, pos) != Some(TokenKind::RBrace) && kind_at(ts, pos)
        != Some(TokenKind::EOF) {
        lemma_declaration_well_formed(ts, pos);
        match parse_declaration(ts, pos) {
            Ok((first, next)) => {
                if advanced(ts, pos, next) {
                    lemma_block_well_formed(ts, next);
                    match parse_block(ts, next) {
                        Ok((rest, _)) => {
                            let all = seq![first] + rest;
                            assert forall|i: int| 0 <= i < all.len() implies statement_well_formed(
                                #[trigger] all[i],
                            ) by {
                                if i > 0 {
                                    assert(all[i] == rest[i - 1]);
                                }
                            }
                        },
                        Err(_) => {},
                    }
                }
            },
            Err(_) => {},
        }
    }
}

/// Every statement of a program that the grammar gives is well formed.
pub proof fn programs_are_well_formed(ts: Seq<TokenView>, pos: int)
    ensures
        parse_program(ts, pos) matches Ok((statements, _)) ==> all_well_formed(statements),
    decreases ts.len() - pos,
{
    if kind_at(ts, pos) != Some(TokenKind::EOF) {
        lemma_declaration_well_formed(ts, pos);
        lemma_declaration_progress(ts, pos);
        match parse_declaration(ts, pos) {
            Ok((first, next)) => {
                programs_are_well_formed(ts, next);
                match parse_program(ts, next) {
                    Ok((rest, _)) => {
                        let all = seq![first] + rest;
                        assert forall|i: int| 0 <= i < all.len() implies statement_well_formed(
                            #[trigger] all[i],
                        ) by {
                            if i > 0 {
                                assert(all[i] == rest[i - 1]);
                            }
                        }
                    },
                    Err(_) => {},
                }
            },
            Err(_) => {},
        }
    }
}

/// A primary expression is written by the tokens it took.
pub proof fn lemma_primary_writes(ts: Seq<TokenView>, pos: int)
    ensures
        parse_primary(ts, pos) matches Ok((expr, next)) ==> writes(ts, pos, expr) && next == pos
            + width(expr),
    decreases ts.len() - pos, 0nat,
{
    if 0 <= pos < ts.len() && ts[pos].kind == TokenKind::LParen {
        lemma_binary_writes(ts, pos + 1, Level::Equality);
    }
}

/// A unary expression is written by the tokens it took.
pub proof fn lemma_unary_writes(ts: Seq<TokenView>, pos: int)
    ensures
        parse_unary(ts, pos) matches Ok((expr, next)) ==> writes(ts, pos, expr) && next == pos
            + width(expr),
    decreases ts.len() - pos, 1nat,
{
    if 0 <= pos < ts.len() && is_prefix_operator(ts[pos].kind) {
        lemma_unary_writes(ts, pos + 1);
    } else {
        lemma_primary_writes(ts, pos);
    }
}

/// An operand is written by the tokens it took.
pub proof fn lemma_operand_writes(ts: Seq<TokenView>, pos: int, level: Level)
    ensures
        parse_operand(ts, pos, level) matches Ok((expr, next)) ==> writes(ts, pos, expr) && next
            == pos + width(expr),
    decreases ts.len() - pos, 2 * rank(level),
{
    match level {
        Level::Equality => lemma_binary_writes(ts, pos, Level::Comparison),
        Level::Comparison => lemma_binary_writes(ts, pos, Level::Term),
        Level::Term => lemma_binary_writes(ts, pos, Level::Factor),
        Level::Factor => lemma_unary_writes(ts, pos),
    }
}

/// An expression of a level is written by the tokens it took.
pub proof fn lemma_binary_writes(ts: Seq<TokenView>, pos: int, level: Level)
    ensures
        parse_binary(ts, pos, level) matches Ok((expr, next)) ==> writes(ts, pos, expr) && next
            == pos + width(expr),
    decreases ts.len() - pos, 2 * rank(level) + 1,
{
    lemma_operand_writes(ts, pos, level);
    match parse_operand(ts, pos, level) {
        Ok((first, next)) => {
            if advanced(ts, pos, next) {
                lemma_operators_writes(ts, pos, next, level, first);
            }
        },
        Err(_) => {},
    }
}

/// Where the tokens from `start` up to `pos` write the left side, the
/// tokens from `start` up to the end write the whole expression.
pub proof fn lemma_operators_writes(
    ts: Seq<TokenView>,
    start: int,
    pos: int,
    level: Level,
    left: ExprView,
)
    requires
        writes(ts, start, left),
        pos == start + width(left),
    ensures
        parse_operators(ts, pos, level, left) matches Ok((expr, next)) ==> writes(ts, start, expr)
            && next == start + width(expr),
    decreases ts.len() - pos, 0nat,
{
    if operator_at(ts, pos, level) {
        lemma_operand_writes(ts, pos + 1, level);
        match parse_operand(ts, pos + 1, level) {
            Ok((right, next)) => {
                if advanced(ts, pos, next) {
                    let joined = ExprView::Binary {
                        left: Box::new(left),
                        operator: ts[pos],
                        right: Box::new(right),
                    };
                    assert(writes(ts, start, joined));
                    lemma_operators_writes(ts, start, next, level, joined);
                }
            },
            Err(_) => {},
        }
    }
}

/// Every expression that the grammar gives is written by exactly the
/// tokens it was read from, in their order: nothing is dropped, added or
/// moved, and every pair of parentheses is a grouping.
pub proof fn expressions_keep_their_tokens(ts: Seq<TokenView>, pos: int)
    ensures
        parse_expression(ts, pos) matches Ok((expr, next)) ==> writes(ts, pos, expr) && next == pos
            + width(expr),
{
    lemma_binary_writes(ts, pos, Level::Equality);
}

/// An operand ends where no operator of a tighter level follows.
pub proof fn lemma_operand_stops(ts: Seq<TokenView>, pos: int, level: Level)
    ensures
        parse_operand(ts, pos, level) matches Ok((_, next)) ==> !operand_continues(ts, next, level),
    decreases ts.len() - pos, 2 * rank(level),
{
    match level {
        Level::Equality => lemma_binary_stops(ts, pos, Level::Comparison),
        Level::Comparison => lemma_binary_stops(ts, pos, Level::Term),
        Level::Term => lemma_binary_stops(ts, pos, Level::Factor),
        Level::Factor => {},
    }
}

/// An expression of a level ends where no operator of the level or of a
/// tighter level follows.
pub proof fn lemma_binary_stops(ts: Seq<TokenView>, pos: int, level: Level)
    ensures
        parse_binary(ts, pos, level) matches Ok((_, next)) ==> !continues(ts, next, level),
    decreases ts.len() - pos, 2 * rank(level) + 1,
{
    lemma_operand_stops(ts, pos, level);
    match parse_operand(ts, pos, level) {
        Ok((first, next)) => {
            if advanced(ts, pos, next) {
                lemma_operators_stop(ts, next, level, first);
            }
        },
        Err(_) => {},
    }
}

/// The operators of a level, taken from where no operator of a tighter
/// level stands, end where no operator of the level or of a tighter level
/// follows.
pub proof fn lemma_operators_stop(ts: Seq<TokenView>, pos: int, level: Level, left: ExprView)
    requires
        !operand_continues(ts, pos, level),
    ensures
        parse_operators(ts, pos, level, left) matches Ok((_, next)) ==> !continues(ts, next, level),
    decreases ts.len() - pos, 0nat,
{
    if operator_at(ts, pos, level) {
        lemma_operand_stops(ts, pos + 1, level);
        match parse_operand(ts, pos + 1, level) {
            Ok((right, next)) => {
                if advanced(ts, pos, next) {
                    lemma_operators_stop(
                        ts,
                        next,
                        level,
                        ExprView::Binary {
                            left: Box::new(left),
                            operator: ts[pos],
                            right: Box::new(right),
                        },
                    );
                }
            },
            Err(_) => {},
        }
    }
}

/// An expression is written with at least one token.
pub proof fn lemma_width_positive(expr: ExprView)
    ensures
        width(expr) >= 1,
    decreases expr,
{
    match expr {
        ExprView::Binary { left, .. } => lemma_width_positive(*left),
        _ => {},
    }
}

/// A well-formed expression that binds tightest is what a unary expression
/// reads from the tokens that write it.
pub proof fn lemma_unary_complete(ts: Seq<TokenView>, pos: int, expr: ExprView)
    requires
        well_formed(expr),
        looseness(expr) == 0,
        writes(ts, pos, expr),
    ensures
        parse_unary(ts, pos) == Ok::<(ExprView, int), ParserErrorView>((expr, pos + width(expr))),
    decreases expr, 0nat, 0nat,
{
    let wanted = Ok::<(ExprView, int), ParserErrorView>((expr, pos + width(expr)));
    match expr {
        ExprView::Unary { right, .. } => {
            lemma_unary_complete(ts, pos + 1, *right);
            assert(parse_unary(ts, pos) == wanted);
        },
        ExprView::Grouping(inner) => {
            lemma_binary_complete(ts, pos + 1, *inner, Level::Equality);
            assert(parse_primary(ts, pos) == wanted);
        },
        ExprView::Literal(_) => {
            assert(parse_primary(ts, pos) == wanted);
        },
        ExprView::Identifier(_) => {
            assert(parse_primary(ts, pos) == wanted);
        },
        ExprView::Binary { .. } => {},
    }
}

/// A well-formed expression that binds tighter than a level is what an
/// operand of the level reads from the tokens that write it, where no
/// operator of a tighter level follows them.
pub proof fn lemma_operand_complete(ts: Seq<TokenView>, pos: int, expr: ExprView, level: Level)
    requires
        well_formed(expr),
        looseness(expr) < rank(level),
        writes(ts, pos, expr),
        !operand_continues(ts, pos + width(expr), level),
    ensures
        parse_operand(ts, pos, level) == Ok::<(ExprView, int), ParserErrorView>(
            (expr, pos + width(expr)),
        ),
    decreases expr, rank(level), 0nat,
{
    match level {
        Level::Equality => lemma_binary_complete(ts, pos, expr, Level::Comparison),
        Level::Comparison => lemma_binary_complete(ts, pos, expr, Level::Term),
        Level::Term => lemma_binary_complete(ts, pos, expr, Level::Factor),
        Level::Factor => lemma_unary_complete(ts, pos, expr),
    }
}

/// Reading an expression of a level from the tokens that write a
/// well-formed expression comes, with that expression as the left side, to
/// the token after them, where no operator of a tighter level stands there.
pub proof fn lemma_left_side_complete(ts: Seq<TokenView>, pos: int, expr: ExprView, level: Level)
    requires
        well_formed(expr),
        looseness(expr) <= rank(level),
        writes(ts, pos, expr),
        !operand_continues(ts, pos + width(expr), level),
    ensures
        parse_binary(ts, pos, level) == parse_operators(ts, pos + width(expr), level, expr),
    decreases expr, rank(level), 1nat,
{
    lemma_width_positive(expr);
    if looseness(expr) < rank(level) {
        lemma_operand_complete(ts, pos, expr, level);
    } else {
        match expr {
            ExprView::Binary { left, operator, right } => {
                let at_operator = pos + width(*left);
                lemma_width_positive(*right);
                lemma_left_side_complete(ts, pos, *left, level);
                lemma_operand_complete(ts, at_operator + 1, *right, level);
                assert(operator_at(ts, at_operator, level));
                assert(advanced(ts, at_operator, pos + width(expr)));
            },
            _ => {},
        }
    }
}

/// A well-formed expression that binds no looser than a level is what an
/// expression of the level reads from the tokens that write it, where no
/// operator of the level or of a tighter level follows them.
pub proof fn lemma_binary_complete(ts: Seq<TokenView>, pos: int, expr: ExprView, level: Level)
    requires
        well_formed(expr),
        looseness(expr) <= rank(level),
        writes(ts, pos, expr),
        !continues(ts, pos + width(expr), level),
    ensures
        parse_binary(ts, pos, level) == Ok::<(ExprView, int), ParserErrorView>(
            (expr, pos + width(expr)),
        ),
    decreases expr, rank(level), 2nat,
{
    lemma_left_side_complete(ts, pos, expr, level);
}

/// The grammar of expressions, said without a parser: reading from `pos`
/// gives `expr` and ends at `next` exactly if `expr` is well formed, the
/// tokens from `pos` up to `next` write it, and no binary operator stands
/// at `next`. So a stretch of tokens has at most one reading, precedence
/// and left nesting decide it, and it is the longest that can be had.
pub proof fn reading_is_exact(ts: Seq<TokenView>, pos: int, expr: ExprView, next: int)
    ensures
        parse_expression(ts, pos) == Ok::<(ExprView, int), ParserErrorView>((expr, next)) <==> {
            &&& well_formed(expr)
            &&& writes(ts, pos, expr)
            &&& next == pos + width(expr)
            &&& !binary_operator_at(ts, next)
        },
{
    if parse_expression(ts, pos) == Ok::<(ExprView, int), ParserErrorView>((expr, next)) {
        expressions_are_well_formed(ts, pos);
        expressions_keep_their_tokens(ts, pos);
        lemma_binary_stops(ts, pos, Level::Equality);
    }
    if well_formed(expr) && writes(ts, pos, expr) && next == pos + width(expr)
        && !binary_operator_at(ts, next) {
        lemma_binary_complete(ts, pos, expr, Level::Equality);
    }
}

/// Counting over two stretches that meet is counting over both.
pub proof fn lemma_count_joins(ts: Seq<TokenView>, from: int, mid: int, to: int, kind: TokenKind)
    requires
        from <= mid <= to,
    ensures
        count_kind(ts, from, to, kind) == count_kind(ts, from, mid, kind) + count_kind(
            ts,
            mid,
            to,
            kind,
        ),
    decreases to - mid,
{
    if mid < to {
        lemma_count_joins(ts, from, mid, to - 1, kind);
    }
}

/// A stretch of one token counts 1 if the token is of the kind, else 0.
pub proof fn lemma_count_one(ts: Seq<TokenView>, pos: int, kind: TokenKind)
    requires
        0 <= pos < ts.len(),
    ensures
        count_kind(ts, pos, pos + 1, kind) == if ts[pos].kind == kind {
            1nat
        } else {
            0nat
        },
{
    assert(count_kind(ts, pos, pos, kind) == 0);
}

/// A primary expression has as many groupings as it took `(` tokens.
pub proof fn lemma_primary_groupings(ts: Seq<TokenView>, pos: int)
    ensures
        parse_primary(ts, pos) matches Ok((expr, next)) ==> groupings(expr) == count_kind(
            ts,
            pos,
            next,
            TokenKind::LParen,
        ),
    decreases ts.len() - pos, 0nat,
{
    if 0 <= pos < ts.len() {
        lemma_count_one(ts, pos, TokenKind::LParen);
        if ts[pos].kind == TokenKind::LParen {
            lemma_binary_groupings(ts, pos + 1, Level::Equality);
            lemma_binary_progress(ts, pos + 1, Level::Equality);
            match parse_expression(ts, pos + 1) {
                Ok((_, next)) => {
                    if kind_at(ts, next) == Some(TokenKind::RParen) {
                        lemma_count_one(ts, next, TokenKind::LParen);
                        lemma_count_joins(ts, pos, pos + 1, next, TokenKind::LParen);
                        lemma_count_joins(ts, pos, next, next + 1, TokenKind::LParen);
                    }
                },
                Err(_) => {},
            }
        }
    }
}

/// A unary expression has as many groupings as it took `(` tokens.
pub proof fn lemma_unary_groupings(ts: Seq<TokenView>, pos: int)
    ensures
        parse_unary(ts, pos) matches Ok((expr, next)) ==> groupings(expr) == count_kind(
            ts,
            pos,
            next,
            TokenKind::LParen,
        ),
    decreases ts.len() - pos, 1nat,
{
    if 0 <= pos < ts.len() && is_prefix_operator(ts[pos].kind) {
        lemma_unary_groupings(ts, pos + 1);
        lemma_unary_progress(ts, pos + 1);
        lemma_count_one(ts, pos, TokenKind::LParen);
        match parse_unary(ts, pos + 1) {
            Ok((_, next)) => {
                lemma_count_joins(ts, pos, pos + 1, next, TokenKind::LParen);
            },
            Err(_) => {},
        }
    } else {
        lemma_primary_groupings(ts, pos);
    }
}

/// An operand has as many groupings as it took `(` tokens.
pub proof fn lemma_operand_groupings(ts: Seq<TokenView>, pos: int, level: Level)
    ensures
        parse_operand(ts, pos, level) matches Ok((expr, next)) ==> groupings(expr) == count_kind(
            ts,
            pos,
            next,
            TokenKind::LParen,
        ),
    decreases ts.len() - pos, 2 * rank(level),
{
    match level {
        Level::Equality => lemma_binary_groupings(ts, pos, Level::Comparison),
        Level::Comparison => lemma_binary_groupings(ts, pos, Level::Term),
        Level::Term => lemma_binary_groupings(ts, pos, Level::Factor),
        Level::Factor => lemma_unary_groupings(ts, pos),
    }
}

/// An expression of a level has as many groupings as it took `(` tokens.
pub proof fn lemma_binary_groupings(ts: Seq<TokenView>, pos: int, level: Level)
    ensures
        parse_binary(ts, pos, level) matches Ok((expr, next)) ==> groupings(expr) == count_kind(
            ts,
            pos,
            next,
            TokenKind::LParen,
        ),
    decreases ts.len() - pos, 2 * rank(level) + 1,
{
    lemma_operand_groupings(ts, pos, level);
    match parse_operand(ts, pos, level) {
        Ok((first, next)) => {
            if advanced(ts, pos, next) {
                lemma_operators_groupings(ts, pos, next, level, first);
            }
        },
        Err(_) => {},
    }
}

/// Where the left side, read from `start` up to `pos`, has as many
/// groupings as `(` tokens stand there, so has the whole expression from
/// `start` to its end.
pub proof fn lemma_operators_groupings(
    ts: Seq<TokenView>,
    start: int,
    pos: int,
    level: Level,
    left: ExprView,
)
    requires
        start <= pos <= ts.len(),
        groupings(left) == count_kind(ts, start, pos, TokenKind::LParen),
    ensures
        parse_operators(ts, pos, level, left) matches Ok((expr, next)) ==> groupings(expr)
            == count_kind(ts, start, next, TokenKind::LParen),
    decreases ts.len() - pos, 0nat,
{
    if operator_at(ts, pos, level) {
        lemma_operand_groupings(ts, pos + 1, level);
        lemma_count_one(ts, pos, TokenKind::LParen);
        match parse_operand(ts, pos + 1, level) {
            Ok((right, next)) => {
                if advanced(ts, pos, next) {
                    let joined = ExprView::Binary {
                        left: Box::new(left),
                        operator: ts[pos],
                        right: Box::new(right),
                    };
                    lemma_operand_progress(ts, pos + 1, level);
                    lemma_count_joins(ts, start, pos, pos + 1, TokenKind::LParen);
                    lemma_count_joins(ts, start, pos + 1, next, TokenKind::LParen);
                    lemma_operators_groupings(ts, start, next, level, joined);
                }
            },
            Err(_) => {},
        }
    }
}

/// No parenthesis is lost: an expression that the grammar gives has exactly
/// one grouping node for each `(` among the tokens it was read from.
pub proof fn groupings_are_kept(ts: Seq<TokenView>, pos: int)
    ensures
        parse_expression(ts, pos) matches Ok((expr, next)) ==> groupings(expr) == count_kind(
            ts,
            pos,
            next,
            TokenKind::LParen,
        ),
{
    lemma_binary_groupings(ts, pos, Level::Equality);
}

} // verus!
