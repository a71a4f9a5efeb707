//! What holds of the picture of every expression.

use vstd::prelude::*;
use crate::ast::{groupings, ExprView};
use crate::grammar::{count_kind, parse_expression};
use crate::parser_theorems::groupings_are_kept;
use crate::printer::{
    connector, indentation, is_grouping_line, line_of, line_text, lines_text, node_count,
    node_details, node_tag, outline, picture_lines, shows_grouping, subtree_text, tree_text,
    values_on_one_line, Line,
};
use crate::text::{
    is_line, lemma_first_line, lemma_newline_count_joins, lemma_no_newline_counts_none,
    lemma_no_newline_joins, newline_count, no_newline, text_lines,
};
use crate::token::lemma_kind_name_one_line;
use crate::token::{TokenKind, TokenView};

verus! {

/// The text of lines put together is their texts put together.
proof fn lemma_lines_text_joins(first: Seq<Line>, second: Seq<Line>)
    ensures
        lines_text(first + second) == lines_text(first) + lines_text(second),
    decreases second.len(),
{
    if second.len() == 0 {
        assert(first + second =~= first);
        assert(lines_text(first) + lines_text(second) =~= lines_text(first));
    } else {
        lemma_lines_text_joins(first, second.drop_last());
        assert((first + second).drop_last() =~= first + second.drop_last());
        assert((first + second).last() == second.last());
        assert(lines_text(first + second) =~= lines_text(first) + lines_text(second));
    }
}

/// The text of a single line.
proof fn lemma_lines_text_one(line: Line)
    ensures
        lines_text(seq![line]) == line_text(line),
{
    reveal_with_fuel(lines_text, 2);
    assert(seq![line].drop_last() =~= Seq::<Line>::empty());
    assert(lines_text(seq![line]) =~= line_text(line));
}

/// The picture of an expression is the text of its lines: a picture has
/// one line for each node, indented by its depth.
pub proof fn picture_is_its_lines(expr: ExprView, depth: nat, is_last: bool)
    ensures
        subtree_text(expr, indentation(depth), is_last) == lines_text(
            outline(expr, depth, is_last),
        ),
        outline(expr, depth, is_last).len() == node_count(expr),
        outline(expr, depth, is_last).filter(|line: Line| shows_grouping(line)).len() == groupings(
            expr,
        ),
    decreases expr,
{
    let shows = |line: Line| shows_grouping(line);
    let own = Line { node: expr, depth, is_last };
    let head = seq![own];
    lemma_lines_text_one(own);
    assert(head.filter(shows).len() == if shows_grouping(own) {
        1nat
    } else {
        0nat
    }) by {
        reveal_with_fuel(Seq::filter, 2);
        assert(head.drop_last() =~= Seq::<Line>::empty());
    }
    assert(indentation(depth + 1) == indentation(depth) + "  "@);
    match expr {
        ExprView::Binary { left, right, .. } => {
            let below_left = outline(*left, depth + 1, false);
            let below_right = outline(*right, depth + 1, true);
            picture_is_its_lines(*left, depth + 1, false);
            picture_is_its_lines(*right, depth + 1, true);
            lemma_lines_text_joins(below_left, below_right);
            lemma_lines_text_joins(head, below_left + below_right);
            Seq::filter_distributes_over_add(below_left, below_right, shows);
            Seq::filter_distributes_over_add(head, below_left + below_right, shows);
        },
        ExprView::Unary { right, .. } => {
            let below = outline(*right, depth + 1, true);
            picture_is_its_lines(*right, depth + 1, true);
            lemma_lines_text_joins(head, below);
            Seq::filter_distributes_over_add(head, below, shows);
        },
        ExprView::Grouping(inner) => {
            let below = outline(*inner, depth + 1, true);
            picture_is_its_lines(*inner, depth + 1, true);
            lemma_lines_text_joins(head, below);
            Seq::filter_distributes_over_add(head, below, shows);
        },
        ExprView::Literal(_) | ExprView::Identifier(_) => {
            assert(outline(expr, depth, is_last) =~= head);
            assert(subtree_text(expr, indentation(depth), is_last) =~= line_text(own));
        },
    }
}

/// A line whose indentation, tag and details hold no newline holds
/// exactly one, at its end.
pub proof fn lemma_line_ends_in_its_newline(
    indent: Seq<char>,
    is_last: bool,
    tag: Seq<char>,
    details: Seq<char>,
)
    requires
        no_newline(indent),
        no_newline(tag),
        no_newline(details),
    ensures
        newline_count(line_of(indent, is_last, tag, details)) == 1,
        line_of(indent, is_last, tag, details).len() > 0,
        line_of(indent, is_last, tag, details).last() == '\n',
        no_newline(line_of(indent, is_last, tag, details).drop_last()),
{
    reveal_strlit("└─ ");
    reveal_strlit("├─ ");
    reveal_strlit("┌─ ");
    reveal_strlit(" (");
    reveal_strlit(")\n");
    let head = indent + connector(is_last) + "┌─ "@ + tag + " ("@ + details;
    let closing = seq![')'];
    let line = line_of(indent, is_last, tag, details);
    lemma_no_newline_joins(indent, connector(is_last));
    lemma_no_newline_joins(indent + connector(is_last), "┌─ "@);
    lemma_no_newline_joins(indent + connector(is_last) + "┌─ "@, tag);
    lemma_no_newline_joins(indent + connector(is_last) + "┌─ "@ + tag, " ("@);
    lemma_no_newline_joins(indent + connector(is_last) + "┌─ "@ + tag + " ("@, details);
    lemma_no_newline_joins(head, closing);
    assert(")\n"@ =~= closing.push('\n'));
    assert(line =~= (head + closing).push('\n'));
    assert(line.drop_last() =~= head + closing);
    lemma_no_newline_counts_none(head + closing);
}

/// The tag of a node and, where its values stand on one line, what is said
/// of it hold no newline.
pub proof fn lemma_node_on_one_line(expr: ExprView)
    requires
        values_on_one_line(expr),
    ensures
        no_newline(node_tag(expr)),
        no_newline(node_details(expr)),
{
    reveal_strlit("Binary");
    reveal_strlit("Unary");
    reveal_strlit("Literal");
    reveal_strlit("Identifier");
    reveal_strlit("Grouping");
    reveal_strlit("(...)");
    match expr {
        ExprView::Binary { operator, .. } => lemma_kind_name_one_line(operator.kind),
        ExprView::Unary { operator, .. } => lemma_kind_name_one_line(operator.kind),
        _ => {},
    }
}

/// The picture of an expression whose values stand on one line has
/// exactly as many newlines as the expression has nodes.
pub proof fn picture_has_a_line_for_each_node(expr: ExprView, indent: Seq<char>, is_last: bool)
    requires
        values_on_one_line(expr),
        no_newline(indent),
    ensures
        newline_count(subtree_text(expr, indent, is_last)) == node_count(expr),
    decreases expr,
{
    reveal_strlit("  ");
    let deeper = indent + "  "@;
    let own = line_of(indent, is_last, node_tag(expr), node_details(expr));
    lemma_no_newline_joins(indent, "  "@);
    lemma_node_on_one_line(expr);
    lemma_line_ends_in_its_newline(indent, is_last, node_tag(expr), node_details(expr));
    match expr {
        ExprView::Binary { left, right, .. } => {
            picture_has_a_line_for_each_node(*left, deeper, false);
            picture_has_a_line_for_each_node(*right, deeper, true);
            lemma_newline_count_joins(
                subtree_text(*left, deeper, false),
                subtree_text(*right, deeper, true),
            );
            lemma_newline_count_joins(
                own,
                subtree_text(*left, deeper, false) + subtree_text(*right, deeper, true),
            );
        },
        ExprView::Unary { right, .. } => {
            picture_has_a_line_for_each_node(*right, deeper, true);
            lemma_newline_count_joins(own, subtree_text(*right, deeper, true));
        },
        ExprView::Grouping(inner) => {
            picture_has_a_line_for_each_node(*inner, deeper, true);
            lemma_newline_count_joins(own, subtree_text(*inner, deeper, true));
        },
        ExprView::Literal(_) | ExprView::Identifier(_) => {
            assert(subtree_text(expr, indent, is_last) =~= own);
        },
    }
}

/// Indentation holds no newline.
pub proof fn lemma_indentation_one_line(depth: nat)
    ensures
        no_newline(indentation(depth)),
        indentation(depth).len() == 2 * depth,
        forall|i: int| 0 <= i < 2 * depth ==> #[trigger] indentation(depth)[i] == ' ',
    decreases depth,
{
    reveal_strlit("  ");
    if depth > 0 {
        lemma_indentation_one_line((depth - 1) as nat);
    }
}

/// Each line of the picture of an expression whose values stand on one
/// line is one whole line of text.
pub proof fn lemma_outline_lines(expr: ExprView, depth: nat, is_last: bool)
    requires
        values_on_one_line(expr),
    ensures
        forall|k: int|
            0 <= k < outline(expr, depth, is_last).len() ==> is_line(
                line_text(#[trigger] outline(expr, depth, is_last)[k]),
            ),
    decreases expr,
{
    let own = Line { node: expr, depth, is_last };
    let all = outline(expr, depth, is_last);
    lemma_indentation_one_line(depth);
    lemma_node_on_one_line(expr);
    lemma_line_ends_in_its_newline(
        indentation(depth),
        is_last,
        node_tag(expr),
        node_details(expr),
    );
    assert(is_line(line_text(own)));
    match expr {
        ExprView::Binary { left, right, .. } => {
            let below_left = outline(*left, depth + 1, false);
            let below_right = outline(*right, depth + 1, true);
            lemma_outline_lines(*left, depth + 1, false);
            lemma_outline_lines(*right, depth + 1, true);
            assert forall|k: int| 0 <= k < all.len() implies is_line(line_text(#[trigger] all[k])) by {
                if k == 0 {
                    assert(all[k] == own);
                } else if k - 1 < below_left.len() {
                    assert(all[k] == below_left[k - 1]);
                } else {
                    assert(all[k] == below_right[k - 1 - below_left.len()]);
                }
            }
        },
        ExprView::Unary { right, .. } => {
            let below = outline(*right, depth + 1, true);
            lemma_outline_lines(*right, depth + 1, true);
            assert forall|k: int| 0 <= k < all.len() implies is_line(line_text(#[trigger] all[k])) by {
                if k == 0 {
                    assert(all[k] == own);
                } else {
                    assert(all[k] == below[k - 1]);
                }
            }
        },
        ExprView::Grouping(inner) => {
            let below = outline(*inner, depth + 1, true);
            lemma_outline_lines(*inner, depth + 1, true);
            assert forall|k: int| 0 <= k < all.len() implies is_line(line_text(#[trigger] all[k])) by {
                if k == 0 {
                    assert(all[k] == own);
                } else {
                    assert(all[k] == below[k - 1]);
                }
            }
        },
        ExprView::Literal(_) | ExprView::Identifier(_) => {
            assert(all =~= seq![own]);
        },
    }
}

/// The lines of the text of some whole lines are the texts of those lines.
pub proof fn lemma_text_lines_of_lines(lines: Seq<Line>)
    requires
        forall|k: int| 0 <= k < lines.len() ==> is_line(line_text(#[trigger] lines[k])),
    ensures
        text_lines(lines_text(lines)) == lines.map_values(|line: Line| line_text(line)),
    decreases lines.len(),
{
    let texts = lines.map_values(|line: Line| line_text(line));
    if lines.len() == 0 {
        assert(text_lines(lines_text(lines)) =~= texts);
    } else {
        let first = lines[0];
        let rest = lines.drop_first();
        assert(lines =~= seq![first] + rest);
        lemma_lines_text_joins(seq![first], rest);
        lemma_lines_text_one(first);
        assert forall|k: int| 0 <= k < rest.len() implies is_line(line_text(#[trigger] rest[k])) by {
            assert(rest[k] == lines[k + 1]);
        }
        lemma_text_lines_of_lines(rest);
        lemma_first_line(line_text(first), lines_text(rest));
        assert(seq![line_text(first)] + rest.map_values(|line: Line| line_text(line)) =~= texts);
    }
}

/// The shape of a line at `depth`: spaces up to the connector, which is no
/// space, and the first letter of the tag six characters after them.
pub proof fn lemma_line_shape(depth: nat, is_last: bool, tag: Seq<char>, details: Seq<char>)
    requires
        tag.len() > 0,
    ensures
        line_of(indentation(depth), is_last, tag, details).len() > 2 * depth + 6,
        forall|i: int|
            0 <= i < 2 * depth ==> #[trigger] line_of(indentation(depth), is_last, tag, details)[i]
                == ' ',
        line_of(indentation(depth), is_last, tag, details)[(2 * depth) as int] != ' ',
        line_of(indentation(depth), is_last, tag, details)[(2 * depth + 6) as int] == tag[0],
{
    reveal_strlit("└─ ");
    reveal_strlit("├─ ");
    reveal_strlit("┌─ ");
    lemma_indentation_one_line(depth);
    let indent = indentation(depth);
    let start = indent + connector(is_last) + "┌─ "@ + tag;
    let line = line_of(indent, is_last, tag, details);
    assert(line =~= start + " ("@ + details + ")\n"@);
    assert(start.len() == 2 * depth + 6 + tag.len());
    assert forall|i: int| 0 <= i < start.len() implies line[i] == start[i] by {}
    assert(start[(2 * depth) as int] == connector(is_last)[0]);
    assert(start[(2 * depth + 6) as int] == tag[0]);
    assert forall|i: int| 0 <= i < 2 * depth implies #[trigger] line[i] == ' ' by {
        assert(start[i] == indent[i]);
    }
}

/// A line of the picture reads as the line of a grouping exactly if its
/// node is a grouping: whatever a value holds, its line is no grouping's.
pub proof fn lemma_grouping_lines(line: Line)
    ensures
        is_grouping_line(line_text(line)) <==> shows_grouping(line),
{
    reveal_strlit("Binary");
    reveal_strlit("Unary");
    reveal_strlit("Literal");
    reveal_strlit("Identifier");
    reveal_strlit("Grouping");
    let text = line_text(line);
    if shows_grouping(line) {
        reveal_strlit("(...)");
        assert(text == line_of(indentation(line.depth), line.is_last, "Grouping"@, "(...)"@));
    }
    if is_grouping_line(text) {
        let (depth, is_last) = choose|depth: nat, is_last: bool|
            text == #[trigger] line_of(indentation(depth), is_last, "Grouping"@, "(...)"@);
        lemma_line_shape(line.depth, line.is_last, node_tag(line.node), node_details(line.node));
        lemma_line_shape(depth, is_last, "Grouping"@, "(...)"@);
        let other = line_of(indentation(depth), is_last, "Grouping"@, "(...)"@);
        if line.depth < depth {
            assert(other[(2 * line.depth) as int] == ' ');
        } else if depth < line.depth {
            assert(text[(2 * depth) as int] == ' ');
        }
        assert(line.depth == depth);
        assert(node_tag(line.node)[0] == 'G');
    }
}

/// As many of the mapped items pass a test as items pass the test that
/// says the same of them.
proof fn lemma_filter_through_map<A, B>(
    items: Seq<A>,
    f: spec_fn(A) -> B,
    passes: spec_fn(A) -> bool,
    mapped_passes: spec_fn(B) -> bool,
)
    requires
        forall|k: int| 0 <= k < items.len() ==> mapped_passes(f(#[trigger] items[k])) == passes(
            items[k],
        ),
    ensures
        items.map_values(f).filter(mapped_passes).len() == items.filter(passes).len(),
    decreases items.len(),
{
    reveal_with_fuel(Seq::filter, 2);
    if items.len() > 0 {
        let rest = items.drop_last();
        assert forall|k: int| 0 <= k < rest.len() implies mapped_passes(f(#[trigger] rest[k]))
            == passes(rest[k]) by {
            assert(rest[k] == items[k]);
        }
        lemma_filter_through_map(rest, f, passes, mapped_passes);
        assert(items.map_values(f).drop_last() =~= rest.map_values(f));
        assert(items.map_values(f).last() == f(items.last()));
        assert(items.last() == items[items.len() - 1]);
    }
}

/// The lines of the text of a picture are the lines of its nodes, in
/// order; and as many of them read as the line of a grouping as the
/// expression has groupings.
pub proof fn text_lines_are_the_nodes(expr: ExprView)
    requires
        values_on_one_line(expr),
    ensures
        text_lines(tree_text(expr)) == picture_lines(expr),
        text_lines(tree_text(expr)).len() == node_count(expr),
        text_lines(tree_text(expr)).filter(|text: Seq<char>| is_grouping_line(text)).len()
            == groupings(expr),
{
    let lines = outline(expr, 0, true);
    picture_is_its_lines(expr, 0, true);
    lemma_outline_lines(expr, 0, true);
    lemma_text_lines_of_lines(lines);
    assert forall|k: int| 0 <= k < lines.len() implies is_grouping_line(
        line_text(#[trigger] lines[k]),
    ) == shows_grouping(lines[k]) by {
        lemma_grouping_lines(lines[k]);
    }
    lemma_filter_through_map(
        lines,
        |line: Line| line_text(line),
        |line: Line| shows_grouping(line),
        |text: Seq<char>| is_grouping_line(text),
    );
}

/// In the picture, the line of a grouping is directly followed by the line
/// of what is inside it, one level deeper.
pub proof fn grouping_is_followed_by_its_inside(expr: ExprView, depth: nat, is_last: bool, k: int)
    requires
        0 <= k < outline(expr, depth, is_last).len(),
        outline(expr, depth, is_last)[k].node is Grouping,
    ensures
        k + 1 < outline(expr, depth, is_last).len(),
        outline(expr, depth, is_last)[k + 1] == (Line {
            node: *outline(expr, depth, is_last)[k].node->Grouping_0,
            depth: outline(expr, depth, is_last)[k].depth + 1,
            is_last: true,
        }),
    decreases expr,
{
    let all = outline(expr, depth, is_last);
    match expr {
        ExprView::Binary { left, right, .. } => {
            let below_left = outline(*left, depth + 1, false);
            let below_right = outline(*right, depth + 1, true);
            if k - 1 < below_left.len() {
                assert(all[k] == below_left[k - 1]);
                grouping_is_followed_by_its_inside(*left, depth + 1, false, k - 1);
                assert(all[k + 1] == below_left[k]);
            } else {
                let j = k - 1 - below_left.len();
                assert(all[k] == below_right[j]);
                grouping_is_followed_by_its_inside(*right, depth + 1, true, j);
                assert(all[k + 1] == below_right[j + 1]);
            }
        },
        ExprView::Unary { right, .. } => {
            let below = outline(*right, depth + 1, true);
            assert(all[k] == below[k - 1]);
            grouping_is_followed_by_its_inside(*right, depth + 1, true, k - 1);
            assert(all[k + 1] == below[k]);
        },
        ExprView::Grouping(inner) => {
            let below = outline(*inner, depth + 1, true);
            if k == 0 {
                assert(below[0] == (Line { node: *inner, depth: depth + 1, is_last: true }));
                assert(all[1] == below[0]);
            } else {
                assert(all[k] == below[k - 1]);
                grouping_is_followed_by_its_inside(*inner, depth + 1, true, k - 1);
                assert(all[k + 1] == below[k]);
            }
        },
        ExprView::Literal(_) | ExprView::Identifier(_) => {},
    }
}

/// Every parenthesis shows in the picture: where its values stand on one
/// line, as `print_tree` finds them to, the picture of an expression that
/// the grammar gives has exactly one line of text that reads as the line of
/// a grouping for each `(` among the tokens the expression was read from.
pub proof fn parentheses_show_in_the_picture(ts: Seq<TokenView>, pos: int)
    ensures
        parse_expression(ts, pos) matches Ok((expr, next)) ==> {
            &&& tree_text(expr) == lines_text(outline(expr, 0, true))
            &&& outline(expr, 0, true).filter(|line: Line| shows_grouping(line)).len()
                == count_kind(ts, pos, next, TokenKind::LParen)
            &&& values_on_one_line(expr) ==> text_lines(tree_text(expr)).filter(
                |text: Seq<char>| is_grouping_line(text),
            ).len() == count_kind(ts, pos, next, TokenKind::LParen)
        },
{
    groupings_are_kept(ts, pos);
    match parse_expression(ts, pos) {
        Ok((expr, _)) => {
            picture_is_its_lines(expr, 0, true);
            if values_on_one_line(expr) {
                text_lines_are_the_nodes(expr);
            }
        },
        Err(_) => {},
    }
}

} // verus!
