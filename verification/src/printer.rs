//! The tree printer: an indented picture of an expression, one line for
//! each node, drawn with box-drawing connectors. Values and names stand
//! between quotes, as Rust writes a string for debugging.

use vstd::prelude::*;
use crate::ast::{groupings, Expr, ExprView};
use crate::printer_theorems::{
    picture_has_a_line_for_each_node, picture_is_its_lines, text_lines_are_the_nodes,
};
use crate::text::{newline_count, no_newline, text_lines};
use crate::token::kind_name;

verus! {

/// The name of the kind of node that `expr` is.
pub open spec fn node_tag(expr: ExprView) -> Seq<char> {
    match expr {
        ExprView::Binary { .. } => "Binary"@,
        ExprView::Unary { .. } => "Unary"@,
        ExprView::Literal(_) => "Literal"@,
        ExprView::Identifier(_) => "Identifier"@,
        ExprView::Grouping(_) => "Grouping"@,
    }
}

/// A text as Rust writes a string for debugging: between double quotes,
/// with each character that would not show as itself, a newline among
/// them, written as an escape.
pub uninterp spec fn quoted_text(text: Seq<char>) -> Seq<char>;

/// What the line of a node says of it: the kind of its operator, its value
/// or its name between quotes, and `(...)` for a grouping.
pub open spec fn node_details(expr: ExprView) -> Seq<char> {
    match expr {
        ExprView::Binary { operator, .. } => kind_name(operator.kind),
        ExprView::Unary { operator, .. } => kind_name(operator.kind),
        ExprView::Literal(text) => quoted_text(text),
        ExprView::Identifier(name) => quoted_text(name.literal),
        ExprView::Grouping(_) => "(...)"@,
    }
}

/// The connector that joins a node to its parent: one for the last child,
/// another for the children before it.
pub open spec fn connector(is_last: bool) -> Seq<char> {
    if is_last {
        "└─ "@
    } else {
        "├─ "@
    }
}

/// A line of a picture: the indentation, the connector, then the tag of
/// the node and, in parentheses, what is said of it.
pub open spec fn line_of(indent: Seq<char>, is_last: bool, tag: Seq<char>, details: Seq<char>)
    -> Seq<char> {
    indent + connector(is_last) + "┌─ "@ + tag + " ("@ + details + ")\n"@
}

/// The line of the node `expr`, after the indentation `indent`.
pub open spec fn node_line(expr: ExprView, indent: Seq<char>, is_last: bool) -> Seq<char> {
    line_of(indent, is_last, node_tag(expr), node_details(expr))
}

/// Whether every value and every name in `expr` is written, between its
/// quotes, without a newline.
pub open spec fn values_on_one_line(expr: ExprView) -> bool
    decreases expr,
{
    match expr {
        ExprView::Binary { left, right, .. } => values_on_one_line(*left) && values_on_one_line(
            *right,
        ),
        ExprView::Unary { right, .. } => values_on_one_line(*right),
        ExprView::Literal(text) => no_newline(quoted_text(text)),
        ExprView::Identifier(name) => no_newline(quoted_text(name.literal)),
        ExprView::Grouping(inner) => values_on_one_line(*inner),
    }
}

/// The picture of `expr` and all below it: its own line, then its children
/// from left to right, each indented by two more spaces, the last of them
/// marked as the last.
pub open spec fn subtree_text(expr: ExprView, indent: Seq<char>, is_last: bool) -> Seq<char>
    decreases expr,
{
    let deeper = indent + "  "@;
    node_line(expr, indent, is_last) + match expr {
        ExprView::Binary { left, right, .. } => subtree_text(*left, deeper, false) + subtree_text(
            *right,
            deeper,
            true,
        ),
        ExprView::Unary { right, .. } => subtree_text(*right, deeper, true),
        ExprView::Grouping(inner) => subtree_text(*inner, deeper, true),
        ExprView::Literal(_) | ExprView::Identifier(_) => Seq::empty(),
    }
}

/// The picture of `expr`: it stands at the left margin, as a last child.
pub open spec fn tree_text(expr: ExprView) -> Seq<char> {
    subtree_text(expr, Seq::empty(), true)
}

/// A line of a picture: the node it shows, how deep the node lies below
/// the root, and whether the node is the last child of its parent.
pub ghost struct Line {
    pub node: ExprView,
    pub depth: nat,
    pub is_last: bool,
}

/// The lines of the picture of `expr`: one for each node, a node before
/// its children, the children from left to right and one level deeper.
pub open spec fn outline(expr: ExprView, depth: nat, is_last: bool) -> Seq<Line>
    decreases expr,
{
    seq![Line { node: expr, depth, is_last }] + match expr {
        ExprView::Binary { left, right, .. } => outline(*left, depth + 1, false) + outline(
            *right,
            depth + 1,
            true,
        ),
        ExprView::Unary { right, .. } => outline(*right, depth + 1, true),
        ExprView::Grouping(inner) => outline(*inner, depth + 1, true),
        ExprView::Literal(_) | ExprView::Identifier(_) => Seq::empty(),
    }
}

/// The indentation of a node at `depth`: two spaces for each level.
pub open spec fn indentation(depth: nat) -> Seq<char>
    decreases depth,
{
    if depth == 0 {
        Seq::empty()
    } else {
        indentation((depth - 1) as nat) + "  "@
    }
}

/// The text of a line.
pub open spec fn line_text(line: Line) -> Seq<char> {
    node_line(line.node, indentation(line.depth), line.is_last)
}

/// The text of some lines, one after the other.
pub open spec fn lines_text(lines: Seq<Line>) -> Seq<char>
    decreases lines.len(),
{
    if lines.len() == 0 {
        Seq::empty()
    } else {
        lines_text(lines.drop_last()) + line_text(lines.last())
    }
}

/// The number of nodes of an expression.
pub open spec fn node_count(expr: ExprView) -> nat
    decreases expr,
{
    match expr {
        ExprView::Binary { left, right, .. } => 1 + node_count(*left) + node_count(*right),
        ExprView::Unary { right, .. } => 1 + node_count(*right),
        ExprView::Literal(_) => 1,
        ExprView::Identifier(_) => 1,
        ExprView::Grouping(inner) => 1 + node_count(*inner),
    }
}

/// Whether a line shows a grouping.
pub open spec fn shows_grouping(line: Line) -> bool {
    line.node is Grouping
}

/// Whether `text` is the line of a grouping, at any depth.
pub open spec fn is_grouping_line(text: Seq<char>) -> bool {
    exists|depth: nat, is_last: bool|
        text == #[trigger] line_of(indentation(depth), is_last, "Grouping"@, "(...)"@)
}

/// The texts of the lines of the picture of `expr`, in order.
pub open spec fn picture_lines(expr: ExprView) -> Seq<Seq<char>> {
    outline(expr, 0, true).map_values(|line: Line| line_text(line))
}

/// Writes `text` as Rust writes a string for debugging.
///
/// This calls std's `Debug` for `str` through `format!("{:?}", text)`, which
/// is not verified. Two things are taken of it on trust: that it gives the
/// same text for the same string, which `quoted_text` names; and that the
/// text holds no newline, because a newline in the string is written as the
/// two characters of the escape `\n`.
#[verifier::external_body]
fn quoted(text: &str) -> (out: String)
    ensures
        out@ == quoted_text(text@),
        no_newline(out@),
{
    format!("{:?}", text)
}

/// Appends to `output` one line of a picture: the indentation, the
/// connector of a last or an earlier child, the tag of the node and, in
/// parentheses, what is said of it.
pub fn append_line(output: &mut String, indent: &str, is_last: bool, tag: &str, details: &str)
    ensures
        final(output)@ == old(output)@ + line_of(indent@, is_last, tag@, details@),
{
    let connector = if is_last {
        "└─ "
    } else {
        "├─ "
    };
    output.append(indent);
    output.append(connector);
    output.append("┌─ ");
    output.append(tag);
    output.append(" (");
    output.append(details);
    output.append(")\n");
    assert(output@ =~= old(output)@ + line_of(indent@, is_last, tag@, details@));
}

impl<'a> Expr<'a> {
    /// The picture of this expression as an indented tree: one line for
    /// each node, a node before its children, each child two spaces deeper
    /// than its parent. A value or a name stands between quotes, with any
    /// newline in it escaped, so the text has exactly as many lines as the
    /// expression has nodes: its lines are the lines of the nodes, and as
    /// many of them read as the line of a grouping as there are groupings.
    pub fn print_tree(&self) -> (tree: String)
        ensures
            tree@ == tree_text(self@),
            tree@ == lines_text(outline(self@, 0, true)),
            newline_count(tree@) == node_count(self@),
            text_lines(tree@) == picture_lines(self@),
            text_lines(tree@).filter(|text: Seq<char>| is_grouping_line(text)).len() == groupings(
                self@,
            ),
    {
        let mut tree = String::new();
        proof {
            reveal_strlit("");
            picture_is_its_lines(self@, 0, true);
        }
        Self::print_tree_unicode(self, &mut tree, "", true);
        proof {
            assert(tree@ =~= tree_text(self@));
            picture_has_a_line_for_each_node(self@, Seq::empty(), true);
            text_lines_are_the_nodes(self@);
        }
        tree
    }

    /// Appends to `output` the picture of `expr` and all below it.
    fn print_tree_unicode(expr: &Self, output: &mut String, indent: &str, is_last: bool)
        ensures
            final(output)@ == old(output)@ + subtree_text(expr@, indent@, is_last),
            values_on_one_line(expr@),
        decreases expr,
    {
        let tag = match expr {
            Expr::Binary { .. } => "Binary",
            Expr::Unary { .. } => "Unary",
            Expr::Literal(_) => "Literal",
            Expr::Identifier(_) => "Identifier",
            Expr::Grouping(_) => "Grouping",
        };
        let details = Self::format_node(expr);
        append_line(output, indent, is_last, tag, details.as_str());
        let mut deeper = String::from_str(indent);
        deeper.append("  ");
        let ghost line_end = output@;
        match expr {
            Expr::Binary { left, right, .. } => {
                Self::print_tree_unicode(left, output, deeper.as_str(), false);
                Self::print_tree_unicode(right, output, deeper.as_str(), true);
                assert(output@ =~= line_end + (subtree_text(left@, deeper@, false) + subtree_text(
                    right@,
                    deeper@,
                    true,
                )));
            },
            Expr::Unary { right, .. } => {
                Self::print_tree_unicode(right, output, deeper.as_str(), true);
            },
            Expr::Grouping(inner) => {
                Self::print_tree_unicode(inner, output, deeper.as_str(), true);
            },
            Expr::Literal(_) | Expr::Identifier(_) => {
                assert(output@ =~= line_end + Seq::<char>::empty());
            },
        }
        assert(output@ =~= old(output)@ + subtree_text(expr@, indent@, is_last));
    }

    /// What the line of the node `expr` says of it.
    fn format_node(expr: &Self) -> (details: String)
        ensures
            details@ == node_details(expr@),
            expr@ is Literal || expr@ is Identifier ==> no_newline(details@),
    {
        match expr {
            Expr::Binary { operator, .. } => operator.kind.name().to_string(),
            Expr::Unary { operator, .. } => operator.kind.name().to_string(),
            Expr::Literal(text) => quoted(text),
            Expr::Identifier(name) => quoted(name.literal),
            Expr::Grouping(_) => "(...)".to_string(),
        }
    }
}

/// The picture of `expr` as an indented tree: one line for each node, a
/// node before its children, each child two spaces deeper than its parent.
/// The text has exactly as many lines as the expression has nodes.
pub fn render(expr: &Expr<'_>) -> (tree: String)
    ensures
        tree@ == tree_text(expr@),
        tree@ == lines_text(outline(expr@, 0, true)),
        newline_count(tree@) == node_count(expr@),
        text_lines(tree@) == picture_lines(expr@),
        text_lines(tree@).filter(|text: Seq<char>| is_grouping_line(text)).len() == groupings(
            expr@,
        ),
{
    expr.print_tree()
}

} // verus!
