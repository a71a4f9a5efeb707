//! Numbers as text, and the lines of a text.

use vstd::prelude::*;

verus! {

/// The character of the decimal digit `d`.
pub open spec fn digit(d: nat) -> char {
    if d == 0 {
        '0'
    } else if d == 1 {
        '1'
    } else if d == 2 {
        '2'
    } else if d == 3 {
        '3'
    } else if d == 4 {
        '4'
    } else if d == 5 {
        '5'
    } else if d == 6 {
        '6'
    } else if d == 7 {
        '7'
    } else if d == 8 {
        '8'
    } else {
        '9'
    }
}

/// The decimal numeral of `n`, without leading zeros.
pub open spec fn decimal(n: nat) -> Seq<char>
    decreases n,
{
    if n < 10 {
        seq![digit(n)]
    } else {
        decimal(n / 10).push(digit(n % 10))
    }
}

/// Whether `text` holds no newline.
pub open spec fn no_newline(text: Seq<char>) -> bool {
    forall|i: int| 0 <= i < text.len() ==> #[trigger] text[i] != '\n'
}

/// The number of newlines in `text`.
pub open spec fn newline_count(text: Seq<char>) -> nat
    decreases text.len(),
{
    if text.len() == 0 {
        0
    } else if text.last() == '\n' {
        newline_count(text.drop_last()) + 1
    } else {
        newline_count(text.drop_last())
    }
}

/// The newlines of two texts put together are those of both.
pub proof fn lemma_newline_count_joins(first: Seq<char>, second: Seq<char>)
    ensures
        newline_count(first + second) == newline_count(first) + newline_count(second),
    decreases second.len(),
{
    if second.len() == 0 {
        assert(first + second =~= first);
    } else {
        lemma_newline_count_joins(first, second.drop_last());
        assert((first + second).drop_last() =~= first + second.drop_last());
        assert((first + second).last() == second.last());
    }
}

/// A text that holds no newline counts none.
pub proof fn lemma_no_newline_counts_none(text: Seq<char>)
    requires
        no_newline(text),
    ensures
        newline_count(text) == 0,
    decreases text.len(),
{
    if text.len() > 0 {
        assert(text.last() == text[text.len() - 1]);
        lemma_no_newline_counts_none(text.drop_last());
    }
}

/// Two texts without a newline have none put together.
pub proof fn lemma_no_newline_joins(first: Seq<char>, second: Seq<char>)
    requires
        no_newline(first),
        no_newline(second),
    ensures
        no_newline(first + second),
{
    assert forall|i: int| 0 <= i < (first + second).len() implies #[trigger] (first + second)[i]
        != '\n' by {
        if i >= first.len() {
            assert((first + second)[i] == second[i - first.len()]);
        } else {
            assert((first + second)[i] == first[i]);
        }
    }
}

/// The position of the first newline of `text` at or after `from`, or the
/// length of the text where there is none.
pub open spec fn line_end(text: Seq<char>, from: int) -> int
    decreases text.len() - from,
{
    if 0 <= from < text.len() && text[from] != '\n' {
        line_end(text, from + 1)
    } else {
        from
    }
}

/// The first newline at or after a position lies at or after it, and
/// within the text.
pub proof fn lemma_line_end_bounds(text: Seq<char>, from: int)
    requires
        0 <= from <= text.len(),
    ensures
        from <= line_end(text, from) <= text.len(),
    decreases text.len() - from,
{
    if from < text.len() && text[from] != '\n' {
        lemma_line_end_bounds(text, from + 1);
    }
}

/// The lines of `text`, in order: each runs up to and including its
/// newline; what follows the last newline, if anything does, is a last line
/// without one.
pub open spec fn text_lines(text: Seq<char>) -> Seq<Seq<char>>
    decreases text.len(),
{
    if text.len() == 0 {
        Seq::empty()
    } else if line_end(text, 0) < text.len() {
        proof {
            lemma_line_end_bounds(text, 0);
        }
        seq![text.subrange(0, line_end(text, 0) + 1)] + text_lines(
            text.subrange(line_end(text, 0) + 1, text.len() as int),
        )
    } else {
        seq![text]
    }
}

/// Whether `text` is one whole line: it ends in a newline and holds no
/// other.
pub open spec fn is_line(text: Seq<char>) -> bool {
    text.len() > 0 && text.last() == '\n' && no_newline(text.drop_last())
}

/// The first newline after a stretch without one is where the stretch
/// ends.
pub proof fn lemma_line_end(text: Seq<char>, from: int, stop: int)
    requires
        0 <= from <= stop < text.len(),
        text[stop] == '\n',
        forall|k: int| from <= k < stop ==> #[trigger] text[k] != '\n',
    ensures
        line_end(text, from) == stop,
    decreases stop - from,
{
    if from < stop {
        lemma_line_end(text, from + 1, stop);
    }
}

/// The lines of a whole line and a text after it are the line, then the
/// lines of the text.
pub proof fn lemma_first_line(line: Seq<char>, rest: Seq<char>)
    requires
        is_line(line),
    ensures
        text_lines(line + rest) == seq![line] + text_lines(rest),
{
    let text = line + rest;
    let stop = line.len() - 1;
    assert forall|k: int| 0 <= k < stop implies #[trigger] text[k] != '\n' by {
        assert(text[k] == line.drop_last()[k]);
    }
    assert(text[stop] == line.last());
    lemma_line_end(text, 0, stop);
    assert(text.subrange(0, stop + 1) =~= line);
    assert(text.subrange(stop + 1, text.len() as int) =~= rest);
}

/// The decimal digit `d` as text.
fn digit_text(d: usize) -> (text: &'static str)
    requires
        d < 10,
    ensures
        text@ == seq![digit(d as nat)],
{
    let text = if d == 0 {
        "0"
    } else if d == 1 {
        "1"
    } else if d == 2 {
        "2"
    } else if d == 3 {
        "3"
    } else if d == 4 {
        "4"
    } else if d == 5 {
        "5"
    } else if d == 6 {
        "6"
    } else if d == 7 {
        "7"
    } else if d == 8 {
        "8"
    } else {
        "9"
    };
    proof {
        reveal_strlit("0");
        reveal_strlit("1");
        reveal_strlit("2");
        reveal_strlit("3");
        reveal_strlit("4");
        reveal_strlit("5");
        reveal_strlit("6");
        reveal_strlit("7");
        reveal_strlit("8");
        reveal_strlit("9");
        assert(text@ =~= seq![digit(d as nat)]);
    }
    text
}

/// Appends the decimal numeral of `n` to `out`.
pub fn append_decimal(out: &mut String, n: usize)
    ensures
        final(out)@ == old(out)@ + decimal(n as nat),
    decreases n,
{
    if n >= 10 {
        append_decimal(out, n / 10);
    }
    out.append(digit_text(n % 10));
    proof {
        if n >= 10 {
            assert(out@ =~= old(out)@ + decimal(n as nat));
        }
    }
}

} // verus!
