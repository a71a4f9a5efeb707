//! What holds of the lexer's result on every source text.

use vstd::prelude::*;
use crate::lexemes::{
    comment_covers, end_token, errors_among, followed_by, in_class, in_comment, is_blank,
    is_operator_pair, is_space, is_unterminated_string, lemma_lexeme_bounds, lemma_run_end,
    lex_errors, lex_tokens, lexeme_at, lexeme_error, lexeme_token, lexemes, lexemes_from, line_at,
    operator_alone, run_end, stray_count, strings_are_closed, tokens_among, with_equal, CharClass,
    LexErrorView, Lexeme, LexemeKind,
};
use crate::token::{TokenKind, TokenView};

verus! {

/// The lexemes from `i` on follow one another without a gap from `i` to the
/// end of the text, and each is the lexeme that begins at its start.
pub proof fn lemma_lexemes_from(src: Seq<char>, i: int)
    requires
        0 <= i <= src.len(),
    ensures
        (lexemes_from(src, i).len() == 0) == (i == src.len()),
        i < src.len() ==> lexemes_from(src, i)[0].start == i && lexemes_from(src, i).last().end
            == src.len(),
        forall|k: int|
            0 <= k < lexemes_from(src, i).len() ==> {
                let part = #[trigger] lexemes_from(src, i)[k];
                &&& i <= part.start < part.end <= src.len()
                &&& part == lexeme_at(src, part.start)
            },
        forall|j: int, k: int|
            0 <= j && k == j + 1 && k < lexemes_from(src, i).len() ==> (#[trigger] lexemes_from(
                src,
                i,
            )[j]).end == (#[trigger] lexemes_from(src, i)[k]).start,
    decreases src.len() - i,
{
    if i < src.len() {
        lemma_lexeme_bounds(src, i);
        let first = lexeme_at(src, i);
        let rest = lexemes_from(src, first.end);
        let all = lexemes_from(src, i);
        lemma_lexemes_from(src, first.end);
        assert(all =~= seq![first] + rest);
        assert(all[0] == first);
        assert forall|k: int| 0 <= k < all.len() implies {
            let part = #[trigger] all[k];
            &&& i <= part.start < part.end <= src.len()
            &&& part == lexeme_at(src, part.start)
        } by {
            if k > 0 {
                assert(all[k] == rest[k - 1]);
            }
        }
        assert forall|j: int, k: int| 0 <= j && k == j + 1 && k < all.len() implies (
        #[trigger] all[j]).end == (#[trigger] all[k]).start by {
            assert(all[k] == rest[j]);
            if j > 0 {
                assert(all[j] == rest[j - 1]);
            }
        }
        if rest.len() > 0 {
            assert(all.last() == rest.last());
        }
    }
}

/// The lexemes divide the whole text: the first begins it, each begins
/// where the one before it ends, the last ends it, none is empty, and each
/// is the lexeme that begins at its start. The scan therefore reads every
/// character, whatever errors it meets.
pub proof fn lexemes_divide_the_text(src: Seq<char>)
    ensures
        (lexemes(src).len() == 0) == (src.len() == 0),
        src.len() > 0 ==> lexemes(src)[0].start == 0 && lexemes(src).last().end == src.len(),
        forall|k: int|
            0 <= k < lexemes(src).len() ==> {
                let part = #[trigger] lexemes(src)[k];
                &&& 0 <= part.start < part.end <= src.len()
                &&& part == lexeme_at(src, part.start)
            },
        forall|j: int, k: int|
            0 <= j && k == j + 1 && k < lexemes(src).len() ==> (#[trigger] lexemes(src)[j]).end
                == (#[trigger] lexemes(src)[k]).start,
{
    lemma_lexemes_from(src, 0);
}

/// A run does not pass a character outside its class.
proof fn lemma_run_stops(src: Seq<char>, class: CharClass, from: int, stop: int)
    requires
        0 <= from <= stop < src.len(),
        !in_class(class, src[stop]),
    ensures
        run_end(src, class, from) <= stop,
    decreases stop - from,
{
    if from < stop && in_class(class, src[from]) {
        lemma_run_stops(src, class, from + 1, stop);
    }
}

/// In a blank text, from a position that no earlier comment reaches, every
/// lexeme is skipped.
proof fn lemma_blank_from(src: Seq<char>, i: int)
    requires
        is_blank(src),
        0 <= i <= src.len(),
        forall|p: int| p < i ==> !comment_covers(src, p, i),
    ensures
        forall|k: int|
            0 <= k < lexemes_from(src, i).len() ==> (#[trigger] lexemes_from(src, i)[k]).kind
                == LexemeKind::Skipped,
    decreases src.len() - i,
{
    if i < src.len() {
        lemma_lexeme_bounds(src, i);
        let first = lexeme_at(src, i);
        let rest = lexemes_from(src, first.end);
        let all = lexemes_from(src, i);
        let next = first.end;
        assert(all =~= seq![first] + rest);
        assert(is_space(src[i]) || in_comment(src, i));
        assert(first.kind == LexemeKind::Skipped && forall|p: int|
            p < next ==> !comment_covers(src, p, next)) by {
            reveal(lexeme_at);
            if is_space(src[i]) {
                assert forall|p: int| p < next implies !comment_covers(src, p, next) by {
                    if comment_covers(src, p, next) && p < i {
                        assert(comment_covers(src, p, i));
                    }
                }
            } else {
                let p = choose|p: int| comment_covers(src, p, i);
                assert(p == i);
                lemma_run_end(src, CharClass::Comment, i + 2);
                assert forall|p: int| p < next implies !comment_covers(src, p, next) by {
                    if 0 <= p && next < src.len() {
                        lemma_run_stops(src, CharClass::Comment, p, next);
                    }
                }
            }
        }
        lemma_blank_from(src, next);
        assert forall|k: int| 0 <= k < all.len() implies (#[trigger] all[k]).kind
            == LexemeKind::Skipped by {
            if k > 0 {
                assert(all[k] == rest[k - 1]);
            }
        }
    }
}

/// Among parts that are all skipped there is neither a token nor an error.
proof fn lemma_nothing_among_skipped(src: Seq<char>, parts: Seq<Lexeme>)
    requires
        forall|k: int| 0 <= k < parts.len() ==> (#[trigger] parts[k]).kind == LexemeKind::Skipped,
    ensures
        tokens_among(src, parts) == Seq::<TokenView>::empty(),
        errors_among(src, parts) == Seq::<LexErrorView>::empty(),
    decreases parts.len(),
{
    if parts.len() > 0 {
        lemma_nothing_among_skipped(src, parts.drop_last());
        assert(parts.last() == parts[parts.len() - 1]);
    }
}

/// A text of white space and line comments alone lexes without error to
/// exactly one token, the end marker.
pub proof fn blank_text_is_one_end_marker(src: Seq<char>)
    requires
        is_blank(src),
    ensures
        lex_errors(src).len() == 0,
        lex_tokens(src) == seq![end_token(src)],
        lex_tokens(src).len() == 1,
        lex_tokens(src)[0].kind == TokenKind::EOF,
{
    lemma_blank_from(src, 0);
    lemma_nothing_among_skipped(src, lexemes(src));
    assert(lex_tokens(src) =~= seq![end_token(src)]);
}

/// Where an operator character that `=` may follow begins a lexeme and `=`
/// does follow it, the lexeme is the two-character operator and holds both
/// characters; it is the one-character operator only where no `=` follows.
/// So `!=`, `==`, `>=` and `<=` are never split into two tokens.
pub proof fn operators_take_their_equal_sign(src: Seq<char>, k: int)
    requires
        0 <= k < lexemes(src).len(),
        operator_alone(src[lexemes(src)[k].start]) is Some,
    ensures
        ({
            let part = lexemes(src)[k];
            let alone = operator_alone(src[part.start])->0;
            if followed_by(src, part.start, '=') {
                &&& part.kind == LexemeKind::Token(with_equal(alone))
                &&& part.kind != LexemeKind::Token(alone)
                &&& part.end == part.start + 2
                &&& lexeme_token(src, part)->0.lexeme == seq![src[part.start], '=']
            } else {
                &&& part.kind == LexemeKind::Token(alone)
                &&& part.end == part.start + 1
            }
        }),
{
    lexemes_divide_the_text(src);
    let part = lexemes(src)[k];
    assert(part == lexeme_at(src, part.start));
    reveal(lexeme_at);
    if followed_by(src, part.start, '=') {
        assert(src.subrange(part.start, part.end) =~= seq![src[part.start], '=']);
    }
}

/// An operator of two characters, alone in a text, is one token of the
/// kind of the pair, before the end marker: it is not split.
pub proof fn operator_pair_is_one_token(src: Seq<char>)
    requires
        is_operator_pair(src),
    ensures
        lex_errors(src).len() == 0,
        lex_tokens(src).len() == 2,
        lex_tokens(src)[0].kind == with_equal(operator_alone(src[0])->0),
        lex_tokens(src)[0].lexeme == src,
        lex_tokens(src)[1] == end_token(src),
{
    lexemes_divide_the_text(src);
    operators_take_their_equal_sign(src, 0);
    let parts = lexemes(src);
    let first = parts[0];
    assert(parts.len() == 1) by {
        if parts.len() > 1 {
            assert(parts[0].end == parts[1].start);
        }
    }
    assert(parts =~= seq![first]);
    assert(parts.drop_last() =~= Seq::<Lexeme>::empty());
    reveal_with_fuel(Seq::filter_map, 2);
    assert(tokens_among(src, parts) =~= seq![lexeme_token(src, first)->0]);
    assert(errors_among(src, parts) =~= Seq::<LexErrorView>::empty());
    assert(src.subrange(0, 2) =~= src);
}

/// Each error among the parts of a text is among the errors of the text.
proof fn lemma_error_is_reported(src: Seq<char>, parts: Seq<Lexeme>, k: int)
    requires
        0 <= k < parts.len(),
        lexeme_error(src, parts[k]) is Some,
    ensures
        errors_among(src, parts).contains(lexeme_error(src, parts[k])->0),
    decreases parts.len(),
{
    let f = |l: Lexeme| lexeme_error(src, l);
    let rest = parts.drop_last();
    if k == parts.len() - 1 {
        let found = errors_among(src, parts);
        assert(found =~= rest.filter_map(f) + seq![lexeme_error(src, parts[k])->0]);
        assert(found[found.len() - 1] == lexeme_error(src, parts[k])->0);
    } else {
        lemma_error_is_reported(src, rest, k);
        assert(rest[k] == parts[k]);
        let wanted = lexeme_error(src, parts[k])->0;
        let j = choose|j: int| 0 <= j < rest.filter_map(f).len() && rest.filter_map(f)[j] == wanted;
        assert(errors_among(src, parts)[j] == wanted);
    }
}

/// A string that is never closed makes the text fail to lex: the errors
/// are not empty and hold `UnterminatedString` with the line on which the
/// string begins, and no token stands for the string.
pub proof fn unterminated_string_is_reported(src: Seq<char>, k: int)
    requires
        is_unterminated_string(src, k),
    ensures
        lexemes(src)[k].kind == LexemeKind::OpenString,
        lexeme_token(src, lexemes(src)[k]) is None,
        lex_errors(src).len() > 0,
        lex_errors(src).contains(
            LexErrorView::UnterminatedString { line: line_at(src, lexemes(src)[k].start) },
        ),
{
    lexemes_divide_the_text(src);
    let part = lexemes(src)[k];
    assert(part == lexeme_at(src, part.start));
    assert(part.kind == LexemeKind::OpenString) by {
        reveal(lexeme_at);
    }
    lemma_error_is_reported(src, lexemes(src), k);
}

/// Where every string is closed, the errors are the unexpected characters,
/// one error for each.
proof fn lemma_errors_are_strays(src: Seq<char>, parts: Seq<Lexeme>)
    requires
        strings_are_closed(parts),
    ensures
        errors_among(src, parts).len() == stray_count(parts),
        forall|j: int|
            0 <= j < errors_among(src, parts).len() ==> (#[trigger] errors_among(
                src,
                parts,
            )[j]) is UnexpectedChar,
    decreases parts.len(),
{
    let is_stray = |l: Lexeme| l.kind == LexemeKind::Stray;
    if parts.len() > 0 {
        let rest = parts.drop_last();
        lemma_errors_are_strays(src, rest);
        assert(parts.last() == parts[parts.len() - 1]);
        assert(rest.push(parts.last()) =~= parts);
        rest.lemma_filter_push(parts.last(), is_stray);
    }
}

/// A text that holds exactly one character that begins no token, and no
/// string that is never closed, has exactly one lexical error, which is
/// `UnexpectedChar`.
pub proof fn one_stray_character_is_one_error(src: Seq<char>)
    requires
        stray_count(lexemes(src)) == 1,
        strings_are_closed(lexemes(src)),
    ensures
        lex_errors(src).len() == 1,
        lex_errors(src)[0] is UnexpectedChar,
{
    lemma_errors_are_strays(src, lexemes(src));
}

} // verus!
