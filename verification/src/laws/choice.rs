//! How a choice is decided: the rule of fitting, and what it means for
//! groups and brackets.

use crate::laws::flat::{
    flat_tokens, flat_width, lemma_flat_text_of_flattened, lemma_flat_tokens_first_line,
    lemma_flat_tokens_text, lemma_flat_width_is_text_width, lemma_resolve_flattened,
};
use crate::laws::lists::lemma_resolve_split_cat;
use crate::layout;
use crate::layout::{
    first_line_width, fits, flat_text, group, group_with, lemma_queue_front, render, resolve,
    text_width, Job, Layout, Token,
};
use vstd::prelude::*;

verus! {

/// Whether a first line fits is decided token by token: never in a negative
/// number of columns; at the end of the tokens or at a line break, in any
/// other number; at a text, where what follows fits in the columns that the
/// text leaves.
pub proof fn lemma_fits_token_by_token(t: Seq<Token>, room: int)
    ensures
        room < 0 ==> !fits(t, room),
        t.len() == 0 ==> (fits(t, room) <==> room >= 0),
        t.len() > 0 ==> match t[0] {
            Token::Line(_) => fits(t, room) <==> room >= 0,
            Token::Text(s) => fits(t, room) <==> room >= 0 && fits(
                t.drop_first(),
                room - text_width(s),
            ),
        },
{
}

/// How a group is resolved in front of the jobs `rest`: in its single-line
/// form if that form and what follows it on the same line fit in the columns
/// left of the width `w` after column `k`, and as `x` itself otherwise.
pub proof fn lemma_resolve_group_with(
    w: int,
    k: int,
    i: int,
    sep: Seq<char>,
    x: Layout,
    rest: Seq<Job>,
)
    ensures
        resolve(w, k, seq![(i, group_with(sep, x))] + rest) == if flat_width(sep, x)
            + first_line_width(resolve(w, k + flat_width(sep, x), rest)) <= w - k {
            flat_tokens(sep, x) + resolve(w, k + flat_width(sep, x), rest)
        } else {
            resolve(w, k, seq![(i, x)] + rest)
        },
{
    lemma_queue_front((i, group_with(sep, x)), rest);
    lemma_resolve_flattened(w, k, i, sep, x, rest);
    lemma_flat_tokens_first_line(sep, x, resolve(w, k + flat_width(sep, x), rest));
}

/// A group that stands alone is laid out on one line, as its flattened text,
/// if the width of that text is at most the columns left of the width `w`
/// after column `k`; otherwise it is laid out as `x` itself is.
pub proof fn lemma_group_alone(w: int, k: int, i: int, x: Layout)
    ensures
        text_width(flat_text(seq![' '], x)) <= w - k ==> render(
            resolve(w, k, seq![(i, group(x))]),
        ) == flat_text(seq![' '], x),
        text_width(flat_text(seq![' '], x)) > w - k ==> resolve(w, k, seq![(i, group(x))])
            == resolve(w, k, seq![(i, x)]),
{
    let sep = seq![' '];
    let empty = Seq::<Job>::empty();
    lemma_resolve_group_with(w, k, i, sep, x, empty);
    lemma_flat_width_is_text_width(sep, x);
    lemma_flat_tokens_text(sep, x);
    assert(seq![(i, group(x))] + empty =~= seq![(i, group(x))]);
    assert(seq![(i, x)] + empty =~= seq![(i, x)]);
    assert(resolve(w, k + flat_width(sep, x), empty) =~= Seq::<Token>::empty());
    assert(flat_tokens(sep, x) + Seq::<Token>::empty() =~= flat_tokens(sep, x));
}

/// The single-line form of a bracket reads: the left delimiter, a space,
/// the flattened body, a space, the right delimiter.
pub proof fn lemma_bracket_flat_text(i: int, l: Seq<char>, x: Layout, r: Seq<char>)
    ensures
        flat_text(seq![' '], layout::bracket(i, l, x, r)) == l + seq![' '] + flat_text(
            seq![' '],
            x,
        ) + seq![' '] + r,
{
    let sp = seq![' '];
    let body = Layout::Nest(i, Box::new(Layout::Cat(Box::new(Layout::Line), Box::new(x))));
    let inner = Layout::Cat(
        Box::new(Layout::Text(l)),
        Box::new(layout::line_join(body, Layout::Text(r))),
    );
    lemma_flat_text_of_flattened(sp, sp, inner);
    assert(flat_text(sp, inner) =~= l + sp + flat_text(sp, x) + sp + r) by {
        reveal_with_fuel(flat_text, 6);
    }
}

/// The expanded form of a bracket at the indentation `i`: the left
/// delimiter, a line break indented by `i + j`, the body at that
/// indentation, a line break indented by `i`, the right delimiter.
pub proof fn lemma_resolve_bracket_expanded(
    w: int,
    k: int,
    i: int,
    j: int,
    l: Seq<char>,
    x: Layout,
    r: Seq<char>,
    rest: Seq<Job>,
)
    ensures
        ({
            let body = Layout::Nest(j, Box::new(Layout::Cat(Box::new(Layout::Line), Box::new(x))));
            let expanded = Layout::Cat(
                Box::new(Layout::Text(l)),
                Box::new(layout::line_join(body, Layout::Text(r))),
            );
            &&& layout::bracket(j, l, x, r) == group(expanded)
            &&& resolve(w, k, seq![(i, expanded)] + rest) == seq![
                Token::Text(l),
                Token::Line(i + j),
            ] + resolve(
                w,
                i + j,
                seq![(i + j, x), (i, Layout::Line), (i, Layout::Text(r))] + rest,
            )
        }),
{
    let line = Layout::Line;
    let right = Layout::Text(r);
    let below = Layout::Cat(Box::new(line), Box::new(right));
    let inside = Layout::Cat(Box::new(line), Box::new(x));
    let body = Layout::Nest(j, Box::new(inside));
    let tail = Layout::Cat(Box::new(body), Box::new(below));
    let expanded = Layout::Cat(Box::new(Layout::Text(l)), Box::new(tail));
    let z0 = seq![(i, expanded)] + rest;
    lemma_queue_front((i, expanded), rest);
    let z1 = seq![(i, Layout::Text(l)), (i, tail)] + rest;
    assert(z1[0] == (i, Layout::Text(l)));
    assert(z1.drop_first() =~= seq![(i, tail)] + rest);
    let z2 = seq![(i, tail)] + rest;
    lemma_queue_front((i, tail), rest);
    let z3 = seq![(i, body), (i, below)] + rest;
    assert(z3[0] == (i, body));
    assert(z3.drop_first() =~= seq![(i, below)] + rest);
    let z4 = seq![(i + j, inside)] + (seq![(i, below)] + rest);
    lemma_queue_front((i + j, inside), seq![(i, below)] + rest);
    let z5 = seq![(i + j, line), (i + j, x)] + (seq![(i, below)] + rest);
    assert(z5[0] == (i + j, line));
    assert(z5.drop_first() =~= seq![(i + j, x)] + seq![(i, below)] + rest);
    let kl = k + text_width(l);
    assert(resolve(w, k, z0) == resolve(w, k, z1));
    assert(resolve(w, k, z1) == seq![Token::Text(l)] + resolve(w, kl, z2));
    assert(resolve(w, kl, z2) == resolve(w, kl, z3));
    assert(resolve(w, kl, z3) == resolve(w, kl, z4));
    assert(resolve(w, kl, z4) == resolve(w, kl, z5));
    assert(resolve(w, kl, z5) == seq![Token::Line(i + j)] + resolve(w, i + j, z5.drop_first()));
    lemma_resolve_split_cat(w, i + j, seq![(i + j, x)], i, line, right, rest);
    assert(seq![(i + j, x)] + seq![(i, line), (i, right)] + rest =~= seq![
        (i + j, x),
        (i, line),
        (i, right),
    ] + rest);
    assert(seq![Token::Text(l)] + (seq![Token::Line(i + j)] + resolve(
        w,
        i + j,
        z5.drop_first(),
    )) =~= seq![Token::Text(l), Token::Line(i + j)] + resolve(w, i + j, z5.drop_first()));
}

/// Resolution is a function of the layout, the width and the column: equal
/// inputs are laid out as the same tokens, and so as the same text.
pub proof fn lemma_resolution_is_deterministic(
    w1: int,
    k1: int,
    z1: Seq<Job>,
    w2: int,
    k2: int,
    z2: Seq<Job>,
)
    requires
        w1 == w2,
        k1 == k2,
        z1 == z2,
    ensures
        resolve(w1, k1, z1) == resolve(w2, k2, z2),
        render(resolve(w1, k1, z1)) == render(resolve(w2, k2, z2)),
{
}

} // verus!
