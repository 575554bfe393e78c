//! The single-line form: what it is laid out as, and that no width changes
//! it.

use crate::layout::{
    first_line_width, flat_text, flatten_with, lemma_queue_front, render, resolve, text_width,
    token_text, Job, Layout, Token,
};
use vstd::prelude::*;
use vstd::utf8::{encode_utf8, is_ascii_chars, is_ascii_chars_encode_utf8};

verus! {

/// The tokens of the single-line form of `x`, stated directly on the tree.
pub open spec fn flat_tokens(sep: Seq<char>, x: Layout) -> Seq<Token>
    decreases x,
{
    match x {
        Layout::Nil => Seq::empty(),
        Layout::Line => seq![Token::Text(sep)],
        Layout::Text(s) => seq![Token::Text(s)],
        Layout::Nest(_, a) => flat_tokens(sep, *a),
        Layout::Cat(a, b) => flat_tokens(sep, *a) + flat_tokens(sep, *b),
        Layout::Union(a, _) => flat_tokens(sep, *a),
    }
}

/// The columns that the single-line form of `x` occupies.
pub open spec fn flat_width(sep: Seq<char>, x: Layout) -> nat
    decreases x,
{
    match x {
        Layout::Nil => 0,
        Layout::Line => text_width(sep),
        Layout::Text(s) => text_width(s),
        Layout::Nest(_, a) => flat_width(sep, *a),
        Layout::Cat(a, b) => flat_width(sep, *a) + flat_width(sep, *b),
        Layout::Union(a, _) => flat_width(sep, *a),
    }
}

/// A text of ASCII characters is as wide as it has characters.
pub proof fn lemma_ascii_text_width(s: Seq<char>)
    requires
        is_ascii_chars(s),
    ensures
        text_width(s) == s.len(),
{
    is_ascii_chars_encode_utf8(s);
}

/// The width of a text is the sum of the widths of its parts.
pub proof fn lemma_text_width_concat(a: Seq<char>, b: Seq<char>)
    ensures
        text_width(a + b) == text_width(a) + text_width(b),
    decreases a.len(),
{
    if a.len() == 0 {
        assert(a + b =~= b);
    } else {
        assert((a + b).drop_first() =~= a.drop_first() + b);
        lemma_text_width_concat(a.drop_first(), b);
    }
}

/// The text of two runs of tokens is the text of the first followed by the
/// text of the second.
pub proof fn lemma_render_concat(a: Seq<Token>, b: Seq<Token>)
    ensures
        render(a + b) == render(a) + render(b),
    decreases a.len(),
{
    if a.len() == 0 {
        assert(a + b =~= b);
        assert(render(a) + render(b) =~= render(b));
    } else {
        assert((a + b).drop_first() =~= a.drop_first() + b);
        lemma_render_concat(a.drop_first(), b);
        assert(token_text(a[0]) + (render(a.drop_first()) + render(b)) =~= (token_text(a[0])
            + render(a.drop_first())) + render(b));
    }
}

/// The tokens of a single-line form hold no line break: they all count
/// towards the first line of whatever follows them.
pub proof fn lemma_flat_tokens_first_line(sep: Seq<char>, x: Layout, t: Seq<Token>)
    ensures
        first_line_width(flat_tokens(sep, x) + t) == flat_width(sep, x) + first_line_width(t),
    decreases x,
{
    match x {
        Layout::Nil => {
            assert(flat_tokens(sep, x) + t =~= t);
        },
        Layout::Line => {
            assert((flat_tokens(sep, x) + t).drop_first() =~= t);
        },
        Layout::Text(s) => {
            assert((flat_tokens(sep, x) + t).drop_first() =~= t);
        },
        Layout::Nest(_, a) => {
            lemma_flat_tokens_first_line(sep, *a, t);
        },
        Layout::Cat(a, b) => {
            lemma_flat_tokens_first_line(sep, *b, t);
            lemma_flat_tokens_first_line(sep, *a, flat_tokens(sep, *b) + t);
            assert(flat_tokens(sep, x) + t =~= flat_tokens(sep, *a) + (flat_tokens(sep, *b) + t));
        },
        Layout::Union(a, _) => {
            lemma_flat_tokens_first_line(sep, *a, t);
        },
    }
}

/// The text of the tokens of a single-line form is the text of that form.
pub proof fn lemma_flat_tokens_text(sep: Seq<char>, x: Layout)
    ensures
        render(flat_tokens(sep, x)) == flat_text(sep, x),
    decreases x,
{
    match x {
        Layout::Nil => {
            assert(flat_tokens(sep, x).len() == 0);
        },
        Layout::Line => {
            assert(flat_tokens(sep, x).drop_first() =~= Seq::<Token>::empty());
            assert(render(Seq::<Token>::empty()) =~= Seq::<char>::empty());
            assert(sep + Seq::<char>::empty() =~= sep);
        },
        Layout::Text(s) => {
            assert(flat_tokens(sep, x).drop_first() =~= Seq::<Token>::empty());
            assert(render(Seq::<Token>::empty()) =~= Seq::<char>::empty());
            assert(s + Seq::<char>::empty() =~= s);
        },
        Layout::Nest(_, a) => {
            lemma_flat_tokens_text(sep, *a);
        },
        Layout::Cat(a, b) => {
            lemma_flat_tokens_text(sep, *a);
            lemma_flat_tokens_text(sep, *b);
            lemma_render_concat(flat_tokens(sep, *a), flat_tokens(sep, *b));
        },
        Layout::Union(a, _) => {
            lemma_flat_tokens_text(sep, *a);
        },
    }
}

/// The columns of a single-line form are the width of its text.
pub proof fn lemma_flat_width_is_text_width(sep: Seq<char>, x: Layout)
    ensures
        flat_width(sep, x) == text_width(flat_text(sep, x)),
    decreases x,
{
    match x {
        Layout::Nil => {
            assert(encode_utf8(Seq::<char>::empty()).len() == 0);
        },
        Layout::Line => {},
        Layout::Text(s) => {},
        Layout::Nest(_, a) => {
            lemma_flat_width_is_text_width(sep, *a);
        },
        Layout::Cat(a, b) => {
            lemma_flat_width_is_text_width(sep, *a);
            lemma_flat_width_is_text_width(sep, *b);
            lemma_text_width_concat(flat_text(sep, *a), flat_text(sep, *b));
        },
        Layout::Union(a, _) => {
            lemma_flat_width_is_text_width(sep, *a);
        },
    }
}

/// A single-line form holds no line break: flattened again, with whatever
/// separator, it keeps its text.
pub proof fn lemma_flat_text_of_flattened(first: Seq<char>, again: Seq<char>, x: Layout)
    ensures
        flat_text(again, flatten_with(first, x)) == flat_text(first, x),
    decreases x,
{
    match x {
        Layout::Nil => {},
        Layout::Line => {},
        Layout::Text(_) => {},
        Layout::Nest(_, a) => {
            lemma_flat_text_of_flattened(first, again, *a);
        },
        Layout::Cat(a, b) => {
            lemma_flat_text_of_flattened(first, again, *a);
            lemma_flat_text_of_flattened(first, again, *b);
        },
        Layout::Union(a, _) => {
            lemma_flat_text_of_flattened(first, again, *a);
        },
    }
}

/// Resolving a single-line form makes no choice: whatever the width, the
/// column and the indentation, it yields the tokens of that form, and the
/// rest of the queue is resolved from the column after them.
pub proof fn lemma_resolve_flattened(
    w: int,
    k: int,
    i: int,
    sep: Seq<char>,
    x: Layout,
    rest: Seq<Job>,
)
    ensures
        resolve(w, k, seq![(i, flatten_with(sep, x))] + rest) == flat_tokens(sep, x) + resolve(
            w,
            k + flat_width(sep, x),
            rest,
        ),
    decreases x,
{
    let z = seq![(i, flatten_with(sep, x))] + rest;
    lemma_queue_front((i, flatten_with(sep, x)), rest);
    match x {
        Layout::Nil => {
            assert(flat_tokens(sep, x) + resolve(w, k, rest) =~= resolve(w, k, rest));
        },
        Layout::Line => {},
        Layout::Text(s) => {},
        Layout::Nest(_, a) => {
            lemma_resolve_flattened(w, k, i, sep, *a, rest);
        },
        Layout::Cat(a, b) => {
            let fa = flatten_with(sep, *a);
            let fb = flatten_with(sep, *b);
            let after = seq![(i, fb)] + rest;
            assert(seq![(i, fa), (i, fb)] + rest =~= seq![(i, fa)] + after);
            lemma_resolve_flattened(w, k, i, sep, *a, after);
            lemma_resolve_flattened(w, k + flat_width(sep, *a), i, sep, *b, rest);
            assert(flat_tokens(sep, *a) + (flat_tokens(sep, *b) + resolve(
                w,
                k + flat_width(sep, *a) + flat_width(sep, *b),
                rest,
            )) =~= flat_tokens(sep, x) + resolve(w, k + flat_width(sep, x), rest));
        },
        Layout::Union(a, _) => {
            lemma_resolve_flattened(w, k, i, sep, *a, rest);
        },
    }
}

/// Flattening is independent of the width: at every width, in every column
/// and under every indentation, the single-line form of `x` is laid out as
/// the same text, the one that [`flat_text`] states.
pub proof fn lemma_flattened_text_ignores_width(w: int, k: int, i: int, sep: Seq<char>, x: Layout)
    ensures
        render(resolve(w, k, seq![(i, flatten_with(sep, x))])) == flat_text(sep, x),
{
    let empty = Seq::<Job>::empty();
    lemma_resolve_flattened(w, k, i, sep, x, empty);
    assert(seq![(i, flatten_with(sep, x))] + empty =~= seq![(i, flatten_with(sep, x))]);
    assert(flat_tokens(sep, x) + Seq::<Token>::empty() =~= flat_tokens(sep, x));
    lemma_flat_tokens_text(sep, x);
}

} // verus!
