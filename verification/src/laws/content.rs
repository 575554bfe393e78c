//! The invariant of choices, that both alternatives flatten to the same
//! text, and what it buys: every layout of a document holds the same text,
//! whatever the width; the layouts differ only in where the lines break.

use crate::laws::flat::lemma_flat_text_of_flattened;
use crate::laws::lists::{flat_texts, lemma_fill_flat_text};
use crate::layout;
use crate::layout::{
    flat_text, flatten_with, lemma_queue_front, resolve, weight, Job, Layout, Token,
};
use vstd::prelude::*;

verus! {

/// Whether the two alternatives of every choice inside `x` flatten to the
/// same text.
pub open spec fn agrees(x: Layout) -> bool
    decreases x,
{
    match x {
        Layout::Nil | Layout::Line | Layout::Text(_) => true,
        Layout::Nest(_, a) => agrees(*a),
        Layout::Cat(a, b) => agrees(*a) && agrees(*b),
        Layout::Union(a, b) => {
            &&& flat_text(seq![' '], *a) == flat_text(seq![' '], *b)
            &&& agrees(*a)
            &&& agrees(*b)
        },
    }
}

/// Whether every item satisfies [`agrees`].
pub open spec fn all_agree(items: Seq<Layout>) -> bool {
    forall|n: int| 0 <= n < items.len() ==> agrees(#[trigger] items[n])
}

/// Whether the layout of every job satisfies [`agrees`].
pub open spec fn queue_agrees(z: Seq<Job>) -> bool {
    forall|n: int| 0 <= n < z.len() ==> agrees(#[trigger] z[n].1)
}

/// The text of the tokens with every line break, whatever its indentation,
/// taken as a single space.
pub open spec fn unbroken(t: Seq<Token>) -> Seq<char>
    decreases t.len(),
{
    if t.len() == 0 {
        Seq::empty()
    } else {
        let first = match t[0] {
            Token::Text(s) => s,
            Token::Line(_) => seq![' '],
        };
        first + unbroken(t.drop_first())
    }
}

/// The flattened texts of the layouts in the queue, one after the other.
pub open spec fn queue_text(z: Seq<Job>) -> Seq<char>
    decreases z.len(),
{
    if z.len() == 0 {
        Seq::empty()
    } else {
        flat_text(seq![' '], z[0].1) + queue_text(z.drop_first())
    }
}

/// The text of a queue is the text of its first job followed by the text of
/// the others.
proof fn lemma_queue_text_front(job: Job, rest: Seq<Job>)
    ensures
        queue_text(seq![job] + rest) == flat_text(seq![' '], job.1) + queue_text(rest),
{
    lemma_queue_front(job, rest);
}

/// A queue agrees when its first job and the others do.
proof fn lemma_queue_agrees_front(job: Job, rest: Seq<Job>)
    requires
        agrees(job.1),
        queue_agrees(rest),
    ensures
        queue_agrees(seq![job] + rest),
{
    let z = seq![job] + rest;
    assert forall|n: int| 0 <= n < z.len() implies agrees(#[trigger] z[n].1) by {
        if n > 0 {
            assert(z[n] == rest[n - 1]);
        }
    }
}

/// Where the alternatives of every choice flatten to the same text, every
/// width gives a layout with the same content: the tokens resolved from a
/// queue read, line breaks taken as spaces, as the flattened texts of its
/// layouts.
pub proof fn lemma_resolve_keeps_content(w: int, k: int, z: Seq<Job>)
    requires
        queue_agrees(z),
    ensures
        unbroken(resolve(w, k, z)) == queue_text(z),
    decreases weight(z),
{
    let sp = seq![' '];
    if z.len() != 0 {
        let i = z[0].0;
        let rest = z.drop_first();
        assert(agrees(z[0].1));
        assert(queue_agrees(rest)) by {
            assert forall|n: int| 0 <= n < rest.len() implies agrees(#[trigger] rest[n].1) by {
                assert(rest[n] == z[n + 1]);
            }
        }
        match z[0].1 {
            Layout::Nil => {
                lemma_resolve_keeps_content(w, k, rest);
                assert(Seq::<char>::empty() + queue_text(rest) =~= queue_text(rest));
            },
            Layout::Line => {
                lemma_resolve_keeps_content(w, i, rest);
                let t = seq![Token::Line(i)] + resolve(w, i, rest);
                assert(t.drop_first() =~= resolve(w, i, rest));
            },
            Layout::Text(s) => {
                let next = k + layout::text_width(s);
                lemma_resolve_keeps_content(w, next, rest);
                let t = seq![Token::Text(s)] + resolve(w, next, rest);
                assert(t.drop_first() =~= resolve(w, next, rest));
            },
            Layout::Nest(j, a) => {
                let job = (i + j, *a);
                layout::lemma_weight_push(job, rest);
                lemma_queue_agrees_front(job, rest);
                lemma_queue_text_front(job, rest);
                lemma_resolve_keeps_content(w, k, seq![job] + rest);
            },
            Layout::Cat(a, b) => {
                let first = (i, *a);
                let second = (i, *b);
                let tail = seq![second] + rest;
                layout::lemma_weight_push2(first, second, rest);
                lemma_queue_agrees_front(second, rest);
                lemma_queue_agrees_front(first, tail);
                lemma_queue_text_front(second, rest);
                lemma_queue_text_front(first, tail);
                assert(seq![first, second] + rest =~= seq![first] + tail);
                lemma_resolve_keeps_content(w, k, seq![first, second] + rest);
                assert(flat_text(sp, *a) + (flat_text(sp, *b) + queue_text(rest)) =~= (flat_text(
                    sp,
                    *a,
                ) + flat_text(sp, *b)) + queue_text(rest));
            },
            Layout::Union(a, b) => {
                let first = (i, *a);
                let second = (i, *b);
                layout::lemma_weight_push(first, rest);
                layout::lemma_weight_push(second, rest);
                lemma_queue_agrees_front(first, rest);
                lemma_queue_agrees_front(second, rest);
                lemma_queue_text_front(first, rest);
                lemma_queue_text_front(second, rest);
                lemma_resolve_keeps_content(w, k, seq![first] + rest);
                lemma_resolve_keeps_content(w, k, seq![second] + rest);
            },
        }
    }
}

/// Every layout of a document whose choices agree holds the text of its
/// single-line form: at every width, the chosen layout reads, line breaks
/// taken as spaces, as that text.
pub proof fn lemma_pretty_keeps_content(w: int, x: Layout)
    requires
        agrees(x),
    ensures
        unbroken(resolve(w, 0, seq![(0int, x)])) == flat_text(seq![' '], x),
{
    let z = seq![(0int, x)];
    lemma_resolve_keeps_content(w, 0, z);
    assert(z.drop_first() =~= Seq::<Job>::empty());
    assert(queue_text(Seq::<Job>::empty()) =~= Seq::<char>::empty());
    assert(flat_text(seq![' '], x) + Seq::<char>::empty() =~= flat_text(seq![' '], x));
}

/// A single-line form holds no choice.
pub proof fn lemma_flattened_agrees(sep: Seq<char>, x: Layout)
    ensures
        agrees(flatten_with(sep, x)),
    decreases x,
{
    match x {
        Layout::Nil => {},
        Layout::Line => {},
        Layout::Text(_) => {},
        Layout::Nest(_, a) => {
            lemma_flattened_agrees(sep, *a);
        },
        Layout::Cat(a, b) => {
            lemma_flattened_agrees(sep, *a);
            lemma_flattened_agrees(sep, *b);
        },
        Layout::Union(a, _) => {
            lemma_flattened_agrees(sep, *a);
        },
    }
}

/// A group keeps the invariant; a group with another separator keeps it
/// where that separator does not change the text of the single-line form.
pub proof fn lemma_group_agrees(sep: Seq<char>, x: Layout)
    requires
        agrees(x),
    ensures
        agrees(layout::group(x)),
        flat_text(sep, x) == flat_text(seq![' '], x) ==> agrees(layout::group_with(sep, x)),
{
    lemma_flattened_agrees(sep, x);
    lemma_flattened_agrees(seq![' '], x);
    lemma_flat_text_of_flattened(sep, seq![' '], x);
    lemma_flat_text_of_flattened(seq![' '], seq![' '], x);
}

/// The joins keep the invariant exactly when both of their sides do.
pub proof fn lemma_joins_agree(x: Layout, y: Layout)
    ensures
        agrees(layout::space_join(x, y)) == (agrees(x) && agrees(y)),
        agrees(layout::line_join(x, y)) == (agrees(x) && agrees(y)),
        agrees(layout::soft_join(x, y)) == (agrees(x) && agrees(y)),
{
    reveal_with_fuel(agrees, 4);
    reveal_with_fuel(flat_text, 2);
}

/// A bracket keeps the invariant.
pub proof fn lemma_bracket_agrees(i: int, l: Seq<char>, x: Layout, r: Seq<char>)
    requires
        agrees(x),
    ensures
        agrees(layout::bracket(i, l, x, r)),
{
    let inner = Layout::Cat(
        Box::new(Layout::Text(l)),
        Box::new(
            layout::line_join(
                Layout::Nest(i, Box::new(Layout::Cat(Box::new(Layout::Line), Box::new(x)))),
                Layout::Text(r),
            ),
        ),
    );
    assert(agrees(inner)) by {
        reveal_with_fuel(agrees, 5);
    }
    lemma_group_agrees(seq![' '], inner);
}

/// All items agree exactly when the last one and all before it do.
proof fn lemma_all_agree_push(items: Seq<Layout>)
    requires
        items.len() > 0,
    ensures
        all_agree(items) == (all_agree(items.drop_last()) && agrees(items.last())),
{
    let init = items.drop_last();
    if all_agree(items) {
        assert forall|n: int| 0 <= n < init.len() implies agrees(#[trigger] init[n]) by {
            assert(init[n] == items[n]);
        }
    }
    if all_agree(init) && agrees(items.last()) {
        assert forall|n: int| 0 <= n < items.len() implies agrees(#[trigger] items[n]) by {
            if n < init.len() {
                assert(items[n] == init[n]);
            }
        }
    }
}

/// A spread keeps the invariant exactly when all of its items do.
pub proof fn lemma_spread_agrees(items: Seq<Layout>)
    ensures
        agrees(layout::spread(items)) == all_agree(items),
    decreases items.len(),
{
    if items.len() >= 2 {
        let init = items.drop_last();
        assert(layout::spread(items) == layout::space_join(layout::spread(init), items.last()));
        lemma_spread_agrees(init);
        lemma_joins_agree(layout::spread(init), items.last());
        lemma_all_agree_push(items);
    }
}

/// A stack keeps the invariant exactly when all of its items do.
pub proof fn lemma_stack_agrees(items: Seq<Layout>)
    ensures
        agrees(layout::stack(items)) == all_agree(items),
    decreases items.len(),
{
    if items.len() >= 2 {
        let init = items.drop_last();
        assert(layout::stack(items) == layout::line_join(layout::stack(init), items.last()));
        lemma_stack_agrees(init);
        lemma_joins_agree(layout::stack(init), items.last());
        lemma_all_agree_push(items);
    }
}

/// A fill keeps the invariant where all of its items do.
pub proof fn lemma_fill_agrees(items: Seq<Layout>)
    requires
        all_agree(items),
    ensures
        agrees(layout::fill(items)),
    decreases items.len(),
{
    let sp = seq![' '];
    if items.len() >= 2 {
        let x = items[0];
        let y = items[1];
        let rest = items.skip(2);
        let same_line = seq![layout::flatten(y)] + rest;
        let next_line = seq![y] + rest;
        lemma_flattened_agrees(sp, x);
        lemma_flattened_agrees(sp, y);
        assert(all_agree(same_line)) by {
            assert forall|n: int| 0 <= n < same_line.len() implies agrees(
                #[trigger] same_line[n],
            ) by {
                if n > 0 {
                    assert(same_line[n] == items[n + 1]);
                }
            }
        }
        assert(all_agree(next_line)) by {
            assert forall|n: int| 0 <= n < next_line.len() implies agrees(
                #[trigger] next_line[n],
            ) by {
                assert(next_line[n] == items[n + 1]);
            }
        }
        lemma_fill_agrees(same_line);
        lemma_fill_agrees(next_line);
        lemma_joins_agree(layout::flatten(x), layout::fill(same_line));
        lemma_joins_agree(x, layout::fill(next_line));
        lemma_fill_flat_text(same_line);
        lemma_fill_flat_text(next_line);
        lemma_flat_text_of_flattened(sp, sp, x);
        lemma_flat_text_of_flattened(sp, sp, y);
        assert(flat_texts(sp, same_line) =~= flat_texts(sp, next_line));
        reveal_with_fuel(flat_text, 4);
    }
}

} // verus!
