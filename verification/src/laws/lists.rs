//! Lists of items: how a stack is resolved, and what spreads, stacks and
//! fills flatten to.

use crate::laws::flat::lemma_flat_text_of_flattened;
use crate::layout;
use crate::layout::{flat_text, lemma_queue_front, resolve, text_width, weight, Job, Layout, Token};
use vstd::prelude::*;

verus! {

/// A concatenation that waits anywhere in the queue can be replaced by its
/// two parts, in order, without changing what is resolved.
pub proof fn lemma_resolve_split_cat(
    w: int,
    k: int,
    before: Seq<Job>,
    i: int,
    a: Layout,
    b: Layout,
    after: Seq<Job>,
)
    ensures
        resolve(w, k, before + seq![(i, Layout::Cat(Box::new(a), Box::new(b)))] + after)
            == resolve(w, k, before + seq![(i, a), (i, b)] + after),
    decreases weight(before),
{
    let whole = seq![(i, Layout::Cat(Box::new(a), Box::new(b)))];
    let parts = seq![(i, a), (i, b)];
    let z1 = before + whole + after;
    let z2 = before + parts + after;
    if before.len() == 0 {
        assert(z1 =~= whole + after);
        assert(z2 =~= parts + after);
        lemma_queue_front(whole[0], after);
    } else {
        let j = before[0].0;
        let tail = before.drop_first();
        assert(z1[0] == before[0] && z2[0] == before[0]);
        assert(z1.drop_first() =~= tail + whole + after);
        assert(z2.drop_first() =~= tail + parts + after);
        match before[0].1 {
            Layout::Nil => {
                lemma_resolve_split_cat(w, k, tail, i, a, b, after);
            },
            Layout::Line => {
                lemma_resolve_split_cat(w, j, tail, i, a, b, after);
            },
            Layout::Text(s) => {
                lemma_resolve_split_cat(w, k + text_width(s), tail, i, a, b, after);
            },
            Layout::Nest(m, c) => {
                let front = seq![(j + m, *c)];
                layout::lemma_weight_push(front[0], tail);
                assert(front + (tail + whole + after) =~= (front + tail) + whole + after);
                assert(front + (tail + parts + after) =~= (front + tail) + parts + after);
                lemma_resolve_split_cat(w, k, front + tail, i, a, b, after);
            },
            Layout::Cat(c, d) => {
                let front = seq![(j, *c), (j, *d)];
                layout::lemma_weight_push2(front[0], front[1], tail);
                assert(front + (tail + whole + after) =~= (front + tail) + whole + after);
                assert(front + (tail + parts + after) =~= (front + tail) + parts + after);
                lemma_resolve_split_cat(w, k, front + tail, i, a, b, after);
            },
            Layout::Union(c, d) => {
                let first = seq![(j, *c)];
                let second = seq![(j, *d)];
                layout::lemma_weight_push(first[0], tail);
                layout::lemma_weight_push(second[0], tail);
                assert(first + (tail + whole + after) =~= (first + tail) + whole + after);
                assert(first + (tail + parts + after) =~= (first + tail) + parts + after);
                assert(second + (tail + whole + after) =~= (second + tail) + whole + after);
                assert(second + (tail + parts + after) =~= (second + tail) + parts + after);
                lemma_resolve_split_cat(w, k, first + tail, i, a, b, after);
                lemma_resolve_split_cat(w, k, second + tail, i, a, b, after);
            },
        }
    }
}

/// The items as jobs at the indentation `i`, with a line break at that
/// indentation between every two of them.
pub open spec fn stacked(i: int, items: Seq<Layout>) -> Seq<Job>
    decreases items.len(),
{
    if items.len() == 0 {
        Seq::empty()
    } else if items.len() == 1 {
        seq![(i, items[0])]
    } else {
        stacked(i, items.drop_last()) + seq![(i, Layout::Line), (i, items.last())]
    }
}

/// A stack never collapses: at every width it is resolved as its items are,
/// one after the other, with a line break at the enclosing indentation
/// between every two of them.
pub proof fn lemma_resolve_stack(w: int, k: int, i: int, items: Seq<Layout>, rest: Seq<Job>)
    ensures
        resolve(w, k, seq![(i, layout::stack(items))] + rest) == resolve(
            w,
            k,
            stacked(i, items) + rest,
        ),
    decreases items.len(),
{
    let whole = layout::stack(items);
    lemma_queue_front((i, whole), rest);
    if items.len() == 0 {
        assert(stacked(i, items) + rest =~= rest);
    } else if items.len() == 1 {
    } else {
        let init = items.drop_last();
        let last = items.last();
        let above = layout::stack(init);
        let below = Layout::Cat(Box::new(Layout::Line), Box::new(last));
        assert(whole == layout::line_join(above, last));
        let tail = seq![(i, below)] + rest;
        assert(seq![(i, above), (i, below)] + rest =~= seq![(i, above)] + tail);
        lemma_resolve_stack(w, k, i, init, tail);
        lemma_resolve_split_cat(w, k, stacked(i, init), i, Layout::Line, last, rest);
        assert(stacked(i, init) + tail =~= stacked(i, init) + seq![(i, below)] + rest);
    }
}

/// The number of line breaks among the tokens.
pub open spec fn line_breaks(t: Seq<Token>) -> nat
    decreases t.len(),
{
    if t.len() == 0 {
        0
    } else {
        let first: nat = if t[0] is Line {
            1
        } else {
            0
        };
        first + line_breaks(t.drop_first())
    }
}

/// The number of jobs of the queue whose layout is a line break.
pub open spec fn waiting_breaks(z: Seq<Job>) -> nat
    decreases z.len(),
{
    if z.len() == 0 {
        0
    } else {
        let first: nat = if z[0].1 is Line {
            1
        } else {
            0
        };
        first + waiting_breaks(z.drop_first())
    }
}

/// The line breaks waiting in two queues, one after the other, add up.
pub proof fn lemma_waiting_breaks_concat(a: Seq<Job>, b: Seq<Job>)
    ensures
        waiting_breaks(a + b) == waiting_breaks(a) + waiting_breaks(b),
    decreases a.len(),
{
    if a.len() == 0 {
        assert(a + b =~= b);
    } else {
        assert((a + b).drop_first() =~= a.drop_first() + b);
        lemma_waiting_breaks_concat(a.drop_first(), b);
    }
}

/// No width takes a waiting line break away: every line break that is a job
/// of its own in the queue comes out as a line break.
pub proof fn lemma_waiting_breaks_come_out(w: int, k: int, z: Seq<Job>)
    ensures
        line_breaks(resolve(w, k, z)) >= waiting_breaks(z),
    decreases weight(z),
{
    if z.len() != 0 {
        let i = z[0].0;
        let rest = z.drop_first();
        match z[0].1 {
            Layout::Nil => {
                lemma_waiting_breaks_come_out(w, k, rest);
            },
            Layout::Line => {
                lemma_waiting_breaks_come_out(w, i, rest);
                let t = seq![Token::Line(i)] + resolve(w, i, rest);
                assert(t.drop_first() =~= resolve(w, i, rest));
            },
            Layout::Text(s) => {
                lemma_waiting_breaks_come_out(w, k + text_width(s), rest);
                let t = seq![Token::Text(s)] + resolve(w, k + text_width(s), rest);
                assert(t.drop_first() =~= resolve(w, k + text_width(s), rest));
            },
            Layout::Nest(j, a) => {
                let front = seq![(i + j, *a)];
                layout::lemma_weight_push(front[0], rest);
                lemma_waiting_breaks_concat(front, rest);
                lemma_waiting_breaks_come_out(w, k, front + rest);
            },
            Layout::Cat(a, b) => {
                let front = seq![(i, *a), (i, *b)];
                layout::lemma_weight_push2(front[0], front[1], rest);
                lemma_waiting_breaks_concat(front, rest);
                lemma_waiting_breaks_come_out(w, k, front + rest);
            },
            Layout::Union(a, b) => {
                let first = seq![(i, *a)];
                let second = seq![(i, *b)];
                layout::lemma_weight_push(first[0], rest);
                layout::lemma_weight_push(second[0], rest);
                lemma_waiting_breaks_concat(first, rest);
                lemma_waiting_breaks_concat(second, rest);
                lemma_waiting_breaks_come_out(w, k, first + rest);
                lemma_waiting_breaks_come_out(w, k, second + rest);
            },
        }
    }
}

/// Between the items of a stack as many line breaks wait as there are items
/// but one.
pub proof fn lemma_stacked_breaks(i: int, items: Seq<Layout>)
    requires
        items.len() > 0,
    ensures
        waiting_breaks(stacked(i, items)) >= items.len() - 1,
    decreases items.len(),
{
    if items.len() >= 2 {
        let init = items.drop_last();
        let more = seq![(i, Layout::Line), (i, items.last())];
        lemma_stacked_breaks(i, init);
        lemma_waiting_breaks_concat(stacked(i, init), more);
        assert(waiting_breaks(more) >= 1);
    }
}

/// At no width does a stack lose a line break: what is resolved from it
/// holds at least one line break for every item after the first.
pub proof fn lemma_stack_keeps_its_breaks(
    w: int,
    k: int,
    i: int,
    items: Seq<Layout>,
    rest: Seq<Job>,
)
    requires
        items.len() > 0,
    ensures
        line_breaks(resolve(w, k, seq![(i, layout::stack(items))] + rest)) >= items.len() - 1,
{
    lemma_resolve_stack(w, k, i, items, rest);
    lemma_stacked_breaks(i, items);
    lemma_waiting_breaks_concat(stacked(i, items), rest);
    lemma_waiting_breaks_come_out(w, k, stacked(i, items) + rest);
}

/// The texts `parts` with `sep` between every two of them.
pub open spec fn joined(sep: Seq<char>, parts: Seq<Seq<char>>) -> Seq<char>
    decreases parts.len(),
{
    if parts.len() == 0 {
        Seq::empty()
    } else if parts.len() == 1 {
        parts[0]
    } else {
        joined(sep, parts.drop_last()) + sep + parts.last()
    }
}

/// The flattened texts of the items, in order.
pub open spec fn flat_texts(sep: Seq<char>, items: Seq<Layout>) -> Seq<Seq<char>> {
    Seq::new(items.len(), |n: int| flat_text(sep, items[n]))
}

/// Texts joined: the first, the separator, and the others joined.
pub proof fn lemma_joined_front(sep: Seq<char>, parts: Seq<Seq<char>>)
    requires
        parts.len() >= 2,
    ensures
        joined(sep, parts) == parts[0] + sep + joined(sep, parts.drop_first()),
    decreases parts.len(),
{
    let init = parts.drop_last();
    let tail = parts.drop_first();
    if parts.len() == 2 {
        assert(joined(sep, init) == parts[0]);
        assert(joined(sep, tail) == parts[1]);
    } else {
        lemma_joined_front(sep, init);
        let middle = joined(sep, tail.drop_last());
        assert(init.drop_first() =~= tail.drop_last());
        assert(joined(sep, init) == parts[0] + sep + middle);
        assert(joined(sep, tail) == middle + sep + parts.last());
        assert((parts[0] + sep + middle) + sep + parts.last() =~= parts[0] + sep + (middle + sep
            + parts.last()));
    }
}

/// A spread flattens to the flattened texts of its items with a space
/// between every two of them.
pub proof fn lemma_spread_flat_text(sep: Seq<char>, items: Seq<Layout>)
    ensures
        flat_text(sep, layout::spread(items)) == joined(seq![' '], flat_texts(sep, items)),
    decreases items.len(),
{
    let parts = flat_texts(sep, items);
    if items.len() >= 2 {
        let init = items.drop_last();
        assert(layout::spread(items) == layout::space_join(layout::spread(init), items.last()));
        lemma_spread_flat_text(sep, init);
        reveal_with_fuel(flat_text, 3);
        assert(flat_texts(sep, init) =~= parts.drop_last());
        assert(flat_text(sep, layout::spread(items)) =~= joined(seq![' '], parts.drop_last())
            + seq![' '] + parts.last());
    }
}

/// A stack flattens to the flattened texts of its items with the separator
/// between every two of them.
pub proof fn lemma_stack_flat_text(sep: Seq<char>, items: Seq<Layout>)
    ensures
        flat_text(sep, layout::stack(items)) == joined(sep, flat_texts(sep, items)),
    decreases items.len(),
{
    let parts = flat_texts(sep, items);
    if items.len() >= 2 {
        let init = items.drop_last();
        assert(layout::stack(items) == layout::line_join(layout::stack(init), items.last()));
        lemma_stack_flat_text(sep, init);
        reveal_with_fuel(flat_text, 3);
        assert(flat_texts(sep, init) =~= parts.drop_last());
        assert(flat_text(sep, layout::stack(items)) =~= joined(sep, parts.drop_last()) + sep
            + parts.last());
    }
}

/// A fill flattens to the flattened texts of its items with a space between
/// every two of them.
pub proof fn lemma_fill_flat_text(items: Seq<Layout>)
    ensures
        flat_text(seq![' '], layout::fill(items)) == joined(
            seq![' '],
            flat_texts(seq![' '], items),
        ),
    decreases items.len(),
{
    let sp = seq![' '];
    if items.len() >= 2 {
        let x = items[0];
        let y = items[1];
        let rest = items.skip(2);
        let same_line = seq![layout::flatten(y)] + rest;
        let parts = flat_texts(sp, items);
        lemma_fill_flat_text(same_line);
        lemma_flat_text_of_flattened(sp, sp, x);
        lemma_flat_text_of_flattened(sp, sp, y);
        assert(flat_texts(sp, same_line) =~= parts.drop_first());
        lemma_joined_front(sp, parts);
        reveal_with_fuel(flat_text, 4);
        assert(flat_text(sp, layout::fill(items)) =~= parts[0] + sp + joined(
            sp,
            parts.drop_first(),
        ));
    }
}

} // verus!
