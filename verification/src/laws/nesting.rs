//! When a document can be laid out: how the combinators carry the bound on
//! indentation that the resolver asks for.

use crate::layout;
use crate::layout::{flatten_with, nesting_in_range, Layout};
use vstd::prelude::*;

verus! {

/// Whether every item, entered at the indentation `i`, stays in range.
pub open spec fn all_in_range(i: int, items: Seq<Layout>) -> bool {
    forall|n: int| 0 <= n < items.len() ==> nesting_in_range(i, #[trigger] items[n])
}

/// A single-line form holds no indentation, so it is always in range.
pub proof fn lemma_flattened_in_range(i: int, sep: Seq<char>, x: Layout)
    ensures
        nesting_in_range(i, flatten_with(sep, x)),
    decreases x,
{
    match x {
        Layout::Nil => {},
        Layout::Line => {},
        Layout::Text(_) => {},
        Layout::Nest(_, a) => {
            lemma_flattened_in_range(i, sep, *a);
        },
        Layout::Cat(a, b) => {
            lemma_flattened_in_range(i, sep, *a);
            lemma_flattened_in_range(i, sep, *b);
        },
        Layout::Union(a, _) => {
            lemma_flattened_in_range(i, sep, *a);
        },
    }
}

/// A group is in range exactly when what it groups is.
pub proof fn lemma_group_in_range(i: int, sep: Seq<char>, x: Layout)
    ensures
        nesting_in_range(i, layout::group_with(sep, x)) == nesting_in_range(i, x),
        nesting_in_range(i, layout::group(x)) == nesting_in_range(i, x),
{
    lemma_flattened_in_range(i, sep, x);
    lemma_flattened_in_range(i, seq![' '], x);
}

/// The joins are in range exactly when both of their sides are.
pub proof fn lemma_joins_in_range(i: int, x: Layout, y: Layout)
    ensures
        nesting_in_range(i, layout::space_join(x, y)) == (nesting_in_range(i, x)
            && nesting_in_range(i, y)),
        nesting_in_range(i, layout::line_join(x, y)) == (nesting_in_range(i, x)
            && nesting_in_range(i, y)),
        nesting_in_range(i, layout::soft_join(x, y)) == (nesting_in_range(i, x)
            && nesting_in_range(i, y)),
{
    reveal_with_fuel(nesting_in_range, 4);
}

/// A bracket is in range exactly when its body is, at the indentation that
/// the bracket gives it.
pub proof fn lemma_bracket_in_range(i: int, j: int, l: Seq<char>, x: Layout, r: Seq<char>)
    ensures
        nesting_in_range(i, layout::bracket(j, l, x, r)) == (i32::MIN <= i + j <= i32::MAX
            && nesting_in_range(i + j, x)),
{
    let inner = Layout::Cat(
        Box::new(Layout::Text(l)),
        Box::new(
            layout::line_join(
                Layout::Nest(j, Box::new(Layout::Cat(Box::new(Layout::Line), Box::new(x)))),
                Layout::Text(r),
            ),
        ),
    );
    lemma_group_in_range(i, seq![' '], inner);
    reveal_with_fuel(nesting_in_range, 5);
}

/// A spread is in range exactly when all of its items are.
pub proof fn lemma_spread_in_range(i: int, items: Seq<Layout>)
    ensures
        nesting_in_range(i, layout::spread(items)) == all_in_range(i, items),
    decreases items.len(),
{
    if items.len() >= 2 {
        let init = items.drop_last();
        assert(layout::spread(items) == layout::space_join(layout::spread(init), items.last()));
        lemma_spread_in_range(i, init);
        lemma_joins_in_range(i, layout::spread(init), items.last());
        lemma_all_in_range_push(i, items);
    }
}

/// A stack is in range exactly when all of its items are.
pub proof fn lemma_stack_in_range(i: int, items: Seq<Layout>)
    ensures
        nesting_in_range(i, layout::stack(items)) == all_in_range(i, items),
    decreases items.len(),
{
    if items.len() >= 2 {
        let init = items.drop_last();
        assert(layout::stack(items) == layout::line_join(layout::stack(init), items.last()));
        lemma_stack_in_range(i, init);
        lemma_joins_in_range(i, layout::stack(init), items.last());
        lemma_all_in_range_push(i, items);
    }
}

/// A fill is in range exactly when all of its items are.
pub proof fn lemma_fill_in_range(i: int, items: Seq<Layout>)
    ensures
        nesting_in_range(i, layout::fill(items)) == all_in_range(i, items),
    decreases items.len(),
{
    if items.len() >= 2 {
        let x = items[0];
        let y = items[1];
        let rest = items.skip(2);
        let same_line = seq![layout::flatten(y)] + rest;
        let next_line = seq![y] + rest;
        lemma_fill_in_range(i, same_line);
        lemma_fill_in_range(i, next_line);
        lemma_flattened_in_range(i, seq![' '], x);
        lemma_flattened_in_range(i, seq![' '], y);
        lemma_joins_in_range(i, layout::flatten(x), layout::fill(same_line));
        lemma_joins_in_range(i, x, layout::fill(next_line));
        assert(all_in_range(i, same_line) == all_in_range(i, rest)) by {
            if all_in_range(i, rest) {
                assert forall|n: int| 0 <= n < same_line.len() implies nesting_in_range(
                    i,
                    #[trigger] same_line[n],
                ) by {
                    if n > 0 {
                        assert(same_line[n] == rest[n - 1]);
                    }
                }
            }
            if all_in_range(i, same_line) {
                assert forall|n: int| 0 <= n < rest.len() implies nesting_in_range(
                    i,
                    #[trigger] rest[n],
                ) by {
                    assert(rest[n] == same_line[n + 1]);
                }
            }
        }
        assert(all_in_range(i, items) == (nesting_in_range(i, x) && all_in_range(i, next_line)))
            by {
            assert(next_line =~= items.drop_first());
            if all_in_range(i, items) {
                assert forall|n: int| 0 <= n < next_line.len() implies nesting_in_range(
                    i,
                    #[trigger] next_line[n],
                ) by {
                    assert(next_line[n] == items[n + 1]);
                }
            }
            if nesting_in_range(i, x) && all_in_range(i, next_line) {
                assert forall|n: int| 0 <= n < items.len() implies nesting_in_range(
                    i,
                    #[trigger] items[n],
                ) by {
                    if n > 0 {
                        assert(items[n] == next_line[n - 1]);
                    }
                }
            }
        }
    }
}

/// All items are in range exactly when the last one and all before it are.
proof fn lemma_all_in_range_push(i: int, items: Seq<Layout>)
    requires
        items.len() > 0,
    ensures
        all_in_range(i, items) == (all_in_range(i, items.drop_last()) && nesting_in_range(
            i,
            items.last(),
        )),
{
    let init = items.drop_last();
    if all_in_range(i, items) {
        assert forall|n: int| 0 <= n < init.len() implies nesting_in_range(
            i,
            #[trigger] init[n],
        ) by {
            assert(init[n] == items[n]);
        }
    }
    if all_in_range(i, init) && nesting_in_range(i, items.last()) {
        assert forall|n: int| 0 <= n < items.len() implies nesting_in_range(
            i,
            #[trigger] items[n],
        ) by {
            if n < init.len() {
                assert(items[n] == init[n]);
            }
        }
    }
}

} // verus!
