//! The mathematical model: documents as trees, resolved output as a sequence
//! of tokens, and the functions that relate the two.

use vstd::prelude::*;
use vstd::utf8::encode_utf8;

verus! {

/// A set of possible layouts of one piece of content.
pub enum Layout {
    /// Renders nothing.
    Nil,
    /// A line break; a single separator once flattened.
    Line,
    /// A run of characters, laid out as it is.
    Text(Seq<char>),
    /// The child, with the amount added to the indentation of its breaks.
    Nest(int, Box<Layout>),
    /// The left child followed by the right child.
    Cat(Box<Layout>, Box<Layout>),
    /// Two alternatives for the same content; the first one is preferred.
    Union(Box<Layout>, Box<Layout>),
}

/// One element of a resolved layout.
pub enum Token {
    /// Characters emitted as they are.
    Text(Seq<char>),
    /// A newline followed by that many spaces (none if negative).
    Line(int),
}

/// The number of columns a text occupies: the length of its UTF-8 encoding.
pub open spec fn text_width(s: Seq<char>) -> nat {
    encode_utf8(s).len()
}

/// The single-line form of a layout: breaks become `sep`, indentation
/// disappears and every choice is settled in favour of its first alternative.
pub open spec fn flatten_with(sep: Seq<char>, x: Layout) -> Layout
    decreases x,
{
    match x {
        Layout::Nil => Layout::Nil,
        Layout::Line => Layout::Text(sep),
        Layout::Text(s) => Layout::Text(s),
        Layout::Nest(_, a) => flatten_with(sep, *a),
        Layout::Cat(a, b) => Layout::Cat(
            Box::new(flatten_with(sep, *a)),
            Box::new(flatten_with(sep, *b)),
        ),
        Layout::Union(a, _) => flatten_with(sep, *a),
    }
}

/// [`flatten_with`] with a single space as the separator.
pub open spec fn flatten(x: Layout) -> Layout {
    flatten_with(seq![' '], x)
}

/// The text of the single-line form, stated directly on the tree.
pub open spec fn flat_text(sep: Seq<char>, x: Layout) -> Seq<char>
    decreases x,
{
    match x {
        Layout::Nil => Seq::empty(),
        Layout::Line => sep,
        Layout::Text(s) => s,
        Layout::Nest(_, a) => flat_text(sep, *a),
        Layout::Cat(a, b) => flat_text(sep, *a) + flat_text(sep, *b),
        Layout::Union(a, _) => flat_text(sep, *a),
    }
}

/// `x`, a space, `y`.
pub open spec fn space_join(x: Layout, y: Layout) -> Layout {
    Layout::Cat(
        Box::new(x),
        Box::new(Layout::Cat(Box::new(Layout::Text(seq![' '])), Box::new(y))),
    )
}

/// `x`, a line break, `y`.
pub open spec fn line_join(x: Layout, y: Layout) -> Layout {
    Layout::Cat(Box::new(x), Box::new(Layout::Cat(Box::new(Layout::Line), Box::new(y))))
}

/// `x`, then a space or, where that does not fit, a line break, then `y`.
pub open spec fn soft_join(x: Layout, y: Layout) -> Layout {
    Layout::Cat(
        Box::new(x),
        Box::new(
            Layout::Cat(
                Box::new(
                    Layout::Union(Box::new(Layout::Text(seq![' '])), Box::new(Layout::Line)),
                ),
                Box::new(y),
            ),
        ),
    )
}

/// `x` with its single-line form as the preferred alternative.
pub open spec fn group_with(sep: Seq<char>, x: Layout) -> Layout {
    Layout::Union(Box::new(flatten_with(sep, x)), Box::new(x))
}

/// [`group_with`] with a single space as the separator.
pub open spec fn group(x: Layout) -> Layout {
    group_with(seq![' '], x)
}

/// `x` between the delimiters `l` and `r`: on one line, separated by spaces,
/// or on lines of its own, indented by `i`.
pub open spec fn bracket(i: int, l: Seq<char>, x: Layout, r: Seq<char>) -> Layout {
    group(
        Layout::Cat(
            Box::new(Layout::Text(l)),
            Box::new(
                line_join(
                    Layout::Nest(i, Box::new(Layout::Cat(Box::new(Layout::Line), Box::new(x)))),
                    Layout::Text(r),
                ),
            ),
        ),
    )
}

/// The items combined from the left with `op`; the empty layout if there
/// are none.
pub open spec fn fold(items: Seq<Layout>, op: spec_fn(Layout, Layout) -> Layout) -> Layout
    decreases items.len(),
{
    if items.len() == 0 {
        Layout::Nil
    } else if items.len() == 1 {
        items[0]
    } else {
        op(fold(items.drop_last(), op), items.last())
    }
}

/// The items, with a space between every two of them.
pub open spec fn spread(items: Seq<Layout>) -> Layout {
    fold(items, |x: Layout, y: Layout| space_join(x, y))
}

/// The items, with a line break between every two of them.
pub open spec fn stack(items: Seq<Layout>) -> Layout {
    fold(items, |x: Layout, y: Layout| line_join(x, y))
}

/// The items packed greedily: each item follows the one before it on the
/// same line, in its single-line form, or starts a new line.
pub open spec fn fill(items: Seq<Layout>) -> Layout
    decreases items.len(),
{
    if items.len() == 0 {
        Layout::Nil
    } else if items.len() == 1 {
        items[0]
    } else {
        let x = items[0];
        let y = items[1];
        let rest = items.skip(2);
        Layout::Union(
            Box::new(space_join(flatten(x), fill(seq![flatten(y)] + rest))),
            Box::new(line_join(x, fill(seq![y] + rest))),
        )
    }
}

/// The columns taken by the first line of a resolved layout: the widths of
/// its texts up to the first break.
pub open spec fn first_line_width(t: Seq<Token>) -> nat
    decreases t.len(),
{
    if t.len() == 0 {
        0
    } else {
        match t[0] {
            Token::Line(_) => 0,
            Token::Text(s) => text_width(s) + first_line_width(t.drop_first()),
        }
    }
}

/// Whether the first line of `t` fits in `room` columns.
pub open spec fn fits(t: Seq<Token>, room: int) -> bool {
    first_line_width(t) <= room
}

/// A unit of pending work: a layout and the indentation in force around it.
pub type Job = (int, Layout);

/// The number of nodes of a layout.
pub open spec fn size(x: Layout) -> nat
    decreases x,
{
    match x {
        Layout::Nil | Layout::Line | Layout::Text(_) => 1,
        Layout::Nest(_, a) => 1 + size(*a),
        Layout::Cat(a, b) => 1 + size(*a) + size(*b),
        Layout::Union(a, b) => 1 + size(*a) + size(*b),
    }
}

/// The number of nodes waiting in a work queue.
pub open spec fn weight(z: Seq<Job>) -> nat
    decreases z.len(),
{
    if z.len() == 0 {
        0
    } else {
        size(z[0].1) + weight(z.drop_first())
    }
}

/// The layout chosen for the work queue `z` at width `w`, starting in
/// column `k`. The queue is consumed front to back; at a choice the first
/// alternative wins if what it puts on the current line, together with what
/// follows on that line, fits in the columns that are left.
pub open spec fn resolve(w: int, k: int, z: Seq<Job>) -> Seq<Token>
    decreases weight(z),
    via resolve_terminates
{
    if z.len() == 0 {
        Seq::empty()
    } else {
        let i = z[0].0;
        let rest = z.drop_first();
        match z[0].1 {
            Layout::Nil => resolve(w, k, rest),
            Layout::Line => seq![Token::Line(i)] + resolve(w, i, rest),
            Layout::Text(s) => seq![Token::Text(s)] + resolve(w, k + text_width(s), rest),
            Layout::Nest(j, a) => resolve(w, k, seq![(i + j, *a)] + rest),
            Layout::Cat(a, b) => resolve(w, k, seq![(i, *a), (i, *b)] + rest),
            Layout::Union(a, b) => {
                let first = resolve(w, k, seq![(i, *a)] + rest);
                if fits(first, w - k) {
                    first
                } else {
                    resolve(w, k, seq![(i, *b)] + rest)
                }
            },
        }
    }
}

#[via_fn]
proof fn resolve_terminates(w: int, k: int, z: Seq<Job>) {
    if z.len() != 0 {
        let i = z[0].0;
        let rest = z.drop_first();
        match z[0].1 {
            Layout::Nest(j, a) => {
                lemma_weight_push((i + j, *a), rest);
            },
            Layout::Cat(a, b) => {
                lemma_weight_push((i, *b), rest);
                lemma_weight_push((i, *a), seq![(i, *b)] + rest);
                assert(seq![(i, *a), (i, *b)] + rest =~= seq![(i, *a)] + (seq![(i, *b)] + rest));
            },
            Layout::Union(a, b) => {
                lemma_weight_push((i, *a), rest);
                lemma_weight_push((i, *b), rest);
            },
            _ => {},
        }
    }
}

/// The first job of a queue and the jobs after it.
pub proof fn lemma_queue_front(job: Job, rest: Seq<Job>)
    ensures
        (seq![job] + rest).len() > 0,
        (seq![job] + rest)[0] == job,
        (seq![job] + rest).drop_first() == rest,
{
    assert((seq![job] + rest).drop_first() =~= rest);
}

/// Putting a job in front of a queue adds the size of its layout.
pub proof fn lemma_weight_push(job: Job, z: Seq<Job>)
    ensures
        weight(seq![job] + z) == size(job.1) + weight(z),
{
    assert((seq![job] + z).drop_first() =~= z);
}

/// Putting two jobs in front of a queue adds the sizes of their layouts.
pub proof fn lemma_weight_push2(first: Job, second: Job, z: Seq<Job>)
    ensures
        weight(seq![first, second] + z) == size(first.1) + size(second.1) + weight(z),
{
    lemma_weight_push(second, z);
    lemma_weight_push(first, seq![second] + z);
    assert(seq![first, second] + z =~= seq![first] + (seq![second] + z));
}

/// Once the column is past the width, how far past makes no difference: no
/// first alternative fits until the next line break resets the column.
pub proof fn lemma_resolve_past_width(w: int, a: int, b: int, z: Seq<Job>)
    requires
        a > w,
        b > w,
    ensures
        resolve(w, a, z) == resolve(w, b, z),
    decreases weight(z),
{
    if z.len() != 0 {
        let i = z[0].0;
        let rest = z.drop_first();
        match z[0].1 {
            Layout::Nil => {
                lemma_resolve_past_width(w, a, b, rest);
            },
            Layout::Line => {},
            Layout::Text(s) => {
                lemma_resolve_past_width(w, a + text_width(s), b + text_width(s), rest);
            },
            Layout::Nest(j, x) => {
                lemma_weight_push((i + j, *x), rest);
                lemma_resolve_past_width(w, a, b, seq![(i + j, *x)] + rest);
            },
            Layout::Cat(x, y) => {
                lemma_weight_push2((i, *x), (i, *y), rest);
                lemma_resolve_past_width(w, a, b, seq![(i, *x), (i, *y)] + rest);
            },
            Layout::Union(x, y) => {
                lemma_weight_push((i, *y), rest);
                lemma_resolve_past_width(w, a, b, seq![(i, *y)] + rest);
            },
        }
    }
}

/// The spaces that indent a line by `i`: none if `i` is negative.
pub open spec fn spaces(i: int) -> Seq<char> {
    Seq::new(
        if i < 0 {
            0nat
        } else {
            i as nat
        },
        |n: int| ' ',
    )
}

/// The text of one token.
pub open spec fn token_text(t: Token) -> Seq<char> {
    match t {
        Token::Text(s) => s,
        Token::Line(i) => seq!['\n'] + spaces(i),
    }
}

/// The text of a resolved layout: its tokens' texts, one after the other.
pub open spec fn render(t: Seq<Token>) -> Seq<char>
    decreases t.len(),
{
    if t.len() == 0 {
        Seq::empty()
    } else {
        token_text(t[0]) + render(t.drop_first())
    }
}

/// Whether every indentation reached inside `x`, entered at indentation `i`,
/// is a 32-bit value.
pub open spec fn nesting_in_range(i: int, x: Layout) -> bool
    decreases x,
{
    match x {
        Layout::Nil | Layout::Line | Layout::Text(_) => true,
        Layout::Nest(j, a) => i32::MIN <= i + j <= i32::MAX && nesting_in_range(i + j, *a),
        Layout::Cat(a, b) => nesting_in_range(i, *a) && nesting_in_range(i, *b),
        Layout::Union(a, b) => nesting_in_range(i, *a) && nesting_in_range(i, *b),
    }
}

} // verus!
