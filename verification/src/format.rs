//! The executable document tree, the resolved layout, and the resolver.

use crate::layout;
use crate::layout::{flatten_with, Job, Layout, Token};
use std::collections::VecDeque;
use vstd::prelude::*;
use vstd::string::StringExecFns;

verus! {

/// The different ways to assemble a document.
#[derive(Debug)]
pub enum FormatDesc {
    /// The empty document.
    Nil,
    /// A line break.
    Line,
    /// The given string.
    Text(String),
    /// The given document, indented by the given number of spaces.
    Nest(i32, Box<FormatDesc>),
    /// The two documents, one after the other.
    Cat(Box<FormatDesc>, Box<FormatDesc>),
    /// Two alternative layouts; both flatten to the same text.
    Union(Box<FormatDesc>, Box<FormatDesc>),
}

impl FormatDesc {
    /// The layout that this tree stands for.
    pub open spec fn layout(self) -> Layout
        decreases self,
    {
        match self {
            FormatDesc::Nil => Layout::Nil,
            FormatDesc::Line => Layout::Line,
            FormatDesc::Text(s) => Layout::Text(s@),
            FormatDesc::Nest(j, x) => Layout::Nest(j as int, Box::new((*x).layout())),
            FormatDesc::Cat(x, y) => Layout::Cat(
                Box::new((*x).layout()),
                Box::new((*y).layout()),
            ),
            FormatDesc::Union(x, y) => Layout::Union(
                Box::new((*x).layout()),
                Box::new((*y).layout()),
            ),
        }
    }
}

impl View for FormatDesc {
    type V = Layout;

    open spec fn view(&self) -> Layout {
        self.layout()
    }
}

impl Clone for FormatDesc {
    fn clone(&self) -> (r: Self)
        ensures
            r == *self,
        decreases self,
    {
        match self {
            FormatDesc::Nil => FormatDesc::Nil,
            FormatDesc::Line => FormatDesc::Line,
            FormatDesc::Text(s) => FormatDesc::Text(s.clone()),
            FormatDesc::Nest(j, x) => FormatDesc::Nest(*j, Box::new((&**x).clone())),
            FormatDesc::Cat(x, y) => FormatDesc::Cat(
                Box::new((&**x).clone()),
                Box::new((&**y).clone()),
            ),
            FormatDesc::Union(x, y) => FormatDesc::Union(
                Box::new((&**x).clone()),
                Box::new((&**y).clone()),
            ),
        }
    }
}

impl FormatDesc {
    /// Says whether every indentation reached inside the tree, entered at
    /// the indentation `i`, is a 32-bit value.
    pub fn nesting_in_range(&self, i: i32) -> (b: bool)
        ensures
            b == layout::nesting_in_range(i as int, self@),
        decreases self,
    {
        match self {
            FormatDesc::Nil => true,
            FormatDesc::Line => true,
            FormatDesc::Text(_) => true,
            FormatDesc::Nest(j, x) => match i.checked_add(*j) {
                Some(inner) => x.nesting_in_range(inner),
                None => false,
            },
            FormatDesc::Cat(x, y) => x.nesting_in_range(i) && y.nesting_in_range(i),
            FormatDesc::Union(x, y) => x.nesting_in_range(i) && y.nesting_in_range(i),
        }
    }

    /// Removes indentation and replaces line breaks with `c`.
    pub fn flatten_with(&self, c: &str) -> (r: FormatDesc)
        ensures
            r@ == flatten_with(c@, self@),
        decreases self,
    {
        match self {
            FormatDesc::Nil => FormatDesc::Nil,
            FormatDesc::Line => FormatDesc::Text(c.to_owned()),
            FormatDesc::Text(s) => FormatDesc::Text(s.clone()),
            FormatDesc::Nest(_, x) => x.flatten_with(c),
            FormatDesc::Cat(x, y) => FormatDesc::Cat(
                Box::new(x.flatten_with(c)),
                Box::new(y.flatten_with(c)),
            ),
            FormatDesc::Union(x, _) => x.flatten_with(c),
        }
    }
}

/// The number of columns that `s` occupies: its length in bytes.
pub fn width(s: &str) -> (n: usize)
    ensures
        n == layout::text_width(s@),
{
    s.as_bytes().len()
}

/// A resolved layout: a chain of texts and line breaks.
#[derive(Debug)]
pub enum ProcessedFormat {
    /// The end of the chain.
    Nil,
    /// A text, and what follows it.
    Text(String, Box<ProcessedFormat>),
    /// A line break indented by the given number of spaces, and what follows.
    Line(i32, Box<ProcessedFormat>),
}

impl ProcessedFormat {
    /// The tokens of the chain, in order.
    pub open spec fn tokens(self) -> Seq<Token>
        decreases self,
    {
        match self {
            ProcessedFormat::Nil => Seq::empty(),
            ProcessedFormat::Text(s, x) => seq![Token::Text(s@)] + (*x).tokens(),
            ProcessedFormat::Line(i, x) => seq![Token::Line(i as int)] + (*x).tokens(),
        }
    }

    /// Says whether the first line of the chain fits in `w` columns.
    pub fn fits(&self, w: i128) -> (b: bool)
        ensures
            b == layout::fits(self@, w as int),
        decreases self,
    {
        if w < 0 {
            return false;
        }
        match self {
            ProcessedFormat::Nil => {
                assert(self@.len() == 0);
                true
            },
            ProcessedFormat::Line(_, _) => true,
            ProcessedFormat::Text(s, x) => {
                assert(self@.drop_first() =~= x@);
                x.fits(w - width(s.as_str()) as i128)
            },
        }
    }
}

/// Appends to `out` the spaces that indent a line by `i`.
fn push_spaces(out: &mut String, i: i32)
    ensures
        final(out)@ == old(out)@ + layout::spaces(i as int),
{
    let mut n: i32 = 0;
    assert(out@ + layout::spaces(0) =~= out@);
    while n < i
        invariant
            0 <= n,
            n <= i || n == 0,
            out@ == old(out)@ + layout::spaces(n as int),
        decreases i - n,
    {
        proof {
            reveal_strlit(" ");
            assert(" "@ =~= seq![' ']);
            assert(layout::spaces(n as int) + seq![' '] =~= layout::spaces(n + 1));
            assert((old(out)@ + layout::spaces(n as int)) + seq![' '] =~= old(out)@
                + layout::spaces(n + 1));
        }
        out.append(" ");
        n += 1;
    }
    assert(layout::spaces(n as int) =~= layout::spaces(i as int));
}

impl ProcessedFormat {
    /// The text of the layout: each text as it is, each line break as a
    /// newline followed by its indentation in spaces.
    pub fn to_string(&self) -> (out: String)
        ensures
            out@ == layout::render(self@),
    {
        let mut out = String::new();
        let mut cur = self;
        assert(out@ + layout::render(cur@) =~= layout::render(self@));
        loop
            invariant
                out@ + layout::render(cur@) == layout::render(self@),
            decreases cur,
        {
            match cur {
                ProcessedFormat::Nil => {
                    assert(cur@.len() == 0);
                    assert(out@ + layout::render(cur@) =~= out@);
                    return out;
                },
                ProcessedFormat::Text(s, x) => {
                    proof {
                        assert(cur@.drop_first() =~= x@);
                        assert((out@ + s@) + layout::render(x@) =~= out@ + layout::render(cur@));
                    }
                    out.append(s.as_str());
                    cur = x;
                },
                ProcessedFormat::Line(i, x) => {
                    proof {
                        reveal_strlit("\n");
                        assert("\n"@ =~= seq!['\n']);
                        assert(cur@.drop_first() =~= x@);
                        let indent = layout::spaces(*i as int);
                        assert(layout::token_text(Token::Line(*i as int)) =~= seq!['\n'] + indent);
                        assert(((out@ + seq!['\n']) + indent) + layout::render(x@) =~= out@
                            + layout::render(cur@));
                    }
                    out.append("\n");
                    push_spaces(&mut out, *i);
                    cur = x;
                },
            }
        }
    }
}

impl Clone for ProcessedFormat {
    fn clone(&self) -> (r: Self)
        ensures
            r == *self,
        decreases self,
    {
        match self {
            ProcessedFormat::Nil => ProcessedFormat::Nil,
            ProcessedFormat::Text(s, x) => ProcessedFormat::Text(
                s.clone(),
                Box::new((&**x).clone()),
            ),
            ProcessedFormat::Line(i, x) => ProcessedFormat::Line(*i, Box::new((&**x).clone())),
        }
    }
}

impl View for ProcessedFormat {
    type V = Seq<Token>;

    open spec fn view(&self) -> Seq<Token> {
        self.tokens()
    }
}

/// Returns `x` if its first line fits in what is left of the width `w` after
/// column `k`, and `y` otherwise.
pub fn better(w: i32, k: i64, x: ProcessedFormat, y: ProcessedFormat) -> (r: ProcessedFormat)
    ensures
        r == if layout::fits(x@, w - k) {
            x
        } else {
            y
        },
{
    if x.fits(w as i128 - k as i128) {
        x
    } else {
        y
    }
}

/// The work queue that an executable queue stands for.
pub open spec fn jobs(z: Seq<(i32, FormatDesc)>) -> Seq<Job> {
    Seq::new(z.len(), |n: int| (z[n].0 as int, z[n].1@))
}

/// Whether every indentation reached while working through `z` is a 32-bit
/// value.
pub open spec fn queue_in_range(z: Seq<Job>) -> bool {
    forall|n: int| 0 <= n < z.len() ==> layout::nesting_in_range(z[n].0, #[trigger] z[n].1)
}

/// The column reached from column `k` after `n` more columns, held at the
/// largest 64-bit value where it would pass it.
fn advance(k: i64, n: usize) -> (r: i64)
    ensures
        r == if k + n > i64::MAX {
            i64::MAX as int
        } else {
            k + n
        },
{
    let sum: i128 = k as i128 + n as i128;
    if sum > i64::MAX as i128 {
        i64::MAX
    } else {
        sum as i64
    }
}

/// The jobs that a lookahead has in front of it: those of `ahead`, the last
/// one first, and then those of `z` from the position `from` on.
spec fn pending(
    ahead: Seq<(i32, &FormatDesc)>,
    z: Seq<(i32, FormatDesc)>,
    from: int,
) -> Seq<Job> {
    Seq::new(
        ahead.len(),
        |n: int| (ahead[ahead.len() - 1 - n].0 as int, (*ahead[ahead.len() - 1 - n].1)@),
    ) + jobs(z).skip(from)
}

/// A copy of the jobs `ahead`.
fn copy_ahead<'a>(ahead: &Vec<(i32, &'a FormatDesc)>) -> (r: Vec<(i32, &'a FormatDesc)>)
    ensures
        r@ == ahead@,
{
    let mut r: Vec<(i32, &'a FormatDesc)> = Vec::new();
    let mut n: usize = 0;
    while n < ahead.len()
        invariant
            n <= ahead.len(),
            r@ == ahead@.take(n as int),
        decreases ahead.len() - n,
    {
        r.push((ahead[n].0, ahead[n].1));
        assert(ahead@.take(n as int).push(ahead@[n as int]) =~= ahead@.take(n + 1));
        n += 1;
    }
    assert(ahead@.take(n as int) =~= ahead@);
    r
}

/// Says whether the first line of what the pending jobs resolve to, from
/// column `k` on, fits in the width `w`. It looks no further than the end of
/// that line, and stops as soon as the column passes the width.
fn line_fits_from<'a>(
    w: i32,
    k: i64,
    ahead: Vec<(i32, &'a FormatDesc)>,
    z: &'a VecDeque<(i32, FormatDesc)>,
    from: usize,
) -> (b: bool)
    requires
        from <= z@.len(),
        queue_in_range(pending(ahead@, z@, from as int)),
    ensures
        b == layout::fits(
            layout::resolve(w as int, k as int, pending(ahead@, z@, from as int)),
            w - k,
        ),
    decreases layout::weight(pending(ahead@, z@, from as int)),
{
    if k > w as i64 {
        return false;
    }
    let mut ahead = ahead;
    let mut from = from;
    let ghost all = pending(ahead@, z@, from as int);
    let i: i32;
    let node: &'a FormatDesc;
    match ahead.pop() {
        Some(job) => {
            i = job.0;
            node = job.1;
        },
        None => {
            if from < z.len() {
                i = z[from].0;
                node = &z[from].1;
                from = from + 1;
            } else {
                assert(all.len() == 0);
                return true;
            }
        },
    }
    let ghost rest = pending(ahead@, z@, from as int);
    assert(all[0] == (i as int, node@));
    assert(rest =~= all.drop_first());
    assert(layout::nesting_in_range(all[0].0, all[0].1));
    assert(queue_in_range(rest)) by {
        assert forall|n: int| 0 <= n < rest.len() implies layout::nesting_in_range(
            rest[n].0,
            #[trigger] rest[n].1,
        ) by {
            assert(rest[n] == all[n + 1]);
        }
    }
    match node {
        FormatDesc::Nil => line_fits_from(w, k, ahead, z, from),
        FormatDesc::Line => {
            let ghost t = layout::resolve(w as int, k as int, all);
            assert(t[0] is Line);
            true
        },
        FormatDesc::Text(s) => {
            let next = advance(k, width(s.as_str()));
            let ghost t = layout::resolve(w as int, k as int, all);
            assert(t.drop_first() =~= layout::resolve(w as int, k + layout::text_width(s@), rest));
            line_fits_from(w, next, ahead, z, from)
        },
        FormatDesc::Nest(j, x) => {
            ahead.push((i + *j, &**x));
            proof {
                let next = seq![(i + *j, (*x)@)] + rest;
                assert(pending(ahead@, z@, from as int) =~= next);
                layout::lemma_weight_push((i + *j, (*x)@), rest);
            }
            line_fits_from(w, k, ahead, z, from)
        },
        FormatDesc::Cat(x, y) => {
            ahead.push((i, &**y));
            ahead.push((i, &**x));
            proof {
                let next = seq![(i as int, (*x)@), (i as int, (*y)@)] + rest;
                assert(pending(ahead@, z@, from as int) =~= next);
                layout::lemma_weight_push2((i as int, (*x)@), (i as int, (*y)@), rest);
            }
            line_fits_from(w, k, ahead, z, from)
        },
        FormatDesc::Union(x, y) => {
            let mut other = copy_ahead(&ahead);
            ahead.push((i, &**x));
            other.push((i, &**y));
            proof {
                assert(pending(ahead@, z@, from as int) =~= seq![(i as int, (*x)@)] + rest);
                assert(pending(other@, z@, from as int) =~= seq![(i as int, (*y)@)] + rest);
                layout::lemma_weight_push((i as int, (*x)@), rest);
                layout::lemma_weight_push((i as int, (*y)@), rest);
            }
            line_fits_from(w, k, ahead, z, from) || line_fits_from(w, k, other, z, from)
        },
    }
}

/// Says whether the first line of what the queue `z` resolves to, from column
/// `k` on, fits in the width `w`: whether [`ProcessedFormat::fits`] would
/// hold of it in the columns left. Only that line is looked at, not the rest
/// of the queue.
pub fn first_line_fits(w: i32, k: i64, z: &VecDeque<(i32, FormatDesc)>) -> (b: bool)
    requires
        queue_in_range(jobs(z@)),
    ensures
        b == layout::fits(layout::resolve(w as int, k as int, jobs(z@)), w - k),
{
    assert(pending(Seq::empty(), z@, 0) =~= jobs(z@));
    line_fits_from(w, k, Vec::new(), z, 0)
}

/// Given a queue of (indentation, document) pairs, chooses the best layout
/// for the width `w`, starting in column `k`. At a choice the first
/// alternative is taken if the line that it continues fits, as [`better`]
/// would take it, and the second one otherwise.
pub fn be(w: i32, k: i64, z: VecDeque<(i32, FormatDesc)>) -> (r: ProcessedFormat)
    requires
        queue_in_range(jobs(z@)),
    ensures
        r@ == layout::resolve(w as int, k as int, jobs(z@)),
    decreases layout::weight(jobs(z@)),
{
    let mut z = z;
    let ghost all = jobs(z@);
    match z.pop_front() {
        None => {
            assert(all.len() == 0);
            ProcessedFormat::Nil
        },
        Some((i, node)) => {
            let ghost rest = jobs(z@);
            assert(rest =~= all.drop_first());
            assert(all[0] == (i as int, node@));
            assert(layout::nesting_in_range(all[0].0, all[0].1));
            assert(queue_in_range(rest)) by {
                assert forall|n: int| 0 <= n < rest.len() implies layout::nesting_in_range(
                    rest[n].0,
                    #[trigger] rest[n].1,
                ) by {
                    assert(rest[n] == all[n + 1]);
                }
            }
            match node {
                FormatDesc::Nil => be(w, k, z),
                FormatDesc::Cat(x, y) => {
                    z.push_front((i, *y));
                    z.push_front((i, *x));
                    proof {
                        let next = seq![(i as int, (*x)@), (i as int, (*y)@)] + rest;
                        assert(jobs(z@) =~= next);
                        layout::lemma_weight_push2((i as int, (*x)@), (i as int, (*y)@), rest);
                    }
                    be(w, k, z)
                },
                FormatDesc::Nest(j, x) => {
                    z.push_front((i + j, *x));
                    proof {
                        let next = seq![(i + j, (*x)@)] + rest;
                        assert(jobs(z@) =~= next);
                        layout::lemma_weight_push((i + j, (*x)@), rest);
                    }
                    be(w, k, z)
                },
                FormatDesc::Text(s) => {
                    let n = width(s.as_str());
                    let next = advance(k, n);
                    proof {
                        if k + n > i64::MAX {
                            layout::lemma_resolve_past_width(w as int, next as int, k + n, rest);
                        }
                    }
                    let tail = be(w, next, z);
                    ProcessedFormat::Text(s, Box::new(tail))
                },
                FormatDesc::Line => {
                    let tail = be(w, i as i64, z);
                    ProcessedFormat::Line(i, Box::new(tail))
                },
                FormatDesc::Union(x, y) => {
                    z.push_front((i, *x));
                    proof {
                        assert(jobs(z@) =~= seq![(i as int, (*x)@)] + rest);
                        layout::lemma_weight_push((i as int, (*x)@), rest);
                        layout::lemma_weight_push((i as int, (*y)@), rest);
                    }
                    if first_line_fits(w, k, &z) {
                        be(w, k, z)
                    } else {
                        z.pop_front();
                        z.push_front((i, *y));
                        assert(jobs(z@) =~= seq![(i as int, (*y)@)] + rest);
                        be(w, k, z)
                    }
                },
            }
        },
    }
}

impl FormatDesc {
    /// Chooses the best layout for the width `w`, `k` columns of the first
    /// line being already used.
    pub fn best(self, w: i32, k: i32) -> (r: ProcessedFormat)
        requires
            layout::nesting_in_range(0, self@),
        ensures
            r@ == layout::resolve(w as int, k as int, seq![(0int, self@)]),
    {
        let mut z: VecDeque<(i32, FormatDesc)> = VecDeque::new();
        z.push_front((0, self));
        assert(jobs(z@) =~= seq![(0int, self@)]);
        be(w, k as i64, z)
    }

    /// Chooses the best layout for the width `w`.
    pub fn pretty(self, w: i32) -> (r: ProcessedFormat)
        requires
            layout::nesting_in_range(0, self@),
        ensures
            r@ == layout::resolve(w as int, 0, seq![(0int, self@)]),
    {
        self.best(w, 0)
    }
}

} // verus!
