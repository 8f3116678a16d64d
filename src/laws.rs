//! Properties of rendering, each for the documents that its lemma names.
use crate::doc::{apply, cat, DocV, FnV};
use crate::output::{emit_text, rendered, spaces, text_of};
use crate::render::{
    fit_step, fits, group_mode, layout, lemma_fit_step_smaller, lemma_fits_unfold,
    lemma_run_unfold, lemma_size_positive, lemma_step_smaller, lemma_weight_push, run, step,
    union_pick, weight, CmdV, EmitV, FitStep, Mode,
};
use vstd::prelude::*;

verus! {

/// Appending the empty document on either side changes nothing in the
/// output, at any width.
pub proof fn lemma_nil_neutral<A>(d: DocV<A>, w: int)
    ensures
        layout(cat(DocV::Nil, d), w) == layout(d, w),
        layout(cat(d, DocV::Nil), w) == layout(d, w),
        rendered(cat(DocV::Nil, d), w) == rendered(d, w),
        rendered(cat(d, DocV::Nil), w) == rendered(d, w),
{
}

/// Annotations opened minus annotations closed.
pub open spec fn net<A>(e: Seq<EmitV<A>>) -> int
    decreases e.len(),
{
    if e.len() == 0 {
        0
    } else {
        net(e.drop_last()) + match e.last() {
            EmitV::Push(_) => 1int,
            EmitV::Pop => -1int,
            _ => 0int,
        }
    }
}

/// No prefix of `e` closes more than `k` annotations that it did not open.
pub open spec fn never_below<A>(e: Seq<EmitV<A>>, k: int) -> bool {
    forall|i: int| 0 <= i <= e.len() ==> #[trigger] net(e.take(i)) >= k
}

/// Every annotation that `e` opens it closes, and it closes none that is
/// not open.
pub open spec fn balanced<A>(e: Seq<EmitV<A>>) -> bool {
    net(e) == 0 && never_below(e, 0)
}

/// The number of annotation ends waiting on a stack.
pub open spec fn pops<A>(s: Seq<CmdV<A>>) -> int
    decreases s.len(),
{
    if s.len() == 0 {
        0
    } else {
        pops(s.drop_last()) + if s.last() is PopAnnotation {
            1int
        } else {
            0int
        }
    }
}

proof fn lemma_net_concat<A>(a: Seq<EmitV<A>>, b: Seq<EmitV<A>>)
    ensures
        net(a + b) == net(a) + net(b),
    decreases b.len(),
{
    if b.len() == 0 {
        assert(a + b =~= a);
    } else {
        lemma_net_concat(a, b.drop_last());
        assert((a + b).drop_last() =~= a + b.drop_last());
    }
}

proof fn lemma_pops_push<A>(s: Seq<CmdV<A>>, c: CmdV<A>)
    ensures
        pops(s.push(c)) == pops(s) + if c is PopAnnotation {
            1int
        } else {
            0int
        },
{
    assert(s.push(c).drop_last() =~= s);
}

proof fn lemma_pops_nonneg<A>(s: Seq<CmdV<A>>)
    ensures
        pops(s) >= 0,
    decreases s.len(),
{
    if s.len() > 0 {
        lemma_pops_nonneg(s.drop_last());
    }
}

/// What one step does to the annotations: it emits at most one bound, and
/// the ends waiting on the stack change by what it opens or closes.
proof fn lemma_step_annotations<A>(rest: Seq<CmdV<A>>, top: CmdV<A>, pos: int, width: int)
    ensures
        ({
            let (e, s2, pos2) = step(rest, top, pos, width);
            &&& e.len() <= 1
            &&& pops(s2) == pops(rest.push(top)) + net(e)
            &&& (net(e) < 0 ==> top is PopAnnotation)
        }),
{
    let (e, s2, pos2) = step(rest, top, pos, width);
    lemma_pops_push(rest, top);
    assert(net::<A>(seq![]) == 0int);
    match top {
        CmdV::PopAnnotation => {
            assert(seq![EmitV::<A>::Pop].drop_last() =~= seq![]);
        },
        CmdV::Render(ind, mode, d) => {
            match d {
                DocV::Text(t) => {
                    assert(seq![EmitV::<A>::Text(t)].drop_last() =~= seq![]);
                },
                DocV::Line => {
                    assert(seq![EmitV::<A>::Newline(ind)].drop_last() =~= seq![]);
                },
                DocV::Annotated(a, x) => {
                    assert(seq![EmitV::<A>::Push(a)].drop_last() =~= seq![]);
                    lemma_pops_push(rest, CmdV::PopAnnotation);
                    lemma_pops_push(rest.push(CmdV::PopAnnotation), CmdV::Render(ind, mode, *x));
                },
                DocV::Append(l, r) => {
                    lemma_pops_push(rest, CmdV::Render(ind, mode, *r));
                    lemma_pops_push(
                        rest.push(CmdV::Render(ind, mode, *r)),
                        CmdV::Render(ind, mode, *l),
                    );
                },
                DocV::Nil => {},
                _ => {
                    assert(s2.len() == rest.len() + 1);
                    assert(s2.drop_last() == rest);
                    assert(!(s2.last() is PopAnnotation));
                },
            }
        },
    }
}

/// From any stack, the renderer closes exactly the annotations that wait on
/// it, and never more than those at any point.
proof fn lemma_run_annotations<A>(s: Seq<CmdV<A>>, pos: int, width: int)
    ensures
        net(run(s, pos, width)) == -pops(s),
        never_below(run(s, pos, width), -pops(s)),
    decreases weight(s),
{
    lemma_pops_nonneg(s);
    if s.len() == 0 {
        let r = run(s, pos, width);
        assert(r =~= Seq::<EmitV<A>>::empty());
        assert forall|i: int| 0 <= i <= r.len() implies #[trigger] net(r.take(i)) >= -pops(s) by {
            assert(r.take(i) =~= Seq::<EmitV<A>>::empty());
        }
    } else {
        let (e, s2, pos2) = step(s.drop_last(), s.last(), pos, width);
        lemma_run_unfold(s, pos, width);
        lemma_size_positive(s.last());
        lemma_step_smaller(s.drop_last(), s.last(), pos, width);
        lemma_step_annotations(s.drop_last(), s.last(), pos, width);
        assert(s.drop_last().push(s.last()) =~= s);
        lemma_run_annotations(s2, pos2, width);
        lemma_pops_nonneg(s2);
        let r2 = run(s2, pos2, width);
        let r = run(s, pos, width);
        lemma_net_concat(e, r2);
        if s.last() is PopAnnotation {
            lemma_pops_nonneg(s.drop_last());
            lemma_pops_push(s.drop_last(), s.last());
        }
        assert forall|i: int| 0 <= i <= r.len() implies #[trigger] net(r.take(i)) >= -pops(s) by {
            if i <= e.len() {
                assert(r.take(i) =~= e.take(i));
                if i == 0 {
                    assert(e.take(i) =~= Seq::<EmitV<A>>::empty());
                } else {
                    assert(e.take(i) =~= e);
                }
            } else {
                assert(r.take(i) =~= e + r2.take(i - e.len()));
                lemma_net_concat(e, r2.take(i - e.len()));
                assert(net(r2.take(i - e.len())) >= -pops(s2));
            }
        }
    }
}

/// The annotation bounds that rendering emits are balanced and properly
/// nested, at any width.
pub proof fn lemma_annotations_balanced<A>(d: DocV<A>, w: int)
    ensures
        balanced(layout(d, w)),
{
    let s = seq![CmdV::Render(0, Mode::Break, d)];
    lemma_run_annotations(s, 0, w);
    assert(s.drop_last() =~= Seq::<CmdV<A>>::empty());
    lemma_pops_push(Seq::<CmdV<A>>::empty(), CmdV::Render(0, Mode::Break, d));
}

/// The stack `x`, then `mid`, then `t` on top.
pub open spec fn stacked<A>(x: Seq<CmdV<A>>, mid: Seq<CmdV<A>>, t: Seq<CmdV<A>>) -> Seq<CmdV<A>> {
    x + mid + t
}

/// `c` then `b` on top, as the renderer leaves `Append(b, c)` after one step.
pub open spec fn split_pair<A>(ind: int, mode: Mode, b: DocV<A>, c: DocV<A>) -> Seq<CmdV<A>> {
    seq![CmdV::Render(ind, mode, c), CmdV::Render(ind, mode, b)]
}

pub open spec fn joined<A>(ind: int, mode: Mode, b: DocV<A>, c: DocV<A>) -> Seq<CmdV<A>> {
    seq![CmdV::Render(ind, mode, DocV::Append(Box::new(b), Box::new(c)))]
}

/// A fit step leaves the stack below its command as it was, and what it
/// puts on top does not depend on that stack.
proof fn lemma_fit_step_frame<A>(
    r1: Seq<CmdV<A>>,
    r2: Seq<CmdV<A>>,
    top: CmdV<A>,
    rem: int,
    col: int,
    fl: bool,
)
    ensures
        match (fit_step(r1, top, rem, col, fl), fit_step(r2, top, rem, col, fl)) {
            (FitStep::Done(b1), FitStep::Done(b2)) => b1 == b2,
            (FitStep::Next(s1, m1), FitStep::Next(s2, m2)) => {
                &&& m1 == m2
                &&& s1.len() >= r1.len()
                &&& s1.subrange(0, r1.len() as int) == r1
                &&& s2 == r2 + s1.subrange(r1.len() as int, s1.len() as int)
            },
            _ => false,
        },
{
    match (fit_step(r1, top, rem, col, fl), fit_step(r2, top, rem, col, fl)) {
        (FitStep::Next(s1, _), FitStep::Next(s2, _)) => {
            assert(s1.subrange(0, r1.len() as int) =~= r1);
            assert(s2 =~= r2 + s1.subrange(r1.len() as int, s1.len() as int));
        },
        _ => {},
    }
}

/// Splitting `Append(b, c)` into its two parts anywhere on the stack does not
/// change the fit test.
proof fn lemma_fits_split<A>(
    x: Seq<CmdV<A>>,
    t: Seq<CmdV<A>>,
    ind: int,
    mode: Mode,
    b: DocV<A>,
    c: DocV<A>,
    rem: int,
    col: int,
    fl: bool,
)
    ensures
        fits(stacked(x, split_pair(ind, mode, b, c), t), rem, col, fl) == fits(
            stacked(x, joined(ind, mode, b, c), t),
            rem,
            col,
            fl,
        ),
    decreases weight(stacked(x, split_pair(ind, mode, b, c), t)),
{
    let s1 = stacked(x, split_pair(ind, mode, b, c), t);
    let s2 = stacked(x, joined(ind, mode, b, c), t);
    if rem < 0 {
    } else if t.len() == 0 {
        assert(s2.drop_last() =~= x);
        assert(x.push(CmdV::Render(ind, mode, c)).push(CmdV::Render(ind, mode, b)) =~= s1);
        lemma_fits_unfold(s2, rem, col, fl);
    } else {
        let top = t.last();
        let td = t.drop_last();
        let r1 = stacked(x, split_pair(ind, mode, b, c), td);
        let r2 = stacked(x, joined(ind, mode, b, c), td);
        assert(s1.drop_last() =~= r1);
        assert(s2.drop_last() =~= r2);
        assert(s1.last() == top);
        assert(s2.last() == top);
        lemma_fits_unfold(s1, rem, col, fl);
        lemma_fits_unfold(s2, rem, col, fl);
        lemma_fit_step_frame(r1, r2, top, rem, col, fl);
        match fit_step(r1, top, rem, col, fl) {
            FitStep::Done(_) => {},
            FitStep::Next(n1, m) => {
                let p = n1.subrange(r1.len() as int, n1.len() as int);
                assert(n1 =~= stacked(x, split_pair(ind, mode, b, c), td + p));
                assert(r2 + p =~= stacked(x, joined(ind, mode, b, c), td + p));
                lemma_size_positive(top);
                assert(s1 =~= r1.push(top));
                lemma_weight_push(r1, top);
                lemma_fit_step_smaller(r1, top, rem, col, fl);
                lemma_fits_split(x, td + p, ind, mode, b, c, m, col, fl);
            },
        }
    }
}

/// Splitting `Append(b, c)` into its two parts below the top of the stack
/// changes nothing in one step of the renderer but the stack below.
proof fn lemma_step_split<A>(
    x: Seq<CmdV<A>>,
    td: Seq<CmdV<A>>,
    ind: int,
    mode: Mode,
    b: DocV<A>,
    c: DocV<A>,
    top: CmdV<A>,
    pos: int,
    width: int,
)
    ensures
        ({
            let r1 = stacked(x, split_pair(ind, mode, b, c), td);
            let r2 = stacked(x, joined(ind, mode, b, c), td);
            let (e1, n1, pos1) = step(r1, top, pos, width);
            let (e2, n2, pos2) = step(r2, top, pos, width);
            &&& e1 == e2
            &&& pos1 == pos2
            &&& n1.len() >= r1.len()
            &&& n1 == stacked(x, split_pair(ind, mode, b, c), td + n1.subrange(r1.len() as int, n1.len() as int))
            &&& n2 == stacked(x, joined(ind, mode, b, c), td + n1.subrange(r1.len() as int, n1.len() as int))
        }),
{
    let r1 = stacked(x, split_pair(ind, mode, b, c), td);
    let r2 = stacked(x, joined(ind, mode, b, c), td);
    let (e1, n1, pos1) = step(r1, top, pos, width);
    let (e2, n2, pos2) = step(r2, top, pos, width);
    match top {
        CmdV::Render(i, m, d) => {
            match d {
                DocV::Group(y) => {
                    let q = CmdV::Render(i, Mode::Flat, *y);
                    lemma_fits_split(x, td.push(q), ind, mode, b, c, width - pos, pos, false);
                    assert(r1.push(q) =~= stacked(x, split_pair(ind, mode, b, c), td.push(q)));
                    assert(r2.push(q) =~= stacked(x, joined(ind, mode, b, c), td.push(q)));
                    assert(group_mode(r1, i, m, *y, pos, width) == group_mode(r2, i, m, *y, pos, width));
                },
                DocV::Union(u, v) => {
                    let q = CmdV::Render(i, Mode::Flat, *u);
                    lemma_fits_split(x, td.push(q), ind, mode, b, c, width - pos, pos, true);
                    assert(r1.push(q) =~= stacked(x, split_pair(ind, mode, b, c), td.push(q)));
                    assert(r2.push(q) =~= stacked(x, joined(ind, mode, b, c), td.push(q)));
                    assert(union_pick(r1, i, m, *u, *v, pos, width) == union_pick(r2, i, m, *u, *v, pos, width));
                },
                _ => {},
            }
        },
        _ => {},
    }
    let p = n1.subrange(r1.len() as int, n1.len() as int);
    assert(n1 =~= stacked(x, split_pair(ind, mode, b, c), td + p));
    assert(n2 =~= stacked(x, joined(ind, mode, b, c), td + p));
}

/// Splitting `Append(b, c)` into its two parts anywhere on the stack does not
/// change what the renderer emits.
proof fn lemma_run_split<A>(
    x: Seq<CmdV<A>>,
    t: Seq<CmdV<A>>,
    ind: int,
    mode: Mode,
    b: DocV<A>,
    c: DocV<A>,
    pos: int,
    width: int,
)
    ensures
        run(stacked(x, split_pair(ind, mode, b, c), t), pos, width) == run(
            stacked(x, joined(ind, mode, b, c), t),
            pos,
            width,
        ),
    decreases weight(stacked(x, split_pair(ind, mode, b, c), t)),
{
    let s1 = stacked(x, split_pair(ind, mode, b, c), t);
    let s2 = stacked(x, joined(ind, mode, b, c), t);
    if t.len() == 0 {
        assert(s2.drop_last() =~= x);
        assert(x.push(CmdV::Render(ind, mode, c)).push(CmdV::Render(ind, mode, b)) =~= s1);
        lemma_run_unfold(s2, pos, width);
        assert(Seq::<EmitV<A>>::empty() + run(s1, pos, width) =~= run(s1, pos, width));
    } else {
        let top = t.last();
        let td = t.drop_last();
        let r1 = stacked(x, split_pair(ind, mode, b, c), td);
        let r2 = stacked(x, joined(ind, mode, b, c), td);
        assert(s1.drop_last() =~= r1);
        assert(s2.drop_last() =~= r2);
        assert(s1.last() == top);
        assert(s2.last() == top);
        lemma_run_unfold(s1, pos, width);
        lemma_run_unfold(s2, pos, width);
        lemma_step_split(x, td, ind, mode, b, c, top, pos, width);
        let (e1, n1, pos1) = step(r1, top, pos, width);
        let p = n1.subrange(r1.len() as int, n1.len() as int);
        lemma_size_positive(top);
        assert(s1 =~= r1.push(top));
        lemma_weight_push(r1, top);
        lemma_step_smaller(r1, top, pos, width);
        lemma_run_split(x, td + p, ind, mode, b, c, pos1, width);
    }
}

/// Appending is associative as far as the output goes, at any width.
pub proof fn lemma_append_assoc<A>(a: DocV<A>, b: DocV<A>, c: DocV<A>, w: int)
    ensures
        layout(cat(cat(a, b), c), w) == layout(cat(a, cat(b, c)), w),
        rendered(cat(cat(a, b), c), w) == rendered(cat(a, cat(b, c)), w),
{
    if !(a is Nil) && !(b is Nil) && !(c is Nil) {
        let ab = DocV::Append(Box::new(a), Box::new(b));
        let bc = DocV::Append(Box::new(b), Box::new(c));
        let e = Seq::<CmdV<A>>::empty();
        let top = CmdV::Render(0, Mode::Break, a);
        // left-nested: Append(Append(a, b), c)
        let l0 = seq![CmdV::Render(0, Mode::Break, DocV::Append(Box::new(ab), Box::new(c)))];
        let l1 = seq![CmdV::Render(0, Mode::Break, c), CmdV::Render(0, Mode::Break, ab)];
        let l2 = stacked(e, split_pair(0, Mode::Break, b, c), seq![top]);
        lemma_run_unfold(l0, 0, w);
        assert(l0.drop_last() =~= e);
        assert(e.push(CmdV::Render(0, Mode::Break, c)).push(CmdV::Render(0, Mode::Break, ab)) =~= l1);
        lemma_run_unfold(l1, 0, w);
        assert(l1.drop_last().push(CmdV::Render(0, Mode::Break, b)).push(top) =~= l2);
        // right-nested: Append(a, Append(b, c))
        let r0 = seq![CmdV::Render(0, Mode::Break, DocV::Append(Box::new(a), Box::new(bc)))];
        let r1 = stacked(e, joined(0, Mode::Break, b, c), seq![top]);
        lemma_run_unfold(r0, 0, w);
        assert(r0.drop_last() =~= e);
        assert(e.push(CmdV::Render(0, Mode::Break, bc)).push(top) =~= r1);
        lemma_run_split(e, seq![top], 0, Mode::Break, b, c, 0, w);
        assert(Seq::<EmitV<A>>::empty() + run(l2, 0, w) =~= run(l2, 0, w));
        assert(Seq::<EmitV<A>>::empty() + run(r1, 0, w) =~= run(r1, 0, w));
    }
}

/// `d` holds a hard line break that every layout of it reaches: one outside
/// any `FlatAlt`, `Column` and `Nesting`, and in both branches of a `Union`.
pub open spec fn has_hard_line<A>(d: DocV<A>) -> bool
    decreases d,
{
    match d {
        DocV::Line => true,
        DocV::Append(l, r) => has_hard_line(*l) || has_hard_line(*r),
        DocV::Group(x) => has_hard_line(*x),
        DocV::Nest(_, x) => has_hard_line(*x),
        DocV::Annotated(_, x) => has_hard_line(*x),
        DocV::Union(a, b) => has_hard_line(*a) && has_hard_line(*b),
        _ => false,
    }
}

/// `e` holds a line break.
pub open spec fn has_newline<A>(e: Seq<EmitV<A>>) -> bool {
    exists|i: int| 0 <= i < e.len() && #[trigger] e[i] is Newline
}

pub open spec fn hard_at<A>(s: Seq<CmdV<A>>, i: int) -> bool {
    0 <= i < s.len() && match s[i] {
        CmdV::Render(_, _, d) => has_hard_line(d),
        CmdV::PopAnnotation => false,
    }
}

/// A step keeps the stack below its command.
proof fn lemma_step_keeps_rest<A>(rest: Seq<CmdV<A>>, top: CmdV<A>, pos: int, width: int)
    ensures
        step(rest, top, pos, width).1.len() >= rest.len(),
        forall|j: int|
            0 <= j < rest.len() ==> #[trigger] step(rest, top, pos, width).1[j] == rest[j],
{
}

proof fn lemma_run_reaches_hard_line<A>(s: Seq<CmdV<A>>, i: int, pos: int, width: int)
    requires
        hard_at(s, i),
    ensures
        has_newline(run(s, pos, width)),
    decreases weight(s),
{
    let rest = s.drop_last();
    let top = s.last();
    let (e, s2, pos2) = step(rest, top, pos, width);
    lemma_run_unfold(s, pos, width);
    lemma_size_positive(top);
    assert(s =~= rest.push(top));
    lemma_weight_push(rest, top);
    lemma_step_smaller(rest, top, pos, width);
    lemma_step_keeps_rest(rest, top, pos, width);
    let r = run(s, pos, width);
    if i < s.len() - 1 {
        assert(s2[i] == rest[i]);
        lemma_run_reaches_hard_line(s2, i, pos2, width);
    } else {
        match top {
            CmdV::Render(ind, mode, d) => match d {
                DocV::Line => {
                    assert(r[0] == e[0]);
                    assert(r[0] is Newline);
                },
                DocV::Append(l, rr) => {
                    if has_hard_line(*l) {
                        lemma_run_reaches_hard_line(s2, s2.len() - 1, pos2, width);
                    } else {
                        lemma_run_reaches_hard_line(s2, s2.len() - 2, pos2, width);
                    }
                },
                DocV::Annotated(_, x) => {
                    lemma_run_reaches_hard_line(s2, s2.len() - 1, pos2, width);
                },
                _ => {
                    lemma_run_reaches_hard_line(s2, s2.len() - 1, pos2, width);
                },
            },
            CmdV::PopAnnotation => {},
        }
        let r2 = run(s2, pos2, width);
        if !(e.len() > 0 && e[0] is Newline) {
            let k = choose|k: int| 0 <= k < r2.len() && #[trigger] r2[k] is Newline;
            assert(r[e.len() + k] == r2[k]);
        }
    }
    if i < s.len() - 1 {
        let r2 = run(s2, pos2, width);
        let k = choose|k: int| 0 <= k < r2.len() && #[trigger] r2[k] is Newline;
        assert(r[e.len() + k] == r2[k]);
    }
}

proof fn lemma_newline_char<A>(e: Seq<EmitV<A>>)
    requires
        has_newline(e),
    ensures
        text_of(e).contains('\n'),
    decreases e.len(),
{
    let k = choose|k: int| 0 <= k < e.len() && #[trigger] e[k] is Newline;
    let pre = text_of(e.drop_last());
    if k == e.len() - 1 {
        match e.last() {
            EmitV::Newline(n) => {
                assert(text_of(e)[pre.len() as int] == '\n');
            },
            _ => {},
        }
    } else {
        assert(e.drop_last()[k] == e[k]);
        lemma_newline_char(e.drop_last());
        let j = choose|j: int| 0 <= j < pre.len() && pre[j] == '\n';
        assert(text_of(e)[j] == pre[j]);
    }
}

/// A group around a document with a hard line break that every layout
/// reaches still breaks a line, at any width.
pub proof fn lemma_hard_line_survives<A>(d: DocV<A>, w: int)
    requires
        has_hard_line(d),
    ensures
        has_newline(layout(DocV::Group(Box::new(d)), w)),
        rendered(DocV::Group(Box::new(d)), w).contains('\n'),
{
    let s = seq![CmdV::Render(0, Mode::Break, DocV::Group(Box::new(d)))];
    lemma_run_reaches_hard_line(s, 0, 0, w);
    lemma_newline_char(layout(DocV::Group(Box::new(d)), w));
}

/// The length of the last line of `t`.
pub open spec fn line_len(t: Seq<char>) -> nat
    decreases t.len(),
{
    if t.len() == 0 {
        0
    } else if t.last() == '\n' {
        0
    } else {
        line_len(t.drop_last()) + 1
    }
}

proof fn lemma_line_len_plain(t: Seq<char>, u: Seq<char>)
    requires
        !u.contains('\n'),
    ensures
        line_len(t + u) == line_len(t) + u.len(),
    decreases u.len(),
{
    if u.len() == 0 {
        assert(t + u =~= t);
    } else {
        assert((t + u).drop_last() =~= t + u.drop_last());
        assert(u.last() == u[u.len() - 1]);
        assert(!u.drop_last().contains('\n')) by {
            if u.drop_last().contains('\n') {
                let j = choose|j: int| 0 <= j < u.drop_last().len() && u.drop_last()[j] == '\n';
                assert(u[j] == '\n');
            }
        }
        lemma_line_len_plain(t, u.drop_last());
    }
}

proof fn lemma_text_of_push<A>(o: Seq<EmitV<A>>, e: EmitV<A>)
    ensures
        text_of(o + seq![e]) == text_of(o) + emit_text(e),
{
    assert((o + seq![e]).drop_last() =~= o);
}

/// The column that the renderer keeps is the length of the last line of
/// what it has written: a step on any command but a text holding a newline
/// keeps it so, as long as the column stays within `usize`.
pub proof fn lemma_step_tracks_column<A>(
    rest: Seq<CmdV<A>>,
    top: CmdV<A>,
    out: Seq<EmitV<A>>,
    pos: int,
    width: int,
)
    requires
        pos == line_len(text_of(out)),
        top matches CmdV::Render(_, _, DocV::Text(t)) ==> !t.contains('\n') && pos + t.len()
            <= usize::MAX,
        top matches CmdV::Render(ind, _, DocV::Line) ==> 0 <= ind,
    ensures
        ({
            let (e, s2, pos2) = step(rest, top, pos, width);
            pos2 == line_len(text_of(out + e))
        }),
{
    let (e, s2, pos2) = step(rest, top, pos, width);
    assert(text_of(Seq::<EmitV<A>>::empty()) == Seq::<char>::empty());
    match top {
        CmdV::Render(ind, mode, d) => match d {
            DocV::Text(t) => {
                lemma_text_of_push(out, EmitV::Text(t));
                lemma_line_len_plain(text_of(out), t);
            },
            DocV::Line => {
                lemma_text_of_push(out, EmitV::Newline(ind));
                let pre = text_of(out) + seq!['\n'];
                assert(line_len(pre) == 0) by {
                    assert(pre.last() == '\n');
                }
                assert(!spaces(ind as nat).contains('\n'));
                lemma_line_len_plain(pre, spaces(ind as nat));
                assert(text_of(out) + (seq!['\n'] + spaces(ind as nat)) =~= pre + spaces(ind as nat));
            },
            DocV::Annotated(a, _) => {
                lemma_text_of_push(out, EmitV::Push(a));
                assert(text_of(out) + seq![] =~= text_of(out));
            },
            _ => {
                assert(out + e =~= out);
            },
        },
        CmdV::PopAnnotation => {
            lemma_text_of_push(out, EmitV::Pop);
            assert(text_of(out) + seq![] =~= text_of(out));
        },
    }
}

/// `Column(f)` hands `f` the column where it stands, and `Nesting(f)` hands
/// `f` the indent that a line break at the same place starts its next line
/// with.
pub proof fn lemma_column_and_nesting_see_their_place<A>(
    rest: Seq<CmdV<A>>,
    out: Seq<EmitV<A>>,
    ind: int,
    mode: Mode,
    f: FnV<A>,
    pos: int,
    width: int,
)
    requires
        pos == line_len(text_of(out)),
        0 <= ind,
    ensures
        step(rest, CmdV::Render(ind, mode, DocV::Column(Box::new(f))), pos, width).1 == rest.push(
            CmdV::Render(ind, mode, apply(f, line_len(text_of(out)) as int)),
        ),
        step(rest, CmdV::Render(ind, mode, DocV::Nesting(Box::new(f))), pos, width).1 == rest.push(
            CmdV::Render(ind, mode, apply(f, ind)),
        ),
        ({
            let (e, _, _) = step(rest, CmdV::Render(ind, mode, DocV::Line), pos, width);
            line_len(text_of(out + e)) == ind
        }),
{
    lemma_step_tracks_column(rest, CmdV::Render(ind, mode, DocV::Line), out, pos, width);
}

/// More room never makes the fit test fail.
pub proof fn lemma_fits_monotone<A>(s: Seq<CmdV<A>>, r1: int, r2: int, col: int, fl: bool)
    requires
        r1 <= r2,
        fits(s, r1, col, fl),
    ensures
        fits(s, r2, col, fl),
    decreases weight(s),
{
    if s.len() > 0 {
        let rest = s.drop_last();
        let top = s.last();
        lemma_fits_unfold(s, r1, col, fl);
        lemma_fits_unfold(s, r2, col, fl);
        lemma_size_positive(top);
        assert(s =~= rest.push(top));
        lemma_weight_push(rest, top);
        lemma_fit_step_smaller(rest, top, r1, col, fl);
        match (fit_step(rest, top, r1, col, fl), fit_step(rest, top, r2, col, fl)) {
            (FitStep::Next(n1, m1), FitStep::Next(n2, m2)) => {
                assert(n1 == n2 && m1 - r1 == m2 - r2);
                lemma_fits_monotone(n1, m1, m2, col, fl);
            },
            _ => {},
        }
    }
}

pub open spec fn all_flat<A>(s: Seq<CmdV<A>>) -> bool {
    forall|i: int| 0 <= i < s.len() ==> !(#[trigger] s[i] matches CmdV::Render(_, Mode::Break, _))
}

/// With nothing on the stack to lay out in break mode, the page width plays
/// no part.
proof fn lemma_flat_run_width<A>(s: Seq<CmdV<A>>, pos: int, w1: int, w2: int)
    requires
        all_flat(s),
    ensures
        run(s, pos, w1) == run(s, pos, w2),
    decreases weight(s),
{
    if s.len() > 0 {
        let rest = s.drop_last();
        let top = s.last();
        lemma_run_unfold(s, pos, w1);
        lemma_run_unfold(s, pos, w2);
        lemma_size_positive(top);
        assert(s =~= rest.push(top));
        lemma_weight_push(rest, top);
        lemma_step_smaller(rest, top, pos, w1);
        lemma_step_keeps_rest(rest, top, pos, w1);
        assert(!(top matches CmdV::Render(_, Mode::Break, _)));
        assert(step(rest, top, pos, w1) == step(rest, top, pos, w2));
        let (e, s2, pos2) = step(rest, top, pos, w1);
        assert(all_flat(s2)) by {
            assert forall|i: int| 0 <= i < s2.len() implies !(#[trigger] s2[i] matches CmdV::Render(
                _,
                Mode::Break,
                _,
            )) by {
                if i < rest.len() {
                    assert(s2[i] == rest[i]);
                    assert(s[i] == rest[i]);
                }
            }
        }
        lemma_flat_run_width(s2, pos2, w1, w2);
    }
}

/// A group that is laid out flat at some width is laid out flat, with the
/// same output, at every larger width.
pub proof fn lemma_flat_group_stays_flat<A>(d: DocV<A>, w1: int, w2: int)
    requires
        w1 <= w2,
        group_mode(Seq::<CmdV<A>>::empty(), 0, Mode::Break, d, 0, w1) == Mode::Flat,
    ensures
        group_mode(Seq::<CmdV<A>>::empty(), 0, Mode::Break, d, 0, w2) == Mode::Flat,
        layout(DocV::Group(Box::new(d)), w2) == layout(DocV::Group(Box::new(d)), w1),
{
    let e = Seq::<CmdV<A>>::empty();
    let q = CmdV::Render(0, Mode::Flat, d);
    lemma_fits_monotone(e.push(q), w1 - 0, w2 - 0, 0, false);
    let s = seq![CmdV::Render(0, Mode::Break, DocV::Group(Box::new(d)))];
    assert(s.drop_last() =~= e);
    lemma_run_unfold(s, 0, w1);
    lemma_run_unfold(s, 0, w2);
    assert(all_flat(e.push(q)));
    lemma_flat_run_width(e.push(q), 0, w1, w2);
    assert(Seq::<EmitV<A>>::empty() + run(e.push(q), 0, w1) =~= run(e.push(q), 0, w1));
    assert(Seq::<EmitV<A>>::empty() + run(e.push(q), 0, w2) =~= run(e.push(q), 0, w2));
}

/// `t` without its spaces and newlines.
pub open spec fn strip(t: Seq<char>) -> Seq<char>
    decreases t.len(),
{
    if t.len() == 0 {
        seq![]
    } else if t.last() == ' ' || t.last() == '\n' {
        strip(t.drop_last())
    } else {
        strip(t.drop_last()).push(t.last())
    }
}

/// The visible text of a document, in order. For `FlatAlt` it is that of
/// the first branch, which `plain` asks to equal that of the second.
pub open spec fn content<A>(d: DocV<A>) -> Seq<char>
    decreases d,
{
    match d {
        DocV::Text(t) => strip(t),
        DocV::Append(l, r) => content(*l) + content(*r),
        DocV::Group(x) => content(*x),
        DocV::Nest(_, x) => content(*x),
        DocV::Annotated(_, x) => content(*x),
        DocV::FlatAlt(a, _) => content(*a),
        _ => seq![],
    }
}

/// A document whose visible text does not depend on the layout: no `Union`,
/// `Column` or `Nesting`, and both branches of every `FlatAlt` show the same
/// visible text (as in `line` and `line_`).
pub open spec fn plain<A>(d: DocV<A>) -> bool
    decreases d,
{
    match d {
        DocV::Append(l, r) => plain(*l) && plain(*r),
        DocV::Group(x) => plain(*x),
        DocV::Nest(_, x) => plain(*x),
        DocV::Annotated(_, x) => plain(*x),
        DocV::FlatAlt(a, b) => plain(*a) && plain(*b) && content(*a) == content(*b),
        DocV::Union(_, _) => false,
        DocV::Column(_) => false,
        DocV::Nesting(_) => false,
        _ => true,
    }
}

pub open spec fn stack_content<A>(s: Seq<CmdV<A>>) -> Seq<char>
    decreases s.len(),
{
    if s.len() == 0 {
        seq![]
    } else {
        match s.last() {
            CmdV::Render(_, _, d) => content(d) + stack_content(s.drop_last()),
            CmdV::PopAnnotation => stack_content(s.drop_last()),
        }
    }
}

pub open spec fn stack_plain<A>(s: Seq<CmdV<A>>) -> bool {
    forall|i: int|
        0 <= i < s.len() ==> match #[trigger] s[i] {
            CmdV::Render(_, _, d) => plain(d),
            CmdV::PopAnnotation => true,
        }
}

proof fn lemma_strip_concat(a: Seq<char>, b: Seq<char>)
    ensures
        strip(a + b) == strip(a) + strip(b),
    decreases b.len(),
{
    if b.len() == 0 {
        assert(a + b =~= a);
        assert(strip(a) + seq![] =~= strip(a));
    } else {
        assert((a + b).drop_last() =~= a + b.drop_last());
        lemma_strip_concat(a, b.drop_last());
        assert(strip(a) + strip(b.drop_last()).push(b.last()) =~= (strip(a) + strip(
            b.drop_last(),
        )).push(b.last()));
    }
}

proof fn lemma_strip_spaces(n: nat)
    ensures
        strip(spaces(n)) == Seq::<char>::empty(),
    decreases n,
{
    if n > 0 {
        assert(spaces(n).drop_last() =~= spaces((n - 1) as nat));
        lemma_strip_spaces((n - 1) as nat);
    }
}

proof fn lemma_text_of_concat<A>(a: Seq<EmitV<A>>, b: Seq<EmitV<A>>)
    ensures
        text_of(a + b) == text_of(a) + text_of(b),
    decreases b.len(),
{
    if b.len() == 0 {
        assert(a + b =~= a);
        assert(text_of(a) + seq![] =~= text_of(a));
    } else {
        assert((a + b).drop_last() =~= a + b.drop_last());
        lemma_text_of_concat(a, b.drop_last());
        assert(text_of(a) + text_of(b.drop_last()) + emit_text(b.last()) =~= text_of(a) + (text_of(
            b.drop_last(),
        ) + emit_text(b.last())));
    }
}

proof fn lemma_stack_content_push<A>(s: Seq<CmdV<A>>, c: CmdV<A>)
    ensures
        stack_content(s.push(c)) == match c {
            CmdV::Render(_, _, d) => content(d) + stack_content(s),
            CmdV::PopAnnotation => stack_content(s),
        },
{
    assert(s.push(c).drop_last() =~= s);
}

/// One step keeps the visible text of what is written plus what is left.
proof fn lemma_step_content<A>(rest: Seq<CmdV<A>>, top: CmdV<A>, pos: int, width: int)
    requires
        stack_plain(rest.push(top)),
    ensures
        ({
            let (e, s2, pos2) = step(rest, top, pos, width);
            &&& strip(text_of(e)) + stack_content(s2) == stack_content(rest.push(top))
            &&& stack_plain(s2)
        }),
{
    let (e, s2, pos2) = step(rest, top, pos, width);
    lemma_step_keeps_rest(rest, top, pos, width);
    lemma_stack_content_push(rest, top);
    assert(text_of(Seq::<EmitV<A>>::empty()) == Seq::<char>::empty());
    assert(strip(Seq::<char>::empty()) == Seq::<char>::empty());
    assert(rest.push(top)[rest.len() as int] == top);
    match top {
        CmdV::PopAnnotation => {
            lemma_text_of_push(Seq::<EmitV<A>>::empty(), EmitV::Pop);
            assert(seq![EmitV::<A>::Pop] =~= Seq::<EmitV<A>>::empty() + seq![EmitV::Pop]);
        },
        CmdV::Render(ind, mode, d) => {
            match d {
                DocV::Text(t) => {
                    lemma_text_of_push(Seq::<EmitV<A>>::empty(), EmitV::Text(t));
                    assert(seq![EmitV::<A>::Text(t)] =~= Seq::<EmitV<A>>::empty() + seq![EmitV::Text(t)]);
                    assert(Seq::<char>::empty() + t =~= t);
                },
                DocV::Line => {
                    lemma_text_of_push(Seq::<EmitV<A>>::empty(), EmitV::Newline(ind));
                    assert(seq![EmitV::<A>::Newline(ind)] =~= Seq::<EmitV<A>>::empty() + seq![
                        EmitV::Newline(ind),
                    ]);
                    let nl = seq!['\n'];
                    assert(Seq::<char>::empty() + (nl + spaces(ind as nat)) =~= nl + spaces(ind as nat));
                    lemma_strip_concat(nl, spaces(ind as nat));
                    lemma_strip_spaces(ind as nat);
                    assert(nl.drop_last() =~= Seq::<char>::empty());
                    assert(Seq::<char>::empty() + Seq::<char>::empty() =~= Seq::<char>::empty());
                },
                DocV::Append(l, r) => {
                    let c1 = CmdV::Render(ind, mode, *r);
                    lemma_stack_content_push(rest, c1);
                    lemma_stack_content_push(rest.push(c1), CmdV::Render(ind, mode, *l));
                    assert(content(*l) + (content(*r) + stack_content(rest)) =~= content(*l)
                        + content(*r) + stack_content(rest));
                },
                DocV::Annotated(a, x) => {
                    lemma_text_of_push(Seq::<EmitV<A>>::empty(), EmitV::Push(a));
                    assert(seq![EmitV::<A>::Push(a)] =~= Seq::<EmitV<A>>::empty() + seq![EmitV::Push(a)]);
                    lemma_stack_content_push(rest, CmdV::PopAnnotation);
                    lemma_stack_content_push(rest.push(CmdV::PopAnnotation), CmdV::Render(ind, mode, *x));
                },
                DocV::Nil => {},
                _ => {
                    assert(s2 =~= rest.push(s2.last()));
                    lemma_stack_content_push(rest, s2.last());
                },
            }
        },
    }
    assert(strip(text_of(e)) + stack_content(s2) =~= stack_content(rest.push(top)));
    assert forall|i: int| 0 <= i < s2.len() implies match #[trigger] s2[i] {
        CmdV::Render(_, _, d) => plain(d),
        CmdV::PopAnnotation => true,
    } by {
        if i < rest.len() {
            assert(s2[i] == rest[i]);
            assert(rest.push(top)[i] == rest[i]);
        }
    }
}

proof fn lemma_run_content<A>(s: Seq<CmdV<A>>, pos: int, width: int)
    requires
        stack_plain(s),
    ensures
        strip(text_of(run(s, pos, width))) == stack_content(s),
    decreases weight(s),
{
    if s.len() == 0 {
        assert(run(s, pos, width) =~= Seq::<EmitV<A>>::empty());
        assert(text_of(Seq::<EmitV<A>>::empty()) == Seq::<char>::empty());
    } else {
        let rest = s.drop_last();
        let top = s.last();
        let (e, s2, pos2) = step(rest, top, pos, width);
        lemma_run_unfold(s, pos, width);
        lemma_size_positive(top);
        assert(s =~= rest.push(top));
        lemma_weight_push(rest, top);
        lemma_step_smaller(rest, top, pos, width);
        lemma_step_content(rest, top, pos, width);
        lemma_run_content(s2, pos2, width);
        lemma_text_of_concat(e, run(s2, pos2, width));
        lemma_strip_concat(text_of(e), text_of(run(s2, pos2, width)));
    }
}

/// For a document whose visible text does not depend on the layout, the
/// output at any width shows that text: widths change only spaces and line
/// breaks.
pub proof fn lemma_text_preserved<A>(d: DocV<A>, w1: int, w2: int)
    requires
        plain(d),
    ensures
        strip(rendered(d, w1)) == content(d),
        strip(rendered(d, w1)) == strip(rendered(d, w2)),
{
    let s = seq![CmdV::Render(0, Mode::Break, d)];
    assert(stack_plain(s));
    lemma_run_content(s, 0, w1);
    lemma_run_content(s, 0, w2);
    assert(Seq::<CmdV<A>>::empty().push(CmdV::Render(0, Mode::Break, d)) =~= s);
    lemma_stack_content_push(Seq::<CmdV<A>>::empty(), CmdV::Render(0, Mode::Break, d));
    assert(content(d) + Seq::<char>::empty() =~= content(d));
}

} // verus!
