use crate::doc::{apply, clamp_usize, doc_view, lemma_apply_smaller, size, Doc, DocV};
use std::rc::Rc;
use vstd::prelude::*;
use vstd::string::*;

verus! {

/// How the line breaks of a document are laid out: as breaks, or flat on
/// one line.
#[derive(Clone, Copy, PartialEq, Eq, Structural)]
pub enum Mode {
    Break,
    Flat,
}

/// A pending piece of work of the renderer: a document to lay out at an
/// indent and in a mode, or the end of an annotated region.
pub enum Cmd<A> {
    Render(usize, Mode, Rc<Doc<A>>),
    PopAnnotation,
}

/// The mathematical value of a `Cmd`.
pub enum CmdV<A> {
    Render(int, Mode, DocV<A>),
    PopAnnotation,
}

/// What the renderer hands to its output: a run of text, a line break
/// followed by an indent, and the bounds of an annotated region.
#[derive(Debug)]
pub enum Emit<A> {
    Text(String),
    Newline(usize),
    Push(Rc<A>),
    Pop,
}

/// The mathematical value of an `Emit`.
pub enum EmitV<A> {
    Text(Seq<char>),
    Newline(int),
    Push(A),
    Pop,
}

pub open spec fn cmd_view<A>(c: Cmd<A>) -> CmdV<A> {
    match c {
        Cmd::Render(i, m, d) => CmdV::Render(i as int, m, doc_view(*d)),
        Cmd::PopAnnotation => CmdV::PopAnnotation,
    }
}

pub open spec fn cmds_view<A>(s: Seq<Cmd<A>>) -> Seq<CmdV<A>> {
    s.map_values(|c: Cmd<A>| cmd_view(c))
}

pub open spec fn emit_view<A>(e: Emit<A>) -> EmitV<A> {
    match e {
        Emit::Text(s) => EmitV::Text(s@),
        Emit::Newline(n) => EmitV::Newline(n as int),
        Emit::Push(a) => EmitV::Push(*a),
        Emit::Pop => EmitV::Pop,
    }
}

pub open spec fn emits_view<A>(s: Seq<Emit<A>>) -> Seq<EmitV<A>> {
    s.map_values(|e: Emit<A>| emit_view(e))
}

pub open spec fn cmd_size<A>(c: CmdV<A>) -> nat {
    match c {
        CmdV::Render(_, _, d) => size(d),
        CmdV::PopAnnotation => 1,
    }
}

/// The total size of the work on a stack.
pub open spec fn weight<A>(s: Seq<CmdV<A>>) -> nat
    decreases s.len(),
{
    if s.len() == 0 {
        0
    } else {
        weight(s.drop_last()) + cmd_size(s.last())
    }
}

/// The indent after `Nest(k, _)` at indent `ind`.
pub open spec fn nest_indent(ind: int, k: int) -> int {
    clamp_usize(ind + k)
}

/// The column after `w` more characters at column `pos`.
pub open spec fn advance(pos: int, w: int) -> int {
    clamp_usize(pos + w)
}

/// One step of the fit test: either the answer, or the next stack and the
/// room left on the line.
pub enum FitStep<A> {
    Done(bool),
    Next(Seq<CmdV<A>>, int),
}

/// The fit test on the command `top` above `rest`, with `rem` columns left
/// on the line. A line break in break mode ends the line, and the test
/// succeeds; in flat mode it counts as one column, unless `first_line` asks
/// only about the first line. Every command keeps the mode it has: the test
/// starts from a command in flat mode, and goes on into the commands that
/// wait on the renderer's stack in theirs. `Column` functions see `col`, the
/// column at which the test started.
pub open spec fn fit_step<A>(
    rest: Seq<CmdV<A>>,
    top: CmdV<A>,
    rem: int,
    col: int,
    first_line: bool,
) -> FitStep<A> {
    match top {
        CmdV::PopAnnotation => FitStep::Next(rest, rem),
        CmdV::Render(ind, mode, d) => match d {
            DocV::Nil => FitStep::Next(rest, rem),
            DocV::Text(s) => FitStep::Next(rest, rem - s.len()),
            DocV::Line => if mode == Mode::Break || first_line {
                FitStep::Done(true)
            } else {
                FitStep::Next(rest, rem - 1)
            },
            DocV::Append(l, r) => FitStep::Next(
                rest.push(CmdV::Render(ind, mode, *r)).push(CmdV::Render(ind, mode, *l)),
                rem,
            ),
            DocV::Nest(k, x) => FitStep::Next(
                rest.push(CmdV::Render(nest_indent(ind, k), mode, *x)),
                rem,
            ),
            DocV::Group(x) => FitStep::Next(rest.push(CmdV::Render(ind, mode, *x)), rem),
            DocV::FlatAlt(a, b) => FitStep::Next(
                rest.push(
                    CmdV::Render(
                        ind,
                        mode,
                        if mode == Mode::Break {
                            *a
                        } else {
                            *b
                        },
                    ),
                ),
                rem,
            ),
            DocV::Union(a, _) => FitStep::Next(rest.push(CmdV::Render(ind, mode, *a)), rem),
            DocV::Column(f) => FitStep::Next(
                rest.push(CmdV::Render(ind, mode, apply(*f, col))),
                rem,
            ),
            DocV::Nesting(f) => FitStep::Next(
                rest.push(CmdV::Render(ind, mode, apply(*f, ind))),
                rem,
            ),
            DocV::Annotated(_, x) => FitStep::Next(rest.push(CmdV::Render(ind, mode, *x)), rem),
        },
    }
}

/// The fit test, for at most `fuel` steps.
pub open spec fn fits_fuel<A>(
    s: Seq<CmdV<A>>,
    rem: int,
    col: int,
    first_line: bool,
    fuel: nat,
) -> bool
    decreases fuel,
{
    if rem < 0 {
        false
    } else if s.len() == 0 || fuel == 0 {
        true
    } else {
        match fit_step(s.drop_last(), s.last(), rem, col, first_line) {
            FitStep::Done(b) => b,
            FitStep::Next(s2, rem2) => fits_fuel(s2, rem2, col, first_line, (fuel - 1) as nat),
        }
    }
}

/// Whether the work on the stack `s`, top first, stays within `rem` columns
/// up to its first line break (or to its end). Every step makes the weight
/// of the stack smaller, so `weight(s)` steps reach the answer.
pub open spec fn fits<A>(s: Seq<CmdV<A>>, rem: int, col: int, first_line: bool) -> bool {
    fits_fuel(s, rem, col, first_line, weight(s))
}

/// The mode in which a group is laid out, in mode `mode` at column `pos`.
pub open spec fn group_mode<A>(
    rest: Seq<CmdV<A>>,
    ind: int,
    mode: Mode,
    x: DocV<A>,
    pos: int,
    width: int,
) -> Mode {
    if mode == Mode::Flat {
        Mode::Flat
    } else if fits(rest.push(CmdV::Render(ind, Mode::Flat, x)), width - pos, pos, false) {
        Mode::Flat
    } else {
        Mode::Break
    }
}

/// The branch of `Union(a, b)` that is laid out: `a` when its first line fits.
pub open spec fn union_pick<A>(
    rest: Seq<CmdV<A>>,
    ind: int,
    mode: Mode,
    a: DocV<A>,
    b: DocV<A>,
    pos: int,
    width: int,
) -> DocV<A> {
    if mode == Mode::Flat {
        a
    } else if fits(rest.push(CmdV::Render(ind, Mode::Flat, a)), width - pos, pos, true) {
        a
    } else {
        b
    }
}

/// One step of the renderer on the command `top` above `rest`, at column
/// `pos`: what it emits, the next stack and the next column.
pub open spec fn step<A>(rest: Seq<CmdV<A>>, top: CmdV<A>, pos: int, width: int) -> (
    Seq<EmitV<A>>,
    Seq<CmdV<A>>,
    int,
) {
    match top {
        CmdV::PopAnnotation => (seq![EmitV::Pop], rest, pos),
        CmdV::Render(ind, mode, d) => match d {
            DocV::Nil => (seq![], rest, pos),
            DocV::Text(s) => (seq![EmitV::Text(s)], rest, advance(pos, s.len() as int)),
            DocV::Line => (seq![EmitV::Newline(ind)], rest, ind),
            DocV::Append(l, r) => (
                seq![],
                rest.push(CmdV::Render(ind, mode, *r)).push(CmdV::Render(ind, mode, *l)),
                pos,
            ),
            DocV::Nest(k, x) => (seq![], rest.push(CmdV::Render(nest_indent(ind, k), mode, *x)), pos),
            DocV::Group(x) => (
                seq![],
                rest.push(CmdV::Render(ind, group_mode(rest, ind, mode, *x, pos, width), *x)),
                pos,
            ),
            DocV::FlatAlt(a, b) => (
                seq![],
                rest.push(
                    CmdV::Render(
                        ind,
                        mode,
                        if mode == Mode::Break {
                            *a
                        } else {
                            *b
                        },
                    ),
                ),
                pos,
            ),
            DocV::Union(a, b) => (
                seq![],
                rest.push(CmdV::Render(ind, mode, union_pick(rest, ind, mode, *a, *b, pos, width))),
                pos,
            ),
            DocV::Column(f) => (seq![], rest.push(CmdV::Render(ind, mode, apply(*f, pos))), pos),
            DocV::Nesting(f) => (seq![], rest.push(CmdV::Render(ind, mode, apply(*f, ind))), pos),
            DocV::Annotated(a, x) => (
                seq![EmitV::Push(a)],
                rest.push(CmdV::PopAnnotation).push(CmdV::Render(ind, mode, *x)),
                pos,
            ),
        },
    }
}

/// The renderer, for at most `fuel` steps.
pub open spec fn run_fuel<A>(s: Seq<CmdV<A>>, pos: int, width: int, fuel: nat) -> Seq<EmitV<A>>
    decreases fuel,
{
    if s.len() == 0 || fuel == 0 {
        seq![]
    } else {
        let (e, s2, pos2) = step(s.drop_last(), s.last(), pos, width);
        e + run_fuel(s2, pos2, width, (fuel - 1) as nat)
    }
}

/// What the renderer emits for the stack `s`, top first, at column `pos`.
pub open spec fn run<A>(s: Seq<CmdV<A>>, pos: int, width: int) -> Seq<EmitV<A>> {
    run_fuel(s, pos, width, weight(s))
}

/// What rendering `d` at page width `width` emits.
pub open spec fn layout<A>(d: DocV<A>, width: int) -> Seq<EmitV<A>> {
    run(seq![CmdV::Render(0, Mode::Break, d)], 0, width)
}

pub proof fn lemma_weight_push<A>(s: Seq<CmdV<A>>, c: CmdV<A>)
    ensures
        weight(s.push(c)) == weight(s) + cmd_size(c),
{
    assert(s.push(c).drop_last() =~= s);
}

pub proof fn lemma_size_positive<A>(c: CmdV<A>)
    ensures
        cmd_size(c) >= 1,
{
    match c {
        CmdV::Render(_, _, d) => {
            match d {
                DocV::Column(f) => {},
                DocV::Nesting(f) => {},
                _ => {},
            }
        },
        _ => {},
    }
}

pub proof fn lemma_fit_step_smaller<A>(
    rest: Seq<CmdV<A>>,
    top: CmdV<A>,
    rem: int,
    col: int,
    first_line: bool,
)
    ensures
        fit_step(rest, top, rem, col, first_line) matches FitStep::Next(s2, _) ==> weight(s2)
            < weight(rest) + cmd_size(top),
{
    match top {
        CmdV::PopAnnotation => {},
        CmdV::Render(ind, mode, d) => match d {
            DocV::Append(l, r) => {
                let c1 = CmdV::Render(ind, mode, *r);
                lemma_weight_push(rest, c1);
                lemma_weight_push(rest.push(c1), CmdV::Render(ind, mode, *l));
            },
            DocV::Nest(k, x) => {
                lemma_weight_push(rest, CmdV::Render(nest_indent(ind, k), mode, *x));
            },
            DocV::Group(x) => {
                lemma_weight_push(rest, CmdV::Render(ind, mode, *x));
            },
            DocV::FlatAlt(a, b) => {
                lemma_weight_push(rest, CmdV::Render(ind, mode, *a));
                lemma_weight_push(rest, CmdV::Render(ind, mode, *b));
            },
            DocV::Union(a, _) => {
                lemma_weight_push(rest, CmdV::Render(ind, mode, *a));
            },
            DocV::Column(f) => {
                lemma_apply_smaller(*f, col);
                lemma_weight_push(rest, CmdV::Render(ind, mode, apply(*f, col)));
            },
            DocV::Nesting(f) => {
                lemma_apply_smaller(*f, ind);
                lemma_weight_push(rest, CmdV::Render(ind, mode, apply(*f, ind)));
            },
            DocV::Annotated(_, x) => {
                lemma_weight_push(rest, CmdV::Render(ind, mode, *x));
            },
            _ => {},
        },
    }
}

pub proof fn lemma_step_smaller<A>(rest: Seq<CmdV<A>>, top: CmdV<A>, pos: int, width: int)
    ensures
        weight(step(rest, top, pos, width).1) < weight(rest) + cmd_size(top),
{
    match top {
        CmdV::PopAnnotation => {},
        CmdV::Render(ind, mode, d) => match d {
            DocV::Append(l, r) => {
                let c1 = CmdV::Render(ind, mode, *r);
                lemma_weight_push(rest, c1);
                lemma_weight_push(rest.push(c1), CmdV::Render(ind, mode, *l));
            },
            DocV::Nest(k, x) => {
                lemma_weight_push(rest, CmdV::Render(nest_indent(ind, k), mode, *x));
            },
            DocV::Group(x) => {
                lemma_weight_push(
                    rest,
                    CmdV::Render(ind, group_mode(rest, ind, mode, *x, pos, width), *x),
                );
            },
            DocV::FlatAlt(a, b) => {
                lemma_weight_push(rest, CmdV::Render(ind, mode, *a));
                lemma_weight_push(rest, CmdV::Render(ind, mode, *b));
            },
            DocV::Union(a, b) => {
                let p = union_pick(rest, ind, mode, *a, *b, pos, width);
                assert(p == *a || p == *b);
                lemma_weight_push(rest, CmdV::Render(ind, mode, p));
            },
            DocV::Column(f) => {
                lemma_apply_smaller(*f, pos);
                lemma_weight_push(rest, CmdV::Render(ind, mode, apply(*f, pos)));
            },
            DocV::Nesting(f) => {
                lemma_apply_smaller(*f, ind);
                lemma_weight_push(rest, CmdV::Render(ind, mode, apply(*f, ind)));
            },
            DocV::Annotated(_, x) => {
                lemma_weight_push(rest, CmdV::PopAnnotation);
                lemma_weight_push(rest.push(CmdV::PopAnnotation), CmdV::Render(ind, mode, *x));
            },
            _ => {},
        },
    }
}

/// Fuel beyond the weight of the stack changes nothing in the fit test.
pub proof fn lemma_fits_fuel<A>(s: Seq<CmdV<A>>, rem: int, col: int, first_line: bool, fuel: nat)
    requires
        fuel >= weight(s),
    ensures
        fits_fuel(s, rem, col, first_line, fuel) == fits(s, rem, col, first_line),
    decreases fuel,
{
    if rem >= 0 && s.len() > 0 {
        lemma_size_positive(s.last());
        let f2 = weight(s);
        match fit_step(s.drop_last(), s.last(), rem, col, first_line) {
            FitStep::Done(b) => {},
            FitStep::Next(s2, rem2) => {
                lemma_fit_step_smaller(s.drop_last(), s.last(), rem, col, first_line);
                lemma_fits_fuel(s2, rem2, col, first_line, (fuel - 1) as nat);
                lemma_fits_fuel(s2, rem2, col, first_line, (f2 - 1) as nat);
            },
        }
    }
}

/// Fuel beyond the weight of the stack changes nothing in the renderer.
pub proof fn lemma_run_fuel<A>(s: Seq<CmdV<A>>, pos: int, width: int, fuel: nat)
    requires
        fuel >= weight(s),
    ensures
        run_fuel(s, pos, width, fuel) == run(s, pos, width),
    decreases fuel,
{
    if s.len() > 0 {
        lemma_size_positive(s.last());
        let f2 = weight(s);
        let (e, s2, pos2) = step(s.drop_last(), s.last(), pos, width);
        lemma_step_smaller(s.drop_last(), s.last(), pos, width);
        lemma_run_fuel(s2, pos2, width, (fuel - 1) as nat);
        lemma_run_fuel(s2, pos2, width, (f2 - 1) as nat);
    }
}

/// The renderer on a non-empty stack is one step followed by the rest.
pub proof fn lemma_run_unfold<A>(s: Seq<CmdV<A>>, pos: int, width: int)
    requires
        s.len() > 0,
    ensures
        ({
            let (e, s2, pos2) = step(s.drop_last(), s.last(), pos, width);
            run(s, pos, width) == e + run(s2, pos2, width)
        }),
{
    lemma_size_positive(s.last());
    let (e, s2, pos2) = step(s.drop_last(), s.last(), pos, width);
    lemma_step_smaller(s.drop_last(), s.last(), pos, width);
    lemma_run_fuel(s2, pos2, width, (weight(s) - 1) as nat);
}

/// The fit test on a non-empty stack with room left is one step followed by
/// the rest.
pub proof fn lemma_fits_unfold<A>(s: Seq<CmdV<A>>, rem: int, col: int, first_line: bool)
    requires
        s.len() > 0,
        rem >= 0,
    ensures
        fits(s, rem, col, first_line) == match fit_step(
            s.drop_last(),
            s.last(),
            rem,
            col,
            first_line,
        ) {
            FitStep::Done(b) => b,
            FitStep::Next(s2, rem2) => fits(s2, rem2, col, first_line),
        },
{
    lemma_size_positive(s.last());
    match fit_step(s.drop_last(), s.last(), rem, col, first_line) {
        FitStep::Done(b) => {},
        FitStep::Next(s2, rem2) => {
            lemma_fit_step_smaller(s.drop_last(), s.last(), rem, col, first_line);
            lemma_fits_fuel(s2, rem2, col, first_line, (weight(s) - 1) as nat);
        },
    }
}

/// The stack that the fit test works on: the first `bidx` commands of the
/// renderer's stack, with the scratch stack above them.
pub open spec fn stack_of<A>(b: Seq<Cmd<A>>, bidx: int, f: Seq<Cmd<A>>) -> Seq<CmdV<A>> {
    cmds_view(b.subrange(0, bidx) + f)
}

proof fn lemma_cmds_push<A>(v: Seq<Cmd<A>>, c: Cmd<A>)
    ensures
        cmds_view(v.push(c)) == cmds_view(v).push(cmd_view(c)),
{
    assert(cmds_view(v.push(c)) =~= cmds_view(v).push(cmd_view(c)));
}

proof fn lemma_cmds_pop<A>(v: Seq<Cmd<A>>)
    requires
        v.len() > 0,
    ensures
        cmds_view(v.drop_last()) == cmds_view(v).drop_last(),
        cmds_view(v).last() == cmd_view(v.last()),
        cmds_view(v).len() == v.len(),
{
    assert(cmds_view(v.drop_last()) =~= cmds_view(v).drop_last());
}

proof fn lemma_emits_push<A>(v: Seq<Emit<A>>, e: Emit<A>)
    ensures
        emits_view(v.push(e)) == emits_view(v) + seq![emit_view(e)],
{
    assert(emits_view(v.push(e)) =~= emits_view(v) + seq![emit_view(e)]);
}

proof fn lemma_stack_push<A>(b: Seq<Cmd<A>>, bidx: int, f: Seq<Cmd<A>>, c: Cmd<A>)
    requires
        0 <= bidx <= b.len(),
    ensures
        stack_of(b, bidx, f.push(c)) == stack_of(b, bidx, f).push(cmd_view(c)),
{
    assert(b.subrange(0, bidx) + f.push(c) =~= (b.subrange(0, bidx) + f).push(c));
    lemma_cmds_push(b.subrange(0, bidx) + f, c);
}

proof fn lemma_stack_pop<A>(b: Seq<Cmd<A>>, bidx: int, f: Seq<Cmd<A>>)
    requires
        0 <= bidx <= b.len(),
        f.len() > 0,
    ensures
        stack_of(b, bidx, f).len() > 0,
        stack_of(b, bidx, f).drop_last() == stack_of(b, bidx, f.drop_last()),
        stack_of(b, bidx, f).last() == cmd_view(f.last()),
{
    let all = b.subrange(0, bidx) + f;
    assert(all.drop_last() =~= b.subrange(0, bidx) + f.drop_last());
    lemma_cmds_pop(all);
}

proof fn lemma_stack_drain<A>(b: Seq<Cmd<A>>, bidx: int)
    requires
        0 < bidx <= b.len(),
    ensures
        stack_of(b, bidx, seq![]).len() > 0,
        stack_of(b, bidx, seq![]).drop_last() == stack_of(b, bidx - 1, seq![]),
        stack_of(b, bidx, seq![]).last() == cmd_view(b[bidx - 1]),
{
    let all = b.subrange(0, bidx) + seq![];
    assert(all =~= b.subrange(0, bidx));
    assert(all.drop_last() =~= b.subrange(0, bidx - 1) + seq![]);
    lemma_cmds_pop(all);
}

fn clone_cmd<A>(c: &Cmd<A>) -> (r: Cmd<A>)
    ensures
        r == *c,
{
    match c {
        Cmd::Render(i, m, d) => Cmd::Render(*i, *m, d.clone()),
        Cmd::PopAnnotation => Cmd::PopAnnotation,
    }
}

fn indent_after_nest(ind: usize, k: isize) -> (r: usize)
    ensures
        r == nest_indent(ind as int, k as int),
{
    let t: i128 = ind as i128 + k as i128;
    if t < 0 {
        0
    } else if t > usize::MAX as i128 {
        usize::MAX
    } else {
        t as usize
    }
}

fn column_after(pos: usize, w: usize) -> (r: usize)
    ensures
        r == advance(pos as int, w as int),
{
    if w > usize::MAX - pos {
        usize::MAX
    } else {
        pos + w
    }
}

#[verifier::rlimit(60)]
/// The fit test: whether `next`, followed by the commands on `bcmds`, stays
/// within `rem` columns up to its first line break. `fcmds` is scratch space.
fn fitting<A>(
    next: &Cmd<A>,
    bcmds: &Vec<Cmd<A>>,
    fcmds: &mut Vec<Cmd<A>>,
    rem: i128,
    col: usize,
    first_line: bool,
) -> (r: bool)
    requires
        -(usize::MAX as int) <= rem <= usize::MAX,
    ensures
        r == fits(cmds_view(bcmds@).push(cmd_view(*next)), rem as int, col as int, first_line),
{
    let ghost goal = fits(cmds_view(bcmds@).push(cmd_view(*next)), rem as int, col as int, first_line);
    let mut bidx: usize = bcmds.len();
    let mut room: i128 = rem;
    fcmds.clear();
    fcmds.push(clone_cmd(next));
    proof {
        assert(bcmds@.subrange(0, bidx as int) =~= bcmds@);
        assert(bcmds@.subrange(0, bidx as int) + fcmds@ =~= bcmds@.push(*next));
        lemma_cmds_push(bcmds@, *next);
    }
    loop
        invariant
            bidx <= bcmds@.len(),
            -(usize::MAX as int) <= room <= usize::MAX,
            goal == fits(cmds_view(bcmds@).push(cmd_view(*next)), rem as int, col as int, first_line),
            fits(stack_of(bcmds@, bidx as int, fcmds@), room as int, col as int, first_line) == goal,
        decreases weight(stack_of(bcmds@, bidx as int, fcmds@)) + bidx,
    {
        let ghost s = stack_of(bcmds@, bidx as int, fcmds@);
        if room < 0 {
            assert(!fits(s, room as int, col as int, first_line));
            return false;
        }
        let ghost old_bidx = bidx;
        let cmd = match fcmds.pop() {
            Some(c) => {
                proof {
                    lemma_stack_pop(bcmds@, bidx as int, fcmds@.push(c));
                    assert(fcmds@.push(c).drop_last() =~= fcmds@);
                }
                c
            },
            None => {
                if bidx == 0 {
                    proof {
                        assert(s =~= Seq::<CmdV<A>>::empty());
                    }
                    return true;
                }
                bidx = bidx - 1;
                proof {
                    lemma_stack_drain(bcmds@, bidx as int + 1);
                }
                clone_cmd(&bcmds[bidx])
            },
        };
        let ghost rest = stack_of(bcmds@, bidx as int, fcmds@);
        proof {
            assert(s.len() > 0);
            assert(s.drop_last() == rest);
            assert(s.last() == cmd_view(cmd));
            lemma_fits_unfold(s, room as int, col as int, first_line);
            lemma_fit_step_smaller(rest, cmd_view(cmd), room as int, col as int, first_line);
        }
        match cmd {
            Cmd::PopAnnotation => {},
            Cmd::Render(ind, mode, doc) => {
                match &*doc {
                    Doc::Nil => {},
                    Doc::Text(t) => {
                        let w = t.as_str().unicode_len();
                        room = room - w as i128;
                    },
                    Doc::Line => {
                        if mode == Mode::Break || first_line {
                            return true;
                        }
                        room = room - 1;
                    },
                    Doc::Append(l, r) => {
                        let c1 = Cmd::Render(ind, mode, r.clone());
                        let c2 = Cmd::Render(ind, mode, l.clone());
                        proof {
                            lemma_stack_push(bcmds@, bidx as int, fcmds@, c1);
                            lemma_stack_push(bcmds@, bidx as int, fcmds@.push(c1), c2);
                        }
                        fcmds.push(c1);
                        fcmds.push(c2);
                    },
                    Doc::Nest(k, x) => {
                        let c = Cmd::Render(indent_after_nest(ind, *k), mode, x.clone());
                        proof {
                            lemma_stack_push(bcmds@, bidx as int, fcmds@, c);
                        }
                        fcmds.push(c);
                    },
                    Doc::Group(x) => {
                        let c = Cmd::Render(ind, mode, x.clone());
                        proof {
                            lemma_stack_push(bcmds@, bidx as int, fcmds@, c);
                        }
                        fcmds.push(c);
                    },
                    Doc::FlatAlt(a, b) => {
                        let y = if mode == Mode::Break {
                            a.clone()
                        } else {
                            b.clone()
                        };
                        let c = Cmd::Render(ind, mode, y);
                        proof {
                            lemma_stack_push(bcmds@, bidx as int, fcmds@, c);
                        }
                        fcmds.push(c);
                    },
                    Doc::Union(a, _) => {
                        let c = Cmd::Render(ind, mode, a.clone());
                        proof {
                            lemma_stack_push(bcmds@, bidx as int, fcmds@, c);
                        }
                        fcmds.push(c);
                    },
                    Doc::Column(f) => {
                        let c = Cmd::Render(ind, mode, Rc::new(f.apply(col as i128)));
                        proof {
                            lemma_stack_push(bcmds@, bidx as int, fcmds@, c);
                        }
                        fcmds.push(c);
                    },
                    Doc::Nesting(f) => {
                        let c = Cmd::Render(ind, mode, Rc::new(f.apply(ind as i128)));
                        proof {
                            lemma_stack_push(bcmds@, bidx as int, fcmds@, c);
                        }
                        fcmds.push(c);
                    },
                    Doc::Annotated(_, x) => {
                        let c = Cmd::Render(ind, mode, x.clone());
                        proof {
                            lemma_stack_push(bcmds@, bidx as int, fcmds@, c);
                        }
                        fcmds.push(c);
                    },
                }
            },
        }
    }
}

/// The effect of one step of the renderer on its stack, column and output.
pub open spec fn step_done<A>(
    old_stack: Seq<CmdV<A>>,
    top: CmdV<A>,
    old_pos: int,
    width: int,
    old_out: Seq<EmitV<A>>,
    new_stack: Seq<CmdV<A>>,
    new_pos: int,
    new_out: Seq<EmitV<A>>,
) -> bool {
    let (e, s2, pos2) = step(old_stack, top, old_pos, width);
    &&& new_out == old_out + e
    &&& new_stack == s2
    &&& new_pos == pos2
}

/// One step of the renderer on the document `d` at indent `ind` in mode
/// `mode`.
#[verifier::rlimit(60)]
fn render_step<A>(
    ind: usize,
    mode: Mode,
    d: &Doc<A>,
    bcmds: &mut Vec<Cmd<A>>,
    fcmds: &mut Vec<Cmd<A>>,
    pos: &mut usize,
    out: &mut Vec<Emit<A>>,
    width: usize,
)
    ensures
        step_done(
            cmds_view(old(bcmds)@),
            CmdV::Render(ind as int, mode, d@),
            *old(pos) as int,
            width as int,
            emits_view(old(out)@),
            cmds_view(final(bcmds)@),
            *final(pos) as int,
            emits_view(final(out)@),
        ),
{
    let ghost b0 = bcmds@;
    match d {
        Doc::Nil => {
            assert(emits_view(out@) + seq![] =~= emits_view(out@));
        },
        Doc::Text(t) => {
            let w = t.as_str().unicode_len();
            let e = Emit::Text(t.clone());
            proof {
                lemma_emits_push(out@, e);
            }
            out.push(e);
            *pos = column_after(*pos, w);
        },
        Doc::Line => {
            let e = Emit::Newline(ind);
            proof {
                lemma_emits_push(out@, e);
            }
            out.push(e);
            *pos = ind;
        },
        Doc::Append(l, r) => {
            let c1 = Cmd::Render(ind, mode, r.clone());
            let c2 = Cmd::Render(ind, mode, l.clone());
            proof {
                lemma_cmds_push(bcmds@, c1);
                lemma_cmds_push(bcmds@.push(c1), c2);
                assert(emits_view(out@) + seq![] =~= emits_view(out@));
            }
            bcmds.push(c1);
            bcmds.push(c2);
        },
        Doc::Nest(k, x) => {
            let c = Cmd::Render(indent_after_nest(ind, *k), mode, x.clone());
            proof {
                lemma_cmds_push(bcmds@, c);
                assert(emits_view(out@) + seq![] =~= emits_view(out@));
            }
            bcmds.push(c);
        },
        Doc::Group(x) => {
            let m = if mode == Mode::Flat {
                Mode::Flat
            } else {
                let next = Cmd::Render(ind, Mode::Flat, x.clone());
                let room: i128 = width as i128 - *pos as i128;
                if fitting(&next, bcmds, fcmds, room, *pos, false) {
                    Mode::Flat
                } else {
                    Mode::Break
                }
            };
            let c = Cmd::Render(ind, m, x.clone());
            proof {
                lemma_cmds_push(bcmds@, c);
                assert(emits_view(out@) + seq![] =~= emits_view(out@));
            }
            bcmds.push(c);
        },
        Doc::FlatAlt(a, b) => {
            let y = if mode == Mode::Break {
                a.clone()
            } else {
                b.clone()
            };
            let c = Cmd::Render(ind, mode, y);
            proof {
                lemma_cmds_push(bcmds@, c);
                assert(emits_view(out@) + seq![] =~= emits_view(out@));
            }
            bcmds.push(c);
        },
        Doc::Union(a, b) => {
            let y = if mode == Mode::Flat {
                a.clone()
            } else {
                let next = Cmd::Render(ind, Mode::Flat, a.clone());
                let room: i128 = width as i128 - *pos as i128;
                if fitting(&next, bcmds, fcmds, room, *pos, true) {
                    a.clone()
                } else {
                    b.clone()
                }
            };
            let c = Cmd::Render(ind, mode, y);
            proof {
                lemma_cmds_push(bcmds@, c);
                assert(emits_view(out@) + seq![] =~= emits_view(out@));
            }
            bcmds.push(c);
        },
        Doc::Column(f) => {
            let c = Cmd::Render(ind, mode, Rc::new(f.apply(*pos as i128)));
            proof {
                lemma_cmds_push(bcmds@, c);
                assert(emits_view(out@) + seq![] =~= emits_view(out@));
            }
            bcmds.push(c);
        },
        Doc::Nesting(f) => {
            let c = Cmd::Render(ind, mode, Rc::new(f.apply(ind as i128)));
            proof {
                lemma_cmds_push(bcmds@, c);
                assert(emits_view(out@) + seq![] =~= emits_view(out@));
            }
            bcmds.push(c);
        },
        Doc::Annotated(a, x) => {
            let e = Emit::Push(a.clone());
            let c1 = Cmd::PopAnnotation;
            let c2 = Cmd::Render(ind, mode, x.clone());
            proof {
                lemma_emits_push(out@, e);
                lemma_cmds_push(bcmds@, c1);
                lemma_cmds_push(bcmds@.push(c1), c2);
            }
            out.push(e);
            bcmds.push(c1);
            bcmds.push(c2);
        },
    }
}

/// Renders `doc` at page width `width`: the text runs, line breaks and
/// annotation bounds, in the order of the output.
pub fn best<A>(doc: &Doc<A>, width: usize) -> (r: Vec<Emit<A>>)
    ensures
        emits_view(r@) == layout(doc@, width as int),
{
    let mut out: Vec<Emit<A>> = Vec::new();
    let mut bcmds: Vec<Cmd<A>> = Vec::new();
    let mut fcmds: Vec<Cmd<A>> = Vec::new();
    let mut pos: usize = 0;
    let ghost s0 = seq![CmdV::Render(0, Mode::Break, doc@)];
    proof {
        lemma_run_unfold(s0, 0, width as int);
        assert(s0.drop_last() =~= cmds_view(bcmds@));
        assert(emits_view(out@) =~= Seq::<EmitV<A>>::empty());
    }
    render_step(0, Mode::Break, doc, &mut bcmds, &mut fcmds, &mut pos, &mut out, width);
    while bcmds.len() > 0
        invariant
            emits_view(out@) + run(cmds_view(bcmds@), pos as int, width as int) == layout(
                doc@,
                width as int,
            ),
        decreases weight(cmds_view(bcmds@)),
    {
        let ghost s = cmds_view(bcmds@);
        let ghost o = emits_view(out@);
        let ghost p = pos as int;
        proof {
            lemma_cmds_pop(bcmds@);
            lemma_run_unfold(s, p, width as int);
            lemma_step_smaller(s.drop_last(), s.last(), p, width as int);
        }
        let cmd = bcmds.pop().unwrap();
        match cmd {
            Cmd::PopAnnotation => {
                let e = Emit::Pop;
                proof {
                    lemma_emits_push(out@, e);
                }
                out.push(e);
            },
            Cmd::Render(ind, mode, d) => {
                render_step(ind, mode, &*d, &mut bcmds, &mut fcmds, &mut pos, &mut out, width);
            },
        }
        proof {
            let (e, s2, pos2) = step(s.drop_last(), s.last(), p, width as int);
            assert(o + e + run(s2, pos2, width as int) =~= o + (e + run(s2, pos2, width as int)));
        }
    }
    proof {
        assert(emits_view(out@) + seq![] =~= emits_view(out@));
    }
    out
}

} // verus!
