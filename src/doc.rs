use std::rc::Rc;
use vstd::prelude::*;
use vstd::string::*;

verus! {

/// The document tree. Subdocuments are shared through `Rc`, so that a
/// document can be reused inside several larger documents without copying.
/// The width of a `Text` is its number of characters.
#[derive(Debug)]
pub enum Doc<A> {
    Nil,
    Append(Rc<Doc<A>>, Rc<Doc<A>>),
    Group(Rc<Doc<A>>),
    FlatAlt(Rc<Doc<A>>, Rc<Doc<A>>),
    Nest(isize, Rc<Doc<A>>),
    Line,
    Text(String),
    Annotated(Rc<A>, Rc<Doc<A>>),
    Union(Rc<Doc<A>>, Rc<Doc<A>>),
    Column(Rc<ColumnFn<A>>),
    Nesting(Rc<ColumnFn<A>>),
}

/// The functions from a number to a document that `Column` and `Nesting`
/// carry. Each variant is one kind of function; `apply` evaluates it.
#[derive(Debug)]
pub enum ColumnFn<A> {
    /// `n` is shown in decimal between two documents.
    Show(Rc<Doc<A>>, Rc<Doc<A>>),
    /// At column `c`: the document with its nesting set to `c`.
    Align(Rc<Doc<A>>),
    /// At nesting `n`: the document nested by `c - n`, for the stored `c`.
    AlignTo(usize, Rc<Doc<A>>),
    /// At column `start`: the document, followed by the function applied to
    /// the number of columns that the document took.
    Measure(Rc<Doc<A>>, Rc<ColumnFn<A>>),
    /// At column `end`: the function applied to `end - start`.
    MeasureFrom(usize, Rc<ColumnFn<A>>),
}

/// The mathematical value of a document.
pub enum DocV<A> {
    Nil,
    Append(Box<DocV<A>>, Box<DocV<A>>),
    Group(Box<DocV<A>>),
    FlatAlt(Box<DocV<A>>, Box<DocV<A>>),
    Nest(int, Box<DocV<A>>),
    Line,
    Text(Seq<char>),
    Annotated(A, Box<DocV<A>>),
    Union(Box<DocV<A>>, Box<DocV<A>>),
    Column(Box<FnV<A>>),
    Nesting(Box<FnV<A>>),
}

/// The mathematical value of a `ColumnFn`.
pub enum FnV<A> {
    Show(Box<DocV<A>>, Box<DocV<A>>),
    Align(Box<DocV<A>>),
    AlignTo(int, Box<DocV<A>>),
    Measure(Box<DocV<A>>, Box<FnV<A>>),
    MeasureFrom(int, Box<FnV<A>>),
}

pub open spec fn doc_view<A>(d: Doc<A>) -> DocV<A>
    decreases d,
{
    match d {
        Doc::Nil => DocV::Nil,
        Doc::Append(l, r) => DocV::Append(Box::new(doc_view(*l)), Box::new(doc_view(*r))),
        Doc::Group(x) => DocV::Group(Box::new(doc_view(*x))),
        Doc::FlatAlt(a, b) => DocV::FlatAlt(Box::new(doc_view(*a)), Box::new(doc_view(*b))),
        Doc::Nest(k, x) => DocV::Nest(k as int, Box::new(doc_view(*x))),
        Doc::Line => DocV::Line,
        Doc::Text(s) => DocV::Text(s@),
        Doc::Annotated(a, x) => DocV::Annotated(*a, Box::new(doc_view(*x))),
        Doc::Union(a, b) => DocV::Union(Box::new(doc_view(*a)), Box::new(doc_view(*b))),
        Doc::Column(f) => DocV::Column(Box::new(fn_view(*f))),
        Doc::Nesting(f) => DocV::Nesting(Box::new(fn_view(*f))),
    }
}

pub open spec fn fn_view<A>(f: ColumnFn<A>) -> FnV<A>
    decreases f,
{
    match f {
        ColumnFn::Show(b, a) => FnV::Show(Box::new(doc_view(*b)), Box::new(doc_view(*a))),
        ColumnFn::Align(d) => FnV::Align(Box::new(doc_view(*d))),
        ColumnFn::AlignTo(c, d) => FnV::AlignTo(c as int, Box::new(doc_view(*d))),
        ColumnFn::Measure(d, g) => FnV::Measure(Box::new(doc_view(*d)), Box::new(fn_view(*g))),
        ColumnFn::MeasureFrom(s, g) => FnV::MeasureFrom(s as int, Box::new(fn_view(*g))),
    }
}

impl<A> View for Doc<A> {
    type V = DocV<A>;

    open spec fn view(&self) -> DocV<A> {
        doc_view(*self)
    }
}

impl<A> View for ColumnFn<A> {
    type V = FnV<A>;

    open spec fn view(&self) -> FnV<A> {
        fn_view(*self)
    }
}

/// Concatenation as the builders perform it: `Nil` on either side is absorbed.
pub open spec fn cat<A>(x: DocV<A>, y: DocV<A>) -> DocV<A> {
    if x is Nil {
        y
    } else if y is Nil {
        x
    } else {
        DocV::Append(Box::new(x), Box::new(y))
    }
}

/// Nesting as the builders perform it: a zero offset or an empty document is
/// left as it is.
pub open spec fn nested<A>(k: int, d: DocV<A>) -> DocV<A> {
    if d is Nil || k == 0 {
        d
    } else {
        DocV::Nest(k, Box::new(d))
    }
}

/// `k` limited to the range of `isize`.
pub open spec fn clamp_isize(k: int) -> int {
    if k < isize::MIN {
        isize::MIN as int
    } else if k > isize::MAX {
        isize::MAX as int
    } else {
        k
    }
}

/// `n` limited to the range of `usize`.
pub open spec fn clamp_usize(n: int) -> int {
    if n < 0 {
        0
    } else if n > usize::MAX {
        usize::MAX as int
    } else {
        n
    }
}

/// `n` limited to the numbers that `apply` is defined on: no further from
/// zero than `usize::MAX`.
pub open spec fn clamp_span(n: int) -> int {
    if n < -(usize::MAX as int) {
        -(usize::MAX as int)
    } else if n > usize::MAX {
        usize::MAX as int
    } else {
        n
    }
}

pub open spec fn in_span(n: int) -> bool {
    -(usize::MAX as int) <= n <= usize::MAX
}

pub open spec fn digits(n: nat) -> Seq<char>
    decreases n,
{
    if n < 10 {
        seq![digit_char(n)]
    } else {
        digits(n / 10).push(digit_char(n % 10))
    }
}

pub open spec fn digit_char(d: nat) -> char {
    if d == 0 {
        '0'
    } else if d == 1 {
        '1'
    } else if d == 2 {
        '2'
    } else if d == 3 {
        '3'
    } else if d == 4 {
        '4'
    } else if d == 5 {
        '5'
    } else if d == 6 {
        '6'
    } else if d == 7 {
        '7'
    } else if d == 8 {
        '8'
    } else {
        '9'
    }
}

/// The decimal notation of an integer, with a leading `-` when it is negative.
pub open spec fn decimal(n: int) -> Seq<char> {
    if n < 0 {
        seq!['-'] + digits((-n) as nat)
    } else {
        digits(n as nat)
    }
}

/// What a layout function yields at `n`.
pub open spec fn apply<A>(f: FnV<A>, n: int) -> DocV<A>
    decreases f,
{
    match f {
        FnV::Show(b, a) => cat(*b, cat(DocV::Text(decimal(n)), *a)),
        FnV::Align(d) => DocV::Nesting(Box::new(FnV::AlignTo(clamp_usize(n), d))),
        FnV::AlignTo(c, d) => nested(clamp_isize(c - n), *d),
        FnV::Measure(d, g) => cat(*d, DocV::Column(Box::new(FnV::MeasureFrom(clamp_usize(n), g)))),
        FnV::MeasureFrom(s, g) => apply(*g, clamp_span(n - s)),
    }
}

/// A size that every rendering step makes smaller.
pub open spec fn size<A>(d: DocV<A>) -> nat
    decreases d,
{
    match d {
        DocV::Nil => 1,
        DocV::Append(l, r) => size(*l) + size(*r) + 1,
        DocV::Group(x) => size(*x) + 1,
        DocV::FlatAlt(a, b) => size(*a) + size(*b) + 1,
        DocV::Nest(_, x) => size(*x) + 1,
        DocV::Line => 1,
        DocV::Text(_) => 1,
        DocV::Annotated(_, x) => size(*x) + 2,
        DocV::Union(a, b) => size(*a) + size(*b) + 1,
        DocV::Column(f) => fn_size(*f) + 1,
        DocV::Nesting(f) => fn_size(*f) + 1,
    }
}

pub open spec fn fn_size<A>(f: FnV<A>) -> nat
    decreases f,
{
    match f {
        FnV::Show(b, a) => size(*b) + size(*a) + 4,
        FnV::Align(d) => size(*d) + 4,
        FnV::AlignTo(_, d) => size(*d) + 2,
        FnV::Measure(d, g) => size(*d) + fn_size(*g) + 4,
        FnV::MeasureFrom(_, g) => fn_size(*g) + 1,
    }
}

pub proof fn lemma_apply_smaller<A>(f: FnV<A>, n: int)
    ensures
        size(apply(f, n)) < fn_size(f),
    decreases f,
{
    match f {
        FnV::Show(b, a) => {
            reveal_with_fuel(size, 3);
        },
        FnV::Align(d) => {
            assert(size(apply(f, n)) == fn_size(FnV::AlignTo(clamp_usize(n), d)) + 1);
        },
        FnV::AlignTo(c, d) => {},
        FnV::Measure(d, g) => {
            let m = DocV::<A>::Column(Box::new(FnV::MeasureFrom(clamp_usize(n), g)));
            let h = FnV::<A>::MeasureFrom(clamp_usize(n), g);
            assert(fn_size(h) == fn_size(*g) + 1);
            assert(size(m) == fn_size(h) + 1);
        },
        FnV::MeasureFrom(s, g) => {
            lemma_apply_smaller(*g, clamp_span(n - s));
        },
    }
}

/// Relies on the `Display` impl of `i128`, which writes the decimal digits
/// with a leading `-` for a negative number.
#[verifier::external_body]
pub(crate) fn decimal_string(n: i128) -> (r: String)
    ensures
        r@ == decimal(n as int),
{
    n.to_string()
}

impl<A> Doc<A> {
    /// A copy that shares every subdocument with `self`.
    pub fn share(&self) -> (r: Doc<A>)
        ensures
            r == *self,
    {
        match self {
            Doc::Nil => Doc::Nil,
            Doc::Append(l, r) => Doc::Append(l.clone(), r.clone()),
            Doc::Group(x) => Doc::Group(x.clone()),
            Doc::FlatAlt(a, b) => Doc::FlatAlt(a.clone(), b.clone()),
            Doc::Nest(k, x) => Doc::Nest(*k, x.clone()),
            Doc::Line => Doc::Line,
            Doc::Text(s) => Doc::Text(s.clone()),
            Doc::Annotated(a, x) => Doc::Annotated(a.clone(), x.clone()),
            Doc::Union(a, b) => Doc::Union(a.clone(), b.clone()),
            Doc::Column(f) => Doc::Column(f.clone()),
            Doc::Nesting(f) => Doc::Nesting(f.clone()),
        }
    }

    pub fn is_nil(&self) -> (r: bool)
        ensures
            r == (self@ is Nil),
    {
        match self {
            Doc::Nil => true,
            _ => false,
        }
    }
}

/// `cat` on documents.
pub fn concat_docs<A>(x: Doc<A>, y: Doc<A>) -> (r: Doc<A>)
    ensures
        r@ == cat(x@, y@),
{
    if x.is_nil() {
        y
    } else if y.is_nil() {
        x
    } else {
        Doc::Append(Rc::new(x), Rc::new(y))
    }
}

/// `nested` on documents.
pub fn nest_doc<A>(k: isize, d: Doc<A>) -> (r: Doc<A>)
    ensures
        r@ == nested(k as int, d@),
{
    if d.is_nil() || k == 0 {
        d
    } else {
        Doc::Nest(k, Rc::new(d))
    }
}

fn clamp_to_usize(n: i128) -> (r: usize)
    requires
        in_span(n as int),
    ensures
        r == clamp_usize(n as int),
{
    if n < 0 {
        0
    } else {
        n as usize
    }
}

impl<A> ColumnFn<A> {
    /// Evaluates the function at `n`.
    pub fn apply(&self, n: i128) -> (r: Doc<A>)
        requires
            in_span(n as int),
        ensures
            r@ == apply(self@, n as int),
        decreases self,
    {
        match self {
            ColumnFn::Show(b, a) => {
                let t = Doc::Text(decimal_string(n));
                assert(t@ == DocV::<A>::Text(decimal(n as int)));
                let tail = concat_docs(t, a.share());
                assert(tail@ == cat(DocV::Text(decimal(n as int)), doc_view(**a)));
                concat_docs(b.share(), tail)
            },
            ColumnFn::Align(d) => {
                let c = clamp_to_usize(n);
                let g = ColumnFn::AlignTo(c, d.clone());
                assert(g@ == FnV::AlignTo(c as int, Box::new(doc_view(**d))));
                Doc::Nesting(Rc::new(g))
            },
            ColumnFn::AlignTo(c, d) => {
                let k: i128 = *c as i128 - n;
                let k2: isize = if k < isize::MIN as i128 {
                    isize::MIN
                } else if k > isize::MAX as i128 {
                    isize::MAX
                } else {
                    k as isize
                };
                nest_doc(k2, d.share())
            },
            ColumnFn::Measure(d, g) => {
                let start = clamp_to_usize(n);
                let h = ColumnFn::MeasureFrom(start, g.clone());
                assert(h@ == FnV::MeasureFrom(start as int, Box::new(fn_view(**g))));
                let m = Doc::Column(Rc::new(h));
                concat_docs(d.share(), m)
            },
            ColumnFn::MeasureFrom(s, g) => {
                let k: i128 = n - *s as i128;
                let k2: i128 = if k < -(usize::MAX as i128) {
                    -(usize::MAX as i128)
                } else {
                    k
                };
                g.apply(k2)
            },
        }
    }
}

} // verus!
