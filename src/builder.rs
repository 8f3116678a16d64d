use crate::doc::{
    cat, concat_docs, decimal, decimal_string, nested, ColumnFn, Doc, DocV, FnV,
};
use crate::output::spaces;
use std::rc::Rc;
use vstd::prelude::*;
use vstd::string::*;

verus! {

/// Either a document held behind a shared pointer, or a document held by
/// value that has not been put behind one yet.
pub enum BuildDoc<A> {
    DocPtr(Rc<Doc<A>>),
    Doc(Doc<A>),
}

impl<A> View for BuildDoc<A> {
    type V = DocV<A>;

    open spec fn view(&self) -> DocV<A> {
        match self {
            BuildDoc::DocPtr(d) => (**d)@,
            BuildDoc::Doc(d) => d@,
        }
    }
}

impl<A> BuildDoc<A> {
    /// The document behind a shared pointer, allocating one if needed.
    pub fn into_ptr(self) -> (r: Rc<Doc<A>>)
        ensures
            (*r)@ == self@,
    {
        match self {
            BuildDoc::DocPtr(d) => d,
            BuildDoc::Doc(d) => Rc::new(d),
        }
    }

    /// The document by value; a shared one is copied one level deep.
    pub fn into_value(self) -> (r: Doc<A>)
        ensures
            r@ == self@,
    {
        match self {
            BuildDoc::DocPtr(d) => d.share(),
            BuildDoc::Doc(d) => d,
        }
    }

    pub fn is_nil(&self) -> (r: bool)
        ensures
            r == (self@ is Nil),
    {
        match self {
            BuildDoc::DocPtr(d) => d.is_nil(),
            BuildDoc::Doc(d) => d.is_nil(),
        }
    }
}

/// A document under construction, with the combinators that extend it.
pub struct DocBuilder<A>(pub BuildDoc<A>);

impl<A> View for DocBuilder<A> {
    type V = DocV<A>;

    open spec fn view(&self) -> DocV<A> {
        self.0@
    }
}

/// `align(d)`: `d` with its nesting set to the column where it starts.
pub open spec fn aligned<A>(d: DocV<A>) -> DocV<A> {
    DocV::Column(Box::new(FnV::Align(Box::new(d))))
}

/// `hang(k, d)`: `d` aligned, with `k` more nesting.
pub open spec fn hung<A>(k: int, d: DocV<A>) -> DocV<A> {
    aligned(nested(k, d))
}

/// `k` spaces of text, then `d` hung by `k`.
pub open spec fn indented<A>(k: nat, d: DocV<A>) -> DocV<A> {
    cat(DocV::Text(spaces(k)), hung(k as int, d))
}

/// `d` between `before` and `after`.
pub open spec fn enclosed<A>(before: DocV<A>, d: DocV<A>, after: DocV<A>) -> DocV<A> {
    cat(cat(before, d), after)
}

pub open spec fn single_chars(c: char) -> Seq<char> {
    seq![c]
}

/// A text of one character.
pub open spec fn single<A>(c: char) -> DocV<A> {
    DocV::Text(single_chars(c))
}

/// A string of `k` spaces.
fn space_string(k: usize) -> (r: String)
    ensures
        r@ == spaces(k as nat),
{
    let mut r = String::new();
    let mut i: usize = 0;
    while i < k
        invariant
            i <= k,
            r@ == spaces(i as nat),
        decreases k - i,
    {
        proof {
            reveal_strlit(" ");
        }
        r.append(" ");
        assert(spaces((i + 1) as nat) =~= spaces(i as nat) + seq![' ']);
        i = i + 1;
    }
    r
}

/// The text `c`, a string literal of one character.
fn char_text<A>(c: &str) -> (r: DocBuilder<A>)
    ensures
        r@ == DocV::<A>::Text(c@),
{
    DocBuilder(BuildDoc::Doc(Doc::Text(String::from_str(c))))
}

impl<A> DocBuilder<A> {
    /// Appends `that` after this document. An empty document on either side
    /// is dropped.
    pub fn append(self, that: DocBuilder<A>) -> (r: DocBuilder<A>)
        ensures
            r@ == cat(self@, that@),
    {
        let this = self.0;
        let that = that.0;
        if this.is_nil() {
            DocBuilder(that)
        } else if that.is_nil() {
            DocBuilder(this)
        } else {
            DocBuilder(BuildDoc::Doc(Doc::Append(this.into_ptr(), that.into_ptr())))
        }
    }

    /// This document where lines break, `that` where the layout is flat.
    pub fn flat_alt(self, that: DocBuilder<A>) -> (r: DocBuilder<A>)
        ensures
            r@ == DocV::FlatAlt(Box::new(self@), Box::new(that@)),
    {
        DocBuilder(BuildDoc::Doc(Doc::FlatAlt(self.0.into_ptr(), that.0.into_ptr())))
    }

    /// Marks this document as a group: laid out flat when it fits.
    pub fn group(self) -> (r: DocBuilder<A>)
        ensures
            r@ == DocV::Group(Box::new(self@)),
    {
        DocBuilder(BuildDoc::Doc(Doc::Group(self.0.into_ptr())))
    }

    /// Adds `offset` to the indent of this document. A zero offset or an
    /// empty document is left as it is.
    pub fn nest(self, offset: isize) -> (r: DocBuilder<A>)
        ensures
            r@ == nested(offset as int, self@),
    {
        if self.0.is_nil() || offset == 0 {
            return self;
        }
        DocBuilder(BuildDoc::Doc(Doc::Nest(offset, self.0.into_ptr())))
    }

    /// Marks this document with the annotation `ann`.
    pub fn annotate(self, ann: A) -> (r: DocBuilder<A>)
        ensures
            r@ == DocV::Annotated(ann, Box::new(self@)),
    {
        DocBuilder(BuildDoc::Doc(Doc::Annotated(Rc::new(ann), self.0.into_ptr())))
    }

    /// This document when its first line fits, `other` otherwise. The first
    /// line of this document should be no shorter than that of `other`.
    pub fn union(self, other: DocBuilder<A>) -> (r: DocBuilder<A>)
        ensures
            r@ == DocV::Union(Box::new(self@), Box::new(other@)),
    {
        DocBuilder(BuildDoc::Doc(Doc::Union(self.0.into_ptr(), other.0.into_ptr())))
    }

    /// Lays out this document with its nesting set to the column where it
    /// starts.
    pub fn align(self) -> (r: DocBuilder<A>)
        ensures
            r@ == aligned(self@),
    {
        let f = ColumnFn::Align(self.0.into_ptr());
        assert(f@ == FnV::Align(Box::new(self@)));
        DocBuilder(BuildDoc::Doc(Doc::Column(Rc::new(f))))
    }

    /// Lays out this document aligned, with `adjust` more nesting.
    pub fn hang(self, adjust: isize) -> (r: DocBuilder<A>)
        ensures
            r@ == hung(adjust as int, self@),
    {
        self.nest(adjust).align()
    }

    /// `adjust` spaces, then this document hung by `adjust`.
    pub fn indent(self, adjust: usize) -> (r: DocBuilder<A>)
        requires
            adjust <= isize::MAX,
        ensures
            r@ == indented(adjust as nat, self@),
    {
        let spaces = DocBuilder(BuildDoc::Doc(Doc::Text(space_string(adjust))));
        spaces.append(self.hang(adjust as isize))
    }

    /// This document followed by `f` applied to the number of columns that
    /// the document took.
    pub fn width(self, f: ColumnFn<A>) -> (r: DocBuilder<A>)
        ensures
            r@ == DocV::Column(Box::new(FnV::Measure(Box::new(self@), Box::new(f@)))),
    {
        let g = ColumnFn::Measure(self.0.into_ptr(), Rc::new(f));
        assert(g@ == FnV::Measure(Box::new(self@), Box::new(f@)));
        DocBuilder(BuildDoc::Doc(Doc::Column(Rc::new(g))))
    }

    /// This document between `before` and `after`.
    pub fn enclose(self, before: DocBuilder<A>, after: DocBuilder<A>) -> (r: DocBuilder<A>)
        ensures
            r@ == enclosed(before@, self@, after@),
    {
        before.append(self).append(after)
    }

    pub fn single_quotes(self) -> (r: DocBuilder<A>)
        ensures
            r@ == enclosed(single('\''), self@, single('\'')),
    {
        let before = char_text("'");
        let after = char_text("'");
        proof {
            reveal_strlit("'");
            assert("'"@ =~= single_chars('\''));
        }
        self.enclose(before, after)
    }

    pub fn double_quotes(self) -> (r: DocBuilder<A>)
        ensures
            r@ == enclosed(single('"'), self@, single('"')),
    {
        let before = char_text("\"");
        let after = char_text("\"");
        proof {
            reveal_strlit("\"");
            assert("\""@ =~= single_chars('"'));
        }
        self.enclose(before, after)
    }

    pub fn parens(self) -> (r: DocBuilder<A>)
        ensures
            r@ == enclosed(single('('), self@, single(')')),
    {
        let before = char_text("(");
        let after = char_text(")");
        proof {
            reveal_strlit("(");
            reveal_strlit(")");
            assert("("@ =~= single_chars('('));
            assert(")"@ =~= single_chars(')'));
        }
        self.enclose(before, after)
    }

    pub fn angles(self) -> (r: DocBuilder<A>)
        ensures
            r@ == enclosed(single('<'), self@, single('>')),
    {
        let before = char_text("<");
        let after = char_text(">");
        proof {
            reveal_strlit("<");
            reveal_strlit(">");
            assert("<"@ =~= single_chars('<'));
            assert(">"@ =~= single_chars('>'));
        }
        self.enclose(before, after)
    }

    pub fn braces(self) -> (r: DocBuilder<A>)
        ensures
            r@ == enclosed(single('{'), self@, single('}')),
    {
        let before = char_text("{");
        let after = char_text("}");
        proof {
            reveal_strlit("{");
            reveal_strlit("}");
            assert("{"@ =~= single_chars('{'));
            assert("}"@ =~= single_chars('}'));
        }
        self.enclose(before, after)
    }

    pub fn brackets(self) -> (r: DocBuilder<A>)
        ensures
            r@ == enclosed(single('['), self@, single(']')),
    {
        let before = char_text("[");
        let after = char_text("]");
        proof {
            reveal_strlit("[");
            reveal_strlit("]");
            assert("["@ =~= single_chars('['));
            assert("]"@ =~= single_chars(']'));
        }
        self.enclose(before, after)
    }

    /// The finished document.
    pub fn into_doc(self) -> (r: Doc<A>)
        ensures
            r@ == self@,
    {
        self.0.into_value()
    }
}

/// `line`: a line break, or a space where the layout is flat.
pub open spec fn line_doc<A>() -> DocV<A> {
    DocV::FlatAlt(Box::new(DocV::Line), Box::new(single(' ')))
}

/// `line_`: a line break, or nothing where the layout is flat.
pub open spec fn line_nil_doc<A>() -> DocV<A> {
    DocV::FlatAlt(Box::new(DocV::Line), Box::new(DocV::Nil))
}

pub open spec fn docs_view<A>(s: Seq<Doc<A>>) -> Seq<DocV<A>> {
    s.map_values(|d: Doc<A>| d@)
}

/// The documents of `s` appended one after the other, from the left.
pub open spec fn cat_all<A>(s: Seq<DocV<A>>) -> DocV<A>
    decreases s.len(),
{
    if s.len() == 0 {
        DocV::Nil
    } else {
        cat(cat_all(s.drop_last()), s.last())
    }
}

/// The documents of `s` appended from the left, with `sep` between each
/// two of them.
pub open spec fn sep_all<A>(s: Seq<DocV<A>>, sep: DocV<A>) -> DocV<A>
    decreases s.len(),
{
    if s.len() == 0 {
        DocV::Nil
    } else if s.len() == 1 {
        cat(DocV::Nil, s[0])
    } else {
        cat(cat(sep_all(s.drop_last(), sep), sep), s.last())
    }
}

impl<A> Doc<A> {
    fn builder(self) -> (r: DocBuilder<A>)
        ensures
            r@ == self@,
    {
        DocBuilder(BuildDoc::Doc(self))
    }

    /// The empty document.
    pub fn nil() -> (r: Doc<A>)
        ensures
            r@ == DocV::<A>::Nil,
    {
        Doc::Nil
    }

    /// A hard line break.
    pub fn hardline() -> (r: Doc<A>)
        ensures
            r@ == DocV::<A>::Line,
    {
        Doc::Line
    }

    /// The text `data`, which should hold no line break.
    pub fn text(data: &str) -> (r: Doc<A>)
        ensures
            r@ == DocV::<A>::Text(data@),
    {
        Doc::Text(String::from_str(data))
    }

    /// The decimal notation of `data`.
    pub fn as_string(data: i128) -> (r: Doc<A>)
        ensures
            r@ == DocV::<A>::Text(decimal(data as int)),
    {
        Doc::Text(decimal_string(data))
    }

    /// A single space.
    pub fn space() -> (r: Doc<A>)
        ensures
            r@ == single::<A>(' '),
    {
        proof {
            reveal_strlit(" ");
            assert(" "@ =~= single_chars(' '));
        }
        Doc::text(" ")
    }

    /// A line break, or a space where the layout is flat.
    pub fn line() -> (r: Doc<A>)
        ensures
            r@ == line_doc::<A>(),
    {
        Doc::hardline().flat_alt(Doc::space())
    }

    /// A line break, or nothing where the layout is flat.
    pub fn line_() -> (r: Doc<A>)
        ensures
            r@ == line_nil_doc::<A>(),
    {
        Doc::hardline().flat_alt(Doc::nil())
    }

    /// A space if the rest of the line fits, a line break otherwise.
    pub fn softline() -> (r: Doc<A>)
        ensures
            r@ == DocV::Group(Box::new(line_doc::<A>())),
    {
        Doc::line().group()
    }

    /// Nothing if the rest of the line fits, a line break otherwise.
    pub fn softline_() -> (r: Doc<A>)
        ensures
            r@ == DocV::Group(Box::new(line_nil_doc::<A>())),
    {
        Doc::line_().group()
    }

    /// Appends `that` after this document.
    pub fn append(self, that: Doc<A>) -> (r: Doc<A>)
        ensures
            r@ == cat(self@, that@),
    {
        self.builder().append(that.builder()).into_doc()
    }

    /// The documents of `docs` appended one after the other.
    pub fn concat(docs: Vec<Doc<A>>) -> (r: Doc<A>)
        ensures
            r@ == cat_all(docs_view(docs@)),
    {
        let mut acc: Doc<A> = Doc::nil();
        let mut i: usize = 0;
        while i < docs.len()
            invariant
                i <= docs@.len(),
                acc@ == cat_all(docs_view(docs@.subrange(0, i as int))),
            decreases docs@.len() - i,
        {
            let d = docs[i].share();
            proof {
                let s = docs_view(docs@.subrange(0, i + 1));
                assert(s.drop_last() =~= docs_view(docs@.subrange(0, i as int)));
            }
            acc = concat_docs(acc, d);
            i = i + 1;
        }
        proof {
            assert(docs@.subrange(0, i as int) =~= docs@);
        }
        acc
    }

    /// The documents of `docs` with `separator` between each two of them.
    pub fn intersperse(docs: Vec<Doc<A>>, separator: Doc<A>) -> (r: Doc<A>)
        ensures
            r@ == sep_all(docs_view(docs@), separator@),
    {
        if docs.len() == 0 {
            return Doc::nil();
        }
        let mut acc: Doc<A> = concat_docs(Doc::nil(), docs[0].share());
        proof {
            assert(docs_view(docs@.subrange(0, 1)).len() == 1);
        }
        let mut i: usize = 1;
        while i < docs.len()
            invariant
                1 <= i <= docs@.len(),
                acc@ == sep_all(docs_view(docs@.subrange(0, i as int)), separator@),
            decreases docs@.len() - i,
        {
            let d = docs[i].share();
            proof {
                let s = docs_view(docs@.subrange(0, i + 1));
                assert(s.drop_last() =~= docs_view(docs@.subrange(0, i as int)));
            }
            acc = concat_docs(concat_docs(acc, separator.share()), d);
            i = i + 1;
        }
        proof {
            assert(docs@.subrange(0, i as int) =~= docs@);
        }
        acc
    }

    /// This document where lines break, `that` where the layout is flat.
    pub fn flat_alt(self, that: Doc<A>) -> (r: Doc<A>)
        ensures
            r@ == DocV::FlatAlt(Box::new(self@), Box::new(that@)),
    {
        self.builder().flat_alt(that.builder()).into_doc()
    }

    /// Marks this document as a group: laid out flat when it fits.
    pub fn group(self) -> (r: Doc<A>)
        ensures
            r@ == DocV::Group(Box::new(self@)),
    {
        self.builder().group().into_doc()
    }

    /// Adds `offset` to the indent of this document.
    pub fn nest(self, offset: isize) -> (r: Doc<A>)
        ensures
            r@ == nested(offset as int, self@),
    {
        self.builder().nest(offset).into_doc()
    }

    /// Marks this document with the annotation `ann`.
    pub fn annotate(self, ann: A) -> (r: Doc<A>)
        ensures
            r@ == DocV::Annotated(ann, Box::new(self@)),
    {
        self.builder().annotate(ann).into_doc()
    }

    /// This document when its first line fits, `other` otherwise.
    pub fn union(self, other: Doc<A>) -> (r: Doc<A>)
        ensures
            r@ == DocV::Union(Box::new(self@), Box::new(other@)),
    {
        self.builder().union(other.builder()).into_doc()
    }

    /// The document that `f` yields at the column where it starts.
    pub fn column(f: ColumnFn<A>) -> (r: Doc<A>)
        ensures
            r@ == DocV::Column(Box::new(f@)),
    {
        Doc::Column(Rc::new(f))
    }

    /// The document that `f` yields at the nesting where it starts.
    pub fn nesting(f: ColumnFn<A>) -> (r: Doc<A>)
        ensures
            r@ == DocV::Nesting(Box::new(f@)),
    {
        Doc::Nesting(Rc::new(f))
    }
}

/// What the renderer needs from a memory strategy: owned references to
/// subdocuments and to layout functions.
pub trait DocAllocator<A> {
    fn alloc_doc(&self, doc: Doc<A>) -> (r: Rc<Doc<A>>)
        ensures
            (*r)@ == doc@,
    ;

    fn alloc_column_fn(&self, f: ColumnFn<A>) -> (r: Rc<ColumnFn<A>>)
        ensures
            (*r)@ == f@,
    ;
}

/// Allocates each node on its own.
pub struct BoxAllocator;

/// Allocates each node on its own, shared by reference counting.
pub struct RcAllocator;

impl<A> DocAllocator<A> for BoxAllocator {
    fn alloc_doc(&self, doc: Doc<A>) -> (r: Rc<Doc<A>>) {
        Rc::new(doc)
    }

    fn alloc_column_fn(&self, f: ColumnFn<A>) -> (r: Rc<ColumnFn<A>>) {
        Rc::new(f)
    }
}

impl<A> DocAllocator<A> for RcAllocator {
    fn alloc_doc(&self, doc: Doc<A>) -> (r: Rc<Doc<A>>) {
        Rc::new(doc)
    }

    fn alloc_column_fn(&self, f: ColumnFn<A>) -> (r: Rc<ColumnFn<A>>) {
        Rc::new(f)
    }
}

/// The whitespace characters of Unicode, those for which
/// `char::is_whitespace` holds.
pub open spec fn is_space(c: char) -> bool {
    ('\u{9}' <= c && c <= '\u{d}') || c == ' ' || c == '\u{85}' || c == '\u{a0}' || c == '\u{1680}'
        || ('\u{2000}' <= c && c <= '\u{200a}') || c == '\u{2028}' || c == '\u{2029}' || c
        == '\u{202f}' || c == '\u{205f}' || c == '\u{3000}'
}

fn space_char(c: char) -> (r: bool)
    ensures
        r == is_space(c),
{
    ('\u{9}' <= c && c <= '\u{d}') || c == ' ' || c == '\u{85}' || c == '\u{a0}' || c == '\u{1680}'
        || ('\u{2000}' <= c && c <= '\u{200a}') || c == '\u{2028}' || c == '\u{2029}' || c
        == '\u{202f}' || c == '\u{205f}' || c == '\u{3000}'
}

/// The pieces of `s` between its whitespace characters. Two whitespace
/// characters in a row leave an empty piece between them, and an empty `s`
/// is one empty piece.
pub open spec fn words(s: Seq<char>) -> Seq<Seq<char>>
    decreases s.len(),
{
    if s.len() == 0 {
        seq![seq![]]
    } else {
        let w = words(s.drop_last());
        if is_space(s.last()) {
            w.push(seq![])
        } else {
            w.update(w.len() - 1, w.last().push(s.last()))
        }
    }
}

proof fn lemma_words_nonempty(s: Seq<char>)
    ensures
        words(s).len() >= 1,
    decreases s.len(),
{
    if s.len() > 0 {
        lemma_words_nonempty(s.drop_last());
    }
}

/// The pieces as text documents.
pub open spec fn word_docs<A>(w: Seq<Seq<char>>) -> Seq<DocV<A>> {
    w.map_values(|t: Seq<char>| DocV::<A>::Text(t))
}

impl<A> Doc<A> {
    /// The words of `text`, with a `softline` wherever it had whitespace.
    pub fn reflow(text: &str) -> (r: Doc<A>)
        ensures
            r@ == sep_all(word_docs::<A>(words(text@)), DocV::Group(Box::new(line_doc::<A>()))),
    {
        let n = text.unicode_len();
        let mut pieces: Vec<Doc<A>> = Vec::new();
        let mut start: usize = 0;
        let mut i: usize = 0;
        proof {
            assert(text@.subrange(0, 0) =~= Seq::<char>::empty());
            assert(docs_view(pieces@).push(DocV::Text(text@.subrange(0, 0))) =~= word_docs::<A>(
                words(text@.subrange(0, 0)),
            ));
        }
        while i < n
            invariant
                n == text@.len(),
                start <= i <= n,
                docs_view(pieces@).push(DocV::Text(text@.subrange(start as int, i as int)))
                    == word_docs::<A>(words(text@.subrange(0, i as int))),
            decreases n - i,
        {
            let c = text.get_char(i);
            let ghost before = words(text@.subrange(0, i as int));
            proof {
                lemma_words_nonempty(text@.subrange(0, i as int));
                assert(text@.subrange(0, i + 1).drop_last() =~= text@.subrange(0, i as int));
            }
            if space_char(c) {
                let piece = Doc::text(text.substring_char(start, i));
                proof {
                    let now = words(text@.subrange(0, i + 1));
                    assert(now == before.push(seq![]));
                    assert(docs_view(pieces@.push(piece)) =~= docs_view(pieces@).push(piece@));
                    assert(word_docs::<A>(now) =~= word_docs::<A>(before).push(DocV::Text(seq![])));
                    assert(text@.subrange(i + 1, i + 1) =~= Seq::<char>::empty());
                }
                pieces.push(piece);
                start = i + 1;
            } else {
                proof {
                    let now = words(text@.subrange(0, i + 1));
                    let k = before.len() - 1;
                    let pv = docs_view(pieces@).push(DocV::Text(text@.subrange(start as int, i as int)));
                    assert(pv.len() == pieces@.len() + 1);
                    assert(word_docs::<A>(before).len() == before.len());
                    assert(k == pieces@.len());
                    assert(pv[k] == word_docs::<A>(before)[k]);
                    assert(before[k] == text@.subrange(start as int, i as int));
                    assert(text@.subrange(start as int, i + 1) =~= text@.subrange(start as int, i as int).push(c));
                    assert(text@.subrange(0, i + 1).last() == c);
                    assert(now == before.update(k, before[k].push(c)));
                    let goal = docs_view(pieces@).push(DocV::Text(text@.subrange(start as int, i + 1)));
                    assert forall|j: int| 0 <= j < goal.len() implies #[trigger] word_docs::<A>(now)[j]
                        == goal[j] by {
                        if j < k {
                            assert(pv[j] == word_docs::<A>(before)[j]);
                        }
                    }
                    assert(word_docs::<A>(now) =~= goal);
                }
            }
            i = i + 1;
        }
        let last = Doc::text(text.substring_char(start, n));
        proof {
            assert(docs_view(pieces@.push(last)) =~= docs_view(pieces@).push(last@));
            assert(text@.subrange(0, n as int) =~= text@);
        }
        pieces.push(last);
        Doc::intersperse(pieces, Doc::softline())
    }
}

} // verus!
