use crate::doc::{Doc, DocV};
use crate::render::{best, emits_view, layout, Emit, EmitV};
use vstd::prelude::*;
use vstd::string::*;
use vstd::utf8::encode_utf8;

verus! {

/// `n` spaces.
pub open spec fn spaces(n: nat) -> Seq<char> {
    Seq::new(n, |i: int| ' ')
}

/// The characters that an output event stands for: a text run as it is, a
/// line break as a newline and the indent in spaces, annotation bounds as
/// nothing.
pub open spec fn emit_text<A>(e: EmitV<A>) -> Seq<char> {
    match e {
        EmitV::Text(s) => s,
        EmitV::Newline(n) => seq!['\n'] + spaces(n as nat),
        EmitV::Push(_) => seq![],
        EmitV::Pop => seq![],
    }
}

/// The characters of a sequence of output events.
pub open spec fn text_of<A>(s: Seq<EmitV<A>>) -> Seq<char>
    decreases s.len(),
{
    if s.len() == 0 {
        seq![]
    } else {
        text_of(s.drop_last()) + emit_text(s.last())
    }
}

/// The UTF-8 bytes of a sequence of output events.
pub open spec fn bytes_of<A>(s: Seq<EmitV<A>>) -> Seq<u8>
    decreases s.len(),
{
    if s.len() == 0 {
        seq![]
    } else {
        bytes_of(s.drop_last()) + encode_utf8(emit_text(s.last()))
    }
}

/// The text of `d` rendered at page width `width`.
pub open spec fn rendered<A>(d: DocV<A>, width: int) -> Seq<char> {
    text_of(layout(d, width))
}

/// The characters of one output event.
fn event_string<A>(e: &Emit<A>) -> (r: String)
    ensures
        r@ == emit_text(emit_view_of(e)),
{
    match e {
        Emit::Text(s) => s.clone(),
        Emit::Newline(n) => {
            let mut r = String::new();
            proof {
                reveal_strlit("\n");
                reveal_strlit(" ");
            }
            r.append("\n");
            let mut i: usize = 0;
            while i < *n
                invariant
                    i <= *n,
                    r@ == seq!['\n'] + spaces(i as nat),
                decreases *n - i,
            {
                proof {
                    reveal_strlit(" ");
                }
                r.append(" ");
                assert(seq!['\n'] + spaces((i + 1) as nat) =~= seq!['\n'] + spaces(i as nat) + seq![' ']);
                i = i + 1;
            }
            r
        },
        Emit::Push(_) => String::new(),
        Emit::Pop => String::new(),
    }
}

pub open spec fn emit_view_of<A>(e: &Emit<A>) -> EmitV<A> {
    crate::render::emit_view(*e)
}

/// Appends the characters of `events` to `out`.
pub fn write_text<A>(events: &Vec<Emit<A>>, out: &mut String)
    ensures
        final(out)@ == old(out)@ + text_of(emits_view(events@)),
{
    let mut i: usize = 0;
    while i < events.len()
        invariant
            i <= events@.len(),
            out@ == old(out)@ + text_of(emits_view(events@.subrange(0, i as int))),
        decreases events@.len() - i,
    {
        let t = event_string(&events[i]);
        out.append(t.as_str());
        proof {
            let s1 = emits_view(events@.subrange(0, i as int));
            let s2 = emits_view(events@.subrange(0, i + 1));
            assert(s2.drop_last() =~= s1);
            assert(s2.last() == crate::render::emit_view(events@[i as int]));
            assert(old(out)@ + text_of(s1) + t@ =~= old(out)@ + (text_of(s1) + t@));
        }
        i = i + 1;
    }
    proof {
        assert(events@.subrange(0, i as int) =~= events@);
    }
}

/// Appends the UTF-8 bytes of `events` to `out`.
pub fn write_bytes<A>(events: &Vec<Emit<A>>, out: &mut Vec<u8>)
    ensures
        final(out)@ == old(out)@ + bytes_of(emits_view(events@)),
{
    let mut i: usize = 0;
    while i < events.len()
        invariant
            i <= events@.len(),
            out@ == old(out)@ + bytes_of(emits_view(events@.subrange(0, i as int))),
        decreases events@.len() - i,
    {
        let t = event_string(&events[i]);
        let bytes = t.as_str().as_bytes();
        let ghost before = out@;
        let mut j: usize = 0;
        while j < bytes.len()
            invariant
                j <= bytes@.len(),
                out@ == before + bytes@.subrange(0, j as int),
            decreases bytes@.len() - j,
        {
            out.push(bytes[j]);
            assert(bytes@.subrange(0, j + 1) =~= bytes@.subrange(0, j as int).push(bytes@[j as int]));
            j = j + 1;
        }
        proof {
            assert(bytes@.subrange(0, j as int) =~= bytes@);
            let s1 = emits_view(events@.subrange(0, i as int));
            let s2 = emits_view(events@.subrange(0, i + 1));
            assert(s2.drop_last() =~= s1);
            assert(s2.last() == crate::render::emit_view(events@[i as int]));
            assert(old(out)@ + bytes_of(s1) + bytes@ =~= old(out)@ + (bytes_of(s1) + bytes@));
        }
        i = i + 1;
    }
    proof {
        assert(events@.subrange(0, i as int) =~= events@);
    }
}

/// A document together with a page width, ready to be turned into text.
pub struct Pretty<'d, A> {
    pub doc: &'d Doc<A>,
    pub width: usize,
}

impl<'d, A> Pretty<'d, A> {
    /// The text of the document rendered at the page width.
    pub fn to_string(&self) -> (r: String)
        ensures
            r@ == rendered(self.doc@, self.width as int),
    {
        let mut s = String::new();
        self.doc.render_fmt(self.width, &mut s);
        s
    }
}

impl<A> Doc<A> {
    /// Appends the UTF-8 bytes of the document rendered at page width `width`
    /// to `out`.
    pub fn render(&self, width: usize, out: &mut Vec<u8>)
        ensures
            final(out)@ == old(out)@ + bytes_of(layout(self@, width as int)),
    {
        let events = best(self, width);
        write_bytes(&events, out);
    }

    /// Appends the text of the document rendered at page width `width` to
    /// `out`.
    pub fn render_fmt(&self, width: usize, out: &mut String)
        ensures
            final(out)@ == old(out)@ + rendered(self@, width as int),
    {
        let events = best(self, width);
        write_text(&events, out);
    }

    /// The output events of the document rendered at page width `width`, for
    /// an output that handles annotations.
    pub fn render_raw(&self, width: usize) -> (r: Vec<Emit<A>>)
        ensures
            emits_view(r@) == layout(self@, width as int),
    {
        best(self, width)
    }

    /// The document with a page width, to be turned into text.
    pub fn pretty<'d>(&'d self, width: usize) -> (r: Pretty<'d, A>)
        ensures
            r.doc == self,
            r.width == width,
    {
        Pretty { doc: self, width }
    }
}

} // verus!
