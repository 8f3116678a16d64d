use pretty::{best, BuildDoc, ColumnFn, Doc, DocBuilder, Emit};
use std::rc::Rc;

fn show(doc: &Doc<()>, width: usize) -> String {
    let mut s = String::new();
    doc.render_fmt(width, &mut s);
    s
}

fn builder(doc: Doc<()>) -> DocBuilder<()> {
    DocBuilder(BuildDoc::Doc(doc))
}

#[test]
fn box_doc_inference() {
    let doc: Doc<()> = Doc::group(
        Doc::text("test")
            .append(Doc::line())
            .append(Doc::text("test")),
    );

    assert_eq!(show(&doc, 70), "test test");
}

#[test]
fn newline_in_text() {
    let doc: Doc<()> = Doc::group(
        Doc::text("test").append(
            Doc::line()
                .append(Doc::text("\"test\n     test\""))
                .nest(4),
        ),
    );

    assert_eq!(show(&doc, 5), "test\n    \"test\n     test\"");
}

#[test]
fn forced_newline() {
    let doc: Doc<()> = Doc::group(
        Doc::text("test")
            .append(Doc::hardline())
            .append(Doc::text("test")),
    );

    assert_eq!(show(&doc, 70), "test\ntest");
}

#[test]
fn space_do_not_reset_pos() {
    let doc: Doc<()> = Doc::group(Doc::text("test").append(Doc::line()))
        .append(Doc::text("test"))
        .append(Doc::group(Doc::line()).append(Doc::text("test")));

    assert_eq!(show(&doc, 9), "test test\ntest");
}

#[test]
fn newline_does_not_cause_next_line_to_be_to_long() {
    let doc: Doc<()> = Doc::group(
        Doc::text("test").append(Doc::hardline()).append(
            Doc::text("test")
                .append(Doc::line())
                .append(Doc::text("test")),
        ),
    );

    assert_eq!(show(&doc, 6), "test\ntest\ntest");
}

#[test]
fn newline_after_group_does_not_affect_it() {
    let doc: Doc<()> = Doc::text("x")
        .append(Doc::line())
        .append(Doc::text("y"))
        .group();

    assert_eq!(show(&doc.append(Doc::hardline()), 100), "x y\n");
}

#[test]
fn block() {
    let doc: Doc<()> = Doc::group(
        Doc::text("{")
            .append(
                Doc::line()
                    .append(Doc::text("test"))
                    .append(Doc::line())
                    .append(Doc::text("test"))
                    .nest(2),
            )
            .append(Doc::line())
            .append(Doc::text("}")),
    );

    assert_eq!(show(&doc, 5), "{\n  test\n  test\n}");
}

#[test]
fn line_comment() {
    let doc: Doc<()> = Doc::group(
        Doc::text("{")
            .append(
                Doc::line()
                    .append(Doc::text("test"))
                    .append(Doc::line())
                    .append(Doc::text("// a").append(Doc::hardline()))
                    .append(Doc::text("test"))
                    .nest(2),
            )
            .append(Doc::line())
            .append(Doc::text("}")),
    );

    assert_eq!(show(&doc, 14), "{\n  test\n  // a\n  test\n}");
}

#[test]
fn annotation_no_panic() {
    let doc: Doc<()> = Doc::group(
        Doc::text("test")
            .annotate(())
            .append(Doc::hardline())
            .annotate(())
            .append(Doc::text("test")),
    );

    assert_eq!(show(&doc, 70), "test\ntest");
}

fn tuple(line: Doc<()>) -> Doc<()> {
    line.append(Doc::text("x").append(Doc::text(",")).group())
        .append(Doc::line())
        .append(Doc::text("1234567890").append(Doc::text(",")).group())
        .nest(2)
        .append(Doc::line_())
        .append(Doc::text(")"))
}

fn from() -> Doc<()> {
    Doc::text("let")
        .append(Doc::line())
        .append(Doc::text("x"))
        .append(Doc::line())
        .append(Doc::text("="))
        .group()
}

#[test]
fn union() {
    let single = from()
        .append(Doc::line())
        .append(Doc::text("("))
        .group()
        .append(tuple(Doc::line_()))
        .group();

    let hang = from()
        .append(Doc::line())
        .append(Doc::text("("))
        .group()
        .append(tuple(Doc::hardline()))
        .group();

    let break_all = from()
        .append(Doc::line())
        .append(Doc::text("("))
        .append(tuple(Doc::line()))
        .group()
        .nest(2);

    let doc = Doc::group(single.union(hang.union(break_all)));

    assert_eq!(show(&doc, 70), "let x = (x, 1234567890,)");
    assert_eq!(show(&doc, 8), "let x =\n  (\n    x,\n    1234567890,\n  )");
    assert_eq!(show(&doc, 14), "let x = (\n  x,\n  1234567890,\n)");
}

#[test]
fn usize_max_value() {
    let doc: Doc<()> = Doc::group(
        Doc::text("test")
            .append(Doc::line())
            .append(Doc::text("test")),
    );

    assert_eq!(show(&doc, usize::MAX), "test test");
}

#[test]
fn column_sees_its_column() {
    let f = ColumnFn::Show(Rc::new(Doc::text("| <- column ")), Rc::new(Doc::nil()));
    let doc: Doc<()> = Doc::text("prefix ").append(Doc::column(f));

    assert_eq!(show(&doc, 80), "prefix | <- column 7");
}

#[test]
fn nesting_sees_its_indent() {
    let f = ColumnFn::Show(Rc::new(Doc::text("[Nested: ")), Rc::new(Doc::text("]")));
    let doc: Doc<()> = Doc::text("prefix ").append(Doc::nesting(f).nest(4));

    assert_eq!(show(&doc, 80), "prefix [Nested: 4]");
}

#[test]
fn group_fits_at_ten() {
    let doc: Doc<()> = Doc::text("test")
        .append(Doc::line())
        .append(Doc::text("test"))
        .group();

    assert_eq!(show(&doc, 10), "test test");
    assert_eq!(show(&doc, 5), "test\ntest");
}

#[test]
fn align_lines_up_with_start() {
    let words = Doc::intersperse(vec![Doc::text("ipsum"), Doc::text("dolor")], Doc::line_());
    let doc: Doc<()> = Doc::text("lorem")
        .append(Doc::text(" "))
        .append(builder(words).align().into_doc());

    assert_eq!(show(&doc, 80), "lorem ipsum\n      dolor");
}

#[test]
fn hang_indents_later_lines() {
    let words = Doc::intersperse(
        vec![
            Doc::text("Indenting"),
            Doc::text("these"),
            Doc::text("words"),
            Doc::text("with"),
            Doc::text("nest"),
        ],
        Doc::softline(),
    );
    let doc: Doc<()> = Doc::text("prefix")
        .append(Doc::text(" "))
        .append(builder(words).hang(4).into_doc());

    assert_eq!(show(&doc, 24), "prefix Indenting these\n           words with\n           nest");
}

#[test]
fn indent_puts_spaces_then_hangs() {
    let words = Doc::intersperse(vec![Doc::text("ab"), Doc::text("cd")], Doc::line());
    let doc: Doc<()> = Doc::text("x").append(builder(words).indent(2).into_doc());

    assert_eq!(show(&doc, 80), "x  ab\n     cd");
}

#[test]
fn width_measures_the_document() {
    let f = ColumnFn::Show(Rc::new(Doc::text("=")), Rc::new(Doc::nil()));
    let doc: Doc<()> = builder(Doc::text("abc")).width(f).into_doc();

    assert_eq!(show(&doc, 80), "abc=3");
}

#[test]
fn width_of_a_broken_document_is_negative() {
    let f = ColumnFn::Show(Rc::new(Doc::text(" ")), Rc::new(Doc::nil()));
    let inner = Doc::text("abcd").append(Doc::hardline()).append(Doc::text("x"));
    let doc: Doc<()> = Doc::text("ab").append(builder(inner).width(f).into_doc());

    assert_eq!(show(&doc, 80), "ababcd\nx -1");
}

#[test]
fn enclosing_wrappers() {
    let d = || builder(Doc::text("a"));
    assert_eq!(show(&d().single_quotes().into_doc(), 80), "'a'");
    assert_eq!(show(&d().double_quotes().into_doc(), 80), "\"a\"");
    assert_eq!(show(&d().parens().into_doc(), 80), "(a)");
    assert_eq!(show(&d().angles().into_doc(), 80), "<a>");
    assert_eq!(show(&d().braces().into_doc(), 80), "{a}");
    assert_eq!(show(&d().brackets().into_doc(), 80), "[a]");
    let e = d().enclose(builder(Doc::text("<<")), builder(Doc::text(">>")));
    assert_eq!(show(&e.into_doc(), 80), "<<a>>");
}

#[test]
fn as_string_writes_decimal() {
    assert_eq!(show(&Doc::as_string(-42), 80), "-42");
    assert_eq!(show(&Doc::as_string(0), 80), "0");
    assert_eq!(show(&Doc::as_string(1234567), 80), "1234567");
}

#[test]
fn concat_and_nil_neutrality() {
    let doc: Doc<()> = Doc::concat(vec![Doc::text("a"), Doc::nil(), Doc::text("b"), Doc::text("c")]);
    assert_eq!(show(&doc, 80), "abc");
    assert!(matches!(Doc::<()>::nil().append(Doc::text("z")), Doc::Text(_)));
    assert!(matches!(Doc::<()>::text("z").append(Doc::nil()), Doc::Text(_)));
    assert!(matches!(Doc::<()>::text("z").nest(0), Doc::Text(_)));
    assert!(matches!(Doc::<()>::nil().nest(3), Doc::Nil));
    assert_eq!(show(&Doc::concat(vec![]), 80), "");
}

#[test]
fn width_zero_breaks_every_group() {
    let doc: Doc<()> = Doc::text("a")
        .append(Doc::line())
        .append(Doc::text("b"))
        .group();
    assert_eq!(show(&doc, 0), "a\nb");
    let empty: Doc<()> = Doc::nil().group();
    assert_eq!(show(&empty, 0), "");
}

#[test]
fn render_writes_utf8_bytes() {
    let doc: Doc<()> = Doc::text("héllo")
        .append(Doc::line())
        .append(Doc::text("wörld"))
        .group();
    let mut out = Vec::new();
    doc.render(5, &mut out);
    assert_eq!(String::from_utf8(out).unwrap(), "héllo\nwörld");
    assert_eq!(show(&doc, 11), "héllo wörld");
}

#[test]
fn annotations_are_balanced_and_nested() {
    let doc: Doc<u8> = Doc::text("a")
        .annotate(1)
        .append(Doc::text("b").annotate(2).annotate(3))
        .group();
    let events = best(&doc, 80);
    let mut tags = Vec::new();
    let mut depth: i32 = 0;
    for e in &events {
        match e {
            Emit::Push(a) => {
                depth += 1;
                tags.push(format!("+{}", a));
            }
            Emit::Pop => {
                depth -= 1;
                assert!(depth >= 0);
                tags.push("-".to_string());
            }
            Emit::Text(s) => tags.push(s.clone()),
            Emit::Newline(n) => tags.push(format!("nl{}", n)),
        }
    }
    assert_eq!(depth, 0);
    assert_eq!(tags, vec!["+1", "a", "-", "+3", "+2", "b", "-", "-"]);
    assert_eq!(doc.render_raw(80).len(), events.len());
    let r = Rc::new(5u8);
    assert!(matches!(Emit::Push(r), Emit::Push(_)));
}

#[test]
fn pretty_to_string() {
    let doc: Doc<()> = Doc::text("hello")
        .append(Doc::line())
        .append(Doc::text("world"))
        .group();
    assert_eq!(doc.pretty(80).to_string(), "hello world");
    assert_eq!(doc.pretty(5).to_string(), "hello\nworld");
}

#[test]
fn flat_alt_picks_by_mode() {
    let body = || Doc::line().append(Doc::text("x"));
    let doc: Doc<()> = Doc::text("let")
        .append(Doc::line())
        .append(Doc::text("x"))
        .group()
        .append(body().flat_alt(Doc::line().append(Doc::text("in")).append(body())))
        .group();

    assert_eq!(show(&doc, 100), "let x in x");
    assert_eq!(show(&doc, 8), "let x\nx");
}

#[test]
fn line_nil_in_flat_mode() {
    let doc: Doc<()> = Doc::group(
        Doc::text("(")
            .append(
                Doc::line_()
                    .append(Doc::text("test"))
                    .append(Doc::line())
                    .append(Doc::text("test"))
                    .nest(2),
            )
            .append(Doc::line_())
            .append(Doc::text(")")),
    );
    assert_eq!(show(&doc, 5), "(\n  test\n  test\n)");
    assert_eq!(show(&doc, 100), "(test test)");
}

#[test]
fn softline_underscore_vanishes_when_it_fits() {
    let doc: Doc<()> = Doc::text("ab").append(Doc::softline_()).append(Doc::text("cd"));
    assert_eq!(show(&doc, 80), "abcd");
    assert_eq!(show(&doc, 3), "ab\ncd");
}

#[test]
fn reflow_breaks_where_the_text_had_spaces() {
    let doc: Doc<()> = Doc::text("prefix")
        .append(Doc::text(" "))
        .append(builder(Doc::reflow("Indenting these words with nest")).hang(4).into_doc());
    assert_eq!(show(&doc, 24), "prefix Indenting these\n           words with\n           nest");
    let wide: Doc<()> = Doc::reflow("a  b\tc");
    assert_eq!(show(&wide, 80), "a  b c");
    assert_eq!(show(&Doc::<()>::reflow(""), 80), "");
}

#[test]
fn debug_names_the_variant() {
    let doc: Doc<()> = Doc::text("a").group();
    assert!(format!("{:?}", doc).starts_with("Group"));
}
