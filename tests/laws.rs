use pretty::{ColumnFn, Doc};
use std::rc::Rc;

fn show(doc: &Doc<()>, width: usize) -> String {
    let mut s = String::new();
    doc.render_fmt(width, &mut s);
    s
}

fn stripped(s: &str) -> String {
    s.chars().filter(|c| *c != ' ' && *c != '\n').collect()
}

fn sample() -> Doc<()> {
    Doc::text("fn")
        .append(Doc::line())
        .append(Doc::text("f(a,"))
        .append(Doc::line().append(Doc::text("b)")).nest(4))
        .group()
        .append(Doc::softline())
        .append(Doc::text("{"))
        .append(Doc::line().append(Doc::text("body")).nest(2).group())
        .append(Doc::line_())
        .append(Doc::text("}"))
}

#[test]
fn text_is_the_same_at_every_width() {
    let doc = sample();
    let wide = show(&doc, 200);
    assert_eq!(stripped(&wide), "fnf(a,b){body}");
    for w in [0usize, 3, 8, 12, 20] {
        let out = show(&doc, w);
        assert_eq!(stripped(&out), stripped(&wide));
    }
    assert_ne!(show(&doc, 3), wide);
}

#[test]
fn nil_on_either_side_changes_nothing() {
    for w in [2usize, 80] {
        let d = show(&sample(), w);
        assert_eq!(show(&Doc::nil().append(sample()), w), d);
        assert_eq!(show(&sample().append(Doc::nil()), w), d);
    }
}

#[test]
fn append_is_associative_in_output() {
    let a = || Doc::text("aa").append(Doc::line()).group();
    let b = || Doc::text("bbb").append(Doc::line()).nest(2);
    let c = || Doc::text("c").append(Doc::softline()).append(Doc::text("dd"));
    for w in [1usize, 4, 6, 80] {
        let left: Doc<()> = a().append(b()).append(c());
        let right: Doc<()> = a().append(b().append(c()));
        assert_eq!(show(&left, w), show(&right, w));
    }
}

#[test]
fn flat_group_stays_flat_when_wider() {
    let doc: Doc<()> = Doc::text("test")
        .append(Doc::line())
        .append(Doc::text("test"))
        .group();
    assert!(!show(&doc, 9).contains('\n'));
    for w in [9usize, 10, 50, usize::MAX] {
        assert_eq!(show(&doc, w), "test test");
    }
}

#[test]
fn hard_line_inside_group_survives() {
    let doc: Doc<()> = Doc::text("a")
        .append(Doc::hardline().nest(2))
        .append(Doc::text("b"))
        .group();
    assert_eq!(show(&doc, 1000), "a\n  b");
    let soft: Doc<()> = Doc::text("a").append(Doc::line()).append(Doc::text("b")).group();
    assert!(!show(&soft, 1000).contains('\n'));
}

#[test]
fn column_after_a_line_break() {
    let f = ColumnFn::Show(Rc::new(Doc::nil()), Rc::new(Doc::nil()));
    let doc: Doc<()> = Doc::text("abc")
        .append(Doc::hardline())
        .append(Doc::text("xy"))
        .append(Doc::column(f));
    assert_eq!(show(&doc, 80), "abc\nxy2");
}

#[test]
fn nesting_matches_line_indent() {
    let f = ColumnFn::Show(Rc::new(Doc::hardline()), Rc::new(Doc::nil()));
    let doc: Doc<()> = Doc::text("x").append(Doc::nesting(f).nest(3));
    assert_eq!(show(&doc, 80), "x\n   3");
}
