use cel_fmt::doc::Doc;
use cel_fmt::escape::{escape_bytes, escape_string};
use cel_fmt::formatter::{is_binary_op, is_unary_op, op_precedence};
use cel_fmt::FormatOptions;

fn words(ws: &[&str]) -> Vec<Doc> {
    ws.iter().map(|w| Doc::text(w)).collect()
}

#[test]
fn group_fits_flat() {
    let d = Doc::group(Doc::join(words(&["a", "b", "c"]), Doc::line()));
    assert_eq!(d.render(80, "  "), "a b c");
}

#[test]
fn group_breaks_when_too_wide() {
    let d = Doc::group(Doc::join(words(&["aaa", "bbb", "ccc"]), Doc::line()));
    assert_eq!(d.render(5, "  "), "aaa\nbbb\nccc");
}

#[test]
fn soft_line_vanishes_when_flat() {
    let d = Doc::wrap_parens(Doc::text("x"));
    assert_eq!(d.render(80, "  "), "(x)");
    assert_eq!(d.render(2, "  "), "(\n  x\n)");
}

#[test]
fn inner_group_stays_flat_inside_broken_group() {
    let inner = Doc::group(Doc::join(words(&["b", "c"]), Doc::line()));
    let outer = Doc::group(Doc::concat(vec![
        Doc::text("aaaaaaaa"),
        Doc::indent(Doc::concat(vec![Doc::line(), inner])),
    ]));
    assert_eq!(outer.render(8, "  "), "aaaaaaaa\n  b c");
}

#[test]
fn if_break_follows_enclosing_mode() {
    let inner = Doc::if_break(Doc::text("BROKEN"), Doc::text("flat"));
    let outer = Doc::group(Doc::concat(vec![Doc::text("xxxxxx"), Doc::line(), inner.duplicate()]));
    assert_eq!(outer.render(6, "  "), "xxxxxx\nBROKEN");
    let outer = Doc::group(Doc::concat(vec![Doc::text("x"), Doc::line(), inner]));
    assert_eq!(outer.render(80, "  "), "x flat");
}

#[test]
fn top_level_is_flat() {
    let d = Doc::concat(vec![Doc::text("a"), Doc::line(), Doc::text("b"), Doc::soft_line(), Doc::nil()]);
    assert_eq!(d.render(1, "  "), "a b");
}

#[test]
fn join_comma_trailing_only_broken() {
    let broken = Doc::group(Doc::join_comma(words(&["one", "two"]), true));
    assert_eq!(broken.render(4, "  "), "one,\ntwo,");
    let flat = Doc::group(Doc::join_comma(words(&["one", "two"]), true));
    assert_eq!(flat.render(80, "  "), "one, two");
    let none = Doc::join_comma(vec![], true);
    assert_eq!(none.render(80, "  "), "");
}

#[test]
fn enclosing_helpers() {
    assert_eq!(Doc::parens(Doc::text("a")).render(80, ""), "(a)");
    assert_eq!(Doc::brackets(Doc::text("a")).render(80, ""), "[a]");
    assert_eq!(Doc::braces(Doc::text("a")).render(80, ""), "{a}");
    assert_eq!(Doc::wrap_brackets(Doc::text("a")).render(0, "\t"), "[\n\ta\n]");
    assert_eq!(Doc::wrap_braces(Doc::text("a")).render(80, "\t"), "{a}");
    assert_eq!(Doc::join(vec![], Doc::text(",")).render(80, ""), "");
}

#[test]
fn nested_indentation() {
    let d = Doc::group(Doc::concat(vec![
        Doc::text("a"),
        Doc::indent(Doc::concat(vec![
            Doc::line(),
            Doc::text("b"),
            Doc::indent(Doc::concat(vec![Doc::line(), Doc::text("c")])),
        ])),
    ]));
    assert_eq!(d.render(2, "--"), "a\n--b\n----c");
}

#[test]
fn measured_from_last_line_break() {
    // after a break the current line is short again, so the group fits
    let g = Doc::group(Doc::join(words(&["x", "y"]), Doc::line()));
    let d = Doc::group(Doc::concat(vec![Doc::text("abcdef"), Doc::line(), g]));
    assert_eq!(d.render(6, ""), "abcdef\nx y");
}

#[test]
fn escape_string_cases() {
    assert_eq!(escape_string(""), "");
    assert_eq!(escape_string("plain"), "plain");
    assert_eq!(escape_string("q\"b\\n\nr\rt\t"), "q\\\"b\\\\n\\nr\\rt\\t");
    assert_eq!(escape_string("héllo ✓"), "héllo ✓");
}

#[test]
fn escape_bytes_cases() {
    assert_eq!(escape_bytes(&[]), "");
    assert_eq!(escape_bytes(b"AZ az ~"), "AZ az ~");
    assert_eq!(escape_bytes(&[0x22, 0x5c, 0x0a, 0x0d, 0x09]), "\\\"\\\\\\n\\r\\t");
    assert_eq!(escape_bytes(&[0x00, 0x1f, 0x7f, 0xab, 0xff]), "\\x00\\x1f\\x7f\\xab\\xff");
}

#[test]
fn operator_table() {
    for op in ["_+_", "_-_", "_*_", "_/_", "_%_", "_==_", "_!=_", "_<_", "_<=_", "_>_", "_>=_", "_&&_", "_||_", "@in"] {
        assert!(is_binary_op(op));
        assert!(!is_unary_op(op));
    }
    assert!(is_unary_op("!_"));
    assert!(is_unary_op("-_"));
    assert!(!is_binary_op("size"));
    assert!(!is_binary_op("_?_:_"));
    assert_eq!(op_precedence("_||_"), 1);
    assert_eq!(op_precedence("_&&_"), 2);
    assert_eq!(op_precedence("_!=_"), 3);
    assert_eq!(op_precedence("@in"), 4);
    assert_eq!(op_precedence("_-_"), 5);
    assert_eq!(op_precedence("_%_"), 6);
    assert_eq!(op_precedence("-_"), 7);
    assert_eq!(op_precedence("size"), 0);
}

#[test]
fn options_builders() {
    let o = FormatOptions::new();
    assert_eq!((o.max_width, o.indent_width, o.use_spaces, o.trailing_comma), (80, 2, true, true));
    let d = FormatOptions::default();
    assert_eq!((d.max_width, d.indent_width, d.use_spaces, d.trailing_comma), (80, 2, true, true));
    assert_eq!(o.indent_unit(), "  ");
    let o = o.with_max_width(40).with_indent_width(4).with_trailing_comma(false);
    assert_eq!((o.max_width, o.indent_width, o.use_spaces, o.trailing_comma), (40, 4, true, false));
    assert_eq!(o.indent_unit(), "    ");
    let o = o.with_tabs();
    assert!(!o.use_spaces);
    assert_eq!(o.indent_unit(), "\t");
    assert_eq!(FormatOptions::new().with_indent_width(0).indent_unit(), "");
}
