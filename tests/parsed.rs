use cel::common::ast::{EntryExpr as CelEntry, Expr as CelExpr, IdedExpr, LiteralValue};
use cel_fmt::{
    format_tree, CallExpr, ComprehensionExpr, EntryExpr, Expr, FormatOptions, Literal, SelectExpr,
};

fn tree(e: &IdedExpr) -> Expr {
    match &e.expr {
        CelExpr::Unspecified => Expr::Unspecified,
        CelExpr::Ident(name) => Expr::Ident(name.clone()),
        CelExpr::Literal(v) => Expr::Literal(match v {
            LiteralValue::Boolean(b) => Literal::Boolean(*b.inner()),
            LiteralValue::Bytes(b) => Literal::Bytes(b.inner().to_vec()),
            LiteralValue::Double(d) => Literal::Double(d.inner().to_string()),
            LiteralValue::Int(i) => Literal::Int(*i.inner()),
            LiteralValue::Null => Literal::Null,
            LiteralValue::String(s) => Literal::String(s.inner().to_string()),
            LiteralValue::UInt(u) => Literal::UInt(*u.inner()),
        }),
        CelExpr::Select(s) => Expr::Select(SelectExpr {
            operand: Box::new(tree(&s.operand)),
            field: s.field.clone(),
            test: s.test,
        }),
        CelExpr::Call(c) => Expr::Call(CallExpr {
            func_name: c.func_name.clone(),
            target: c.target.as_ref().map(|t| Box::new(tree(t))),
            args: c.args.iter().map(tree).collect(),
        }),
        CelExpr::List(l) => Expr::List(l.elements.iter().map(tree).collect()),
        CelExpr::Map(m) => Expr::MapLiteral(m.entries.iter().map(|en| entry(&en.expr)).collect()),
        CelExpr::Struct(_) => panic!("no struct literal is parsed in these tests"),
        CelExpr::Comprehension(c) => Expr::Comprehension(Box::new(ComprehensionExpr {
            iter_range: tree(&c.iter_range),
            iter_var: c.iter_var.clone(),
            accu_var: c.accu_var.clone(),
            accu_init: tree(&c.accu_init),
            loop_cond: tree(&c.loop_cond),
            loop_step: tree(&c.loop_step),
            result: tree(&c.result),
        })),
    }
}

fn entry(e: &CelEntry) -> EntryExpr {
    match e {
        CelEntry::StructField(f) => EntryExpr::StructField { field: f.field.clone(), value: tree(&f.value) },
        CelEntry::MapEntry(m) => EntryExpr::MapEntry { key: tree(&m.key), value: tree(&m.value) },
    }
}

fn fmt_with(source: &str, options: &FormatOptions) -> String {
    let ast = cel::parser::Parser::new().parse(source).expect("source parses");
    format_tree(&tree(&ast), options)
}

fn fmt(source: &str) -> String {
    fmt_with(source, &FormatOptions::new())
}

#[test]
fn parsed_precedence() {
    assert_eq!(fmt("1 + 2 * 3"), "1 + 2 * 3");
    assert_eq!(fmt("(1 + 2) * 3"), "(1 + 2) * 3");
}

#[test]
fn parsed_macro_recovery() {
    assert_eq!(fmt("[1,2,3].map(x, x*2)"), "[1, 2, 3].map(x, x * 2)");
    assert_eq!(fmt("[1,2,3].filter(x, x>2)"), "[1, 2, 3].filter(x, x > 2)");
    assert_eq!(fmt("[1,2,3].all(x, x>0)"), "[1, 2, 3].all(x, x > 0)");
    assert_eq!(fmt("[1,2,3].exists(x, x==2)"), "[1, 2, 3].exists(x, x == 2)");
}

#[test]
fn parsed_literal_canonicalization() {
    assert_eq!(fmt("3.0"), "3.0");
    assert_eq!(fmt("3"), "3");
    assert_eq!(fmt("2.5"), "2.5");
    assert_eq!(fmt("7u"), "7u");
}

#[test]
fn parsed_escapes_round_trip() {
    for s in ["\"a\\\"b\\\\c\\nd\\te\"", "b\"\\x00\\xffAB\"", "\"plain ✓\""] {
        let once = fmt(s);
        assert_eq!(fmt(&once), once);
    }
    assert_eq!(fmt("\"a\\\"b\\\\c\\nd\""), "\"a\\\"b\\\\c\\nd\"");
    assert_eq!(fmt("b\"\\x00\\xffAB\""), "b\"\\x00\\xffAB\"");
}

#[test]
fn formatting_is_idempotent() {
    let sources = [
        "1+2*3",
        "(a||b)&&c",
        "x > 0 ? \"positive\" : \"negative\"",
        "user.age >= 18 && user.active == true",
        "{\"a\": 1, \"b\": [1,2,3]}",
        "[[1, 2], [3, 4]].map(x, x.map(y, y * 2))",
        "has(msg.field) && size(list) > 0 && !done",
        "m[\"key\"] in [\"alpha\", \"beta\", \"gamma\", \"delta\", \"epsilon\", \"zeta\", \"eta\", \"theta\"]",
        "[1, 2, 3, 4, 5].filter(x, x % 2 == 0).map(y, y * y)",
    ];
    for width in [20, 40, 80] {
        for trailing in [true, false] {
            let options = FormatOptions::new().with_max_width(width).with_trailing_comma(trailing);
            for s in sources {
                let once = fmt_with(s, &options);
                let twice = fmt_with(&once, &options);
                assert_eq!(twice, once, "source {:?} at width {}", s, width);
            }
        }
    }
}

#[test]
fn broken_lines_stay_within_width() {
    let s = "[\"alpha\", \"beta\", \"gamma\", \"delta\"].map(x, x + \"suffix\")";
    let out = fmt_with(s, &FormatOptions::new().with_max_width(24));
    assert_eq!(out, "[\n  \"alpha\",\n  \"beta\",\n  \"gamma\",\n  \"delta\",\n].map(x, x + \"suffix\")");
    for line in out.lines() {
        assert!(line.chars().count() <= 24, "line {:?}", line);
    }
}
