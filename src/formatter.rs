use vstd::prelude::*;

use crate::ast::{CallExpr, ComprehensionExpr, EntryExpr, Expr, Literal, SelectExpr, StructExpr};
use crate::doc::{comma_separated, contains_char, emit, enclosed, views, wrapped, Doc, Layout};
use crate::options::FormatOptions;
use crate::escape::{escape_bytes, escape_string, escaped, escaped_bytes, hex_digit, hex_text};

verus! {

/// The name under which a macro's expansion keeps its accumulator.
pub open spec fn accumulator_name() -> Seq<char> {
    "@result"@
}

/// Whether `n` names a binary operator.
pub open spec fn is_binary_name(n: Seq<char>) -> bool {
    ||| n == "_+_"@
    ||| n == "_-_"@
    ||| n == "_*_"@
    ||| n == "_/_"@
    ||| n == "_%_"@
    ||| n == "_==_"@
    ||| n == "_!=_"@
    ||| n == "_<_"@
    ||| n == "_<=_"@
    ||| n == "_>_"@
    ||| n == "_>=_"@
    ||| n == "_&&_"@
    ||| n == "_||_"@
    ||| n == "@in"@
}

/// Whether `n` names a prefix operator.
pub open spec fn is_unary_name(n: Seq<char>) -> bool {
    n == "!_"@ || n == "-_"@
}

/// How tightly the operator `n` binds: higher binds tighter, 0 for a name
/// that is no operator.
pub open spec fn precedence(n: Seq<char>) -> int {
    if n == "_||_"@ {
        1
    } else if n == "_&&_"@ {
        2
    } else if n == "_==_"@ || n == "_!=_"@ {
        3
    } else if n == "_<_"@ || n == "_<=_"@ || n == "_>_"@ || n == "_>=_"@ || n == "@in"@ {
        4
    } else if n == "_+_"@ || n == "_-_"@ {
        5
    } else if n == "_*_"@ || n == "_/_"@ || n == "_%_"@ {
        6
    } else if n == "!_"@ || n == "-_"@ {
        7
    } else {
        0
    }
}

/// The source symbol of the operator `n`; `n` itself for any other name.
pub open spec fn operator_symbol(n: Seq<char>) -> Seq<char> {
    if n == "_+_"@ {
        "+"@
    } else if n == "_-_"@ || n == "-_"@ {
        "-"@
    } else if n == "_*_"@ {
        "*"@
    } else if n == "_/_"@ {
        "/"@
    } else if n == "_%_"@ {
        "%"@
    } else if n == "_==_"@ {
        "=="@
    } else if n == "_!=_"@ {
        "!="@
    } else if n == "_<_"@ {
        "<"@
    } else if n == "_<=_"@ {
        "<="@
    } else if n == "_>_"@ {
        ">"@
    } else if n == "_>=_"@ {
        ">="@
    } else if n == "_&&_"@ {
        "&&"@
    } else if n == "_||_"@ {
        "||"@
    } else if n == "@in"@ {
        "in"@
    } else if n == "!_"@ {
        "!"@
    } else {
        n
    }
}

/// The decimal digits of `n`.
pub open spec fn nat_text(n: nat) -> Seq<char>
    decreases n,
{
    if n < 10 {
        seq![hex_digit(n as u8)]
    } else {
        nat_text(n / 10).push(hex_digit((n % 10) as u8))
    }
}

/// The decimal text of `i`, with a minus sign when it is negative.
pub open spec fn int_text(i: int) -> Seq<char> {
    if i < 0 {
        seq!['-'] + nat_text((-i) as nat)
    } else {
        nat_text(i as nat)
    }
}

/// The text of a double: its decimal text, with `.0` added where that text
/// has no decimal point or exponent, so that it does not read as an integer.
pub open spec fn double_text(s: Seq<char>) -> Seq<char> {
    if s.contains('.') || s.contains('e') || s.contains('E') {
        s
    } else {
        s + ".0"@
    }
}

/// The source text of a literal.
pub open spec fn literal_text(l: Literal) -> Seq<char> {
    match l {
        Literal::Null => "null"@,
        Literal::Boolean(b) => if b {
            "true"@
        } else {
            "false"@
        },
        Literal::Int(i) => int_text(i as int),
        Literal::UInt(u) => nat_text(u as nat) + "u"@,
        Literal::Double(s) => double_text(s@),
        Literal::String(s) => "\""@ + escaped(s@) + "\""@,
        Literal::Bytes(b) => "b\""@ + escaped_bytes(b@) + "\""@,
        Literal::Duration(secs) => "duration(\""@ + int_text(secs as int) + "s\")"@,
        Literal::Timestamp(ts) => "timestamp("@ + ts@ + ")"@,
    }
}

/// Whether an operand of the binary operator `parent` needs parentheses:
/// it is itself a binary operation that binds less tightly.
pub open spec fn wants_parens(e: Expr, parent: Seq<char>) -> bool {
    match e {
        Expr::Call(c) => is_binary_name(c.func_name@) && precedence(c.func_name@) < precedence(parent),
        _ => false,
    }
}

/// Whether `e` names the accumulator.
pub open spec fn is_accumulator(e: Expr) -> bool {
    e matches Expr::Ident(n) && n@ == accumulator_name()
}

/// Whether `e` is the boolean literal `b`.
pub open spec fn is_bool_literal(e: Expr, b: bool) -> bool {
    e matches Expr::Literal(Literal::Boolean(x)) && x == b
}

/// Whether `e` is the empty list literal.
pub open spec fn is_empty_list(e: Expr) -> bool {
    e matches Expr::List(es) && es@.len() == 0
}

/// Whether `e` is `accumulator + [v]`, with `v` the identifier `var`.
pub open spec fn is_append_of_var(e: Expr, var: Seq<char>) -> bool {
    &&& e matches Expr::Call(a)
    &&& a.func_name@ == "_+_"@
    &&& a.args@.len() == 2
    &&& is_accumulator(a.args@[0])
    &&& a.args@[1] matches Expr::List(es)
    &&& es@.len() == 1
    &&& es@[0] matches Expr::Ident(x)
    &&& x@ == var
}

/// The rendering of a recovered macro call: `range.name(var, body)`.
pub open spec fn macro_doc(range: Layout, name: Seq<char>, var: Seq<char>, body: Layout) -> Layout {
    Layout::Concat(
        seq![
            range,
            Layout::Text("."@ + name + "("@),
            Layout::Text(var),
            Layout::Text(", "@),
            body,
            Layout::Text(")"@),
        ],
    )
}

/// The document of an expression; `trailing` says whether broken list, map
/// and struct literals end in a comma.
pub open spec fn doc_of(e: Expr, trailing: bool) -> Layout
    decreases e, 2int,
{
    match e {
        Expr::Unspecified => Layout::Text(""@),
        Expr::Ident(n) => Layout::Text(n@),
        Expr::Literal(l) => Layout::Text(literal_text(l)),
        Expr::Select(s) => select_doc(s, trailing),
        Expr::Call(c) => call_doc(c, trailing),
        Expr::List(es) => list_doc(es@, trailing),
        Expr::MapLiteral(es) => map_doc(es@, trailing),
        Expr::Struct(s) => struct_doc(s, trailing),
        Expr::Comprehension(c) => comprehension_doc(*c, trailing),
    }
}

/// The documents of a sequence of expressions.
pub open spec fn docs_of(es: Seq<Expr>, trailing: bool) -> Seq<Layout>
    decreases es, 0int,
{
    Seq::new(es.len(), |i: int| if 0 <= i < es.len() { doc_of(es[i], trailing) } else { Layout::Nil })
}

/// The document of a field selection.
pub open spec fn select_doc(s: SelectExpr, trailing: bool) -> Layout
    decreases s, 0int,
{
    let operand = doc_of(*s.operand, trailing);
    if s.test {
        Layout::Concat(
            seq![
                Layout::Text("has("@),
                operand,
                Layout::Text("."@),
                Layout::Text(s.field@),
                Layout::Text(")"@),
            ],
        )
    } else {
        Layout::Concat(seq![operand, Layout::Text("."@), Layout::Text(s.field@)])
    }
}

/// The document of a call: an operator, or a function or method call.
pub open spec fn call_doc(c: CallExpr, trailing: bool) -> Layout
    decreases c, 0int,
{
    let n = c.func_name@;
    if is_binary_name(n) {
        binary_doc(n, c.args@, trailing)
    } else if is_unary_name(n) {
        unary_doc(n, c.args@, trailing)
    } else if n == "_?_:_"@ {
        ternary_doc(c.args@, trailing)
    } else if n == "_[_]"@ {
        index_doc(c.args@, trailing)
    } else {
        let args = wrapped("("@, comma_separated(docs_of(c.args@, trailing), false), ")"@);
        match c.target {
            Some(target) => Layout::Concat(
                seq![doc_of(*target, trailing), Layout::Text("."@), Layout::Text(n), args],
            ),
            None => Layout::Concat(seq![Layout::Text(n), args]),
        }
    }
}

/// An operand of the binary operator `parent`, in parentheses where needed.
pub open spec fn operand_doc(e: Expr, parent: Seq<char>, trailing: bool) -> Layout
    decreases e, 3int,
{
    if wants_parens(e, parent) {
        enclosed("("@, doc_of(e, trailing), ")"@)
    } else {
        doc_of(e, trailing)
    }
}

/// The document of a binary operation: `left op` and the right operand after
/// a line break, in a group.
pub open spec fn binary_doc(op: Seq<char>, args: Seq<Expr>, trailing: bool) -> Layout
    decreases args, 0int,
{
    if args.len() != 2 {
        Layout::Text("<invalid binary op: "@ + op + ">"@)
    } else {
        Layout::Group(
            Box::new(
                Layout::Concat(
                    seq![
                        operand_doc(args[0], op, trailing),
                        Layout::Text(" "@),
                        Layout::Text(operator_symbol(op)),
                        Layout::Line,
                        operand_doc(args[1], op, trailing),
                    ],
                ),
            ),
        )
    }
}

/// The document of a prefix operation.
pub open spec fn unary_doc(op: Seq<char>, args: Seq<Expr>, trailing: bool) -> Layout
    decreases args, 0int,
{
    if args.len() != 1 {
        Layout::Text("<invalid unary op: "@ + op + ">"@)
    } else {
        Layout::Concat(seq![Layout::Text(operator_symbol(op)), doc_of(args[0], trailing)])
    }
}

/// The document of a conditional, `cond ? then : else`.
pub open spec fn ternary_doc(args: Seq<Expr>, trailing: bool) -> Layout
    decreases args, 0int,
{
    if args.len() != 3 {
        Layout::Text("<invalid ternary>"@)
    } else {
        Layout::Group(
            Box::new(
                Layout::Concat(
                    seq![
                        doc_of(args[0], trailing),
                        Layout::Line,
                        Layout::Text("? "@),
                        doc_of(args[1], trailing),
                        Layout::Line,
                        Layout::Text(": "@),
                        doc_of(args[2], trailing),
                    ],
                ),
            ),
        )
    }
}

/// The document of an index operation, `target[index]`.
pub open spec fn index_doc(args: Seq<Expr>, trailing: bool) -> Layout
    decreases args, 0int,
{
    if args.len() != 2 {
        Layout::Text("<invalid index>"@)
    } else {
        Layout::Concat(
            seq![
                doc_of(args[0], trailing),
                Layout::Text("["@),
                doc_of(args[1], trailing),
                Layout::Text("]"@),
            ],
        )
    }
}

/// The document of a list literal.
pub open spec fn list_doc(es: Seq<Expr>, trailing: bool) -> Layout
    decreases es, 1int,
{
    if es.len() == 0 {
        Layout::Text("[]"@)
    } else {
        wrapped("["@, comma_separated(docs_of(es, trailing), trailing), "]"@)
    }
}

/// The documents of the map entries among `es`, as `key: value`.
pub open spec fn map_entry_docs(es: Seq<EntryExpr>, trailing: bool) -> Seq<Layout>
    decreases es, 0int,
{
    if es.len() == 0 {
        Seq::empty()
    } else {
        let prev = map_entry_docs(es.drop_last(), trailing);
        match es.last() {
            EntryExpr::MapEntry { key, value } => prev.push(
                Layout::Concat(
                    seq![doc_of(key, trailing), Layout::Text(": "@), doc_of(value, trailing)],
                ),
            ),
            _ => prev,
        }
    }
}

/// The documents of the struct fields among `es`, as `field: value`.
pub open spec fn field_docs(es: Seq<EntryExpr>, trailing: bool) -> Seq<Layout>
    decreases es, 0int,
{
    if es.len() == 0 {
        Seq::empty()
    } else {
        let prev = field_docs(es.drop_last(), trailing);
        match es.last() {
            EntryExpr::StructField { field, value } => prev.push(
                Layout::Concat(
                    seq![Layout::Text(field@), Layout::Text(": "@), doc_of(value, trailing)],
                ),
            ),
            _ => prev,
        }
    }
}

/// The document of a map literal.
pub open spec fn map_doc(es: Seq<EntryExpr>, trailing: bool) -> Layout
    decreases es, 1int,
{
    if es.len() == 0 {
        Layout::Text("{}"@)
    } else {
        wrapped("{"@, comma_separated(map_entry_docs(es, trailing), trailing), "}"@)
    }
}

/// The document of a struct literal.
pub open spec fn struct_doc(s: StructExpr, trailing: bool) -> Layout
    decreases s, 0int,
{
    if s.entries@.len() == 0 {
        Layout::Concat(seq![Layout::Text(s.name@), Layout::Text("{}"@)])
    } else {
        Layout::Concat(
            seq![
                Layout::Text(s.name@),
                wrapped("{"@, comma_separated(field_docs(s.entries@, trailing), trailing), "}"@),
            ],
        )
    }
}

/// The element document of a `map` expansion: the step is
/// `accumulator + [element]`.
pub open spec fn map_pattern(comp: ComprehensionExpr, trailing: bool) -> Option<Layout>
    decreases comp, 0int,
{
    match comp.loop_step {
        Expr::Call(c) => if c.func_name@ == "_+_"@ && c.args@.len() == 2 && is_accumulator(c.args@[0]) {
            match c.args@[1] {
                Expr::List(es) => if es@.len() == 1 {
                    Some(doc_of(es@[0], trailing))
                } else {
                    None
                },
                _ => None,
            }
        } else {
            None
        },
        _ => None,
    }
}

/// The predicate document of a `filter` expansion: the step is
/// `predicate ? accumulator + [var] : accumulator`.
pub open spec fn filter_pattern(comp: ComprehensionExpr, trailing: bool) -> Option<Layout>
    decreases comp, 0int,
{
    match comp.loop_step {
        Expr::Call(c) => if c.func_name@ == "_?_:_"@ && c.args@.len() == 3 && is_append_of_var(
            c.args@[1],
            comp.iter_var@,
        ) && is_accumulator(c.args@[2]) {
            Some(doc_of(c.args@[0], trailing))
        } else {
            None
        },
        _ => None,
    }
}

/// The predicate document of a step `accumulator op predicate`.
pub open spec fn fold_pattern(comp: ComprehensionExpr, op: Seq<char>, trailing: bool) -> Option<Layout>
    decreases comp, 0int,
{
    match comp.loop_step {
        Expr::Call(c) => if c.func_name@ == op && c.args@.len() == 2 && is_accumulator(c.args@[0]) {
            Some(doc_of(c.args@[1], trailing))
        } else {
            None
        },
        _ => None,
    }
}

/// The document of a comprehension: the macro call it expands from, where its
/// shape is that of `map`, `filter`, `all` or `exists`, else a placeholder.
pub open spec fn comprehension_doc(comp: ComprehensionExpr, trailing: bool) -> Layout
    decreases comp, 1int,
{
    let range = doc_of(comp.iter_range, trailing);
    let var = comp.iter_var@;
    let list_init = is_empty_list(comp.accu_init) && is_bool_literal(comp.loop_cond, true);
    if comp.accu_var@ != accumulator_name() {
        Layout::Text("<comprehension>"@)
    } else if list_init && map_pattern(comp, trailing) is Some {
        macro_doc(range, "map"@, var, map_pattern(comp, trailing)->0)
    } else if list_init && filter_pattern(comp, trailing) is Some {
        macro_doc(range, "filter"@, var, filter_pattern(comp, trailing)->0)
    } else if is_bool_literal(comp.accu_init, true) && fold_pattern(comp, "_&&_"@, trailing) is Some {
        macro_doc(range, "all"@, var, fold_pattern(comp, "_&&_"@, trailing)->0)
    } else if is_bool_literal(comp.accu_init, false) && fold_pattern(comp, "_||_"@, trailing) is Some {
        macro_doc(range, "exists"@, var, fold_pattern(comp, "_||_"@, trailing)->0)
    } else {
        Layout::Text("<comprehension>"@)
    }
}

/// The view of an optional document.
pub open spec fn opt_view(o: Option<Doc>) -> Option<Layout> {
    match o {
        Some(d) => Some(d@),
        None => None,
    }
}

/// Whether two strings are equal.
fn str_eq(a: &str, b: &str) -> (r: bool)
    ensures
        r == (a@ == b@),
{
    let n = a.unicode_len();
    if n != b.unicode_len() {
        return false;
    }
    let mut i: usize = 0;
    while i < n
        invariant
            n == a@.len(),
            n == b@.len(),
            i <= n,
            forall|j: int| 0 <= j < i ==> a@[j] == b@[j],
        decreases n - i,
    {
        if a.get_char(i) != b.get_char(i) {
            return false;
        }
        i = i + 1;
    }
    assert(a@ =~= b@);
    true
}

/// Check if a function name is a binary operator
pub fn is_binary_op(name: &str) -> (r: bool)
    ensures
        r == is_binary_name(name@),
{
    str_eq(name, "_+_") || str_eq(name, "_-_") || str_eq(name, "_*_") || str_eq(name, "_/_")
        || str_eq(name, "_%_") || str_eq(name, "_==_") || str_eq(name, "_!=_") || str_eq(name, "_<_")
        || str_eq(name, "_<=_") || str_eq(name, "_>_") || str_eq(name, "_>=_") || str_eq(name, "_&&_")
        || str_eq(name, "_||_") || str_eq(name, "@in")
}

/// Check if a function name is a unary operator
pub fn is_unary_op(name: &str) -> (r: bool)
    ensures
        r == is_unary_name(name@),
{
    str_eq(name, "!_") || str_eq(name, "-_")
}

/// Get operator precedence (higher = tighter binding)
pub fn op_precedence(op: &str) -> (r: i32)
    ensures
        r as int == precedence(op@),
{
    if str_eq(op, "_||_") {
        1
    } else if str_eq(op, "_&&_") {
        2
    } else if str_eq(op, "_==_") || str_eq(op, "_!=_") {
        3
    } else if str_eq(op, "_<_") || str_eq(op, "_<=_") || str_eq(op, "_>_") || str_eq(op, "_>=_")
        || str_eq(op, "@in") {
        4
    } else if str_eq(op, "_+_") || str_eq(op, "_-_") {
        5
    } else if str_eq(op, "_*_") || str_eq(op, "_/_") || str_eq(op, "_%_") {
        6
    } else if str_eq(op, "!_") || str_eq(op, "-_") {
        7
    } else {
        0
    }
}

/// The source symbol of an operator name.
fn operator_text<'a>(op: &'a str) -> (r: &'a str)
    ensures
        r@ == operator_symbol(op@),
{
    if str_eq(op, "_+_") {
        "+"
    } else if str_eq(op, "_-_") || str_eq(op, "-_") {
        "-"
    } else if str_eq(op, "_*_") {
        "*"
    } else if str_eq(op, "_/_") {
        "/"
    } else if str_eq(op, "_%_") {
        "%"
    } else if str_eq(op, "_==_") {
        "=="
    } else if str_eq(op, "_!=_") {
        "!="
    } else if str_eq(op, "_<_") {
        "<"
    } else if str_eq(op, "_<=_") {
        "<="
    } else if str_eq(op, "_>_") {
        ">"
    } else if str_eq(op, "_>=_") {
        ">="
    } else if str_eq(op, "_&&_") {
        "&&"
    } else if str_eq(op, "_||_") {
        "||"
    } else if str_eq(op, "@in") {
        "in"
    } else if str_eq(op, "!_") {
        "!"
    } else {
        op
    }
}

/// Append the decimal digits of `n`.
fn push_decimal(out: &mut String, n: u64)
    ensures
        final(out)@ == old(out)@ + nat_text(n as nat),
    decreases n,
{
    if n >= 10 {
        push_decimal(out, n / 10);
    }
    let d = (n % 10) as u8;
    out.append(hex_text(d));
    assert(out@ =~= old(out)@ + nat_text(n as nat));
}

/// Append the decimal text of `i`.
fn push_int(out: &mut String, i: i64)
    ensures
        final(out)@ == old(out)@ + int_text(i as int),
{
    if i < 0 {
        proof {
            reveal_strlit("-");
        }
        out.append("-");
        let m: u64 = ((-(i + 1)) as u64) + 1;
        push_decimal(out, m);
        assert(out@ =~= old(out)@ + int_text(i as int));
    } else {
        push_decimal(out, i as u64);
    }
}

/// `a`, then `b`, then `c`, as one string.
fn text3(a: &str, b: &str, c: &str) -> (r: String)
    ensures
        r@ == a@ + b@ + c@,
{
    let mut s = a.to_owned();
    s.append(b);
    s.append(c);
    s
}

/// Format a literal value
fn format_literal(val: &Literal) -> (r: Doc)
    ensures
        r@ == Layout::Text(literal_text(*val)),
{
    match val {
        Literal::Null => Doc::text("null"),
        Literal::Boolean(b) => if *b {
            Doc::text("true")
        } else {
            Doc::text("false")
        },
        Literal::Int(i) => {
            let mut s = String::new();
            push_int(&mut s, *i);
            assert(s@ =~= int_text(*i as int));
            Doc::Text(s)
        },
        Literal::UInt(u) => {
            let mut s = String::new();
            push_decimal(&mut s, *u);
            s.append("u");
            assert(s@ =~= nat_text(*u as nat) + "u"@);
            Doc::Text(s)
        },
        Literal::Double(d) => {
            // Ensure doubles always have a decimal point
            if !contains_char(d.as_str(), '.') && !contains_char(d.as_str(), 'e') && !contains_char(
                d.as_str(),
                'E',
            ) {
                let mut s = d.clone();
                s.append(".0");
                Doc::Text(s)
            } else {
                Doc::text(d.as_str())
            }
        },
        Literal::String(s) => Doc::Text(text3("\"", escape_string(s.as_str()).as_str(), "\"")),
        Literal::Bytes(b) => Doc::Text(text3("b\"", escape_bytes(b.as_slice()).as_str(), "\"")),
        Literal::Duration(secs) => {
            let mut s = "duration(\"".to_owned();
            push_int(&mut s, *secs);
            s.append("s\")");
            Doc::Text(s)
        },
        Literal::Timestamp(ts) => Doc::Text(text3("timestamp(", ts.as_str(), ")")),
    }
}

/// Format an expression into a document; `trailing` says whether broken
/// list, map and struct literals end in a comma.
pub fn format_expr(expr: &Expr, trailing: bool) -> (r: Doc)
    ensures
        r@ == doc_of(*expr, trailing),
    decreases expr, 2int,
{
    match expr {
        Expr::Unspecified => Doc::text(""),
        Expr::Ident(name) => Doc::text(name.as_str()),
        Expr::Literal(val) => format_literal(val),
        Expr::Select(select) => format_select(select, trailing),
        Expr::Call(call) => format_call(call, trailing),
        Expr::List(list) => format_list(list, trailing),
        Expr::MapLiteral(entries) => format_map(entries, trailing),
        Expr::Struct(s) => format_struct(s, trailing),
        Expr::Comprehension(comp) => format_comprehension(comp, trailing),
    }
}

/// Format each expression of `es`, in order.
fn format_all(es: &Vec<Expr>, trailing: bool) -> (r: Vec<Doc>)
    ensures
        views(r@) == docs_of(es@, trailing),
    decreases es, 0int,
{
    let mut out: Vec<Doc> = Vec::new();
    let mut i: usize = 0;
    while i < es.len()
        invariant
            i <= es@.len(),
            out@.len() == i,
            forall|k: int| 0 <= k < i ==> (#[trigger] out@[k])@ == doc_of(es@[k], trailing),
        decreases es@.len() - i,
    {
        out.push(format_expr(&es[i], trailing));
        i = i + 1;
    }
    assert(views(out@) =~= docs_of(es@, trailing));
    out
}

/// Format a select expression (field access)
fn format_select(select: &SelectExpr, trailing: bool) -> (r: Doc)
    ensures
        r@ == select_doc(*select, trailing),
    decreases select, 0int,
{
    let operand = format_expr(&select.operand, trailing);
    let field = Doc::text(select.field.as_str());
    let ghost (o, f) = (operand@, field@);
    if select.test {
        // This is a has() macro
        let v = vec![Doc::text("has("), operand, Doc::text("."), field, Doc::text(")")];
        assert(views(v@) =~= seq![Layout::Text("has("@), o, Layout::Text("."@), f, Layout::Text(")"@)]);
        Doc::concat(v)
    } else {
        let v = vec![operand, Doc::text("."), field];
        assert(views(v@) =~= seq![o, Layout::Text("."@), f]);
        Doc::concat(v)
    }
}

/// Format a function call
fn format_call(call: &CallExpr, trailing: bool) -> (r: Doc)
    ensures
        r@ == call_doc(*call, trailing),
    decreases call, 0int,
{
    let func_name = call.func_name.as_str();
    if is_binary_op(func_name) {
        return format_binary_op(func_name, &call.args, trailing);
    }
    if is_unary_op(func_name) {
        return format_unary_op(func_name, &call.args, trailing);
    }
    if str_eq(func_name, "_?_:_") {
        return format_ternary(&call.args, trailing);
    }
    if str_eq(func_name, "_[_]") {
        return format_index(&call.args, trailing);
    }
    let args_doc = Doc::wrap_parens(format_args(&call.args, trailing));
    let name = Doc::text(func_name);
    let ghost (a, n) = (args_doc@, name@);
    match &call.target {
        Some(target) => {
            // Method call: target.func(args)
            let target_doc = format_expr(target, trailing);
            let ghost t = target_doc@;
            let v = vec![target_doc, Doc::text("."), name, args_doc];
            assert(views(v@) =~= seq![t, Layout::Text("."@), n, a]);
            Doc::concat(v)
        },
        None => {
            // Regular function call: func(args)
            let v = vec![name, args_doc];
            assert(views(v@) =~= seq![n, a]);
            Doc::concat(v)
        },
    }
}

/// Format an operand of the binary operator `parent_op`
fn format_operand(e: &Expr, parent_op: &str, trailing: bool) -> (r: Doc)
    ensures
        r@ == operand_doc(*e, parent_op@, trailing),
    decreases e, 3int,
{
    let d = format_expr(e, trailing);
    if needs_parens(e, parent_op) {
        Doc::parens(d)
    } else {
        d
    }
}

/// Format a binary operator
fn format_binary_op(op: &str, args: &Vec<Expr>, trailing: bool) -> (r: Doc)
    ensures
        r@ == binary_doc(op@, args@, trailing),
    decreases args, 0int,
{
    if args.len() != 2 {
        return Doc::Text(text3("<invalid binary op: ", op, ">"));
    }
    let left = format_operand(&args[0], op, trailing);
    let right = format_operand(&args[1], op, trailing);
    let ghost (l, r) = (left@, right@);
    let v = vec![left, Doc::text(" "), Doc::text(operator_text(op)), Doc::line(), right];
    assert(views(v@) =~= seq![l, Layout::Text(" "@), Layout::Text(operator_symbol(op@)), Layout::Line, r]);
    Doc::group(Doc::concat(v))
}

/// Format a unary operator
fn format_unary_op(op: &str, args: &Vec<Expr>, trailing: bool) -> (r: Doc)
    ensures
        r@ == unary_doc(op@, args@, trailing),
    decreases args, 0int,
{
    if args.len() != 1 {
        return Doc::Text(text3("<invalid unary op: ", op, ">"));
    }
    let operand = format_expr(&args[0], trailing);
    let ghost o = operand@;
    let v = vec![Doc::text(operator_text(op)), operand];
    assert(views(v@) =~= seq![Layout::Text(operator_symbol(op@)), o]);
    Doc::concat(v)
}

/// Format a ternary conditional (a ? b : c)
fn format_ternary(args: &Vec<Expr>, trailing: bool) -> (r: Doc)
    ensures
        r@ == ternary_doc(args@, trailing),
    decreases args, 0int,
{
    if args.len() != 3 {
        return Doc::text("<invalid ternary>");
    }
    let cond = format_expr(&args[0], trailing);
    let then_expr = format_expr(&args[1], trailing);
    let else_expr = format_expr(&args[2], trailing);
    let ghost (c, t, e) = (cond@, then_expr@, else_expr@);
    let v = vec![
        cond,
        Doc::line(),
        Doc::text("? "),
        then_expr,
        Doc::line(),
        Doc::text(": "),
        else_expr,
    ];
    assert(views(v@) =~= seq![
        c,
        Layout::Line,
        Layout::Text("? "@),
        t,
        Layout::Line,
        Layout::Text(": "@),
        e,
    ]);
    Doc::group(Doc::concat(v))
}

/// Format an index operation (a[b])
fn format_index(args: &Vec<Expr>, trailing: bool) -> (r: Doc)
    ensures
        r@ == index_doc(args@, trailing),
    decreases args, 0int,
{
    if args.len() != 2 {
        return Doc::text("<invalid index>");
    }
    let target = format_expr(&args[0], trailing);
    let index = format_expr(&args[1], trailing);
    let ghost (t, i) = (target@, index@);
    let v = vec![target, Doc::text("["), index, Doc::text("]")];
    assert(views(v@) =~= seq![t, Layout::Text("["@), i, Layout::Text("]"@)]);
    Doc::concat(v)
}

/// Format function arguments
fn format_args(args: &Vec<Expr>, trailing: bool) -> (r: Doc)
    ensures
        r@ == comma_separated(docs_of(args@, trailing), false),
    decreases args, 1int,
{
    Doc::join_comma(format_all(args, trailing), false)
}

/// Format a list literal
fn format_list(list: &Vec<Expr>, trailing: bool) -> (r: Doc)
    ensures
        r@ == list_doc(list@, trailing),
    decreases list, 1int,
{
    if list.len() == 0 {
        return Doc::text("[]");
    }
    Doc::wrap_brackets(Doc::join_comma(format_all(list, trailing), trailing))
}

/// Format a map literal
fn format_map(entries: &Vec<EntryExpr>, trailing: bool) -> (r: Doc)
    ensures
        r@ == map_doc(entries@, trailing),
    decreases entries, 1int,
{
    if entries.len() == 0 {
        return Doc::text("{}");
    }
    let mut docs: Vec<Doc> = Vec::new();
    let mut i: usize = 0;
    while i < entries.len()
        invariant
            i <= entries@.len(),
            views(docs@) == map_entry_docs(entries@.take(i as int), trailing),
        decreases entries@.len() - i,
    {
        proof {
            assert(entries@.take(i + 1).drop_last() =~= entries@.take(i as int));
        }
        match &entries[i] {
            EntryExpr::MapEntry { key, value } => {
                let k = format_expr(key, trailing);
                let v = format_expr(value, trailing);
                let ghost (kv, vv) = (k@, v@);
                let parts = vec![k, Doc::text(": "), v];
                assert(views(parts@) =~= seq![kv, Layout::Text(": "@), vv]);
                let ghost before = docs@;
                docs.push(Doc::concat(parts));
                assert(views(docs@) =~= views(before).push(Layout::Concat(seq![kv, Layout::Text(": "@), vv])));
            },
            _ => {},
        }
        i = i + 1;
    }
    assert(entries@.take(i as int) =~= entries@);
    Doc::wrap_braces(Doc::join_comma(docs, trailing))
}

/// Format a struct literal
fn format_struct(s: &StructExpr, trailing: bool) -> (r: Doc)
    ensures
        r@ == struct_doc(*s, trailing),
    decreases s, 0int,
{
    let name = Doc::text(s.name.as_str());
    let ghost n = name@;
    if s.entries.len() == 0 {
        let v = vec![name, Doc::text("{}")];
        assert(views(v@) =~= seq![n, Layout::Text("{}"@)]);
        return Doc::concat(v);
    }
    let mut docs: Vec<Doc> = Vec::new();
    let mut i: usize = 0;
    while i < s.entries.len()
        invariant
            i <= s.entries@.len(),
            views(docs@) == field_docs(s.entries@.take(i as int), trailing),
        decreases s.entries@.len() - i,
    {
        proof {
            assert(s.entries@.take(i + 1).drop_last() =~= s.entries@.take(i as int));
        }
        match &s.entries[i] {
            EntryExpr::StructField { field, value } => {
                let k = Doc::text(field.as_str());
                let v = format_expr(value, trailing);
                let ghost (kv, vv) = (k@, v@);
                let parts = vec![k, Doc::text(": "), v];
                assert(views(parts@) =~= seq![kv, Layout::Text(": "@), vv]);
                let ghost before = docs@;
                docs.push(Doc::concat(parts));
                assert(views(docs@) =~= views(before).push(Layout::Concat(seq![kv, Layout::Text(": "@), vv])));
            },
            _ => {},
        }
        i = i + 1;
    }
    assert(s.entries@.take(i as int) =~= s.entries@);
    let body = Doc::wrap_braces(Doc::join_comma(docs, trailing));
    let ghost b = body@;
    let v = vec![name, body];
    assert(views(v@) =~= seq![n, b]);
    Doc::concat(v)
}

/// Check if an expression needs parentheses based on operator precedence
fn needs_parens(expr: &Expr, parent_op: &str) -> (r: bool)
    ensures
        r == wants_parens(*expr, parent_op@),
{
    match expr {
        Expr::Call(call) => {
            let name = call.func_name.as_str();
            is_binary_op(name) && op_precedence(name) < op_precedence(parent_op)
        },
        _ => false,
    }
}

/// Check if an expression names the accumulator
fn names_accumulator(expr: &Expr) -> (r: bool)
    ensures
        r == is_accumulator(*expr),
{
    match expr {
        Expr::Ident(name) => str_eq(name.as_str(), "@result"),
        _ => false,
    }
}

/// Check if an expression is the boolean literal `b`
fn is_literal_bool(expr: &Expr, b: bool) -> (r: bool)
    ensures
        r == is_bool_literal(*expr, b),
{
    match expr {
        Expr::Literal(Literal::Boolean(x)) => *x == b,
        _ => false,
    }
}

/// Check if an expression is the empty list literal
fn is_empty_list_literal(expr: &Expr) -> (r: bool)
    ensures
        r == is_empty_list(*expr),
{
    match expr {
        Expr::List(list) => list.len() == 0,
        _ => false,
    }
}

/// Check if an expression is `@result + [var]`
fn appends_var(expr: &Expr, var: &str) -> (r: bool)
    ensures
        r == is_append_of_var(*expr, var@),
{
    if let Expr::Call(add_call) = expr {
        if str_eq(add_call.func_name.as_str(), "_+_") && add_call.args.len() == 2 && names_accumulator(
            &add_call.args[0],
        ) {
            if let Expr::List(list) = &add_call.args[1] {
                if list.len() == 1 {
                    if let Expr::Ident(name) = &list[0] {
                        return str_eq(name.as_str(), var);
                    }
                }
            }
        }
    }
    false
}

/// Extract map() pattern: @result + [expr]
fn extract_map_pattern(comp: &ComprehensionExpr, trailing: bool) -> (r: Option<Doc>)
    ensures
        opt_view(r) == map_pattern(*comp, trailing),
    decreases comp, 0int,
{
    if let Expr::Call(call) = &comp.loop_step {
        if str_eq(call.func_name.as_str(), "_+_") && call.args.len() == 2 && names_accumulator(
            &call.args[0],
        ) {
            if let Expr::List(list) = &call.args[1] {
                if list.len() == 1 {
                    return Some(format_expr(&list[0], trailing));
                }
            }
        }
    }
    None
}

/// Extract filter() pattern: predicate ? (@result + [var]) : @result
fn extract_filter_pattern(comp: &ComprehensionExpr, trailing: bool) -> (r: Option<Doc>)
    ensures
        opt_view(r) == filter_pattern(*comp, trailing),
    decreases comp, 0int,
{
    if let Expr::Call(call) = &comp.loop_step {
        if str_eq(call.func_name.as_str(), "_?_:_") && call.args.len() == 3 && appends_var(
            &call.args[1],
            comp.iter_var.as_str(),
        ) && names_accumulator(&call.args[2]) {
            return Some(format_expr(&call.args[0], trailing));
        }
    }
    None
}

/// Extract the predicate of a step `@result op predicate`: the all() pattern
/// with `_&&_`, the exists() pattern with `_||_`.
fn extract_fold_pattern(comp: &ComprehensionExpr, op: &str, trailing: bool) -> (r: Option<Doc>)
    ensures
        opt_view(r) == fold_pattern(*comp, op@, trailing),
    decreases comp, 0int,
{
    if let Expr::Call(call) = &comp.loop_step {
        if str_eq(call.func_name.as_str(), op) && call.args.len() == 2 && names_accumulator(&call.args[0]) {
            return Some(format_expr(&call.args[1], trailing));
        }
    }
    None
}

/// The recovered macro call `range.name(var, body)`.
fn macro_call(range: Doc, name: &str, var: &str, body: Doc) -> (r: Doc)
    ensures
        r@ == macro_doc(range@, name@, var@, body@),
{
    let ghost (rv, bv) = (range@, body@);
    let v = vec![
        range,
        Doc::Text(text3(".", name, "(")),
        Doc::text(var),
        Doc::text(", "),
        body,
        Doc::text(")"),
    ];
    assert(views(v@) =~= seq![
        rv,
        Layout::Text("."@ + name@ + "("@),
        Layout::Text(var@),
        Layout::Text(", "@),
        bv,
        Layout::Text(")"@),
    ]);
    Doc::concat(v)
}

/// Format a comprehension expression: comprehensions are the result of macro
/// expansion, so the common shapes are turned back into the macro call.
fn format_comprehension(comp: &ComprehensionExpr, trailing: bool) -> (r: Doc)
    ensures
        r@ == comprehension_doc(*comp, trailing),
    decreases comp, 1int,
{
    if !str_eq(comp.accu_var.as_str(), "@result") {
        return Doc::text("<comprehension>");
    }
    let var = comp.iter_var.as_str();
    if is_empty_list_literal(&comp.accu_init) && is_literal_bool(&comp.loop_cond, true) {
        if let Some(map_expr) = extract_map_pattern(comp, trailing) {
            return macro_call(format_expr(&comp.iter_range, trailing), "map", var, map_expr);
        }
        if let Some(filter_expr) = extract_filter_pattern(comp, trailing) {
            return macro_call(format_expr(&comp.iter_range, trailing), "filter", var, filter_expr);
        }
    }
    if is_literal_bool(&comp.accu_init, true) {
        if let Some(all_expr) = extract_fold_pattern(comp, "_&&_", trailing) {
            return macro_call(format_expr(&comp.iter_range, trailing), "all", var, all_expr);
        }
    }
    if is_literal_bool(&comp.accu_init, false) {
        if let Some(exists_expr) = extract_fold_pattern(comp, "_||_", trailing) {
            return macro_call(format_expr(&comp.iter_range, trailing), "exists", var, exists_expr);
        }
    }
    // Fallback: no macro shape was recognised
    Doc::text("<comprehension>")
}

/// The text of a syntax tree formatted under `options`.
pub open spec fn formatted(e: Expr, options: FormatOptions) -> Seq<char> {
    emit(
        doc_of(e, options.trailing_comma),
        Seq::empty(),
        options.max_width as int,
        Seq::empty(),
        options.indent_text(),
        false,
    )
}

/// Format a syntax tree under the given options.
pub fn format_tree(expr: &Expr, options: &FormatOptions) -> (r: String)
    ensures
        r@ == formatted(*expr, *options),
{
    let doc = format_expr(expr, options.trailing_comma);
    let indent_str = options.indent_unit();
    doc.render(options.max_width, indent_str.as_str())
}

} // verus!
