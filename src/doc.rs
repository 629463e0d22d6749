use vstd::prelude::*;

verus! {

/// A pretty-printer document: text, line breaks, indentation and groups
/// that are laid out flat when they fit the width, broken otherwise.
#[derive(Debug)]
pub enum Doc {
    /// Empty document
    Nil,
    /// A piece of text (must not contain newlines)
    Text(String),
    /// Concatenation of documents
    Concat(Vec<Doc>),
    /// A space in flat mode, a newline and the indentation in break mode
    Line,
    /// Nothing in flat mode, a newline and the indentation in break mode
    SoftLine,
    /// One more level of indentation for the inner document
    Indent(Box<Doc>),
    /// Laid out flat if it fits on the current line, broken otherwise
    Group(Box<Doc>),
    /// The first document in break mode, the second in flat mode
    IfBreak { break_doc: Box<Doc>, flat_doc: Box<Doc> },
}

/// The mathematical value of a `Doc`.
pub enum Layout {
    Nil,
    Text(Seq<char>),
    Concat(Seq<Layout>),
    Line,
    SoftLine,
    Indent(Box<Layout>),
    Group(Box<Layout>),
    IfBreak(Box<Layout>, Box<Layout>),
}

/// The characters after the last newline of `s`: the length of its last line.
pub open spec fn line_len(s: Seq<char>) -> nat
    decreases s.len(),
{
    if s.len() == 0 {
        0
    } else if s.last() == '\n' {
        0
    } else {
        line_len(s.drop_last()) + 1
    }
}

/// A group whose flat text is `flat` fits after `buf` when that text has no
/// newline and the current line, extended by it, stays within `width`.
pub open spec fn fits(buf: Seq<char>, flat: Seq<char>, width: int) -> bool {
    &&& !flat.contains('\n')
    &&& line_len(buf) + flat.len() <= width
}

/// What a line break writes in break mode: a newline, then the indentation.
pub open spec fn newline(indent: Seq<char>) -> Seq<char> {
    seq!['\n'] + indent
}

/// The buffer after laying out `l` behind `buf`, with the given width, current
/// indentation, indentation unit, and mode (`brk`: break mode, else flat).
pub open spec fn emit(
    l: Layout,
    buf: Seq<char>,
    width: int,
    indent: Seq<char>,
    unit: Seq<char>,
    brk: bool,
) -> Seq<char>
    decreases l, 0int,
{
    match l {
        Layout::Nil => buf,
        Layout::Text(s) => buf + s,
        Layout::Concat(ls) => emit_seq(ls, ls.len() as int, buf, width, indent, unit, brk),
        Layout::Line => if brk {
            buf + newline(indent)
        } else {
            buf + seq![' ']
        },
        Layout::SoftLine => if brk {
            buf + newline(indent)
        } else {
            buf
        },
        Layout::Indent(d) => emit(*d, buf, width, indent + unit, unit, brk),
        Layout::Group(d) => {
            let flat = emit(*d, Seq::empty(), width, indent, unit, false);
            if fits(buf, flat, width) {
                buf + flat
            } else {
                emit(*d, buf, width, indent, unit, true)
            }
        },
        Layout::IfBreak(b, f) => if brk {
            emit(*b, buf, width, indent, unit, brk)
        } else {
            emit(*f, buf, width, indent, unit, brk)
        },
    }
}

/// The buffer after laying out the first `n` documents of `ls` in order.
pub open spec fn emit_seq(
    ls: Seq<Layout>,
    n: int,
    buf: Seq<char>,
    width: int,
    indent: Seq<char>,
    unit: Seq<char>,
    brk: bool,
) -> Seq<char>
    decreases ls, n,
{
    if n <= 0 || n > ls.len() {
        buf
    } else {
        emit(ls[n - 1], emit_seq(ls, n - 1, buf, width, indent, unit, brk), width, indent, unit, brk)
    }
}

/// The views of a sequence of documents.
pub open spec fn views(ds: Seq<Doc>) -> Seq<Layout> {
    Seq::new(ds.len(), |i: int| ds[i]@)
}

/// The documents `ls` with `sep` between each two neighbours.
pub open spec fn joined(ls: Seq<Layout>, sep: Layout) -> Seq<Layout>
    decreases ls.len(),
{
    if ls.len() <= 1 {
        ls
    } else {
        joined(ls.drop_last(), sep) + seq![sep, ls.last()]
    }
}

/// The documents `ls` with a comma and a line break between each two neighbours.
pub open spec fn comma_joined(ls: Seq<Layout>) -> Seq<Layout>
    decreases ls.len(),
{
    if ls.len() <= 1 {
        ls
    } else {
        comma_joined(ls.drop_last()) + seq![Layout::Text(","@), Layout::Line, ls.last()]
    }
}

/// The comma that ends a list in break mode only.
pub open spec fn trailing_comma() -> Layout {
    Layout::IfBreak(Box::new(Layout::Text(","@)), Box::new(Layout::Nil))
}

/// The items of a comma-separated list, with the trailing comma if asked for.
pub open spec fn comma_list(ls: Seq<Layout>, trailing: bool) -> Seq<Layout> {
    if trailing {
        comma_joined(ls).push(trailing_comma())
    } else {
        comma_joined(ls)
    }
}

/// Taking the first document off `before`, the rest of `all` from `i`.
proof fn lemma_views_step(before: Seq<Doc>, all: Seq<Layout>, i: int)
    requires
        0 <= i,
        before.len() > 0,
        i + before.len() == all.len(),
        views(before) == all.skip(i),
    ensures
        before[0]@ == all[i],
        views(before.remove(0)) =~= all.skip(i + 1),
{
    assert(views(before)[0] == all.skip(i)[0]);
    assert forall|k: int| 0 <= k < before.len() - 1 implies views(before.remove(0))[k] == all.skip(i + 1)[k] by {
        assert(views(before)[k + 1] == all.skip(i)[k + 1]);
    }
}

/// `inner` between two pieces of text.
pub open spec fn enclosed(open: Seq<char>, inner: Layout, close: Seq<char>) -> Layout {
    Layout::Concat(seq![Layout::Text(open), inner, Layout::Text(close)])
}

/// The contents of a `wrapped` group: the brackets, and `inner` indented
/// between line breaks.
pub open spec fn wrapped_body(open: Seq<char>, inner: Layout, close: Seq<char>) -> Layout {
    Layout::Concat(
        seq![
            Layout::Text(open),
            Layout::Indent(Box::new(Layout::Concat(seq![Layout::SoftLine, inner]))),
            Layout::SoftLine,
            Layout::Text(close),
        ],
    )
}

/// The shape of a bracketed literal: one line when it fits, else the inner
/// document indented on lines of its own between the brackets.
pub open spec fn wrapped(open: Seq<char>, inner: Layout, close: Seq<char>) -> Layout {
    Layout::Group(Box::new(wrapped_body(open, inner, close)))
}

/// A comma-separated list: nothing when `ls` is empty.
pub open spec fn comma_separated(ls: Seq<Layout>, trailing: bool) -> Layout {
    if ls.len() == 0 {
        Layout::Nil
    } else {
        Layout::Concat(comma_list(ls, trailing))
    }
}

impl Doc {
    /// The layout that the document stands for.
    pub open spec fn view(&self) -> Layout
        decreases self,
    {
        match self {
            Doc::Nil => Layout::Nil,
            Doc::Text(s) => Layout::Text(s@),
            Doc::Concat(ds) => Layout::Concat(
                Seq::new(ds@.len(), |i: int| if 0 <= i < ds@.len() { ds@[i].view() } else { Layout::Nil }),
            ),
            Doc::Line => Layout::Line,
            Doc::SoftLine => Layout::SoftLine,
            Doc::Indent(d) => Layout::Indent(Box::new(d.view())),
            Doc::Group(d) => Layout::Group(Box::new(d.view())),
            Doc::IfBreak { break_doc, flat_doc } => Layout::IfBreak(
                Box::new(break_doc.view()),
                Box::new(flat_doc.view()),
            ),
        }
    }

    /// Create an empty document
    pub fn nil() -> (r: Doc)
        ensures
            r@ == Layout::Nil,
    {
        Doc::Nil
    }

    /// Create a text document
    pub fn text(s: &str) -> (r: Doc)
        ensures
            r@ == Layout::Text(s@),
    {
        Doc::Text(s.to_owned())
    }

    /// Create a line break
    pub fn line() -> (r: Doc)
        ensures
            r@ == Layout::Line,
    {
        Doc::Line
    }

    /// Create a soft line break (disappears when the group fits)
    pub fn soft_line() -> (r: Doc)
        ensures
            r@ == Layout::SoftLine,
    {
        Doc::SoftLine
    }

    /// Concatenate documents
    pub fn concat(docs: Vec<Doc>) -> (r: Doc)
        ensures
            r@ == Layout::Concat(views(docs@)),
    {
        let r = Doc::Concat(docs);
        assert(r@->Concat_0 =~= views(docs@));
        r
    }

    /// Indent a document
    pub fn indent(doc: Doc) -> (r: Doc)
        ensures
            r@ == Layout::Indent(Box::new(doc@)),
    {
        Doc::Indent(Box::new(doc))
    }

    /// Create a group
    pub fn group(doc: Doc) -> (r: Doc)
        ensures
            r@ == Layout::Group(Box::new(doc@)),
    {
        Doc::Group(Box::new(doc))
    }

    /// If-break combinator
    pub fn if_break(break_doc: Doc, flat_doc: Doc) -> (r: Doc)
        ensures
            r@ == Layout::IfBreak(Box::new(break_doc@), Box::new(flat_doc@)),
    {
        Doc::IfBreak { break_doc: Box::new(break_doc), flat_doc: Box::new(flat_doc) }
    }

    /// Wrap in parentheses
    pub fn parens(doc: Doc) -> (r: Doc)
        ensures
            r@ == enclosed("("@, doc@, ")"@),
    {
        Doc::enclose("(", doc, ")")
    }

    /// Wrap in brackets
    pub fn brackets(doc: Doc) -> (r: Doc)
        ensures
            r@ == enclosed("["@, doc@, "]"@),
    {
        Doc::enclose("[", doc, "]")
    }

    /// Wrap in braces
    pub fn braces(doc: Doc) -> (r: Doc)
        ensures
            r@ == enclosed("{"@, doc@, "}"@),
    {
        Doc::enclose("{", doc, "}")
    }

    /// Wrap with possible line breaks inside
    pub fn wrap_parens(doc: Doc) -> (r: Doc)
        ensures
            r@ == wrapped("("@, doc@, ")"@),
    {
        Doc::wrap("(", doc, ")")
    }

    /// Wrap list with brackets
    pub fn wrap_brackets(doc: Doc) -> (r: Doc)
        ensures
            r@ == wrapped("["@, doc@, "]"@),
    {
        Doc::wrap("[", doc, "]")
    }

    /// Wrap map with braces
    pub fn wrap_braces(doc: Doc) -> (r: Doc)
        ensures
            r@ == wrapped("{"@, doc@, "}"@),
    {
        Doc::wrap("{", doc, "}")
    }

    fn enclose(open: &str, doc: Doc, close: &str) -> (r: Doc)
        ensures
            r@ == enclosed(open@, doc@, close@),
    {
        let v = vec![Doc::text(open), doc, Doc::text(close)];
        assert(views(v@) =~= seq![Layout::Text(open@), doc@, Layout::Text(close@)]);
        Doc::concat(v)
    }

    fn wrap(open: &str, doc: Doc, close: &str) -> (r: Doc)
        ensures
            r@ == wrapped(open@, doc@, close@),
    {
        let inner = vec![Doc::soft_line(), doc];
        assert(views(inner@) =~= seq![Layout::SoftLine, doc@]);
        let v = vec![Doc::text(open), Doc::indent(Doc::concat(inner)), Doc::soft_line(), Doc::text(close)];
        assert(views(v@) =~= seq![
            Layout::Text(open@),
            Layout::Indent(Box::new(Layout::Concat(seq![Layout::SoftLine, doc@]))),
            Layout::SoftLine,
            Layout::Text(close@),
        ]);
        Doc::group(Doc::concat(v))
    }

    /// A copy of the document.
    pub fn duplicate(&self) -> (r: Doc)
        ensures
            r@ == self@,
        decreases self,
    {
        match self {
            Doc::Nil => Doc::Nil,
            Doc::Text(s) => Doc::Text(s.clone()),
            Doc::Concat(docs) => {
                let mut out: Vec<Doc> = Vec::new();
                let mut i: usize = 0;
                while i < docs.len()
                    invariant
                        *self == Doc::Concat(*docs),
                        i <= docs@.len(),
                        out@.len() == i,
                        forall|k: int| 0 <= k < i ==> (#[trigger] out@[k])@ == docs@[k]@,
                    decreases docs@.len() - i,
                {
                    proof {
                        assert(decreases_to!(*self => (*self)->Concat_0));
                    }
                    out.push(docs[i].duplicate());
                    i = i + 1;
                }
                let r = Doc::Concat(out);
                assert(r@->Concat_0 =~= self@->Concat_0);
                r
            },
            Doc::Line => Doc::Line,
            Doc::SoftLine => Doc::SoftLine,
            Doc::Indent(d) => Doc::Indent(Box::new(d.duplicate())),
            Doc::Group(d) => Doc::Group(Box::new(d.duplicate())),
            Doc::IfBreak { break_doc, flat_doc } => Doc::IfBreak {
                break_doc: Box::new(break_doc.duplicate()),
                flat_doc: Box::new(flat_doc.duplicate()),
            },
        }
    }

    /// Join documents with a separator
    pub fn join(docs: Vec<Doc>, sep: Doc) -> (r: Doc)
        ensures
            r@ == (if docs@.len() == 0 {
                Layout::Nil
            } else {
                Layout::Concat(joined(views(docs@), sep@))
            }),
    {
        if docs.len() == 0 {
            return Doc::nil();
        }
        let ghost all = views(docs@);
        let mut rest = docs;
        let n: usize = rest.len();
        let mut result: Vec<Doc> = Vec::new();
        let mut i: usize = 0;
        while rest.len() > 0
            invariant
                all.len() == n,
                n == docs@.len(),
                all.len() == i + rest@.len(),
                views(rest@) == all.skip(i as int),
                views(result@) == joined(all.take(i as int), sep@),
            decreases rest@.len(),
        {
            let ghost before = rest@;
            let doc = rest.remove(0);
            proof {
                lemma_views_step(before, all, i as int);
            }
            assert(all.take(i + 1).drop_last() =~= all.take(i as int));
            if i > 0 {
                result.push(sep.duplicate());
            }
            result.push(doc);
            assert(views(result@) =~= joined(all.take(i + 1), sep@));
            i = i + 1;
        }
        assert(all.take(i as int) =~= all);
        Doc::concat(result)
    }

    /// Join with commas and optional trailing comma
    pub fn join_comma(docs: Vec<Doc>, trailing: bool) -> (r: Doc)
        ensures
            r@ == comma_separated(views(docs@), trailing),
    {
        if docs.len() == 0 {
            return Doc::nil();
        }
        let ghost all = views(docs@);
        let mut rest = docs;
        let n: usize = rest.len();
        let mut result: Vec<Doc> = Vec::new();
        let mut i: usize = 0;
        while rest.len() > 0
            invariant
                all.len() == n,
                n == docs@.len(),
                all.len() == i + rest@.len(),
                views(rest@) == all.skip(i as int),
                views(result@) == comma_joined(all.take(i as int)),
            decreases rest@.len(),
        {
            proof {
                reveal_strlit(",");
            }
            let ghost before = rest@;
            let doc = rest.remove(0);
            proof {
                lemma_views_step(before, all, i as int);
            }
            assert(all.take(i + 1).drop_last() =~= all.take(i as int));
            if i > 0 {
                result.push(Doc::text(","));
                result.push(Doc::line());
            }
            result.push(doc);
            assert(views(result@) =~= comma_joined(all.take(i + 1)));
            i = i + 1;
        }
        assert(all.take(i as int) =~= all);
        if trailing {
            result.push(Doc::if_break(Doc::text(","), Doc::nil()));
        }
        assert(views(result@) =~= comma_list(all, trailing));
        Doc::concat(result)
    }
}

/// Whether a group is being laid out on one line or broken over several.
#[derive(Clone, Copy)]
enum Mode {
    Flat,
    Break,
}

/// The length of the last line of `s`, found by scanning back from its end.
fn line_len_of(s: &str) -> (r: usize)
    ensures
        r == line_len(s@),
{
    let n = s.unicode_len();
    let mut i: usize = n;
    assert(s@.take(n as int) =~= s@);
    while i > 0
        invariant
            n == s@.len(),
            i <= n,
            forall|j: int| i <= j < n ==> s@[j] != '\n',
            line_len(s@) == line_len(s@.take(i as int)) + (n - i),
        decreases i,
    {
        if s.get_char(i - 1) == '\n' {
            assert(s@.take(i as int).drop_last() =~= s@.take(i - 1));
            return n - i;
        }
        assert(s@.take(i as int).drop_last() =~= s@.take(i - 1));
        i = i - 1;
    }
    assert(s@.take(0) =~= Seq::<char>::empty());
    n
}

/// Whether `s` holds the character `c`.
pub(crate) fn contains_char(s: &str, c: char) -> (r: bool)
    ensures
        r == s@.contains(c),
{
    let n = s.unicode_len();
    let mut i: usize = 0;
    while i < n
        invariant
            n == s@.len(),
            i <= n,
            forall|j: int| 0 <= j < i ==> s@[j] != c,
        decreases n - i,
    {
        if s.get_char(i) == c {
            assert(s@[i as int] == c);
            return true;
        }
        i = i + 1;
    }
    false
}

impl Doc {
    /// Render the document to a string, starting flat at column zero, with
    /// `indent_str` as the text of one indentation level.
    pub fn render(&self, max_width: usize, indent_str: &str) -> (r: String)
        ensures
            r@ == emit(self@, Seq::empty(), max_width as int, Seq::empty(), indent_str@, false),
    {
        let mut buffer = String::new();
        let indent = String::new();
        self.render_impl(&mut buffer, max_width, indent.as_str(), indent_str, Mode::Flat);
        buffer
    }

    /// Lay the document out behind `buffer`, at the indentation `indent`, with
    /// `unit` as the text of one more level.
    fn render_impl(&self, buffer: &mut String, max_width: usize, indent: &str, unit: &str, mode: Mode)
        ensures
            final(buffer)@ == emit(self@, old(buffer)@, max_width as int, indent@, unit@, mode is Break),
        decreases self,
    {
        proof {
            reveal_strlit("\n");
            reveal_strlit(" ");
        }
        match self {
            Doc::Nil => {},
            Doc::Text(s) => buffer.append(s.as_str()),
            Doc::Concat(docs) => {
                let ghost ls = self@->Concat_0;
                let ghost start = buffer@;
                let mut i: usize = 0;
                while i < docs.len()
                    invariant
                        *self == Doc::Concat(*docs),
                        ls == Seq::new(docs@.len(), |k: int| if 0 <= k < docs@.len() { docs@[k]@ } else { Layout::Nil }),
                        i <= docs@.len(),
                        buffer@ == emit_seq(ls, i as int, start, max_width as int, indent@, unit@, mode is Break),
                    decreases docs@.len() - i,
                {
                    proof {
                        assert(decreases_to!(*self => (*self)->Concat_0));
                    }
                    docs[i].render_impl(buffer, max_width, indent, unit, mode);
                    i = i + 1;
                }
            },
            Doc::Line => match mode {
                Mode::Flat => buffer.append(" "),
                Mode::Break => {
                    buffer.append("\n");
                    buffer.append(indent);
                },
            },
            Doc::SoftLine => match mode {
                Mode::Flat => {},
                Mode::Break => {
                    buffer.append("\n");
                    buffer.append(indent);
                },
            },
            Doc::Indent(doc) => {
                let mut inner = indent.to_owned();
                inner.append(unit);
                doc.render_impl(buffer, max_width, inner.as_str(), unit, mode);
            },
            Doc::Group(doc) => {
                // Try flat mode first
                let mut flat_buffer = String::new();
                doc.render_impl(&mut flat_buffer, max_width, indent, unit, Mode::Flat);
                // Check if it fits on the current line
                let flat_len = flat_buffer.as_str().unicode_len();
                let current_line_len = line_len_of(buffer.as_str());
                let fits = !contains_char(flat_buffer.as_str(), '\n') && flat_len <= max_width
                    && current_line_len <= max_width - flat_len;
                if fits {
                    buffer.append(flat_buffer.as_str());
                } else {
                    doc.render_impl(buffer, max_width, indent, unit, Mode::Break);
                }
            },
            Doc::IfBreak { break_doc, flat_doc } => match mode {
                Mode::Break => break_doc.render_impl(buffer, max_width, indent, unit, mode),
                Mode::Flat => flat_doc.render_impl(buffer, max_width, indent, unit, mode),
            },
        }
    }
}

/// The text that a document lays out to in flat mode, on its own.
pub open spec fn flat_text(l: Layout, width: int, indent: Seq<char>, unit: Seq<char>) -> Seq<char> {
    emit(l, Seq::empty(), width, indent, unit, false)
}

/// Laying out the first `n` documents depends on those documents alone.
proof fn lemma_emit_seq_prefix(
    a: Seq<Layout>,
    b: Seq<Layout>,
    n: int,
    buf: Seq<char>,
    width: int,
    indent: Seq<char>,
    unit: Seq<char>,
    brk: bool,
)
    requires
        0 <= n <= a.len(),
        n <= b.len(),
        forall|i: int| 0 <= i < n ==> a[i] == b[i],
    ensures
        emit_seq(a, n, buf, width, indent, unit, brk) == emit_seq(b, n, buf, width, indent, unit, brk),
    decreases n,
{
    if n > 0 {
        lemma_emit_seq_prefix(a, b, n - 1, buf, width, indent, unit, brk);
    }
}

/// A line that ends in text without a newline grows by that text's length.
proof fn lemma_line_len_append(buf: Seq<char>, s: Seq<char>)
    requires
        !s.contains('\n'),
    ensures
        line_len(buf + s) == line_len(buf) + s.len(),
    decreases s.len(),
{
    if s.len() == 0 {
        assert(buf + s =~= buf);
    } else {
        let t = s.drop_last();
        assert((buf + s).drop_last() =~= buf + t);
        assert(!t.contains('\n')) by {
            if t.contains('\n') {
                let k = choose|k: int| 0 <= k < t.len() && t[k] == '\n';
                assert(s[k] == '\n');
            }
        }
        assert(s.last() != '\n') by {
            assert(s[s.len() - 1] == s.last());
        }
        lemma_line_len_append(buf, t);
    }
}

/// Group independence: a group whose flat text fits on the current line is
/// laid out flat, whatever the mode of the document around it; in particular
/// when an enclosing group has broken.
pub proof fn lemma_group_independence(
    d: Layout,
    buf: Seq<char>,
    width: int,
    indent: Seq<char>,
    unit: Seq<char>,
    brk: bool,
)
    requires
        fits(buf, flat_text(d, width, indent, unit), width),
    ensures
        emit(Layout::Group(Box::new(d)), buf, width, indent, unit, brk) == buf + flat_text(
            d,
            width,
            indent,
            unit,
        ),
{
}

/// Width of flat groups: a group that the renderer lays out flat leaves the
/// line it ends on within `width`; one that does not fit is laid out broken.
pub proof fn lemma_flat_group_within_width(
    d: Layout,
    buf: Seq<char>,
    width: int,
    indent: Seq<char>,
    unit: Seq<char>,
    brk: bool,
)
    ensures
        ({
            let flat = flat_text(d, width, indent, unit);
            let out = emit(Layout::Group(Box::new(d)), buf, width, indent, unit, brk);
            &&& fits(buf, flat, width) ==> out == buf + flat && line_len(out) <= width
            &&& !fits(buf, flat, width) ==> out == emit(d, buf, width, indent, unit, true)
        }),
{
    let flat = flat_text(d, width, indent, unit);
    if fits(buf, flat, width) {
        lemma_line_len_append(buf, flat);
    }
}

/// Trailing commas in a comma-separated list: laid out flat, the list is the
/// same with or without the trailing comma; broken, the trailing comma adds a
/// comma after the last item and nothing else.
pub proof fn lemma_trailing_comma(
    ls: Seq<Layout>,
    buf: Seq<char>,
    width: int,
    indent: Seq<char>,
    unit: Seq<char>,
)
    requires
        ls.len() > 0,
    ensures
        emit(comma_separated(ls, true), buf, width, indent, unit, false) == emit(
            comma_separated(ls, false),
            buf,
            width,
            indent,
            unit,
            false,
        ),
        emit(comma_separated(ls, true), buf, width, indent, unit, true) == emit(
            comma_separated(ls, false),
            buf,
            width,
            indent,
            unit,
            true,
        ) + ","@,
{
    let c = comma_joined(ls);
    let t = c.push(trailing_comma());
    assert(comma_list(ls, true) == t);
    assert(comma_list(ls, false) == c);
    let n = c.len() as int;
    assert(t[n] == trailing_comma());
    lemma_emit_seq_prefix(t, c, n, buf, width, indent, unit, false);
    lemma_emit_seq_prefix(t, c, n, buf, width, indent, unit, true);
    let before_flat = emit_seq(c, n, buf, width, indent, unit, false);
    let before_broken = emit_seq(c, n, buf, width, indent, unit, true);
    assert(emit_seq(t, n + 1, buf, width, indent, unit, false) == emit(trailing_comma(), before_flat, width, indent, unit, false));
    assert(emit_seq(t, n + 1, buf, width, indent, unit, true) == emit(trailing_comma(), before_broken, width, indent, unit, true));
    assert(emit(Layout::Nil, before_flat, width, indent, unit, false) == before_flat);
    assert(emit(Layout::Text(","@), before_broken, width, indent, unit, true) == before_broken + ","@);
    assert(emit(trailing_comma(), before_flat, width, indent, unit, false) == before_flat);
    assert(emit(trailing_comma(), before_broken, width, indent, unit, true) == before_broken + ","@);
}

/// How the contents of a `wrapped` group lay out in either mode.
proof fn lemma_emit_wrapped_body(
    open: Seq<char>,
    inner: Layout,
    close: Seq<char>,
    buf: Seq<char>,
    width: int,
    indent: Seq<char>,
    unit: Seq<char>,
    brk: bool,
)
    ensures
        brk ==> emit(wrapped_body(open, inner, close), buf, width, indent, unit, brk) == emit(
            inner,
            buf + open + newline(indent + unit),
            width,
            indent + unit,
            unit,
            true,
        ) + newline(indent) + close,
        !brk ==> emit(wrapped_body(open, inner, close), buf, width, indent, unit, brk) == emit(
            inner,
            buf + open,
            width,
            indent + unit,
            unit,
            false,
        ) + close,
{
    let s = seq![
        Layout::Text(open),
        Layout::Indent(Box::new(Layout::Concat(seq![Layout::SoftLine, inner]))),
        Layout::SoftLine,
        Layout::Text(close),
    ];
    let in_seq = seq![Layout::SoftLine, inner];
    let ind2 = indent + unit;
    let b1 = emit_seq(s, 1, buf, width, indent, unit, brk);
    assert(s.len() == 4);
    assert(in_seq.len() == 2);
    assert(s[0] == Layout::Text(open));
    assert(s[1] == Layout::Indent(Box::new(Layout::Concat(in_seq))));
    assert(s[2] == Layout::SoftLine);
    assert(s[3] == Layout::Text(close));
    assert(in_seq[0] == Layout::SoftLine);
    assert(in_seq[1] == inner);
    assert(emit_seq(s, 0, buf, width, indent, unit, brk) == buf);
    assert(b1 == emit(Layout::Text(open), buf, width, indent, unit, brk));
    assert(b1 == buf + open);
    let after_soft = emit(Layout::SoftLine, b1, width, ind2, unit, brk);
    assert(emit_seq(in_seq, 0, b1, width, ind2, unit, brk) == b1);
    assert(emit_seq(in_seq, 1, b1, width, ind2, unit, brk) == after_soft);
    assert(emit_seq(in_seq, 2, b1, width, ind2, unit, brk) == emit(inner, after_soft, width, ind2, unit, brk));
    let b2 = emit(inner, after_soft, width, ind2, unit, brk);
    assert(emit(Layout::Concat(in_seq), b1, width, ind2, unit, brk) == b2);
    assert(emit(s[1], b1, width, indent, unit, brk) == b2);
    assert(emit_seq(s, 2, buf, width, indent, unit, brk) == b2);
    let b3 = emit(Layout::SoftLine, b2, width, indent, unit, brk);
    assert(emit_seq(s, 3, buf, width, indent, unit, brk) == b3);
    assert(emit(Layout::Text(close), b3, width, indent, unit, brk) == b3 + close);
    assert(emit_seq(s, 4, buf, width, indent, unit, brk) == b3 + close);
    assert(emit(wrapped_body(open, inner, close), buf, width, indent, unit, brk) == b3 + close);
    if !brk {
        assert(after_soft == b1);
        assert(b3 == b2);
    }
}

/// Trailing commas in a bracketed list: where the list fits on the line it is
/// laid out the same with or without the trailing comma; where it breaks, the
/// trailing comma puts a comma after the last item, before the line break and
/// the closing bracket, and nothing else changes.
pub proof fn lemma_wrapped_trailing_comma(
    open: Seq<char>,
    ls: Seq<Layout>,
    close: Seq<char>,
    buf: Seq<char>,
    width: int,
    indent: Seq<char>,
    unit: Seq<char>,
    brk: bool,
)
    requires
        ls.len() > 0,
    ensures
        ({
            let with = emit(wrapped(open, comma_separated(ls, true), close), buf, width, indent, unit, brk);
            let without = emit(wrapped(open, comma_separated(ls, false), close), buf, width, indent, unit, brk);
            let flat = flat_text(wrapped_body(open, comma_separated(ls, false), close), width, indent, unit);
            let items = emit(
                comma_separated(ls, false),
                buf + open + newline(indent + unit),
                width,
                indent + unit,
                unit,
                true,
            );
            &&& fits(buf, flat, width) ==> with == without && without == buf + flat
            &&& !fits(buf, flat, width) ==> without == items + newline(indent) + close && with == items
                + ","@ + newline(indent) + close
        }),
{
    let t = comma_separated(ls, true);
    let f = comma_separated(ls, false);
    let e = Seq::<char>::empty();
    lemma_emit_wrapped_body(open, t, close, e, width, indent, unit, false);
    lemma_emit_wrapped_body(open, f, close, e, width, indent, unit, false);
    lemma_trailing_comma(ls, e + open, width, indent + unit, unit);
    lemma_emit_wrapped_body(open, t, close, buf, width, indent, unit, true);
    lemma_emit_wrapped_body(open, f, close, buf, width, indent, unit, true);
    lemma_trailing_comma(ls, buf + open + newline(indent + unit), width, indent + unit, unit);
    let items = emit(f, buf + open + newline(indent + unit), width, indent + unit, unit, true);
    assert(items + ","@ + newline(indent) + close =~= (items + ","@) + newline(indent) + close);
}

} // verus!
