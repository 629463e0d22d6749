use vstd::prelude::*;

verus! {

/// A literal value of the expression language.
#[derive(Debug)]
pub enum Literal {
    Null,
    Boolean(bool),
    Int(i64),
    UInt(u64),
    /// A double, held as the shortest decimal text that reads back as it
    Double(String),
    String(String),
    Bytes(Vec<u8>),
    /// A duration, in whole seconds
    Duration(i64),
    /// A timestamp, held as the text of the value
    Timestamp(String),
}

/// A field selection, `operand.field`; with `test` set, the presence test
/// `has(operand.field)`.
#[derive(Debug)]
pub struct SelectExpr {
    pub operand: Box<Expr>,
    pub field: String,
    pub test: bool,
}

/// A call of `func_name`, on `target` where it is a method call. Operators
/// are calls too, of names such as `_+_`, `!_`, `_?_:_` and `_[_]`.
#[derive(Debug)]
pub struct CallExpr {
    pub func_name: String,
    pub target: Option<Box<Expr>>,
    pub args: Vec<Expr>,
}

/// A struct literal, `TypeName{field: value, ...}`.
#[derive(Debug)]
pub struct StructExpr {
    pub name: String,
    pub entries: Vec<EntryExpr>,
}

/// An entry of a map or struct literal.
#[derive(Debug)]
pub enum EntryExpr {
    StructField { field: String, value: Expr },
    MapEntry { key: Expr, value: Expr },
}

/// A comprehension: the loop that a macro such as `map` or `all` expands to.
#[derive(Debug)]
pub struct ComprehensionExpr {
    pub iter_range: Expr,
    pub iter_var: String,
    pub accu_var: String,
    pub accu_init: Expr,
    pub loop_cond: Expr,
    pub loop_step: Expr,
    pub result: Expr,
}

/// A node of the syntax tree that the parser produces.
#[derive(Debug)]
pub enum Expr {
    Unspecified,
    Ident(String),
    Literal(Literal),
    Select(SelectExpr),
    Call(CallExpr),
    List(Vec<Expr>),
    MapLiteral(Vec<EntryExpr>),
    Struct(StructExpr),
    Comprehension(Box<ComprehensionExpr>),
}

} // verus!
