//! The syntax-tree model that the transform reads and rewrites.
//!
//! Only the node shapes that the glob-import expansion inspects or produces
//! are modelled; everything else is carried through as `Opaque`.

use vstd::prelude::*;

verus! {

/// Key of an object-literal property: an identifier or a quoted string.
#[derive(Debug, PartialEq)]
pub enum PropKey {
    Ident(String),
    Str(String),
}

/// One object-literal property. Non-key/value forms (spreads, shorthands,
/// accessors) are opaque: the transform neither reads nor produces them.
#[derive(Debug, PartialEq)]
pub enum Prop {
    KeyValue { key: PropKey, value: Expr },
    Opaque,
}

/// An expression. `LazyImport(s)` is the zero-argument deferred-load thunk
/// targeting specifier `s`; `ImportMeta` is the reserved current-module
/// metadata expression on which `glob` calls are recognized.
#[derive(Debug, PartialEq)]
pub enum Expr {
    Call { callee: Box<Expr>, args: Vec<Expr> },
    Member { obj: Box<Expr>, prop: String },
    ImportMeta,
    Ident(String),
    StrLit(String),
    BoolLit(bool),
    Object(Vec<Prop>),
    LazyImport(String),
    Assign { target: String, value: Box<Expr> },
    Opaque,
}

/// A top-level module item. `Import` is a default-style import declaration
/// binding `local` to the module at `src`.
#[derive(Debug, PartialEq)]
pub enum ModuleItem {
    Import { local: String, src: String },
    VarDecl { name: String, init: Option<Expr> },
    ExprStmt(Expr),
    Opaque,
}

/// A fatal, per-file transform failure. An unreadable directory entry is
/// not here: it is non-fatal and only recorded as a warning.
#[derive(Clone, Copy, Debug, PartialEq, Eq, Structural)]
pub enum TransformError {
    /// The glob pattern itself cannot be parsed; the file's transform aborts.
    GlobPatternInvalid,
    /// The pattern argument is missing or is not a string literal; glob
    /// expansion is a compile-time operation and cannot resolve it.
    GlobArgumentNotLiteral,
}

/// One resolved file: the path relative to the base directory as the
/// filesystem walk produced it, and the output specifier derived from it
/// (forward slashes, `./`-prefixed).
#[derive(Debug, PartialEq)]
pub struct GlobMatch {
    pub raw: String,
    pub specifier: String,
}

/// The characters of the member name that marks a glob-import call.
pub open spec fn glob_sym() -> Seq<char> {
    seq!['g', 'l', 'o', 'b']
}

/// A call expression is a glob-import request iff its callee is a member
/// access named `glob` whose receiver is the module-metadata expression.
pub open spec fn is_glob_call(e: Expr) -> bool {
    &&& e matches Expr::Call { callee, .. }
    &&& *callee matches Expr::Member { obj, prop }
    &&& *obj is ImportMeta
    &&& prop@ == glob_sym()
}

/// Number of glob-import calls anywhere inside `e`.
pub open spec fn count_expr(e: Expr) -> nat
    decreases e,
{
    (if is_glob_call(e) {
        1nat
    } else {
        0nat
    }) + match e {
        Expr::Call { callee, args } => count_expr(*callee) + count_expr_seq(args@),
        Expr::Member { obj, .. } => count_expr(*obj),
        Expr::Object(props) => count_prop_seq(props@),
        Expr::Assign { value, .. } => count_expr(*value),
        _ => 0nat,
    }
}

pub open spec fn count_expr_seq(s: Seq<Expr>) -> nat
    decreases s,
{
    if s.len() == 0 {
        0nat
    } else {
        count_expr(s[0]) + count_expr_seq(s.drop_first())
    }
}

pub open spec fn count_prop(p: Prop) -> nat
    decreases p,
{
    match p {
        Prop::KeyValue { value, .. } => count_expr(value),
        Prop::Opaque => 0nat,
    }
}

pub open spec fn count_prop_seq(s: Seq<Prop>) -> nat
    decreases s,
{
    if s.len() == 0 {
        0nat
    } else {
        count_prop(s[0]) + count_prop_seq(s.drop_first())
    }
}

/// Number of glob-import calls in an item.
pub open spec fn count_item(it: ModuleItem) -> nat {
    match it {
        ModuleItem::VarDecl { init: Some(e), .. } => count_expr(e),
        ModuleItem::ExprStmt(e) => count_expr(e),
        _ => 0nat,
    }
}

/// Number of glob-import calls in a whole module body.
pub open spec fn count_items(s: Seq<ModuleItem>) -> nat
    decreases s,
{
    if s.len() == 0 {
        0nat
    } else {
        count_item(s[0]) + count_items(s.drop_first())
    }
}

/// Deep content equality of expressions: same shape, with strings compared
/// by their character sequences.
pub open spec fn expr_eq(a: Expr, b: Expr) -> bool
    decreases a,
{
    match (a, b) {
        (Expr::Call { callee: c1, args: a1 }, Expr::Call { callee: c2, args: a2 }) => {
            &&& expr_eq(*c1, *c2)
            &&& a1@.len() == a2@.len()
            &&& forall|i: int| 0 <= i < a1@.len() ==> expr_eq(#[trigger] a1@[i], a2@[i])
        },
        (Expr::Member { obj: o1, prop: p1 }, Expr::Member { obj: o2, prop: p2 }) => {
            &&& expr_eq(*o1, *o2)
            &&& p1@ == p2@
        },
        (Expr::ImportMeta, Expr::ImportMeta) => true,
        (Expr::Ident(s1), Expr::Ident(s2)) => s1@ == s2@,
        (Expr::StrLit(s1), Expr::StrLit(s2)) => s1@ == s2@,
        (Expr::BoolLit(b1), Expr::BoolLit(b2)) => b1 == b2,
        (Expr::Object(p1), Expr::Object(p2)) => {
            &&& p1@.len() == p2@.len()
            &&& forall|i: int| 0 <= i < p1@.len() ==> prop_eq(#[trigger] p1@[i], p2@[i])
        },
        (Expr::LazyImport(s1), Expr::LazyImport(s2)) => s1@ == s2@,
        (Expr::Assign { target: t1, value: v1 }, Expr::Assign { target: t2, value: v2 }) => {
            &&& t1@ == t2@
            &&& expr_eq(*v1, *v2)
        },
        (Expr::Opaque, Expr::Opaque) => true,
        _ => false,
    }
}

pub open spec fn prop_eq(a: Prop, b: Prop) -> bool
    decreases a,
{
    match (a, b) {
        (Prop::KeyValue { key: k1, value: v1 }, Prop::KeyValue { key: k2, value: v2 }) => {
            &&& key_eq(k1, k2)
            &&& expr_eq(v1, v2)
        },
        (Prop::Opaque, Prop::Opaque) => true,
        _ => false,
    }
}

pub open spec fn key_eq(a: PropKey, b: PropKey) -> bool {
    match (a, b) {
        (PropKey::Ident(s1), PropKey::Ident(s2)) => s1@ == s2@,
        (PropKey::Str(s1), PropKey::Str(s2)) => s1@ == s2@,
        _ => false,
    }
}

/// Deep content equality of module items.
pub open spec fn item_eq(a: ModuleItem, b: ModuleItem) -> bool {
    match (a, b) {
        (ModuleItem::Import { local: l1, src: s1 }, ModuleItem::Import { local: l2, src: s2 }) => {
            l1@ == l2@ && s1@ == s2@
        },
        (ModuleItem::VarDecl { name: n1, init: i1 }, ModuleItem::VarDecl { name: n2, init: i2 }) => {
            &&& n1@ == n2@
            &&& match (i1, i2) {
                (Some(e1), Some(e2)) => expr_eq(e1, e2),
                (None, None) => true,
                _ => false,
            }
        },
        (ModuleItem::ExprStmt(e1), ModuleItem::ExprStmt(e2)) => expr_eq(e1, e2),
        (ModuleItem::Opaque, ModuleItem::Opaque) => true,
        _ => false,
    }
}

} // verus!
