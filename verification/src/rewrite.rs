//! The rewriter: recognizes glob-import calls, decides eager vs. lazy mode,
//! expands each call into a generated object literal, and hoists the
//! accumulated import declarations to the top of the module body.

use vstd::prelude::*;
use crate::ast::{
    count_expr, count_expr_seq, count_item, count_items, count_prop, count_prop_seq, expr_eq,
    glob_sym,
    is_glob_call, item_eq, key_eq, Expr, GlobMatch, ModuleItem, Prop, PropKey, TransformError,
};
use crate::codegen::{
    binding_name, binding_name_spec, expansion_shape, from_earlier_call,
    lemma_binding_name_injective, obj_expansion, pending_wf, prop_expansion,
};
use crate::resolve::resolve;
use crate::strnum::{parent_dir, str_eq};

verus! {

// ---------------------------------------------------------------------------
// Specification of mode extraction and argument checking
// ---------------------------------------------------------------------------

/// The characters of the option key that selects eager mode.
pub open spec fn eager_sym() -> Seq<char> {
    seq!['e', 'a', 'g', 'e', 'r']
}

/// A property that decides the mode: key literally `eager`, boolean value.
pub open spec fn eager_entry(p: Prop) -> bool {
    &&& p matches Prop::KeyValue { key, value }
    &&& key matches PropKey::Ident(s)
    &&& s@ == eager_sym()
    &&& value is BoolLit
}

pub open spec fn eager_entry_value(p: Prop) -> bool {
    p->KeyValue_value->BoolLit_0
}

/// Scan an option object's properties: the first `eager` key with a boolean
/// literal value decides; anything else is ignored.
pub open spec fn eager_scan(props: Seq<Prop>) -> bool
    decreases props.len(),
{
    if props.len() == 0 {
        false
    } else if eager_entry(props[0]) {
        eager_entry_value(props[0])
    } else {
        eager_scan(props.drop_first())
    }
}

/// Eager mode from the call's second argument: `false` unless the argument
/// is an object literal whose scan finds `eager: true`. A malformed options
/// argument degrades silently to lazy mode.
pub open spec fn spec_is_eager(arg: Expr) -> bool {
    match arg {
        Expr::Object(props) => eager_scan(props@),
        _ => false,
    }
}

/// A matched call whose expansion is eager.
pub open spec fn call_eager(e: Expr) -> bool {
    &&& e matches Expr::Call { args, .. }
    &&& args@.len() > 1
    &&& spec_is_eager(args@[1])
}

/// A matched call whose pattern argument is missing or not a string
/// literal: a fatal error, since glob expansion is compile-time only.
pub open spec fn call_bad_arg(e: Expr) -> bool {
    &&& e matches Expr::Call { args, .. }
    &&& (args@.len() == 0 || !(args@[0] is StrLit))
}

/// Somewhere in `e` there is a glob-import call with a bad pattern
/// argument.
pub open spec fn has_bad_call(e: Expr) -> bool
    decreases e,
{
    ||| (is_glob_call(e) && call_bad_arg(e))
    ||| match e {
        Expr::Call { callee, args } => has_bad_call(*callee) || has_bad_call_seq(args@),
        Expr::Member { obj, .. } => has_bad_call(*obj),
        Expr::Object(props) => has_bad_call_props(props@),
        Expr::Assign { value, .. } => has_bad_call(*value),
        _ => false,
    }
}

pub open spec fn has_bad_call_seq(s: Seq<Expr>) -> bool
    decreases s,
{
    if s.len() == 0 {
        false
    } else {
        has_bad_call(s[0]) || has_bad_call_seq(s.drop_first())
    }
}

pub open spec fn prop_has_bad(p: Prop) -> bool
    decreases p,
{
    match p {
        Prop::KeyValue { value, .. } => has_bad_call(value),
        Prop::Opaque => false,
    }
}

pub open spec fn has_bad_call_props(s: Seq<Prop>) -> bool
    decreases s,
{
    if s.len() == 0 {
        false
    } else {
        prop_has_bad(s[0]) || has_bad_call_props(s.drop_first())
    }
}

pub open spec fn has_bad_call_item(it: ModuleItem) -> bool {
    match it {
        ModuleItem::VarDecl { init: Some(e), .. } => has_bad_call(e),
        ModuleItem::ExprStmt(e) => has_bad_call(e),
        _ => false,
    }
}

pub open spec fn has_bad_call_items(s: Seq<ModuleItem>) -> bool
    decreases s,
{
    if s.len() == 0 {
        false
    } else {
        has_bad_call_item(s[0]) || has_bad_call_items(s.drop_first())
    }
}

/// Somewhere in `e` there is an eager glob-import call (only those add
/// pending import declarations).
pub open spec fn has_eager_call(e: Expr) -> bool
    decreases e,
{
    ||| (is_glob_call(e) && call_eager(e))
    ||| match e {
        Expr::Call { callee, args } => has_eager_call(*callee) || has_eager_call_seq(args@),
        Expr::Member { obj, .. } => has_eager_call(*obj),
        Expr::Object(props) => has_eager_call_props(props@),
        Expr::Assign { value, .. } => has_eager_call(*value),
        _ => false,
    }
}

pub open spec fn has_eager_call_seq(s: Seq<Expr>) -> bool
    decreases s,
{
    if s.len() == 0 {
        false
    } else {
        has_eager_call(s[0]) || has_eager_call_seq(s.drop_first())
    }
}

pub open spec fn prop_has_eager(p: Prop) -> bool
    decreases p,
{
    match p {
        Prop::KeyValue { value, .. } => has_eager_call(value),
        Prop::Opaque => false,
    }
}

pub open spec fn has_eager_call_props(s: Seq<Prop>) -> bool
    decreases s,
{
    if s.len() == 0 {
        false
    } else {
        prop_has_eager(s[0]) || has_eager_call_props(s.drop_first())
    }
}

pub open spec fn has_eager_call_item(it: ModuleItem) -> bool {
    match it {
        ModuleItem::VarDecl { init: Some(e), .. } => has_eager_call(e),
        ModuleItem::ExprStmt(e) => has_eager_call(e),
        _ => false,
    }
}

pub open spec fn has_eager_call_items(s: Seq<ModuleItem>) -> bool
    decreases s,
{
    if s.len() == 0 {
        false
    } else {
        has_eager_call_item(s[0]) || has_eager_call_items(s.drop_first())
    }
}

/// The pattern text of a matched call with a string-literal argument.
pub open spec fn call_pattern(e: Expr) -> Seq<char>
    recommends
        is_glob_call(e),
        !call_bad_arg(e),
{
    e->Call_args[0]->StrLit_0@
}

/// The pattern string handed to the filesystem walk for call `e` in the
/// file at `filepath`: the literal pattern joined under the file's
/// directory.
pub open spec fn full_pattern(e: Expr, filepath: Seq<char>) -> Seq<char> {
    crate::strnum::join_spec(crate::strnum::parent_spec(filepath), call_pattern(e))
}

/// Somewhere in `e` there is a glob-import call whose string-literal
/// pattern the walk rejects; only such calls (and bad-argument calls) make
/// the transform fail.
pub open spec fn has_invalid_pattern(e: Expr, fp: Seq<char>) -> bool
    decreases e,
{
    ||| (is_glob_call(e) && !call_bad_arg(e) && !crate::resolve::pattern_ok(full_pattern(e, fp)))
    ||| match e {
        Expr::Call { callee, args } => has_invalid_pattern(*callee, fp) || has_invalid_pattern_seq(
            args@,
            fp,
        ),
        Expr::Member { obj, .. } => has_invalid_pattern(*obj, fp),
        Expr::Object(props) => has_invalid_pattern_props(props@, fp),
        Expr::Assign { value, .. } => has_invalid_pattern(*value, fp),
        _ => false,
    }
}

pub open spec fn has_invalid_pattern_seq(s: Seq<Expr>, fp: Seq<char>) -> bool
    decreases s,
{
    if s.len() == 0 {
        false
    } else {
        has_invalid_pattern(s[0], fp) || has_invalid_pattern_seq(s.drop_first(), fp)
    }
}

pub open spec fn prop_has_invalid_pattern(p: Prop, fp: Seq<char>) -> bool
    decreases p,
{
    match p {
        Prop::KeyValue { value, .. } => has_invalid_pattern(value, fp),
        Prop::Opaque => false,
    }
}

pub open spec fn has_invalid_pattern_props(s: Seq<Prop>, fp: Seq<char>) -> bool
    decreases s,
{
    if s.len() == 0 {
        false
    } else {
        prop_has_invalid_pattern(s[0], fp) || has_invalid_pattern_props(s.drop_first(), fp)
    }
}

pub open spec fn has_invalid_pattern_item(it: ModuleItem, fp: Seq<char>) -> bool {
    match it {
        ModuleItem::VarDecl { init: Some(e), .. } => has_invalid_pattern(e, fp),
        ModuleItem::ExprStmt(e) => has_invalid_pattern(e, fp),
        _ => false,
    }
}

pub open spec fn has_invalid_pattern_items(s: Seq<ModuleItem>, fp: Seq<char>) -> bool
    decreases s,
{
    if s.len() == 0 {
        false
    } else {
        has_invalid_pattern_item(s[0], fp) || has_invalid_pattern_items(s.drop_first(), fp)
    }
}

// ---------------------------------------------------------------------------
// The rewriting relation
// ---------------------------------------------------------------------------

/// `b` is `a` with every glob-import call replaced by a generated object
/// literal, and everything else kept (up to string contents).
pub open spec fn rewrites_to(a: Expr, b: Expr) -> bool
    decreases a,
{
    if is_glob_call(a) {
        expansion_shape(b)
    } else {
        match (a, b) {
            (Expr::Call { callee: c1, args: a1 }, Expr::Call { callee: c2, args: a2 }) => {
                &&& rewrites_to(*c1, *c2)
                &&& a1@.len() == a2@.len()
                &&& forall|i: int| 0 <= i < a1@.len() ==> rewrites_to(#[trigger] a1@[i], a2@[i])
            },
            (Expr::Member { obj: o1, prop: p1 }, Expr::Member { obj: o2, prop: p2 }) => {
                &&& rewrites_to(*o1, *o2)
                &&& p1@ == p2@
            },
            (Expr::ImportMeta, Expr::ImportMeta) => true,
            (Expr::Ident(s1), Expr::Ident(s2)) => s1@ == s2@,
            (Expr::StrLit(s1), Expr::StrLit(s2)) => s1@ == s2@,
            (Expr::BoolLit(b1), Expr::BoolLit(b2)) => b1 == b2,
            (Expr::Object(p1), Expr::Object(p2)) => {
                &&& p1@.len() == p2@.len()
                &&& forall|i: int| 0 <= i < p1@.len() ==> prop_rewrites_to(#[trigger] p1@[i], p2@[i])
            },
            (Expr::LazyImport(s1), Expr::LazyImport(s2)) => s1@ == s2@,
            (Expr::Assign { target: t1, value: v1 }, Expr::Assign { target: t2, value: v2 }) => {
                &&& t1@ == t2@
                &&& rewrites_to(*v1, *v2)
            },
            (Expr::Opaque, Expr::Opaque) => true,
            _ => false,
        }
    }
}

pub open spec fn prop_rewrites_to(a: Prop, b: Prop) -> bool
    decreases a,
{
    match (a, b) {
        (Prop::KeyValue { key: k1, value: v1 }, Prop::KeyValue { key: k2, value: v2 }) => {
            &&& key_eq(k1, k2)
            &&& rewrites_to(v1, v2)
        },
        (Prop::Opaque, Prop::Opaque) => true,
        _ => false,
    }
}

/// `b` is module item `a` with its expression positions rewritten.
pub open spec fn item_rewrites_to(a: ModuleItem, b: ModuleItem) -> bool {
    match (a, b) {
        (ModuleItem::Import { local: l1, src: s1 }, ModuleItem::Import { local: l2, src: s2 }) => {
            l1@ == l2@ && s1@ == s2@
        },
        (ModuleItem::VarDecl { name: n1, init: i1 }, ModuleItem::VarDecl { name: n2, init: i2 }) => {
            &&& n1@ == n2@
            &&& match (i1, i2) {
                (Some(e1), Some(e2)) => rewrites_to(e1, e2),
                (None, None) => true,
                _ => false,
            }
        },
        (ModuleItem::ExprStmt(e1), ModuleItem::ExprStmt(e2)) => rewrites_to(e1, e2),
        (ModuleItem::Opaque, ModuleItem::Opaque) => true,
        _ => false,
    }
}

// ---------------------------------------------------------------------------
// Transform state
// ---------------------------------------------------------------------------

/// Per-file transform state: the path of the file under transform, the
/// pending import declarations accumulated for eager matches (local
/// identifier, module specifier), the monotonic call-site counter, and the
/// warnings recorded for unreadable directory entries. One value of this
/// type processes exactly one file.
pub struct GlobImport {
    pub filepath: String,
    pub module_items: Vec<(String, String)>,
    pub glob_index: usize,
    pub warnings: Vec<String>,
}

/// Fresh per-file transform state for the file at `filepath`.
pub fn glob_import_transform(filepath: String) -> (r: GlobImport)
    ensures
        r.filepath@ == filepath@,
        r.module_items@.len() == 0,
        r.glob_index == 0,
        r.warnings@.len() == 0,
{
    GlobImport { filepath, module_items: Vec::new(), glob_index: 0, warnings: Vec::new() }
}

impl GlobImport {
    /// The pending-import list is well formed for the current call index.
    pub open spec fn wf(self) -> bool {
        pending_wf(self.module_items@, self.glob_index as nat)
    }

    /// Is `e` a glob-import request?
    pub fn is_glob_import(&self, e: &Expr) -> (r: bool)
        ensures
            r == is_glob_call(*e),
    {
        match e {
            Expr::Call { callee, .. } => match &**callee {
                Expr::Member { obj, prop } => match &**obj {
                    Expr::ImportMeta => {
                        let r = str_eq(prop.as_str(), "glob");
                        proof {
                            reveal_strlit("glob");
                            assert("glob"@ =~= glob_sym());
                        }
                        r
                    },
                    _ => false,
                },
                _ => false,
            },
            _ => false,
        }
    }

    /// Decide eager mode from the call's second argument.
    pub fn is_eager(&self, n: &Expr) -> (r: bool)
        ensures
            r == spec_is_eager(*n),
    {
        match n {
            Expr::Object(props) => {
                proof {
                    assert(props@.skip(0) =~= props@);
                }
                let mut i: usize = 0;
                while i < props.len()
                    invariant
                        *n is Object,
                        n->Object_0@ == props@,
                        0 <= i <= props@.len(),
                        eager_scan(props@) == eager_scan(props@.skip(i as int)),
                    decreases props@.len() - i,
                {
                    proof {
                        assert(props@.skip(i as int)[0] == props@[i as int]);
                        assert(props@.skip(i as int).drop_first() =~= props@.skip(i + 1 as int));
                    }
                    match &props[i] {
                        Prop::KeyValue { key: PropKey::Ident(s), value: Expr::BoolLit(b) } => {
                            let hit = str_eq(s.as_str(), "eager");
                            proof {
                                reveal_strlit("eager");
                                assert("eager"@ =~= eager_sym());
                            }
                            if hit {
                                proof {
                                    assert(eager_entry(props@[i as int]));
                                    assert(eager_scan(props@.skip(i as int)) == eager_entry_value(
                                        props@[i as int],
                                    ));
                                    assert(eager_entry_value(props@[i as int]) == *b);
                                }
                                return *b;
                            }
                        },
                        _ => {},
                    }
                    proof {
                        assert(!eager_entry(props@[i as int]));
                    }
                    i = i + 1;
                }
                proof {
                    assert(props@.skip(i as int).len() == 0);
                }
                false
            },
            _ => false,
        }
    }

    /// Build one default-style import declaration.
    pub fn import_decl(&self, local: &str, src: &str) -> (r: ModuleItem)
        ensures
            (r matches ModuleItem::Import { local: l, src: s } && l@ == local@ && s@ == src@),
    {
        ModuleItem::Import { local: String::from_str(local), src: String::from_str(src) }
    }

    /// Build the deferred-load thunk for one specifier.
    pub fn dynamic_import(&self, specifier: &str) -> (r: Expr)
        ensures
            (r matches Expr::LazyImport(s) && s@ == specifier@),
    {
        Expr::LazyImport(String::from_str(specifier))
    }

    /// Assemble the replacement object literal for call site `k` over the
    /// resolved matches, registering one pending import per match in eager
    /// mode and nothing in lazy mode.
    fn build_object(&mut self, ms: &Vec<GlobMatch>, eager: bool, k: usize) -> (r: Expr)
        requires
            pending_wf(old(self).module_items@, k as nat),
        ensures
            final(self).filepath@ == old(self).filepath@,
            final(self).glob_index == old(self).glob_index,
            final(self).warnings@ == old(self).warnings@,
            obj_expansion(r, ms@, eager, k as nat),
            pending_wf(final(self).module_items@, k as nat + 1),
            forall|a: int|
                0 <= a < old(self).module_items@.len() ==> final(self).module_items@[a] == old(
                    self,
                ).module_items@[a],
            eager ==> final(self).module_items@.len() == old(self).module_items@.len() + ms@.len(),
            eager ==> forall|t: int|
                0 <= t < ms@.len() ==> ((#[trigger] final(self).module_items@[old(
                    self,
                ).module_items@.len() + t]).0@ == binding_name_spec(k as nat, t as nat)
                    && final(self).module_items@[old(self).module_items@.len() + t].1@
                    == ms@[t].specifier@),
            !eager ==> final(self).module_items@ == old(self).module_items@,
    {
        let ghost p0 = old(self).module_items@;
        let mut props: Vec<Prop> = Vec::new();
        let mut j: usize = 0;
        while j < ms.len()
            invariant
                0 <= j <= ms@.len(),
                props@.len() == j,
                pending_wf(p0, k as nat),
                p0 == old(self).module_items@,
                self.filepath@ == old(self).filepath@,
                self.glob_index == old(self).glob_index,
                self.warnings@ == old(self).warnings@,
                forall|t: int|
                    0 <= t < j ==> prop_expansion(
                        #[trigger] props@[t],
                        ms@[t],
                        eager,
                        k as nat,
                        t as nat,
                    ),
                eager ==> self.module_items@.len() == p0.len() + j,
                !eager ==> self.module_items@ == p0,
                forall|a: int| 0 <= a < p0.len() ==> self.module_items@[a] == p0[a],
                eager ==> forall|t: int|
                    0 <= t < j ==> ((#[trigger] self.module_items@[p0.len() + t]).0@
                        == binding_name_spec(k as nat, t as nat) && self.module_items@[p0.len()
                        + t].1@ == ms@[t].specifier@),
            decreases ms@.len() - j,
        {
            let value = if eager {
                let local = binding_name(k, j);
                let entry_local = local.clone();
                let entry_src = ms[j].specifier.clone();
                self.module_items.push((entry_local, entry_src));
                Expr::Ident(local)
            } else {
                self.dynamic_import(ms[j].specifier.as_str())
            };
            let key = PropKey::Str(ms[j].specifier.clone());
            props.push(Prop::KeyValue { key, value });
            j = j + 1;
        }
        proof {
            // Every entry is either one of the pre-existing ones (from an
            // earlier call site) or a fresh `(k, t)` binding; the synthesized
            // names are pairwise distinct by injectivity of the naming rule.
            assert forall|a: int, b: int|
                0 <= a < b < self.module_items@.len() implies (#[trigger] self.module_items@[a]).0@
                != (#[trigger] self.module_items@[b]).0@ by {
                if b < p0.len() {
                    assert(self.module_items@[a] == p0[a]);
                    assert(self.module_items@[b] == p0[b]);
                } else if a < p0.len() {
                    let t = b - p0.len();
                    assert(self.module_items@[a] == p0[a]);
                    assert((self.module_items@[p0.len() + t]).0@ == binding_name_spec(
                        k as nat,
                        t as nat,
                    ));
                    assert(from_earlier_call(p0[a].0@, k as nat));
                    let (k1, j1) = choose|k1: nat, j1: nat|
                        k1 < k as nat && p0[a].0@ == binding_name_spec(k1, j1);
                    if self.module_items@[a].0@ == self.module_items@[b].0@ {
                        lemma_binding_name_injective(k1, j1, k as nat, t as nat);
                        assert(false);
                    }
                } else {
                    let t1 = a - p0.len();
                    let t2 = b - p0.len();
                    assert((self.module_items@[p0.len() + t1]).0@ == binding_name_spec(
                        k as nat,
                        t1 as nat,
                    ));
                    assert((self.module_items@[p0.len() + t2]).0@ == binding_name_spec(
                        k as nat,
                        t2 as nat,
                    ));
                    if self.module_items@[a].0@ == self.module_items@[b].0@ {
                        lemma_binding_name_injective(k as nat, t1 as nat, k as nat, t2 as nat);
                        assert(false);
                    }
                }
            }
            assert forall|a: int| 0 <= a < self.module_items@.len() implies from_earlier_call(
                (#[trigger] self.module_items@[a]).0@,
                k as nat + 1,
            ) by {
                if a < p0.len() {
                    assert(self.module_items@[a] == p0[a]);
                    assert(from_earlier_call(p0[a].0@, k as nat));
                    let (k1, j1) = choose|k1: nat, j1: nat|
                        k1 < k as nat && p0[a].0@ == binding_name_spec(k1, j1);
                    assert(k1 < k as nat + 1 && self.module_items@[a].0@ == binding_name_spec(
                        k1,
                        j1,
                    ));
                } else {
                    let t = a - p0.len();
                    assert((self.module_items@[p0.len() + t]).0@ == binding_name_spec(
                        k as nat,
                        t as nat,
                    ));
                    assert((k as nat) < k as nat + 1);
                }
            }
        }
        Expr::Object(props)
    }

    /// Expand one matched glob-import call: extract the pattern (which must
    /// be a string literal), decide the mode, resolve the pattern under the
    /// directory of the file under transform, record warnings for
    /// unreadable entries, and build the replacement object literal. The
    /// call-site counter advances by exactly one.
    pub fn glob(&mut self, e: &Expr) -> (res: Result<Expr, TransformError>)
        requires
            is_glob_call(*e),
            old(self).wf(),
            old(self).glob_index < usize::MAX,
        ensures
            final(self).wf(),
            final(self).filepath@ == old(self).filepath@,
            final(self).module_items@.len() >= old(self).module_items@.len(),
            forall|a: int|
                0 <= a < old(self).module_items@.len() ==> final(self).module_items@[a] == old(
                    self,
                ).module_items@[a],
            res matches Ok(r) ==> ({
                &&& final(self).glob_index == old(self).glob_index + 1
                &&& expansion_shape(r)
                &&& count_expr(r) == 0
                &&& !is_glob_call(r)
                &&& exists|ms: Seq<GlobMatch>|
                    obj_expansion(r, ms, call_eager(*e), old(self).glob_index as nat)
                        && crate::resolve::sorted_matches(ms) && crate::resolve::matches_linked(
                        ms,
                    )
                &&& (!call_eager(*e) ==> final(self).module_items@ == old(self).module_items@)
                &&& (call_eager(*e) ==> final(self).module_items@.len() == old(
                    self,
                ).module_items@.len() + r->Object_0@.len() && forall|t: int|
                    0 <= t < r->Object_0@.len() ==> ((#[trigger] final(self).module_items@[old(
                        self,
                    ).module_items@.len() + t]).0@ == binding_name_spec(
                        old(self).glob_index as nat,
                        t as nat,
                    ) && final(self).module_items@[old(self).module_items@.len() + t].1@
                        == r->Object_0@[t]->KeyValue_key->Str_0@))
            }),
            res is Err ==> final(self).glob_index == old(self).glob_index && final(self).module_items@ == old(self).module_items@,
            (res == Err::<Expr, TransformError>(TransformError::GlobArgumentNotLiteral))
                <==> call_bad_arg(*e),
            res is Ok <==> (!call_bad_arg(*e) && crate::resolve::pattern_ok(
                full_pattern(*e, old(self).filepath@),
            )),
            final(self).warnings@.len() >= old(self).warnings@.len(),
            forall|a: int|
                0 <= a < old(self).warnings@.len() ==> final(self).warnings@[a] == old(
                    self,
                ).warnings@[a],
            res is Err ==> final(self).warnings@ == old(self).warnings@,
    {
        let (pat, eager) = match e {
            Expr::Call { args, .. } => {
                if args.len() == 0 {
                    return Err(TransformError::GlobArgumentNotLiteral);
                }
                let pat = match &args[0] {
                    Expr::StrLit(s) => s,
                    _ => {
                        return Err(TransformError::GlobArgumentNotLiteral);
                    },
                };
                let eager = if args.len() > 1 {
                    self.is_eager(&args[1])
                } else {
                    false
                };
                (pat, eager)
            },
            _ => {
                proof {
                    assert(false);
                }
                return Err(TransformError::GlobArgumentNotLiteral);
            },
        };
        proof {
            assert(!call_bad_arg(*e));
            assert(eager == call_eager(*e));
            assert(call_pattern(*e) == pat@);
        }
        let base = parent_dir(self.filepath.as_str());
        proof {
            assert(crate::strnum::join_spec(base@, pat@) == full_pattern(
                *e,
                old(self).filepath@,
            ));
        }
        let (ms, warns) = match resolve(base.as_str(), pat.as_str()) {
            Ok(x) => x,
            Err(err) => {
                proof {
                    assert(err == TransformError::GlobPatternInvalid);
                    assert(!crate::resolve::pattern_ok(full_pattern(*e, old(self).filepath@)));
                }
                return Err(err);
            },
        };
        proof {
            assert(crate::resolve::pattern_ok(full_pattern(*e, old(self).filepath@)));
        }
        let ghost p0 = self.module_items@;
        let ghost w0 = self.warnings@;
        let mut wi: usize = 0;
        while wi < warns.len()
            invariant
                0 <= wi <= warns@.len(),
                self.module_items@ == p0,
                p0 == old(self).module_items@,
                w0 == old(self).warnings@,
                self.warnings@.len() >= w0.len(),
                forall|a: int| 0 <= a < w0.len() ==> self.warnings@[a] == w0[a],
                self.filepath@ == old(self).filepath@,
                self.glob_index == old(self).glob_index,
                old(self).wf(),
                old(self).glob_index < usize::MAX,
            decreases warns@.len() - wi,
        {
            let w = warns[wi].clone();
            self.warnings.push(w);
            wi = wi + 1;
        }
        let k = self.glob_index;
        let obj = self.build_object(&ms, eager, k);
        self.glob_index = k + 1;
        proof {
            assert(obj_expansion(obj, ms@, call_eager(*e), k as nat));
            assert(crate::resolve::sorted_matches(ms@) && crate::resolve::matches_linked(ms@));
            crate::codegen::lemma_obj_expansion_shape(obj, ms@, call_eager(*e), k as nat);
            crate::codegen::lemma_expansion_shape_count_zero(obj);
        }
        Ok(obj)
    }
}


// ---------------------------------------------------------------------------
// Containment lemmas for the traversal
// ---------------------------------------------------------------------------

proof fn lemma_bad_seq_elem(s: Seq<Expr>, t: int)
    requires
        0 <= t < s.len(),
        has_bad_call(s[t]),
    ensures
        has_bad_call_seq(s),
    decreases s.len(),
{
    if t > 0 {
        assert(s.drop_first()[t - 1] == s[t]);
        lemma_bad_seq_elem(s.drop_first(), t - 1);
    }
}

proof fn lemma_no_bad_seq(s: Seq<Expr>)
    requires
        forall|t: int| 0 <= t < s.len() ==> !has_bad_call(#[trigger] s[t]),
    ensures
        !has_bad_call_seq(s),
    decreases s.len(),
{
    if s.len() > 0 {
        assert(!has_bad_call(s[0]));
        assert forall|t: int| 0 <= t < s.drop_first().len() implies !has_bad_call(
            #[trigger] s.drop_first()[t],
        ) by {
            assert(s.drop_first()[t] == s[t + 1]);
        }
        lemma_no_bad_seq(s.drop_first());
    }
}

proof fn lemma_bad_props_elem(s: Seq<Prop>, t: int)
    requires
        0 <= t < s.len(),
        prop_has_bad(s[t]),
    ensures
        has_bad_call_props(s),
    decreases s.len(),
{
    if t > 0 {
        assert(s.drop_first()[t - 1] == s[t]);
        lemma_bad_props_elem(s.drop_first(), t - 1);
    }
}

proof fn lemma_no_bad_props(s: Seq<Prop>)
    requires
        forall|t: int| 0 <= t < s.len() ==> !prop_has_bad(#[trigger] s[t]),
    ensures
        !has_bad_call_props(s),
    decreases s.len(),
{
    if s.len() > 0 {
        assert(!prop_has_bad(s[0]));
        assert forall|t: int| 0 <= t < s.drop_first().len() implies !prop_has_bad(
            #[trigger] s.drop_first()[t],
        ) by {
            assert(s.drop_first()[t] == s[t + 1]);
        }
        lemma_no_bad_props(s.drop_first());
    }
}

proof fn lemma_invalid_seq_elem(s: Seq<Expr>, fp: Seq<char>, t: int)
    requires
        0 <= t < s.len(),
        has_invalid_pattern(s[t], fp),
    ensures
        has_invalid_pattern_seq(s, fp),
    decreases s.len(),
{
    if t > 0 {
        assert(s.drop_first()[t - 1] == s[t]);
        lemma_invalid_seq_elem(s.drop_first(), fp, t - 1);
    }
}

proof fn lemma_no_invalid_seq(s: Seq<Expr>, fp: Seq<char>)
    requires
        forall|t: int| 0 <= t < s.len() ==> !has_invalid_pattern(#[trigger] s[t], fp),
    ensures
        !has_invalid_pattern_seq(s, fp),
    decreases s.len(),
{
    if s.len() > 0 {
        assert(!has_invalid_pattern(s[0], fp));
        assert forall|t: int| 0 <= t < s.drop_first().len() implies !has_invalid_pattern(
            #[trigger] s.drop_first()[t],
            fp,
        ) by {
            assert(s.drop_first()[t] == s[t + 1]);
        }
        lemma_no_invalid_seq(s.drop_first(), fp);
    }
}

proof fn lemma_invalid_props_elem(s: Seq<Prop>, fp: Seq<char>, t: int)
    requires
        0 <= t < s.len(),
        prop_has_invalid_pattern(s[t], fp),
    ensures
        has_invalid_pattern_props(s, fp),
    decreases s.len(),
{
    if t > 0 {
        assert(s.drop_first()[t - 1] == s[t]);
        lemma_invalid_props_elem(s.drop_first(), fp, t - 1);
    }
}

proof fn lemma_no_invalid_props(s: Seq<Prop>, fp: Seq<char>)
    requires
        forall|t: int| 0 <= t < s.len() ==> !prop_has_invalid_pattern(#[trigger] s[t], fp),
    ensures
        !has_invalid_pattern_props(s, fp),
    decreases s.len(),
{
    if s.len() > 0 {
        assert(!prop_has_invalid_pattern(s[0], fp));
        assert forall|t: int| 0 <= t < s.drop_first().len() implies !prop_has_invalid_pattern(
            #[trigger] s.drop_first()[t],
            fp,
        ) by {
            assert(s.drop_first()[t] == s[t + 1]);
        }
        lemma_no_invalid_props(s.drop_first(), fp);
    }
}

proof fn lemma_invalid_items_elem(s: Seq<ModuleItem>, fp: Seq<char>, t: int)
    requires
        0 <= t < s.len(),
        has_invalid_pattern_item(s[t], fp),
    ensures
        has_invalid_pattern_items(s, fp),
    decreases s.len(),
{
    if t > 0 {
        assert(s.drop_first()[t - 1] == s[t]);
        lemma_invalid_items_elem(s.drop_first(), fp, t - 1);
    }
}

proof fn lemma_no_invalid_items(s: Seq<ModuleItem>, fp: Seq<char>)
    requires
        forall|t: int| 0 <= t < s.len() ==> !has_invalid_pattern_item(#[trigger] s[t], fp),
    ensures
        !has_invalid_pattern_items(s, fp),
    decreases s.len(),
{
    if s.len() > 0 {
        assert(!has_invalid_pattern_item(s[0], fp));
        assert forall|t: int| 0 <= t < s.drop_first().len() implies !has_invalid_pattern_item(
            #[trigger] s.drop_first()[t],
            fp,
        ) by {
            assert(s.drop_first()[t] == s[t + 1]);
        }
        lemma_no_invalid_items(s.drop_first(), fp);
    }
}

proof fn lemma_eager_seq_elem(s: Seq<Expr>, t: int)
    requires
        0 <= t < s.len(),
        has_eager_call(s[t]),
    ensures
        has_eager_call_seq(s),
    decreases s.len(),
{
    if t > 0 {
        assert(s.drop_first()[t - 1] == s[t]);
        lemma_eager_seq_elem(s.drop_first(), t - 1);
    }
}

proof fn lemma_eager_props_elem(s: Seq<Prop>, t: int)
    requires
        0 <= t < s.len(),
        prop_has_eager(s[t]),
    ensures
        has_eager_call_props(s),
    decreases s.len(),
{
    if t > 0 {
        assert(s.drop_first()[t - 1] == s[t]);
        lemma_eager_props_elem(s.drop_first(), t - 1);
    }
}

proof fn lemma_count_seq_elem(s: Seq<Expr>, t: int)
    requires
        0 <= t < s.len(),
    ensures
        count_expr(s[t]) <= count_expr_seq(s),
    decreases s.len(),
{
    if t > 0 {
        assert(s.drop_first()[t - 1] == s[t]);
        lemma_count_seq_elem(s.drop_first(), t - 1);
    }
}

proof fn lemma_count_props_elem(s: Seq<Prop>, t: int)
    requires
        0 <= t < s.len(),
    ensures
        count_prop(s[t]) <= count_prop_seq(s),
    decreases s.len(),
{
    if t > 0 {
        assert(s.drop_first()[t - 1] == s[t]);
        lemma_count_props_elem(s.drop_first(), t - 1);
    }
}

proof fn lemma_count_items_elem(s: Seq<ModuleItem>, t: int)
    requires
        0 <= t < s.len(),
    ensures
        count_item(s[t]) <= count_items(s),
    decreases s.len(),
{
    if t > 0 {
        assert(s.drop_first()[t - 1] == s[t]);
        lemma_count_items_elem(s.drop_first(), t - 1);
    }
}

impl GlobImport {
    /// Rewrite every glob-import call inside `e` into its generated object
    /// literal, in traversal order, accumulating pending imports for eager
    /// matches. On a fatal error the partial result is discarded.
    pub fn rewrite_expr(&mut self, e: &Expr) -> (res: Result<Expr, TransformError>)
        requires
            old(self).wf(),
            old(self).glob_index + count_expr(*e) <= usize::MAX,
        ensures
            final(self).wf(),
            final(self).filepath@ == old(self).filepath@,
            final(self).module_items@.len() >= old(self).module_items@.len(),
            forall|a: int|
                0 <= a < old(self).module_items@.len() ==> final(self).module_items@[a] == old(
                    self,
                ).module_items@[a],
            res matches Ok(r) ==> rewrites_to(*e, r) && final(self).glob_index == old(
                self,
            ).glob_index + count_expr(*e),
            (res is Ok && !has_eager_call(*e)) ==> final(self).module_items@ == old(
                self,
            ).module_items@,
            res == Err::<Expr, TransformError>(TransformError::GlobArgumentNotLiteral)
                ==> has_bad_call(*e),
            has_bad_call(*e) ==> res is Err,
            res == Err::<Expr, TransformError>(TransformError::GlobPatternInvalid)
                ==> has_invalid_pattern(*e, old(self).filepath@),
            res is Ok <==> (!has_bad_call(*e) && !has_invalid_pattern(*e, old(self).filepath@)),
            count_expr(*e) == 0 ==> res is Ok,
        decreases *e,
    {
        let matched = self.is_glob_import(e);
        match e {
            Expr::Call { callee, args } => {
                proof {
                    assert(decreases_to!(*e => *callee));
                }
                let c2 = match self.rewrite_expr(&**callee) {
                    Ok(x) => x,
                    Err(er) => {
                        proof {
                            assert(has_bad_call(**callee) ==> has_bad_call(*e));
                            assert(has_invalid_pattern(**callee, old(self).filepath@)
                                ==> has_invalid_pattern(*e, old(self).filepath@));
                        }
                        return Err(er);
                    },
                };
                let ghost g: nat = if matched {
                    1nat
                } else {
                    0nat
                };
                proof {
                    assert(count_expr(*e) == g + count_expr(**callee) + count_expr_seq(args@));
                    assert(args@.skip(0) =~= args@);
                }
                let mut new_args: Vec<Expr> = Vec::new();
                let mut i: usize = 0;
                while i < args.len()
                    invariant
                        0 <= i <= args@.len(),
                        new_args@.len() == i,
                        *e matches Expr::Call { callee: ec, args: ea } && ec == *callee && ea
                            == *args,
                        matched == is_glob_call(*e),
                        count_expr(*e) == (if matched {
                            1nat
                        } else {
                            0nat
                        }) + count_expr(**callee) + count_expr_seq(args@),
                        old(self).glob_index + count_expr(*e) <= usize::MAX,
                        old(self).wf(),
                        !has_bad_call(**callee),
                        !has_invalid_pattern(**callee, old(self).filepath@),
                        rewrites_to(**callee, c2),
                        forall|t: int|
                            0 <= t < i ==> rewrites_to(#[trigger] args@[t], new_args@[t]),
                        forall|t: int| 0 <= t < i ==> !has_bad_call(#[trigger] args@[t]),
                        forall|t: int|
                            0 <= t < i ==> !has_invalid_pattern(
                                #[trigger] args@[t],
                                old(self).filepath@,
                            ),
                        self.wf(),
                        self.filepath@ == old(self).filepath@,
                        self.module_items@.len() >= old(self).module_items@.len(),
                        forall|a: int|
                            0 <= a < old(self).module_items@.len() ==> self.module_items@[a]
                                == old(self).module_items@[a],
                        !has_eager_call(*e) ==> self.module_items@ == old(self).module_items@,
                        self.glob_index + count_expr_seq(args@.skip(i as int)) == old(
                            self,
                        ).glob_index + count_expr(**callee) + count_expr_seq(args@),
                    decreases args@.len() - i,
                {
                    proof {
                        assert(args@.skip(i as int)[0] == args@[i as int]);
                        assert(args@.skip(i as int).drop_first() =~= args@.skip(i + 1 as int));
                        assert(count_expr_seq(args@.skip(i as int)) == count_expr(args@[i as int])
                            + count_expr_seq(args@.skip(i + 1 as int)));
                        assert(decreases_to!(*e => *args));
                        assert(decreases_to!(*args => args@[i as int]));
                        if !has_eager_call(*e) {
                            if has_eager_call(args@[i as int]) {
                                lemma_eager_seq_elem(args@, i as int);
                                assert(false);
                            }
                        }
                    }
                    let child = match self.rewrite_expr(&args[i]) {
                        Ok(x) => x,
                        Err(er) => {
                            proof {
                                if has_bad_call(args@[i as int]) {
                                    lemma_bad_seq_elem(args@, i as int);
                                }
                                if has_invalid_pattern(args@[i as int], old(self).filepath@) {
                                    lemma_invalid_seq_elem(args@, old(self).filepath@, i as int);
                                }
                                lemma_count_seq_elem(args@, i as int);
                            }
                            return Err(er);
                        },
                    };
                    new_args.push(child);
                    i = i + 1;
                }
                proof {
                    assert(args@.skip(i as int).len() == 0);
                    assert(count_expr_seq(args@.skip(i as int)) == 0);
                    lemma_no_bad_seq(args@);
                    lemma_no_invalid_seq(args@, old(self).filepath@);
                }
                if matched {
                    let expanded = match self.glob(e) {
                        Ok(x) => x,
                        Err(er) => {
                            proof {
                                if call_bad_arg(*e) {
                                    assert(has_bad_call(*e));
                                } else {
                                    assert(!crate::resolve::pattern_ok(
                                        full_pattern(*e, old(self).filepath@),
                                    ));
                                    assert(has_invalid_pattern(*e, old(self).filepath@));
                                }
                            }
                            return Err(er);
                        },
                    };
                    proof {
                        assert(rewrites_to(*e, expanded));
                        assert(crate::resolve::pattern_ok(full_pattern(*e, old(self).filepath@)));
                        assert(!has_invalid_pattern(*e, old(self).filepath@));
                    }
                    Ok(expanded)
                } else {
                    let r = Expr::Call { callee: Box::new(c2), args: new_args };
                    proof {
                        assert(rewrites_to(*e, r));
                        assert(!has_bad_call(*e));
                        assert(!has_invalid_pattern(*e, old(self).filepath@));
                    }
                    Ok(r)
                }
            },
            Expr::Member { obj, prop } => {
                proof {
                    assert(decreases_to!(*e => *obj));
                    assert(!is_glob_call(*e));
                    assert(count_expr(*e) == count_expr(**obj));
                    assert(has_bad_call(*e) == has_bad_call(**obj));
                    assert(has_invalid_pattern(*e, old(self).filepath@) == has_invalid_pattern(
                        **obj,
                        old(self).filepath@,
                    ));
                }
                let o2 = match self.rewrite_expr(&**obj) {
                    Ok(x) => x,
                    Err(er) => {
                        return Err(er);
                    },
                };
                let r = Expr::Member { obj: Box::new(o2), prop: prop.clone() };
                proof {
                    assert(rewrites_to(*e, r));
                }
                Ok(r)
            },
            Expr::ImportMeta => {
                proof {
                    assert(rewrites_to(*e, Expr::ImportMeta));
                }
                Ok(Expr::ImportMeta)
            },
            Expr::Ident(s0) => {
                let r = Expr::Ident(s0.clone());
                proof {
                    assert(rewrites_to(*e, r));
                }
                Ok(r)
            },
            Expr::StrLit(s0) => {
                let r = Expr::StrLit(s0.clone());
                proof {
                    assert(rewrites_to(*e, r));
                }
                Ok(r)
            },
            Expr::BoolLit(b0) => {
                let r = Expr::BoolLit(*b0);
                proof {
                    assert(rewrites_to(*e, r));
                }
                Ok(r)
            },
            Expr::Object(props) => {
                proof {
                    assert(!is_glob_call(*e));
                    assert(count_expr(*e) == count_prop_seq(props@));
                    assert(props@.skip(0) =~= props@);
                }
                let mut new_props: Vec<Prop> = Vec::new();
                let mut i: usize = 0;
                while i < props.len()
                    invariant
                        0 <= i <= props@.len(),
                        new_props@.len() == i,
                        *e matches Expr::Object(ep) && ep == *props,
                        !is_glob_call(*e),
                        count_expr(*e) == count_prop_seq(props@),
                        old(self).glob_index + count_expr(*e) <= usize::MAX,
                        old(self).wf(),
                        forall|t: int|
                            0 <= t < i ==> prop_rewrites_to(#[trigger] props@[t], new_props@[t]),
                        forall|t: int| 0 <= t < i ==> !prop_has_bad(#[trigger] props@[t]),
                        forall|t: int|
                            0 <= t < i ==> !prop_has_invalid_pattern(
                                #[trigger] props@[t],
                                old(self).filepath@,
                            ),
                        self.wf(),
                        self.filepath@ == old(self).filepath@,
                        self.module_items@.len() >= old(self).module_items@.len(),
                        forall|a: int|
                            0 <= a < old(self).module_items@.len() ==> self.module_items@[a]
                                == old(self).module_items@[a],
                        !has_eager_call(*e) ==> self.module_items@ == old(self).module_items@,
                        self.glob_index + count_prop_seq(props@.skip(i as int)) == old(
                            self,
                        ).glob_index + count_prop_seq(props@),
                    decreases props@.len() - i,
                {
                    proof {
                        assert(props@.skip(i as int)[0] == props@[i as int]);
                        assert(props@.skip(i as int).drop_first() =~= props@.skip(i + 1 as int));
                        assert(count_prop_seq(props@.skip(i as int)) == count_prop(
                            props@[i as int],
                        ) + count_prop_seq(props@.skip(i + 1 as int)));
                        if !has_eager_call(*e) {
                            if prop_has_eager(props@[i as int]) {
                                lemma_eager_props_elem(props@, i as int);
                                assert(false);
                            }
                        }
                    }
                    let newp = match &props[i] {
                        Prop::KeyValue { key, value } => {
                            proof {
                                assert(decreases_to!(*e => *props));
                                assert(decreases_to!(*props => props@[i as int]));
                                assert(decreases_to!(props@[i as int] => props@[i as int]->KeyValue_value));
                            }
                            let v2 = match self.rewrite_expr(value) {
                                Ok(x) => x,
                                Err(er) => {
                                    proof {
                                        if prop_has_bad(props@[i as int]) {
                                            lemma_bad_props_elem(props@, i as int);
                                        }
                                        if prop_has_invalid_pattern(
                                            props@[i as int],
                                            old(self).filepath@,
                                        ) {
                                            lemma_invalid_props_elem(
                                                props@,
                                                old(self).filepath@,
                                                i as int,
                                            );
                                        }
                                        lemma_count_props_elem(props@, i as int);
                                    }
                                    return Err(er);
                                },
                            };
                            let k2 = match key {
                                PropKey::Ident(sk) => PropKey::Ident(sk.clone()),
                                PropKey::Str(sk) => PropKey::Str(sk.clone()),
                            };
                            Prop::KeyValue { key: k2, value: v2 }
                        },
                        Prop::Opaque => Prop::Opaque,
                    };
                    new_props.push(newp);
                    proof {
                        assert(prop_rewrites_to(props@[i as int], new_props@[i as int]));
                    }
                    i = i + 1;
                }
                proof {
                    assert(props@.skip(i as int).len() == 0);
                    assert(count_prop_seq(props@.skip(i as int)) == 0);
                    lemma_no_bad_props(props@);
                    lemma_no_invalid_props(props@, old(self).filepath@);
                }
                let r = Expr::Object(new_props);
                proof {
                    assert(rewrites_to(*e, r));
                    assert(!has_bad_call(*e));
                    assert(!has_invalid_pattern(*e, old(self).filepath@));
                }
                Ok(r)
            },
            Expr::LazyImport(s0) => {
                let r = Expr::LazyImport(s0.clone());
                proof {
                    assert(rewrites_to(*e, r));
                }
                Ok(r)
            },
            Expr::Assign { target, value } => {
                proof {
                    assert(decreases_to!(*e => *value));
                    assert(!is_glob_call(*e));
                    assert(count_expr(*e) == count_expr(**value));
                    assert(has_bad_call(*e) == has_bad_call(**value));
                    assert(has_invalid_pattern(*e, old(self).filepath@) == has_invalid_pattern(
                        **value,
                        old(self).filepath@,
                    ));
                }
                let v2 = match self.rewrite_expr(&**value) {
                    Ok(x) => x,
                    Err(er) => {
                        return Err(er);
                    },
                };
                let r = Expr::Assign { target: target.clone(), value: Box::new(v2) };
                proof {
                    assert(rewrites_to(*e, r));
                }
                Ok(r)
            },
            Expr::Opaque => {
                proof {
                    assert(rewrites_to(*e, Expr::Opaque));
                }
                Ok(Expr::Opaque)
            },
        }
    }
}


proof fn lemma_bad_items_elem(s: Seq<ModuleItem>, t: int)
    requires
        0 <= t < s.len(),
        has_bad_call_item(s[t]),
    ensures
        has_bad_call_items(s),
    decreases s.len(),
{
    if t > 0 {
        assert(s.drop_first()[t - 1] == s[t]);
        lemma_bad_items_elem(s.drop_first(), t - 1);
    }
}

proof fn lemma_no_bad_items(s: Seq<ModuleItem>)
    requires
        forall|t: int| 0 <= t < s.len() ==> !has_bad_call_item(#[trigger] s[t]),
    ensures
        !has_bad_call_items(s),
    decreases s.len(),
{
    if s.len() > 0 {
        assert(!has_bad_call_item(s[0]));
        assert forall|t: int| 0 <= t < s.drop_first().len() implies !has_bad_call_item(
            #[trigger] s.drop_first()[t],
        ) by {
            assert(s.drop_first()[t] == s[t + 1]);
        }
        lemma_no_bad_items(s.drop_first());
    }
}

proof fn lemma_eager_items_elem(s: Seq<ModuleItem>, t: int)
    requires
        0 <= t < s.len(),
        has_eager_call_item(s[t]),
    ensures
        has_eager_call_items(s),
    decreases s.len(),
{
    if t > 0 {
        assert(s.drop_first()[t - 1] == s[t]);
        lemma_eager_items_elem(s.drop_first(), t - 1);
    }
}

impl GlobImport {
    /// Transform one module body: rewrite every glob-import call in every
    /// statement, then prepend one default-style import declaration per
    /// accumulated pending import, in encounter order, ahead of the original
    /// statements. On a fatal error no partially rewritten body is returned.
    pub fn transform_module(&mut self, items: &Vec<ModuleItem>) -> (res: Result<
        Vec<ModuleItem>,
        TransformError,
    >)
        requires
            old(self).wf(),
            old(self).glob_index + count_items(items@) <= usize::MAX,
        ensures
            final(self).wf(),
            final(self).filepath@ == old(self).filepath@,
            final(self).module_items@.len() >= old(self).module_items@.len(),
            res matches Ok(out) ==> ({
                let pend = final(self).module_items@;
                &&& final(self).glob_index == old(self).glob_index + count_items(items@)
                &&& out@.len() == pend.len() + items@.len()
                &&& forall|a: int|
                    0 <= a < pend.len() ==> ((#[trigger] out@[a]) matches ModuleItem::Import {
                        local,
                        src,
                    } && local@ == pend[a].0@ && src@ == pend[a].1@)
                &&& forall|t: int|
                    0 <= t < items@.len() ==> item_rewrites_to(
                        #[trigger] items@[t],
                        out@[pend.len() + t],
                    )
                &&& (!has_eager_call_items(items@) ==> pend.len() == old(
                    self,
                ).module_items@.len())
            }),
            res == Err::<Vec<ModuleItem>, TransformError>(TransformError::GlobArgumentNotLiteral)
                ==> has_bad_call_items(items@),
            has_bad_call_items(items@) ==> res is Err,
            res == Err::<Vec<ModuleItem>, TransformError>(TransformError::GlobPatternInvalid)
                ==> has_invalid_pattern_items(items@, old(self).filepath@),
            res is Ok <==> (!has_bad_call_items(items@) && !has_invalid_pattern_items(
                items@,
                old(self).filepath@,
            )),
            count_items(items@) == 0 ==> res is Ok,
    {
        proof {
            assert(items@.skip(0) =~= items@);
        }
        let mut rewritten: Vec<ModuleItem> = Vec::new();
        let mut i: usize = 0;
        while i < items.len()
            invariant
                0 <= i <= items@.len(),
                rewritten@.len() == i,
                old(self).wf(),
                old(self).glob_index + count_items(items@) <= usize::MAX,
                forall|t: int|
                    0 <= t < i ==> item_rewrites_to(#[trigger] items@[t], rewritten@[t]),
                forall|t: int| 0 <= t < i ==> !has_bad_call_item(#[trigger] items@[t]),
                forall|t: int|
                    0 <= t < i ==> !has_invalid_pattern_item(
                        #[trigger] items@[t],
                        old(self).filepath@,
                    ),
                self.wf(),
                self.filepath@ == old(self).filepath@,
                self.module_items@.len() >= old(self).module_items@.len(),
                forall|a: int|
                    0 <= a < old(self).module_items@.len() ==> self.module_items@[a] == old(
                        self,
                    ).module_items@[a],
                !has_eager_call_items(items@) ==> self.module_items@ == old(self).module_items@,
                self.glob_index + count_items(items@.skip(i as int)) == old(self).glob_index
                    + count_items(items@),
            decreases items@.len() - i,
        {
            proof {
                assert(items@.skip(i as int)[0] == items@[i as int]);
                assert(items@.skip(i as int).drop_first() =~= items@.skip(i + 1 as int));
                assert(count_items(items@.skip(i as int)) == count_item(items@[i as int])
                    + count_items(items@.skip(i + 1 as int)));
                if !has_eager_call_items(items@) {
                    if has_eager_call_item(items@[i as int]) {
                        lemma_eager_items_elem(items@, i as int);
                        assert(false);
                    }
                }
            }
            let newit = match &items[i] {
                ModuleItem::Import { local, src } => ModuleItem::Import {
                    local: local.clone(),
                    src: src.clone(),
                },
                ModuleItem::VarDecl { name, init } => {
                    let init2 = match init {
                        Some(e0) => {
                            let v = match self.rewrite_expr(e0) {
                                Ok(x) => x,
                                Err(er) => {
                                    proof {
                                        if has_bad_call_item(items@[i as int]) {
                                            lemma_bad_items_elem(items@, i as int);
                                        }
                                        if has_invalid_pattern_item(
                                            items@[i as int],
                                            old(self).filepath@,
                                        ) {
                                            lemma_invalid_items_elem(
                                                items@,
                                                old(self).filepath@,
                                                i as int,
                                            );
                                        }
                                        lemma_count_items_elem(items@, i as int);
                                    }
                                    return Err(er);
                                },
                            };
                            Some(v)
                        },
                        None => None,
                    };
                    ModuleItem::VarDecl { name: name.clone(), init: init2 }
                },
                ModuleItem::ExprStmt(e0) => {
                    let v = match self.rewrite_expr(e0) {
                        Ok(x) => x,
                        Err(er) => {
                            proof {
                                if has_bad_call_item(items@[i as int]) {
                                    lemma_bad_items_elem(items@, i as int);
                                }
                                if has_invalid_pattern_item(
                                    items@[i as int],
                                    old(self).filepath@,
                                ) {
                                    lemma_invalid_items_elem(
                                        items@,
                                        old(self).filepath@,
                                        i as int,
                                    );
                                }
                                lemma_count_items_elem(items@, i as int);
                            }
                            return Err(er);
                        },
                    };
                    ModuleItem::ExprStmt(v)
                },
                ModuleItem::Opaque => ModuleItem::Opaque,
            };
            rewritten.push(newit);
            proof {
                assert(item_rewrites_to(items@[i as int], rewritten@[i as int]));
            }
            i = i + 1;
        }
        proof {
            assert(items@.skip(i as int).len() == 0);
            assert(count_items(items@.skip(i as int)) == 0);
            lemma_no_bad_items(items@);
            lemma_no_invalid_items(items@, old(self).filepath@);
        }
        let ghost pend = self.module_items@;
        let ghost rewr = rewritten@;
        let mut out: Vec<ModuleItem> = Vec::new();
        let mut a: usize = 0;
        while a < self.module_items.len()
            invariant
                0 <= a <= self.module_items@.len(),
                out@.len() == a,
                pend == self.module_items@,
                self.filepath@ == old(self).filepath@,
                forall|t: int|
                    0 <= t < a ==> ((#[trigger] out@[t]) matches ModuleItem::Import { local, src }
                        && local@ == pend[t].0@ && src@ == pend[t].1@),
            decreases self.module_items@.len() - a,
        {
            let item = self.import_decl(
                self.module_items[a].0.as_str(),
                self.module_items[a].1.as_str(),
            );
            out.push(item);
            a = a + 1;
        }
        let rlen: usize = rewritten.len();
        let mut moved: usize = 0;
        let mut src_items = rewritten;
        while src_items.len() > 0
            invariant
                rlen == rewr.len(),
                moved + src_items@.len() == rewr.len(),
                src_items@ == rewr.skip(moved as int),
                out@.len() == pend.len() + moved,
                pend == self.module_items@,
                self.filepath@ == old(self).filepath@,
                forall|t: int|
                    0 <= t < pend.len() ==> ((#[trigger] out@[t]) matches ModuleItem::Import {
                        local,
                        src,
                    } && local@ == pend[t].0@ && src@ == pend[t].1@),
                forall|t: int| 0 <= t < moved ==> out@[pend.len() + t] == rewr[t],
            decreases src_items@.len(),
        {
            proof {
                assert(rewr.skip(moved as int)[0] == rewr[moved as int]);
                assert(rewr.skip(moved as int).drop_first() =~= rewr.skip(moved + 1 as int));
            }
            let x = src_items.remove(0);
            out.push(x);
            moved = moved + 1;
        }
        proof {
            assert(rewr.skip(moved as int).len() == 0);
            assert(moved == rewr.len());
            assert forall|t: int| 0 <= t < items@.len() implies item_rewrites_to(
                #[trigger] items@[t],
                out@[pend.len() + t],
            ) by {
                assert(out@[pend.len() + t] == rewr[t]);
            }
        }
        Ok(out)
    }
}


// ---------------------------------------------------------------------------
// Idempotence laws
// ---------------------------------------------------------------------------

/// A rewritten expression contains no glob-import call: the generated
/// literals do not match the detection pattern, so a second pass has
/// nothing to expand.
pub proof fn lemma_rewritten_expr_clean(a: Expr, b: Expr)
    requires
        rewrites_to(a, b),
    ensures
        count_expr(b) == 0,
    decreases a,
{
    if is_glob_call(a) {
        crate::codegen::lemma_expansion_shape_count_zero(b);
    } else {
        match (a, b) {
            (Expr::Call { callee: c1, args: a1 }, Expr::Call { callee: c2, args: a2 }) => {
                lemma_rewritten_expr_clean(*c1, *c2);
                lemma_rewritten_seq_clean(a1@, a2@);
                assert(!is_glob_call(b)) by {
                    if is_glob_call(b) {
                        assert(rewrites_to(*c1, *c2));
                        assert(*c2 is Member);
                        if is_glob_call(*c1) {
                            assert(expansion_shape(*c2));
                            assert(*c2 is Object);
                            assert(false);
                        } else {
                            assert(*c2 is Member);
                            assert(*c1 is Member);
                            let o1 = (*c1)->Member_obj;
                            let o2 = (*c2)->Member_obj;
                            assert(rewrites_to(*o1, *o2));
                            assert(*o2 is ImportMeta);
                            if is_glob_call(*o1) {
                                assert(expansion_shape(*o2));
                                assert(false);
                            }
                            assert(*o1 is ImportMeta);
                            assert((*c1)->Member_prop@ == (*c2)->Member_prop@);
                            assert(is_glob_call(a));
                            assert(false);
                        }
                    }
                }
            },
            (Expr::Member { obj: o1, prop: p1 }, Expr::Member { obj: o2, prop: p2 }) => {
                lemma_rewritten_expr_clean(*o1, *o2);
            },
            (Expr::Object(p1), Expr::Object(p2)) => {
                lemma_rewritten_props_clean(p1@, p2@);
            },
            (Expr::Assign { value: v1, .. }, Expr::Assign { value: v2, .. }) => {
                lemma_rewritten_expr_clean(*v1, *v2);
            },
            _ => {},
        }
    }
}

pub proof fn lemma_rewritten_seq_clean(s1: Seq<Expr>, s2: Seq<Expr>)
    requires
        s1.len() == s2.len(),
        forall|t: int| 0 <= t < s1.len() ==> rewrites_to(#[trigger] s1[t], s2[t]),
    ensures
        count_expr_seq(s2) == 0,
    decreases s1,
{
    if s1.len() > 0 {
        lemma_rewritten_expr_clean(s1[0], s2[0]);
        assert forall|t: int| 0 <= t < s1.drop_first().len() implies rewrites_to(
            #[trigger] s1.drop_first()[t],
            s2.drop_first()[t],
        ) by {
            assert(s1.drop_first()[t] == s1[t + 1]);
            assert(s2.drop_first()[t] == s2[t + 1]);
        }
        lemma_rewritten_seq_clean(s1.drop_first(), s2.drop_first());
    }
}

pub proof fn lemma_rewritten_props_clean(s1: Seq<Prop>, s2: Seq<Prop>)
    requires
        s1.len() == s2.len(),
        forall|t: int| 0 <= t < s1.len() ==> prop_rewrites_to(#[trigger] s1[t], s2[t]),
    ensures
        count_prop_seq(s2) == 0,
    decreases s1,
{
    if s1.len() > 0 {
        assert(prop_rewrites_to(s1[0], s2[0]));
        match (s1[0], s2[0]) {
            (Prop::KeyValue { value: v1, .. }, Prop::KeyValue { value: v2, .. }) => {
                lemma_rewritten_expr_clean(v1, v2);
            },
            _ => {},
        }
        assert(count_prop(s2[0]) == 0);
        assert forall|t: int| 0 <= t < s1.drop_first().len() implies prop_rewrites_to(
            #[trigger] s1.drop_first()[t],
            s2.drop_first()[t],
        ) by {
            assert(s1.drop_first()[t] == s1[t + 1]);
            assert(s2.drop_first()[t] == s2[t + 1]);
        }
        lemma_rewritten_props_clean(s1.drop_first(), s2.drop_first());
        assert(count_prop_seq(s2) == count_prop(s2[0]) + count_prop_seq(s2.drop_first()));
    }
}

/// A rewritten module item contains no glob-import call.
pub proof fn lemma_rewritten_item_clean(a: ModuleItem, b: ModuleItem)
    requires
        item_rewrites_to(a, b),
    ensures
        count_item(b) == 0,
{
    match (a, b) {
        (
            ModuleItem::VarDecl { init: Some(e1), .. },
            ModuleItem::VarDecl { init: Some(e2), .. },
        ) => {
            lemma_rewritten_expr_clean(e1, e2);
        },
        (ModuleItem::ExprStmt(e1), ModuleItem::ExprStmt(e2)) => {
            lemma_rewritten_expr_clean(e1, e2);
        },
        _ => {},
    }
}

/// A module body whose items each contain no glob-import call has none
/// overall; with the per-item clean lemma, a transformed body meets the
/// precondition of a second transform, which then changes nothing.
pub proof fn lemma_counts_zero_items(s: Seq<ModuleItem>)
    requires
        forall|t: int| 0 <= t < s.len() ==> count_item(#[trigger] s[t]) == 0,
    ensures
        count_items(s) == 0,
    decreases s,
{
    if s.len() > 0 {
        assert forall|t: int| 0 <= t < s.drop_first().len() implies count_item(
            #[trigger] s.drop_first()[t],
        ) == 0 by {
            assert(s.drop_first()[t] == s[t + 1]);
        }
        lemma_counts_zero_items(s.drop_first());
    }
}

/// Rewriting an expression that contains no glob-import call reproduces it
/// exactly: on clean input the transform is the identity, which together
/// with the clean-output lemmas gives idempotence.
pub proof fn lemma_clean_rewrite_identity(a: Expr, b: Expr)
    requires
        rewrites_to(a, b),
        count_expr(a) == 0,
    ensures
        expr_eq(a, b),
    decreases a,
{
    assert(!is_glob_call(a));
    match (a, b) {
        (Expr::Call { callee: c1, args: a1 }, Expr::Call { callee: c2, args: a2 }) => {
            lemma_clean_rewrite_identity(*c1, *c2);
            lemma_clean_seq_identity(a1@, a2@);
        },
        (Expr::Member { obj: o1, .. }, Expr::Member { obj: o2, .. }) => {
            lemma_clean_rewrite_identity(*o1, *o2);
        },
        (Expr::Object(p1), Expr::Object(p2)) => {
            lemma_clean_props_identity(p1@, p2@);
        },
        (Expr::Assign { value: v1, .. }, Expr::Assign { value: v2, .. }) => {
            lemma_clean_rewrite_identity(*v1, *v2);
        },
        _ => {},
    }
}

pub proof fn lemma_clean_seq_identity(s1: Seq<Expr>, s2: Seq<Expr>)
    requires
        s1.len() == s2.len(),
        forall|t: int| 0 <= t < s1.len() ==> rewrites_to(#[trigger] s1[t], s2[t]),
        count_expr_seq(s1) == 0,
    ensures
        forall|t: int| 0 <= t < s1.len() ==> expr_eq(#[trigger] s1[t], s2[t]),
    decreases s1,
{
    if s1.len() > 0 {
        assert(count_expr(s1[0]) == 0);
        lemma_clean_rewrite_identity(s1[0], s2[0]);
        assert forall|t: int| 0 <= t < s1.drop_first().len() implies rewrites_to(
            #[trigger] s1.drop_first()[t],
            s2.drop_first()[t],
        ) by {
            assert(s1.drop_first()[t] == s1[t + 1]);
            assert(s2.drop_first()[t] == s2[t + 1]);
        }
        lemma_clean_seq_identity(s1.drop_first(), s2.drop_first());
        assert forall|t: int| 0 <= t < s1.len() implies expr_eq(#[trigger] s1[t], s2[t]) by {
            if t > 0 {
                assert(s1.drop_first()[t - 1] == s1[t]);
                assert(s2.drop_first()[t - 1] == s2[t]);
                assert(expr_eq(s1.drop_first()[t - 1], s2.drop_first()[t - 1]));
            }
        }
    }
}

pub proof fn lemma_clean_props_identity(s1: Seq<Prop>, s2: Seq<Prop>)
    requires
        s1.len() == s2.len(),
        forall|t: int| 0 <= t < s1.len() ==> prop_rewrites_to(#[trigger] s1[t], s2[t]),
        count_prop_seq(s1) == 0,
    ensures
        forall|t: int| 0 <= t < s1.len() ==> crate::ast::prop_eq(#[trigger] s1[t], s2[t]),
    decreases s1,
{
    if s1.len() > 0 {
        assert(count_prop(s1[0]) == 0);
        assert(prop_rewrites_to(s1[0], s2[0]));
        match (s1[0], s2[0]) {
            (Prop::KeyValue { value: v1, .. }, Prop::KeyValue { value: v2, .. }) => {
                lemma_clean_rewrite_identity(v1, v2);
            },
            _ => {},
        }
        assert(crate::ast::prop_eq(s1[0], s2[0]));
        assert forall|t: int| 0 <= t < s1.drop_first().len() implies prop_rewrites_to(
            #[trigger] s1.drop_first()[t],
            s2.drop_first()[t],
        ) by {
            assert(s1.drop_first()[t] == s1[t + 1]);
            assert(s2.drop_first()[t] == s2[t + 1]);
        }
        lemma_clean_props_identity(s1.drop_first(), s2.drop_first());
        assert forall|t: int| 0 <= t < s1.len() implies crate::ast::prop_eq(
            #[trigger] s1[t],
            s2[t],
        ) by {
            if t > 0 {
                assert(s1.drop_first()[t - 1] == s1[t]);
                assert(s2.drop_first()[t - 1] == s2[t]);
                assert(crate::ast::prop_eq(s1.drop_first()[t - 1], s2.drop_first()[t - 1]));
            }
        }
    }
}

/// Rewriting a module item that contains no glob-import call reproduces it
/// exactly.
pub proof fn lemma_clean_item_identity(a: ModuleItem, b: ModuleItem)
    requires
        item_rewrites_to(a, b),
        count_item(a) == 0,
    ensures
        item_eq(a, b),
{
    match (a, b) {
        (
            ModuleItem::VarDecl { init: Some(e1), .. },
            ModuleItem::VarDecl { init: Some(e2), .. },
        ) => {
            lemma_clean_rewrite_identity(e1, e2);
        },
        (ModuleItem::ExprStmt(e1), ModuleItem::ExprStmt(e2)) => {
            lemma_clean_rewrite_identity(e1, e2);
        },
        _ => {},
    }
}

} // verus!
