//! Synthesis of eager binding identifiers and the shape of generated object
//! literals.
//!
//! An eager binding for match `j` of call site `k` is named `__glob_k_j`;
//! these names are pairwise distinct across a file, which is what lets every
//! hoisted import declaration bind its own identifier.

use vstd::prelude::*;
use crate::ast::{Expr, GlobMatch, Prop, PropKey};
use crate::strnum::{
    dec_str, digit_char, lemma_dec_str_digits, lemma_dec_str_injective, lemma_dec_str_len,
    usize_to_string,
};

verus! {

/// The fixed identifier prefix for synthesized eager bindings.
pub open spec fn name_prefix() -> Seq<char> {
    seq!['_', '_', 'g', 'l', 'o', 'b', '_']
}

/// The identifier synthesized for match `j` of call site `k`.
pub open spec fn binding_name_spec(k: nat, j: nat) -> Seq<char> {
    name_prefix() + dec_str(k) + seq!['_'] + dec_str(j)
}

/// Distinct (call site, match) pairs synthesize distinct identifiers.
///
/// This is what makes all hoisted identifiers pairwise distinct within a
/// file: call sites are numbered monotonically and matches are numbered
/// within their call.
pub proof fn lemma_binding_name_injective(k1: nat, j1: nat, k2: nat, j2: nat)
    requires
        binding_name_spec(k1, j1) == binding_name_spec(k2, j2),
    ensures
        k1 == k2,
        j1 == j2,
{
    let s = binding_name_spec(k1, j1);
    let dk1 = dec_str(k1);
    let dj1 = dec_str(j1);
    let dk2 = dec_str(k2);
    let dj2 = dec_str(j2);
    lemma_dec_str_len(k1);
    lemma_dec_str_len(j1);
    lemma_dec_str_len(k2);
    lemma_dec_str_len(j2);
    lemma_dec_str_digits(j1);
    lemma_dec_str_digits(j2);
    assert(s.len() == 7 + dk1.len() + 1 + dj1.len());
    assert(s.len() == 7 + dk2.len() + 1 + dj2.len());
    // The separator before dec(j1) sits at index s.len() - 1 - dj1.len();
    // if dj1 and dj2 had different lengths, that separator would fall on a
    // digit of the longer rendering.
    assert(s[s.len() - 1 - dj1.len() as int] == '_') by {
        assert(s[7 + dk1.len() as int] == (seq!['_'])[0]);
    }
    assert(s[s.len() - 1 - dj2.len() as int] == '_') by {
        assert(s[7 + dk2.len() as int] == (seq!['_'])[0]);
    }
    assert(dj1.len() == dj2.len()) by {
        if dj1.len() < dj2.len() {
            let p = s.len() - 1 - dj1.len() as int;
            assert(s[p] == dj2[p - (7 + dk2.len() + 1) as int]);
            assert(48 <= s[p] as nat <= 57);
            assert(s[p] == '_');
            assert(('_' as nat) == 95);
            assert(false);
        } else if dj2.len() < dj1.len() {
            let p = s.len() - 1 - dj2.len() as int;
            assert(s[p] == dj1[p - (7 + dk1.len() + 1) as int]);
            assert(48 <= s[p] as nat <= 57);
            assert(s[p] == '_');
            assert(('_' as nat) == 95);
            assert(false);
        }
    }
    assert(dk1.len() == dk2.len());
    assert(dj1 =~= dj2) by {
        assert forall|i: int| 0 <= i < dj1.len() implies dj1[i] == dj2[i] by {
            assert(dj1[i] == s[7 + dk1.len() as int + 1 + i]);
            assert(dj2[i] == s[7 + dk2.len() as int + 1 + i]);
        }
    }
    assert(dk1 =~= dk2) by {
        assert forall|i: int| 0 <= i < dk1.len() implies dk1[i] == dk2[i] by {
            assert(dk1[i] == s[7 + i]);
            assert(dk2[i] == s[7 + i]);
        }
    }
    lemma_dec_str_injective(k1, k2);
    lemma_dec_str_injective(j1, j2);
}

/// Build the identifier text `__glob_k_j`.
pub fn binding_name(k: usize, j: usize) -> (r: String)
    ensures
        r@ == binding_name_spec(k as nat, j as nat),
{
    let mut r = String::new();
    r.append("__glob_");
    let ks = usize_to_string(k);
    r.append(ks.as_str());
    r.append("_");
    let js = usize_to_string(j);
    r.append(js.as_str());
    proof {
        reveal_strlit("__glob_");
        reveal_strlit("_");
        assert("__glob_"@ =~= name_prefix());
        assert("_"@ =~= seq!['_']);
        assert(r@ =~= binding_name_spec(k as nat, j as nat));
    }
    r
}

/// `nm` is an identifier synthesized for some call site before `n`.
pub open spec fn from_earlier_call(nm: Seq<char>, n: nat) -> bool {
    exists|k: nat, j: nat| k < n && nm == binding_name_spec(k, j)
}

/// The pending-import list is well formed for next call index `n`: every
/// entry binds a synthesized name from an earlier call site, and the names
/// are pairwise distinct.
pub open spec fn pending_wf(p: Seq<(String, String)>, n: nat) -> bool {
    &&& forall|a: int, b: int|
        0 <= a < b < p.len() ==> (#[trigger] p[a]).0@ != (#[trigger] p[b]).0@
    &&& forall|a: int| 0 <= a < p.len() ==> from_earlier_call((#[trigger] p[a]).0@, n)
}

/// One generated object-literal property: its key is the quoted output
/// specifier of match `m`; its value is the synthesized identifier for
/// `(k, j)` in eager mode, or the deferred-load thunk for the same
/// specifier in lazy mode.
pub open spec fn prop_expansion(p: Prop, m: GlobMatch, eager: bool, k: nat, j: nat) -> bool {
    &&& p matches Prop::KeyValue { key, value }
    &&& key matches PropKey::Str(ks)
    &&& ks@ == m.specifier@
    &&& (eager ==> (value matches Expr::Ident(nm) && nm@ == binding_name_spec(k, j)))
    &&& (!eager ==> (value matches Expr::LazyImport(sp) && sp@ == m.specifier@))
}

/// The object literal generated for call site `k` over `ms`: one property
/// per match, in match order.
pub open spec fn obj_expansion(r: Expr, ms: Seq<GlobMatch>, eager: bool, k: nat) -> bool {
    &&& r matches Expr::Object(props)
    &&& props@.len() == ms.len()
    &&& forall|j: int|
        0 <= j < ms.len() ==> prop_expansion(#[trigger] props@[j], ms[j], eager, k, j as nat)
}

/// The shape every rewritten call site has, whatever the filesystem
/// returned: an object literal whose property keys are quoted specifiers
/// and whose values are bare synthesized identifiers (eager) or
/// deferred-load thunks targeting exactly their property's specifier
/// (lazy).
pub open spec fn expansion_shape(r: Expr) -> bool {
    &&& r matches Expr::Object(props)
    &&& forall|j: int| 0 <= j < props@.len() ==> expansion_prop_shape(#[trigger] props@[j])
}

pub open spec fn expansion_prop_shape(p: Prop) -> bool {
    &&& p matches Prop::KeyValue { key, value }
    &&& key is Str
    &&& (value is Ident || (value matches Expr::LazyImport(sp) && sp@ == key->Str_0@))
}

pub proof fn lemma_obj_expansion_shape(r: Expr, ms: Seq<GlobMatch>, eager: bool, k: nat)
    requires
        obj_expansion(r, ms, eager, k),
    ensures
        expansion_shape(r),
{
}

/// A pattern that matched zero files expands to an object literal with
/// zero properties; this is a valid outcome, not an error.
pub proof fn lemma_empty_expansion(r: Expr, eager: bool, k: nat)
    requires
        obj_expansion(r, Seq::<GlobMatch>::empty(), eager, k),
    ensures
        (r matches Expr::Object(props) && props@.len() == 0),
{
}

pub proof fn lemma_props_shape_count_zero(s: Seq<Prop>)
    requires
        forall|t: int| 0 <= t < s.len() ==> expansion_prop_shape(#[trigger] s[t]),
    ensures
        crate::ast::count_prop_seq(s) == 0,
    decreases s.len(),
{
    if s.len() > 0 {
        assert(expansion_prop_shape(s[0]));
        let v = s[0]->KeyValue_value;
        assert(crate::ast::count_expr(v) == 0);
        assert forall|t: int| 0 <= t < s.drop_first().len() implies expansion_prop_shape(
            #[trigger] s.drop_first()[t],
        ) by {
            assert(s.drop_first()[t] == s[t + 1]);
        }
        lemma_props_shape_count_zero(s.drop_first());
        assert(crate::ast::count_prop(s[0]) == crate::ast::count_expr(v));
        assert(crate::ast::count_prop_seq(s) == crate::ast::count_prop(s[0])
            + crate::ast::count_prop_seq(s.drop_first()));
    }
}

/// A generated object literal contains no further glob-import calls: the
/// transform never revisits its own output.
pub proof fn lemma_expansion_shape_count_zero(r: Expr)
    requires
        expansion_shape(r),
    ensures
        crate::ast::count_expr(r) == 0,
        !crate::ast::is_glob_call(r),
{
    lemma_props_shape_count_zero(r->Object_0@);
}

} // verus!
