//! Hints are found under their own keys.
use vstd::prelude::*;
use crate::frontend::hints::{
    CompileOptions,
    Hint,
    HintErrorV,
    HintValues,
};
use crate::frontend::hints;
use crate::frontend::syntax::{Expr, Lit};
use crate::text;

verus! {

/// The value of the hint with a key.
pub open spec fn field(v: HintValues, key: Seq<char>) -> Option<i32> {
    if key == "num_cta_in_cga"@ {
        v.num_cta_in_cga
    } else if key == "occupancy"@ {
        v.occupancy
    } else if key == "max_divisibility"@ {
        v.max_divisibility
    } else if key == "num_worker_warps_per_cta"@ {
        v.num_worker_warps_per_cta
    } else {
        None
    }
}

/// The option that overrides the hint with a key.
pub open spec fn option(o: CompileOptions, key: Seq<char>) -> Option<i32> {
    if key == "num_cta_in_cga"@ {
        o.num_cta_in_cga
    } else if key == "occupancy"@ {
        o.occupancy
    } else if key == "max_divisibility"@ {
        o.max_divisibility
    } else if key == "num_worker_warps_per_cta"@ {
        o.num_worker_warps_per_cta
    } else {
        None
    }
}

/// Whether a hint of an entry point has this key.
pub open spec fn is_key(key: Seq<char>) -> bool {
    key == "num_cta_in_cga"@ || key == "occupancy"@ || key == "max_divisibility"@ || key
        == "num_worker_warps_per_cta"@
}

proof fn lemma_keys_differ()
    ensures
        "num_cta_in_cga"@.len() == 14,
        "occupancy"@.len() == 9,
        "max_divisibility"@.len() == 16,
        "num_worker_warps_per_cta"@.len() == 24,
        "allow_tma"@.len() == 9,
        "allow_tma"@ != "occupancy"@,
        "latency"@.len() == 7,
{
    reveal_strlit("num_cta_in_cga");
    reveal_strlit("occupancy");
    reveal_strlit("max_divisibility");
    reveal_strlit("num_worker_warps_per_cta");
    reveal_strlit("allow_tma");
    reveal_strlit("latency");
    assert("allow_tma"@[0] != "occupancy"@[0]);
}

/// A hint is found by its own key, and by no other.
pub proof fn lemma_key(h: Hint, key: Seq<char>)
    ensures
        hints::hint_named(hints::hint_key(h)) == Ok::<Hint, HintErrorV>(h),
        hints::hint_named(key) == Ok::<Hint, HintErrorV>(h) ==> key == hints::hint_key(h),
        hints::hint_named(key) is Ok <==> is_key(key),
        hints::hint_named(key) matches Err(e) ==> e == (if key == "allow_tma"@ || key
            == "latency"@ {
            HintErrorV::PerOpHint(key)
        } else {
            HintErrorV::UnknownKey(key)
        }),
{
    lemma_keys_differ();
}

/// The key of a hint names its field: reading and setting a hint are reading and setting
/// that field, and leave the others alone.
pub proof fn lemma_field(v: HintValues, h: Hint, x: Option<i32>, key: Seq<char>)
    ensures
        is_key(hints::hint_key(h)),
        hints::hint_of(v, h) == field(v, hints::hint_key(h)),
        field(hints::with_hint(v, h, x), hints::hint_key(h)) == x,
        key != hints::hint_key(h) ==> field(hints::with_hint(v, h, x), key) == field(v, key),
        field(hints::no_hints(), key) is None,
{
    lemma_keys_differ();
}

/// An assignment of a value to one name gives the name and the value.
pub proof fn lemma_assignment(e: Expr)
    ensures
        match hints::key_value(e) {
            Ok((k, v)) => {
                &&& e matches Expr::Assign(l, r) && *r == v
                &&& *e->Assign_0 matches Expr::Path(p) && p.segments@.len() == 1
                    && p.segments@[0].ident@ == k
            },
            Err(_) => !(e matches Expr::Assign(l, _) && (*l matches Expr::Path(p)
                && p.segments@.len() == 1)),
        },
{
}

/// Only integer literals below two to the 31 are values of hints.
pub proof fn lemma_value(e: Expr)
    ensures
        match hints::int_hint(e) {
            Ok(x) => e matches Expr::Lit(Lit::Int(d)) && text::decimal_below(d@, 0x8000_0000)
                == Some(x as int),
            Err(err) => {
                &&& (err == HintErrorV::NotLiteral <==> !(e is Lit))
                &&& (err == HintErrorV::BadInteger <==> (e matches Expr::Lit(Lit::Int(_))))
                &&& (e matches Expr::Lit(Lit::Int(d)) ==> text::decimal_below(d@, 0x8000_0000) is None)
            },
        },
{
    match e {
        Expr::Lit(Lit::Int(d)) => {
            if text::all_digits(d@) {
                text::lemma_decimal_nonneg(d@);
            }
        },
        _ => {},
    }
}

/// After the hints of an architecture were read, the hint with a key has the integer that
/// was assigned to the key, and a hint whose key was not assigned has none. No key was
/// assigned twice.
pub proof fn lemma_architecture(elems: Seq<Expr>, n: int)
    requires
        0 <= n <= elems.len(),
        hints::arch_hints(elems, n) is Ok,
    ensures
        ({
            let v = hints::arch_hints(elems, n)->Ok_0;
            &&& forall|i: int|
                0 <= i < n ==> {
                    &&& hints::key_value(#[trigger] elems[i]) is Ok
                    &&& is_key(hints::key_value(elems[i])->Ok_0.0)
                    &&& hints::int_hint(hints::key_value(elems[i])->Ok_0.1) is Ok
                    &&& field(v, hints::key_value(elems[i])->Ok_0.0) == Some(
                        hints::int_hint(hints::key_value(elems[i])->Ok_0.1)->Ok_0,
                    )
                }
            &&& forall|key: Seq<char>| #[trigger]
                field(v, key) is Some ==> exists|i: int|
                    0 <= i < n && hints::key_value(#[trigger] elems[i])->Ok_0.0 == key
            &&& forall|i: int, j: int|
                0 <= i < j < n ==> hints::key_value(#[trigger] elems[i])->Ok_0.0
                    != hints::key_value(#[trigger] elems[j])->Ok_0.0
        }),
    decreases n,
{
    let v = hints::arch_hints(elems, n)->Ok_0;
    if n > 0 {
        lemma_architecture(elems, n - 1);
        let u = hints::arch_hints(elems, n - 1)->Ok_0;
        let (k, e) = hints::key_value(elems[n - 1])->Ok_0;
        let h = hints::hint_named(k)->Ok_0;
        lemma_key(h, k);
        let x = Some(hints::int_hint(e)->Ok_0);
        assert(v == hints::with_hint(u, h, x));
        lemma_field(u, h, x, k);
        assert(field(u, k) is None);
        assert forall|i: int| 0 <= i < n implies {
            &&& hints::key_value(#[trigger] elems[i]) is Ok
            &&& is_key(hints::key_value(elems[i])->Ok_0.0)
            &&& hints::int_hint(hints::key_value(elems[i])->Ok_0.1) is Ok
            &&& field(v, hints::key_value(elems[i])->Ok_0.0) == Some(
                hints::int_hint(hints::key_value(elems[i])->Ok_0.1)->Ok_0,
            )
        } by {
            if i < n - 1 {
                lemma_field(u, h, x, hints::key_value(elems[i])->Ok_0.0);
            }
        }
        assert forall|key: Seq<char>| #[trigger] field(v, key) is Some implies exists|i: int|
            0 <= i < n && hints::key_value(#[trigger] elems[i])->Ok_0.0 == key by {
            lemma_field(u, h, x, key);
            if key == k {
                assert(hints::key_value(elems[n - 1])->Ok_0.0 == key);
            } else {
                assert(field(u, key) is Some);
                let i = choose|i: int|
                    0 <= i < n - 1 && hints::key_value(#[trigger] elems[i])->Ok_0.0 == key;
                assert(hints::key_value(elems[i])->Ok_0.0 == key);
            }
        }
    } else {
        assert forall|key: Seq<char>| #[trigger] field(v, key) is Some implies false by {
            lemma_field(v, Hint::Occupancy, None, key);
        }
    }
}

/// After hints were read, each assignment has given its architecture the hints in its
/// tuple, and no other architecture has any. No architecture was assigned twice.
pub proof fn lemma_architectures(elems: Seq<Expr>, n: int)
    requires
        0 <= n <= elems.len(),
        hints::all_hints(elems, n) is Ok,
    ensures
        ({
            let m = hints::all_hints(elems, n)->Ok_0;
            &&& forall|i: int|
                0 <= i < n ==> {
                    &&& hints::key_value(#[trigger] elems[i]) matches Ok((k, Expr::Tuple(inner)))
                    &&& m.dom().contains(hints::key_value(elems[i])->Ok_0.0)
                    &&& hints::arch_hints(
                        hints::key_value(elems[i])->Ok_0.1->Tuple_0@,
                        hints::key_value(elems[i])->Ok_0.1->Tuple_0@.len() as int,
                    ) == Ok::<HintValues, HintErrorV>(m[hints::key_value(elems[i])->Ok_0.0])
                }
            &&& forall|arch: Seq<char>| #[trigger]
                m.dom().contains(arch) ==> exists|i: int|
                    0 <= i < n && hints::key_value(#[trigger] elems[i])->Ok_0.0 == arch
        }),
    decreases n,
{
    if n > 0 {
        lemma_architectures(elems, n - 1);
        let m = hints::all_hints(elems, n)->Ok_0;
        let before = hints::all_hints(elems, n - 1)->Ok_0;
        let k = hints::key_value(elems[n - 1])->Ok_0.0;
        assert forall|arch: Seq<char>| #[trigger] m.dom().contains(arch) implies exists|i: int|
            0 <= i < n && hints::key_value(#[trigger] elems[i])->Ok_0.0 == arch by {
            if arch == k {
                assert(hints::key_value(elems[n - 1])->Ok_0.0 == arch);
            } else {
                assert(before.dom().contains(arch));
                let i = choose|i: int|
                    0 <= i < n - 1 && hints::key_value(#[trigger] elems[i])->Ok_0.0 == arch;
                assert(hints::key_value(elems[i])->Ok_0.0 == arch);
            }
        }
    }
}

/// Options override the hints of the target with the same key, where they are set, and
/// leave the others as they are.
pub proof fn lemma_options(
    m: Map<Seq<char>, HintValues>,
    arch: Seq<char>,
    o: CompileOptions,
    key: Seq<char>,
)
    ensures
        ({
            let before = if m.dom().contains(arch) {
                field(m[arch], key)
            } else {
                None
            };
            let r = hints::applied(m, arch, o);
            let after = if r.dom().contains(arch) {
                field(r[arch], key)
            } else {
                None
            };
            after == (if option(o, key) is Some {
                option(o, key)
            } else {
                before
            })
        }),
{
    lemma_keys_differ();
}

} // verus!
