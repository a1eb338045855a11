//! Assigns every discovered member a unique, source-emittable name:
//! compiler-synthetic name prefixes are stripped, constructors collapse onto
//! one reserved name, and colliding names get a numbered suffix in order of
//! appearance.

use vstd::prelude::*;

use crate::javap::{MethodDescriptor, MethodDescriptorView};
use crate::text::{
    char_pred, contains_char, decimal_string, find_char, lemma_spec_find, spec_contains_char,
    spec_decimal, spec_find,
};

verus! {

/// The marker that virtual-machine toolchains put into the names of
/// compiler-generated members.
pub const SYNTHETIC_SEPARATOR: char = '$';

/// The working name of a disassembled member name: where the synthetic
/// separator occurs, only the segment between the first separator and the
/// next one (or the end) is kept; any other name is kept whole.
pub open spec fn spec_strip_synthetic(name: Seq<char>) -> Seq<char> {
    if spec_contains_char(name, SYNTHETIC_SEPARATOR) {
        let a = spec_find(name, 0, char_pred(SYNTHETIC_SEPARATOR));
        let b = spec_find(name, a + 1, char_pred(SYNTHETIC_SEPARATOR));
        name.subrange(a + 1, b)
    } else {
        name
    }
}

/// Strips a compiler-synthetic prefix, matching `spec_strip_synthetic`.
pub fn strip_synthetic(name: &str) -> (r: String)
    ensures
        r@ == spec_strip_synthetic(name@),
{
    let n = name.unicode_len();
    if contains_char(name, SYNTHETIC_SEPARATOR) {
        let a = find_char(name, 0, SYNTHETIC_SEPARATOR);
        proof {
            lemma_spec_find(name@, 0, char_pred(SYNTHETIC_SEPARATOR));
            if a == n {
                let w = choose|k: int| 0 <= k < name@.len() && name@[k] == SYNTHETIC_SEPARATOR;
                assert(char_pred(SYNTHETIC_SEPARATOR)(name@[w]));
                assert(false);
            }
        }
        let b = find_char(name, a + 1, SYNTHETIC_SEPARATOR);
        proof {
            lemma_spec_find(name@, a + 1, char_pred(SYNTHETIC_SEPARATOR));
        }
        String::from_str(name.substring_char(a + 1, b))
    } else {
        String::from_str(name)
    }
}

/// The base name a member is resolved under: the reserved constructor name
/// for constructors, the stripped working name otherwise.
pub open spec fn spec_base_name(d: MethodDescriptorView) -> Seq<char> {
    if d.is_constructor {
        "new"@
    } else {
        spec_strip_synthetic(d.raw_name)
    }
}

/// The base name of a member, matching `spec_base_name`.
pub fn base_name(d: &MethodDescriptor) -> (r: String)
    ensures
        r@ == spec_base_name(d@),
{
    if d.is_constructor {
        String::from_str("new")
    } else {
        strip_synthetic(d.raw_name.as_str())
    }
}

/// How many members before position `i` share the base name `b`.
pub open spec fn spec_count_base(ds: Seq<MethodDescriptorView>, i: int, b: Seq<char>) -> nat
    decreases i when i >= 0
{
    if i <= 0 {
        0
    } else {
        spec_count_base(ds, i - 1, b) + (if spec_base_name(ds[i - 1]) == b {
            1nat
        } else {
            0nat
        })
    }
}

/// The unique emitted name of the member at position `i`: its base name for
/// the first occurrence, and the base name with `_N` appended for the N-th
/// occurrence (counting from 1) of the same base name.
pub open spec fn spec_resolved_name(ds: Seq<MethodDescriptorView>, i: int) -> Seq<char> {
    let b = spec_base_name(ds[i]);
    let occ = spec_count_base(ds, i, b);
    if occ == 0 {
        b
    } else {
        b + "_"@ + spec_decimal(occ + 1 as int)
    }
}

/// A positive count of a base name means some earlier member carries it.
proof fn lemma_count_base_pos(ds: Seq<MethodDescriptorView>, i: int, b: Seq<char>)
    requires
        0 <= i,
    ensures
        spec_count_base(ds, i, b) > 0 <==> exists|j: int|
            0 <= j < i && spec_base_name(#[trigger] ds[j]) == b,
    decreases i,
{
    if i > 0 {
        lemma_count_base_pos(ds, i - 1, b);
    }
}

/// Later occurrences of a base name stand behind strictly more earlier
/// occurrences.
proof fn lemma_count_base_monotone(ds: Seq<MethodDescriptorView>, i: int, j: int, b: Seq<char>)
    requires
        0 <= i < j,
        spec_base_name(ds[i]) == b,
    ensures
        spec_count_base(ds, j, b) > spec_count_base(ds, i, b),
    decreases j,
{
    if j - 1 > i {
        lemma_count_base_monotone(ds, i, j - 1, b);
    }
}

/// A name is never handed out twice for one base: two members with the same
/// base name resolve to different emitted names, whatever stands between
/// them.
pub proof fn lemma_resolved_names_distinct(ds: Seq<MethodDescriptorView>, i: int, j: int)
    requires
        0 <= i < j < ds.len(),
        spec_base_name(ds[i]) == spec_base_name(ds[j]),
    ensures
        spec_resolved_name(ds, i) != spec_resolved_name(ds, j),
{
    let b = spec_base_name(ds[i]);
    let occ_i = spec_count_base(ds, i, b);
    let occ_j = spec_count_base(ds, j, b);
    lemma_count_base_monotone(ds, i, j, b);
    crate::text::lemma_decimal_len_pos(occ_j + 1 as int);
    if occ_i == 0 {
        reveal_strlit("_");
        assert(spec_resolved_name(ds, i).len() == b.len());
        assert(spec_resolved_name(ds, j).len() == b.len() + 1 + spec_decimal(
            occ_j + 1 as int,
        ).len());
    } else {
        if spec_resolved_name(ds, i) == spec_resolved_name(ds, j) {
            let x = b + "_"@;
            let d1 = spec_decimal(occ_i + 1 as int);
            let d2 = spec_decimal(occ_j + 1 as int);
            assert(spec_resolved_name(ds, i) =~= x + d1);
            assert(spec_resolved_name(ds, j) =~= x + d2);
            assert(d1.len() == d2.len());
            assert(d1 =~= (x + d1).subrange(x.len() as int, (x + d1).len() as int));
            assert(d2 =~= (x + d2).subrange(x.len() as int, (x + d2).len() as int));
            crate::text::lemma_decimal_injective(occ_i + 1 as int, occ_j + 1 as int);
            assert(false);
        }
    }
}

/// Resolves the emitted names of a class's members in order: the first
/// occurrence of a base name keeps it unmodified, and every later occurrence
/// of the same base name gets its 1-based occurrence index appended — no
/// name of the same base is handed out twice.
pub fn resolve_names(descs: &Vec<MethodDescriptor>) -> (r: Vec<String>)
    ensures
        r.len() == descs.len(),
        forall|i: int|
            0 <= i < descs.len() ==> r.deep_view()[i] == spec_resolved_name(
                descs.deep_view(),
                i,
            ),
{
    let ghost dv = descs.deep_view();
    let mut counts: Vec<(String, u64)> = Vec::new();
    let mut r: Vec<String> = Vec::new();
    let mut i: usize = 0;
    while i < descs.len()
        invariant
            i <= descs.len(),
            dv == descs.deep_view(),
            dv.len() == descs.len(),
            r.len() == i,
            r.deep_view().len() == i,
            forall|j: int| 0 <= j < i ==> r.deep_view()[j] == spec_resolved_name(dv, j),
            forall|a: int, c: int|
                0 <= a < c < counts@.len() ==> (#[trigger] counts@[a]).0@ != (
                #[trigger] counts@[c]).0@,
            forall|k: int|
                0 <= k < counts@.len() ==> spec_count_base(
                    dv,
                    i as int,
                    (#[trigger] counts@[k]).0@,
                ) == counts@[k].1,
            forall|k: int| 0 <= k < counts@.len() ==> 1 <= (#[trigger] counts@[k]).1 <= i,
            forall|j: int| #![trigger dv[j]]
                0 <= j < i ==> exists|k: int|
                    0 <= k < counts@.len() && (#[trigger] counts@[k]).0@ == spec_base_name(dv[j]),
        decreases descs.len() - i,
    {
        let b = base_name(&descs[i]);
        let ghost bview = b@;
        let ghost oldc = counts@;
        let ghost oldr = r.deep_view();
        proof {
            assert(descs[i as int]@ == dv[i as int]);
            assert(bview == spec_base_name(dv[i as int]));
        }
        let mut found: bool = false;
        let mut at: usize = 0;
        let mut k: usize = 0;
        while k < counts.len()
            invariant
                k <= counts.len(),
                counts@ == oldc,
                bview == b@,
                !found ==> forall|t: int| 0 <= t < k ==> (#[trigger] counts@[t]).0@ != bview,
                found ==> at < counts@.len() && counts@[at as int].0@ == bview,
            decreases counts.len() - k,
        {
            if !found && counts[k].0 == b {
                found = true;
                at = k;
            }
            k = k + 1;
        }
        if found {
            let occ = counts[at].1;
            proof {
                assert(spec_count_base(dv, i as int, bview) == occ);
            }
            counts[at].1 = occ + 1;
            proof {
                assert(counts@ =~= oldc.update(at as int, (oldc[at as int].0, (occ + 1) as u64)));
            }
            let mut name = b;
            name.append("_");
            let suffix = decimal_string(occ + 1);
            name.append(suffix.as_str());
            proof {
                assert(name@ == bview + "_"@ + spec_decimal(occ + 1));
                assert(name@ == spec_resolved_name(dv, i as int));
            }
            r.push(name);
        } else {
            proof {
                lemma_count_base_pos(dv, i as int, bview);
                if spec_count_base(dv, i as int, bview) > 0 {
                    let j = choose|j: int| 0 <= j < i && spec_base_name(#[trigger] dv[j]) == bview;
                    let w = choose|k: int|
                        0 <= k < oldc.len() && (#[trigger] oldc[k]).0@ == spec_base_name(dv[j]);
                    assert(oldc[w].0@ == bview);
                    assert(false);
                }
                assert(spec_resolved_name(dv, i as int) == bview);
            }
            let name = b.clone();
            counts.push((b, 1));
            proof {
                assert(counts@.len() == oldc.len() + 1);
                assert(counts@[oldc.len() as int].0@ == bview);
                assert(forall|t: int| 0 <= t < oldc.len() ==> counts@[t] == oldc[t]);
            }
            r.push(name);
        }
        proof {
            // The per-key counts, uniqueness, and seen-base coverage carry
            // over to position i + 1.
            assert forall|t: int| 0 <= t < counts@.len() implies spec_count_base(
                dv,
                i + 1,
                (#[trigger] counts@[t]).0@,
            ) == counts@[t].1 && 1 <= counts@[t].1 <= i + 1 by {
                assert(spec_count_base(dv, i + 1, counts@[t].0@) == spec_count_base(
                    dv,
                    i as int,
                    counts@[t].0@,
                ) + (if spec_base_name(dv[i as int]) == counts@[t].0@ {
                    1nat
                } else {
                    0nat
                }));
                if t < oldc.len() {
                    assert(counts@[t].0 == oldc[t].0);
                    assert(spec_count_base(dv, i as int, oldc[t].0@) == oldc[t].1);
                }
            }
            assert forall|a: int, c: int| 0 <= a < c < counts@.len() implies (
            #[trigger] counts@[a]).0@ != (#[trigger] counts@[c]).0@ by {
                if c < oldc.len() {
                    assert(counts@[a].0 == oldc[a].0 && counts@[c].0 == oldc[c].0);
                } else if !found {
                    assert(counts@[a].0 == oldc[a].0 && counts@[c].0@ == bview);
                    assert(oldc[a].0@ != bview);
                }
            }
            assert forall|j: int| #![trigger dv[j]] 0 <= j < i + 1 implies exists|k: int|
                0 <= k < counts@.len() && (#[trigger] counts@[k]).0@ == spec_base_name(dv[j]) by {
                if j < i {
                    let w = choose|k: int|
                        0 <= k < oldc.len() && (#[trigger] oldc[k]).0@ == spec_base_name(dv[j]);
                    assert(counts@[w].0@ == spec_base_name(dv[j]));
                } else {
                    if found {
                        assert(counts@[at as int].0@ == spec_base_name(dv[i as int]));
                    } else {
                        assert(counts@[oldc.len() as int].0@ == spec_base_name(dv[i as int]));
                    }
                }
            }
            assert(r.deep_view().len() == i + 1);
            assert forall|j: int| 0 <= j < i + 1 implies r.deep_view()[j] == spec_resolved_name(
                dv,
                j,
            ) by {
                if j < i {
                    assert(r.deep_view()[j] == oldr[j]);
                }
            }
        }
        i = i + 1;
    }
    r
}

} // verus!
