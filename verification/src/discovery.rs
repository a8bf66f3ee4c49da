//! Discovery of a contiguous run of part files, driven by the name of a
//! first part and a listing of the names present in its directory.

use vstd::prelude::*;
use crate::errors::EngineError;
use crate::naming::{
    base_name_of,
    base_name_spec,
    lemma_part_name_injective,
    part_file_name,
    part_name_spec,
    rfind_marker,
    rfind_part_marker,
};

verus! {

/// Whether one of the listed names is `name`.
pub open spec fn contains_name(entries: Seq<Seq<char>>, name: Seq<char>) -> bool {
    exists|k: int| 0 <= k < entries.len() && entries[k] == name
}

/// Removing an entry other than `name` keeps `name` contained.
proof fn lemma_contains_after_remove(entries: Seq<Seq<char>>, name: Seq<char>, idx: int)
    requires
        0 <= idx < entries.len(),
        contains_name(entries, name),
        entries[idx] != name,
    ensures
        contains_name(entries.remove(idx), name),
{
    let k = choose|k: int| 0 <= k < entries.len() && entries[k] == name;
    if k < idx {
        assert(entries.remove(idx)[k] == name);
    } else {
        assert(entries.remove(idx)[k - 1] == name);
    }
}

/// A run of parts one through `k`, all present among the entries, needs
/// at least `k` entries: distinct indices never share a part name.
proof fn lemma_run_length_bound(entries: Seq<Seq<char>>, base: Seq<char>, k: int)
    requires
        k >= 0,
        forall|m: int| 1 <= m <= k ==> contains_name(entries, part_name_spec(base, m)),
    ensures
        k <= entries.len(),
    decreases k,
{
    if k > 0 {
        assert(contains_name(entries, part_name_spec(base, k)));
        let idx = choose|t: int|
            0 <= t < entries.len() && entries[t] == part_name_spec(base, k);
        let rest = entries.remove(idx);
        assert forall|m: int| 1 <= m <= k - 1 implies contains_name(
            rest,
            part_name_spec(base, m),
        ) by {
            if part_name_spec(base, m) == part_name_spec(base, k) {
                lemma_part_name_injective(base, m, k);
            }
            lemma_contains_after_remove(entries, part_name_spec(base, m), idx);
        };
        lemma_run_length_bound(rest, base, k - 1);
    }
}

/// Whether `name` is one of the listed entries.
fn contains_entry(entries: &Vec<String>, name: &String) -> (r: bool)
    ensures
        r == contains_name(entries.deep_view(), name@),
{
    let mut i: usize = 0;
    while i < entries.len()
        invariant
            i <= entries@.len(),
            forall|k: int| 0 <= k < i ==> entries.deep_view()[k] != name@,
        decreases entries@.len() - i,
    {
        if entries[i].eq(name) {
            proof {
                assert(entries.deep_view()[i as int] == name@);
            }
            return true;
        }
        i += 1;
    }
    false
}

/// Discovers the parts to join, given the name of any part and the names
/// present in its directory.
///
/// The name must carry the `.part` marker; everything before its last
/// occurrence is the base name. The discovered set is exactly the
/// contiguous run of part names from index one up to the first index that
/// is absent, whatever the index of the given part was; parts beyond a
/// gap are ignored. Without the marker the name is not a part file at
/// all; with the marker but without a first part there is nothing to
/// join.
pub fn find_all_parts(first_part_name: &str, entries: &Vec<String>) -> (r: Result<
    Vec<String>,
    EngineError,
>)
    requires
        entries@.len() < usize::MAX,
    ensures
        match r {
            Ok(parts) => {
                &&& rfind_marker(first_part_name@) is Some
                &&& parts@.len() >= 1
                &&& forall|k: int|
                    0 <= k < parts@.len() ==> (#[trigger] parts@[k])@ == part_name_spec(
                        base_name_spec(first_part_name@),
                        k + 1,
                    ) && contains_name(entries.deep_view(), parts@[k]@)
                &&& !contains_name(
                    entries.deep_view(),
                    part_name_spec(base_name_spec(first_part_name@), parts@.len() + 1 as int),
                )
            },
            Err(e) => {
                ||| (e == EngineError::InvalidFormat && rfind_marker(first_part_name@) is None)
                ||| (e == EngineError::NoPartsFound && rfind_marker(first_part_name@) is Some
                    && !contains_name(
                    entries.deep_view(),
                    part_name_spec(base_name_spec(first_part_name@), 1),
                ))
            },
        },
{
    let pos = match rfind_part_marker(first_part_name) {
        Some(p) => p,
        None => {
            return Err(EngineError::InvalidFormat);
        },
    };
    let base = base_name_of(first_part_name, pos);
    let ghost bspec = base_name_spec(first_part_name@);
    let mut parts: Vec<String> = Vec::new();
    let mut idx: usize = 1;
    loop
        invariant
            entries@.len() < usize::MAX,
            base@ == bspec,
            idx == parts@.len() + 1,
            idx <= entries@.len() + 1,
            forall|k: int|
                0 <= k < parts@.len() ==> (#[trigger] parts@[k])@ == part_name_spec(bspec, k + 1)
                    && contains_name(entries.deep_view(), parts@[k]@),
        ensures
            idx == parts@.len() + 1,
            forall|k: int|
                0 <= k < parts@.len() ==> (#[trigger] parts@[k])@ == part_name_spec(bspec, k + 1)
                    && contains_name(entries.deep_view(), parts@[k]@),
            !contains_name(entries.deep_view(), part_name_spec(bspec, parts@.len() + 1 as int)),
        decreases entries@.len() + 1 - idx,
    {
        let candidate = part_file_name(base.as_str(), idx as u64);
        if !contains_entry(entries, &candidate) {
            break;
        }
        parts.push(candidate);
        proof {
            assert forall|m: int| 1 <= m <= idx implies contains_name(
                entries.deep_view(),
                part_name_spec(bspec, m),
            ) by {
                assert(parts@[m - 1]@ == part_name_spec(bspec, m));
            };
            lemma_run_length_bound(entries.deep_view(), bspec, idx as int);
        }
        idx += 1;
    }
    if parts.len() == 0 {
        Err(EngineError::NoPartsFound)
    } else {
        Ok(parts)
    }
}

} // verus!
