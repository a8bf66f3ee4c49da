//! The part-file naming convention: `<base>.part<NNN>` with a zero-padded,
//! at-least-three-digit index, and the inverse step of finding the marker
//! in a part file's name.

use vstd::prelude::*;
use crate::digits::{padded3, append_padded3, lemma_digits_val_padded3};

verus! {

/// The characters of the marker that the convention puts between the base
/// name and the index.
pub open spec fn marker() -> Seq<char> {
    seq!['.', 'p', 'a', 'r', 't']
}

/// The name of part `index` of a file named `base`.
pub open spec fn part_name_spec(base: Seq<char>, index: int) -> Seq<char>
    recommends
        index >= 0,
{
    base + marker() + padded3(index)
}

/// Two distinct indices never yield the same part name.
pub proof fn lemma_part_name_injective(base: Seq<char>, i: int, j: int)
    requires
        i >= 0,
        j >= 0,
        part_name_spec(base, i) == part_name_spec(base, j),
    ensures
        i == j,
{
    let a = part_name_spec(base, i);
    let b = part_name_spec(base, j);
    assert(a.len() == base.len() + 5 + padded3(i).len());
    assert(b.len() == base.len() + 5 + padded3(j).len());
    assert(padded3(i) =~= a.subrange(base.len() + 5 as int, a.len() as int));
    assert(padded3(j) =~= b.subrange(base.len() + 5 as int, b.len() as int));
    lemma_digits_val_padded3(i);
    lemma_digits_val_padded3(j);
}

/// Builds the name of part `index` for a file named `base`.
pub fn part_file_name(base: &str, index: u64) -> (r: String)
    ensures
        r@ == part_name_spec(base@, index as int),
{
    let mut s = base.to_owned();
    s.append(".part");
    append_padded3(&mut s, index);
    proof {
        reveal_strlit(".part");
        assert(".part"@ =~= marker());
        assert(s@ =~= part_name_spec(base@, index as int));
    }
    s
}

/// Whether the marker occurs in `name` starting at position `i`.
pub open spec fn marker_at(name: Seq<char>, i: int) -> bool {
    0 <= i && i + 5 <= name.len() && name.subrange(i, i + 5) == marker()
}

/// The start of the last occurrence of the marker at or before position
/// `i`, if any.
pub open spec fn rfind_marker_from(name: Seq<char>, i: int) -> Option<int>
    decreases (if i < 0 { 0 } else { i + 1 }),
{
    if i < 0 {
        None
    } else if marker_at(name, i) {
        Some(i)
    } else {
        rfind_marker_from(name, i - 1)
    }
}

/// The start of the last occurrence of the marker in `name`, if any.
pub open spec fn rfind_marker(name: Seq<char>) -> Option<int> {
    rfind_marker_from(name, name.len() - 5)
}

/// The base name of a part file: everything before the last occurrence of
/// the marker.
pub open spec fn base_name_spec(name: Seq<char>) -> Seq<char>
    recommends
        rfind_marker(name) is Some,
{
    name.take(rfind_marker(name)->Some_0)
}

/// What `rfind_marker_from` finds: the position of the last occurrence at
/// or before `i`, or nothing when no occurrence lies there.
pub proof fn lemma_rfind_marker_from(name: Seq<char>, i: int)
    ensures
        match rfind_marker_from(name, i) {
            Some(p) => marker_at(name, p) && p <= i && forall|q: int|
                p < q <= i ==> !marker_at(name, q),
            None => forall|q: int| q <= i ==> !marker_at(name, q),
        },
    decreases (if i < 0 { 0 } else { i + 1 }),
{
    if i >= 0 && !marker_at(name, i) {
        lemma_rfind_marker_from(name, i - 1);
    }
}

/// No occurrence of the marker can start beyond `name.len() - 5`.
pub proof fn lemma_rfind_marker(name: Seq<char>)
    ensures
        match rfind_marker(name) {
            Some(p) => marker_at(name, p) && forall|q: int| q > p ==> !marker_at(name, q),
            None => forall|q: int| !marker_at(name, q),
        },
{
    lemma_rfind_marker_from(name, name.len() - 5);
}

/// Skipping positions without an occurrence does not change what is found.
proof fn lemma_rfind_marker_skip(name: Seq<char>, i: int, j: int)
    requires
        -1 <= i <= j,
        forall|q: int| i < q <= j ==> !marker_at(name, q),
    ensures
        rfind_marker_from(name, j) == rfind_marker_from(name, i),
    decreases j - i,
{
    if i < j {
        lemma_rfind_marker_skip(name, i, j - 1);
    }
}

/// Finds the start of the last occurrence of the marker in `name`.
pub fn rfind_part_marker(name: &str) -> (r: Option<usize>)
    ensures
        match r {
            Some(p) => rfind_marker(name@) == Some(p as int),
            None => rfind_marker(name@) is None,
        },
{
    let n = name.unicode_len();
    if n < 5 {
        return None;
    }
    let mut i: usize = n - 5;
    loop
        invariant
            n == name@.len(),
            n >= 5,
            0 <= i <= n - 5,
            forall|q: int| i < q <= n - 5 ==> !marker_at(name@, q),
        decreases i,
    {
        let c0 = name.get_char(i);
        let c1 = name.get_char(i + 1);
        let c2 = name.get_char(i + 2);
        let c3 = name.get_char(i + 3);
        let c4 = name.get_char(i + 4);
        if c0 == '.' && c1 == 'p' && c2 == 'a' && c3 == 'r' && c4 == 't' {
            proof {
                assert(name@.subrange(i as int, i + 5 as int) =~= marker());
                lemma_rfind_marker_skip(name@, i as int, n - 5 as int);
            }
            return Some(i);
        }
        proof {
            assert(!marker_at(name@, i as int));
        }
        if i == 0 {
            proof {
                lemma_rfind_marker_skip(name@, -1, n - 5 as int);
            }
            return None;
        }
        i = i - 1;
    }
}

/// Takes the base name of `name`: everything before the last occurrence
/// of the marker, at the position that [`rfind_part_marker`] found.
pub fn base_name_of(name: &str, pos: usize) -> (r: String)
    requires
        rfind_marker(name@) == Some(pos as int),
    ensures
        r@ == base_name_spec(name@),
{
    proof {
        lemma_rfind_marker(name@);
    }
    let s = name.substring_char(0, pos);
    s.to_owned()
}

} // verus!
