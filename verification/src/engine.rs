//! The chunking and reassembly engine: splitting a byte sequence into
//! fixed-size parts and concatenating parts back, with exact byte
//! accounting.

use vstd::prelude::*;
use vstd::arithmetic::div_mod::{
    lemma_basic_div,
    lemma_div_plus_one,
    lemma_small_mod,
    lemma_mod_self_0,
    lemma_mod_sub_multiples_vanish,
};
use vstd::seq_lib::lemma_flatten_concat;
use crate::errors::EngineError;

verus! {

/// The number of bytes moved per read/write cycle when a caller streams
/// an operation; progress is reported after each such chunk.
pub const BUFFER_SIZE: u64 = 8 * 1024 * 1024;

/// How many parts a split of `len` bytes into parts of `size` bytes
/// produces: `len / size`, rounded up.
pub open spec fn num_parts_spec(len: int, size: int) -> int
    recommends
        len >= 0,
        size > 0,
{
    (len + size - 1) / size
}

/// The parts that a split of `data` into parts of `size` bytes produces,
/// in order: every part holds `size` bytes, except the last, which holds
/// whatever remains.
pub open spec fn split_spec(data: Seq<u8>, size: int) -> Seq<Seq<u8>>
    recommends
        size > 0,
    decreases data.len() when size > 0
{
    if data.len() == 0 {
        Seq::empty()
    } else if data.len() <= size {
        seq![data]
    } else {
        seq![data.take(size)] + split_spec(data.skip(size), size)
    }
}

/// The total number of bytes over a sequence of parts.
pub open spec fn sum_lens(parts: Seq<Seq<u8>>) -> int
    decreases parts.len(),
{
    if parts.len() == 0 {
        0
    } else {
        sum_lens(parts.drop_last()) + parts.last().len()
    }
}

/// A split produces `len / size` parts, rounded up.
pub proof fn lemma_split_spec_count(data: Seq<u8>, size: int)
    requires
        size > 0,
    ensures
        split_spec(data, size).len() == num_parts_spec(data.len() as int, size),
    decreases data.len(),
{
    let len = data.len() as int;
    if data.len() == 0 {
        lemma_basic_div(size - 1, size);
    } else if data.len() <= size {
        lemma_basic_div(len - 1, size);
        lemma_div_plus_one(len - 1, size);
    } else {
        lemma_split_spec_count(data.skip(size), size);
        lemma_div_plus_one(len - size - 1 + size, size);
        assert((len - size) + size - 1 + size == len + size - 1);
    }
}

/// Part sizing: every part except the last holds exactly `size` bytes; the
/// last holds `len % size` bytes, or `size` when `len` is a nonzero
/// multiple of `size`.
pub proof fn lemma_split_spec_part_sizes(data: Seq<u8>, size: int, i: int)
    requires
        size > 0,
        0 <= i < split_spec(data, size).len(),
    ensures
        i < split_spec(data, size).len() - 1 ==> split_spec(data, size)[i].len() == size,
        i == split_spec(data, size).len() - 1 ==> split_spec(data, size)[i].len() == (
        if data.len() as int % size == 0 {
            size
        } else {
            data.len() as int % size
        }),
    decreases data.len(),
{
    let len = data.len() as int;
    if data.len() <= size {
        // A single part that holds all of `data`.
        if len < size {
            lemma_small_mod(data.len(), size as nat);
        } else {
            lemma_mod_self_0(size);
        }
    } else {
        lemma_split_spec_count(data.skip(size), size);
        if i == 0 {
            // The remainder is nonempty, so the first part is not the last.
            lemma_basic_div(size - 1, size);
            assert(num_parts_spec(len - size, size) > 0) by {
                lemma_div_plus_one(len - size - 1, size);
            };
        } else {
            lemma_split_spec_part_sizes(data.skip(size), size, i - 1);
            lemma_mod_sub_multiples_vanish(len, size);
            assert((len - size) % size == len % size);
        }
    }
}

/// Splitting an empty input yields no parts at all.
pub proof fn lemma_split_spec_empty(size: int)
    requires
        size > 0,
    ensures
        split_spec(Seq::<u8>::empty(), size).len() == 0,
{
}

/// Round trip: concatenating the parts of a split, in order, restores the
/// input byte for byte.
pub proof fn lemma_split_spec_join(data: Seq<u8>, size: int)
    requires
        size > 0,
    ensures
        split_spec(data, size).flatten() == data,
    decreases data.len(),
{
    if data.len() == 0 {
        assert(split_spec(data, size).flatten() =~= data);
    } else if data.len() <= size {
        let parts = split_spec(data, size);
        assert(parts.drop_first() =~= Seq::<Seq<u8>>::empty());
        assert(parts.drop_first().flatten() =~= Seq::<u8>::empty());
        assert(parts.flatten() =~= data);
    } else {
        lemma_split_spec_join(data.skip(size), size);
        let head = seq![data.take(size)];
        let rest = split_spec(data.skip(size), size);
        lemma_flatten_concat(head, rest);
        assert(head.drop_first() =~= Seq::<Seq<u8>>::empty());
        assert(head.drop_first().flatten() =~= Seq::<u8>::empty());
        assert(head.flatten() =~= data.take(size));
        assert(data.take(size) + data.skip(size) =~= data);
        assert(split_spec(data, size).flatten() =~= data);
    }
}

/// The bytes over all parts together are exactly the bytes of their
/// concatenation.
pub proof fn lemma_sum_lens_flatten(parts: Seq<Seq<u8>>)
    ensures
        sum_lens(parts) == parts.flatten().len(),
    decreases parts.len(),
{
    if parts.len() == 0 {
        assert(parts.flatten() =~= Seq::<u8>::empty());
    } else {
        lemma_sum_lens_flatten(parts.drop_last());
        parts.lemma_flatten_and_flatten_alt_are_equivalent();
        parts.drop_last().lemma_flatten_and_flatten_alt_are_equivalent();
        assert(parts.flatten_alt() == parts.drop_last().flatten_alt() + parts.last());
    }
}

/// A prefix of the parts never holds more bytes than all of them.
pub proof fn lemma_sum_lens_prefix(parts: Seq<Seq<u8>>, i: int)
    requires
        0 <= i <= parts.len(),
    ensures
        sum_lens(parts.take(i)) <= sum_lens(parts),
    decreases parts.len(),
{
    if i == parts.len() {
        assert(parts.take(i) =~= parts);
    } else {
        assert(parts.take(i) =~= parts.drop_last().take(i));
        lemma_sum_lens_prefix(parts.drop_last(), i);
    }
}

/// The byte count over the parts is never negative.
pub proof fn lemma_sum_lens_nonnegative(parts: Seq<Seq<u8>>)
    ensures
        sum_lens(parts) >= 0,
    decreases parts.len(),
{
    if parts.len() > 0 {
        lemma_sum_lens_nonnegative(parts.drop_last());
    }
}

/// Splits `data` into parts of at most `part_size` bytes each.
///
/// Every part except the last holds exactly `part_size` bytes; the
/// concatenation of the parts, in order, is `data`; an empty input yields
/// no parts at all. A part size of zero is a configuration error and is
/// rejected before anything else happens.
pub fn split_content(data: &Vec<u8>, part_size: u64) -> (r: Result<Vec<Vec<u8>>, EngineError>)
    ensures
        part_size == 0 <==> r is Err,
        r is Err ==> r == Err::<Vec<Vec<u8>>, EngineError>(EngineError::InvalidArgument),
        r is Ok ==> r->Ok_0.deep_view() == split_spec(data@, part_size as int),
{
    if part_size == 0 {
        return Err(EngineError::InvalidArgument);
    }
    let ghost size = part_size as int;
    let n = data.len();
    let mut parts: Vec<Vec<u8>> = Vec::new();
    let mut offset: usize = 0;
    proof {
        assert(parts.deep_view() =~= Seq::<Seq<u8>>::empty());
        assert(data@.skip(0) =~= data@);
        assert(split_spec(data@, size) =~= parts.deep_view() + split_spec(data@.skip(0), size));
    }
    while offset < n
        invariant
            n == data@.len(),
            part_size > 0,
            size == part_size as int,
            offset <= n,
            split_spec(data@, size) == parts.deep_view() + split_spec(
                data@.skip(offset as int),
                size,
            ),
        decreases n - offset,
    {
        let end: usize = if (part_size as u128) < ((n - offset) as u128) {
            offset + (part_size as usize)
        } else {
            n
        };
        let ghost rem = data@.skip(offset as int);
        let mut part: Vec<u8> = Vec::new();
        let mut j: usize = offset;
        while j < end
            invariant
                n == data@.len(),
                offset <= j <= end <= n,
                part@ == data@.subrange(offset as int, j as int),
            decreases end - j,
        {
            let b = data[j];
            part.push(b);
            proof {
                assert(data@.subrange(offset as int, j + 1 as int) =~= data@.subrange(
                    offset as int,
                    j as int,
                ).push(data@[j as int]));
            }
            j += 1;
        }
        proof {
            let ghost old_deep = parts.deep_view();
            if end < n {
                // A full part: what remains is longer than one part.
                assert(rem.len() > size);
                assert(part@ =~= rem.take(size));
                assert(rem.skip(size) =~= data@.skip(end as int));
            } else {
                // The final part takes whatever remains.
                assert(rem.len() <= size);
                assert(part@ =~= rem);
                assert(data@.skip(end as int) =~= Seq::<u8>::empty());
            }
        }
        let ghost pre_push = parts.deep_view();
        parts.push(part);
        proof {
            assert(parts.deep_view() =~~= pre_push.push(part@));
            if end < n {
                assert(split_spec(rem, size) == seq![rem.take(size)] + split_spec(
                    rem.skip(size),
                    size,
                ));
                assert(pre_push.push(part@) + split_spec(data@.skip(end as int), size)
                    =~= pre_push + split_spec(rem, size));
            } else {
                assert(split_spec(rem, size) == seq![rem]);
                assert(split_spec(data@.skip(end as int), size) =~= Seq::<Seq<u8>>::empty());
                assert(pre_push.push(part@) + split_spec(data@.skip(end as int), size)
                    =~= pre_push + split_spec(rem, size));
            }
        }
        offset = end;
    }
    proof {
        assert(data@.skip(offset as int) =~= Seq::<u8>::empty());
        assert(split_spec(data@, size) =~= parts.deep_view());
    }
    Ok(parts)
}

/// Concatenates the given parts, in order, into one byte vector.
pub fn join_content(parts: &Vec<Vec<u8>>) -> (r: Vec<u8>)
    ensures
        r@ == parts.deep_view().flatten(),
{
    let mut out: Vec<u8> = Vec::new();
    let mut i: usize = 0;
    while i < parts.len()
        invariant
            i <= parts@.len(),
            out@ == parts.deep_view().take(i as int).flatten(),
        decreases parts@.len() - i,
    {
        let mut j: usize = 0;
        let ghost done = parts.deep_view().take(i as int).flatten();
        while j < parts[i].len()
            invariant
                i < parts@.len(),
                j <= parts@[i as int]@.len(),
                out@ == done + parts@[i as int]@.subrange(0, j as int),
            decreases parts@[i as int]@.len() - j,
        {
            let b = parts[i][j];
            out.push(b);
            proof {
                assert(parts@[i as int]@.subrange(0, j + 1 as int) =~= parts@[
                    i as int
                ]@.subrange(0, j as int).push(parts@[i as int]@[j as int]));
            }
            j += 1;
        }
        proof {
            let deep = parts.deep_view();
            assert(parts@[i as int]@.subrange(0, j as int) =~= deep[i as int]);
            deep.take(i as int).lemma_flatten_push(deep[i as int]);
            assert(deep.take(i as int).push(deep[i as int]) =~= deep.take(i + 1 as int));
            assert(out@ =~= deep.take(i + 1 as int).flatten());
        }
        i += 1;
    }
    proof {
        assert(parts.deep_view().take(i as int) =~= parts.deep_view());
    }
    out
}

} // verus!
