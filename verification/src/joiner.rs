//! The joiner: discovers the parts that belong together, validates the
//! arguments, concatenates the parts' contents, and reports progress.

use vstd::prelude::*;
use crate::discovery::{contains_name, find_all_parts};
use crate::engine::{
    join_content,
    lemma_sum_lens_flatten,
    lemma_sum_lens_nonnegative,
    lemma_sum_lens_prefix,
    sum_lens,
    BUFFER_SIZE,
};
use crate::errors::EngineError;
use crate::naming::{base_name_spec, part_name_spec, rfind_marker};
use crate::progress::{
    events_monotone,
    events_wf,
    join_message,
    lemma_events_monotone_push,
    ProgressInfo,
};

verus! {

/// A validated join operation: the parts to read, in index order, and
/// where the result goes.
pub struct FileJoiner {
    /// The names of the discovered parts, in index order.
    pub part_files: Vec<String>,
    /// The name of the file the joined bytes go to.
    pub output_path: String,
}

/// Everything one join produces: the joined bytes and the stream of
/// progress snapshots.
pub struct JoinOutcome {
    /// The concatenation of the parts, in index order.
    pub output: Vec<u8>,
    /// The progress snapshots, in the order they were reported.
    pub events: Vec<ProgressInfo>,
}

impl FileJoiner {
    /// Validates the arguments of a join and discovers the parts: the
    /// given part must exist, its name must carry the `.part` marker, and
    /// the first part of the run must be present among the entries.
    pub fn new(
        first_part_name: &str,
        first_part_exists: bool,
        output_path: String,
        entries: &Vec<String>,
    ) -> (r: Result<FileJoiner, EngineError>)
        requires
            entries@.len() < usize::MAX,
        ensures
            match r {
                Ok(j) => {
                    &&& first_part_exists
                    &&& j.output_path == output_path
                    &&& rfind_marker(first_part_name@) is Some
                    &&& j.part_files@.len() >= 1
                    &&& forall|k: int|
                        0 <= k < j.part_files@.len() ==> (#[trigger] j.part_files@[k])@
                            == part_name_spec(base_name_spec(first_part_name@), k + 1)
                            && contains_name(entries.deep_view(), j.part_files@[k]@)
                    &&& !contains_name(
                        entries.deep_view(),
                        part_name_spec(
                            base_name_spec(first_part_name@),
                            j.part_files@.len() + 1 as int,
                        ),
                    )
                },
                Err(e) => {
                    ||| (e == EngineError::NotFound && !first_part_exists)
                    ||| (e == EngineError::InvalidFormat && first_part_exists && rfind_marker(
                        first_part_name@,
                    ) is None)
                    ||| (e == EngineError::NoPartsFound && first_part_exists && rfind_marker(
                        first_part_name@,
                    ) is Some && !contains_name(
                        entries.deep_view(),
                        part_name_spec(base_name_spec(first_part_name@), 1),
                    ))
                },
            },
    {
        if !first_part_exists {
            return Err(EngineError::NotFound);
        }
        match find_all_parts(first_part_name, entries) {
            Ok(parts) => Ok(FileJoiner { part_files: parts, output_path }),
            Err(e) => Err(e),
        }
    }

    /// Concatenates the contents of the parts, handed over in part order,
    /// into the joined output, and reports progress.
    ///
    /// The output is byte for byte the concatenation of the contents; the
    /// snapshot stream is monotone and ends in a terminal event over the
    /// summed size of all parts.
    pub fn join(&self, contents: &Vec<Vec<u8>>) -> (r: JoinOutcome)
        requires
            contents@.len() == self.part_files@.len(),
            sum_lens(contents.deep_view()) <= u64::MAX,
        ensures
            r.output@ == contents.deep_view().flatten(),
            r.output@.len() == sum_lens(contents.deep_view()),
            events_wf(r.events@, sum_lens(contents.deep_view()), contents@.len() as int),
    {
        let output = join_content(contents);
        let events = join_progress_events(contents);
        proof {
            lemma_sum_lens_flatten(contents.deep_view());
        }
        JoinOutcome { output, events }
    }
}

/// The stream of progress snapshots that a join of the given parts
/// reports: one snapshot as each part begins, one after each transferred
/// chunk, and a terminal snapshot over the summed size of all parts.
pub fn join_progress_events(contents: &Vec<Vec<u8>>) -> (r: Vec<ProgressInfo>)
    requires
        sum_lens(contents.deep_view()) <= u64::MAX,
    ensures
        events_wf(r@, sum_lens(contents.deep_view()), contents@.len() as int),
{
    let ghost deep = contents.deep_view();
    let nparts = contents.len();
    let mut total: u64 = 0;
    let mut i: usize = 0;
    proof {
        assert(deep.take(0) =~= Seq::<Seq<u8>>::empty());
    }
    while i < nparts
        invariant
            nparts == contents@.len(),
            deep == contents.deep_view(),
            sum_lens(deep) <= u64::MAX,
            i <= nparts,
            total as int == sum_lens(deep.take(i as int)),
        decreases nparts - i,
    {
        proof {
            assert(deep.take(i + 1 as int).drop_last() =~= deep.take(i as int));
            assert(deep.take(i + 1 as int).last() == deep[i as int]);
            lemma_sum_lens_prefix(deep, i + 1 as int);
            assert(contents@[i as int]@.len() == deep[i as int].len());
        }
        total = total + (contents[i].len() as u64);
        i += 1;
    }
    proof {
        assert(deep.take(nparts as int) =~= deep);
    }
    let mut events: Vec<ProgressInfo> = Vec::new();
    let mut cum: u64 = 0;
    let mut p: usize = 0;
    while p < nparts
        invariant
            nparts == contents@.len(),
            deep == contents.deep_view(),
            sum_lens(deep) <= u64::MAX,
            total as int == sum_lens(deep),
            p <= nparts,
            cum as int == sum_lens(deep.take(p as int)),
            cum <= total,
            events_monotone(events@),
            forall|k: int|
                0 <= k < events@.len() ==> {
                    &&& (#[trigger] events@[k]).total_bytes == total
                    &&& events@[k].current_bytes <= cum
                    &&& events@[k].total_parts == nparts
                    &&& events@[k].current_part <= nparts
                },
            events@.len() >= 1 ==> events@.last().current_bytes <= cum,
        decreases nparts - p,
    {
        let msg = join_message((p as u64) + 1, nparts as u64);
        let e = ProgressInfo {
            current_bytes: cum,
            total_bytes: total,
            current_part: p + 1,
            total_parts: nparts,
            message: msg,
        };
        proof {
            lemma_events_monotone_push(events@, e);
        }
        events.push(e);
        let part_len: u64 = contents[p].len() as u64;
        proof {
            assert(deep.take(p + 1 as int).drop_last() =~= deep.take(p as int));
            assert(deep.take(p + 1 as int).last() == deep[p as int]);
            lemma_sum_lens_prefix(deep, p + 1 as int);
            assert(cum + part_len == sum_lens(deep.take(p + 1 as int)));
        }
        let part_end: u64 = cum + part_len;
        while cum < part_end
            invariant
                nparts == contents@.len(),
                p < nparts,
                cum <= part_end <= total,
                events_monotone(events@),
                forall|k: int|
                    0 <= k < events@.len() ==> {
                        &&& (#[trigger] events@[k]).total_bytes == total
                        &&& events@[k].current_bytes <= cum
                        &&& events@[k].total_parts == nparts
                        &&& events@[k].current_part <= nparts
                    },
                events@.len() >= 1 ==> events@.last().current_bytes <= cum,
            decreases part_end - cum,
        {
            let chunk: u64 = if part_end - cum > BUFFER_SIZE {
                BUFFER_SIZE
            } else {
                part_end - cum
            };
            cum = cum + chunk;
            let msg2 = join_message((p as u64) + 1, nparts as u64);
            let e2 = ProgressInfo {
                current_bytes: cum,
                total_bytes: total,
                current_part: p + 1,
                total_parts: nparts,
                message: msg2,
            };
            proof {
                lemma_events_monotone_push(events@, e2);
            }
            events.push(e2);
        }
        p += 1;
    }
    proof {
        assert(deep.take(p as int) =~= deep);
    }
    let done = "Join complete!".to_owned();
    let e3 = ProgressInfo {
        current_bytes: total,
        total_bytes: total,
        current_part: nparts,
        total_parts: nparts,
        message: done,
    };
    proof {
        lemma_events_monotone_push(events@, e3);
        lemma_sum_lens_nonnegative(contents.deep_view());
    }
    events.push(e3);
    events
}

} // verus!
