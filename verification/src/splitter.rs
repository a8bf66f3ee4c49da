//! The splitter: validates its arguments, cuts an input into parts, names
//! the parts, and reports progress.

use vstd::prelude::*;
use vstd::arithmetic::div_mod::{
    lemma_basic_div,
    lemma_div_by_multiple,
    lemma_div_is_ordered,
    lemma_div_nonincreasing,
    lemma_div_plus_one,
    lemma_multiply_divide_lt,
};
use crate::engine::{split_content, split_spec, num_parts_spec, lemma_split_spec_count, BUFFER_SIZE};
use crate::errors::EngineError;
use crate::naming::{part_file_name, part_name_spec};
use crate::progress::{
    events_monotone,
    events_wf,
    lemma_events_monotone_push,
    split_message,
    ProgressInfo,
};

verus! {

/// A validated split operation: the file to cut and the part size.
pub struct FileSplitter {
    /// The name of the input file, without its directory; part names are
    /// derived from it.
    pub file_name: String,
    /// The maximum number of bytes per part.
    pub part_size: u64,
}

/// Everything one split produces: the parts, their names (in the same
/// order), and the stream of progress snapshots.
pub struct SplitOutcome {
    /// The name of each part, in index order.
    pub part_names: Vec<String>,
    /// The bytes of each part, in index order.
    pub parts: Vec<Vec<u8>>,
    /// The progress snapshots, in the order they were reported.
    pub events: Vec<ProgressInfo>,
}

impl FileSplitter {
    /// A splitter is well formed when its part size is positive.
    pub open spec fn wf(&self) -> bool {
        self.part_size > 0
    }

    /// Validates the arguments of a split before any work happens: the
    /// input must exist and the part size must be positive.
    pub fn new(file_name: String, input_exists: bool, part_size: u64) -> (r: Result<
        FileSplitter,
        EngineError,
    >)
        ensures
            !input_exists ==> r == Err::<FileSplitter, EngineError>(EngineError::NotFound),
            input_exists && part_size == 0 ==> r == Err::<FileSplitter, EngineError>(
                EngineError::InvalidArgument,
            ),
            input_exists && part_size > 0 ==> r is Ok && r->Ok_0.file_name == file_name
                && r->Ok_0.part_size == part_size && r->Ok_0.wf(),
    {
        if !input_exists {
            return Err(EngineError::NotFound);
        }
        if part_size == 0 {
            return Err(EngineError::InvalidArgument);
        }
        Ok(FileSplitter { file_name, part_size })
    }

    /// Cuts `data` into parts of at most `part_size` bytes.
    ///
    /// The parts are exactly the split of `data`: all of one size except
    /// the last, concatenating to `data`, `ceil(len / part_size)` of them
    /// in all. Their names carry the naming convention with indices
    /// counted gaplessly from one. The snapshot stream is monotone and
    /// ends in a terminal event, even for an empty input.
    pub fn split(&self, data: &Vec<u8>) -> (r: SplitOutcome)
        requires
            self.wf(),
        ensures
            r.parts.deep_view() == split_spec(data@, self.part_size as int),
            r.parts@.len() == num_parts_spec(data@.len() as int, self.part_size as int),
            r.part_names@.len() == r.parts@.len(),
            forall|k: int|
                0 <= k < r.part_names@.len() ==> (#[trigger] r.part_names@[k])@
                    == part_name_spec(self.file_name@, k + 1),
            events_wf(
                r.events@,
                data@.len() as int,
                num_parts_spec(data@.len() as int, self.part_size as int),
            ),
    {
        let parts = match split_content(data, self.part_size) {
            Ok(p) => p,
            Err(_) => unreached(),
        };
        proof {
            lemma_split_spec_count(data@, self.part_size as int);
        }
        let names = part_names(self.file_name.as_str(), parts.len());
        let events = split_progress_events(data.len(), self.part_size);
        SplitOutcome { part_names: names, parts, events }
    }
}

/// Builds the names of parts one through `count` of a file named `base`.
pub fn part_names(base: &str, count: usize) -> (r: Vec<String>)
    ensures
        r@.len() == count,
        forall|k: int|
            0 <= k < count ==> (#[trigger] r@[k])@ == part_name_spec(base@, k + 1),
{
    let mut names: Vec<String> = Vec::new();
    let mut i: usize = 0;
    while i < count
        invariant
            i <= count,
            names@.len() == i,
            forall|k: int|
                0 <= k < i ==> (#[trigger] names@[k])@ == part_name_spec(base@, k + 1),
        decreases count - i,
    {
        let name = part_file_name(base, (i as u64) + 1);
        names.push(name);
        i += 1;
    }
    names
}

/// The stream of progress snapshots that a split of `file_size` bytes
/// into parts of `part_size` bytes reports: one snapshot as each part
/// begins, one after each transferred chunk, and a terminal snapshot.
#[verifier::rlimit(50)]
pub fn split_progress_events(file_size: usize, part_size: u64) -> (r: Vec<ProgressInfo>)
    requires
        part_size > 0,
    ensures
        events_wf(
            r@,
            file_size as int,
            num_parts_spec(file_size as int, part_size as int),
        ),
{
    let n: u64 = file_size as u64;
    let ghost ps = part_size as int;
    let total_parts: u64 = if n == 0 {
        0
    } else {
        (n - 1) / part_size + 1
    };
    proof {
        if n == 0 {
            lemma_basic_div(ps - 1, ps);
        } else {
            lemma_div_plus_one(n - 1, ps);
            lemma_div_nonincreasing(n - 1, ps);
        }
        assert(total_parts == num_parts_spec(file_size as int, ps));
        assert(total_parts <= n);
    }
    let tp_usize: usize = total_parts as usize;
    let mut events: Vec<ProgressInfo> = Vec::new();
    let mut written: u64 = 0;
    let mut p: u64 = 0;
    while written < n
        invariant
            part_size > 0,
            ps == part_size as int,
            n == file_size as u64,
            total_parts == num_parts_spec(file_size as int, ps),
            total_parts <= n,
            tp_usize == total_parts,
            p <= total_parts,
            written <= n,
            written as int == (if p * ps <= n as int {
                p * ps
            } else {
                n as int
            }),
            events_monotone(events@),
            forall|k: int|
                0 <= k < events@.len() ==> {
                    &&& (#[trigger] events@[k]).total_bytes == n
                    &&& events@[k].current_bytes <= written
                    &&& events@[k].total_parts == tp_usize
                    &&& events@[k].current_part <= tp_usize
                },
            events@.len() >= 1 ==> events@.last().current_bytes <= written,
        decreases n - written,
    {
        proof {
            // Another part begins, so not all parts have begun yet.
            assert(p * ps <= n as int);
            assert(p * ps < n as int);
            lemma_div_is_ordered(p * ps, n as int - 1, ps);
            lemma_div_by_multiple(p as int, ps);
            lemma_div_plus_one(n as int - 1, ps);
            assert(p <= (n as int - 1) / ps);
            assert(p + 1 <= total_parts);
        }
        p = p + 1;
        proof {
            assert(p <= total_parts);
        }
        let part_end: u64 = if n - written > part_size {
            written + part_size
        } else {
            n
        };
        proof {
            assert((p - 1) * ps + ps == p * ps) by (nonlinear_arith);
            assert(part_end as int == (if p * ps <= n as int {
                p * ps
            } else {
                n as int
            }));
        }
        let msg = split_message(p, total_parts);
        let ghost pre = events@;
        let e = ProgressInfo {
            current_bytes: written,
            total_bytes: n,
            current_part: p as usize,
            total_parts: tp_usize,
            message: msg,
        };
        proof {
            lemma_events_monotone_push(pre, e);
        }
        events.push(e);
        while written < part_end
            invariant
                part_size > 0,
                n == file_size as u64,
                total_parts <= n,
                tp_usize == total_parts,
                1 <= p <= total_parts,
                written <= part_end <= n,
                events_monotone(events@),
                forall|k: int|
                    0 <= k < events@.len() ==> {
                        &&& (#[trigger] events@[k]).total_bytes == n
                        &&& events@[k].current_bytes <= written
                        &&& events@[k].total_parts == tp_usize
                        &&& events@[k].current_part <= tp_usize
                    },
                events@.len() >= 1 ==> events@.last().current_bytes <= written,
            decreases part_end - written,
        {
            let chunk: u64 = if part_end - written > BUFFER_SIZE {
                BUFFER_SIZE
            } else {
                part_end - written
            };
            written = written + chunk;
            let msg2 = split_message(p, total_parts);
            let ghost pre2 = events@;
            let e2 = ProgressInfo {
                current_bytes: written,
                total_bytes: n,
                current_part: p as usize,
                total_parts: tp_usize,
                message: msg2,
            };
            proof {
                lemma_events_monotone_push(pre2, e2);
            }
            events.push(e2);
        }
    }
    proof {
        // All bytes are written, so the last part to begin was the final
        // one.
        if n > 0 {
            assert(p * ps >= n as int);
            assert(n as int + ps - 1 < (p + 1) * ps) by (nonlinear_arith)
                requires
                    n as int <= p * ps,
                    ps > 0,
            ;
            lemma_multiply_divide_lt(n as int + ps - 1, ps, p + 1);
            assert(total_parts <= p);
        }
        assert(p == total_parts);
    }
    let done = "Split complete!".to_owned();
    let ghost pre3 = events@;
    let e3 = ProgressInfo {
        current_bytes: n,
        total_bytes: n,
        current_part: tp_usize,
        total_parts: tp_usize,
        message: done,
    };
    proof {
        lemma_events_monotone_push(pre3, e3);
    }
    events.push(e3);
    events
}

} // verus!
