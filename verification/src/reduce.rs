//! Frame-rate reduction: short frames are collapsed in runs, long ones kept.

use vstd::prelude::*;

verus! {

/// Why a reduction was refused.
#[derive(Clone, Copy, Debug, PartialEq, Eq)]
pub enum ReduceError {
    /// The run length is below two, so nothing would be dropped.
    IntervalTooSmall,
    /// There are no frames.
    NoFrames,
}

/// Which frames stay, and the delay of each.
#[derive(Debug)]
pub struct Reduction {
    /// Indices of the frames that stay, in rising order.
    pub kept_indices: Vec<usize>,
    /// The delay of each kept frame, in the unit of the input.
    pub new_delays: Vec<u16>,
}

/// Number of consecutive frames from `start` on whose delay is below
/// `threshold`, counted up to `limit`.
pub open spec fn fast_run(delays: Seq<u16>, start: int, limit: int, threshold: u16) -> int
    decreases limit,
{
    if limit <= 0 || start < 0 || start >= delays.len() || delays[start] >= threshold {
        0
    } else {
        1 + fast_run(delays, start + 1, limit - 1, threshold)
    }
}

/// Number of frames that the frame kept at `start` stands for: one for a
/// slow frame, and for a fast one the run of fast frames that it begins,
/// of at most `keep_interval` frames.
pub open spec fn run_len(delays: Seq<u16>, start: int, keep_interval: int, threshold: u16) -> int {
    if delays[start] >= threshold {
        1
    } else {
        fast_run(delays, start, keep_interval, threshold)
    }
}

/// Sum of the delays of frames `from..to`.
pub open spec fn delay_total(delays: Seq<u16>, from: int, to: int) -> int
    decreases to - from,
{
    if from >= to {
        0
    } else {
        delay_total(delays, from, to - 1) + delays[to - 1]
    }
}

/// The smaller of a sum of delays and the cap.
pub open spec fn capped(total: int, max_delay: u16) -> int {
    if total < max_delay {
        total
    } else {
        max_delay as int
    }
}

/// `kept` and `new_delays` are the reduction of `delays`: frame 0 is kept,
/// each kept frame stands for its run, the next kept frame follows that run,
/// the last run ends with the sequence, and a kept frame's delay is the sum
/// over its run, capped at `max_delay`.
pub open spec fn is_reduction(
    kept: Seq<usize>,
    new_delays: Seq<u16>,
    delays: Seq<u16>,
    keep_interval: int,
    threshold: u16,
    max_delay: u16,
) -> bool {
    &&& kept.len() == new_delays.len()
    &&& kept.len() > 0
    &&& kept[0] == 0
    &&& kept.last() + run_len(delays, kept.last() as int, keep_interval, threshold) == delays.len()
    &&& forall|j: int|
        0 <= j < kept.len() - 1 ==> (#[trigger] kept[j]) + run_len(
            delays,
            kept[j] as int,
            keep_interval,
            threshold,
        ) == kept[j + 1]
    &&& forall|j: int|
        0 <= j < kept.len() ==> (#[trigger] kept[j]) < delays.len() && new_delays[j] == capped(
            delay_total(
                delays,
                kept[j] as int,
                kept[j] + run_len(delays, kept[j] as int, keep_interval, threshold),
            ),
            max_delay,
        )
}

/// A run of fast frames from a fast frame on is between one frame and the
/// limit long, and stays inside the sequence.
pub proof fn lemma_fast_run_bounds(delays: Seq<u16>, start: int, limit: int, threshold: u16)
    requires
        0 <= start < delays.len(),
        limit >= 1,
        delays[start] < threshold,
    ensures
        1 <= fast_run(delays, start, limit, threshold) <= limit,
        start + fast_run(delays, start, limit, threshold) <= delays.len(),
    decreases limit,
{
    if limit > 1 && start + 1 < delays.len() && delays[start + 1] < threshold {
        lemma_fast_run_bounds(delays, start + 1, limit - 1, threshold);
    } else {
        reveal_with_fuel(fast_run, 2);
    }
}

/// Every frame of a run of fast frames is fast.
pub proof fn lemma_fast_run_is_fast(
    delays: Seq<u16>,
    start: int,
    limit: int,
    threshold: u16,
    i: int,
)
    requires
        start <= i < start + fast_run(delays, start, limit, threshold),
    ensures
        0 <= i < delays.len(),
        delays[i] < threshold,
    decreases limit,
{
    if i > start {
        lemma_fast_run_is_fast(delays, start + 1, limit - 1, threshold, i);
    }
}

/// Growing a run by one more fast frame.
proof fn lemma_fast_run_step(delays: Seq<u16>, start: int, len: int, limit: int, threshold: u16)
    requires
        0 <= start,
        0 <= len < limit,
        start + len < delays.len(),
        forall|i: int| start <= i <= start + len ==> delays[i] < threshold,
    ensures
        fast_run(delays, start, limit, threshold) == len + 1 + fast_run(
            delays,
            start + len + 1,
            limit - len - 1,
            threshold,
        ),
    decreases len,
{
    if len > 0 {
        lemma_fast_run_step(delays, start + 1, len - 1, limit - 1, threshold);
    }
}

/// Decides which frames stay and what delay each gets.
///
/// A frame whose delay reaches `delay_threshold` is kept by itself. A frame
/// below it is kept and stands for the run of fast frames that it begins,
/// up to `keep_interval` of them; the run length is counted anew from each
/// kept frame. Every new delay is the sum over the run, capped at
/// `max_delay`.
pub fn reduce_frames(
    delays: &Vec<u16>,
    keep_interval: usize,
    delay_threshold: u16,
    max_delay: u16,
) -> (out: Result<Reduction, ReduceError>)
    ensures
        out is Ok <==> keep_interval >= 2 && delays@.len() > 0,
        out == Err::<Reduction, ReduceError>(ReduceError::IntervalTooSmall) <==> keep_interval < 2,
        out == Err::<Reduction, ReduceError>(ReduceError::NoFrames) <==> keep_interval >= 2
            && delays@.len() == 0,
        out matches Ok(r) ==> is_reduction(
            r.kept_indices@,
            r.new_delays@,
            delays@,
            keep_interval as int,
            delay_threshold,
            max_delay,
        ),
{
    if keep_interval < 2 {
        return Err(ReduceError::IntervalTooSmall);
    }
    let n = delays.len();
    if n == 0 {
        return Err(ReduceError::NoFrames);
    }
    let mut kept: Vec<usize> = Vec::new();
    let mut new_delays: Vec<u16> = Vec::new();
    let mut i: usize = 0;
    while i < n
        invariant
            n == delays@.len(),
            n > 0,
            keep_interval >= 2,
            i <= n,
            kept@.len() == new_delays@.len(),
            kept@.len() == 0 <==> i == 0,
            kept@.len() > 0 ==> kept@[0] == 0 && kept@.last() + run_len(
                delays@,
                kept@.last() as int,
                keep_interval as int,
                delay_threshold,
            ) == i,
            forall|j: int|
                0 <= j < kept@.len() - 1 ==> (#[trigger] kept@[j]) + run_len(
                    delays@,
                    kept@[j] as int,
                    keep_interval as int,
                    delay_threshold,
                ) == kept@[j + 1],
            forall|j: int|
                0 <= j < kept@.len() ==> (#[trigger] kept@[j]) < n && new_delays@[j] == capped(
                    delay_total(
                        delays@,
                        kept@[j] as int,
                        kept@[j] + run_len(
                            delays@,
                            kept@[j] as int,
                            keep_interval as int,
                            delay_threshold,
                        ),
                    ),
                    max_delay,
                ),
        decreases n - i,
    {
        let ghost kept_before = kept@;
        let ghost delays_before = new_delays@;
        let first = delays[i];
        let mut len: usize = 1;
        let mut total: u32 = if first < max_delay {
            first as u32
        } else {
            max_delay as u32
        };
        proof {
            reveal_with_fuel(delay_total, 2);
            assert(delay_total(delays@, i as int, i as int) == 0);
        }
        if first < delay_threshold {
            while len < keep_interval && i + len < n && delays[i + len] < delay_threshold
                invariant
                    n == delays@.len(),
                    i < n,
                    1 <= len <= keep_interval,
                    i + len <= n,
                    forall|j: int| i <= j < i + len ==> delays@[j] < delay_threshold,
                    total == capped(delay_total(delays@, i as int, i + len), max_delay),
                    delay_total(delays@, i as int, i + len) >= 0,
                decreases n - i - len,
            {
                let next = delays[i + len] as u32;
                total = if total + next < max_delay as u32 {
                    total + next
                } else {
                    max_delay as u32
                };
                len = len + 1;
            }
            proof {
                lemma_fast_run_step(
                    delays@,
                    i as int,
                    len - 1,
                    keep_interval as int,
                    delay_threshold,
                );
            }
        }
        assert(len == run_len(delays@, i as int, keep_interval as int, delay_threshold));
        kept.push(i);
        new_delays.push(total as u16);
        proof {
            assert forall|j: int| 0 <= j < kept@.len() - 1 implies (#[trigger] kept@[j]) + run_len(
                delays@,
                kept@[j] as int,
                keep_interval as int,
                delay_threshold,
            ) == kept@[j + 1] by {
                if j < kept_before.len() - 1 {
                    assert(kept@[j] == kept_before[j]);
                    assert(kept@[j + 1] == kept_before[j + 1]);
                } else {
                    assert(kept@[j] == kept_before.last());
                }
            }
            assert forall|j: int| 0 <= j < kept@.len() implies (#[trigger] kept@[j]) < n
                && new_delays@[j] == capped(
                delay_total(
                    delays@,
                    kept@[j] as int,
                    kept@[j] + run_len(
                        delays@,
                        kept@[j] as int,
                        keep_interval as int,
                        delay_threshold,
                    ),
                ),
                max_delay,
            ) by {
                if j < kept_before.len() {
                    assert(kept@[j] == kept_before[j]);
                    assert(new_delays@[j] == delays_before[j]);
                }
            }
        }
        i = i + len;
    }
    Ok(Reduction { kept_indices: kept, new_delays })
}


/// In a reduction every kept frame stands for at least one frame, so the
/// kept indices rise strictly.
pub proof fn lemma_kept_strictly_increasing(
    kept: Seq<usize>,
    new_delays: Seq<u16>,
    delays: Seq<u16>,
    keep_interval: int,
    threshold: u16,
    max_delay: u16,
    j: int,
)
    requires
        is_reduction(kept, new_delays, delays, keep_interval, threshold, max_delay),
        keep_interval >= 1,
        0 <= j < kept.len() - 1,
    ensures
        kept[j] < kept[j + 1],
{
    if delays[kept[j] as int] < threshold {
        lemma_fast_run_bounds(delays, kept[j] as int, keep_interval, threshold);
    }
}

/// In a reduction no new delay exceeds the cap.
pub proof fn lemma_new_delays_capped(
    kept: Seq<usize>,
    new_delays: Seq<u16>,
    delays: Seq<u16>,
    keep_interval: int,
    threshold: u16,
    max_delay: u16,
    j: int,
)
    requires
        is_reduction(kept, new_delays, delays, keep_interval, threshold, max_delay),
        0 <= j < kept.len(),
    ensures
        new_delays[j] <= max_delay,
{
    assert(kept[j] < delays.len());
}

/// The kept frame whose run holds frame `i`, searched among the first
/// `upto + 1` kept frames.
proof fn find_run(
    kept: Seq<usize>,
    delays: Seq<u16>,
    keep_interval: int,
    threshold: u16,
    i: int,
    upto: int,
) -> (j: int)
    requires
        0 <= upto < kept.len(),
        kept[0] == 0,
        forall|j: int|
            0 <= j < kept.len() - 1 ==> (#[trigger] kept[j]) + run_len(
                delays,
                kept[j] as int,
                keep_interval,
                threshold,
            ) == kept[j + 1],
        0 <= i < kept[upto] + run_len(delays, kept[upto] as int, keep_interval, threshold),
    ensures
        0 <= j <= upto,
        kept[j] <= i < kept[j] + run_len(delays, kept[j] as int, keep_interval, threshold),
    decreases upto,
{
    if kept[upto] <= i {
        upto
    } else {
        assert(kept[upto - 1] + run_len(delays, kept[upto - 1] as int, keep_interval, threshold)
            == kept[upto]);
        find_run(kept, delays, keep_interval, threshold, i, upto - 1)
    }
}

/// In a reduction every frame belongs to the run of a kept frame: the
/// result is the position of that kept frame.
pub proof fn lemma_frame_has_run(
    kept: Seq<usize>,
    new_delays: Seq<u16>,
    delays: Seq<u16>,
    keep_interval: int,
    threshold: u16,
    max_delay: u16,
    i: int,
) -> (j: int)
    requires
        is_reduction(kept, new_delays, delays, keep_interval, threshold, max_delay),
        0 <= i < delays.len(),
    ensures
        0 <= j < kept.len(),
        kept[j] <= i < kept[j] + run_len(delays, kept[j] as int, keep_interval, threshold),
{
    find_run(kept, delays, keep_interval, threshold, i, kept.len() - 1)
}

/// A slow frame is never dropped nor merged: it is kept, with its own
/// delay capped. The result is its position among the kept frames.
pub proof fn lemma_slow_frame_is_kept(
    kept: Seq<usize>,
    new_delays: Seq<u16>,
    delays: Seq<u16>,
    keep_interval: int,
    threshold: u16,
    max_delay: u16,
    i: int,
) -> (j: int)
    requires
        is_reduction(kept, new_delays, delays, keep_interval, threshold, max_delay),
        0 <= i < delays.len(),
        delays[i] >= threshold,
    ensures
        0 <= j < kept.len(),
        kept[j] == i,
        new_delays[j] == capped(delays[i] as int, max_delay),
{
    let j = find_run(kept, delays, keep_interval, threshold, i, kept.len() - 1);
    if delays[kept[j] as int] < threshold {
        lemma_fast_run_is_fast(delays, kept[j] as int, keep_interval, threshold, i);
    }
    reveal_with_fuel(delay_total, 2);
    assert(delay_total(delays, i, i) == 0);
    j
}

/// A reduction never has more frames than its input.
pub proof fn lemma_reduction_is_no_longer(
    kept: Seq<usize>,
    new_delays: Seq<u16>,
    delays: Seq<u16>,
    keep_interval: int,
    threshold: u16,
    max_delay: u16,
    j: int,
)
    requires
        is_reduction(kept, new_delays, delays, keep_interval, threshold, max_delay),
        keep_interval >= 1,
        0 <= j < kept.len(),
    ensures
        j <= kept[j],
    decreases j,
{
    if j > 0 {
        lemma_reduction_is_no_longer(
            kept,
            new_delays,
            delays,
            keep_interval,
            threshold,
            max_delay,
            j - 1,
        );
        lemma_kept_strictly_increasing(
            kept,
            new_delays,
            delays,
            keep_interval,
            threshold,
            max_delay,
            j - 1,
        );
    }
}

} // verus!
