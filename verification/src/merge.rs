//! Greedy merging of consecutive similar frames.
//!
//! Frames are walked once, in order. Each frame is compared with the first
//! frame of the run it would join, never with its immediate predecessor, so
//! that a slow drift cannot carry a run arbitrarily far from where it began.

use vstd::prelude::*;
use crate::fingerprint::{hamming, hamming_distance, lemma_hamming_range, lemma_hamming_zero_iff_equal};

verus! {

/// What the merger knows of one frame.
#[derive(Clone, Copy, Debug, PartialEq, Eq)]
pub struct HashedFrame {
    pub fingerprint: u64,
    /// Display time, in whatever unit the caller counts in.
    pub delay: u64,
}

/// A run of consecutive frames shown as one.
#[derive(Clone, Copy, Debug, PartialEq, Eq)]
pub struct MergeGroup {
    /// Index of the first frame of the run, whose pixels stand for all of it.
    pub representative_index: usize,
    /// Sum of the delays of the frames of the run.
    pub total_delay: u128,
    /// Number of frames of the run.
    pub member_count: usize,
}

impl MergeGroup {
    /// Index one past the last frame of the run.
    pub open spec fn end(&self) -> int {
        self.representative_index + self.member_count
    }
}

/// The Hamming threshold for a required similarity in percent: the share
/// of the 64 bits that may differ, to the nearest bit, and at least one.
pub open spec fn threshold_for(similarity: int) -> int {
    let nearest = ((100 - similarity) * 64 + 50) / 100;
    if nearest < 1 {
        1
    } else {
        nearest
    }
}

/// Whether frame `i` is within `threshold` bits of frame `anchor`.
pub open spec fn similar(frames: Seq<HashedFrame>, anchor: int, i: int, threshold: u32) -> bool {
    hamming(frames[i].fingerprint, frames[anchor].fingerprint) <= threshold
}

/// Index of the first frame of the run that frame `i` belongs to: frame 0
/// starts a run, and a later frame stays in the run of its predecessor if it
/// is similar to that run's first frame, and starts a new run if not.
pub open spec fn anchor_of(frames: Seq<HashedFrame>, threshold: u32, i: int) -> int
    decreases i,
{
    if i <= 0 {
        0
    } else {
        let a = anchor_of(frames, threshold, i - 1);
        if similar(frames, a, i, threshold) {
            a
        } else {
            i
        }
    }
}

/// Sum of the delays of frames `from..to`.
pub open spec fn delay_sum(frames: Seq<HashedFrame>, from: int, to: int) -> nat
    decreases to - from,
{
    if from >= to {
        0
    } else {
        delay_sum(frames, from, to - 1) + frames[to - 1].delay as nat
    }
}

/// Sum of the total delays of the first `k` groups.
pub open spec fn group_delay_sum(groups: Seq<MergeGroup>, k: int) -> nat
    decreases k,
{
    if k <= 0 {
        0
    } else {
        group_delay_sum(groups, k - 1) + groups[k - 1].total_delay as nat
    }
}

/// Group `k` is a run of the input: not empty, inside the sequence, every
/// member anchored at its first frame, and its delay the sum of theirs.
pub open spec fn group_is_run(
    groups: Seq<MergeGroup>,
    frames: Seq<HashedFrame>,
    threshold: u32,
    k: int,
) -> bool {
    let g = groups[k];
    &&& g.member_count >= 1
    &&& g.end() <= frames.len()
    &&& forall|i: int|
        g.representative_index <= i < g.end() ==> #[trigger] anchor_of(frames, threshold, i)
            == g.representative_index
    &&& g.total_delay == delay_sum(frames, g.representative_index as int, g.end())
}

/// `groups` is the merge of `frames`: the groups are runs, the first starts
/// at frame 0, each next one starts where the one before ends, and the last
/// ends with the sequence. An empty sequence has no groups.
pub open spec fn is_merge_of(groups: Seq<MergeGroup>, frames: Seq<HashedFrame>, threshold: u32) -> bool {
    &&& (groups.len() == 0 <==> frames.len() == 0)
    &&& groups.len() > 0 ==> groups[0].representative_index == 0 && groups.last().end()
        == frames.len()
    &&& forall|k: int| 0 <= k < groups.len() ==> #[trigger] group_is_run(groups, frames, threshold, k)
    &&& forall|k: int|
        0 <= k < groups.len() - 1 ==> (#[trigger] groups[k]).end() == groups[k
            + 1].representative_index
}

/// Delays of adjacent ranges add up.
pub proof fn lemma_delay_sum_split(frames: Seq<HashedFrame>, from: int, mid: int, to: int)
    requires
        from <= mid <= to,
    ensures
        delay_sum(frames, from, to) == delay_sum(frames, from, mid) + delay_sum(frames, mid, to),
    decreases to - mid,
{
    if mid < to {
        lemma_delay_sum_split(frames, from, mid, to - 1);
    }
}

/// A range of `u64` delays sums to at most its length times `u64::MAX`.
pub proof fn lemma_delay_sum_bound(frames: Seq<HashedFrame>, from: int, to: int)
    requires
        from <= to,
    ensures
        delay_sum(frames, from, to) <= (to - from) * 0xffff_ffff_ffff_ffff,
    decreases to - from,
{
    if from < to {
        lemma_delay_sum_bound(frames, from, to - 1);
    }
}

/// The Hamming threshold for a required similarity of `similarity` percent.
pub fn hamming_threshold(similarity: u8) -> (t: u32)
    ensures
        t == threshold_for(similarity as int),
        1 <= t <= 64,
{
    if similarity >= 100 {
        return 1;
    }
    let tolerated: u32 = 100 - similarity as u32;
    let nearest: u32 = (tolerated * 64 + 50) / 100;
    if nearest < 1 {
        1
    } else {
        nearest
    }
}

/// The threshold is the nearest whole number of bits to the tolerated
/// share of 64, unless that is zero.
pub proof fn lemma_threshold_is_nearest(similarity: int)
    requires
        0 <= similarity <= 100,
    ensures
        1 <= threshold_for(similarity) <= 64,
        (100 - similarity) * 64 >= 50 ==> 100 * threshold_for(similarity) - 50 <= (100
            - similarity) * 64 < 100 * threshold_for(similarity) + 50,
        (100 - similarity) * 64 < 50 ==> threshold_for(similarity) == 1,
{
}

/// Asking for more similarity never widens the threshold.
pub proof fn lemma_threshold_monotonic(lower: int, higher: int)
    requires
        lower <= higher,
    ensures
        threshold_for(lower) >= threshold_for(higher),
{
}

/// Merges consecutive similar frames into groups.
pub fn merge(frames: &Vec<HashedFrame>, threshold: u32) -> (groups: Vec<MergeGroup>)
    ensures
        is_merge_of(groups@, frames@, threshold),
{
    let n = frames.len();
    let mut groups: Vec<MergeGroup> = Vec::new();
    if n == 0 {
        return groups;
    }
    let mut anchor: usize = 0;
    let mut total: u128 = frames[0].delay as u128;
    let mut i: usize = 1;
    proof {
        reveal_with_fuel(delay_sum, 2);
    }
    while i < n
        invariant
            n == frames@.len(),
            anchor < i <= n,
            forall|j: int| anchor <= j < i ==> #[trigger] anchor_of(frames@, threshold, j) == anchor,
            total == delay_sum(frames@, anchor as int, i as int),
            groups@.len() == 0 ==> anchor == 0,
            groups@.len() > 0 ==> groups@[0].representative_index == 0 && groups@.last().end()
                == anchor,
            forall|k: int|
                0 <= k < groups@.len() ==> #[trigger] group_is_run(groups@, frames@, threshold, k),
            forall|k: int|
                0 <= k < groups@.len() - 1 ==> (#[trigger] groups@[k]).end() == groups@[k
                    + 1].representative_index,
        decreases n - i,
    {
        let distance = hamming_distance(frames[i].fingerprint, frames[anchor].fingerprint);
        proof {
            lemma_delay_sum_bound(frames@, anchor as int, i as int);
            assert(anchor_of(frames@, threshold, i - 1) == anchor);
        }
        if distance <= threshold {
            total = total + frames[i].delay as u128;
        } else {
            let ghost before = groups@;
            groups.push(MergeGroup { representative_index: anchor, total_delay: total, member_count: i - anchor });
            proof {
                assert forall|k: int| 0 <= k < groups@.len() implies #[trigger] group_is_run(
                    groups@,
                    frames@,
                    threshold,
                    k,
                ) by {
                    if k < before.len() {
                        assert(group_is_run(before, frames@, threshold, k));
                        assert(groups@[k] == before[k]);
                    }
                }
                assert forall|k: int| 0 <= k < groups@.len() - 1 implies (#[trigger] groups@[k]).end()
                    == groups@[k + 1].representative_index by {
                    if k < before.len() - 1 {
                        assert(groups@[k] == before[k]);
                        assert(groups@[k + 1] == before[k + 1]);
                    } else {
                        assert(groups@[k] == before.last());
                    }
                }
            }
            anchor = i;
            total = frames[i].delay as u128;
            assert(delay_sum(frames@, i as int, i as int) == 0);
        }
        i = i + 1;
    }
    let ghost before = groups@;
    groups.push(MergeGroup { representative_index: anchor, total_delay: total, member_count: n - anchor });
    proof {
        assert forall|k: int| 0 <= k < groups@.len() implies #[trigger] group_is_run(
            groups@,
            frames@,
            threshold,
            k,
        ) by {
            if k < before.len() {
                assert(group_is_run(before, frames@, threshold, k));
                assert(groups@[k] == before[k]);
            }
        }
        assert forall|k: int| 0 <= k < groups@.len() - 1 implies (#[trigger] groups@[k]).end()
            == groups@[k + 1].representative_index by {
            if k < before.len() - 1 {
                assert(groups@[k] == before[k]);
                assert(groups@[k + 1] == before[k + 1]);
            } else {
                assert(groups@[k] == before.last());
            }
        }
    }
    groups
}


/// In a merge, a later group starts no earlier than an earlier one ends.
pub proof fn lemma_groups_in_order(
    groups: Seq<MergeGroup>,
    frames: Seq<HashedFrame>,
    threshold: u32,
    a: int,
    b: int,
)
    requires
        is_merge_of(groups, frames, threshold),
        0 <= a < b < groups.len(),
    ensures
        groups[a].end() <= groups[b].representative_index,
    decreases b - a,
{
    assert(group_is_run(groups, frames, threshold, b - 1));
    if a < b - 1 {
        lemma_groups_in_order(groups, frames, threshold, a, b - 1);
    }
}

/// In a merge, every frame belongs to a group: the result is the index of
/// a group whose run holds frame `i`.
pub proof fn lemma_frame_has_group(
    groups: Seq<MergeGroup>,
    frames: Seq<HashedFrame>,
    threshold: u32,
    i: int,
) -> (k: int)
    requires
        is_merge_of(groups, frames, threshold),
        0 <= i < frames.len(),
    ensures
        0 <= k < groups.len(),
        groups[k].representative_index <= i < groups[k].end(),
{
    find_group(groups, i, groups.len() - 1)
}

proof fn find_group(groups: Seq<MergeGroup>, i: int, upto: int) -> (k: int)
    requires
        0 <= upto < groups.len(),
        groups[0].representative_index == 0,
        forall|k: int|
            0 <= k < groups.len() - 1 ==> (#[trigger] groups[k]).end() == groups[k
                + 1].representative_index,
        0 <= i < groups[upto].end(),
    ensures
        0 <= k <= upto,
        groups[k].representative_index <= i < groups[k].end(),
    decreases upto,
{
    if groups[upto].representative_index <= i {
        upto
    } else {
        assert(groups[upto - 1].end() == groups[upto].representative_index);
        find_group(groups, i, upto - 1)
    }
}

/// In a merge, no frame belongs to two groups.
pub proof fn lemma_frame_has_one_group(
    groups: Seq<MergeGroup>,
    frames: Seq<HashedFrame>,
    threshold: u32,
    i: int,
    a: int,
    b: int,
)
    requires
        is_merge_of(groups, frames, threshold),
        0 <= a < groups.len(),
        0 <= b < groups.len(),
        groups[a].representative_index <= i < groups[a].end(),
        groups[b].representative_index <= i < groups[b].end(),
    ensures
        a == b,
{
    if a < b {
        lemma_groups_in_order(groups, frames, threshold, a, b);
    } else if b < a {
        lemma_groups_in_order(groups, frames, threshold, b, a);
    }
}

/// The first `k` groups of a merge carry the delay of the frames before
/// the end of the last of them.
pub proof fn lemma_prefix_delay(
    groups: Seq<MergeGroup>,
    frames: Seq<HashedFrame>,
    threshold: u32,
    k: int,
)
    requires
        is_merge_of(groups, frames, threshold),
        1 <= k <= groups.len(),
    ensures
        group_delay_sum(groups, k) == delay_sum(frames, 0, groups[k - 1].end()),
    decreases k,
{
    let g = groups[k - 1];
    assert(group_is_run(groups, frames, threshold, k - 1));
    if k == 1 {
        assert(group_delay_sum(groups, 0) == 0);
    } else {
        lemma_prefix_delay(groups, frames, threshold, k - 1);
        assert(groups[k - 2].end() == g.representative_index);
        lemma_delay_sum_split(frames, 0, g.representative_index as int, g.end());
    }
}

/// Merging keeps the playing time: the total delays of the groups add up
/// to the delays of all frames, exactly.
pub proof fn lemma_merge_keeps_total_delay(
    groups: Seq<MergeGroup>,
    frames: Seq<HashedFrame>,
    threshold: u32,
)
    requires
        is_merge_of(groups, frames, threshold),
    ensures
        group_delay_sum(groups, groups.len() as int) == delay_sum(frames, 0, frames.len() as int),
{
    if groups.len() > 0 {
        lemma_prefix_delay(groups, frames, threshold, groups.len() as int);
    }
}

/// Every frame of a group is within the threshold of the group's first
/// frame, however far it is from its own predecessor.
pub proof fn lemma_members_are_similar(
    groups: Seq<MergeGroup>,
    frames: Seq<HashedFrame>,
    threshold: u32,
    k: int,
    i: int,
)
    requires
        is_merge_of(groups, frames, threshold),
        0 <= k < groups.len(),
        groups[k].representative_index <= i < groups[k].end(),
    ensures
        similar(frames, groups[k].representative_index as int, i, threshold),
{
    let first = groups[k].representative_index as int;
    assert(group_is_run(groups, frames, threshold, k));
    if i == first {
        lemma_hamming_zero_iff_equal(frames[i].fingerprint, frames[i].fingerprint);
    } else {
        assert(anchor_of(frames, threshold, i) == first);
        assert(anchor_of(frames, threshold, i - 1) == first);
    }
}

/// Groups are as long as they can be: the frame that starts the next group
/// is beyond the threshold from the first frame of the group before.
pub proof fn lemma_groups_are_maximal(
    groups: Seq<MergeGroup>,
    frames: Seq<HashedFrame>,
    threshold: u32,
    k: int,
)
    requires
        is_merge_of(groups, frames, threshold),
        0 <= k < groups.len() - 1,
    ensures
        !similar(
            frames,
            groups[k].representative_index as int,
            groups[k + 1].representative_index as int,
            threshold,
        ),
{
    let first = groups[k].representative_index as int;
    let next = groups[k + 1].representative_index as int;
    assert(group_is_run(groups, frames, threshold, k));
    assert(group_is_run(groups, frames, threshold, k + 1));
    assert(groups[k].end() == next);
    assert(anchor_of(frames, threshold, next) == next);
    assert(anchor_of(frames, threshold, next - 1) == first);
}

/// With a threshold of all 64 bits every frame joins the run of frame 0.
proof fn lemma_anchor_full_threshold(frames: Seq<HashedFrame>, threshold: u32, i: int)
    requires
        threshold >= 64,
    ensures
        anchor_of(frames, threshold, i) == 0,
    decreases i,
{
    if i > 0 {
        lemma_anchor_full_threshold(frames, threshold, i - 1);
        lemma_hamming_range(frames[i].fingerprint, frames[0].fingerprint);
    }
}

/// With a threshold of all 64 bits, as a required similarity of 0 percent
/// gives, a sequence that is not empty merges into a single group.
pub proof fn lemma_full_threshold_one_group(
    groups: Seq<MergeGroup>,
    frames: Seq<HashedFrame>,
    threshold: u32,
)
    requires
        is_merge_of(groups, frames, threshold),
        threshold >= 64,
        frames.len() > 0,
    ensures
        threshold_for(0) == 64,
        groups.len() == 1,
        groups[0].representative_index == 0,
        groups[0].member_count == frames.len(),
{
    if groups.len() > 1 {
        let r = groups[1].representative_index as int;
        assert(group_is_run(groups, frames, threshold, 0));
        assert(group_is_run(groups, frames, threshold, 1));
        assert(groups[0].end() == r);
        assert(anchor_of(frames, threshold, r) == r);
        lemma_anchor_full_threshold(frames, threshold, r);
    }
}

/// Where every frame is farther than the threshold from its predecessor,
/// every frame starts a run.
proof fn lemma_anchor_apart(frames: Seq<HashedFrame>, threshold: u32, i: int)
    requires
        0 <= i < frames.len(),
        forall|j: int| 1 <= j < frames.len() ==> !#[trigger] similar(frames, j - 1, j, threshold),
    ensures
        anchor_of(frames, threshold, i) == i,
    decreases i,
{
    if i > 0 {
        lemma_anchor_apart(frames, threshold, i - 1);
        assert(!similar(frames, i - 1, i, threshold));
    }
}

/// Nothing is merged where every frame differs from its predecessor in
/// more bits than the threshold allows: each group then has one member.
/// At a required similarity of 100 percent the threshold is one bit, so
/// this asks for neighbours that differ in at least two bits.
pub proof fn lemma_distant_neighbours_stay_apart(
    groups: Seq<MergeGroup>,
    frames: Seq<HashedFrame>,
    threshold: u32,
)
    requires
        is_merge_of(groups, frames, threshold),
        forall|j: int| 1 <= j < frames.len() ==> !#[trigger] similar(frames, j - 1, j, threshold),
    ensures
        threshold_for(100) == 1,
        groups.len() == frames.len(),
        forall|k: int|
            0 <= k < groups.len() ==> (#[trigger] groups[k]).member_count == 1
                && groups[k].representative_index == k,
{
    assert forall|k: int| 0 <= k < groups.len() implies (#[trigger] groups[k]).member_count
        == 1 by {
        assert(group_is_run(groups, frames, threshold, k));
        if groups[k].member_count > 1 {
            let second = groups[k].representative_index + 1;
            assert(anchor_of(frames, threshold, second) == groups[k].representative_index);
            lemma_anchor_apart(frames, threshold, second);
        }
    }
    lemma_singletons_are_indexed(groups, groups.len() as int);
}

/// Groups of one member each, chained from frame 0, start at their own index.
proof fn lemma_singletons_are_indexed(groups: Seq<MergeGroup>, upto: int)
    requires
        0 <= upto <= groups.len(),
        groups.len() > 0 ==> groups[0].representative_index == 0,
        forall|k: int| 0 <= k < groups.len() ==> (#[trigger] groups[k]).member_count == 1,
        forall|k: int|
            0 <= k < groups.len() - 1 ==> (#[trigger] groups[k]).end() == groups[k
                + 1].representative_index,
    ensures
        forall|k: int| 0 <= k < upto ==> (#[trigger] groups[k]).representative_index == k,
    decreases upto,
{
    if upto > 1 {
        lemma_singletons_are_indexed(groups, upto - 1);
        assert(groups[upto - 2].end() == groups[upto - 1].representative_index);
    } else if upto == 1 {
    }
}

/// Two merges of the same frames with the same threshold are the same.
pub proof fn lemma_merge_is_unique(
    first: Seq<MergeGroup>,
    second: Seq<MergeGroup>,
    frames: Seq<HashedFrame>,
    threshold: u32,
)
    requires
        is_merge_of(first, frames, threshold),
        is_merge_of(second, frames, threshold),
    ensures
        first == second,
{
    if frames.len() > 0 {
        lemma_same_prefix(first, second, frames, threshold, first.len() - 1);
        let k = first.len() - 1;
        assert(group_is_run(first, frames, threshold, k));
        if second.len() > first.len() {
            assert(group_is_run(second, frames, threshold, k + 1));
            assert(second[k].end() == second[k + 1].representative_index);
        }
        assert(first =~= second);
    } else {
        assert(first =~= second);
    }
}

/// Two merges of the same frames agree on every group that both have.
proof fn lemma_same_prefix(
    first: Seq<MergeGroup>,
    second: Seq<MergeGroup>,
    frames: Seq<HashedFrame>,
    threshold: u32,
    k: int,
)
    requires
        is_merge_of(first, frames, threshold),
        is_merge_of(second, frames, threshold),
        0 <= k < first.len(),
    ensures
        k < second.len(),
        forall|j: int| 0 <= j <= k ==> first[j] == second[j],
    decreases k,
{
    if k > 0 {
        lemma_same_prefix(first, second, frames, threshold, k - 1);
        assert(first[k - 1] == second[k - 1]);
        assert(group_is_run(first, frames, threshold, k - 1));
        assert(group_is_run(first, frames, threshold, k));
        assert(first[k - 1].end() == first[k].representative_index);
        if second.len() == k {
            assert(second.last() == second[k - 1]);
        }
        assert(second[k - 1].end() == second[k].representative_index);
    }
    assert(group_is_run(first, frames, threshold, k));
    assert(group_is_run(second, frames, threshold, k));
    let a = first[k];
    let b = second[k];
    assert(a.representative_index == b.representative_index);
    if a.end() < b.end() {
        // the frame after `a` starts a group of `first`, yet lies inside `b`
        assert(first[k].end() == first[k + 1].representative_index);
        assert(group_is_run(first, frames, threshold, k + 1));
        assert(anchor_of(frames, threshold, a.end()) == a.end());
        assert(anchor_of(frames, threshold, a.end()) == b.representative_index);
    } else if b.end() < a.end() {
        assert(second[k].end() == second[k + 1].representative_index);
        assert(group_is_run(second, frames, threshold, k + 1));
        assert(anchor_of(frames, threshold, b.end()) == b.end());
        assert(anchor_of(frames, threshold, b.end()) == a.representative_index);
    }
}

} // verus!
