//! The deduplication pipeline's own decisions: what it accepts, which
//! delay a frame gets, and what is handed to the encoder.

use vstd::prelude::*;
use crate::error::{JobError, Parameter};
use crate::fingerprint::{compute_phash, frame_fingerprint, hashable};
use crate::frame::Frame;
use crate::merge::{hamming_threshold, is_merge_of, merge, threshold_for, HashedFrame, MergeGroup};

verus! {

/// Delay of a frame of which nothing better is known: a tenth of a second.
pub const DEFAULT_DELAY: u64 = 10;

/// Frame rate handed to the encoder where the sequence has no duration:
/// ten frames a second, in hundredths.
pub const DEFAULT_RATE: u128 = 1000;

/// Most colours that a palette holds.
pub const MAX_COLORS: u32 = 256;

/// Settings of one deduplication run.
#[derive(Clone, Copy, Debug, PartialEq, Eq)]
pub struct DedupConfig {
    /// Encoder quality, 1 to 100.
    pub quality: u8,
    /// Required similarity in percent, 0 to 100.
    pub similarity_threshold: u8,
    /// Size of the palette, at least 2.
    pub target_colors: u16,
    /// Whether the frames are remuxed with their palettes, or encoded anew.
    pub use_indexed_palette: bool,
}

/// The stages that progress is reported under.
#[derive(Clone, Copy, Debug, PartialEq, Eq, Structural)]
pub enum Stage {
    Extracting,
    Deduplicating,
    Rebuilding,
    Processing,
    Complete,
    Error,
    Fullframes,
    Previews,
}

/// One frame of the remuxed sequence.
#[derive(Clone, Copy, Debug, PartialEq, Eq)]
pub struct RemuxEntry {
    /// Index of the source frame whose image is taken over unchanged.
    pub source_index: usize,
    /// Delay in hundredths of a second.
    pub delay: u32,
}

/// The first setting that is out of range, in the order quality,
/// similarity, colours.
pub open spec fn first_invalid(config: DedupConfig) -> Option<Parameter> {
    if config.quality < 1 || config.quality > 100 {
        Some(Parameter::Quality)
    } else if config.similarity_threshold > 100 {
        Some(Parameter::SimilarityThreshold)
    } else if config.target_colors < 2 {
        Some(Parameter::TargetColors)
    } else {
        None
    }
}

/// Checks the settings; nothing else of a run may happen before.
pub fn validate_config(config: &DedupConfig) -> (out: Result<(), JobError>)
    ensures
        out is Ok <==> first_invalid(*config) is None,
        out matches Err(e) ==> first_invalid(*config) is Some && e == JobError::InvalidParameter(
            first_invalid(*config)->0,
        ),
{
    if config.quality < 1 || config.quality > 100 {
        Err(JobError::InvalidParameter(Parameter::Quality))
    } else if config.similarity_threshold > 100 {
        Err(JobError::InvalidParameter(Parameter::SimilarityThreshold))
    } else if config.target_colors < 2 {
        Err(JobError::InvalidParameter(Parameter::TargetColors))
    } else {
        Ok(())
    }
}

/// The delay of frame `i` of `frame_count`, given the delays that the
/// metadata lists: its own where there is one delay for each frame, else
/// the first one listed, else the default.
pub open spec fn assigned_delay(delays: Seq<u64>, frame_count: int, i: int) -> u64 {
    if delays.len() == frame_count {
        if 0 <= i < delays.len() {
            delays[i]
        } else {
            DEFAULT_DELAY
        }
    } else if delays.len() > 0 {
        delays[0]
    } else {
        DEFAULT_DELAY
    }
}

/// The delay of frame `i` of `frame_count`.
pub fn assign_delay(delays: &Vec<u64>, frame_count: usize, i: usize) -> (delay: u64)
    ensures
        delay == assigned_delay(delays@, frame_count as int, i as int),
{
    if delays.len() == frame_count {
        if i < delays.len() {
            delays[i]
        } else {
            DEFAULT_DELAY
        }
    } else if delays.len() > 0 {
        delays[0]
    } else {
        DEFAULT_DELAY
    }
}

/// Whether progress is reported at item `i` of `total` where every
/// `every`-th item is reported: at those items and at the last one.
pub fn reports_every(i: usize, total: usize, every: usize) -> (yes: bool)
    ensures
        yes <==> (every > 0 && i % every == 0) || i + 1 == total,
{
    (every > 0 && i % every == 0) || (total > 0 && i == total - 1)
}

/// Whether progress is reported at item `i` of `total`: at every fifth
/// item and at the last one.
pub fn reports_progress(i: usize, total: usize) -> (yes: bool)
    ensures
        yes <==> i % 5 == 0 || i + 1 == total,
{
    reports_every(i, total, 5)
}

/// What the merger needs of a frame; `None` for a frame that cannot be
/// hashed.
pub fn hash_frame(frame: &Frame) -> (out: Option<HashedFrame>)
    ensures
        out is Some <==> hashable(*frame),
        out matches Some(h) ==> h.delay == frame.delay && h.fingerprint == frame_fingerprint(
            frame.pixels@,
            frame.width as int,
            frame.height as int,
        ),
{
    match compute_phash(frame) {
        Some(fingerprint) => Some(HashedFrame { fingerprint, delay: frame.delay }),
        None => None,
    }
}

/// Decides which frames of a sequence survive and what delay each gets.
///
/// The settings are checked first. A sequence without frames is a
/// `StateError`. Else the result is the merge of the frames at the
/// threshold that the required similarity maps to.
pub fn deduplicate(config: &DedupConfig, frames: &Vec<HashedFrame>) -> (out: Result<
    Vec<MergeGroup>,
    JobError,
>)
    ensures
        out is Ok <==> first_invalid(*config) is None && frames@.len() > 0,
        out matches Ok(groups) ==> is_merge_of(
            groups@,
            frames@,
            threshold_for(config.similarity_threshold as int) as u32,
        ),
        out matches Err(e) ==> if first_invalid(*config) is Some {
            e == JobError::InvalidParameter(first_invalid(*config)->0)
        } else {
            e is StateError
        },
{
    match validate_config(config) {
        Err(e) => {
            return Err(e);
        },
        Ok(_) => {},
    }
    if frames.len() == 0 {
        return Err(JobError::StateError(String::from_str("the sequence has no frames")));
    }
    let threshold = hamming_threshold(config.similarity_threshold);
    Ok(merge(frames, threshold))
}

/// A delay as the encoder takes it: the total, or the largest value that
/// it accepts where the total is beyond that.
pub open spec fn encoder_delay(total_delay: u128) -> u32 {
    if total_delay > u32::MAX {
        u32::MAX
    } else {
        total_delay as u32
    }
}

/// A delay as the encoder takes it.
pub fn encoder_delay_of(total_delay: u128) -> (delay: u32)
    ensures
        delay == encoder_delay(total_delay),
{
    if total_delay > u32::MAX as u128 {
        u32::MAX
    } else {
        total_delay as u32
    }
}

/// The frames of the remuxed sequence: for each group its first frame,
/// with the group's total delay.
pub fn plan_remux(groups: &Vec<MergeGroup>) -> (plan: Vec<RemuxEntry>)
    ensures
        plan@.len() == groups@.len(),
        forall|k: int|
            0 <= k < plan@.len() ==> (#[trigger] plan@[k]).source_index
                == groups@[k].representative_index && plan@[k].delay == encoder_delay(
                groups@[k].total_delay,
            ),
{
    let mut plan: Vec<RemuxEntry> = Vec::new();
    let mut k: usize = 0;
    while k < groups.len()
        invariant
            k <= groups@.len(),
            plan@.len() == k,
            forall|j: int|
                0 <= j < k ==> (#[trigger] plan@[j]).source_index
                    == groups@[j].representative_index && plan@[j].delay == encoder_delay(
                    groups@[j].total_delay,
                ),
        decreases groups@.len() - k,
    {
        let delay = encoder_delay_of(groups[k].total_delay);
        plan.push(RemuxEntry { source_index: groups[k].representative_index, delay });
        k = k + 1;
    }
    plan
}

/// Average frame rate in hundredths of a frame a second, for `count`
/// frames that play for `duration` hundredths of a second: the nearest
/// whole number to `count * 10000 / duration`, and the default where the
/// duration is zero.
pub open spec fn average_rate(count: int, duration: int) -> int {
    if duration == 0 {
        DEFAULT_RATE as int
    } else {
        (count * 10000 + duration / 2) / duration
    }
}

/// Average frame rate in hundredths of a frame a second.
pub fn average_frame_rate(count: usize, duration: u128) -> (rate: u128)
    ensures
        rate == average_rate(count as int, duration as int),
{
    if duration == 0 {
        return DEFAULT_RATE;
    }
    let scaled: u128 = count as u128 * 10000;
    (scaled + duration / 2) / duration
}

/// The rate is within half a hundredth of the exact quotient.
pub proof fn lemma_average_rate_is_nearest(count: int, duration: int)
    requires
        count >= 0,
        duration > 0,
    ensures
        2 * average_rate(count, duration) * duration - duration <= 2 * count * 10000 <= 2
            * average_rate(count, duration) * duration + duration,
{
    let x = count * 10000 + duration / 2;
    let q = x / duration;
    vstd::arithmetic::div_mod::lemma_fundamental_div_mod(x, duration);
    vstd::arithmetic::div_mod::lemma_mod_bound(x, duration);
    assert(x == duration * q + x % duration);
    assert(2 * q * duration == 2 * (duration * q)) by (nonlinear_arith);
}

/// Size of the palette asked of the encoder: the target, at most 256.
pub fn palette_size(target_colors: u16) -> (size: u32)
    ensures
        size == if target_colors > MAX_COLORS {
            MAX_COLORS
        } else {
            target_colors as u32
        },
{
    if target_colors as u32 > MAX_COLORS {
        MAX_COLORS
    } else {
        target_colors as u32
    }
}

/// By how many percent the new size is below the size before, rounded
/// towards zero; negative where the file grew.
pub open spec fn saved_percent(source_size: int, new_size: int) -> int {
    if source_size <= 0 {
        0
    } else if new_size <= source_size {
        ((source_size - new_size) * 100) / source_size
    } else {
        -(((new_size - source_size) * 100) / source_size)
    }
}

/// By how many percent the new size is below the size before. A growth
/// beyond what fits is reported as the smallest value.
pub fn compression_percent(source_size: u64, new_size: u64) -> (percent: i32)
    ensures
        percent == if saved_percent(source_size as int, new_size as int) < i32::MIN {
            i32::MIN as int
        } else {
            saved_percent(source_size as int, new_size as int)
        },
{
    if source_size == 0 {
        0
    } else if new_size <= source_size {
        let saved: u128 = (source_size - new_size) as u128 * 100;
        let percent: u128 = saved / source_size as u128;
        assert(percent <= 100) by (nonlinear_arith)
            requires
                percent == saved / (source_size as u128),
                saved <= source_size * 100,
                source_size > 0,
        ;
        percent as i32
    } else {
        let grown: u128 = (new_size - source_size) as u128 * 100;
        let percent: u128 = grown / source_size as u128;
        if percent > 0x8000_0000 {
            i32::MIN
        } else {
            (-(percent as i64)) as i32
        }
    }
}

/// The name that a stage is reported under.
pub fn stage_name(stage: Stage) -> (name: &'static str)
    ensures
        name@ == stage_text(stage),
{
    match stage {
        Stage::Extracting => "extracting",
        Stage::Deduplicating => "deduplicating",
        Stage::Rebuilding => "rebuilding",
        Stage::Processing => "processing",
        Stage::Complete => "complete",
        Stage::Error => "error",
        Stage::Fullframes => "fullframes",
        Stage::Previews => "previews",
    }
}

/// The name that a stage is reported under.
pub open spec fn stage_text(stage: Stage) -> Seq<char> {
    match stage {
        Stage::Extracting => "extracting"@,
        Stage::Deduplicating => "deduplicating"@,
        Stage::Rebuilding => "rebuilding"@,
        Stage::Processing => "processing"@,
        Stage::Complete => "complete"@,
        Stage::Error => "error"@,
        Stage::Fullframes => "fullframes"@,
        Stage::Previews => "previews"@,
    }
}

} // verus!
