//! The three rules that a writer applies before it appends: whether the
//! current file has to be replaced, whether the directory holds too many
//! files, and whether the write may be admitted for space.

use crate::capacity::FsStats;
use crate::config::{LogWriterConfig, SHARE_WHOLE};
use vstd::prelude::*;

verus! {

/// How the space rules judge a write.
#[derive(Clone, Copy, Debug, PartialEq, Eq, Structural)]
pub enum Admission {
    /// Every configured limit is kept.
    Admitted,
    /// The files of the writer occupy more than they may.
    OverCap,
    /// Too little would remain available after the write.
    BelowFloor,
}

/// A share of a filesystem in bytes: so many millionths of its total size,
/// rounded down.
pub open spec fn share_of(total_space: u64, share: u32) -> nat {
    ((total_space as nat) * (share as nat)) / (SHARE_WHOLE as nat)
}

/// The smaller of two bounds, where a bound that is not set does not bind.
pub open spec fn tighter(a: Option<int>, b: Option<int>) -> Option<int> {
    match (a, b) {
        (Some(x), Some(y)) => Some(if x <= y { x } else { y }),
        (Some(x), None) => Some(x),
        (None, Some(y)) => Some(y),
        (None, None) => None,
    }
}

/// Two bounds taken together allow what the smaller one allows, in whichever
/// order they are looked at: a quantity is over the joint bound exactly when it
/// is over one of the two.
pub proof fn lemma_tighter_is_smaller(a: int, b: int, used: nat)
    ensures
        tighter(Some(a), Some(b)) == Some(if a <= b { a } else { b }),
        tighter(Some(a), Some(b)) == tighter(Some(b), Some(a)),
        (tighter(Some(a), Some(b)) matches Some(bound) && used > bound) <==> (used > a || used > b),
{
}

impl LogWriterConfig {
    /// The cap given in bytes, if one is set.
    pub open spec fn absolute_cap(&self) -> Option<int> {
        match self.max_use_bytes {
            Some(bytes) => Some(bytes as int),
            None => None,
        }
    }

    /// The cap given as a share of the filesystem, if one is set: the share in
    /// bytes less the reserve. It is below zero where the reserve is the
    /// larger, and then nothing may be occupied, not even by empty files.
    pub open spec fn relative_cap(&self, total_space: u64) -> Option<int> {
        match self.max_use_of_total {
            Some(share) => {
                let reserve: int = match self.reserved {
                    Some(bytes) => bytes as int,
                    None => 0,
                };
                Some(share_of(total_space, share) - reserve)
            },
            None => None,
        }
    }

    /// The bytes that the writer's files may occupy together on a filesystem of
    /// the given size: the smaller of the two caps, or the one that is set.
    pub open spec fn occupancy_cap(&self, total_space: u64) -> Option<int> {
        tighter(self.absolute_cap(), self.relative_cap(total_space))
    }

    /// Whether files that occupy `used` bytes are over the cap.
    pub open spec fn over_cap(&self, used: nat, total_space: u64) -> bool {
        self.occupancy_cap(total_space) matches Some(cap) && used > cap
    }

    /// Whether a write of `len` bytes would leave less available than one of
    /// the two floors asks for.
    pub open spec fn below_floor(&self, stats: FsStats, len: usize) -> bool {
        let left = stats.available_space - len;
        ||| self.min_avail_bytes matches Some(floor) && left < floor
        ||| self.min_avail_of_total matches Some(share) && left < share_of(stats.total_space, share)
    }

    /// Whether any of the space limits is set.
    pub open spec fn limits_space(&self) -> bool {
        self.caps_use() || self.keeps_floor()
    }

    /// Whether a cap on the bytes in use is set.
    pub open spec fn caps_use(&self) -> bool {
        self.max_use_bytes is Some || self.max_use_of_total is Some
    }

    /// Whether a floor on the bytes available is set.
    pub open spec fn keeps_floor(&self) -> bool {
        self.min_avail_bytes is Some || self.min_avail_of_total is Some
    }

    /// The judgement on a write of `len` bytes while the writer's files occupy
    /// `used` bytes. The cap is looked at first, and where it is broken the
    /// floors are not looked at.
    pub open spec fn verdict(&self, used: nat, stats: FsStats, len: usize) -> Admission {
        if self.over_cap(used, stats.total_space) {
            Admission::OverCap
        } else if self.below_floor(stats, len) {
            Admission::BelowFloor
        } else {
            Admission::Admitted
        }
    }

    /// Whether the current file has to be replaced before `len` more bytes are
    /// written at time `now`: the bytes would take it beyond the size limit, or
    /// it has been open for longer than the age limit. Times are told in
    /// milliseconds, the age limit in seconds.
    pub open spec fn rotation_due(&self, size: usize, opened_at: u64, len: usize, now: u64) -> bool {
        ||| size + len > self.max_file_size
        ||| self.max_file_age matches Some(age) && now - opened_at > age * 1000
    }

    /// Whether files have to go before another may be kept or made: the
    /// writer has as many files as the limit allows, or more.
    pub open spec fn count_full(&self, count: nat) -> bool {
        self.max_file_count matches Some(limit) && count >= limit
    }
}

/// Computes a share of a filesystem in bytes.
pub fn share_bytes(total_space: u64, share: u32) -> (bytes: u128)
    ensures
        bytes == share_of(total_space, share),
{
    assert((total_space as nat) * (share as nat) <= 0xffff_ffff_ffff_ffff * 0xffff_ffff)
        by (nonlinear_arith)
        requires
            total_space <= 0xffff_ffff_ffff_ffff,
            share <= 0xffff_ffff,
    ;
    (total_space as u128 * share as u128) / (SHARE_WHOLE as u128)
}

/// Computes the bytes that the writer's files may occupy together; the bound
/// is below zero where the reserve is larger than the share.
pub fn effective_cap(cfg: &LogWriterConfig, total_space: u64) -> (cap: Option<i128>)
    ensures
        cap is Some <==> cfg.occupancy_cap(total_space) is Some,
        cap is Some ==> cfg.occupancy_cap(total_space) == Some(cap->0 as int),
        cfg.max_use_bytes is Some && cfg.max_use_of_total is Some ==> cap is Some && {
            let bytes = cfg.absolute_cap()->0;
            let shared = cfg.relative_cap(total_space)->0;
            cap->0 == if bytes <= shared { bytes } else { shared }
        },
        cfg.max_use_bytes is None && cfg.max_use_of_total is None ==> cap is None,
{
    let relative: Option<i128> = match cfg.max_use_of_total {
        Some(share) => {
            let granted = share_bytes(total_space, share);
            assert(granted <= 0xffff_ffff_ffff_ffff * 0xffff_ffff) by (nonlinear_arith)
                requires
                    granted == ((total_space as nat) * (share as nat)) / 1_000_000,
                    total_space <= 0xffff_ffff_ffff_ffff,
                    share <= 0xffff_ffff,
            ;
            let reserve: i128 = match cfg.reserved {
                Some(bytes) => bytes as i128,
                None => 0,
            };
            Some(granted as i128 - reserve)
        },
        None => None,
    };
    match (cfg.max_use_bytes, relative) {
        (Some(bytes), Some(shared)) => Some(if bytes as i128 <= shared { bytes as i128 } else { shared }),
        (Some(bytes), None) => Some(bytes as i128),
        (None, Some(shared)) => Some(shared),
        (None, None) => None,
    }
}

/// Judges a write of `len` bytes while the writer's files occupy `used`
/// bytes and the filesystem reports `stats`.
pub fn admission(cfg: &LogWriterConfig, used: u128, stats: &FsStats, len: usize) -> (judged:
    Admission)
    ensures
        judged == cfg.verdict(used as nat, *stats, len),
{
    if let Some(cap) = effective_cap(cfg, stats.total_space) {
        if cap < 0 || used > cap as u128 {
            return Admission::OverCap;
        }
    }
    let needed: u128 = len as u128;
    if let Some(floor) = cfg.min_avail_bytes {
        if (stats.available_space as u128) < floor as u128 + needed {
            return Admission::BelowFloor;
        }
    }
    if let Some(share) = cfg.min_avail_of_total {
        let floor = share_bytes(stats.total_space, share);
        assert(floor <= 0xffff_ffff_ffff_ffff * 0xffff_ffff) by (nonlinear_arith)
            requires
                floor == ((stats.total_space as nat) * (share as nat)) / 1_000_000,
                stats.total_space <= 0xffff_ffff_ffff_ffff,
                share <= 0xffff_ffff,
        ;
        if (stats.available_space as u128) < floor + needed {
            return Admission::BelowFloor;
        }
    }
    Admission::Admitted
}

/// Tells whether a write of `len` bytes may go ahead.
pub fn admits(cfg: &LogWriterConfig, used: u128, stats: &FsStats, len: usize) -> (admitted: bool)
    ensures
        admitted == (cfg.verdict(used as nat, *stats, len) is Admitted),
{
    match admission(cfg, used, stats, len) {
        Admission::Admitted => true,
        _ => false,
    }
}

/// Tells whether the current file has to be replaced before the write. `now`
/// and `opened_at` are milliseconds on one clock.
pub fn needs_rotation(cfg: &LogWriterConfig, size: usize, opened_at: u64, len: usize, now: u64) -> (due:
    bool)
    ensures
        due == cfg.rotation_due(size, opened_at, len, now),
{
    if size > cfg.max_file_size || len > cfg.max_file_size - size {
        return true;
    }
    match cfg.max_file_age {
        Some(age) => now > opened_at && (now - opened_at) as u128 > age as u128 * 1000,
        None => false,
    }
}

/// Tells whether files have to go: the writer has `count` files, and that is
/// as many as the limit allows, or more.
pub fn needs_cleanup(cfg: &LogWriterConfig, count: usize) -> (full: bool)
    ensures
        full == cfg.count_full(count as nat),
{
    match cfg.max_file_count {
        Some(limit) => count as u128 >= limit as u128,
        None => false,
    }
}

} // verus!
