//! The configuration of a writer, and what makes one unusable.

use crate::names::contains_char;
use vstd::prelude::*;

verus! {

/// The number of parts that make up the whole where a limit is given as a share
/// of the filesystem: shares are told in millionths.
pub const SHARE_WHOLE: u32 = 1_000_000;

/// The limits that a writer keeps. They are set once and stay as they are for
/// the writer's lifetime.
#[derive(Debug, Clone, PartialEq)]
pub struct LogWriterConfig {
    /// The directory in which the files are made.
    pub target_dir: String,
    /// What the name of every file of this writer starts with.
    pub prefix: String,
    /// What the name of every file of this writer ends with.
    pub suffix: String,
    /// A write that would take the current file beyond this many bytes goes
    /// to a new file.
    pub max_file_size: usize,
    /// A file that has been open for more than this many seconds is replaced
    /// before the next write, whatever its size.
    pub max_file_age: Option<u64>,
    /// How many files of this writer may exist side by side. Files are deleted
    /// until there are fewer, so that a limit of one file leaves no room for
    /// the file that is being written.
    pub max_file_count: Option<u32>,
    /// How many bytes the files of this writer may occupy together.
    pub max_use_bytes: Option<u64>,
    /// The share of the filesystem, in millionths, that the files of this
    /// writer may occupy together.
    pub max_use_of_total: Option<u32>,
    /// Bytes taken off the share of `max_use_of_total` before it is applied.
    pub reserved: Option<u64>,
    /// How many bytes must remain available once a write is done.
    pub min_avail_bytes: Option<u64>,
    /// The share of the filesystem, in millionths, that must remain available
    /// once a write is done.
    pub min_avail_of_total: Option<u32>,
    /// Whether a notice is due when the availability floor holds a write up.
    pub warn_if_avail_reached: bool,
}

/// Why a configuration is refused: the field that cannot be worked with.
#[derive(Debug, Clone, Copy, PartialEq, Eq, Structural)]
pub enum InvalidConfiguration {
    /// The directory holds a NUL character.
    TargetDir,
    /// The prefix holds a path separator or a NUL character.
    Prefix,
    /// The suffix holds a path separator or a NUL character.
    Suffix,
    /// No file at all is allowed, yet one is always open.
    MaxFileCount,
    /// The share to use is more than the whole.
    MaxUseOfTotal,
    /// The share to keep available is more than the whole.
    MinAvailOfTotal,
}

/// A fragment of a file name cannot hold a path separator or a NUL character:
/// the file would land elsewhere, or could not be made at all.
pub open spec fn unfit_for_names(fragment: Seq<char>) -> bool {
    fragment.contains('/') || fragment.contains('\0')
}

impl LogWriterConfig {
    /// The first fault of the configuration, in the order of the variants of
    /// `InvalidConfiguration`, if it has any.
    pub open spec fn fault(&self) -> Option<InvalidConfiguration> {
        if self.target_dir@.contains('\0') {
            Some(InvalidConfiguration::TargetDir)
        } else if unfit_for_names(self.prefix@) {
            Some(InvalidConfiguration::Prefix)
        } else if unfit_for_names(self.suffix@) {
            Some(InvalidConfiguration::Suffix)
        } else if self.max_file_count == Some(0u32) {
            Some(InvalidConfiguration::MaxFileCount)
        } else if self.max_use_of_total is Some && self.max_use_of_total->0 > SHARE_WHOLE {
            Some(InvalidConfiguration::MaxUseOfTotal)
        } else if self.min_avail_of_total is Some && self.min_avail_of_total->0 > SHARE_WHOLE {
            Some(InvalidConfiguration::MinAvailOfTotal)
        } else {
            None
        }
    }

    /// A configuration is valid when it has no fault.
    pub open spec fn valid(&self) -> bool {
        self.fault() is None
    }

    /// Checks the configuration, and names its first fault.
    pub fn validate(&self) -> (checked: Result<(), InvalidConfiguration>)
        ensures
            checked is Ok <==> self.valid(),
            checked is Err ==> self.fault() == Some(checked->Err_0),
    {
        if contains_char(self.target_dir.as_str(), '\0') {
            return Err(InvalidConfiguration::TargetDir);
        }
        if contains_char(self.prefix.as_str(), '/') || contains_char(self.prefix.as_str(), '\0') {
            return Err(InvalidConfiguration::Prefix);
        }
        if contains_char(self.suffix.as_str(), '/') || contains_char(self.suffix.as_str(), '\0') {
            return Err(InvalidConfiguration::Suffix);
        }
        if let Some(count) = self.max_file_count {
            if count == 0 {
                return Err(InvalidConfiguration::MaxFileCount);
            }
        }
        if let Some(share) = self.max_use_of_total {
            if share > SHARE_WHOLE {
                return Err(InvalidConfiguration::MaxUseOfTotal);
            }
        }
        if let Some(share) = self.min_avail_of_total {
            if share > SHARE_WHOLE {
                return Err(InvalidConfiguration::MinAvailOfTotal);
            }
        }
        Ok(())
    }
}

} // verus!
