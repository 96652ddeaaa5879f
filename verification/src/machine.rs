//! The rotation controller as a state machine: what it knows, what it is told,
//! what it asks for, and the one function that takes it from state to state.
//!
//! The controller does no work on files itself. It asks for one piece of work
//! at a time (an `Action`) and is told how that went (an `Event`). One write
//! is a run of such steps, from `WriteRequested` to `Finish` or `Fail`.

use crate::capacity::FsStats;
use crate::catalog::{catalog_of, oldest_deletable, total_size, CatalogEntryView, DirEntryView};
use crate::config::LogWriterConfig;
use crate::names::{labelled_name, precedes, well_formed_stamp, LAST_SERIAL};
use crate::policy::Admission;
use vstd::prelude::*;

verus! {

/// How many times the controller asks again for the next file when the name
/// for it is taken, before it gives up.
pub const OPEN_TRIES: u8 = 40;

/// Why a write or the start of a writer fails.
#[derive(Clone, Copy, Debug, PartialEq, Eq, Structural)]
pub enum WriteError {
    /// The work on a file or a directory failed; whoever did the work holds the
    /// details.
    Io,
    /// A limit is broken and no file is left that may be deleted.
    OutOfSpace,
    /// A write made while a file was being replaced would itself replace the
    /// file.
    NestedRotation,
    /// The controller was told of something that it had not asked for.
    OutOfTurn,
}

/// What the controller wants to be made known, without effect on what it does.
#[derive(Clone, Copy, Debug, PartialEq, Eq, Structural)]
pub enum Notice {
    /// The availability floor holds the write up, and the configuration asks
    /// to be warned of that.
    FloorReached,
    /// The availability floor cannot be kept: nothing is left to delete, and
    /// the write goes ahead all the same.
    LimitNotEnforced,
}

/// Where the controller stands once the write at hand is over: at rest, or
/// back in the hook during which the write was made.
#[derive(Clone, Copy, Debug, PartialEq, Eq, Structural)]
pub enum Resume {
    /// The write was made while the controller was at rest.
    Idle,
    /// The write was made by the hook that runs before the file is closed.
    Closing { len: usize },
    /// The write was made by the hook that runs after the file was opened.
    Announcing { pending: Option<usize> },
}

/// What the controller is in the middle of. `len` and `pending` are the bytes
/// of the write that waits for the file to be replaced; `pending` is `None`
/// while the first file of a writer is set up. Times are told in milliseconds.
#[derive(Clone, Copy, Debug, PartialEq, Eq, Structural)]
pub enum Phase {
    /// Nothing: the next write may come.
    Idle,
    /// Files are deleted until the directory has room for the next one.
    Cleaning { pending: Option<usize> },
    /// The hook before closing runs, and the current file is closed.
    Closing { len: usize },
    /// The next file is made; `tries` counts the names that were taken.
    Opening { pending: Option<usize>, tries: u8 },
    /// The hook after opening runs.
    Announcing { pending: Option<usize> },
    /// Files are deleted until the space limits admit the write.
    Admitting { len: usize, resume: Resume },
    /// The bytes are appended.
    Appending { len: usize, resume: Resume },
}

/// The controller's state as contracts see it.
pub struct ControllerState {
    /// The name of the file that is open for writing.
    pub name: Seq<char>,
    /// The stamp that this name carries; empty before the first file.
    pub stamp: Seq<char>,
    /// The serial number that this name carries.
    pub serial: u32,
    /// The bytes written to that file since it was opened.
    pub size: usize,
    /// When it was opened, in milliseconds on the clock that `now` is read
    /// from.
    pub opened_at: u64,
    /// What the controller is in the middle of.
    pub phase: Phase,
}

/// What the controller is told, as contracts see it.
pub enum EventView {
    WriteRequested { len: usize, now: u64 },
    Surveyed { entries: Option<Seq<DirEntryView>>, stats: Option<FsStats> },
    Deleted,
    Vanished,
    Closed,
    Opened { stamp: Seq<char>, serial: u32, now: u64 },
    Taken,
    Announced,
    Appended { written: usize },
    Failed,
}

/// What the controller asks for, as contracts see it.
pub enum ActionView {
    Survey { catalog: bool, capacity: bool },
    Delete { name: Seq<char> },
    Close,
    Open,
    Announce,
    Append,
    Finish { written: usize },
    Fail { error: WriteError },
}

/// One answer of the controller, as contracts see it.
pub struct StepView {
    pub action: ActionView,
    pub notice: Option<Notice>,
}

/// An answer without a notice.
pub open spec fn plain(action: ActionView) -> StepView {
    StepView { action, notice: None }
}

/// The state `s` in another phase.
pub open spec fn in_phase(s: ControllerState, phase: Phase) -> ControllerState {
    ControllerState { phase, ..s }
}

/// The phase to go back to when a write is over.
pub open spec fn resumed(resume: Resume) -> Phase {
    match resume {
        Resume::Idle => Phase::Idle,
        Resume::Closing { len } => Phase::Closing { len },
        Resume::Announcing { pending } => Phase::Announcing { pending },
    }
}

/// A byte count after `written` more bytes; it stops at the largest count that
/// can be told.
pub open spec fn grown(size: usize, written: usize) -> usize {
    if size + written > usize::MAX {
        usize::MAX
    } else {
        (size + written) as usize
    }
}

/// The listing that the count rule needs.
pub open spec fn survey_for_count() -> ActionView {
    ActionView::Survey { catalog: true, capacity: false }
}

/// What the space rules need to see first: the capacity, and the listing only
/// where a cap on the bytes in use is set.
pub open spec fn survey_for_space(cfg: LogWriterConfig) -> ActionView {
    ActionView::Survey { catalog: cfg.caps_use(), capacity: true }
}

/// What the space rules need to see once a file has to go: everything.
pub open spec fn survey_in_full() -> ActionView {
    ActionView::Survey { catalog: true, capacity: true }
}

/// The current file is replaced: first the directory is given room for one
/// more file, where the number of files is limited; then the file is closed.
pub open spec fn start_rotation(cfg: LogWriterConfig, s: ControllerState, len: usize) -> (
    ControllerState,
    StepView,
) {
    if cfg.max_file_count is Some {
        (in_phase(s, Phase::Cleaning { pending: Some(len) }), plain(survey_for_count()))
    } else {
        (in_phase(s, Phase::Closing { len }), plain(ActionView::Close))
    }
}

/// The write is held against the space limits, and appended at once where
/// none is set.
pub open spec fn enter_admission(
    cfg: LogWriterConfig,
    s: ControllerState,
    len: usize,
    resume: Resume,
) -> (ControllerState, StepView) {
    if cfg.limits_space() {
        (in_phase(s, Phase::Admitting { len, resume }), plain(survey_for_space(cfg)))
    } else {
        (in_phase(s, Phase::Appending { len, resume }), plain(ActionView::Append))
    }
}

/// A write of `len` bytes is taken up at time `now`. Where the current file
/// has to be replaced first, a write made at rest starts that, and a write made
/// from within a hook fails and leaves the controller where it was.
pub open spec fn begin_write(
    cfg: LogWriterConfig,
    s: ControllerState,
    len: usize,
    now: u64,
    resume: Resume,
) -> (ControllerState, StepView) {
    if cfg.rotation_due(s.size, s.opened_at, len, now) {
        if resume is Idle {
            start_rotation(cfg, s, len)
        } else {
            (s, plain(ActionView::Fail { error: WriteError::NestedRotation }))
        }
    } else {
        enter_admission(cfg, s, len, resume)
    }
}

/// The directory has room: a file that waits to be replaced is closed, and a
/// first file is announced.
pub open spec fn after_cleaning(s: ControllerState, pending: Option<usize>) -> (
    ControllerState,
    StepView,
) {
    match pending {
        Some(len) => (in_phase(s, Phase::Closing { len }), plain(ActionView::Close)),
        None => (in_phase(s, Phase::Announcing { pending: None }), plain(ActionView::Announce)),
    }
}

/// The count rule on a fresh listing, the same before a file is replaced and
/// once a first file is open: while the writer has as many files as the limit
/// allows, or more, the oldest file but the current one goes; where none is
/// left to go, the writer is out of space.
pub open spec fn clean(
    cfg: LogWriterConfig,
    s: ControllerState,
    pending: Option<usize>,
    entries: Option<Seq<DirEntryView>>,
) -> (ControllerState, StepView) {
    match entries {
        None => (s, plain(survey_for_count())),
        Some(listing) => {
            let catalog = catalog_of(listing, cfg.prefix@, cfg.suffix@, s.name);
            if cfg.count_full(catalog.len()) {
                match oldest_deletable(catalog) {
                    Some(i) => (s, plain(ActionView::Delete { name: catalog[i].name })),
                    None => (
                        in_phase(s, Phase::Idle),
                        plain(ActionView::Fail { error: WriteError::OutOfSpace }),
                    ),
                }
            } else {
                after_cleaning(s, pending)
            }
        },
    }
}

/// The notice that goes with a write that the floor holds up.
pub open spec fn floor_notice(cfg: LogWriterConfig, judged: Admission) -> Option<Notice> {
    if judged is BelowFloor && cfg.warn_if_avail_reached {
        Some(Notice::FloorReached)
    } else {
        None
    }
}

/// The space rules on a fresh survey. An admitted write is appended. For one
/// that is not, the oldest file but the current one goes, and the survey is
/// made again. Where no file is left to go, a broken cap fails the write, and
/// a broken floor lets it pass with a notice.
pub open spec fn decide_admission(
    cfg: LogWriterConfig,
    s: ControllerState,
    len: usize,
    resume: Resume,
    entries: Option<Seq<DirEntryView>>,
    stats: Option<FsStats>,
) -> (ControllerState, StepView) {
    if stats is None || (cfg.caps_use() && entries is None) {
        (s, plain(survey_for_space(cfg)))
    } else {
        let catalog = match entries {
            Some(listing) => catalog_of(listing, cfg.prefix@, cfg.suffix@, s.name),
            None => Seq::<CatalogEntryView>::empty(),
        };
        let judged = cfg.verdict(total_size(catalog), stats->0, len);
        if judged is Admitted {
            (in_phase(s, Phase::Appending { len, resume }), plain(ActionView::Append))
        } else if entries is None {
            (s, plain(survey_in_full()))
        } else {
            match oldest_deletable(catalog) {
                Some(i) => (
                    s,
                    StepView {
                        action: ActionView::Delete { name: catalog[i].name },
                        notice: floor_notice(cfg, judged),
                    },
                ),
                None => if judged is OverCap {
                    (
                        in_phase(s, resumed(resume)),
                        plain(ActionView::Fail { error: WriteError::OutOfSpace }),
                    )
                } else {
                    (
                        in_phase(s, Phase::Appending { len, resume }),
                        StepView {
                            action: ActionView::Append,
                            notice: Some(Notice::LimitNotEnforced),
                        },
                    )
                },
            }
        }
    }
}

/// Whether the event tells the controller of a file that it takes over: the
/// controller waits for a file, the stamp and the serial number of the one
/// that is open are in order, and its name comes after the name of the current
/// file in the order of names.
pub open spec fn accepts_file(cfg: LogWriterConfig, s: ControllerState, event: EventView) -> bool {
    match event {
        EventView::Opened { stamp, serial, now } => s.phase is Opening && comes_next(
            cfg,
            s,
            stamp,
            serial,
        ),
        _ => false,
    }
}

/// Whether a file of this stamp and serial number may follow the current
/// file.
pub open spec fn comes_next(
    cfg: LogWriterConfig,
    s: ControllerState,
    stamp: Seq<char>,
    serial: u32,
) -> bool {
    &&& well_formed_stamp(stamp)
    &&& serial <= LAST_SERIAL
    &&& precedes(s.name, labelled_name(cfg.prefix@, stamp, serial, cfg.suffix@))
}

/// Whether the current file bears the name that its stamp and its serial
/// number give; before the first file there is no name and no stamp.
pub open spec fn named(cfg: LogWriterConfig, s: ControllerState) -> bool {
    if s.stamp.len() == 0 {
        s.name.len() == 0
    } else {
        &&& well_formed_stamp(s.stamp)
        &&& s.serial <= LAST_SERIAL
        &&& s.name == labelled_name(cfg.prefix@, s.stamp, s.serial, cfg.suffix@)
    }
}

/// A file is open with the given stamp and serial number. Where its name
/// comes after the name of the current file, the new file is the current file
/// from now on, and empty; a first file is followed by the count rule, where
/// the number of files is limited. Any other file is as good as taken: it
/// would not be the newest.
pub open spec fn opened(
    cfg: LogWriterConfig,
    s: ControllerState,
    pending: Option<usize>,
    tries: u8,
    stamp: Seq<char>,
    serial: u32,
    now: u64,
) -> (ControllerState, StepView) {
    let fresh = ControllerState {
        name: labelled_name(cfg.prefix@, stamp, serial, cfg.suffix@),
        stamp,
        serial,
        size: 0,
        opened_at: now,
        phase: s.phase,
    };
    if !comes_next(cfg, s, stamp, serial) {
        taken(s, pending, tries)
    } else if pending is None && cfg.max_file_count is Some {
        (in_phase(fresh, Phase::Cleaning { pending: None }), plain(survey_for_count()))
    } else {
        (in_phase(fresh, Phase::Announcing { pending }), plain(ActionView::Announce))
    }
}

/// The name for the next file is taken: the controller asks for the file
/// again, under the next serial number, and gives up after `OPEN_TRIES`
/// names.
pub open spec fn taken(s: ControllerState, pending: Option<usize>, tries: u8) -> (
    ControllerState,
    StepView,
) {
    if tries < OPEN_TRIES {
        (
            in_phase(s, Phase::Opening { pending, tries: (tries + 1) as u8 }),
            plain(ActionView::Open),
        )
    } else {
        (in_phase(s, Phase::Idle), plain(ActionView::Fail { error: WriteError::Io }))
    }
}

/// The hook after opening is over: the write that waited goes on to the space
/// rules, and the setting up of a first file is done.
pub open spec fn announced(cfg: LogWriterConfig, s: ControllerState, pending: Option<usize>) -> (
    ControllerState,
    StepView,
) {
    match pending {
        Some(len) => enter_admission(cfg, s, len, Resume::Idle),
        None => (in_phase(s, Phase::Idle), plain(ActionView::Finish { written: 0 })),
    }
}

/// The bytes are in the file: they count towards its size, and the write is
/// over. A report of more bytes than were to be written is out of turn.
pub open spec fn appended(s: ControllerState, len: usize, resume: Resume, written: usize) -> (
    ControllerState,
    StepView,
) {
    if written <= len {
        (
            ControllerState { size: grown(s.size, written), phase: resumed(resume), ..s },
            plain(ActionView::Finish { written }),
        )
    } else {
        out_of_turn(s)
    }
}

/// Work has failed: the write at hand fails with it. A write made at rest
/// leaves the controller at rest; a write made from within a hook leaves it
/// in that hook.
pub open spec fn failed(s: ControllerState) -> (ControllerState, StepView) {
    let back = match s.phase {
        Phase::Admitting { len, resume } => resumed(resume),
        Phase::Appending { len, resume } => resumed(resume),
        _ => Phase::Idle,
    };
    (in_phase(s, back), plain(ActionView::Fail { error: WriteError::Io }))
}

/// The answer to what was not asked for: nothing changes.
pub open spec fn out_of_turn(s: ControllerState) -> (ControllerState, StepView) {
    (s, plain(ActionView::Fail { error: WriteError::OutOfTurn }))
}

/// The controller's one rule: the state and the answer that follow from a
/// state and an event.
pub open spec fn transition(cfg: LogWriterConfig, s: ControllerState, event: EventView) -> (
    ControllerState,
    StepView,
) {
    match (s.phase, event) {
        (Phase::Idle, EventView::WriteRequested { len, now }) => begin_write(
            cfg,
            s,
            len,
            now,
            Resume::Idle,
        ),
        (Phase::Idle, _) => out_of_turn(s),
        (_, EventView::Failed) => failed(s),
        (Phase::Cleaning { pending }, EventView::Surveyed { entries, stats }) => clean(
            cfg,
            s,
            pending,
            entries,
        ),
        (Phase::Cleaning { pending }, EventView::Deleted) => (s, plain(survey_for_count())),
        (Phase::Cleaning { pending }, EventView::Vanished) => (s, plain(survey_for_count())),
        (Phase::Closing { len }, EventView::Closed) => (
            in_phase(s, Phase::Opening { pending: Some(len), tries: 0 }),
            plain(ActionView::Open),
        ),
        (Phase::Closing { len }, EventView::WriteRequested { len: nested, now }) => begin_write(
            cfg,
            s,
            nested,
            now,
            Resume::Closing { len },
        ),
        (Phase::Opening { pending, tries }, EventView::Opened { stamp, serial, now }) => opened(
            cfg,
            s,
            pending,
            tries,
            stamp,
            serial,
            now,
        ),
        (Phase::Opening { pending, tries }, EventView::Taken) => taken(s, pending, tries),
        (Phase::Announcing { pending }, EventView::Announced) => announced(cfg, s, pending),
        (Phase::Announcing { pending }, EventView::WriteRequested { len: nested, now }) => begin_write(
            cfg,
            s,
            nested,
            now,
            Resume::Announcing { pending },
        ),
        (Phase::Admitting { len, resume }, EventView::Surveyed { entries, stats }) => decide_admission(
            cfg,
            s,
            len,
            resume,
            entries,
            stats,
        ),
        (Phase::Admitting { len, resume }, EventView::Deleted) => (s, plain(survey_in_full())),
        (Phase::Admitting { len, resume }, EventView::Vanished) => (s, plain(survey_in_full())),
        (Phase::Appending { len, resume }, EventView::Appended { written }) => appended(
            s,
            len,
            resume,
            written,
        ),
        _ => out_of_turn(s),
    }
}

/// The state of a controller that has just been made: it waits for its first
/// file to be opened.
pub open spec fn initial_state() -> ControllerState {
    ControllerState {
        name: Seq::<char>::empty(),
        stamp: Seq::<char>::empty(),
        serial: 0,
        size: 0,
        opened_at: 0,
        phase: Phase::Opening { pending: None, tries: 0 },
    }
}

} // verus!
