//! What holds of every run of the controller.
//!
//! A run is a state and the events that the controller is told of, one after
//! the other. The laws speak of the run of one request: from the event that
//! makes it to the answer `Finish`.

use crate::catalog::{catalog_of, lemma_oldest_deletable_spares_current, DirEntryView};
use crate::config::LogWriterConfig;
use crate::machine::{
    accepts_file, begin_write, grown, named, transition, ActionView, ControllerState, EventView,
    Phase, Resume, WriteError,
};
use crate::policy::{lemma_tighter_is_smaller, share_of, tighter};
use vstd::prelude::*;

verus! {

/// The state after a run.
pub open spec fn run(cfg: LogWriterConfig, s: ControllerState, events: Seq<EventView>) -> ControllerState
    decreases events.len(),
{
    if events.len() == 0 {
        s
    } else {
        run(cfg, transition(cfg, s, events[0]).0, events.drop_first())
    }
}

/// How many files are opened in a run: the steps at which the controller
/// takes over the file that it is told of.
pub open spec fn openings(cfg: LogWriterConfig, s: ControllerState, events: Seq<EventView>) -> nat
    decreases events.len(),
{
    if events.len() == 0 {
        0
    } else {
        let here: nat = if accepts_file(cfg, s, events[0]) {
            1
        } else {
            0
        };
        here + openings(cfg, transition(cfg, s, events[0]).0, events.drop_first())
    }
}

/// The run serves the request that the controller is in the middle of: the
/// controller comes to rest at the last event and not before, and its last
/// answer is `Finish` with `written` bytes.
pub open spec fn serves(
    cfg: LogWriterConfig,
    s: ControllerState,
    events: Seq<EventView>,
    written: usize,
) -> bool
    decreases events.len(),
{
    &&& events.len() > 0
    &&& !(s.phase is Idle)
    &&& {
        let (next, answer) = transition(cfg, s, events[0]);
        if events.len() == 1 {
            next.phase is Idle && answer.action == (ActionView::Finish { written })
        } else {
            serves(cfg, next, events.drop_first(), written)
        }
    }
}

/// Whether the event is a write that the hook after opening makes.
pub open spec fn writes_after_opening(phase: Phase, event: EventView) -> bool {
    phase is Announcing && event is WriteRequested
}

/// The hook after opening writes nothing during the run; the hook before
/// closing may write.
pub open spec fn quiet_after_opening(
    cfg: LogWriterConfig,
    s: ControllerState,
    events: Seq<EventView>,
) -> bool
    decreases events.len(),
{
    events.len() > 0 ==> {
        &&& !writes_after_opening(s.phase, events[0])
        &&& quiet_after_opening(cfg, transition(cfg, s, events[0]).0, events.drop_first())
    }
}

/// How many files are still to be opened before a request in the given phase
/// is served.
pub open spec fn openings_ahead(phase: Phase) -> nat {
    match phase {
        Phase::Idle => 0,
        Phase::Cleaning { pending } => if pending is Some { 1 } else { 0 },
        Phase::Closing { len } => 1,
        Phase::Opening { pending, tries } => 1,
        Phase::Announcing { pending } => 0,
        Phase::Admitting { len, resume } => openings_ahead_of(resume),
        Phase::Appending { len, resume } => openings_ahead_of(resume),
    }
}

/// How many files are still to be opened once a nested write is over.
pub open spec fn openings_ahead_of(resume: Resume) -> nat {
    match resume {
        Resume::Idle => 0,
        Resume::Closing { len } => 1,
        Resume::Announcing { pending } => 0,
    }
}

/// The bytes that the request at top level brings, whatever a hook is
/// writing meanwhile; none where a first file is set up.
pub open spec fn bytes_at_hand(phase: Phase) -> Option<usize> {
    match phase {
        Phase::Idle => None,
        Phase::Cleaning { pending } => pending,
        Phase::Closing { len } => Some(len),
        Phase::Opening { pending, tries } => pending,
        Phase::Announcing { pending } => pending,
        Phase::Admitting { len, resume } => bytes_waiting(len, resume),
        Phase::Appending { len, resume } => bytes_waiting(len, resume),
    }
}

/// The bytes that the request at top level brings, seen from a write of `len`
/// bytes that resumes as given.
pub open spec fn bytes_waiting(len: usize, resume: Resume) -> Option<usize> {
    match resume {
        Resume::Idle => Some(len),
        Resume::Closing { len: outer } => Some(outer),
        Resume::Announcing { pending } => pending,
    }
}

/// Whether the phase is not one of a write that the hook after opening makes.
pub open spec fn clear_of_opening_hook(phase: Phase) -> bool {
    match phase {
        Phase::Admitting { len, resume } => !(resume is Announcing),
        Phase::Appending { len, resume } => !(resume is Announcing),
        _ => true,
    }
}

/// Whether the phase is one of a request at top level that is past all hooks:
/// it is held against the space limits or appended.
pub open spec fn past_hooks(phase: Phase) -> bool {
    match phase {
        Phase::Admitting { len, resume } => resume is Idle,
        Phase::Appending { len, resume } => resume is Idle,
        _ => false,
    }
}

/// Whether a file is still to be opened before the request of the phase is
/// served.
pub open spec fn before_opening(phase: Phase) -> bool {
    openings_ahead(phase) == 1
}

/// Every step leaves the current file with the name that its stamp and its
/// serial number give.
pub proof fn lemma_step_keeps_named(cfg: LogWriterConfig, s: ControllerState, event: EventView)
    requires
        named(cfg, s),
    ensures
        named(cfg, transition(cfg, s, event).0),
{
    crate::names::lemma_serial_digits_len(0, 6);
}

/// The controller never asks for the current file to be deleted: whatever the
/// state, the event and the configuration, a file that it wants deleted bears
/// another name than the file that is open for writing, before the step and
/// after it.
pub proof fn lemma_current_file_is_spared(cfg: LogWriterConfig, s: ControllerState, event: EventView)
    ensures
        transition(cfg, s, event).1.action matches ActionView::Delete { name } ==> name != s.name
            && name != transition(cfg, s, event).0.name,
{
    match (s.phase, event) {
        (Phase::Cleaning { pending }, EventView::Surveyed { entries: Some(listing), stats }) => {
            lemma_oldest_deletable_spares_current(
                catalog_of(listing, cfg.prefix@, cfg.suffix@, s.name),
            );
            lemma_catalog_marks_current(listing, cfg.prefix@, cfg.suffix@, s.name);
        },
        (Phase::Admitting { len, resume }, EventView::Surveyed { entries: Some(listing), stats }) => {
            lemma_oldest_deletable_spares_current(
                catalog_of(listing, cfg.prefix@, cfg.suffix@, s.name),
            );
            lemma_catalog_marks_current(listing, cfg.prefix@, cfg.suffix@, s.name);
        },
        _ => {},
    }
}

/// In a catalog the entries marked as current are those that bear the current
/// file's name, and every entry is one of the listing that belongs to the
/// writer.
pub proof fn lemma_catalog_marks_current(
    listing: Seq<DirEntryView>,
    prefix: Seq<char>,
    suffix: Seq<char>,
    current: Seq<char>,
)
    ensures
        forall|i: int|
            0 <= i < catalog_of(listing, prefix, suffix, current).len() ==> {
                let entry = #[trigger] catalog_of(listing, prefix, suffix, current)[i];
                &&& entry.is_current == (entry.name == current)
                &&& crate::names::matches_pattern(entry.name, prefix, suffix)
                &&& exists|k: int|
                    0 <= k < listing.len() && (#[trigger] listing[k]).name == entry.name
                        && listing[k].size == entry.size && crate::catalog::belongs(
                        listing[k],
                        prefix,
                        suffix,
                    )
            },
{
    let wanted = |e: DirEntryView| crate::catalog::belongs(e, prefix, suffix);
    let kept = listing.filter(wanted);
    let catalog = catalog_of(listing, prefix, suffix, current);
    assert forall|i: int| 0 <= i < catalog.len() implies {
        let entry = #[trigger] catalog[i];
        &&& entry.is_current == (entry.name == current)
        &&& crate::names::matches_pattern(entry.name, prefix, suffix)
        &&& exists|k: int|
            0 <= k < listing.len() && (#[trigger] listing[k]).name == entry.name && listing[k].size
                == entry.size && crate::catalog::belongs(listing[k], prefix, suffix)
    } by {
        listing.lemma_filter_pred(wanted, i);
        listing.lemma_filter_contains_rev(wanted, kept[i]);
        let k = choose|k: int| 0 <= k < listing.len() && listing[k] == kept[i];
        assert(listing[k].name == catalog[i].name);
    }
}

/// Whether `name` is the name of the oldest file of a catalog that may be
/// deleted: of a file that is not the current one, with no such file of an
/// older name.
pub open spec fn deletes_the_oldest(files: Seq<crate::catalog::CatalogEntryView>, name: Seq<char>) -> bool {
    &&& exists|i: int| 0 <= i < files.len() && (#[trigger] files[i]).name == name && !files[i].is_current
    &&& forall|j: int|
        0 <= j < files.len() && !(#[trigger] files[j]).is_current ==> !crate::names::precedes(
            files[j].name,
            name,
        )
}

/// Only the oldest goes: whenever the controller asks for a file to be
/// deleted, for the count or for space, it is the file of the oldest name in
/// the listing that it was told of, the current file left aside.
pub proof fn lemma_only_the_oldest_goes(cfg: LogWriterConfig, s: ControllerState, event: EventView)
    ensures
        transition(cfg, s, event).1.action matches ActionView::Delete { name } ==> event
            matches EventView::Surveyed { entries: Some(listing), stats } && deletes_the_oldest(
            catalog_of(listing, cfg.prefix@, cfg.suffix@, s.name),
            name,
        ),
{
    match event {
        EventView::Surveyed { entries: Some(listing), stats } => {
            lemma_oldest_deletable_spares_current(
                catalog_of(listing, cfg.prefix@, cfg.suffix@, s.name),
            );
        },
        _ => {},
    }
}

/// The count rule is the same wherever it is applied. When the controller is
/// told of a listing while it enforces the limit on the number of files, it
/// goes on, to replace the current file or to announce the first one, only if
/// the writer's files in that listing are fewer than the limit. Otherwise it
/// has a file of that listing deleted that is not the current one, or fails for
/// want of one.
pub proof fn lemma_count_is_enforced(
    cfg: LogWriterConfig,
    s: ControllerState,
    pending: Option<usize>,
    listing: Seq<DirEntryView>,
    stats: Option<crate::capacity::FsStats>,
    limit: u32,
)
    requires
        s.phase == (Phase::Cleaning { pending }),
        cfg.max_file_count == Some(limit),
    ensures
        ({
            let files = catalog_of(listing, cfg.prefix@, cfg.suffix@, s.name);
            let (next, answer) = transition(
                cfg,
                s,
                EventView::Surveyed { entries: Some(listing), stats },
            );
            &&& files.len() < limit <==> answer.action is Close || answer.action is Announce
            &&& answer.action is Close ==> pending is Some
            &&& answer.action is Announce ==> pending is None
            &&& answer.action is Close || answer.action is Announce || answer.action is Delete
                || answer.action == (ActionView::Fail { error: WriteError::OutOfSpace })
            &&& answer.action matches ActionView::Delete { name } ==> files.len() >= limit
                && deletes_the_oldest(files, name)
            &&& answer.action is Fail ==> files.len() >= limit && forall|i: int|
                0 <= i < files.len() ==> (#[trigger] files[i]).is_current
        }),
{
    let files = catalog_of(listing, cfg.prefix@, cfg.suffix@, s.name);
    lemma_oldest_deletable_spares_current(files);
}

/// Where both a cap in bytes and a cap as a share of the filesystem are set,
/// the files may occupy what the smaller of the two allows, whichever of them
/// is looked at first; and they are over the cap exactly when they are over one
/// of the two.
pub proof fn lemma_cap_is_the_smaller(cfg: LogWriterConfig, total_space: u64, used: nat)
    requires
        cfg.max_use_bytes is Some,
        cfg.max_use_of_total is Some,
    ensures
        ({
            let bytes = cfg.absolute_cap()->0;
            let shared = cfg.relative_cap(total_space)->0;
            &&& bytes == cfg.max_use_bytes->0
            &&& shared == share_of(total_space, cfg.max_use_of_total->0) - (if cfg.reserved
                is Some {
                cfg.reserved->0 as int
            } else {
                0
            })
            &&& cfg.occupancy_cap(total_space) == Some(if bytes <= shared { bytes } else { shared })
            &&& cfg.occupancy_cap(total_space) == tighter(
                cfg.relative_cap(total_space),
                cfg.absolute_cap(),
            )
            &&& cfg.over_cap(used, total_space) <==> (used > bytes || used > shared)
        }),
{
    lemma_tighter_is_smaller(cfg.absolute_cap()->0, cfg.relative_cap(total_space)->0, used);
}

/// One step of a request that is not yet served keeps the count of the files
/// that are opened and still to be opened.
proof fn lemma_step_keeps_openings(cfg: LogWriterConfig, s: ControllerState, event: EventView)
    requires
        !(s.phase is Idle),
    ensures
        ({
            let (next, answer) = transition(cfg, s, event);
            let here: nat = if accepts_file(cfg, s, event) {
                1
            } else {
                0
            };
            &&& !(next.phase is Idle) ==> here + openings_ahead(next.phase) == openings_ahead(
                s.phase,
            )
            &&& next.phase is Idle && answer.action is Finish ==> here == 0 && openings_ahead(
                s.phase,
            ) == 0
        }),
{
    match s.phase {
        Phase::Idle => {},
        Phase::Cleaning { pending } => {},
        Phase::Closing { len } => {},
        Phase::Opening { pending, tries } => {},
        Phase::Announcing { pending } => {},
        Phase::Admitting { len, resume } => {
            match resume {
                Resume::Idle => {},
                Resume::Closing { len } => {},
                Resume::Announcing { pending } => {},
            }
        },
        Phase::Appending { len, resume } => {
            match resume {
                Resume::Idle => {},
                Resume::Closing { len } => {},
                Resume::Announcing { pending } => {},
            }
        },
    }
}

/// A request is served with as many files opened as its phase has ahead of it,
/// hooks that write included: one while the current file is still to be
/// replaced, none after that.
pub proof fn lemma_openings_of_a_request(
    cfg: LogWriterConfig,
    s: ControllerState,
    events: Seq<EventView>,
    written: usize,
)
    requires
        serves(cfg, s, events, written),
    ensures
        openings(cfg, s, events) == openings_ahead(s.phase),
        run(cfg, s, events).phase is Idle,
    decreases events.len(),
{
    let (next, answer) = transition(cfg, s, events[0]);
    let rest = events.drop_first();
    lemma_step_keeps_openings(cfg, s, events[0]);
    if events.len() == 1 {
        assert(openings(cfg, next, rest) == 0);
        assert(run(cfg, next, rest) == next);
    } else {
        assert(!(next.phase is Idle)) by {
            reveal_with_fuel(serves, 2);
        }
        lemma_openings_of_a_request(cfg, next, rest, written);
    }
}

/// What one step of a request does to the current file when it is not a write
/// that the hook after opening makes.
proof fn lemma_step_keeps_size(cfg: LogWriterConfig, s: ControllerState, event: EventView)
    requires
        !(s.phase is Idle),
        clear_of_opening_hook(s.phase),
        !writes_after_opening(s.phase, event),
    ensures
        ({
            let (next, answer) = transition(cfg, s, event);
            &&& clear_of_opening_hook(next.phase)
            &&& past_hooks(s.phase) ==> past_hooks(next.phase) || next.phase is Idle
            &&& !(next.phase is Idle) ==> {
                &&& bytes_at_hand(next.phase) == bytes_at_hand(s.phase)
                &&& before_opening(next.phase) ==> before_opening(s.phase)
                &&& before_opening(s.phase) && !before_opening(next.phase) ==> next.size == 0
                &&& !before_opening(s.phase) ==> next.size == s.size && next.name == s.name
                    && next.opened_at == s.opened_at
            }
            &&& next.phase is Idle ==> (answer.action matches ActionView::Finish { written } ==> {
                &&& !before_opening(s.phase)
                &&& next.size == grown(s.size, written)
                &&& next.name == s.name
                &&& next.opened_at == s.opened_at
                &&& bytes_at_hand(s.phase) matches Some(len) ==> written <= len
                &&& bytes_at_hand(s.phase) is None ==> written == 0
            })
        }),
{
    match s.phase {
        Phase::Idle => {},
        Phase::Cleaning { pending } => {},
        Phase::Closing { len } => {},
        Phase::Opening { pending, tries } => {},
        Phase::Announcing { pending } => {},
        Phase::Admitting { len, resume } => {
            match resume {
                Resume::Idle => {},
                Resume::Closing { len } => {},
                Resume::Announcing { pending } => {},
            }
        },
        Phase::Appending { len, resume } => {
            match resume {
                Resume::Idle => {},
                Resume::Closing { len } => {},
                Resume::Announcing { pending } => {},
            }
        },
    }
}

/// What a request leaves behind when the hook after opening writes nothing,
/// whatever the hook before closing writes. No more bytes are written than the
/// request brought. Where a file was still to be opened, the current file
/// holds what the request wrote and nothing else. Where none was, the current
/// file is the same as before and has grown by what was written.
pub proof fn lemma_size_after_a_request(
    cfg: LogWriterConfig,
    s: ControllerState,
    events: Seq<EventView>,
    written: usize,
)
    requires
        serves(cfg, s, events, written),
        clear_of_opening_hook(s.phase),
        quiet_after_opening(cfg, s, events) || past_hooks(s.phase),
    ensures
        ({
            let end = run(cfg, s, events);
            &&& bytes_at_hand(s.phase) matches Some(len) ==> written <= len
            &&& bytes_at_hand(s.phase) is None ==> written == 0
            &&& before_opening(s.phase) ==> end.size == written
            &&& !before_opening(s.phase) ==> end.size == grown(s.size, written) && end.name
                == s.name && end.opened_at == s.opened_at
        }),
    decreases events.len(),
{
    let (next, answer) = transition(cfg, s, events[0]);
    let rest = events.drop_first();
    lemma_step_keeps_size(cfg, s, events[0]);
    if events.len() == 1 {
        assert(run(cfg, next, rest) == next);
    } else {
        assert(!(next.phase is Idle)) by {
            reveal_with_fuel(serves, 2);
        }
        lemma_size_after_a_request(cfg, next, rest, written);
    }
}

/// How many times the bytes of the request at top level are appended in a
/// run: the steps at which the controller, appending for a request that no hook
/// made, is told of no more bytes than it asked for.
pub open spec fn appendings(cfg: LogWriterConfig, s: ControllerState, events: Seq<EventView>) -> nat
    decreases events.len(),
{
    if events.len() == 0 {
        0
    } else {
        let here: nat = if appends_for_request(s.phase, events[0]) {
            1
        } else {
            0
        };
        here + appendings(cfg, transition(cfg, s, events[0]).0, events.drop_first())
    }
}

/// Whether the event tells a controller in this phase that the bytes of the
/// request at top level are in the file.
pub open spec fn appends_for_request(phase: Phase, event: EventView) -> bool {
    match (phase, event) {
        (Phase::Appending { len, resume }, EventView::Appended { written }) => resume is Idle
            && written <= len,
        _ => false,
    }
}

/// How many times the bytes of the request at top level are still to be
/// appended before a request in the given phase is served: once where the
/// request brings bytes, never where a first file is set up.
pub open spec fn appendings_ahead(phase: Phase) -> nat {
    match phase {
        Phase::Idle => 0,
        Phase::Cleaning { pending } => appendings_for(pending),
        Phase::Closing { len } => 1,
        Phase::Opening { pending, tries } => appendings_for(pending),
        Phase::Announcing { pending } => appendings_for(pending),
        Phase::Admitting { len, resume } => appendings_ahead_of(resume),
        Phase::Appending { len, resume } => appendings_ahead_of(resume),
    }
}

/// How many times the bytes of the request at top level are still to be
/// appended, seen from a write that resumes as given.
pub open spec fn appendings_ahead_of(resume: Resume) -> nat {
    match resume {
        Resume::Idle => 1,
        Resume::Closing { len } => 1,
        Resume::Announcing { pending } => appendings_for(pending),
    }
}

/// How many times bytes that wait are to be appended: once, and never where
/// none wait.
pub open spec fn appendings_for(pending: Option<usize>) -> nat {
    if pending is Some {
        1
    } else {
        0
    }
}

/// One step of a request that is not yet served keeps the count of the times
/// that its bytes are appended and still to be appended.
proof fn lemma_step_keeps_appendings(cfg: LogWriterConfig, s: ControllerState, event: EventView)
    requires
        !(s.phase is Idle),
    ensures
        ({
            let (next, answer) = transition(cfg, s, event);
            let here: nat = if appends_for_request(s.phase, event) {
                1
            } else {
                0
            };
            &&& !(next.phase is Idle) ==> here == 0 && appendings_ahead(next.phase)
                == appendings_ahead(s.phase)
            &&& next.phase is Idle && answer.action is Finish ==> here == appendings_ahead(s.phase)
                && next.name == s.name
        }),
{
    match s.phase {
        Phase::Idle => {},
        Phase::Cleaning { pending } => {},
        Phase::Closing { len } => {},
        Phase::Opening { pending, tries } => {},
        Phase::Announcing { pending } => {},
        Phase::Admitting { len, resume } => {
            match resume {
                Resume::Idle => {},
                Resume::Closing { len } => {},
                Resume::Announcing { pending } => {},
            }
        },
        Phase::Appending { len, resume } => {
            match resume {
                Resume::Idle => {},
                Resume::Closing { len } => {},
                Resume::Announcing { pending } => {},
            }
        },
    }
}

/// The bytes of a request that is served are appended exactly once, neither
/// dropped nor written twice, whatever the hooks do; a request that sets up a
/// first file appends nothing.
pub proof fn lemma_appendings_of_a_request(
    cfg: LogWriterConfig,
    s: ControllerState,
    events: Seq<EventView>,
    written: usize,
)
    requires
        serves(cfg, s, events, written),
    ensures
        appendings(cfg, s, events) == appendings_ahead(s.phase),
    decreases events.len(),
{
    let (next, answer) = transition(cfg, s, events[0]);
    let rest = events.drop_first();
    lemma_step_keeps_appendings(cfg, s, events[0]);
    if events.len() == 1 {
        assert(appendings(cfg, next, rest) == 0);
    } else {
        assert(!(next.phase is Idle)) by {
            reveal_with_fuel(serves, 2);
        }
        lemma_appendings_of_a_request(cfg, next, rest, written);
    }
}

/// A write that is served is appended exactly once.
pub proof fn lemma_write_is_appended_once(
    cfg: LogWriterConfig,
    s: ControllerState,
    len: usize,
    now: u64,
    rest: Seq<EventView>,
    written: usize,
)
    requires
        s.phase is Idle,
        serves(cfg, begin_write(cfg, s, len, now, Resume::Idle).0, rest, written),
    ensures
        appendings(cfg, transition(cfg, s, EventView::WriteRequested { len, now }).0, rest) == 1,
{
    lemma_appendings_of_a_request(cfg, begin_write(cfg, s, len, now, Resume::Idle).0, rest, written);
}

/// A write that finds the current file too full or too old is served with
/// exactly one file opened, whatever the hooks do. If the hook after opening
/// writes nothing, the new file then holds the bytes of this write and nothing
/// else, whatever the hook before closing wrote to the old file.
pub proof fn lemma_rotation_starts_afresh(
    cfg: LogWriterConfig,
    s: ControllerState,
    len: usize,
    now: u64,
    rest: Seq<EventView>,
    written: usize,
)
    requires
        s.phase is Idle,
        cfg.rotation_due(s.size, s.opened_at, len, now),
        serves(cfg, begin_write(cfg, s, len, now, Resume::Idle).0, rest, written),
    ensures
        ({
            let begun = begin_write(cfg, s, len, now, Resume::Idle).0;
            &&& begun == transition(cfg, s, EventView::WriteRequested { len, now }).0
            &&& openings(cfg, begun, rest) == 1
            &&& run(cfg, begun, rest).phase is Idle
            &&& quiet_after_opening(cfg, begun, rest) ==> run(cfg, begun, rest).size == written
                && written <= len
        }),
{
    let begun = begin_write(cfg, s, len, now, Resume::Idle).0;
    lemma_openings_of_a_request(cfg, begun, rest, written);
    if quiet_after_opening(cfg, begun, rest) {
        lemma_size_after_a_request(cfg, begun, rest, written);
    }
}

/// A write that finds room in the current file is served without a file
/// opened: the current file stays, grows by what was written, and is no larger
/// than the size limit afterwards.
pub proof fn lemma_write_within_the_file(
    cfg: LogWriterConfig,
    s: ControllerState,
    len: usize,
    now: u64,
    rest: Seq<EventView>,
    written: usize,
)
    requires
        s.phase is Idle,
        !cfg.rotation_due(s.size, s.opened_at, len, now),
        serves(cfg, begin_write(cfg, s, len, now, Resume::Idle).0, rest, written),
    ensures
        ({
            let begun = begin_write(cfg, s, len, now, Resume::Idle).0;
            let end = run(cfg, begun, rest);
            &&& begun == transition(cfg, s, EventView::WriteRequested { len, now }).0
            &&& openings(cfg, begun, rest) == 0
            &&& end.phase is Idle
            &&& end.name == s.name
            &&& written <= len
            &&& end.size == s.size + written
            &&& end.size <= cfg.max_file_size
        }),
{
    let begun = begin_write(cfg, s, len, now, Resume::Idle).0;
    lemma_openings_of_a_request(cfg, begun, rest, written);
    lemma_size_after_a_request(cfg, begun, rest, written);
}

/// Writes that each bring no more bytes than the size limit keep the current
/// file within the size limit: after such a write is served, with or without a
/// new file, the current file is no larger than the limit, whatever the hook
/// before closing writes, so long as the hook after opening writes nothing.
pub proof fn lemma_size_stays_within_limit(
    cfg: LogWriterConfig,
    s: ControllerState,
    len: usize,
    now: u64,
    rest: Seq<EventView>,
    written: usize,
)
    requires
        s.phase is Idle,
        len <= cfg.max_file_size,
        serves(cfg, begin_write(cfg, s, len, now, Resume::Idle).0, rest, written),
        quiet_after_opening(cfg, begin_write(cfg, s, len, now, Resume::Idle).0, rest),
    ensures
        run(cfg, transition(cfg, s, EventView::WriteRequested { len, now }).0, rest).size
            <= cfg.max_file_size,
{
    if cfg.rotation_due(s.size, s.opened_at, len, now) {
        lemma_rotation_starts_afresh(cfg, s, len, now, rest, written);
    } else {
        lemma_write_within_the_file(cfg, s, len, now, rest, written);
    }
}

/// Setting up a writer opens exactly one file; when that is done, the
/// controller is at rest with an empty current file.
pub proof fn lemma_start_opens_one_file(cfg: LogWriterConfig, events: Seq<EventView>, written: usize)
    requires
        serves(cfg, crate::machine::initial_state(), events, written),
    ensures
        openings(cfg, crate::machine::initial_state(), events) == 1,
        run(cfg, crate::machine::initial_state(), events).phase is Idle,
        quiet_after_opening(cfg, crate::machine::initial_state(), events) ==> run(
            cfg,
            crate::machine::initial_state(),
            events,
        ).size == 0,
{
    lemma_openings_of_a_request(cfg, crate::machine::initial_state(), events, written);
    if quiet_after_opening(cfg, crate::machine::initial_state(), events) {
        lemma_size_after_a_request(cfg, crate::machine::initial_state(), events, written);
    }
}

} // verus!
