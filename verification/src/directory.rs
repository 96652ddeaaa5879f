//! The directory under a controller that is obeyed: what holds of the number
//! of the writer's files when the directory changes only as the controller
//! asks.
//!
//! The directory is told as the sequence of its entries, sizes left out. It is
//! listed truly, gains a file only when the controller is told that the file it
//! asked for is open, and loses the file that the controller asked to be
//! deleted, and no other, when the controller is told of the deletion.

use crate::catalog::{belongs, catalog_of, DirEntryView, EntryKind};
use crate::config::LogWriterConfig;
use crate::laws::{lemma_current_file_is_spared, run, serves};
use crate::machine::{
    accepts_file, initial_state, transition, ActionView, ControllerState, EventView, Phase,
    Resume,
};
use crate::names::labelled_name;
use vstd::prelude::*;

verus! {

/// An entry without its size.
pub open spec fn sizeless(entry: DirEntryView) -> DirEntryView {
    DirEntryView { name: entry.name, size: 0, kind: entry.kind }
}

/// A listing as the directory that it shows.
pub open spec fn shown(listing: Seq<DirEntryView>) -> Seq<DirEntryView> {
    listing.map_values(|e: DirEntryView| sizeless(e))
}

/// How many entries of a directory are files of the writer.
pub open spec fn owned(cfg: LogWriterConfig, dir: Seq<DirEntryView>) -> nat {
    dir.filter(|e: DirEntryView| belongs(e, cfg.prefix@, cfg.suffix@)).len()
}

/// A directory without the entries of a given name.
pub open spec fn without(dir: Seq<DirEntryView>, name: Seq<char>) -> Seq<DirEntryView> {
    dir.filter(|e: DirEntryView| e.name != name)
}

/// A directory in which a file of a given name has been made: the file is new,
/// or it was there already.
pub open spec fn with_file(dir: Seq<DirEntryView>, name: Seq<char>) -> Seq<DirEntryView> {
    if holds(dir, name) {
        dir
    } else {
        dir.push(DirEntryView { name, size: 0, kind: EntryKind::File })
    }
}

/// Whether a directory holds an entry of the given name.
pub open spec fn holds(dir: Seq<DirEntryView>, name: Seq<char>) -> bool {
    exists|i: int| 0 <= i < dir.len() && (#[trigger] dir[i]).name == name
}

/// What an event says of the directory when the controller is obeyed; `asked`
/// is what the controller asked for last. A listing shows the directory as it
/// is. A file is made only where the controller asked for one and takes it
/// over. A deletion takes away the entries of the name that the controller
/// asked to be deleted. Nothing else changes the directory.
pub open spec fn obeyed(
    cfg: LogWriterConfig,
    s: ControllerState,
    asked: ActionView,
    before: Seq<DirEntryView>,
    event: EventView,
    after: Seq<DirEntryView>,
) -> bool {
    match event {
        EventView::Opened { stamp, serial, now } => asked is Open && accepts_file(cfg, s, event)
            && after == with_file(
            before,
            labelled_name(cfg.prefix@, stamp, serial, cfg.suffix@),
        ),
        EventView::Deleted => asked is Delete && after == without(before, asked->name),
        EventView::Surveyed { entries, stats } => after == before && (entries matches Some(
            listing,
        ) ==> shown(listing) == before),
        _ => after == before,
    }
}

/// A run in which the controller is obeyed: `asked` is what the controller
/// asked for last before the run, and `dirs` holds the directory before each
/// event and after the last.
pub open spec fn obeyed_throughout(
    cfg: LogWriterConfig,
    s: ControllerState,
    asked: ActionView,
    dirs: Seq<Seq<DirEntryView>>,
    events: Seq<EventView>,
) -> bool
    decreases events.len(),
{
    &&& dirs.len() == events.len() + 1
    &&& events.len() > 0 ==> {
        &&& obeyed(cfg, s, asked, dirs[0], events[0], dirs[1])
        &&& obeyed_throughout(
            cfg,
            transition(cfg, s, events[0]).0,
            transition(cfg, s, events[0]).1.action,
            dirs.drop_first(),
            events.drop_first(),
        )
    }
}

/// Whether the controller is still setting up the first file and has not yet
/// brought the directory within the limit.
pub open spec fn setting_up(phase: Phase) -> bool {
    match phase {
        Phase::Cleaning { pending } => pending is None,
        Phase::Opening { pending, tries } => pending is None,
        _ => false,
    }
}

/// Whether the phase is one of setting up the first file, the hook after
/// opening and what it writes included.
pub open spec fn starting(phase: Phase) -> bool {
    match phase {
        Phase::Cleaning { pending } => pending is None,
        Phase::Opening { pending, tries } => pending is None,
        Phase::Announcing { pending } => pending is None,
        Phase::Admitting { len, resume } => resume == (Resume::Announcing { pending: None }),
        Phase::Appending { len, resume } => resume == (Resume::Announcing { pending: None }),
        _ => false,
    }
}

/// The room that is needed while a file is announced: a first file leaves
/// room for one more, a later one fills the limit at most.
pub open spec fn has_room_announcing(pending: Option<usize>, count: nat, limit: u32) -> bool {
    if pending is None {
        count + 1 <= limit
    } else {
        count <= limit
    }
}

/// Whether a directory with `count` files of the writer has the room that the
/// phase needs under a limit of `limit` files: room for one more file while
/// the next file is about to be made and once the first file is set up, and no
/// more files than the limit otherwise. Nothing is asked while the first file
/// is made and the directory is brought within the limit.
pub open spec fn has_room(phase: Phase, count: nat, limit: u32) -> bool {
    match phase {
        Phase::Idle => count <= limit,
        Phase::Cleaning { pending } => pending is Some ==> count <= limit,
        Phase::Closing { len } => count + 1 <= limit,
        Phase::Opening { pending, tries } => pending is Some ==> count + 1 <= limit,
        Phase::Announcing { pending } => has_room_announcing(pending, count, limit),
        Phase::Admitting { len, resume } => has_room_after(resume, count, limit),
        Phase::Appending { len, resume } => has_room_after(resume, count, limit),
    }
}

/// The room that is needed once a write is over.
pub open spec fn has_room_after(resume: Resume, count: nat, limit: u32) -> bool {
    match resume {
        Resume::Idle => count <= limit,
        Resume::Closing { len } => count + 1 <= limit,
        Resume::Announcing { pending } => has_room_announcing(pending, count, limit),
    }
}

/// Whether the current file is in the directory, if there is one yet, and is
/// not the file that the controller asked to be deleted.
pub open spec fn current_is_safe(s: ControllerState, asked: ActionView, dir: Seq<DirEntryView>) -> bool {
    &&& s.name.len() > 0 ==> holds(dir, s.name)
    &&& asked matches ActionView::Delete { name } ==> name != s.name
}

/// A listing holds as many files of the writer as the directory that it shows,
/// and its catalog has one entry for each.
pub proof fn lemma_catalog_counts_owned(
    cfg: LogWriterConfig,
    listing: Seq<DirEntryView>,
    current: Seq<char>,
)
    ensures
        catalog_of(listing, cfg.prefix@, cfg.suffix@, current).len() == owned(cfg, shown(listing)),
    decreases listing.len(),
{
    reveal(Seq::filter);
    let wanted = |e: DirEntryView| belongs(e, cfg.prefix@, cfg.suffix@);
    if listing.len() > 0 {
        let rest = listing.drop_last();
        lemma_catalog_counts_owned(cfg, rest, current);
        assert(shown(listing).drop_last() =~= shown(rest));
        assert(shown(listing).last() == sizeless(listing.last()));
        assert(wanted(sizeless(listing.last())) == wanted(listing.last()));
    } else {
        assert(shown(listing) =~= Seq::<DirEntryView>::empty());
    }
}

/// Taking entries away leaves no more files of the writer than there were.
pub proof fn lemma_without_owns_no_more(
    cfg: LogWriterConfig,
    dir: Seq<DirEntryView>,
    name: Seq<char>,
)
    ensures
        owned(cfg, without(dir, name)) <= owned(cfg, dir),
    decreases dir.len(),
{
    reveal(Seq::filter);
    if dir.len() > 0 {
        let rest = dir.drop_last();
        lemma_without_owns_no_more(cfg, rest, name);
        let wanted = |e: DirEntryView| belongs(e, cfg.prefix@, cfg.suffix@);
        if dir.last().name != name {
            assert(without(dir, name) == without(rest, name).push(dir.last()));
            assert(without(dir, name).drop_last() =~= without(rest, name));
        }
    }
}

/// Making a file adds at most one file of the writer.
pub proof fn lemma_with_file_owns_one_more(
    cfg: LogWriterConfig,
    dir: Seq<DirEntryView>,
    name: Seq<char>,
)
    ensures
        owned(cfg, with_file(dir, name)) <= owned(cfg, dir) + 1,
{
    reveal(Seq::filter);
    let made = DirEntryView { name, size: 0, kind: EntryKind::File };
    assert(dir.push(made).drop_last() =~= dir);
}

/// A directory without the entries of one name still holds every other name.
pub proof fn lemma_without_keeps_others(dir: Seq<DirEntryView>, gone: Seq<char>, kept: Seq<char>)
    requires
        holds(dir, kept),
        kept != gone,
    ensures
        holds(without(dir, gone), kept),
    decreases dir.len(),
{
    reveal(Seq::filter);
    let i = choose|i: int| 0 <= i < dir.len() && (#[trigger] dir[i]).name == kept;
    let rest = dir.drop_last();
    let less = without(dir, gone);
    if i == dir.len() - 1 {
        assert(less == without(rest, gone).push(dir.last()));
        assert(less[less.len() - 1].name == kept);
    } else {
        assert(rest[i].name == kept);
        lemma_without_keeps_others(rest, gone, kept);
        let k = choose|k: int|
            0 <= k < without(rest, gone).len() && (#[trigger] without(rest, gone)[k]).name == kept;
        if dir.last().name != gone {
            assert(less == without(rest, gone).push(dir.last()));
            assert(less[k].name == kept);
        } else {
            assert(less[k].name == kept);
        }
    }
}

/// One step of a controller that is obeyed keeps the room that its phase
/// needs, unless it gives up setting up the first file; and setting up the
/// first file ends with room for one more.
proof fn lemma_step_keeps_room(
    cfg: LogWriterConfig,
    s: ControllerState,
    asked: ActionView,
    before: Seq<DirEntryView>,
    event: EventView,
    after: Seq<DirEntryView>,
    limit: u32,
)
    requires
        cfg.max_file_count == Some(limit),
        has_room(s.phase, owned(cfg, before), limit),
        obeyed(cfg, s, asked, before, event, after),
    ensures
        ({
            let (next, answer) = transition(cfg, s, event);
            &&& has_room(next.phase, owned(cfg, after), limit) || (setting_up(s.phase)
                && next.phase is Idle && answer.action is Fail)
            &&& !setting_up(s.phase) ==> !setting_up(next.phase)
            &&& starting(s.phase) ==> starting(next.phase) || next.phase is Idle
            &&& starting(s.phase) && next.phase is Idle && answer.action is Finish ==> owned(
                cfg,
                after,
            ) + 1 <= limit
        }),
{
    match event {
        EventView::Opened { stamp, serial, now } => {
            lemma_with_file_owns_one_more(
                cfg,
                before,
                labelled_name(cfg.prefix@, stamp, serial, cfg.suffix@),
            );
        },
        EventView::Deleted => {
            lemma_without_owns_no_more(cfg, before, asked->name);
        },
        EventView::Surveyed { entries, stats } => {
            if entries is Some {
                lemma_catalog_counts_owned(cfg, entries->0, s.name);
            }
        },
        _ => {},
    }
    match s.phase {
        Phase::Idle => {},
        Phase::Cleaning { pending } => {},
        Phase::Closing { len } => {},
        Phase::Opening { pending, tries } => {},
        Phase::Announcing { pending } => {},
        Phase::Admitting { len, resume } => {
            match resume {
                Resume::Idle => {},
                Resume::Closing { len } => {},
                Resume::Announcing { pending } => {},
            }
        },
        Phase::Appending { len, resume } => {
            match resume {
                Resume::Idle => {},
                Resume::Closing { len } => {},
                Resume::Announcing { pending } => {},
            }
        },
    }
}

/// One step of a controller that is obeyed leaves the current file in the
/// directory.
proof fn lemma_step_keeps_current(
    cfg: LogWriterConfig,
    s: ControllerState,
    asked: ActionView,
    before: Seq<DirEntryView>,
    event: EventView,
    after: Seq<DirEntryView>,
)
    requires
        current_is_safe(s, asked, before),
        obeyed(cfg, s, asked, before, event, after),
    ensures
        current_is_safe(transition(cfg, s, event).0, transition(cfg, s, event).1.action, after),
{
    let (next, answer) = transition(cfg, s, event);
    lemma_current_file_is_spared(cfg, s, event);
    match event {
        EventView::Opened { stamp, serial, now } => {
            let name = labelled_name(cfg.prefix@, stamp, serial, cfg.suffix@);
            if !holds(before, name) {
                let made = before.push(DirEntryView { name, size: 0, kind: EntryKind::File });
                assert(made[before.len() as int].name == name);
            }
        },
        EventView::Deleted => {
            if s.name.len() > 0 {
                lemma_without_keeps_others(before, asked->name, s.name);
            }
        },
        _ => {},
    }
}

/// When a file is replaced, the file that it replaces is still there: the
/// step at which the controller takes over the new file leaves both in the
/// directory. The old file may go later, for space.
pub proof fn lemma_opening_keeps_the_old_file(
    cfg: LogWriterConfig,
    s: ControllerState,
    asked: ActionView,
    before: Seq<DirEntryView>,
    event: EventView,
    after: Seq<DirEntryView>,
)
    requires
        event is Opened,
        obeyed(cfg, s, asked, before, event, after),
        holds(before, s.name),
    ensures
        holds(after, s.name),
        holds(after, transition(cfg, s, event).0.name),
        transition(cfg, s, event).0.name != s.name,
{
    let name = transition(cfg, s, event).0.name;
    crate::names::lemma_precedes_irreflexive(s.name);
    let i = choose|i: int| 0 <= i < before.len() && (#[trigger] before[i]).name == s.name;
    if !holds(before, name) {
        let made = before.push(DirEntryView { name, size: 0, kind: EntryKind::File });
        assert(made[before.len() as int].name == name);
        assert(made[i].name == s.name);
    }
}

/// Under a limit on the number of files, a directory that is within the limit
/// stays within it: through any run of a controller that is past setting up
/// and is obeyed, whatever is written and whatever fails, the directory has the
/// room that the phase needs. Whenever the controller is at rest, the writer
/// has no more files than the limit.
pub proof fn lemma_count_stays_within_limit(
    cfg: LogWriterConfig,
    s: ControllerState,
    asked: ActionView,
    dirs: Seq<Seq<DirEntryView>>,
    events: Seq<EventView>,
    limit: u32,
)
    requires
        cfg.max_file_count == Some(limit),
        !setting_up(s.phase),
        has_room(s.phase, owned(cfg, dirs[0]), limit),
        obeyed_throughout(cfg, s, asked, dirs, events),
    ensures
        !setting_up(run(cfg, s, events).phase),
        has_room(run(cfg, s, events).phase, owned(cfg, dirs.last()), limit),
        run(cfg, s, events).phase is Idle ==> owned(cfg, dirs.last()) <= limit,
    decreases events.len(),
{
    if events.len() > 0 {
        let (next, answer) = transition(cfg, s, events[0]);
        lemma_step_keeps_room(cfg, s, asked, dirs[0], events[0], dirs[1], limit);
        assert(dirs.drop_first()[0] == dirs[1]);
        lemma_count_stays_within_limit(
            cfg,
            next,
            answer.action,
            dirs.drop_first(),
            events.drop_first(),
            limit,
        );
        assert(dirs.drop_first().last() == dirs.last());
    }
}

/// Setting up a writer that is served by a controller that is obeyed leaves
/// fewer files than the limit, whatever the directory held before.
proof fn lemma_served_start_leaves_room(
    cfg: LogWriterConfig,
    s: ControllerState,
    asked: ActionView,
    dirs: Seq<Seq<DirEntryView>>,
    events: Seq<EventView>,
    written: usize,
    limit: u32,
)
    requires
        cfg.max_file_count == Some(limit),
        starting(s.phase),
        has_room(s.phase, owned(cfg, dirs[0]), limit),
        obeyed_throughout(cfg, s, asked, dirs, events),
        serves(cfg, s, events, written),
    ensures
        run(cfg, s, events).phase is Idle,
        owned(cfg, dirs.last()) + 1 <= limit,
    decreases events.len(),
{
    let (next, answer) = transition(cfg, s, events[0]);
    let rest = events.drop_first();
    lemma_step_keeps_room(cfg, s, asked, dirs[0], events[0], dirs[1], limit);
    assert(dirs.drop_first()[0] == dirs[1]);
    assert(dirs.drop_first().last() == dirs.last());
    if events.len() == 1 {
        assert(run(cfg, next, rest) == next);
    } else {
        assert(!(next.phase is Idle)) by {
            reveal_with_fuel(serves, 2);
        }
        lemma_served_start_leaves_room(
            cfg,
            next,
            answer.action,
            dirs.drop_first(),
            rest,
            written,
            limit,
        );
    }
}

/// Setting up a writer brings the directory below the limit: when the
/// controller has been obeyed and comes to rest with its first file set up, the
/// writer has fewer files than the limit, however many it had before.
pub proof fn lemma_start_brings_count_below_limit(
    cfg: LogWriterConfig,
    dirs: Seq<Seq<DirEntryView>>,
    events: Seq<EventView>,
    written: usize,
    limit: u32,
)
    requires
        cfg.max_file_count == Some(limit),
        obeyed_throughout(cfg, initial_state(), ActionView::Open, dirs, events),
        serves(cfg, initial_state(), events, written),
    ensures
        run(cfg, initial_state(), events).phase is Idle,
        owned(cfg, dirs.last()) + 1 <= limit,
{
    lemma_served_start_leaves_room(
        cfg,
        initial_state(),
        ActionView::Open,
        dirs,
        events,
        written,
        limit,
    );
}

/// The current file stays in the directory: through any run of a controller
/// that is obeyed, the file that is open for writing is there, from the moment
/// that the first file is made.
pub proof fn lemma_current_file_stays(
    cfg: LogWriterConfig,
    s: ControllerState,
    asked: ActionView,
    dirs: Seq<Seq<DirEntryView>>,
    events: Seq<EventView>,
)
    requires
        current_is_safe(s, asked, dirs[0]),
        obeyed_throughout(cfg, s, asked, dirs, events),
    ensures
        run(cfg, s, events).name.len() > 0 ==> holds(dirs.last(), run(cfg, s, events).name),
    decreases events.len(),
{
    if events.len() > 0 {
        let (next, answer) = transition(cfg, s, events[0]);
        lemma_step_keeps_current(cfg, s, asked, dirs[0], events[0], dirs[1]);
        assert(dirs.drop_first()[0] == dirs[1]);
        lemma_current_file_stays(cfg, next, answer.action, dirs.drop_first(), events.drop_first());
        assert(dirs.drop_first().last() == dirs.last());
    }
}

} // verus!
