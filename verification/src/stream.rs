//! The stream across the files: where the bytes of the writes end up, one file
//! after the other.

use crate::config::LogWriterConfig;
use crate::machine::{accepts_file, transition, ControllerState, EventView, Phase};
use crate::names::{lemma_precedes_transitive, precedes};
use vstd::prelude::*;

verus! {

/// One piece of the stream: so many bytes at the end of the file of this name.
pub struct Piece {
    pub file: Seq<char>,
    pub bytes: usize,
}

/// Whether the event tells a controller in this phase that bytes are in the
/// current file, be they those of a request or of a hook.
pub open spec fn appends_bytes(phase: Phase, event: EventView) -> bool {
    match (phase, event) {
        (Phase::Appending { len, resume }, EventView::Appended { written }) => written <= len,
        _ => false,
    }
}

/// The pieces that a run appends, in the order in which it appends them: each
/// with the name of the file that is current when it is appended.
pub open spec fn pieces(cfg: LogWriterConfig, s: ControllerState, events: Seq<EventView>) -> Seq<Piece>
    decreases events.len(),
{
    if events.len() == 0 {
        Seq::empty()
    } else {
        let later = pieces(cfg, transition(cfg, s, events[0]).0, events.drop_first());
        if appends_bytes(s.phase, events[0]) {
            seq![Piece { file: s.name, bytes: events[0]->written }] + later
        } else {
            later
        }
    }
}

/// The files of a run, in the order in which they are current: the file that
/// is current at its start, and the names under which files are opened in it.
pub open spec fn files(cfg: LogWriterConfig, s: ControllerState, events: Seq<EventView>) -> Seq<Seq<char>>
    decreases events.len(),
{
    if events.len() == 0 {
        seq![s.name]
    } else {
        let later = files(cfg, transition(cfg, s, events[0]).0, events.drop_first());
        if accepts_file(cfg, s, events[0]) {
            seq![s.name] + later
        } else {
            later
        }
    }
}

/// The pieces lie along the files: going through the files in their order and
/// never back, one finds the pieces in their order, each in the file whose name
/// it bears.
pub open spec fn laid_out(pieces: Seq<Piece>, files: Seq<Seq<char>>) -> bool
    decreases pieces.len() + files.len(),
{
    if pieces.len() == 0 {
        true
    } else if files.len() == 0 {
        false
    } else {
        ||| pieces[0].file == files[0] && laid_out(pieces.drop_first(), files)
        ||| laid_out(pieces, files.drop_first())
    }
}

/// The files of a run begin with the file that is current at its start.
proof fn lemma_files_begin_with_current(
    cfg: LogWriterConfig,
    s: ControllerState,
    events: Seq<EventView>,
)
    ensures
        files(cfg, s, events).len() > 0,
        files(cfg, s, events)[0] == s.name,
    decreases events.len(),
{
    if events.len() > 0 {
        let next = transition(cfg, s, events[0]).0;
        lemma_files_begin_with_current(cfg, next, events.drop_first());
        if !accepts_file(cfg, s, events[0]) {
            lemma_name_stays(cfg, s, events[0]);
        }
    }
}

/// The current file changes only when the file that was asked for is open.
proof fn lemma_name_stays(cfg: LogWriterConfig, s: ControllerState, event: EventView)
    requires
        !accepts_file(cfg, s, event),
    ensures
        transition(cfg, s, event).0.name == s.name,
{
}

/// The stream is written file after file, in the order in which the files
/// are opened: every piece goes to the end of the file that is current when it
/// is written, and no piece goes to a file that has been replaced. Read back
/// file by file in that order, the pieces come in the order in which they were
/// written.
pub proof fn lemma_pieces_follow_files(
    cfg: LogWriterConfig,
    s: ControllerState,
    events: Seq<EventView>,
)
    ensures
        laid_out(pieces(cfg, s, events), files(cfg, s, events)),
    decreases events.len(),
{
    if events.len() > 0 {
        let next = transition(cfg, s, events[0]).0;
        let rest = events.drop_first();
        let later_pieces = pieces(cfg, next, rest);
        let later_files = files(cfg, next, rest);
        lemma_pieces_follow_files(cfg, next, rest);
        lemma_files_begin_with_current(cfg, next, rest);
        if appends_bytes(s.phase, events[0]) {
            lemma_name_stays(cfg, s, events[0]);
            let now = pieces(cfg, s, events);
            assert(now.drop_first() =~= later_pieces);
            assert(now[0].file == later_files[0]);
        } else if accepts_file(cfg, s, events[0]) {
            let now = files(cfg, s, events);
            assert(now.drop_first() =~= later_files);
        }
    }
}

/// Each file of the sequence bears a name that comes after the name of the
/// file before it.
pub open spec fn rising(files: Seq<Seq<char>>) -> bool
    decreases files.len(),
{
    files.len() > 1 ==> precedes(files[0], files[1]) && rising(files.drop_first())
}

/// The files of a run bear rising names: the controller takes over no file
/// whose name does not come after the name of the current one. Two files of
/// one run never share a name, and the order of their names is the order in
/// which they were written.
pub proof fn lemma_files_rise(cfg: LogWriterConfig, s: ControllerState, events: Seq<EventView>)
    ensures
        rising(files(cfg, s, events)),
        forall|i: int, j: int|
            0 <= i < j < files(cfg, s, events).len() ==> precedes(
                #[trigger] files(cfg, s, events)[i],
                #[trigger] files(cfg, s, events)[j],
            ),
    decreases events.len(),
{
    if events.len() > 0 {
        let next = transition(cfg, s, events[0]).0;
        let rest = events.drop_first();
        let later = files(cfg, next, rest);
        lemma_files_rise(cfg, next, rest);
        lemma_files_begin_with_current(cfg, next, rest);
        if accepts_file(cfg, s, events[0]) {
            let now = files(cfg, s, events);
            assert(now.drop_first() =~= later);
            assert(now[1] == later[0]);
        }
    }
    lemma_rising_is_sorted(files(cfg, s, events));
}

/// In a sequence of rising names every name comes after all names before it.
pub proof fn lemma_rising_is_sorted(files: Seq<Seq<char>>)
    requires
        rising(files),
    ensures
        forall|i: int, j: int|
            0 <= i < j < files.len() ==> precedes(#[trigger] files[i], #[trigger] files[j]),
    decreases files.len(),
{
    if files.len() > 1 {
        let later = files.drop_first();
        lemma_rising_is_sorted(later);
        assert forall|i: int, j: int| 0 <= i < j < files.len() implies precedes(
            #[trigger] files[i],
            #[trigger] files[j],
        ) by {
            if i > 0 {
                assert(files[i] == later[i - 1] && files[j] == later[j - 1]);
            } else if j > 1 {
                assert(files[1] == later[0] && files[j] == later[j - 1]);
                lemma_precedes_transitive(files[0], files[1], files[j]);
            }
        }
    }
}

} // verus!
