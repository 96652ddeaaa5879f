//! The rotation controller that runs: it keeps the state of one writer and
//! answers each event with the next piece of work.

use crate::capacity::FsStats;
use crate::catalog::{
    find_oldest_deletable, list_matching, occupied_bytes, CatalogEntry, DirEntry,
};
use crate::config::{InvalidConfiguration, LogWriterConfig};
use crate::laws::lemma_current_file_is_spared;
use crate::machine::{
    initial_state, named, plain, transition, ActionView, ControllerState, EventView, Notice,
    Phase, Resume, StepView, WriteError, OPEN_TRIES,
};
use crate::names::{
    compose_labelled_name, is_stamp, lemma_next_label_rises, local_stamp, name_precedes,
    next_file_name, next_label, precedes, stampable, NextFile, LAST_SERIAL,
};
use crate::policy::{admission, needs_cleanup, needs_rotation, Admission};
use vstd::prelude::*;

verus! {

/// What the controller is told.
#[derive(Debug, PartialEq, Eq)]
pub enum Event {
    /// `len` bytes are to be written; the clock shows `now` milliseconds.
    WriteRequested { len: usize, now: u64 },
    /// The survey that was asked for: the entries of the target directory and
    /// the capacity of its filesystem, each as far as it was asked for.
    Surveyed { entries: Option<Vec<DirEntry>>, stats: Option<FsStats> },
    /// The file is deleted.
    Deleted,
    /// The file was gone before it could be deleted.
    Vanished,
    /// The hook before closing has run, and the file is flushed and closed.
    Closed,
    /// The file that `next_name` named is open, and was not there before; it
    /// has the given stamp and serial number. The clock shows `now`
    /// milliseconds.
    Opened { stamp: String, serial: u32, now: u64 },
    /// There is no name for the next file, or a file of that name is there
    /// already.
    Taken,
    /// The hook after opening has run.
    Announced,
    /// `written` of the bytes are appended to the current file.
    Appended { written: usize },
    /// The work that was asked for has failed, or a hook has.
    Failed,
}

impl View for Event {
    type V = EventView;

    open spec fn view(&self) -> EventView {
        match *self {
            Event::WriteRequested { len, now } => EventView::WriteRequested { len, now },
            Event::Surveyed { entries, stats } => EventView::Surveyed {
                entries: entries.deep_view(),
                stats,
            },
            Event::Deleted => EventView::Deleted,
            Event::Vanished => EventView::Vanished,
            Event::Closed => EventView::Closed,
            Event::Opened { stamp, serial, now } => EventView::Opened {
                stamp: stamp@,
                serial,
                now,
            },
            Event::Taken => EventView::Taken,
            Event::Announced => EventView::Announced,
            Event::Appended { written } => EventView::Appended { written },
            Event::Failed => EventView::Failed,
        }
    }
}

/// What the controller asks for.
#[derive(Debug, PartialEq, Eq)]
pub enum Action {
    /// List the target directory if `catalog` is set, read the capacity of its
    /// filesystem if `capacity` is set, and answer with `Surveyed`.
    Survey { catalog: bool, capacity: bool },
    /// Delete the file of this name in the target directory, and answer with
    /// `Deleted`, `Vanished` or `Failed`.
    Delete { name: String },
    /// Run the hook before closing, flush and close the current file, and
    /// answer with `Closed`.
    Close,
    /// Make and open the next file under the name that `next_name` gives, and
    /// answer with `Opened` and the stamp and the serial number of that name;
    /// where there is no name, or a file of that name is there already, answer
    /// with `Taken`.
    Open,
    /// Run the hook after opening, and answer with `Announced`.
    Announce,
    /// Append the bytes to the current file, and answer with `Appended`.
    Append,
    /// The request is served; `written` bytes went to the current file.
    Finish { written: usize },
    /// The request has failed.
    Fail { error: WriteError },
}

impl View for Action {
    type V = ActionView;

    open spec fn view(&self) -> ActionView {
        match *self {
            Action::Survey { catalog, capacity } => ActionView::Survey { catalog, capacity },
            Action::Delete { name } => ActionView::Delete { name: name@ },
            Action::Close => ActionView::Close,
            Action::Open => ActionView::Open,
            Action::Announce => ActionView::Announce,
            Action::Append => ActionView::Append,
            Action::Finish { written } => ActionView::Finish { written },
            Action::Fail { error } => ActionView::Fail { error },
        }
    }
}

/// One answer of the controller: the work to do next, and what to make known.
#[derive(Debug, PartialEq, Eq)]
pub struct Step {
    pub action: Action,
    pub notice: Option<Notice>,
}

impl View for Step {
    type V = StepView;

    open spec fn view(&self) -> StepView {
        StepView { action: self.action@, notice: self.notice }
    }
}

/// The rotation controller of one writer.
#[derive(Debug)]
pub struct RotationController {
    cfg: LogWriterConfig,
    name: String,
    stamp: String,
    serial: u32,
    size: usize,
    opened_at: u64,
    phase: Phase,
}

impl View for RotationController {
    type V = ControllerState;

    closed spec fn view(&self) -> ControllerState {
        ControllerState {
            name: self.name@,
            stamp: self.stamp@,
            serial: self.serial,
            size: self.size,
            opened_at: self.opened_at,
            phase: self.phase,
        }
    }
}

fn just(action: Action) -> (answer: Step)
    ensures
        answer@ == plain(action@),
{
    Step { action, notice: None }
}

fn refuse(error: WriteError) -> (answer: Step)
    ensures
        answer@ == plain(ActionView::Fail { error }),
{
    just(Action::Fail { error })
}

fn resumed(resume: Resume) -> (phase: Phase)
    ensures
        phase == crate::machine::resumed(resume),
{
    match resume {
        Resume::Idle => Phase::Idle,
        Resume::Closing { len } => Phase::Closing { len },
        Resume::Announcing { pending } => Phase::Announcing { pending },
    }
}

impl RotationController {
    /// The configuration that the controller was made with.
    pub closed spec fn config(&self) -> LogWriterConfig {
        self.cfg
    }

    /// Makes the controller of a writer with the given configuration. A
    /// configuration with a fault is refused. The controller starts by asking
    /// for its first file.
    pub fn new(cfg: LogWriterConfig) -> (made: Result<(RotationController, Step), InvalidConfiguration>)
        ensures
            made is Ok <==> cfg.valid(),
            made matches Ok((controller, first)) ==> controller.config() == cfg && controller@
                == initial_state() && first@ == plain(ActionView::Open) && named(
                cfg,
                controller@,
            ),
            made matches Err(fault) ==> cfg.fault() == Some(fault),
    {
        match cfg.validate() {
            Ok(()) => {
                let controller = RotationController {
                    cfg,
                    name: String::new(),
                    stamp: String::new(),
                    serial: 0,
                    size: 0,
                    opened_at: 0,
                    phase: Phase::Opening { pending: None, tries: 0 },
                };
                Ok((controller, just(Action::Open)))
            },
            Err(fault) => Err(fault),
        }
    }

    /// The limits that the controller keeps.
    pub fn configuration(&self) -> (cfg: &LogWriterConfig)
        ensures
            *cfg == self.config(),
    {
        &self.cfg
    }

    /// The name of the file that is open for writing.
    pub fn current_name(&self) -> (name: &String)
        ensures
            name@ == self@.name,
    {
        &self.name
    }

    /// The bytes written to the current file since it was opened.
    pub fn current_size(&self) -> (size: usize)
        ensures
            size == self@.size,
    {
        self.size
    }

    /// How many names were found taken while the file that is being made was
    /// asked for.
    pub open spec fn names_taken(phase: Phase) -> nat {
        match phase {
            Phase::Opening { pending, tries } => tries as nat,
            _ => 0,
        }
    }

    /// Names the next file, made at the given second of Unix time where the
    /// local time is `utc_offset` seconds east of UTC. The name carries the
    /// stamp of that second, or the stamp of the current file where the clock
    /// has not gone beyond it, and a serial number that passes over the names
    /// found taken. It always comes after the name of the current file. For a
    /// controller made by `new` and moved by `step` there is a name for every
    /// second that can be stamped, until the serial numbers of a stamp run
    /// out.
    pub fn next_name(&self, unix_seconds: u64, utc_offset: i32) -> (next: Option<NextFile>)
        ensures
            ({
                let label = match local_stamp(unix_seconds, utc_offset) {
                    Some(fresh) => next_label(
                        self@.stamp,
                        self@.serial,
                        fresh,
                        Self::names_taken(self@.phase),
                    ),
                    None => None,
                };
                let (stamp, serial) = match label {
                    Some(pair) => pair,
                    None => (self@.stamp, self@.serial),
                };
                let name = crate::names::labelled_name(
                    self.config().prefix@,
                    stamp,
                    serial,
                    self.config().suffix@,
                );
                &&& next is Some <==> label is Some && precedes(self@.name, name)
                &&& next matches Some(file) ==> file.stamp@ == stamp && file.serial == serial
                    && file.name@ == name
                &&& named(self.config(), self@) && label is Some ==> next is Some
                &&& named(self.config(), self@) && stampable(unix_seconds, utc_offset)
                    && self@.serial + 1 + Self::names_taken(self@.phase) <= LAST_SERIAL
                    ==> next is Some
            }),
    {
        let skip: u32 = match self.phase {
            Phase::Opening { pending, tries } => tries as u32,
            _ => 0,
        };
        let next = next_file_name(
            self.cfg.prefix.as_str(),
            self.cfg.suffix.as_str(),
            self.stamp.as_str(),
            self.serial,
            skip,
            unix_seconds,
            utc_offset,
        );
        proof {
            let fresh = local_stamp(unix_seconds, utc_offset);
            if fresh is Some && named(self.config(), self@) {
                let label = next_label(self@.stamp, self@.serial, fresh->0, skip as nat);
                if label is Some {
                    let (stamp, serial) = label->0;
                    crate::names::lemma_serial_digits_len(serial as nat, 6);
                    if self@.stamp.len() > 0 {
                        lemma_next_label_rises(
                            self.config().prefix@,
                            self.config().suffix@,
                            self@.stamp,
                            self@.serial,
                            fresh->0,
                            skip as nat,
                        );
                    }
                }
            }
        }
        match next {
            Some(file) => if name_precedes(self.name.as_str(), file.name.as_str()) {
                Some(file)
            } else {
                None
            },
            None => None,
        }
    }

    /// When the current file was opened, in milliseconds.
    pub fn opened_at(&self) -> (at: u64)
        ensures
            at == self@.opened_at,
    {
        self.opened_at
    }

    /// What the controller is in the middle of.
    pub fn phase(&self) -> (phase: Phase)
        ensures
            phase == self@.phase,
    {
        self.phase
    }

    /// Takes the controller one step: it is told of `event`, changes its state
    /// and answers with the work to do next, both as `transition` says. It
    /// never asks for the current file to be deleted.
    pub fn step(&mut self, event: Event) -> (answer: Step)
        ensures
            final(self).config() == old(self).config(),
            (final(self)@, answer@) == transition(old(self).config(), old(self)@, event@),
            answer@.action matches ActionView::Delete { name } ==> name != old(self)@.name && name
                != final(self)@.name,
            named(old(self).config(), old(self)@) ==> named(final(self).config(), final(self)@),
    {
        proof {
            if named(self.config(), self@) {
                crate::laws::lemma_step_keeps_named(self.config(), self@, event@);
            }
        }
        proof {
            lemma_current_file_is_spared(self.config(), self@, event@);
        }
        let phase = self.phase;
        match event {
            Event::WriteRequested { len, now } => match phase {
                Phase::Idle => self.begin_write(len, now, Resume::Idle),
                Phase::Closing { len: outer } => self.begin_write(
                    len,
                    now,
                    Resume::Closing { len: outer },
                ),
                Phase::Announcing { pending } => self.begin_write(
                    len,
                    now,
                    Resume::Announcing { pending },
                ),
                _ => refuse(WriteError::OutOfTurn),
            },
            Event::Failed => match phase {
                Phase::Idle => refuse(WriteError::OutOfTurn),
                Phase::Admitting { len, resume } => {
                    self.phase = resumed(resume);
                    refuse(WriteError::Io)
                },
                Phase::Appending { len, resume } => {
                    self.phase = resumed(resume);
                    refuse(WriteError::Io)
                },
                _ => {
                    self.phase = Phase::Idle;
                    refuse(WriteError::Io)
                },
            },
            Event::Surveyed { entries, stats } => match phase {
                Phase::Cleaning { pending } => self.clean(pending, entries),
                Phase::Admitting { len, resume } => self.decide_admission(len, resume, entries, stats),
                _ => refuse(WriteError::OutOfTurn),
            },
            Event::Deleted | Event::Vanished => match phase {
                Phase::Cleaning { pending } => just(Action::Survey { catalog: true, capacity: false }),
                Phase::Admitting { len, resume } => just(
                    Action::Survey { catalog: true, capacity: true },
                ),
                _ => refuse(WriteError::OutOfTurn),
            },
            Event::Closed => match phase {
                Phase::Closing { len } => {
                    self.phase = Phase::Opening { pending: Some(len), tries: 0 };
                    just(Action::Open)
                },
                _ => refuse(WriteError::OutOfTurn),
            },
            Event::Opened { stamp, serial, now } => match phase {
                Phase::Opening { pending, tries } => {
                    if !is_stamp(stamp.as_str()) || serial > LAST_SERIAL {
                        return self.taken(pending, tries);
                    }
                    let name = compose_labelled_name(
                        self.cfg.prefix.as_str(),
                        stamp.as_str(),
                        serial,
                        self.cfg.suffix.as_str(),
                    );
                    if !name_precedes(self.name.as_str(), name.as_str()) {
                        self.taken(pending, tries)
                    } else {
                        self.name = name;
                        self.stamp = stamp;
                        self.serial = serial;
                        self.size = 0;
                        self.opened_at = now;
                        if pending.is_none() && self.cfg.max_file_count.is_some() {
                            self.phase = Phase::Cleaning { pending: None };
                            just(Action::Survey { catalog: true, capacity: false })
                        } else {
                            self.phase = Phase::Announcing { pending };
                            just(Action::Announce)
                        }
                    }
                },
                _ => refuse(WriteError::OutOfTurn),
            },
            Event::Taken => match phase {
                Phase::Opening { pending, tries } => self.taken(pending, tries),
                _ => refuse(WriteError::OutOfTurn),
            },
            Event::Announced => match phase {
                Phase::Announcing { pending } => match pending {
                    Some(len) => self.enter_admission(len, Resume::Idle),
                    None => {
                        self.phase = Phase::Idle;
                        just(Action::Finish { written: 0 })
                    },
                },
                _ => refuse(WriteError::OutOfTurn),
            },
            Event::Appended { written } => match phase {
                Phase::Appending { len, resume } => {
                    if written <= len {
                        self.size = if written > usize::MAX - self.size {
                            usize::MAX
                        } else {
                            self.size + written
                        };
                        self.phase = resumed(resume);
                        just(Action::Finish { written })
                    } else {
                        refuse(WriteError::OutOfTurn)
                    }
                },
                _ => refuse(WriteError::OutOfTurn),
            },
        }
    }

    fn taken(&mut self, pending: Option<usize>, tries: u8) -> (answer: Step)
        ensures
            final(self).config() == old(self).config(),
            (final(self)@, answer@) == crate::machine::taken(old(self)@, pending, tries),
    {
        if tries < OPEN_TRIES {
            self.phase = Phase::Opening { pending, tries: tries + 1 };
            just(Action::Open)
        } else {
            self.phase = Phase::Idle;
            refuse(WriteError::Io)
        }
    }

    fn begin_write(&mut self, len: usize, now: u64, resume: Resume) -> (answer: Step)
        ensures
            final(self).config() == old(self).config(),
            (final(self)@, answer@) == crate::machine::begin_write(
                old(self).config(),
                old(self)@,
                len,
                now,
                resume,
            ),
    {
        if needs_rotation(&self.cfg, self.size, self.opened_at, len, now) {
            match resume {
                Resume::Idle => {
                    if self.cfg.max_file_count.is_some() {
                        self.phase = Phase::Cleaning { pending: Some(len) };
                        just(Action::Survey { catalog: true, capacity: false })
                    } else {
                        self.phase = Phase::Closing { len };
                        just(Action::Close)
                    }
                },
                _ => refuse(WriteError::NestedRotation),
            }
        } else {
            self.enter_admission(len, resume)
        }
    }

    fn enter_admission(&mut self, len: usize, resume: Resume) -> (answer: Step)
        ensures
            final(self).config() == old(self).config(),
            (final(self)@, answer@) == crate::machine::enter_admission(
                old(self).config(),
                old(self)@,
                len,
                resume,
            ),
    {
        let caps_use = self.cfg.max_use_bytes.is_some() || self.cfg.max_use_of_total.is_some();
        let keeps_floor = self.cfg.min_avail_bytes.is_some()
            || self.cfg.min_avail_of_total.is_some();
        if caps_use || keeps_floor {
            self.phase = Phase::Admitting { len, resume };
            just(Action::Survey { catalog: caps_use, capacity: true })
        } else {
            self.phase = Phase::Appending { len, resume };
            just(Action::Append)
        }
    }

    fn clean(&mut self, pending: Option<usize>, entries: Option<Vec<DirEntry>>) -> (answer: Step)
        ensures
            final(self).config() == old(self).config(),
            (final(self)@, answer@) == crate::machine::clean(
                old(self).config(),
                old(self)@,
                pending,
                entries.deep_view(),
            ),
    {
        let listing = match entries {
            Some(listing) => listing,
            None => {
                return just(Action::Survey { catalog: true, capacity: false });
            },
        };
        let catalog = list_matching(
            &listing,
            self.cfg.prefix.as_str(),
            self.cfg.suffix.as_str(),
            &self.name,
        );
        if needs_cleanup(&self.cfg, catalog.len()) {
            match find_oldest_deletable(&catalog) {
                Some(i) => just(Action::Delete { name: catalog[i].name.clone() }),
                None => {
                    self.phase = Phase::Idle;
                    refuse(WriteError::OutOfSpace)
                },
            }
        } else {
            match pending {
                Some(len) => {
                    self.phase = Phase::Closing { len };
                    just(Action::Close)
                },
                None => {
                    self.phase = Phase::Announcing { pending: None };
                    just(Action::Announce)
                },
            }
        }
    }

    fn decide_admission(
        &mut self,
        len: usize,
        resume: Resume,
        entries: Option<Vec<DirEntry>>,
        stats: Option<FsStats>,
    ) -> (answer: Step)
        ensures
            final(self).config() == old(self).config(),
            (final(self)@, answer@) == crate::machine::decide_admission(
                old(self).config(),
                old(self)@,
                len,
                resume,
                entries.deep_view(),
                stats,
            ),
    {
        let caps_use = self.cfg.max_use_bytes.is_some() || self.cfg.max_use_of_total.is_some();
        let stats = match stats {
            Some(stats) => stats,
            None => {
                return just(Action::Survey { catalog: caps_use, capacity: true });
            },
        };
        if caps_use && entries.is_none() {
            return just(Action::Survey { catalog: caps_use, capacity: true });
        }
        let listed = entries.is_some();
        let catalog: Vec<CatalogEntry> = match entries {
            Some(listing) => list_matching(
                &listing,
                self.cfg.prefix.as_str(),
                self.cfg.suffix.as_str(),
                &self.name,
            ),
            None => Vec::new(),
        };
        let judged = admission(&self.cfg, occupied_bytes(&catalog), &stats, len);
        match judged {
            Admission::Admitted => {
                self.phase = Phase::Appending { len, resume };
                just(Action::Append)
            },
            _ => {
                if !listed {
                    return just(Action::Survey { catalog: true, capacity: true });
                }
                match find_oldest_deletable(&catalog) {
                    Some(i) => {
                        let floor_broken = match judged {
                            Admission::BelowFloor => true,
                            _ => false,
                        };
                        let notice = if floor_broken && self.cfg.warn_if_avail_reached {
                            Some(Notice::FloorReached)
                        } else {
                            None
                        };
                        Step { action: Action::Delete { name: catalog[i].name.clone() }, notice }
                    },
                    None => match judged {
                        Admission::OverCap => {
                            self.phase = resumed(resume);
                            refuse(WriteError::OutOfSpace)
                        },
                        _ => {
                            self.phase = Phase::Appending { len, resume };
                            Step { action: Action::Append, notice: Some(Notice::LimitNotEnforced) }
                        },
                    },
                }
            },
        }
    }
}

} // verus!
