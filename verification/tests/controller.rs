use log_writer::capacity::FsStats;
use log_writer::catalog::{DirEntry, EntryKind};
use log_writer::config::{InvalidConfiguration, LogWriterConfig};
use log_writer::controller::{Action, Event, RotationController, Step};
use log_writer::machine::{Notice, Phase, Resume, WriteError};

/// A directory in memory, with a clock and a counter that stands for time
/// stamps in file names.
struct Disk {
    files: Vec<(String, Vec<u8>)>,
    current: String,
    stats: FsStats,
    clock: u64,
    wall: u64,
    deleted: Vec<String>,
    notices: Vec<Notice>,
    surveys: Vec<(bool, bool)>,
    header: Vec<u8>,
    footer: Vec<u8>,
}

fn disk() -> Disk {
    Disk {
        files: Vec::new(),
        current: String::new(),
        stats: FsStats {
            free_space: 1_000_000,
            available_space: 1_000_000,
            total_space: 10_000_000,
            allocation_granularity: 4096,
        },
        clock: 0,
        wall: 1_700_000_000,
        deleted: Vec::new(),
        notices: Vec::new(),
        surveys: Vec::new(),
        header: Vec::new(),
        footer: Vec::new(),
    }
}

fn config() -> LogWriterConfig {
    LogWriterConfig {
        target_dir: "logs".to_string(),
        prefix: "test-".to_string(),
        suffix: ".txt".to_string(),
        max_file_size: 10,
        max_file_age: None,
        max_file_count: None,
        max_use_bytes: None,
        max_use_of_total: None,
        reserved: None,
        min_avail_bytes: None,
        min_avail_of_total: None,
        warn_if_avail_reached: false,
    }
}

fn listing(disk: &Disk) -> Vec<DirEntry> {
    let mut entries = Vec::new();
    for (name, bytes) in disk.files.iter().rev() {
        entries.push(DirEntry { name: name.clone(), size: bytes.len() as u64, kind: EntryKind::File });
    }
    entries
}

fn names(disk: &Disk) -> Vec<String> {
    let mut names: Vec<String> = disk.files.iter().map(|(name, _)| name.clone()).collect();
    names.sort();
    names
}

fn contents(disk: &Disk, name: &str) -> Vec<u8> {
    for (have, bytes) in disk.files.iter() {
        if have == name {
            return bytes.clone();
        }
    }
    panic!("no file {}", name);
}

fn append(disk: &mut Disk, bytes: &[u8]) {
    let current = disk.current.clone();
    for (name, have) in disk.files.iter_mut() {
        if *name == current {
            have.extend_from_slice(bytes);
        }
    }
}

/// Does what the controller asks for until the request is served or fails.
fn serve(ctl: &mut RotationController, disk: &mut Disk, first: Step, bytes: &[u8]) -> Result<usize, WriteError> {
    let mut step = first;
    loop {
        if let Some(notice) = step.notice {
            disk.notices.push(notice);
        }
        let event = match step.action {
            Action::Survey { catalog, capacity } => {
                disk.surveys.push((catalog, capacity));
                Event::Surveyed {
                    entries: if catalog { Some(listing(disk)) } else { None },
                    stats: if capacity { Some(disk.stats) } else { None },
                }
            }
            Action::Delete { name } => {
                let before = disk.files.len();
                disk.files.retain(|(have, _)| *have != name);
                if disk.files.len() < before {
                    disk.deleted.push(name);
                    Event::Deleted
                } else {
                    Event::Vanished
                }
            }
            Action::Close => {
                if !disk.footer.is_empty() {
                    let footer = disk.footer.clone();
                    let now = disk.clock;
                    let nested = ctl.step(Event::WriteRequested { len: footer.len(), now });
                    if serve(ctl, disk, nested, &footer).is_err() {
                        step = ctl.step(Event::Failed);
                        continue;
                    }
                }
                Event::Closed
            }
            Action::Open => match ctl.next_name(disk.wall, 0) {
                Some(next) if !disk.files.iter().any(|(have, _)| *have == next.name) => {
                    disk.files.push((next.name.clone(), Vec::new()));
                    disk.current = next.name;
                    Event::Opened { stamp: next.stamp, serial: next.serial, now: disk.clock }
                }
                _ => Event::Taken,
            },
            Action::Announce => {
                if !disk.header.is_empty() {
                    let header = disk.header.clone();
                    let now = disk.clock;
                    let nested = ctl.step(Event::WriteRequested { len: header.len(), now });
                    if serve(ctl, disk, nested, &header).is_err() {
                        step = ctl.step(Event::Failed);
                        continue;
                    }
                }
                Event::Announced
            }
            Action::Append => {
                append(disk, bytes);
                Event::Appended { written: bytes.len() }
            }
            Action::Finish { written } => return Ok(written),
            Action::Fail { error } => return Err(error),
        };
        step = ctl.step(event);
    }
}

fn start(cfg: LogWriterConfig, disk: &mut Disk) -> RotationController {
    let (mut ctl, first) = RotationController::new(cfg).unwrap();
    assert_eq!(serve(&mut ctl, disk, first, b""), Ok(0));
    ctl
}

fn write(ctl: &mut RotationController, disk: &mut Disk, bytes: &[u8]) -> Result<usize, WriteError> {
    let first = ctl.step(Event::WriteRequested { len: bytes.len(), now: disk.clock });
    serve(ctl, disk, first, bytes)
}

fn opened(serial: u32, now: u64) -> Event {
    Event::Opened { stamp: "2023-11-14-22-13-20".to_string(), serial, now }
}

fn numbered(serial: u32) -> String {
    format!("test-2023-11-14-22-13-20-{:06}.txt", serial)
}

fn just(action: Action) -> Step {
    Step { action, notice: None }
}

#[test]
fn new_controller_asks_for_its_first_file() {
    let (ctl, first) = RotationController::new(config()).unwrap();
    assert_eq!(first, just(Action::Open));
    assert_eq!(ctl.phase(), Phase::Opening { pending: None, tries: 0 });
    assert_eq!(ctl.current_size(), 0);
    assert_eq!(ctl.current_name(), "");
    assert_eq!(*ctl.configuration(), config());
}

#[test]
fn faulty_configuration_makes_no_controller() {
    let mut cfg = config();
    cfg.max_file_count = Some(0);
    assert_eq!(RotationController::new(cfg).err(), Some(InvalidConfiguration::MaxFileCount));
    let mut cfg = config();
    cfg.prefix = "a/b".to_string();
    assert_eq!(RotationController::new(cfg).err(), Some(InvalidConfiguration::Prefix));
}

#[test]
fn start_opens_one_file_and_comes_to_rest() {
    let mut disk = disk();
    let ctl = start(config(), &mut disk);
    assert_eq!(ctl.phase(), Phase::Idle);
    assert_eq!(names(&disk), vec!["test-2023-11-14-22-13-20-000000.txt"]);
    assert_eq!(ctl.current_name(), "test-2023-11-14-22-13-20-000000.txt");
    assert_eq!(ctl.current_size(), 0);
    assert!(disk.surveys.is_empty());
}

#[test]
fn write_one_line() {
    let mut disk = disk();
    let mut cfg = config();
    cfg.prefix = "test".to_string();
    cfg.suffix = ".txt".to_string();
    cfg.max_file_size = 4096;
    cfg.min_avail_bytes = Some(8192);
    let mut ctl = start(cfg, &mut disk);
    let line = b"logwriter-integration-test: one line\n";
    assert_eq!(write(&mut ctl, &mut disk, line), Ok(line.len()));
    assert_eq!(names(&disk).len(), 1);
    assert_eq!(contents(&disk, "test2023-11-14-22-13-20-000000.txt"), line.to_vec());
    assert_eq!(ctl.current_size(), line.len());
    assert_eq!(disk.surveys, vec![(false, true)]);
    assert!(disk.notices.is_empty());
}

#[test]
fn second_write_that_passes_the_size_limit_goes_to_a_second_file() {
    let mut disk = disk();
    let mut ctl = start(config(), &mut disk);
    assert_eq!(write(&mut ctl, &mut disk, b"12345"), Ok(5));
    assert_eq!(ctl.current_size(), 5);
    assert_eq!(write(&mut ctl, &mut disk, b"67890AB"), Ok(7));
    assert_eq!(names(&disk), vec!["test-2023-11-14-22-13-20-000000.txt", "test-2023-11-14-22-13-20-000001.txt"]);
    assert_eq!(contents(&disk, "test-2023-11-14-22-13-20-000000.txt"), b"12345".to_vec());
    assert_eq!(contents(&disk, "test-2023-11-14-22-13-20-000001.txt"), b"67890AB".to_vec());
    assert_eq!(ctl.current_name(), "test-2023-11-14-22-13-20-000001.txt");
    assert_eq!(ctl.current_size(), 7);
}

#[test]
fn writes_that_fit_stay_in_the_file_and_within_the_limit() {
    let mut disk = disk();
    let mut ctl = start(config(), &mut disk);
    assert_eq!(write(&mut ctl, &mut disk, b"1234"), Ok(4));
    assert_eq!(write(&mut ctl, &mut disk, b"5678"), Ok(4));
    assert_eq!(write(&mut ctl, &mut disk, b"90"), Ok(2));
    assert_eq!(ctl.current_size(), 10);
    assert_eq!(names(&disk), vec!["test-2023-11-14-22-13-20-000000.txt"]);
    assert_eq!(write(&mut ctl, &mut disk, b"A"), Ok(1));
    assert_eq!(ctl.current_size(), 1);
    assert_eq!(names(&disk), vec!["test-2023-11-14-22-13-20-000000.txt", "test-2023-11-14-22-13-20-000001.txt"]);
}

#[test]
fn write_larger_than_the_limit_gets_a_file_of_its_own() {
    let mut disk = disk();
    let mut ctl = start(config(), &mut disk);
    assert_eq!(write(&mut ctl, &mut disk, b"0123456789ABCDEF"), Ok(16));
    assert_eq!(ctl.current_size(), 16);
    assert_eq!(contents(&disk, "test-2023-11-14-22-13-20-000000.txt"), Vec::<u8>::new());
    assert_eq!(contents(&disk, "test-2023-11-14-22-13-20-000001.txt"), b"0123456789ABCDEF".to_vec());
}

#[test]
fn bytes_read_back_in_name_order_are_the_bytes_written() {
    let mut disk = disk();
    let mut ctl = start(config(), &mut disk);
    let chunks: Vec<&[u8]> = vec![b"alpha", b"beta", b"gamma-delta", b"", b"e", b"zeta-eta-theta", b"io"];
    let mut stream = Vec::new();
    for chunk in chunks.iter() {
        assert_eq!(write(&mut ctl, &mut disk, chunk), Ok(chunk.len()));
        stream.extend_from_slice(chunk);
    }
    let mut read = Vec::new();
    for name in names(&disk) {
        read.extend_from_slice(&contents(&disk, &name));
    }
    assert_eq!(read, stream);
    assert!(disk.deleted.is_empty());
}

#[test]
fn old_file_is_replaced_whatever_its_size() {
    let mut disk = disk();
    let mut cfg = config();
    cfg.max_file_age = Some(60);
    let mut ctl = start(cfg, &mut disk);
    disk.clock = 60_000;
    assert_eq!(write(&mut ctl, &mut disk, b"a"), Ok(1));
    assert_eq!(names(&disk).len(), 1);
    disk.clock = 60_001;
    assert_eq!(write(&mut ctl, &mut disk, b"b"), Ok(1));
    assert_eq!(names(&disk), vec!["test-2023-11-14-22-13-20-000000.txt", "test-2023-11-14-22-13-20-000001.txt"]);
    assert_eq!(ctl.opened_at(), 60_001);
    assert_eq!(ctl.current_size(), 1);
}

#[test]
fn two_files_remain_after_three_rotations_with_a_limit_of_two() {
    let mut disk = disk();
    let mut cfg = config();
    cfg.max_file_count = Some(2);
    let mut ctl = start(cfg, &mut disk);
    assert_eq!(write(&mut ctl, &mut disk, b"0123456789"), Ok(10));
    assert_eq!(write(&mut ctl, &mut disk, b"first"), Ok(5));
    assert_eq!(names(&disk), vec!["test-2023-11-14-22-13-20-000000.txt", "test-2023-11-14-22-13-20-000001.txt"]);
    assert_eq!(write(&mut ctl, &mut disk, b"second-one"), Ok(10));
    assert_eq!(names(&disk), vec!["test-2023-11-14-22-13-20-000001.txt", "test-2023-11-14-22-13-20-000002.txt"]);
    assert_eq!(write(&mut ctl, &mut disk, b"third-one"), Ok(9));
    assert_eq!(names(&disk), vec!["test-2023-11-14-22-13-20-000002.txt", "test-2023-11-14-22-13-20-000003.txt"]);
    assert_eq!(disk.deleted, vec!["test-2023-11-14-22-13-20-000000.txt", "test-2023-11-14-22-13-20-000001.txt"]);
    assert_eq!(contents(&disk, "test-2023-11-14-22-13-20-000003.txt"), b"third-one".to_vec());
}

#[test]
fn count_never_passes_the_limit_once_a_write_is_served() {
    let mut disk = disk();
    let mut cfg = config();
    cfg.max_file_count = Some(3);
    let mut ctl = start(cfg, &mut disk);
    for round in 0..12 {
        assert_eq!(write(&mut ctl, &mut disk, b"12345678"), Ok(8));
        assert!(disk.files.len() <= 3, "round {}", round);
        assert!(names(&disk).contains(ctl.current_name()));
    }
    assert_eq!(disk.files.len(), 3);
}

#[test]
fn start_trims_a_directory_to_below_the_limit() {
    let mut disk = disk();
    disk.files.push(("test-0000a.txt".to_string(), b"x".to_vec()));
    disk.files.push(("test-0000b.txt".to_string(), b"y".to_vec()));
    disk.files.push(("test-0000c.txt".to_string(), b"z".to_vec()));
    disk.files.push(("other.txt".to_string(), b"z".to_vec()));
    let mut cfg = config();
    cfg.max_file_count = Some(3);
    let ctl = start(cfg, &mut disk);
    assert_eq!(disk.deleted, vec!["test-0000a.txt", "test-0000b.txt"]);
    assert_eq!(names(&disk), vec!["other.txt", "test-0000c.txt", "test-2023-11-14-22-13-20-000000.txt"]);
    assert_eq!(ctl.phase(), Phase::Idle);
}

#[test]
fn start_trims_a_directory_that_is_at_the_limit() {
    let mut disk = disk();
    disk.files.push(("test-0000a.txt".to_string(), b"x".to_vec()));
    let mut cfg = config();
    cfg.max_file_count = Some(2);
    let ctl = start(cfg, &mut disk);
    assert_eq!(disk.deleted, vec!["test-0000a.txt"]);
    assert_eq!(names(&disk), vec!["test-2023-11-14-22-13-20-000000.txt"]);
    assert_eq!(ctl.phase(), Phase::Idle);
}

#[test]
fn start_leaves_a_directory_below_the_limit_alone() {
    let mut disk = disk();
    disk.files.push(("test-0000a.txt".to_string(), b"x".to_vec()));
    let mut cfg = config();
    cfg.max_file_count = Some(3);
    start(cfg, &mut disk);
    assert!(disk.deleted.is_empty());
    assert_eq!(names(&disk), vec!["test-0000a.txt", "test-2023-11-14-22-13-20-000000.txt"]);
}

#[test]
fn start_with_a_limit_of_one_is_out_of_space() {
    let mut disk = disk();
    disk.files.push(("test-0000a.txt".to_string(), b"x".to_vec()));
    let mut cfg = config();
    cfg.max_file_count = Some(1);
    let (mut ctl, first) = RotationController::new(cfg).unwrap();
    assert_eq!(serve(&mut ctl, &mut disk, first, b""), Err(WriteError::OutOfSpace));
    assert_eq!(ctl.phase(), Phase::Idle);
    assert_eq!(disk.deleted, vec!["test-0000a.txt"]);
    assert_eq!(names(&disk), vec!["test-2023-11-14-22-13-20-000000.txt"]);
}

#[test]
fn start_with_a_limit_of_one_fails_in_an_empty_directory_too() {
    let mut disk = disk();
    let mut cfg = config();
    cfg.max_file_count = Some(1);
    let (mut ctl, first) = RotationController::new(cfg).unwrap();
    assert_eq!(serve(&mut ctl, &mut disk, first, b""), Err(WriteError::OutOfSpace));
    assert!(disk.deleted.is_empty());
}

#[test]
fn rotation_fails_where_only_the_current_file_is_left_to_delete() {
    let mut cfg = config();
    cfg.max_file_count = Some(2);
    let (mut ctl, _) = RotationController::new(cfg).unwrap();
    let survey = just(Action::Survey { catalog: true, capacity: false });
    assert_eq!(ctl.step(opened(1, 0)), survey);
    let own = vec![DirEntry { name: numbered(1), size: 0, kind: EntryKind::File }];
    assert_eq!(
        ctl.step(Event::Surveyed { entries: Some(own), stats: None }),
        just(Action::Announce)
    );
    assert_eq!(ctl.step(Event::Announced), just(Action::Finish { written: 0 }));
    assert_eq!(ctl.step(Event::WriteRequested { len: 11, now: 0 }), survey);
    let doubled = vec![
        DirEntry { name: numbered(1), size: 0, kind: EntryKind::File },
        DirEntry { name: numbered(1), size: 0, kind: EntryKind::File },
    ];
    assert_eq!(
        ctl.step(Event::Surveyed { entries: Some(doubled), stats: None }),
        just(Action::Fail { error: WriteError::OutOfSpace })
    );
    assert_eq!(ctl.phase(), Phase::Idle);
}

#[test]
fn floor_that_cannot_be_kept_lets_the_write_pass_with_a_notice() {
    let mut disk = disk();
    disk.stats.available_space = 1000;
    let mut cfg = config();
    cfg.min_avail_bytes = Some(8192);
    let mut ctl = start(cfg, &mut disk);
    assert_eq!(write(&mut ctl, &mut disk, b"12345"), Ok(5));
    assert_eq!(contents(&disk, "test-2023-11-14-22-13-20-000000.txt"), b"12345".to_vec());
    assert_eq!(disk.notices, vec![Notice::LimitNotEnforced]);
    assert_eq!(disk.surveys, vec![(false, true), (true, true)]);
    assert!(disk.deleted.is_empty());
    assert_eq!(ctl.current_size(), 5);
}

#[test]
fn floor_has_old_files_deleted_and_warns_if_asked() {
    let mut disk = disk();
    disk.stats.available_space = 1000;
    disk.files.push(("test-0000a.txt".to_string(), b"old".to_vec()));
    disk.files.push(("test-0000b.txt".to_string(), b"older".to_vec()));
    let mut cfg = config();
    cfg.min_avail_bytes = Some(8192);
    cfg.warn_if_avail_reached = true;
    let mut ctl = start(cfg, &mut disk);
    assert_eq!(write(&mut ctl, &mut disk, b"12345"), Ok(5));
    assert_eq!(disk.deleted, vec!["test-0000a.txt", "test-0000b.txt"]);
    assert_eq!(
        disk.notices,
        vec![Notice::FloorReached, Notice::FloorReached, Notice::LimitNotEnforced]
    );
    assert_eq!(names(&disk), vec!["test-2023-11-14-22-13-20-000000.txt"]);
}

#[test]
fn floor_deletes_without_a_warning_if_not_asked() {
    let mut disk = disk();
    disk.stats.available_space = 1000;
    disk.files.push(("test-0000a.txt".to_string(), b"old".to_vec()));
    let mut cfg = config();
    cfg.min_avail_of_total = Some(500_000);
    let mut ctl = start(cfg, &mut disk);
    assert_eq!(write(&mut ctl, &mut disk, b"12345"), Ok(5));
    assert_eq!(disk.deleted, vec!["test-0000a.txt"]);
    assert_eq!(disk.notices, vec![Notice::LimitNotEnforced]);
}

#[test]
fn cap_has_the_oldest_files_deleted_until_the_rest_fits() {
    let mut disk = disk();
    disk.files.push(("test-0000c.txt".to_string(), vec![0; 30]));
    disk.files.push(("test-0000a.txt".to_string(), vec![0; 40]));
    disk.files.push(("test-0000b.txt".to_string(), vec![0; 50]));
    let mut cfg = config();
    cfg.max_use_bytes = Some(60);
    let mut ctl = start(cfg, &mut disk);
    assert_eq!(write(&mut ctl, &mut disk, b"12345"), Ok(5));
    assert_eq!(disk.deleted, vec!["test-0000a.txt", "test-0000b.txt"]);
    assert_eq!(names(&disk), vec!["test-0000c.txt", "test-2023-11-14-22-13-20-000000.txt"]);
    assert!(disk.notices.is_empty());
    assert_eq!(disk.surveys, vec![(true, true), (true, true), (true, true)]);
}

#[test]
fn cap_that_cannot_be_kept_fails_the_write() {
    let mut disk = disk();
    let mut cfg = config();
    cfg.max_file_size = 100;
    cfg.max_use_bytes = Some(8);
    let mut ctl = start(cfg, &mut disk);
    assert_eq!(write(&mut ctl, &mut disk, b"123456789"), Ok(9));
    assert_eq!(write(&mut ctl, &mut disk, b"x"), Err(WriteError::OutOfSpace));
    assert_eq!(ctl.phase(), Phase::Idle);
    assert_eq!(ctl.current_size(), 9);
    assert_eq!(contents(&disk, "test-2023-11-14-22-13-20-000000.txt"), b"123456789".to_vec());
    assert!(disk.deleted.is_empty());
}

#[test]
fn share_of_the_filesystem_caps_the_use() {
    let mut disk = disk();
    disk.stats.total_space = 1_000_000;
    disk.files.push(("test-0000a.txt".to_string(), vec![0; 101]));
    let mut cfg = config();
    cfg.max_use_of_total = Some(100);
    let mut ctl = start(cfg, &mut disk);
    assert_eq!(write(&mut ctl, &mut disk, b"1"), Ok(1));
    assert_eq!(disk.deleted, vec!["test-0000a.txt"]);
}

#[test]
fn current_file_is_never_deleted() {
    let mut disk = disk();
    let mut cfg = config();
    cfg.max_file_size = 1000;
    cfg.max_use_bytes = Some(10);
    let mut ctl = start(cfg, &mut disk);
    disk.files.push(("test-9999.txt".to_string(), vec![0; 5]));
    assert_eq!(write(&mut ctl, &mut disk, b"0123456789"), Ok(10));
    assert_eq!(write(&mut ctl, &mut disk, b"x"), Ok(1));
    assert_eq!(disk.deleted, vec!["test-9999.txt"]);
    assert_eq!(write(&mut ctl, &mut disk, b"y"), Err(WriteError::OutOfSpace));
    assert_eq!(names(&disk), vec!["test-2023-11-14-22-13-20-000000.txt"]);
}

#[test]
fn hook_may_write_a_header_into_the_new_file() {
    let mut disk = disk();
    disk.header = b"HDR:".to_vec();
    let mut ctl = start(config(), &mut disk);
    assert_eq!(ctl.current_size(), 4);
    assert_eq!(write(&mut ctl, &mut disk, b"123456"), Ok(6));
    assert_eq!(ctl.current_size(), 10);
    assert_eq!(write(&mut ctl, &mut disk, b"7"), Ok(1));
    assert_eq!(contents(&disk, "test-2023-11-14-22-13-20-000000.txt"), b"HDR:123456".to_vec());
    assert_eq!(contents(&disk, "test-2023-11-14-22-13-20-000001.txt"), b"HDR:7".to_vec());
    assert_eq!(ctl.current_size(), 5);
}

#[test]
fn hook_may_write_a_footer_into_the_old_file() {
    let mut disk = disk();
    let mut cfg = config();
    cfg.max_file_size = 12;
    disk.footer = b"END".to_vec();
    let mut ctl = start(cfg, &mut disk);
    assert_eq!(write(&mut ctl, &mut disk, b"123456"), Ok(6));
    assert_eq!(write(&mut ctl, &mut disk, b"7890abc"), Ok(7));
    assert_eq!(contents(&disk, "test-2023-11-14-22-13-20-000000.txt"), b"123456END".to_vec());
    assert_eq!(contents(&disk, "test-2023-11-14-22-13-20-000001.txt"), b"7890abc".to_vec());
}

#[test]
fn hook_that_would_replace_the_file_fails_fast() {
    let mut disk = disk();
    let mut ctl = start(config(), &mut disk);
    assert_eq!(write(&mut ctl, &mut disk, b"12345678"), Ok(8));
    let step = ctl.step(Event::WriteRequested { len: 5, now: 0 });
    assert_eq!(step, just(Action::Close));
    assert_eq!(ctl.phase(), Phase::Closing { len: 5 });
    let nested = ctl.step(Event::WriteRequested { len: 3, now: 0 });
    assert_eq!(nested, just(Action::Fail { error: WriteError::NestedRotation }));
    assert_eq!(ctl.phase(), Phase::Closing { len: 5 });
    let nested = ctl.step(Event::WriteRequested { len: 2, now: 0 });
    assert_eq!(nested, just(Action::Append));
    assert_eq!(ctl.phase(), Phase::Appending { len: 2, resume: Resume::Closing { len: 5 } });
    assert_eq!(ctl.step(Event::Appended { written: 2 }), just(Action::Finish { written: 2 }));
    assert_eq!(ctl.phase(), Phase::Closing { len: 5 });
    assert_eq!(ctl.current_size(), 10);
    assert_eq!(ctl.step(Event::Closed), just(Action::Open));
}

#[test]
fn failing_hook_fails_the_write() {
    let mut disk = disk();
    disk.footer = b"a footer that is too long".to_vec();
    let mut ctl = start(config(), &mut disk);
    assert_eq!(write(&mut ctl, &mut disk, b"12345678"), Ok(8));
    assert_eq!(write(&mut ctl, &mut disk, b"12345678"), Err(WriteError::Io));
    assert_eq!(ctl.phase(), Phase::Idle);
    assert_eq!(names(&disk), vec!["test-2023-11-14-22-13-20-000000.txt"]);
}

#[test]
fn failed_work_fails_the_write_and_leaves_the_file() {
    let mut disk = disk();
    let mut ctl = start(config(), &mut disk);
    assert_eq!(write(&mut ctl, &mut disk, b"12345678"), Ok(8));
    assert_eq!(ctl.step(Event::WriteRequested { len: 5, now: 0 }), just(Action::Close));
    assert_eq!(ctl.step(Event::Closed), just(Action::Open));
    assert_eq!(ctl.step(Event::Failed), just(Action::Fail { error: WriteError::Io }));
    assert_eq!(ctl.phase(), Phase::Idle);
    assert_eq!(ctl.current_name(), "test-2023-11-14-22-13-20-000000.txt");
    assert_eq!(ctl.current_size(), 8);
}

#[test]
fn failed_append_leaves_the_size_as_it_was() {
    let mut disk = disk();
    let mut ctl = start(config(), &mut disk);
    assert_eq!(ctl.step(Event::WriteRequested { len: 5, now: 0 }), just(Action::Append));
    assert_eq!(ctl.step(Event::Failed), just(Action::Fail { error: WriteError::Io }));
    assert_eq!(ctl.phase(), Phase::Idle);
    assert_eq!(ctl.current_size(), 0);
}

#[test]
fn short_write_counts_what_was_written() {
    let mut disk = disk();
    let mut ctl = start(config(), &mut disk);
    assert_eq!(ctl.step(Event::WriteRequested { len: 8, now: 0 }), just(Action::Append));
    assert_eq!(ctl.step(Event::Appended { written: 3 }), just(Action::Finish { written: 3 }));
    assert_eq!(ctl.current_size(), 3);
}

#[test]
fn report_of_more_bytes_than_asked_is_out_of_turn() {
    let mut disk = disk();
    let mut ctl = start(config(), &mut disk);
    assert_eq!(ctl.step(Event::WriteRequested { len: 3, now: 0 }), just(Action::Append));
    assert_eq!(
        ctl.step(Event::Appended { written: 4 }),
        just(Action::Fail { error: WriteError::OutOfTurn })
    );
    assert_eq!(ctl.phase(), Phase::Appending { len: 3, resume: Resume::Idle });
    assert_eq!(ctl.current_size(), 0);
}

#[test]
fn events_that_were_not_asked_for_change_nothing() {
    let mut disk = disk();
    let mut ctl = start(config(), &mut disk);
    let unasked = vec![
        Event::Surveyed { entries: None, stats: None },
        Event::Deleted,
        Event::Vanished,
        Event::Closed,
        opened(7, 5),
        Event::Taken,
        Event::Announced,
        Event::Appended { written: 1 },
        Event::Failed,
    ];
    for event in unasked {
        assert_eq!(ctl.step(event), just(Action::Fail { error: WriteError::OutOfTurn }));
        assert_eq!(ctl.phase(), Phase::Idle);
        assert_eq!(ctl.current_name(), "test-2023-11-14-22-13-20-000000.txt");
        assert_eq!(ctl.current_size(), 0);
    }
}

#[test]
fn write_while_another_is_appended_is_out_of_turn() {
    let mut disk = disk();
    let mut ctl = start(config(), &mut disk);
    assert_eq!(ctl.step(Event::WriteRequested { len: 3, now: 0 }), just(Action::Append));
    assert_eq!(
        ctl.step(Event::WriteRequested { len: 1, now: 0 }),
        just(Action::Fail { error: WriteError::OutOfTurn })
    );
    assert_eq!(ctl.step(Event::Appended { written: 3 }), just(Action::Finish { written: 3 }));
}

#[test]
fn survey_that_lacks_what_was_asked_for_is_asked_for_again() {
    let mut disk = disk();
    let mut cfg = config();
    cfg.max_use_bytes = Some(100);
    let mut ctl = start(cfg, &mut disk);
    let asked = just(Action::Survey { catalog: true, capacity: true });
    assert_eq!(ctl.step(Event::WriteRequested { len: 3, now: 0 }), asked);
    assert_eq!(ctl.step(Event::Surveyed { entries: Some(Vec::new()), stats: None }), asked);
    assert_eq!(ctl.step(Event::Surveyed { entries: None, stats: Some(disk.stats) }), asked);
    assert_eq!(
        ctl.step(Event::Surveyed { entries: Some(Vec::new()), stats: Some(disk.stats) }),
        just(Action::Append)
    );
}

#[test]
fn file_that_vanished_is_passed_over() {
    let mut cfg = config();
    cfg.max_file_count = Some(3);
    let (mut ctl, _) = RotationController::new(cfg).unwrap();
    let survey = just(Action::Survey { catalog: true, capacity: false });
    assert_eq!(ctl.step(opened(3, 0)), survey);
    let three = vec![
        DirEntry { name: numbered(1), size: 1, kind: EntryKind::File },
        DirEntry { name: numbered(2), size: 1, kind: EntryKind::File },
        DirEntry { name: numbered(3), size: 0, kind: EntryKind::File },
    ];
    assert_eq!(
        ctl.step(Event::Surveyed { entries: Some(three), stats: None }),
        just(Action::Delete { name: numbered(1) })
    );
    assert_eq!(ctl.step(Event::Vanished), survey);
    let two = vec![
        DirEntry { name: numbered(2), size: 1, kind: EntryKind::File },
        DirEntry { name: numbered(3), size: 0, kind: EntryKind::File },
    ];
    assert_eq!(ctl.step(Event::Surveyed { entries: Some(two), stats: None }), just(Action::Announce));
    assert_eq!(ctl.step(Event::Announced), just(Action::Finish { written: 0 }));
    assert_eq!(ctl.phase(), Phase::Idle);
}

#[test]
fn taken_name_is_asked_for_again_and_given_up_after_forty_names() {
    let (mut ctl, first) = RotationController::new(config()).unwrap();
    assert_eq!(first, just(Action::Open));
    for tries in 0..40u8 {
        assert_eq!(ctl.phase(), Phase::Opening { pending: None, tries });
        assert_eq!(ctl.step(Event::Taken), just(Action::Open));
    }
    assert_eq!(ctl.phase(), Phase::Opening { pending: None, tries: 40 });
    assert_eq!(ctl.step(Event::Taken), just(Action::Fail { error: WriteError::Io }));
    assert_eq!(ctl.phase(), Phase::Idle);
}

#[test]
fn taken_name_does_not_stop_a_rotation() {
    let mut disk = disk();
    let mut ctl = start(config(), &mut disk);
    assert_eq!(write(&mut ctl, &mut disk, b"12345678"), Ok(8));
    assert_eq!(ctl.step(Event::WriteRequested { len: 5, now: 0 }), just(Action::Close));
    assert_eq!(ctl.step(Event::Closed), just(Action::Open));
    assert_eq!(ctl.step(Event::Taken), just(Action::Open));
    assert_eq!(ctl.phase(), Phase::Opening { pending: Some(5), tries: 1 });
    let next = ctl.next_name(1_700_000_000, 0).unwrap();
    assert_eq!(next.name, "test-2023-11-14-22-13-20-000002.txt");
    assert_eq!(next.serial, 2);
    assert_eq!(ctl.step(opened(2, 7)), just(Action::Announce));
    assert_eq!(ctl.current_name(), "test-2023-11-14-22-13-20-000002.txt");
    assert_eq!(ctl.current_size(), 0);
    assert_eq!(ctl.opened_at(), 7);
}

#[test]
fn file_whose_name_does_not_come_later_is_not_taken_over() {
    let mut disk = disk();
    let mut ctl = start(config(), &mut disk);
    assert_eq!(write(&mut ctl, &mut disk, b"12345678"), Ok(8));
    assert_eq!(ctl.step(Event::WriteRequested { len: 5, now: 0 }), just(Action::Close));
    assert_eq!(ctl.step(Event::Closed), just(Action::Open));
    assert_eq!(ctl.step(opened(0, 7)), just(Action::Open));
    let earlier = Event::Opened { stamp: "2023-11-14-22-13-19".to_string(), serial: 5, now: 7 };
    assert_eq!(ctl.step(earlier), just(Action::Open));
    let no_stamp = Event::Opened { stamp: "2024".to_string(), serial: 0, now: 7 };
    assert_eq!(ctl.step(no_stamp), just(Action::Open));
    let no_serial = Event::Opened { stamp: "2024-01-01-00-00-00".to_string(), serial: 1_000_000, now: 7 };
    assert_eq!(ctl.step(no_serial), just(Action::Open));
    assert_eq!(ctl.phase(), Phase::Opening { pending: Some(5), tries: 4 });
    assert_eq!(ctl.current_name(), "test-2023-11-14-22-13-20-000000.txt");
    assert_eq!(ctl.current_size(), 8);
    let later = Event::Opened { stamp: "2024-01-01-00-00-00".to_string(), serial: 0, now: 7 };
    assert_eq!(ctl.step(later), just(Action::Announce));
    assert_eq!(ctl.current_name(), "test-2024-01-01-00-00-00-000000.txt");
}

#[test]
fn two_files_of_one_second_get_rising_names() {
    let mut cfg = config();
    cfg.prefix = "test".to_string();
    let (mut ctl, _) = RotationController::new(cfg).unwrap();
    let first = ctl.next_name(1_700_000_000, 3600).unwrap();
    assert_eq!(first.name, "test2023-11-14-23-13-20-000000.txt");
    assert_eq!(first.stamp, "2023-11-14-23-13-20");
    assert_eq!(first.serial, 0);
    let taken_over = Event::Opened { stamp: first.stamp, serial: first.serial, now: 0 };
    assert_eq!(ctl.step(taken_over), just(Action::Announce));
    assert_eq!(ctl.step(Event::Announced), just(Action::Finish { written: 0 }));
    let second = ctl.next_name(1_700_000_000, 3600).unwrap();
    assert_eq!(second.name, "test2023-11-14-23-13-20-000001.txt");
    assert!(first.name < second.name);
}

#[test]
fn clock_that_is_behind_does_not_stop_a_new_file() {
    let mut cfg = config();
    cfg.prefix = "test".to_string();
    let (mut ctl, _) = RotationController::new(cfg).unwrap();
    let first = ctl.next_name(1_700_000_000, 3600).unwrap();
    let taken_over = Event::Opened { stamp: first.stamp, serial: first.serial, now: 0 };
    assert_eq!(ctl.step(taken_over), just(Action::Announce));
    let an_hour_back = ctl.next_name(1_700_000_000, 0).unwrap();
    assert_eq!(an_hour_back.name, "test2023-11-14-23-13-20-000001.txt");
    let a_second_back = ctl.next_name(1_699_999_999, 3600).unwrap();
    assert_eq!(a_second_back.name, "test2023-11-14-23-13-20-000001.txt");
    let a_second_on = ctl.next_name(1_700_000_001, 3600).unwrap();
    assert_eq!(a_second_on.name, "test2023-11-14-23-13-21-000000.txt");
    assert_eq!(ctl.next_name(u64::MAX, 0), None);
    assert_eq!(ctl.next_name(1_700_000_000, 86_400), None);
}

#[test]
fn names_found_taken_are_passed_over() {
    let (mut ctl, first) = RotationController::new(config()).unwrap();
    assert_eq!(first, just(Action::Open));
    assert_eq!(ctl.next_name(1_700_000_000, 0).unwrap().serial, 0);
    assert_eq!(ctl.step(Event::Taken), just(Action::Open));
    assert_eq!(ctl.next_name(1_700_000_000, 0).unwrap().serial, 1);
    assert_eq!(ctl.step(Event::Taken), just(Action::Open));
    let third = ctl.next_name(1_700_000_000, 0).unwrap();
    assert_eq!(third.name, "test-2023-11-14-22-13-20-000002.txt");
}

#[test]
fn file_that_is_there_already_is_not_written_over() {
    let mut disk = disk();
    disk.files.push(("test-2023-11-14-22-13-20-000000.txt".to_string(), b"old".to_vec()));
    let mut ctl = start(config(), &mut disk);
    assert_eq!(ctl.current_name(), "test-2023-11-14-22-13-20-000001.txt");
    assert_eq!(write(&mut ctl, &mut disk, b"new"), Ok(3));
    assert_eq!(contents(&disk, "test-2023-11-14-22-13-20-000000.txt"), b"old".to_vec());
    assert_eq!(contents(&disk, "test-2023-11-14-22-13-20-000001.txt"), b"new".to_vec());
}

#[test]
fn serial_numbers_of_a_stamp_run_out() {
    let (mut ctl, _) = RotationController::new(config()).unwrap();
    let last = Event::Opened { stamp: "2023-11-14-22-13-20".to_string(), serial: 999_999, now: 0 };
    assert_eq!(ctl.step(last), just(Action::Announce));
    assert_eq!(ctl.next_name(1_700_000_000, 0), None);
    assert_eq!(ctl.next_name(1_700_000_001, 0).unwrap().serial, 0);
}

#[test]
fn hook_before_closing_leaves_the_new_file_to_the_write() {
    let mut disk = disk();
    disk.footer = b"bye".to_vec();
    let mut cfg = config();
    cfg.max_file_size = 12;
    let mut ctl = start(cfg, &mut disk);
    assert_eq!(write(&mut ctl, &mut disk, b"123456789"), Ok(9));
    assert_eq!(write(&mut ctl, &mut disk, b"abcdef"), Ok(6));
    assert_eq!(ctl.current_size(), 6);
    assert_eq!(contents(&disk, "test-2023-11-14-22-13-20-000000.txt"), b"123456789bye".to_vec());
    assert_eq!(contents(&disk, "test-2023-11-14-22-13-20-000001.txt"), b"abcdef".to_vec());
}

#[test]
fn files_of_others_are_left_alone() {
    let mut disk = disk();
    disk.files.push(("aaa.txt".to_string(), vec![0; 500]));
    disk.files.push(("test-0000.log".to_string(), vec![0; 500]));
    let mut cfg = config();
    cfg.max_file_count = Some(2);
    cfg.max_use_bytes = Some(100);
    let mut ctl = start(cfg, &mut disk);
    assert_eq!(write(&mut ctl, &mut disk, b"12345"), Ok(5));
    assert!(disk.deleted.is_empty());
    assert_eq!(names(&disk), vec!["aaa.txt", "test-0000.log", "test-2023-11-14-22-13-20-000000.txt"]);
}
