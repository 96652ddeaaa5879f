use log_writer::config::{InvalidConfiguration, LogWriterConfig, SHARE_WHOLE};

fn plain() -> LogWriterConfig {
    LogWriterConfig {
        target_dir: "/var/log/app".to_string(),
        prefix: "test".to_string(),
        suffix: ".txt".to_string(),
        max_file_size: 4096,
        max_file_age: None,
        max_file_count: None,
        max_use_bytes: None,
        max_use_of_total: None,
        reserved: None,
        min_avail_bytes: Some(8192),
        min_avail_of_total: None,
        warn_if_avail_reached: false,
    }
}

#[test]
fn plain_configuration_is_valid() {
    assert_eq!(plain().validate(), Ok(()));
}

#[test]
fn share_whole_is_a_million() {
    assert_eq!(SHARE_WHOLE, 1_000_000);
}

#[test]
fn directory_with_nul_is_refused() {
    let mut cfg = plain();
    cfg.target_dir = "/var/\0log".to_string();
    assert_eq!(cfg.validate(), Err(InvalidConfiguration::TargetDir));
}

#[test]
fn directory_may_hold_separators() {
    let mut cfg = plain();
    cfg.target_dir = "a/b/c".to_string();
    assert_eq!(cfg.validate(), Ok(()));
}

#[test]
fn prefix_with_separator_is_refused() {
    let mut cfg = plain();
    cfg.prefix = "sub/test".to_string();
    assert_eq!(cfg.validate(), Err(InvalidConfiguration::Prefix));
}

#[test]
fn prefix_with_nul_is_refused() {
    let mut cfg = plain();
    cfg.prefix = "te\0st".to_string();
    assert_eq!(cfg.validate(), Err(InvalidConfiguration::Prefix));
}

#[test]
fn suffix_with_separator_is_refused() {
    let mut cfg = plain();
    cfg.suffix = ".txt/".to_string();
    assert_eq!(cfg.validate(), Err(InvalidConfiguration::Suffix));
}

#[test]
fn suffix_with_nul_is_refused() {
    let mut cfg = plain();
    cfg.suffix = "\0".to_string();
    assert_eq!(cfg.validate(), Err(InvalidConfiguration::Suffix));
}

#[test]
fn zero_files_are_refused() {
    let mut cfg = plain();
    cfg.max_file_count = Some(0);
    assert_eq!(cfg.validate(), Err(InvalidConfiguration::MaxFileCount));
    cfg.max_file_count = Some(1);
    assert_eq!(cfg.validate(), Ok(()));
}

#[test]
fn share_to_use_above_the_whole_is_refused() {
    let mut cfg = plain();
    cfg.max_use_of_total = Some(1_000_001);
    assert_eq!(cfg.validate(), Err(InvalidConfiguration::MaxUseOfTotal));
    cfg.max_use_of_total = Some(1_000_000);
    assert_eq!(cfg.validate(), Ok(()));
}

#[test]
fn share_to_keep_above_the_whole_is_refused() {
    let mut cfg = plain();
    cfg.min_avail_of_total = Some(2_000_000);
    assert_eq!(cfg.validate(), Err(InvalidConfiguration::MinAvailOfTotal));
    cfg.min_avail_of_total = Some(0);
    assert_eq!(cfg.validate(), Ok(()));
}

#[test]
fn first_fault_in_order_is_named() {
    let mut cfg = plain();
    cfg.suffix = "/".to_string();
    cfg.max_file_count = Some(0);
    cfg.min_avail_of_total = Some(2_000_000);
    assert_eq!(cfg.validate(), Err(InvalidConfiguration::Suffix));
    cfg.target_dir = "\0".to_string();
    assert_eq!(cfg.validate(), Err(InvalidConfiguration::TargetDir));
}

#[test]
fn empty_fragments_are_valid() {
    let mut cfg = plain();
    cfg.prefix = String::new();
    cfg.suffix = String::new();
    assert_eq!(cfg.validate(), Ok(()));
}
