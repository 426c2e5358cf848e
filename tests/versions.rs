use cinc::backends::{FileMetaTable, SyncMetadata, UtcTime};
use cinc::version::{check_version_compat_read, check_version_compat_write, curr_crate_ver, Version};

#[test]
fn version_compat_read_leading_zero() {
    assert!(check_version_compat_read(&Version::parse("0.1.0").unwrap(), &Version::parse("0.1.1").unwrap()));
    assert!(!check_version_compat_read(&Version::parse("0.1.0").unwrap(), &Version::parse("0.2.0").unwrap()));
    assert!(!check_version_compat_read(&Version::parse("0.1.1").unwrap(), &Version::parse("0.2.1").unwrap()));
}

#[test]
fn version_compat_read_no_leading_zero() {
    assert!(check_version_compat_read(&Version::parse("1.0.0").unwrap(), &Version::parse("1.1.0").unwrap()));
    assert!(!check_version_compat_read(&Version::parse("1.1.0").unwrap(), &Version::parse("0.2.0").unwrap()));
    assert!(!check_version_compat_read(&Version::parse("0.1.0").unwrap(), &Version::parse("1.2.1").unwrap()));
}

#[test]
fn version_compat_write_leading_zero() {
    assert!(check_version_compat_write(&Version::parse("0.1.0").unwrap(), &Version::parse("0.1.1").unwrap()));
    assert!(!check_version_compat_write(&Version::parse("0.1.0").unwrap(), &Version::parse("0.2.0").unwrap()));
    assert!(check_version_compat_write(&Version::parse("0.2.1").unwrap(), &Version::parse("0.1.1").unwrap()));
}

#[test]
fn version_compat_write_no_leading_zero() {
    assert!(check_version_compat_write(&Version::parse("1.0.0").unwrap(), &Version::parse("1.1.0").unwrap()));
    assert!(check_version_compat_write(&Version::parse("1.1.0").unwrap(), &Version::parse("0.2.0").unwrap()));
    assert!(!check_version_compat_write(&Version::parse("0.1.0").unwrap(), &Version::parse("1.2.1").unwrap()));
}

#[test]
fn version_parse_reads_numbers() {
    assert_eq!(Version::parse("1.3.0"), Some(Version::new(1, 3, 0)));
    assert_eq!(Version::parse("2.0.0-beta+b1"), Some(Version::new(2, 0, 0)));
    assert_eq!(Version::parse("2.0"), None);
}

fn meta_from(v: Version) -> SyncMetadata {
    SyncMetadata {
        last_write_timestamp: UtcTime { nanos: 0 },
        last_write_hostname: "h".to_owned(),
        file_table: FileMetaTable { entries: vec![], oldest_modified_time: UtcTime { nanos: 0 } },
        last_write_cinc_version: v,
    }
}

#[test]
fn newer_major_is_refused_both_ways() {
    let current = curr_crate_ver();
    let newer = Version::new(current.major + 2, 0, 0);
    let m = meta_from(newer);
    assert!(!m.is_version_read_compatabible());
    assert!(!m.is_version_write_compatabible());
}

#[test]
fn own_metadata_is_compatible() {
    let m = SyncMetadata::from_sys_info(
        FileMetaTable { entries: vec![], oldest_modified_time: UtcTime { nanos: 5 } },
        UtcTime { nanos: 9 },
        "host".to_owned(),
    );
    assert_eq!(m.last_write_cinc_version, curr_crate_ver());
    assert_eq!(m.last_write_timestamp, UtcTime { nanos: 9 });
    assert!(m.is_version_read_compatabible());
    assert!(m.is_version_write_compatabible());
}
