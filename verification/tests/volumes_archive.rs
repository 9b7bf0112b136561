use edmgutil::archive::{archive_units, parse_zip_size_output, password_check_ok,
    required_container_size};
use edmgutil::volumes::{registry_from_markers, parse_mount_output, select_ejects, MarkerEntry,
    Volume};

#[test]
fn registry_keeps_only_parsed_markers() {
    let entries = vec![
        MarkerEntry {
            mount_point: "/Volumes/Good".to_string(),
            marker: Some("1600000000".to_string()),
        },
        MarkerEntry {
            mount_point: "/Volumes/Unmanaged".to_string(),
            marker: None,
        },
        MarkerEntry {
            mount_point: "/Volumes/Broken".to_string(),
            marker: Some("not a number".to_string()),
        },
        MarkerEntry {
            mount_point: "/Volumes/AlsoGood".to_string(),
            marker: Some("42".to_string()),
        },
    ];
    let vols = registry_from_markers(&entries);
    assert_eq!(vols.len(), 2);
    assert_eq!(vols[0].mount_point.as_str(), "/Volumes/Good");
    assert_eq!(vols[0].expiry, 1_600_000_000);
    assert_eq!(vols[1].mount_point.as_str(), "/Volumes/AlsoGood");
    assert_eq!(vols[1].expiry, 42);
}

#[test]
fn mount_output_yields_third_tab_field() {
    let output = "/dev/disk4\tApple_partition_scheme\t\n\
                  /dev/disk4s1\tApple_partition_map\t\n\
                  /dev/disk4s2\tApple_HFS\t/Volumes/Secret Stuff\n";
    let mounted = parse_mount_output(output);
    assert_eq!(mounted.as_deref(), Some("/Volumes/Secret Stuff"));
}

#[test]
fn mount_output_without_volume_line() {
    assert_eq!(parse_mount_output("/dev/disk4\tApple_partition_scheme\t\n"), None);
    assert_eq!(parse_mount_output(""), None);
}

fn two_volumes() -> Vec<Volume> {
    vec![
        Volume { mount_point: "/Volumes/A".to_string(), expiry: 100 },
        Volume { mount_point: "/Volumes/B".to_string(), expiry: 10_000 },
    ]
}

fn canon_of(vols: &[Volume]) -> Vec<Option<String>> {
    vols.iter().map(|v| Some(v.mount_point.clone())).collect()
}

#[test]
fn eject_expired_only() {
    // at now = 200: A (expiry 100) has expired, B (expiry 10000) has not
    let vols = two_volumes();
    let canon = canon_of(&vols);
    let sel = select_ejects(&vols, &canon, 200, false, true, &None);
    assert_eq!(sel.indices, vec![0]);
    assert!(!sel.path_found);
}

#[test]
fn eject_all() {
    let vols = two_volumes();
    let canon = canon_of(&vols);
    let sel = select_ejects(&vols, &canon, 200, true, false, &None);
    assert_eq!(sel.indices, vec![0, 1]);
}

#[test]
fn eject_by_path() {
    let vols = two_volumes();
    let canon = canon_of(&vols);
    let sel = select_ejects(&vols, &canon, 200, false, false, &Some("/Volumes/B".to_string()));
    assert_eq!(sel.indices, vec![1]);
    assert!(sel.path_found);
}

#[test]
fn eject_by_unknown_path_matches_nothing() {
    let vols = two_volumes();
    let canon = canon_of(&vols);
    let sel = select_ejects(&vols, &canon, 200, false, false, &Some("/Volumes/C".to_string()));
    assert!(sel.indices.is_empty());
    // the caller reports "volume was not mounted" on this outcome
    assert!(!sel.path_found);
}

#[test]
fn zip_size_from_listing() {
    let listing = "\n7-Zip listing\n\n   Date      Time    Attr         Size   Compressed  Name\n\
                   2021-01-02 03:04:05         204800        10240  2 files\n\n";
    assert_eq!(parse_zip_size_output(listing), Some(204_800));
    assert_eq!(parse_zip_size_output(""), None);
    assert_eq!(parse_zip_size_output("one two"), None);
    assert_eq!(parse_zip_size_output("one two three"), None);
}

#[test]
fn container_size_rounds_up_and_adds_margin() {
    assert_eq!(archive_units(0), 1);
    assert_eq!(archive_units(1023), 1);
    assert_eq!(archive_units(1024), 2);
    assert_eq!(archive_units(204_800), 201);
    assert_eq!(required_container_size(204_800, 100), Some(301));
    assert_eq!(required_container_size(100, u64::MAX), None);
}

#[test]
fn password_verdict() {
    assert!(password_check_ok("Testing archive ... Everything is Ok", ""));
    assert!(!password_check_ok("Everything is Ok", "ERROR: Wrong password entered"));
    assert!(!password_check_ok("something failed", ""));
}
