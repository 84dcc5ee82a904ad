use blip::finder::{FileFinder, ScanError};
use blip::path::{PathIdentity, PathNode, StructuredPath};
use blip::reopen::open_by_path;
use blip::volume::{BootDir, ChildDir, DirEntry, DirListing, EntryInfo, VolumeModel};

fn chars(s: &str) -> Vec<char> {
    s.chars().collect()
}

fn file_entry(name: &str, size: u64, opens: bool) -> DirEntry {
    DirEntry {
        info: EntryInfo { name: chars(name), is_dir: false, is_regular: true, size },
        opens,
    }
}

fn dir_child(name: &str, files: Vec<DirEntry>, read_error: bool) -> ChildDir {
    ChildDir {
        entry: DirEntry {
            info: EntryInfo { name: chars(name), is_dir: true, is_regular: false, size: 0 },
            opens: true,
        },
        listing: DirListing { entries: files, read_error },
    }
}

fn origin_nodes() -> Vec<PathNode> {
    vec![PathNode::Device { bytes: vec![2, 1, 8, 0] }]
}

fn volume(children: Vec<ChildDir>, read_error: bool) -> VolumeModel {
    VolumeModel {
        origin: origin_nodes(),
        boot_dir: Some(BootDir { children, read_error }),
    }
}

#[test]
fn no_boot_dir_leaves_registry_empty() {
    let mut finder = FileFinder::new();
    let volumes = vec![
        VolumeModel { origin: origin_nodes(), boot_dir: None },
        VolumeModel { origin: vec![], boot_dir: None },
    ];
    for v in &volumes {
        assert_eq!(finder.locate_normal_boot_files_in_fs(v), Err(ScanError::NoBootDirectory));
    }
    assert_eq!(finder.len(), 0);
    let mut finder2 = FileFinder::new();
    finder2.locate_all(&volumes);
    assert_eq!(finder2.len(), 0);
}

#[test]
fn suffix_filter_keeps_only_boot_images() {
    let mut finder = FileFinder::new();
    let v = volume(
        vec![dir_child(
            "BOOT",
            vec![file_entry("bootx64.efi", 7, true), file_entry("readme.txt", 9, true)],
            false,
        )],
        false,
    );
    assert_eq!(finder.locate_normal_boot_files_in_fs(&v), Ok(()));
    assert_eq!(finder.len(), 1);
    let c = finder.get(0);
    assert_eq!(c.file_size(), 7);
    assert_eq!(c.display_chars(), chars("\\efi\\BOOT\\bootx64.efi"));
}

#[test]
fn suffix_match_is_case_sensitive() {
    let mut finder = FileFinder::new();
    let v = volume(
        vec![dir_child(
            "BOOT",
            vec![file_entry("APP.EFI", 3, true), file_entry("app.efi", 4, true)],
            false,
        )],
        false,
    );
    assert_eq!(finder.locate_normal_boot_files_in_fs(&v), Ok(()));
    assert_eq!(finder.len(), 1);
    assert_eq!(finder.get(0).display_chars(), chars("\\efi\\BOOT\\app.efi"));
}

#[test]
fn two_vendors_give_distinct_paths() {
    let mut finder = FileFinder::new();
    let v = volume(
        vec![
            dir_child("vendorA", vec![file_entry("app.efi", 11, true)], false),
            dir_child("vendorB", vec![file_entry("app.efi", 22, true)], false),
        ],
        false,
    );
    assert_eq!(finder.locate_normal_boot_files_in_fs(&v), Ok(()));
    assert_eq!(finder.len(), 2);
    let path_a = finder.get(0).display_chars();
    let path_b = finder.get(1).display_chars();
    assert_eq!(path_a, chars("\\efi\\vendorA\\app.efi"));
    assert_eq!(path_b, chars("\\efi\\vendorB\\app.efi"));
    assert_ne!(path_a, path_b);
}

#[test]
fn structured_path_round_trips_to_same_length() {
    let mut finder = FileFinder::new();
    let v = volume(
        vec![
            dir_child("vendorA", vec![file_entry("app.efi", 11, true)], false),
            dir_child("BOOT", vec![file_entry("bootx64.efi", 4096, true)], false),
        ],
        false,
    );
    assert_eq!(finder.locate_normal_boot_files_in_fs(&v), Ok(()));
    assert_eq!(finder.len(), 2);
    for i in 0..finder.len() {
        let c = finder.get(i);
        match c.path() {
            PathIdentity::Structured(p) => {
                assert_eq!(open_by_path(&v, p), Some(c.file_size()));
            }
            PathIdentity::Display(_) => panic!("scan builds structured identities"),
        }
    }
}

#[test]
fn hand_built_path_resolves_independently() {
    let v = volume(
        vec![dir_child("BOOT", vec![file_entry("bootx64.efi", 512, true)], false)],
        false,
    );
    let good = StructuredPath {
        nodes: vec![
            PathNode::Device { bytes: vec![2, 1, 8, 0] },
            PathNode::FilePath { text: chars("\\efi\\BOOT\\bootx64.efi") },
        ],
    };
    assert_eq!(open_by_path(&v, &good), Some(512));
    let missing = StructuredPath {
        nodes: vec![
            PathNode::Device { bytes: vec![2, 1, 8, 0] },
            PathNode::FilePath { text: chars("\\efi\\BOOT\\other.efi") },
        ],
    };
    assert_eq!(open_by_path(&v, &missing), None);
    let wrong_volume = StructuredPath {
        nodes: vec![
            PathNode::Device { bytes: vec![9, 9, 9, 9] },
            PathNode::FilePath { text: chars("\\efi\\BOOT\\bootx64.efi") },
        ],
    };
    assert_eq!(open_by_path(&v, &wrong_volume), None);
    let too_deep = StructuredPath {
        nodes: vec![
            PathNode::Device { bytes: vec![2, 1, 8, 0] },
            PathNode::FilePath { text: chars("\\efi\\BOOT\\deep\\bootx64.efi") },
        ],
    };
    assert_eq!(open_by_path(&v, &too_deep), None);
}

#[test]
fn failed_reopen_is_skipped_not_fatal() {
    let mut finder = FileFinder::new();
    let v = volume(
        vec![dir_child(
            "BOOT",
            vec![
                file_entry("one.efi", 1, true),
                file_entry("two.efi", 2, false),
                file_entry("three.efi", 3, true),
            ],
            false,
        )],
        false,
    );
    assert_eq!(finder.locate_normal_boot_files_in_fs(&v), Ok(()));
    assert_eq!(finder.len(), 2);
    assert_eq!(finder.get(0).display_chars(), chars("\\efi\\BOOT\\one.efi"));
    assert_eq!(finder.get(1).display_chars(), chars("\\efi\\BOOT\\three.efi"));
}

#[test]
fn non_directory_children_contribute_nothing() {
    let mut finder = FileFinder::new();
    let stray = ChildDir {
        entry: DirEntry {
            info: EntryInfo { name: chars("stray.efi"), is_dir: false, is_regular: true, size: 5 },
            opens: true,
        },
        listing: DirListing { entries: vec![], read_error: false },
    };
    let unopenable = ChildDir {
        entry: DirEntry {
            info: EntryInfo { name: chars("ghost"), is_dir: true, is_regular: false, size: 0 },
            opens: false,
        },
        listing: DirListing { entries: vec![file_entry("app.efi", 6, true)], read_error: false },
    };
    let v = volume(vec![stray, unopenable], false);
    assert_eq!(finder.locate_normal_boot_files_in_fs(&v), Ok(()));
    assert_eq!(finder.len(), 0);
}

#[test]
fn read_error_keeps_earlier_candidates() {
    let mut finder = FileFinder::new();
    let v = volume(
        vec![
            dir_child("first", vec![file_entry("a.efi", 1, true)], true),
            dir_child("second", vec![file_entry("b.efi", 2, true)], false),
        ],
        false,
    );
    assert_eq!(finder.locate_normal_boot_files_in_fs(&v), Err(ScanError::DirectoryReadError));
    assert_eq!(finder.len(), 1);
    assert_eq!(finder.get(0).display_chars(), chars("\\efi\\first\\a.efi"));
}

#[test]
fn boot_dir_read_error_reported_after_children() {
    let mut finder = FileFinder::new();
    let v = volume(vec![dir_child("BOOT", vec![file_entry("a.efi", 1, true)], false)], true);
    assert_eq!(finder.locate_normal_boot_files_in_fs(&v), Err(ScanError::DirectoryReadError));
    assert_eq!(finder.len(), 1);
}

#[test]
fn malformed_origin_drops_candidates() {
    let mut finder = FileFinder::new();
    let v = VolumeModel {
        origin: vec![PathNode::Device { bytes: vec![1, 2] }],
        boot_dir: Some(BootDir {
            children: vec![dir_child("BOOT", vec![file_entry("a.efi", 1, true)], false)],
            read_error: false,
        }),
    };
    assert_eq!(finder.locate_normal_boot_files_in_fs(&v), Ok(()));
    assert_eq!(finder.len(), 0);
}

#[test]
fn present_but_empty_boot_dir_scans_cleanly() {
    let mut finder = FileFinder::new();
    let v = volume(vec![], false);
    assert_eq!(finder.locate_normal_boot_files_in_fs(&v), Ok(()));
    assert_eq!(finder.len(), 0);
    let empty_child = volume(vec![dir_child("BOOT", vec![], false)], false);
    assert_eq!(finder.locate_normal_boot_files_in_fs(&empty_child), Ok(()));
    assert_eq!(finder.len(), 0);
}

#[test]
fn bare_suffix_name_is_a_candidate() {
    let mut finder = FileFinder::new();
    let v = volume(
        vec![dir_child("BOOT", vec![file_entry(".efi", 1, true), file_entry("efi", 2, true)], false)],
        false,
    );
    assert_eq!(finder.locate_normal_boot_files_in_fs(&v), Ok(()));
    assert_eq!(finder.len(), 1);
    assert_eq!(finder.get(0).display_chars(), chars("\\efi\\BOOT\\.efi"));
}

#[test]
fn registry_keeps_discovery_order_across_volumes() {
    let mut finder = FileFinder::new();
    let volumes = vec![
        volume(vec![dir_child("a", vec![file_entry("x.efi", 1, true)], false)], false),
        VolumeModel { origin: origin_nodes(), boot_dir: None },
        volume(vec![dir_child("b", vec![file_entry("y.efi", 2, true)], false)], false),
    ];
    finder.locate_all(&volumes);
    assert_eq!(finder.len(), 2);
    assert_eq!(finder.get(0).display_chars(), chars("\\efi\\a\\x.efi"));
    assert_eq!(finder.get(1).display_chars(), chars("\\efi\\b\\y.efi"));
}
