use pluvia::extractor::{check_entry, check_existing_target, EntryFacts};
use pluvia::vfs::match_entry;
use pluvia::extractor::{entry_is_symlink, entry_name_escapes, ExtractionError, ExtractionProgress, ExtractionReport, MAX_EXTRACTION_BYTES};
use pluvia::vfs::{walk_steps, PathStep, VfsResolver};

#[test]
fn normalize_rel_path_strips_drive_backslashes_and_leading_slashes() {
    assert_eq!(VfsResolver::normalize_rel_path("  C:\\@Resources\\Fonts\\Anurati.otf "), "@Resources/Fonts/Anurati.otf");
    assert_eq!(VfsResolver::normalize_rel_path("c:/x/y"), "x/y");
    assert_eq!(VfsResolver::normalize_rel_path("//abs/path"), "abs/path");
    assert_eq!(VfsResolver::normalize_rel_path("1:/x"), "1:/x");
    assert_eq!(VfsResolver::normalize_rel_path("\\\\share\\dir"), "share/dir");
    assert_eq!(VfsResolver::normalize_rel_path(""), "");
}

#[test]
fn cache_keys_fold_case_and_count_entries() {
    let mut vfs = VfsResolver::new();
    assert_eq!(vfs.cache_len(), 0);
    let key = VfsResolver::cache_key_for("/skins", "Mond\\Clock\\Clock.ini");
    assert_eq!(key, "/skins::mond/clock/clock.ini");
    vfs.remember(&key, "/skins/Mond/Clock/Clock.ini");
    assert!(vfs.is_cached("/skins", "mond\\clock\\clock.ini"));
    assert!(vfs.is_cached("/skins", "MOND/CLOCK/CLOCK.INI"));
    assert!(!vfs.is_cached("/other", "mond/clock/clock.ini"));
    assert_eq!(vfs.cached(&key).as_deref(), Some("/skins/Mond/Clock/Clock.ini"));
    vfs.remember(&key, "/skins/mond/clock/clock.ini");
    assert_eq!(vfs.cache_len(), 1);
    vfs.clear_cache();
    assert_eq!(vfs.cache_len(), 0);
    assert!(!vfs.is_cached("/skins", "Mond/Clock/Clock.ini"));
}

#[test]
fn walk_never_climbs_above_the_base() {
    assert_eq!(walk_steps("../../Clock.ini"), vec![PathStep::Descend("Clock.ini".to_string())]);
    assert_eq!(
        walk_steps("a/./b/../../../etc/passwd"),
        vec![
            PathStep::Descend("a".to_string()),
            PathStep::Descend("b".to_string()),
            PathStep::Up,
            PathStep::Up,
            PathStep::Descend("etc".to_string()),
            PathStep::Descend("passwd".to_string()),
        ]
    );
    assert_eq!(walk_steps("x//y/"), vec![PathStep::Descend("x".to_string()), PathStep::Descend("y".to_string())]);
}

#[test]
fn zip_slip_names_are_detected() {
    assert!(entry_name_escapes("../etc/passwd"));
    assert!(entry_name_escapes("..\\..\\evil.txt"));
    assert!(entry_name_escapes("/etc/passwd"));
    assert!(entry_name_escapes("\\absolute"));
    assert!(entry_name_escapes("a/b/../../.."));
    assert!(!entry_name_escapes("Skins/Mond/Clock.ini"));
    assert!(!entry_name_escapes("a/..b/c.."));
    assert!(!entry_name_escapes("./x"));
}

#[test]
fn symlink_entries_are_detected() {
    assert!(entry_is_symlink(true, None));
    assert!(entry_is_symlink(false, Some(0o120777)));
    assert!(!entry_is_symlink(false, Some(0o100644)));
    assert!(!entry_is_symlink(false, Some(0o040755)));
    assert!(!entry_is_symlink(false, None));
}

#[test]
fn quota_stops_oversized_extractions() {
    let mut p = ExtractionProgress::new(500);
    assert!(p.check_declared(300).is_ok());
    assert!(p.record_file(300).is_ok());
    assert_eq!(p.remaining(), 200);
    assert_eq!(p.check_declared(201), Err(ExtractionError::QuotaExceeded));
    assert!(p.check_declared(200).is_ok());
    assert_eq!(p.record_file(201), Err(ExtractionError::QuotaExceeded));
    assert_eq!(p.report(), ExtractionReport { files_extracted: 1, total_bytes: 300 });
    assert!(p.record_file(200).is_ok());
    assert_eq!(p.report(), ExtractionReport { files_extracted: 2, total_bytes: 500 });
    assert_eq!(MAX_EXTRACTION_BYTES, 500 * 1024 * 1024);
}

#[test]
fn entry_checks_run_in_order() {
    let ok = EntryFacts {
        symlink_flag: false,
        unix_mode: Some(0o100644),
        name: "Skins/Clock/Clock.ini".to_string(),
        enclosed: true,
        enclosed_escapes: false,
        symlinked_ancestor: false,
    };
    assert_eq!(check_entry(&ok), Ok(()));
    assert_eq!(check_entry(&EntryFacts { unix_mode: Some(0o120777), ..ok.clone() }), Err(ExtractionError::SymlinkForbidden));
    assert_eq!(check_entry(&EntryFacts { name: "..\\evil.ini".to_string(), ..ok.clone() }), Err(ExtractionError::ZipSlipDetected));
    assert_eq!(check_entry(&EntryFacts { enclosed: false, ..ok.clone() }), Err(ExtractionError::ZipSlipDetected));
    assert_eq!(check_entry(&EntryFacts { symlinked_ancestor: true, ..ok.clone() }), Err(ExtractionError::SymlinkForbidden));
    assert_eq!(
        check_entry(&EntryFacts { symlink_flag: true, name: "../x".to_string(), ..ok.clone() }),
        Err(ExtractionError::SymlinkForbidden)
    );
    assert_eq!(check_existing_target(false, Some(1)), Ok(()));
    assert_eq!(check_existing_target(false, Some(2)), Err(ExtractionError::HardlinkForbidden));
    assert_eq!(check_existing_target(true, Some(2)), Err(ExtractionError::SymlinkForbidden));
    assert_eq!(check_existing_target(false, None), Ok(()));
}

#[test]
fn directory_entries_match_without_case() {
    let names = vec!["Fonts".to_string(), "images".to_string(), "IMAGES".to_string()];
    assert_eq!(match_entry(&names, "IMAGES"), Some(1));
    assert_eq!(match_entry(&names, "fonts"), Some(0));
    assert_eq!(match_entry(&names, "sounds"), None);
}

/// What a successful resolution leaves behind: the found path under the
/// key of the path asked for.
fn record_resolution(v: &mut VfsResolver, base: &str, raw_rel: &str, found: &str) {
    let key = VfsResolver::cache_key_for(base, raw_rel);
    v.remember(&key, found);
}

#[test]
fn test_vfs_cached_lookup_verification() {
    let mut v = VfsResolver::new();
    let b = "/tmp/skins";
    assert!(!v.is_cached(b, r"mond\clock\clock.ini"));
    record_resolution(&mut v, b, r"mond\clock\clock.ini", "/tmp/skins/Mond/Clock/Clock.ini");
    assert!(v.is_cached(b, r"mond\clock\clock.ini"));
    assert!(v.is_cached(b, r"Mond\Clock\Clock.ini"));
    assert!(v.is_cached(b, "MOND/CLOCK/CLOCK.INI"));
    assert!(!v.is_cached("/elsewhere", r"mond\clock\clock.ini"));
    let key = VfsResolver::cache_key_for(b, r"Mond\Clock\Clock.ini");
    assert_eq!(v.cached(&key).as_deref(), Some("/tmp/skins/Mond/Clock/Clock.ini"));
}

#[test]
fn test_vfs_case_folded_cache_hit() {
    let mut v = VfsResolver::new();
    let b = "/tmp/skins";
    assert_eq!(v.cache_len(), 0);
    record_resolution(&mut v, b, r"Mond\Clock\Clock.ini", "/tmp/skins/Mond/Clock/Clock.ini");
    assert_eq!(v.cache_len(), 1);
    let key = VfsResolver::cache_key_for(b, r"mond\clock\clock.ini");
    assert_eq!(v.cached(&key).as_deref(), Some("/tmp/skins/Mond/Clock/Clock.ini"));
    record_resolution(&mut v, b, r"mond\clock\clock.ini", "/tmp/skins/Mond/Clock/Clock.ini");
    assert_eq!(v.cache_len(), 1);
    v.clear_cache();
    assert_eq!(v.cache_len(), 0);
}
