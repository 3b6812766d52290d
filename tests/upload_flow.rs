use nyazoom::archive::{
    accept_sanitized, archive_path, entry_name, is_single_component,
};
use nyazoom::util::get_random_name;
use nyazoom::{ArchiveBuilder, Ledger, PartAction, Phase, UploadError};

const NOW: i64 = 1_700_000_000_000;

fn written(action: PartAction) -> String {
    match action {
        PartAction::Write(name) => name,
        other => panic!("expected a write, got {:?}", other),
    }
}

#[test]
fn two_files_make_two_entries() {
    let mut ledger = Ledger::new();
    let mut builder = ArchiveBuilder::new(".cache/serve", "abc");
    assert_eq!(builder.path(), ".cache/serve/abc.zip");
    assert_eq!(written(builder.part(Some("a.txt"))), "a.txt");
    assert!(matches!(builder.part(None), PartAction::Skip));
    assert_eq!(written(builder.part(Some("b.txt"))), "b.txt");
    assert_eq!(builder.entries(), &vec!["a.txt".to_string(), "b.txt".to_string()]);
    builder.seal();
    assert_eq!(builder.phase(), Phase::Sealed);
    let token = builder.commit(&mut ledger, NOW).unwrap();
    assert_eq!(builder.phase(), Phase::Committed);
    let record = ledger.get_at(&token, NOW).unwrap();
    assert_eq!(record.file(), ".cache/serve/abc.zip");
    assert_eq!(ledger.mark_downloaded_at(&token, NOW).unwrap(), 4);
}

#[test]
fn traversal_name_rejects_the_upload() {
    let mut ledger = Ledger::new();
    let mut builder = ArchiveBuilder::new("root", "x");
    assert_eq!(written(builder.part(Some("ok.txt"))), "ok.txt");
    match builder.part(Some("../../etc/passwd")) {
        PartAction::Abort(e) => assert_eq!(e, UploadError::InvalidName),
        other => panic!("expected an abort, got {:?}", other),
    }
    assert_eq!(builder.phase(), Phase::Aborted);
    assert!(matches!(builder.part(Some("more.txt")), PartAction::Abort(_)));
    builder.seal();
    assert_eq!(builder.phase(), Phase::Aborted);
    assert!(builder.commit(&mut ledger, NOW).is_err());
    assert_eq!(ledger.len(), 0);
}

#[test]
fn io_failure_leaves_no_record() {
    let mut ledger = Ledger::new();
    let mut builder = ArchiveBuilder::new("root", "y");
    written(builder.part(Some("a.txt")));
    builder.fail();
    assert_eq!(builder.phase(), Phase::Aborted);
    assert!(builder.commit(&mut ledger, NOW).is_err());
    assert_eq!(ledger.len(), 0);
}

#[test]
fn unsealed_archive_is_not_committed() {
    let mut ledger = Ledger::new();
    let mut builder = ArchiveBuilder::new("root", "z");
    written(builder.part(Some("a.txt")));
    assert_eq!(builder.commit(&mut ledger, NOW), Err(UploadError::Io));
    assert_eq!(ledger.len(), 0);
    assert_eq!(builder.phase(), Phase::Streaming);
}

#[test]
fn zero_files_still_make_an_archive() {
    let mut ledger = Ledger::new();
    let mut builder = ArchiveBuilder::create("root");
    assert!(builder.path().starts_with("root/") && builder.path().ends_with(".zip"));
    assert_eq!(builder.path().len(), "root/".len() + 10 + ".zip".len());
    builder.seal();
    let token = builder.commit(&mut ledger, NOW).unwrap();
    assert!(ledger.contains(&token));
    assert!(builder.entries().is_empty());
}

#[test]
fn names_are_sanitized() {
    assert_eq!(entry_name("a:b.txt").unwrap(), "a_b.txt");
    assert_eq!(entry_name("report.pdf").unwrap(), "report.pdf");
}

#[test]
fn unsafe_names_are_refused() {
    assert_eq!(entry_name("../../etc/passwd"), Err(UploadError::InvalidName));
    assert_eq!(entry_name("dir\\file"), Err(UploadError::InvalidName));
    assert_eq!(entry_name(".."), Err(UploadError::InvalidName));
    assert_eq!(entry_name("."), Err(UploadError::InvalidName));
    assert_eq!(entry_name(""), Err(UploadError::InvalidName));
    assert_eq!(entry_name("..."), Err(UploadError::InvalidName));
}

#[test]
fn single_components() {
    assert!(is_single_component("a"));
    assert!(is_single_component("..."));
    assert!(is_single_component(".hidden"));
    assert!(!is_single_component("a/b"));
    assert!(!is_single_component(".."));
    assert!(!is_single_component(""));
    assert_eq!(accept_sanitized("x.txt".to_string()).unwrap(), "x.txt");
    assert_eq!(accept_sanitized(String::new()), Err(UploadError::InvalidName));
}

#[test]
fn archive_path_joins_root_and_name() {
    assert_eq!(archive_path(".cache/serve", "AbC123"), ".cache/serve/AbC123.zip");
}

#[test]
fn random_names_are_alphanumeric() {
    let name = get_random_name(10);
    assert_eq!(name.len(), 10);
    assert!(name.chars().all(|c| c.is_ascii_alphanumeric()));
    assert_eq!(get_random_name(0), "");
    assert_ne!(get_random_name(32), get_random_name(32));
}
