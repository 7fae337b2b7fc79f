use reprint::{DurableWrite, RenameStep, ReprintError, WriteAction, WriteStage};

fn expect_absent(w: &DurableWrite, want: &str) {
    match w.action() {
        WriteAction::EnsureAbsent { path } => assert_eq!(path, want),
        other => panic!("unexpected action: {:?}", other),
    }
}

#[test]
fn derived_paths() {
    let w = DurableWrite::new("src/lib.rs");
    assert_eq!(w.target, "src/lib.rs");
    assert_eq!(w.temp, "src/lib.rs.tmp");
    assert_eq!(w.backup, "src/lib.rs.bk");
    assert_eq!(w.stage, WriteStage::CheckTemp);
}

#[test]
fn successful_write_goes_through_every_step() {
    let mut w = DurableWrite::new("a.rs");
    expect_absent(&w, "a.rs.tmp");
    w.advance(true, String::new()).unwrap();
    expect_absent(&w, "a.rs.bk");
    w.advance(true, String::new()).unwrap();
    match w.action() {
        WriteAction::WriteTemp { path } => assert_eq!(path, "a.rs.tmp"),
        other => panic!("unexpected action: {:?}", other),
    }
    w.advance(true, String::new()).unwrap();
    match w.action() {
        WriteAction::Rename { from, to } => assert_eq!((from.as_str(), to.as_str()), ("a.rs", "a.rs.bk")),
        other => panic!("unexpected action: {:?}", other),
    }
    w.advance(true, String::new()).unwrap();
    match w.action() {
        WriteAction::Rename { from, to } => assert_eq!((from.as_str(), to.as_str()), ("a.rs.tmp", "a.rs")),
        other => panic!("unexpected action: {:?}", other),
    }
    w.advance(true, String::new()).unwrap();
    assert_eq!(w.stage, WriteStage::Done);
    assert!(matches!(w.action(), WriteAction::Finished));
}

#[test]
fn existing_temp_path_is_a_collision() {
    let mut w = DurableWrite::new("a.rs");
    let r = w.advance(false, String::new());
    match r {
        Err(ReprintError::PathCollision { path }) => assert_eq!(path, "a.rs.tmp"),
        other => panic!("unexpected result: {:?}", other),
    }
    // Nothing past the check was asked for.
    assert_eq!(w.stage, WriteStage::CheckTemp);
}

#[test]
fn existing_backup_path_is_a_collision() {
    let mut w = DurableWrite::new("a.rs");
    w.advance(true, String::new()).unwrap();
    match w.advance(false, String::new()) {
        Err(ReprintError::PathCollision { path }) => assert_eq!(path, "a.rs.bk"),
        other => panic!("unexpected result: {:?}", other),
    }
}

#[test]
fn failed_temp_write_is_a_write_failure() {
    let mut w = DurableWrite::new("a.rs");
    w.advance(true, String::new()).unwrap();
    w.advance(true, String::new()).unwrap();
    match w.advance(false, "disk full".to_string()) {
        Err(ReprintError::WriteFailure { path, message }) => {
            assert_eq!(path, "a.rs.tmp");
            assert_eq!(message, "disk full");
        }
        other => panic!("unexpected result: {:?}", other),
    }
}

#[test]
fn rename_failures_are_told_apart() {
    let mut w = DurableWrite::new("a.rs");
    for _ in 0..3 {
        w.advance(true, String::new()).unwrap();
    }
    match w.advance(false, "busy".to_string()) {
        Err(ReprintError::RenameFailure { step, from, to, message }) => {
            assert_eq!(step, RenameStep::ToBackup);
            assert_eq!((from.as_str(), to.as_str(), message.as_str()), ("a.rs", "a.rs.bk", "busy"));
        }
        other => panic!("unexpected result: {:?}", other),
    }
    w.advance(true, String::new()).unwrap();
    match w.advance(false, "gone".to_string()) {
        Err(ReprintError::RenameFailure { step, from, to, message }) => {
            assert_eq!(step, RenameStep::Promote);
            assert_eq!((from.as_str(), to.as_str(), message.as_str()), ("a.rs.tmp", "a.rs", "gone"));
        }
        other => panic!("unexpected result: {:?}", other),
    }
}
