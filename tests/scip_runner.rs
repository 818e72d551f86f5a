use mr_hedgehog::scip_runner::{check_indexer_run, records_metadata, IndexerFailure};
use mr_hedgehog::language::Language;
use mr_hedgehog::scip_runner::{build_command_spec, worker_count};

#[test]
fn test_build_command_spec_rust() {
    let spec = build_command_spec(Language::Rust);
    assert_eq!(spec.program, "rust-analyzer");
    assert!(spec.args.contains(&"scip".to_string()));
    assert!(spec.args.contains(&"--output".to_string()));
}

#[test]
fn test_build_command_spec_python() {
    let spec = build_command_spec(Language::Python);
    assert_eq!(spec.program, "scip-python");
    assert!(spec.args.contains(&"index".to_string()));
    assert!(spec.args.contains(&"--output".to_string()));
}

#[test]
fn test_command_differences() {
    let rust_spec = build_command_spec(Language::Rust);
    let python_spec = build_command_spec(Language::Python);
    assert_ne!(rust_spec.program, python_spec.program);
    assert_ne!(rust_spec.args[0], python_spec.args[0]);
}

#[test]
fn worker_count_is_half_with_a_floor_of_one() {
    assert_eq!(worker_count(0), 1);
    assert_eq!(worker_count(1), 1);
    assert_eq!(worker_count(2), 1);
    assert_eq!(worker_count(8), 4);
    assert_eq!(worker_count(9), 4);
}

#[test]
fn indexer_run_outcomes() {
    assert_eq!(check_indexer_run(false, Some(2), true), Err(IndexerFailure::Failed(Some(2))));
    assert_eq!(check_indexer_run(false, None, false), Err(IndexerFailure::Failed(None)));
    assert_eq!(check_indexer_run(true, Some(0), false), Err(IndexerFailure::OutputMissing));
    assert_eq!(check_indexer_run(true, Some(0), true), Ok(()));
    assert!(!records_metadata(&vec![]));
    assert!(records_metadata(&vec!["a.rs".to_string()]));
}
