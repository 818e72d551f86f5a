//! The command line that produces an index for a language, and the size of
//! the worker pool used alongside interactive consumers.
use vstd::prelude::*;
use crate::callgraph::str_views;
use crate::language::Language;

verus! {

/// The program and arguments that produce an index.
#[derive(Debug, Clone, PartialEq, Eq)]
pub struct ScipCommandSpec {
    pub program: String,
    pub args: Vec<String>,
}

/// The command that indexes the current directory into `index.scip` for `language`.
pub fn build_command_spec(language: Language) -> (r: ScipCommandSpec)
    ensures
        r.program@ == match language {
            Language::Rust => "rust-analyzer"@,
            Language::Python => "scip-python"@,
        },
        str_views(r.args@) == seq![
            match language {
                Language::Rust => "scip"@,
                Language::Python => "index"@,
            },
            "."@,
            "--output"@,
            "index.scip"@,
        ],
{
    let (program, sub) = match language {
        Language::Rust => (String::from_str("rust-analyzer"), String::from_str("scip")),
        Language::Python => (String::from_str("scip-python"), String::from_str("index")),
    };
    let args = vec![sub, String::from_str("."), String::from_str("--output"), String::from_str("index.scip")];
    let ghost expected = seq![
        match language {
            Language::Rust => "scip"@,
            Language::Python => "index"@,
        },
        "."@,
        "--output"@,
        "index.scip"@,
    ];
    assert(str_views(args@) =~= expected);
    ScipCommandSpec { program, args }
}

/// The number of workers for `cores` hardware threads: half of them,
/// leaving the rest to interactive consumers, and at least one.
pub fn worker_count(cores: usize) -> (r: usize)
    ensures
        r == if cores / 2 >= 1 { cores / 2 } else { 1 },
{
    if cores / 2 >= 1 {
        cores / 2
    } else {
        1
    }
}

/// Why running an indexer produced no index.
#[derive(Debug, Clone, Copy, PartialEq, Eq)]
pub enum IndexerFailure {
    /// The indexer exited unsuccessfully, with this exit code where it had one.
    Failed(Option<i32>),
    /// The indexer succeeded but the index file is not there.
    OutputMissing,
}

/// The outcome of an indexer run: a failure where it exited unsuccessfully
/// or left no index file, success otherwise.
pub fn check_indexer_run(exit_success: bool, exit_code: Option<i32>, output_exists: bool) -> (r:
    Result<(), IndexerFailure>)
    ensures
        !exit_success ==> (r matches Err(IndexerFailure::Failed(c)) && c == exit_code),
        exit_success && !output_exists ==> r matches Err(IndexerFailure::OutputMissing),
        exit_success && output_exists ==> r is Ok,
{
    if !exit_success {
        Err(IndexerFailure::Failed(exit_code))
    } else if !output_exists {
        Err(IndexerFailure::OutputMissing)
    } else {
        Ok(())
    }
}

/// Whether the cache metadata is recorded after generating an index: only
/// where source files are tracked.
pub fn records_metadata(source_files: &Vec<String>) -> (r: bool)
    ensures
        r == (source_files.len() > 0),
{
    source_files.len() > 0
}

} // verus!
