//! Read/write classification of the command line's leaf verbs, keyed on the
//! normalized snake_case name (`memory_recall`, `task_create`).
use crate::text::{is_listed, listed, texts};
use vstd::prelude::*;

verus! {

/// The names of the leaves that only read.
pub open spec fn read_tool_names() -> Seq<Seq<char>> {
    seq![
        "memory_show"@,
        "memory_events"@,
        "memory_patch_log"@,
        "memory_diff"@,
        "memory_search"@,
        "memory_recent"@,
        "memory_list"@,
        "memory_context"@,
        "memory_context_stats"@,
        "memory_recall"@,
        "memory_recall_stats"@,
        "memory_resolve"@,
        "memory_kernel_show"@,
        "memory_export"@,
        "task_list"@,
        "task_show"@,
        "task_resume"@,
        "metrics_report"@,
        "metrics_list"@,
        "db_path"@,
    ]
}

/// Whether a leaf changes state: every name that is not listed as reading.
pub open spec fn mutates(tool: Seq<char>) -> bool {
    !listed(read_tool_names(), tool)
}

/// The names of the leaves that only read.
pub fn read_tools() -> (r: Vec<String>)
    ensures
        texts(r@) == read_tool_names(),
{
    let mut v: Vec<String> = Vec::new();
    v.push("memory_show".to_string());
    v.push("memory_events".to_string());
    v.push("memory_patch_log".to_string());
    v.push("memory_diff".to_string());
    v.push("memory_search".to_string());
    v.push("memory_recent".to_string());
    v.push("memory_list".to_string());
    v.push("memory_context".to_string());
    v.push("memory_context_stats".to_string());
    v.push("memory_recall".to_string());
    v.push("memory_recall_stats".to_string());
    v.push("memory_resolve".to_string());
    v.push("memory_kernel_show".to_string());
    v.push("memory_export".to_string());
    v.push("task_list".to_string());
    v.push("task_show".to_string());
    v.push("task_resume".to_string());
    v.push("metrics_report".to_string());
    v.push("metrics_list".to_string());
    v.push("db_path".to_string());
    assert(texts(v@) =~= read_tool_names());
    v
}

/// Whether the named leaf changes state. Unknown names count as writes, so
/// that whatever refuses writes refuses them too.
pub fn is_write(tool: &str) -> (r: bool)
    ensures
        r == mutates(tool@),
{
    !is_listed(&read_tools(), tool)
}

} // verus!
