//! Values that pass between the commands, the batch worker and the user interface.

use vstd::prelude::*;

verus! {

/// Where a task stands.
#[derive(Debug, Clone, PartialEq)]
pub enum TaskStatus {
    /// Waiting to run.
    Pending,
    /// Running now.
    Running,
    /// Finished without error.
    Completed,
    /// Finished with the error described.
    Failed(String),
    /// Stopped by the user before it ran.
    Cancelled,
}

/// One unit of work in a batch: one input file and where its output goes.
#[derive(Debug, Clone)]
pub struct Task {
    /// Unique identifier of the task.
    pub id: String,
    /// The file to read.
    pub input_path: String,
    /// The file to write.
    pub output_path: String,
    /// Where the task stands.
    pub status: TaskStatus,
    /// Command-specific parameters, as JSON text; each command reads its own.
    pub params: String,
}

/// What became of one task of a batch.
#[derive(Debug, Clone)]
pub struct TaskResult {
    /// The identifier of the task.
    pub task_id: String,
    /// The file that was read.
    pub input_path: String,
    /// The file that was written.
    pub output_path: String,
    /// Size in bytes of the input, where known.
    pub original_size: Option<u64>,
    /// Size in bytes of the output, where known.
    pub new_size: Option<u64>,
    /// How the task ended.
    pub status: TaskStatus,
}

/// A progress report for a batch.
#[derive(Debug, Clone)]
pub struct Progress {
    /// Tasks done so far.
    pub current: u32,
    /// Tasks in the batch.
    pub total: u32,
    /// A note for the user.
    pub message: String,
}

/// An entry of a directory listing, as the commands that scan folders see it.
#[derive(Debug, Clone)]
pub struct DirEntryInfo {
    /// The entry's full path.
    pub path: String,
    /// The entry's file name (the last part of its path).
    pub name: String,
    /// Whether the entry is a regular file.
    pub is_file: bool,
    /// The entry's extension (the text after the last dot of its file name), where it has one
    /// that is valid text.
    pub extension: Option<String>,
}

/// How a run of an external program ended.
#[derive(Debug, Clone)]
pub enum ToolRun {
    /// The program ran and reported success.
    Succeeded,
    /// The program ran and reported failure.
    Failed,
    /// The program could not be started; the system's description of why.
    NotStarted(String),
}

/// An external program to run and the arguments to give it.
#[derive(Debug, Clone)]
pub struct ToolCommand {
    /// The program's name, looked up on the search path.
    pub program: String,
    /// The arguments, in order.
    pub args: Vec<String>,
}

/// The texts of a list of strings.
pub open spec fn arg_views(args: Seq<String>) -> Seq<Seq<char>> {
    args.map_values(|a: String| a@)
}

/// Appends an argument.
pub fn push_arg(args: &mut Vec<String>, arg: &str)
    ensures
        arg_views(final(args)@) == arg_views(old(args)@).push(arg@),
{
    args.push(String::from_str(arg));
    assert(arg_views(args@) =~= arg_views(old(args)@).push(arg@));
}

} // verus!
