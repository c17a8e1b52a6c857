//! The batch worker: the cancel flag shared with the user interface, the record of which batch
//! may be cancelled, how each task of a batch is settled, and the progress reports of a batch.
//!
//! The tasks themselves run in parallel outside this module; this module decides what each of
//! them reports and what the batch reports as a whole.

use std::sync::atomic::AtomicBool;
use std::sync::Arc;
use vstd::prelude::*;

use crate::common::error::AppError;
use crate::common::text::{decimal, push_decimal};
use crate::common::types::{Progress, Task, TaskResult, TaskStatus};

verus! {

/// Calls std's `Arc::clone`. The contract claims that the new handle is equal to the given
/// one: both point to the same atomic flag, which is what std documents of `Arc::clone`.
#[verifier::external_body]
fn share_flag(flag: &Arc<AtomicBool>) -> (r: Arc<AtomicBool>)
    ensures
        r == *flag,
{
    Arc::clone(flag)
}

/// A cancel signal shared between a running batch and whoever may cancel it.
///
/// Raising it is seen by every handle to it; what a read returns depends on what other
/// threads have done, so no contract states it.
pub struct CancelFlag {
    flag: Arc<AtomicBool>,
}

impl CancelFlag {
    /// A new flag, not raised. That it starts lowered is left unsaid: Verus holds no model
    /// of the value inside std's `AtomicBool`, whose later reads depend on other threads.
    pub fn new() -> (r: CancelFlag) {
        CancelFlag { flag: Arc::new(AtomicBool::new(false)) }
    }

    /// Raises the flag.
    pub fn raise(&self) {
        self.flag.store(true, std::sync::atomic::Ordering::SeqCst);
    }

    /// Whether the flag has been raised, as far as this thread sees.
    pub fn is_raised(&self) -> bool {
        self.flag.load(std::sync::atomic::Ordering::SeqCst)
    }

    /// Another handle to the same flag.
    pub fn share(&self) -> (r: CancelFlag)
        ensures
            r == *self,
    {
        CancelFlag { flag: share_flag(&self.flag) }
    }
}

/// The record of the batch that a cancel request reaches: the flag of the running batch, if
/// one is running, and the ticket of the runner that recorded it.
pub struct CancelRegistry {
    current: Option<CancelFlag>,
    holder: u64,
    next_ticket: u64,
}

/// The abstract state of a cancel record.
pub struct CancelRecord {
    /// The flag of the running batch, if one is recorded.
    pub flag: Option<CancelFlag>,
    /// The ticket of the runner that recorded the flag.
    pub holder: u64,
    /// The ticket the next runner gets.
    pub next_ticket: u64,
}

impl View for CancelRegistry {
    type V = CancelRecord;

    closed spec fn view(&self) -> CancelRecord {
        CancelRecord { flag: self.current, holder: self.holder, next_ticket: self.next_ticket }
    }
}

/// The ticket after `t`; tickets go round after the largest `u64`.
pub open spec fn ticket_after(t: u64) -> u64 {
    if t == u64::MAX {
        0
    } else {
        (t + 1) as u64
    }
}

impl CancelRegistry {
    /// A record with no batch in it.
    pub fn new() -> (r: CancelRegistry)
        ensures
            r@.flag is None,
            r@.next_ticket == 0,
    {
        CancelRegistry { current: None, holder: 0, next_ticket: 0 }
    }
}

/// Records `flag` as the flag of the running batch, replacing any earlier one; the record is
/// held under the next ticket, which is then used up.
pub fn set_cancel_flag(registry: &mut CancelRegistry, flag: CancelFlag)
    ensures
        final(registry)@.flag == Some(flag),
        final(registry)@.holder == old(registry)@.next_ticket,
        final(registry)@.next_ticket == ticket_after(old(registry)@.next_ticket),
{
    registry.current = Some(flag);
    registry.holder = registry.next_ticket;
    registry.next_ticket = if registry.next_ticket == u64::MAX {
        0
    } else {
        registry.next_ticket + 1
    };
}

/// Forgets the running batch.
pub fn clear_cancel_flag(registry: &mut CancelRegistry)
    ensures
        final(registry)@.flag is None,
        final(registry)@.holder == old(registry)@.holder,
        final(registry)@.next_ticket == old(registry)@.next_ticket,
{
    registry.current = None;
}

/// What releasing the ticket `t` leaves of the record `rec`: the flag is forgotten only when
/// the holder of `t` recorded it.
pub open spec fn released(rec: CancelRecord, t: u64) -> CancelRecord {
    if rec.flag is Some && rec.holder == t {
        CancelRecord { flag: None, ..rec }
    } else {
        rec
    }
}

/// Forgets the running batch if, and only if, the runner holding `ticket` recorded it; a runner
/// that ends after a newer one has started leaves the newer one cancellable.
pub fn release_cancel_flag(registry: &mut CancelRegistry, ticket: u64)
    ensures
        final(registry)@ == released(old(registry)@, ticket),
{
    if registry.current.is_some() && registry.holder == ticket {
        registry.current = None;
    }
}

/// The flag of the running batch, if one is recorded.
pub fn get_cancel_flag(registry: &CancelRegistry) -> (r: Option<CancelFlag>)
    ensures
        r == registry@.flag,
{
    match &registry.current {
        Some(flag) => Some(flag.share()),
        None => None,
    }
}

/// Releasing a ticket other than the holder's leaves the record as it is.
pub proof fn lemma_release_keeps_other_holder(rec: CancelRecord, t: u64)
    requires
        rec.holder != t,
    ensures
        released(rec, t) == rec,
{
}

/// Two runners started one after the other get different tickets, so when the older one
/// (ticket `t`) is released while the newer one holds the record, the record stays.
pub proof fn lemma_older_release_keeps_newer(t: u64, rec: CancelRecord)
    requires
        rec.holder == ticket_after(t),
    ensures
        ticket_after(t) != t,
        released(rec, t) == rec,
{
}

/// Whether a cancel request is accepted: exactly while a batch is recorded.
pub open spec fn cancel_accepted(recorded: Option<CancelFlag>) -> bool {
    recorded is Some
}

/// The answer to a cancel request when no batch is running.
pub open spec fn no_batch_text() -> Seq<char> {
    "没有正在执行的任务"@
}

/// The flag that a cancel request must raise: that of the running batch, or, when no batch is
/// running, the answer that says so.
pub fn cancel_target(registry: &CancelRegistry) -> (r: Result<CancelFlag, String>)
    ensures
        match registry@.flag {
            Some(f) => r == Ok::<CancelFlag, String>(f),
            None => r matches Err(m) && m@ == no_batch_text(),
        },
{
    match get_cancel_flag(registry) {
        Some(flag) => Ok(flag),
        None => Err(String::from_str("没有正在执行的任务")),
    }
}

/// Handles the user's cancel request: raises the flag that `cancel_target` picks, or reports
/// that no batch is running.
pub fn cancel_batch(registry: &CancelRegistry) -> (r: Result<(), String>)
    ensures
        r is Ok <==> cancel_accepted(registry@.flag),
        r matches Err(m) ==> m@ == no_batch_text(),
{
    match cancel_target(registry) {
        Ok(flag) => {
            flag.raise();
            Ok(())
        },
        Err(m) => Err(m),
    }
}

/// The part of a batch runner that decides: its cancel flag and the ticket it recorded it under.
pub struct BatchRunner {
    cancel_flag: CancelFlag,
    ticket: u64,
}

impl BatchRunner {
    /// The runner's cancel flag.
    pub closed spec fn flag(&self) -> CancelFlag {
        self.cancel_flag
    }

    /// The ticket the runner recorded its flag under.
    pub closed spec fn ticket(&self) -> u64 {
        self.ticket
    }

    /// A new runner with a fresh flag, recorded as the running batch under the next ticket.
    pub fn new(registry: &mut CancelRegistry) -> (r: BatchRunner)
        ensures
            final(registry)@.flag == Some(r.flag()),
            final(registry)@.holder == r.ticket(),
            r.ticket() == old(registry)@.next_ticket,
            final(registry)@.next_ticket == ticket_after(old(registry)@.next_ticket),
    {
        let cancel_flag = CancelFlag::new();
        let ticket = registry.next_ticket;
        set_cancel_flag(registry, cancel_flag.share());
        BatchRunner { cancel_flag, ticket }
    }

    /// Ends the runner's hold on the record: forgets the running batch only if it is still
    /// this runner's.
    pub fn release(&self, registry: &mut CancelRegistry)
        ensures
            final(registry)@ == released(old(registry)@, self.ticket()),
    {
        release_cancel_flag(registry, self.ticket);
    }

    /// Cancels the batch.
    pub fn cancel(&self) {
        self.cancel_flag.raise();
    }

    /// Whether the batch has been cancelled; task handlers should look at it now and then.
    pub fn is_cancelled(&self) -> bool {
        self.cancel_flag.is_raised()
    }
}

/// How one task of a batch ended, as its handler saw it.
pub enum TaskOutcome {
    /// The batch was cancelled before the task ran.
    Cancelled,
    /// The handler succeeded; the sizes of the input and output files, where they could be read.
    Completed { original_size: Option<u64>, new_size: Option<u64> },
    /// The handler failed with this error.
    Failed(AppError),
}

/// Whether `r` is the result that `task` reports for `outcome`: the task's identity and paths
/// are kept; sizes are kept only for a completed task; a failure carries the error's text.
pub open spec fn settles(task: Task, outcome: TaskOutcome, r: TaskResult) -> bool {
    &&& r.task_id == task.id
    &&& r.input_path == task.input_path
    &&& r.output_path == task.output_path
    &&& match outcome {
        TaskOutcome::Cancelled => {
            &&& r.original_size is None
            &&& r.new_size is None
            &&& r.status is Cancelled
        },
        TaskOutcome::Completed { original_size, new_size } => {
            &&& r.original_size == original_size
            &&& r.new_size == new_size
            &&& r.status is Completed
        },
        TaskOutcome::Failed(e) => {
            &&& r.original_size is None
            &&& r.new_size is None
            &&& r.status matches TaskStatus::Failed(m) && m@ == e.text()
        },
    }
}

/// Settles one task of a batch: one task's failure is reported in its own result and stops
/// no other task.
pub fn settle_task(task: &Task, outcome: TaskOutcome) -> (r: TaskResult)
    ensures
        settles(*task, outcome, r),
{
    let (original_size, new_size, status) = match &outcome {
        TaskOutcome::Cancelled => (None, None, TaskStatus::Cancelled),
        TaskOutcome::Completed { original_size, new_size } => (
            *original_size,
            *new_size,
            TaskStatus::Completed,
        ),
        TaskOutcome::Failed(e) => (None, None, TaskStatus::Failed(e.message())),
    };
    TaskResult {
        task_id: task.id.clone(),
        input_path: task.input_path.clone(),
        output_path: task.output_path.clone(),
        original_size,
        new_size,
        status,
    }
}

/// Number of failed results.
pub open spec fn failed_count(s: Seq<TaskResult>) -> nat
    decreases s.len(),
{
    if s.len() == 0 {
        0
    } else {
        failed_count(s.drop_last()) + if s.last().status is Failed { 1nat } else { 0nat }
    }
}

/// Number of cancelled results.
pub open spec fn cancelled_count(s: Seq<TaskResult>) -> nat
    decreases s.len(),
{
    if s.len() == 0 {
        0
    } else {
        cancelled_count(s.drop_last()) + if s.last().status is Cancelled { 1nat } else { 0nat }
    }
}

/// Counts the failed results of a batch.
pub fn count_failed(results: &Vec<TaskResult>) -> (n: usize)
    ensures
        n == failed_count(results@),
{
    let mut n: usize = 0;
    let mut i: usize = 0;
    while i < results.len()
        invariant
            i <= results.len(),
            n <= i,
            n == failed_count(results@.take(i as int)),
        decreases results.len() - i,
    {
        assert(results@.take(i + 1).drop_last() =~= results@.take(i as int));
        match &results[i].status {
            TaskStatus::Failed(_) => {
                n = n + 1;
            },
            _ => {},
        }
        i = i + 1;
    }
    assert(results@.take(results.len() as int) =~= results@);
    n
}

/// Counts the cancelled results of a batch.
pub fn count_cancelled(results: &Vec<TaskResult>) -> (n: usize)
    ensures
        n == cancelled_count(results@),
{
    let mut n: usize = 0;
    let mut i: usize = 0;
    while i < results.len()
        invariant
            i <= results.len(),
            n <= i,
            n == cancelled_count(results@.take(i as int)),
        decreases results.len() - i,
    {
        assert(results@.take(i + 1).drop_last() =~= results@.take(i as int));
        match &results[i].status {
            TaskStatus::Cancelled => {
                n = n + 1;
            },
            _ => {},
        }
        i = i + 1;
    }
    assert(results@.take(results.len() as int) =~= results@);
    n
}

/// The report sent when a batch of `total` tasks starts.
pub fn start_progress(total: u32) -> (p: Progress)
    ensures
        p.current == 0,
        p.total == total,
        p.message@ == "开始处理..."@,
{
    Progress { current: 0, total, message: String::from_str("开始处理...") }
}

/// The report sent each time a task of a batch of `total` settles: `finished` tasks are done,
/// the latest being `result`, whose input file the note names.
pub fn task_progress(finished: u32, total: u32, result: &TaskResult) -> (p: Progress)
    ensures
        p.current == finished,
        p.total == total,
        p.message@ == result.input_path@,
{
    Progress { current: finished, total, message: result.input_path.clone() }
}

/// The text of the final report: successes, failures and cancellations.
pub open spec fn summary_text(succeeded: nat, failed: nat, cancelled: nat) -> Seq<char> {
    "完成:"@ + decimal(succeeded) + " 成功,"@ + decimal(failed) + " 失败,"@ + decimal(cancelled)
        + " 取消"@
}

/// The report sent when a batch of `total` tasks has finished with `results`; the tasks that
/// neither failed nor were cancelled count as successes.
pub fn finish_progress(total: u32, results: &Vec<TaskResult>) -> (p: Progress)
    requires
        failed_count(results@) + cancelled_count(results@) <= total,
    ensures
        p.current == total,
        p.total == total,
        p.message@ == summary_text(
            (total - failed_count(results@) - cancelled_count(results@)) as nat,
            failed_count(results@),
            cancelled_count(results@),
        ),
        p.message@ == "完成:"@ + decimal((total - failed_count(results@) - cancelled_count(results@)) as nat)
            + " 成功,"@ + decimal(failed_count(results@)) + " 失败,"@ + decimal(cancelled_count(results@))
            + " 取消"@,
{
    let failed = count_failed(results);
    let cancelled = count_cancelled(results);
    let succeeded: u64 = total as u64 - failed as u64 - cancelled as u64;
    let mut message = String::from_str("完成:");
    push_decimal(&mut message, succeeded);
    message.append(" 成功,");
    push_decimal(&mut message, failed as u64);
    message.append(" 失败,");
    push_decimal(&mut message, cancelled as u64);
    message.append(" 取消");
    Progress { current: total, total, message }
}

/// Failures and cancellations together never outnumber the results, so a batch's final report
/// never counts fewer than zero successes.
pub proof fn lemma_outcomes_bounded(s: Seq<TaskResult>)
    ensures
        failed_count(s) + cancelled_count(s) <= s.len(),
    decreases s.len(),
{
    if s.len() > 0 {
        lemma_outcomes_bounded(s.drop_last());
    }
}

/// Number of completed results.
pub open spec fn completed_count(s: Seq<TaskResult>) -> nat
    decreases s.len(),
{
    if s.len() == 0 {
        0
    } else {
        completed_count(s.drop_last()) + if s.last().status is Completed { 1nat } else { 0nat }
    }
}

/// When every result of a batch was settled (so each is completed, failed or cancelled), the
/// successes that the final report counts are exactly the completed tasks.
pub proof fn lemma_successes_are_completed(s: Seq<TaskResult>)
    requires
        forall|i: int|
            0 <= i < s.len() ==> (#[trigger] s[i]).status is Completed || s[i].status is Failed
                || s[i].status is Cancelled,
    ensures
        completed_count(s) == s.len() - failed_count(s) - cancelled_count(s),
    decreases s.len(),
{
    if s.len() > 0 {
        let rest = s.drop_last();
        assert forall|i: int| 0 <= i < rest.len() implies (#[trigger] rest[i]).status is Completed
            || rest[i].status is Failed || rest[i].status is Cancelled by {
            assert(rest[i] == s[i]);
        }
        lemma_successes_are_completed(rest);
        assert(s[s.len() - 1] == s.last());
    }
}

/// The final report reads, in this order: the successes, then " 成功,", the failures, then
/// " 失败,", the cancellations, then " 取消"; the three numbers are written in decimal.
pub proof fn lemma_summary_text_fields(succeeded: nat, failed: nat, cancelled: nat)
    ensures
        summary_text(succeeded, failed, cancelled) == "完成:"@ + decimal(succeeded) + " 成功,"@
            + decimal(failed) + " 失败,"@ + decimal(cancelled) + " 取消"@,
{
}

/// The failures a batch reports are its results whose status is `Failed`.
pub proof fn lemma_failed_count_is_filter_len(s: Seq<TaskResult>)
    ensures
        failed_count(s) == s.filter(|r: TaskResult| r.status is Failed).len(),
    decreases s.len(),
{
    reveal(Seq::filter);
    if s.len() > 0 {
        lemma_failed_count_is_filter_len(s.drop_last());
    }
}

/// The cancellations a batch reports are its results whose status is `Cancelled`.
pub proof fn lemma_cancelled_count_is_filter_len(s: Seq<TaskResult>)
    ensures
        cancelled_count(s) == s.filter(|r: TaskResult| r.status is Cancelled).len(),
    decreases s.len(),
{
    reveal(Seq::filter);
    if s.len() > 0 {
        lemma_cancelled_count_is_filter_len(s.drop_last());
    }
}

/// The completed tasks of a batch are its results whose status is `Completed`.
pub proof fn lemma_completed_count_is_filter_len(s: Seq<TaskResult>)
    ensures
        completed_count(s) == s.filter(|r: TaskResult| r.status is Completed).len(),
    decreases s.len(),
{
    reveal(Seq::filter);
    if s.len() > 0 {
        lemma_completed_count_is_filter_len(s.drop_last());
    }
}

/// Adding one failed result to a batch raises the failures by one and leaves the
/// cancellations as they were; adding one cancelled result does the reverse.
pub proof fn lemma_counts_of_one_more(s: Seq<TaskResult>, r: TaskResult)
    ensures
        r.status is Failed ==> failed_count(s.push(r)) == failed_count(s) + 1 && cancelled_count(s.push(r))
            == cancelled_count(s),
        r.status is Cancelled ==> cancelled_count(s.push(r)) == cancelled_count(s) + 1 && failed_count(
            s.push(r),
        ) == failed_count(s),
{
    assert(s.push(r).drop_last() =~= s);
}

/// Settling keeps the task's identity and paths; a completed task keeps the sizes its handler
/// measured, a failed one carries the error's text, and neither a failed nor a cancelled task
/// reports sizes.
pub proof fn lemma_settled_results(task: Task, outcome: TaskOutcome, r: TaskResult)
    requires
        settles(task, outcome, r),
    ensures
        r.task_id == task.id && r.input_path == task.input_path && r.output_path == task.output_path,
        outcome matches TaskOutcome::Completed { original_size, new_size } ==> r.status is Completed
            && r.original_size == original_size && r.new_size == new_size,
        outcome matches TaskOutcome::Failed(e) ==> (r.status matches TaskStatus::Failed(m) && m@
            == e.text()) && r.original_size is None && r.new_size is None,
        outcome is Cancelled ==> r.status is Cancelled && r.original_size is None && r.new_size is None,
{
}

} // verus!
