use file_toolkit::common::error::AppError;
use file_toolkit::common::types::{Task, TaskResult, TaskStatus};
use file_toolkit::worker::{
    cancel_batch, cancel_target, clear_cancel_flag, release_cancel_flag, task_progress, count_cancelled, count_failed, finish_progress,
    get_cancel_flag, set_cancel_flag, settle_task, start_progress, BatchRunner, CancelFlag,
    CancelRegistry, TaskOutcome,
};

fn task(id: &str) -> Task {
    Task {
        id: id.to_string(),
        input_path: format!("/in/{}.png", id),
        output_path: format!("/out/{}.webp", id),
        status: TaskStatus::Pending,
        params: "{}".to_string(),
    }
}

fn result_with(status: TaskStatus) -> TaskResult {
    TaskResult {
        task_id: "t".into(),
        input_path: "i".into(),
        output_path: "o".into(),
        original_size: None,
        new_size: None,
        status,
    }
}

#[test]
fn cancel_is_refused_when_no_batch_runs() {
    let registry = CancelRegistry::new();
    assert_eq!(cancel_batch(&registry), Err("没有正在执行的任务".to_string()));
    assert!(get_cancel_flag(&registry).is_none());
}

#[test]
fn cancel_raises_the_flag_of_the_running_batch() {
    let mut registry = CancelRegistry::new();
    let flag = CancelFlag::new();
    set_cancel_flag(&mut registry, flag.share());
    assert!(!flag.is_raised());
    assert_eq!(cancel_batch(&registry), Ok(()));
    assert!(flag.is_raised());
    assert!(get_cancel_flag(&registry).unwrap().is_raised());
    clear_cancel_flag(&mut registry);
    assert!(get_cancel_flag(&registry).is_none());
    assert!(cancel_batch(&registry).is_err());
}

#[test]
fn a_new_runner_is_the_one_cancel_reaches() {
    let mut registry = CancelRegistry::new();
    let runner = BatchRunner::new(&mut registry);
    assert!(!runner.is_cancelled());
    assert_eq!(cancel_batch(&registry), Ok(()));
    assert!(runner.is_cancelled());
    let second = BatchRunner::new(&mut registry);
    assert!(!second.is_cancelled());
    second.cancel();
    assert!(second.is_cancelled());
}

#[test]
fn settling_keeps_the_task_and_reports_its_outcome() {
    let t = task("a");
    let r = settle_task(&t, TaskOutcome::Cancelled);
    assert_eq!(r.task_id, "a");
    assert_eq!(r.input_path, "/in/a.png");
    assert_eq!(r.output_path, "/out/a.webp");
    assert_eq!(r.status, TaskStatus::Cancelled);
    assert_eq!(r.original_size, None);

    let r = settle_task(&t, TaskOutcome::Completed { original_size: Some(2048), new_size: Some(512) });
    assert_eq!(r.status, TaskStatus::Completed);
    assert_eq!(r.original_size, Some(2048));
    assert_eq!(r.new_size, Some(512));

    let r = settle_task(&t, TaskOutcome::Failed(AppError::UnsupportedFormat("tiff".into())));
    assert_eq!(r.status, TaskStatus::Failed("不支持的格式: tiff".into()));
    assert_eq!(r.new_size, None);
}

#[test]
fn one_failure_does_not_touch_the_others() {
    let tasks = vec![task("a"), task("b"), task("c")];
    let outcomes = vec![
        TaskOutcome::Completed { original_size: Some(1), new_size: Some(1) },
        TaskOutcome::Failed(AppError::TaskCancelled),
        TaskOutcome::Completed { original_size: None, new_size: None },
    ];
    let results: Vec<TaskResult> =
        tasks.iter().zip(outcomes).map(|(t, o)| settle_task(t, o)).collect();
    assert_eq!(results.len(), 3);
    assert_eq!(results[0].status, TaskStatus::Completed);
    assert_eq!(results[1].status, TaskStatus::Failed("任务已取消".into()));
    assert_eq!(results[2].status, TaskStatus::Completed);
    assert_eq!(results[2].task_id, "c");
}

#[test]
fn counting_failures_and_cancellations() {
    let results = vec![
        result_with(TaskStatus::Completed),
        result_with(TaskStatus::Failed("x".into())),
        result_with(TaskStatus::Cancelled),
        result_with(TaskStatus::Failed("y".into())),
        result_with(TaskStatus::Cancelled),
        result_with(TaskStatus::Cancelled),
    ];
    assert_eq!(count_failed(&results), 2);
    assert_eq!(count_cancelled(&results), 3);
    assert_eq!(count_failed(&Vec::new()), 0);
}

#[test]
fn progress_reports_start_and_summary() {
    let p = start_progress(12);
    assert_eq!(p.current, 0);
    assert_eq!(p.total, 12);
    assert_eq!(p.message, "开始处理...");

    let results = vec![
        result_with(TaskStatus::Completed),
        result_with(TaskStatus::Failed("x".into())),
        result_with(TaskStatus::Cancelled),
        result_with(TaskStatus::Completed),
    ];
    let p = finish_progress(4, &results);
    assert_eq!(p.current, 4);
    assert_eq!(p.total, 4);
    assert_eq!(p.message, "完成:2 成功,1 失败,1 取消");

    let p = finish_progress(0, &Vec::new());
    assert_eq!(p.message, "完成:0 成功,0 失败,0 取消");
}

#[test]
fn releasing_an_older_runner_keeps_the_newer_cancellable() {
    let mut registry = CancelRegistry::new();
    let first = BatchRunner::new(&mut registry);
    let second = BatchRunner::new(&mut registry);
    first.release(&mut registry);
    assert_eq!(cancel_batch(&registry), Ok(()));
    assert!(second.is_cancelled());
    assert!(!first.is_cancelled());
    second.release(&mut registry);
    assert!(get_cancel_flag(&registry).is_none());
    assert!(cancel_batch(&registry).is_err());
}

#[test]
fn releasing_a_foreign_ticket_changes_nothing() {
    let mut registry = CancelRegistry::new();
    let runner = BatchRunner::new(&mut registry);
    release_cancel_flag(&mut registry, 7);
    assert!(get_cancel_flag(&registry).is_some());
    release_cancel_flag(&mut registry, 0);
    assert!(get_cancel_flag(&registry).is_none());
    assert!(!runner.is_cancelled());
}

#[test]
fn cancel_target_is_the_running_batch_flag() {
    let mut registry = CancelRegistry::new();
    assert_eq!(cancel_target(&registry).err(), Some("没有正在执行的任务".to_string()));
    let runner = BatchRunner::new(&mut registry);
    let flag = cancel_target(&registry).ok().unwrap();
    flag.raise();
    assert!(runner.is_cancelled());
}

#[test]
fn each_settled_task_is_reported_with_the_count_so_far() {
    let r = settle_task(&task("x"), TaskOutcome::Cancelled);
    let p = task_progress(3, 5, &r);
    assert_eq!(p.current, 3);
    assert_eq!(p.total, 5);
    assert_eq!(p.message, "/in/x.png");
}
