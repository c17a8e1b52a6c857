use file_toolkit::commands::greet;
use file_toolkit::common::dependency::{probe_command, tool_available, ExternalTool};
use file_toolkit::common::error::AppError;
use file_toolkit::common::text::{decimal_string, push_decimal, same_text};
use file_toolkit::common::types::ToolRun;

#[test]
fn decimal_renders_like_format() {
    assert_eq!(decimal_string(0), "0");
    assert_eq!(decimal_string(7), "7");
    assert_eq!(decimal_string(10), "10");
    assert_eq!(decimal_string(1234567), "1234567");
    assert_eq!(decimal_string(u64::MAX), u64::MAX.to_string());
    let mut s = String::from("n=");
    push_decimal(&mut s, 305);
    assert_eq!(s, "n=305");
}

#[test]
fn same_text_compares_contents() {
    assert!(same_text("png", "png"));
    assert!(!same_text("png", "PNG"));
    assert!(!same_text("png", "pn"));
}

#[test]
fn error_messages_match_each_variant() {
    assert_eq!(AppError::FileNotFound("a.txt".into()).message(), "文件不存在: a.txt");
    assert_eq!(AppError::Io("disk full".into()).message(), "IO 错误: disk full");
    assert_eq!(AppError::UnsupportedFormat("bmp".into()).message(), "不支持的格式: bmp");
    assert_eq!(AppError::TaskCancelled.message(), "任务已取消");
    assert_eq!(AppError::ProcessingFailed("x".into()).message(), "处理失败: x");
    assert_eq!(
        AppError::DependencyNotFound("ffmpeg".into()).message(),
        "未找到依赖: ffmpeg。请安装后重试。"
    );
    assert_eq!(AppError::InvalidParameter("q".into()).message(), "参数无效: q");
    assert_eq!(AppError::PermissionDenied("/root".into()).message(), "权限不足: /root");
}

#[test]
fn error_constructors_carry_descriptions() {
    match AppError::io("broken pipe".to_string()) {
        AppError::Io(s) => assert_eq!(s, "broken pipe"),
        other => panic!("unexpected {:?}", other),
    }
    let e = AppError::json_failure("expected value at line 1");
    assert_eq!(e.message(), "处理失败: JSON 序列化失败: expected value at line 1");
    let e = AppError::thread_pool_failure("no threads");
    match &e {
        AppError::ProcessingFailed(s) => assert_eq!(s, "创建线程池失败: no threads"),
        other => panic!("unexpected {:?}", other),
    }
}

#[test]
fn greet_answers_with_the_name() {
    assert_eq!(greet("世界"), "来自 Rust 后端的问候:你好,世界!FileToolkit 已就绪。");
    assert_eq!(greet(""), "来自 Rust 后端的问候:你好,!FileToolkit 已就绪。");
}

#[test]
fn probes_ask_each_tool_for_its_version() {
    let c = probe_command(ExternalTool::Tesseract);
    assert_eq!(c.program, "tesseract");
    assert_eq!(c.args, vec!["--version".to_string()]);
    let c = probe_command(ExternalTool::Poppler);
    assert_eq!(c.program, "pdftoppm");
    assert_eq!(c.args, vec!["-v".to_string()]);
    let c = probe_command(ExternalTool::Pdftk);
    assert_eq!(c.program, "pdftk");
    assert_eq!(c.args, vec!["--version".to_string()]);
}

#[test]
fn a_tool_is_available_only_after_a_successful_probe() {
    assert!(tool_available(&ToolRun::Succeeded));
    assert!(!tool_available(&ToolRun::Failed));
    assert!(!tool_available(&ToolRun::NotStarted("not found".into())));
}
