use file_toolkit::commands::ocr::{
    join_with_plus, select_png_pages, sort_pages, text_precedes, OcrAction, OcrEvent, OcrJob, OcrResult, PageEntry,
};
use file_toolkit::common::types::ToolCommand;

fn page(name: &str, ext: Option<&str>) -> PageEntry {
    PageEntry {
        path: format!("/t/{}", name),
        extension: ext.map(|e| e.to_string()),
        pdf_base: format!("/t/{}", name.split('.').next().unwrap()),
        pdf_file: format!("/t/{}.pdf", name.split('.').next().unwrap()),
    }
}

fn strings(v: &[&str]) -> Vec<String> {
    v.iter().map(|s| s.to_string()).collect()
}

fn new_job() -> OcrJob {
    let (job, first) = OcrJob::new("/in/scan.pdf", &strings(&["chi_sim", "eng"]), "/out/ocr.pdf", "/t/page");
    assert!(matches!(first, OcrAction::CheckTesseract));
    job
}

fn command(a: OcrAction) -> ToolCommand {
    match a {
        OcrAction::Split(c) | OcrAction::Recognize(c) | OcrAction::Merge(c) => c,
        _ => panic!("expected a command"),
    }
}

fn finish(a: OcrAction) -> (OcrResult, bool) {
    match a {
        OcrAction::Finish { result, remove_temp } => (result, remove_temp),
        _ => panic!("expected the end"),
    }
}

#[test]
fn languages_are_joined_with_plus() {
    assert_eq!(join_with_plus(&strings(&["chi_sim", "eng"])), "chi_sim+eng");
    assert_eq!(join_with_plus(&strings(&["eng"])), "eng");
    assert_eq!(join_with_plus(&Vec::new()), "");
}

#[test]
fn only_png_pages_are_kept() {
    let pages = select_png_pages(vec![page("page-1.png", Some("png")), page("x.ppm", Some("ppm")), page("y", None)]);
    assert_eq!(pages.len(), 1);
    assert_eq!(pages[0].path, "/t/page-1.png");
}

#[test]
fn ocr_succeeds_with_every_recognised_page_joined() {
    let mut job = new_job();
    let split = command(job.step(OcrEvent::ToolChecked(true)));
    assert_eq!(split.program, "pdftoppm");
    assert_eq!(split.args, strings(&["-png", "/in/scan.pdf", "/t/page"]));
    assert!(matches!(job.step(OcrEvent::Split(true)), OcrAction::ListPages));
    let listing = vec![page("page-1.png", Some("png")), page("notes.txt", Some("txt")), page("page-2.png", Some("png"))];
    let first = command(job.step(OcrEvent::Listed(listing)));
    assert_eq!(first.program, "tesseract");
    assert_eq!(first.args, strings(&["/t/page-1.png", "/t/page-1", "-l", "chi_sim+eng", "pdf"]));
    let second = command(job.step(OcrEvent::Recognized(true)));
    assert_eq!(second.args, strings(&["/t/page-2.png", "/t/page-2", "-l", "chi_sim+eng", "pdf"]));
    let merge = command(job.step(OcrEvent::Recognized(true)));
    assert_eq!(merge.program, "pdftk");
    assert_eq!(merge.args, strings(&["/t/page-1.pdf", "/t/page-2.pdf", "cat", "output", "/out/ocr.pdf"]));
    let (result, remove) = finish(job.step(OcrEvent::Merged(true)));
    assert!(remove);
    assert!(result.success);
    assert_eq!(result.msg, "PDF OCR识别完成，文件已生成");
    assert_eq!(result.output_pdf, Some("/out/ocr.pdf".to_string()));
}

#[test]
fn pages_that_fail_are_left_out() {
    let mut job = new_job();
    job.step(OcrEvent::ToolChecked(true));
    job.step(OcrEvent::Split(true));
    job.step(OcrEvent::Listed(vec![page("p1.png", Some("png")), page("p2.png", Some("png")), page("p3.png", Some("png"))]));
    job.step(OcrEvent::Recognized(false));
    job.step(OcrEvent::Recognized(true));
    let merge = command(job.step(OcrEvent::Recognized(false)));
    assert_eq!(merge.args, strings(&["/t/p2.pdf", "cat", "output", "/out/ocr.pdf"]));
    let (result, remove) = finish(job.step(OcrEvent::Merged(false)));
    assert!(remove);
    assert!(!result.success);
    assert_eq!(result.msg, "分页PDF合并失败，请安装pdftk");
    assert_eq!(result.output_pdf, None);
}

#[test]
fn missing_tesseract_stops_at_once() {
    let mut job = new_job();
    let (result, remove) = finish(job.step(OcrEvent::ToolChecked(false)));
    assert!(!remove);
    assert!(!result.success);
    assert_eq!(result.msg, "未检测到Tesseract识别工具，请先安装依赖");
}

#[test]
fn failed_split_is_reported() {
    let mut job = new_job();
    job.step(OcrEvent::ToolChecked(true));
    let (result, remove) = finish(job.step(OcrEvent::Split(false)));
    assert!(!remove);
    assert_eq!(result.msg, "PDF分页失败，请安装poppler工具");
}

#[test]
fn no_page_images_is_reported() {
    let mut job = new_job();
    job.step(OcrEvent::ToolChecked(true));
    job.step(OcrEvent::Split(true));
    let (result, _) = finish(job.step(OcrEvent::Listed(vec![page("readme.txt", Some("txt"))])));
    assert_eq!(result.msg, "PDF分页图片为空，原文件损坏");
}

#[test]
fn every_page_failing_is_reported() {
    let mut job = new_job();
    job.step(OcrEvent::ToolChecked(true));
    job.step(OcrEvent::Split(true));
    job.step(OcrEvent::Listed(vec![page("p1.png", Some("png"))]));
    let (result, remove) = finish(job.step(OcrEvent::Recognized(false)));
    assert!(!remove);
    assert_eq!(result.msg, "所有页面OCR识别失败");
}

#[test]
fn a_job_takes_only_the_answer_it_waits_for() {
    let job = new_job();
    assert!(job.accepts_event(&OcrEvent::ToolChecked(true)));
    assert!(!job.accepts_event(&OcrEvent::Split(true)));
    assert!(!job.accepts_event(&OcrEvent::Merged(true)));
}

#[test]
fn pages_are_recognised_and_joined_in_page_order() {
    let mut job = new_job();
    job.step(OcrEvent::ToolChecked(true));
    job.step(OcrEvent::Split(true));
    let listing = vec![page("page-03.png", Some("png")), page("page-01.png", Some("png")), page("page-02.png", Some("png"))];
    let first = command(job.step(OcrEvent::Listed(listing)));
    assert_eq!(first.args[0], "/t/page-01.png");
    let second = command(job.step(OcrEvent::Recognized(true)));
    assert_eq!(second.args[0], "/t/page-02.png");
    job.step(OcrEvent::Recognized(true));
    let merge = command(job.step(OcrEvent::Recognized(true)));
    assert_eq!(
        merge.args,
        strings(&["/t/page-01.pdf", "/t/page-02.pdf", "/t/page-03.pdf", "cat", "output", "/out/ocr.pdf"])
    );
}

#[test]
fn text_order_puts_prefixes_first() {
    assert!(text_precedes("page-1", "page-2"));
    assert!(!text_precedes("page-2", "page-1"));
    assert!(text_precedes("page", "page-1"));
    assert!(text_precedes("页-1", "页-1"));
    let sorted = sort_pages(vec![page("b.png", Some("png")), page("a.png", Some("png")), page("c.png", Some("png"))]);
    let paths: Vec<&str> = sorted.iter().map(|p| p.path.as_str()).collect();
    assert_eq!(paths, vec!["/t/a.png", "/t/b.png", "/t/c.png"]);
}
