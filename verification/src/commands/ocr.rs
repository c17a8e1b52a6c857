//! Making a PDF searchable: the decisions of the OCR command, as a job that is told what each
//! external step gave and answers with the next step to take.
//!
//! The steps are: check that Tesseract is installed; render the PDF's pages as PNG images with
//! `pdftoppm`; list the images; run Tesseract on each image, which writes a one-page PDF with a
//! text layer; join the one-page PDFs with `pdftk`.

use vstd::prelude::*;

use crate::common::text::same_text;
use crate::common::types::{arg_views, push_arg, ToolCommand};

verus! {

/// What the OCR command reports.
#[derive(Debug, Clone)]
pub struct OcrResult {
    /// Whether a searchable PDF was written.
    pub success: bool,
    /// A note for the user.
    pub msg: String,
    /// The PDF that was written, on success.
    pub output_pdf: Option<String>,
}

/// An entry of the folder the pages were rendered into, with the paths its OCR output would get.
#[derive(Debug)]
pub struct PageEntry {
    /// The entry's path.
    pub path: String,
    /// The entry's extension, where it has one that is valid text.
    pub extension: Option<String>,
    /// The output base Tesseract is given for it: the folder joined with the entry's file stem.
    pub pdf_base: String,
    /// The PDF Tesseract then writes: the output base with the extension `pdf`.
    pub pdf_file: String,
}

impl Clone for PageEntry {
    fn clone(&self) -> (r: Self)
        ensures
            r == *self,
    {
        PageEntry {
            path: self.path.clone(),
            extension: match &self.extension {
                Some(x) => Some(x.clone()),
                None => None,
            },
            pdf_base: self.pdf_base.clone(),
            pdf_file: self.pdf_file.clone(),
        }
    }
}

/// Where an OCR job stands: which answer it waits for.
#[derive(Debug, Clone, Copy, PartialEq, Eq, Structural)]
pub enum OcrStage {
    /// Waiting to hear whether Tesseract is installed.
    CheckingTool,
    /// Waiting for the pages to be rendered.
    Splitting,
    /// Waiting for the listing of the rendered pages.
    Listing,
    /// Waiting for Tesseract's run on the current page.
    Recognizing,
    /// Waiting for the one-page PDFs to be joined.
    Merging,
    /// Done; it waits for nothing.
    Finished,
}

/// What the outside world tells a job.
pub enum OcrEvent {
    /// Whether Tesseract is installed.
    ToolChecked(bool),
    /// Whether `pdftoppm` started and succeeded.
    Split(bool),
    /// The entries of the folder the pages were rendered into (empty if it could not be read).
    Listed(Vec<PageEntry>),
    /// Whether Tesseract started and succeeded on the current page.
    Recognized(bool),
    /// Whether `pdftk` started and succeeded.
    Merged(bool),
}

/// What a job asks the outside world to do next.
pub enum OcrAction {
    /// Find out whether Tesseract is installed.
    CheckTesseract,
    /// Create the folder for the pages (ignoring failure), then run this command.
    Split(ToolCommand),
    /// List the folder the pages were rendered into.
    ListPages,
    /// Run Tesseract with this command line.
    Recognize(ToolCommand),
    /// Run `pdftk` with this command line.
    Merge(ToolCommand),
    /// Stop: delete the folder for the pages first if `remove_temp` is set, then report `result`.
    Finish { result: OcrResult, remove_temp: bool },
}

/// An OCR job in progress.
pub struct OcrJob {
    stage: OcrStage,
    input: String,
    output: String,
    page_prefix: String,
    lang: String,
    pages: Vec<PageEntry>,
    next: usize,
    made: Vec<String>,
}

/// The abstract state of an OCR job.
pub struct OcrJobView {
    /// Which answer the job waits for.
    pub stage: OcrStage,
    /// The PDF to read.
    pub input: Seq<char>,
    /// The PDF to write.
    pub output: Seq<char>,
    /// The prefix `pdftoppm` names the page images with.
    pub page_prefix: Seq<char>,
    /// The languages to recognise, joined with `+`.
    pub lang: Seq<char>,
    /// The PNG page images, in listing order.
    pub pages: Seq<PageEntry>,
    /// The page Tesseract runs on now.
    pub next: nat,
    /// The one-page PDFs written so far.
    pub made: Seq<String>,
}

impl View for OcrJob {
    type V = OcrJobView;

    closed spec fn view(&self) -> OcrJobView {
        OcrJobView {
            stage: self.stage,
            input: self.input@,
            output: self.output@,
            page_prefix: self.page_prefix@,
            lang: self.lang@,
            pages: self.pages@,
            next: self.next as nat,
            made: self.made@,
        }
    }
}

/// `parts` joined with `sep` between each two.
pub open spec fn joined(parts: Seq<Seq<char>>, sep: Seq<char>) -> Seq<char>
    decreases parts.len(),
{
    if parts.len() == 0 {
        seq![]
    } else if parts.len() == 1 {
        parts[0]
    } else {
        joined(parts.drop_last(), sep) + sep + parts.last()
    }
}

/// Whether an entry is a PNG image.
pub open spec fn is_png(e: PageEntry) -> bool {
    e.extension matches Some(x) && x@ == "png"@
}

/// The PNG images among `entries`, in order.
pub open spec fn png_pages(entries: Seq<PageEntry>) -> Seq<PageEntry>
    decreases entries.len(),
{
    if entries.len() == 0 {
        seq![]
    } else {
        let earlier = png_pages(entries.drop_last());
        if is_png(entries.last()) {
            earlier.push(entries.last())
        } else {
            earlier
        }
    }
}

/// Whether `r` reports `success` with the note `msg` and the written PDF `out`.
pub open spec fn reports(r: OcrResult, success: bool, msg: Seq<char>, out: Option<Seq<char>>) -> bool {
    &&& r.success == success
    &&& r.msg@ == msg
    &&& match out {
        Some(o) => r.output_pdf matches Some(p) && p@ == o,
        None => r.output_pdf is None,
    }
}

/// The note when Tesseract is missing.
pub open spec fn no_tesseract_text() -> Seq<char> {
    "未检测到Tesseract识别工具，请先安装依赖"@
}

/// The note when the pages could not be rendered.
pub open spec fn split_failed_text() -> Seq<char> {
    "PDF分页失败，请安装poppler工具"@
}

/// The note when no page image was found.
pub open spec fn no_pages_text() -> Seq<char> {
    "PDF分页图片为空，原文件损坏"@
}

/// The note when Tesseract failed on every page.
pub open spec fn all_pages_failed_text() -> Seq<char> {
    "所有页面OCR识别失败"@
}

/// The note when the one-page PDFs could not be joined.
pub open spec fn merge_failed_text() -> Seq<char> {
    "分页PDF合并失败，请安装pdftk"@
}

/// The note on success.
pub open spec fn done_text() -> Seq<char> {
    "PDF OCR识别完成，文件已生成"@
}

/// The arguments of Tesseract's run on `page`.
pub open spec fn tesseract_args(page: PageEntry, lang: Seq<char>) -> Seq<Seq<char>> {
    seq![page.path@, page.pdf_base@, "-l"@, lang, "pdf"@]
}

/// The arguments of `pdftk` joining `made` into `output`.
pub open spec fn pdftk_args(made: Seq<String>, output: Seq<char>) -> Seq<Seq<char>> {
    arg_views(made) + seq!["cat"@, "output"@, output]
}

/// The rank of a stage: every step of a job lowers it, or keeps it and lowers the pages left.
pub open spec fn stage_rank(s: OcrStage) -> nat {
    match s {
        OcrStage::CheckingTool => 5,
        OcrStage::Splitting => 4,
        OcrStage::Listing => 3,
        OcrStage::Recognizing => 2,
        OcrStage::Merging => 1,
        OcrStage::Finished => 0,
    }
}

/// Whether a job in stage `s` takes `e`: each stage takes the answer it waits for.
pub open spec fn accepts(s: OcrStage, e: OcrEvent) -> bool {
    match e {
        OcrEvent::ToolChecked(_) => s == OcrStage::CheckingTool,
        OcrEvent::Split(_) => s == OcrStage::Splitting,
        OcrEvent::Listed(_) => s == OcrStage::Listing,
        OcrEvent::Recognized(_) => s == OcrStage::Recognizing,
        OcrEvent::Merged(_) => s == OcrStage::Merging,
    }
}

impl OcrJob {
    /// The job's internal consistency: while it recognises, the current page exists.
    pub closed spec fn wf(&self) -> bool {
        &&& self.next <= self.pages.len()
        &&& self.stage == OcrStage::Recognizing ==> self.next < self.pages.len()
    }

    /// A job that makes `input` searchable into `output`, recognising `languages`, with the page
    /// images named from `page_prefix`; its first request is to check for Tesseract.
    pub fn new(input: &str, languages: &Vec<String>, output: &str, page_prefix: &str) -> (r: (OcrJob, OcrAction))
        ensures
            r.0.wf(),
            r.0@.stage == OcrStage::CheckingTool,
            r.0@.input == input@,
            r.0@.output == output@,
            r.0@.page_prefix == page_prefix@,
            r.0@.lang == joined(arg_views(languages@), "+"@),
            r.0@.pages.len() == 0,
            r.0@.next == 0,
            r.0@.made.len() == 0,
            r.1 is CheckTesseract,
    {
        let job = OcrJob {
            stage: OcrStage::CheckingTool,
            input: String::from_str(input),
            output: String::from_str(output),
            page_prefix: String::from_str(page_prefix),
            lang: join_with_plus(languages),
            pages: Vec::new(),
            next: 0,
            made: Vec::new(),
        };
        (job, OcrAction::CheckTesseract)
    }

    /// Whether the job takes `event` now.
    pub fn accepts_event(&self, event: &OcrEvent) -> (r: bool)
        ensures
            r == accepts(self@.stage, *event),
    {
        match event {
            OcrEvent::ToolChecked(_) => self.stage == OcrStage::CheckingTool,
            OcrEvent::Split(_) => self.stage == OcrStage::Splitting,
            OcrEvent::Listed(_) => self.stage == OcrStage::Listing,
            OcrEvent::Recognized(_) => self.stage == OcrStage::Recognizing,
            OcrEvent::Merged(_) => self.stage == OcrStage::Merging,
        }
    }
}

/// Whether a step kept what the job was set up with.
pub open spec fn keeps_setup(a: OcrJobView, b: OcrJobView) -> bool {
    &&& b.input == a.input
    &&& b.output == a.output
    &&& b.page_prefix == a.page_prefix
    &&& b.lang == a.lang
}

/// Whether `cmd` runs `program` with the arguments `args`.
pub open spec fn runs(cmd: ToolCommand, program: Seq<char>, args: Seq<Seq<char>>) -> bool {
    cmd.program@ == program && arg_views(cmd.args@) == args
}

/// Whether the job is finished and `act` reports `success`, `msg` and `out`, deleting the folder
/// of the pages exactly when `remove` is set.
pub open spec fn finishes(
    b: OcrJobView,
    act: OcrAction,
    success: bool,
    msg: Seq<char>,
    out: Option<Seq<char>>,
    remove: bool,
) -> bool {
    &&& b.stage == OcrStage::Finished
    &&& act matches OcrAction::Finish { result, remove_temp } && reports(result, success, msg, out)
        && remove_temp == remove
}

/// Whether the job now recognises page `n` of `pages`, with `made` written so far, and asks for it.
pub open spec fn recognizes(b: OcrJobView, act: OcrAction, pages: Seq<PageEntry>, n: nat, made: Seq<String>) -> bool {
    &&& b.stage == OcrStage::Recognizing
    &&& b.pages == pages
    &&& b.next == n
    &&& b.made == made
    &&& n < pages.len()
    &&& act matches OcrAction::Recognize(c) && runs(c, "tesseract"@, tesseract_args(pages[n as int], b.lang))
}

/// One step of the OCR command: how the job `a`, told `e`, becomes `b` and what it asks next.
pub open spec fn ocr_step(a: OcrJobView, e: OcrEvent, b: OcrJobView, act: OcrAction) -> bool {
    &&& keeps_setup(a, b)
    &&& match e {
        OcrEvent::ToolChecked(ok) => if ok {
            &&& b.stage == OcrStage::Splitting
            &&& b.pages == a.pages && b.next == a.next && b.made == a.made
            &&& act matches OcrAction::Split(c) && runs(c, "pdftoppm"@, seq!["-png"@, a.input, a.page_prefix])
        } else {
            finishes(b, act, false, no_tesseract_text(), None, false)
        },
        OcrEvent::Split(ok) => if ok {
            &&& b.stage == OcrStage::Listing
            &&& b.pages == a.pages && b.next == a.next && b.made == a.made
            &&& act is ListPages
        } else {
            finishes(b, act, false, split_failed_text(), None, false)
        },
        OcrEvent::Listed(entries) => {
            let pngs = png_pages(entries@);
            if pngs.len() == 0 {
                finishes(b, act, false, no_pages_text(), None, false)
            } else {
                &&& b.pages.to_multiset() == pngs.to_multiset()
                &&& in_page_order(b.pages)
                &&& recognizes(b, act, b.pages, 0, seq![])
            }
        },
        OcrEvent::Recognized(ok) => {
            let made = if ok { a.made.push(a.pages[a.next as int].pdf_file) } else { a.made };
            let n = a.next + 1;
            if n < a.pages.len() {
                recognizes(b, act, a.pages, n, made)
            } else if made.len() == 0 {
                finishes(b, act, false, all_pages_failed_text(), None, false)
            } else {
                &&& b.stage == OcrStage::Merging
                &&& b.pages == a.pages
                &&& b.next == n
                &&& b.made == made
                &&& act matches OcrAction::Merge(c) && runs(c, "pdftk"@, pdftk_args(made, a.output))
            }
        },
        OcrEvent::Merged(ok) => if ok {
            finishes(b, act, true, done_text(), Some(a.output), true)
        } else {
            finishes(b, act, false, merge_failed_text(), None, true)
        },
    }
}

/// Whether `b` is nearer the end than `a`: a lower stage, or the same stage with fewer pages left.
pub open spec fn nearer_end(a: OcrJobView, b: OcrJobView) -> bool {
    ||| stage_rank(b.stage) < stage_rank(a.stage)
    ||| stage_rank(b.stage) == stage_rank(a.stage) && b.pages.len() - b.next < a.pages.len() - a.next
}

fn failure(msg: &str) -> (r: OcrResult)
    ensures
        reports(r, false, msg@, None),
{
    OcrResult { success: false, msg: String::from_str(msg), output_pdf: None }
}

impl OcrJob {
    fn recognize_command(&self) -> (r: ToolCommand)
        requires
            self.next < self.pages.len(),
        ensures
            runs(r, "tesseract"@, tesseract_args(self.pages@[self.next as int], self.lang@)),
    {
        let page = &self.pages[self.next];
        let mut args: Vec<String> = Vec::new();
        push_arg(&mut args, page.path.as_str());
        push_arg(&mut args, page.pdf_base.as_str());
        push_arg(&mut args, "-l");
        push_arg(&mut args, self.lang.as_str());
        push_arg(&mut args, "pdf");
        assert(arg_views(Seq::<String>::empty()) =~= Seq::<Seq<char>>::empty());
        assert(arg_views(args@) =~= tesseract_args(self.pages@[self.next as int], self.lang@));
        ToolCommand { program: String::from_str("tesseract"), args }
    }

    fn merge_command(&self) -> (r: ToolCommand)
        ensures
            runs(r, "pdftk"@, pdftk_args(self.made@, self.output@)),
    {
        let mut args: Vec<String> = Vec::new();
        let mut i: usize = 0;
        while i < self.made.len()
            invariant
                i <= self.made.len(),
                arg_views(args@) == arg_views(self.made@.take(i as int)),
            decreases self.made.len() - i,
        {
            assert(arg_views(self.made@.take(i + 1)) =~= arg_views(self.made@.take(i as int)).push(self.made[i as int]@));
            push_arg(&mut args, self.made[i].as_str());
            i = i + 1;
        }
        assert(self.made@.take(self.made.len() as int) =~= self.made@);
        push_arg(&mut args, "cat");
        push_arg(&mut args, "output");
        push_arg(&mut args, self.output.as_str());
        assert(arg_views(args@) =~= pdftk_args(self.made@, self.output@));
        ToolCommand { program: String::from_str("pdftk"), args }
    }

    /// Tells the job what the step it asked for gave, and returns the next step. Every step
    /// moves the job nearer its end, so a job finishes after finitely many steps.
    pub fn step(&mut self, event: OcrEvent) -> (act: OcrAction)
        requires
            old(self).wf(),
            accepts(old(self)@.stage, event),
        ensures
            final(self).wf(),
            ocr_step(old(self)@, event, final(self)@, act),
            nearer_end(old(self)@, final(self)@),
    {
        match event {
            OcrEvent::ToolChecked(ok) => {
                if ok {
                    self.stage = OcrStage::Splitting;
                    let mut args: Vec<String> = Vec::new();
                    push_arg(&mut args, "-png");
                    push_arg(&mut args, self.input.as_str());
                    push_arg(&mut args, self.page_prefix.as_str());
                    assert(arg_views(Seq::<String>::empty()) =~= Seq::<Seq<char>>::empty());
                    assert(arg_views(args@) =~= seq!["-png"@, self.input@, self.page_prefix@]);
                    OcrAction::Split(ToolCommand { program: String::from_str("pdftoppm"), args })
                } else {
                    self.stage = OcrStage::Finished;
                    OcrAction::Finish {
                        result: failure("未检测到Tesseract识别工具，请先安装依赖"),
                        remove_temp: false,
                    }
                }
            },
            OcrEvent::Split(ok) => {
                if ok {
                    self.stage = OcrStage::Listing;
                    OcrAction::ListPages
                } else {
                    self.stage = OcrStage::Finished;
                    OcrAction::Finish { result: failure("PDF分页失败，请安装poppler工具"), remove_temp: false }
                }
            },
            OcrEvent::Listed(entries) => {
                let pngs = select_png_pages(entries);
                let pages = sort_pages(pngs);
                proof {
                    vstd::seq_lib::to_multiset_len(pages@);
                    vstd::seq_lib::to_multiset_len(png_pages(entries@));
                }
                if pages.len() == 0 {
                    self.stage = OcrStage::Finished;
                    OcrAction::Finish { result: failure("PDF分页图片为空，原文件损坏"), remove_temp: false }
                } else {
                    self.pages = pages;
                    self.next = 0;
                    self.made = Vec::new();
                    self.stage = OcrStage::Recognizing;
                    OcrAction::Recognize(self.recognize_command())
                }
            },
            OcrEvent::Recognized(ok) => {
                if ok {
                    let made = self.pages[self.next].pdf_file.clone();
                    self.made.push(made);
                }
                self.next = self.next + 1;
                if self.next < self.pages.len() {
                    OcrAction::Recognize(self.recognize_command())
                } else if self.made.len() == 0 {
                    self.stage = OcrStage::Finished;
                    OcrAction::Finish { result: failure("所有页面OCR识别失败"), remove_temp: false }
                } else {
                    self.stage = OcrStage::Merging;
                    OcrAction::Merge(self.merge_command())
                }
            },
            OcrEvent::Merged(ok) => {
                self.stage = OcrStage::Finished;
                if ok {
                    OcrAction::Finish {
                        result: OcrResult {
                            success: true,
                            msg: String::from_str("PDF OCR识别完成，文件已生成"),
                            output_pdf: Some(self.output.clone()),
                        },
                        remove_temp: true,
                    }
                } else {
                    OcrAction::Finish { result: failure("分页PDF合并失败，请安装pdftk"), remove_temp: true }
                }
            },
        }
    }
}

/// The PNG images of a listing, in order.
pub fn select_png_pages(entries: Vec<PageEntry>) -> (r: Vec<PageEntry>)
    ensures
        r@ == png_pages(entries@),
{
    let mut r: Vec<PageEntry> = Vec::new();
    let mut i: usize = 0;
    while i < entries.len()
        invariant
            i <= entries.len(),
            r@ == png_pages(entries@.take(i as int)),
        decreases entries.len() - i,
    {
        assert(entries@.take(i + 1).drop_last() =~= entries@.take(i as int));
        let keep = match &entries[i].extension {
            Some(x) => same_text(x.as_str(), "png"),
            None => false,
        };
        if keep {
            r.push(entries[i].clone());
        }
        i = i + 1;
    }
    assert(entries@.take(entries.len() as int) =~= entries@);
    r
}

/// `languages` joined with `+`, as Tesseract's `-l` option takes them.
pub fn join_with_plus(languages: &Vec<String>) -> (r: String)
    ensures
        r@ == joined(arg_views(languages@), "+"@),
{
    let mut r = String::new();
    let mut i: usize = 0;
    while i < languages.len()
        invariant
            i <= languages.len(),
            r@ == joined(arg_views(languages@.take(i as int)), "+"@),
        decreases languages.len() - i,
    {
        assert(arg_views(languages@.take(i + 1)).drop_last() =~= arg_views(languages@.take(i as int)));
        assert(arg_views(languages@.take(i + 1)).last() == languages[i as int]@);
        if i > 0 {
            r.append("+");
        } else {
            assert(r@ =~= Seq::<char>::empty());
            assert(arg_views(languages@.take(1)) =~= seq![languages[0]@]);
        }
        r.append(languages[i].as_str());
        i = i + 1;
    }
    assert(languages@.take(languages.len() as int) =~= languages@);
    r
}

/// Whether text `a` comes before text `b`, or equals it, in character order (a prefix first).
pub open spec fn text_le(a: Seq<char>, b: Seq<char>) -> bool
    decreases a.len(),
{
    if a.len() == 0 {
        true
    } else if b.len() == 0 {
        false
    } else if a[0] == b[0] {
        text_le(a.drop_first(), b.drop_first())
    } else {
        a[0] < b[0]
    }
}

/// Whether pages are in page order: their paths rise in character order. `pdftoppm` pads the
/// page numbers of one document to one width, so this is the order of the pages.
pub open spec fn in_page_order(pages: Seq<PageEntry>) -> bool {
    forall|a: int, b: int| 0 <= a < b < pages.len() ==> text_le(pages[a].path@, pages[b].path@)
}

/// Character order is decided at the first difference: where `a` and `b` agree before
/// position `i` and differ at `i`, `a` comes first exactly when its character at `i` has the
/// smaller code point.
pub proof fn lemma_text_le_first_difference(a: Seq<char>, b: Seq<char>, i: int)
    requires
        0 <= i < a.len(),
        i < b.len(),
        a.take(i) == b.take(i),
        a[i] != b[i],
    ensures
        text_le(a, b) <==> a[i] < b[i],
    decreases i,
{
    if i > 0 {
        assert(a[0] == a.take(i)[0] && b[0] == b.take(i)[0]);
        assert(a.drop_first().take(i - 1) =~= b.drop_first().take(i - 1)) by {
            assert forall|j: int| 0 <= j < i - 1 implies a.drop_first()[j] == b.drop_first()[j] by {
                assert(a.take(i)[j + 1] == a[j + 1] && b.take(i)[j + 1] == b[j + 1]);
                assert(a.take(i)[j + 1] == b.take(i)[j + 1]);
                assert(a.drop_first()[j] == a[j + 1] && b.drop_first()[j] == b[j + 1]);
            }
        }
        lemma_text_le_first_difference(a.drop_first(), b.drop_first(), i - 1);
        assert(a.drop_first()[i - 1] == a[i] && b.drop_first()[i - 1] == b[i]);
    }
}

/// A text comes before every text that begins with it, and a longer text never comes before
/// one of its own beginnings.
pub proof fn lemma_text_le_prefix(a: Seq<char>, b: Seq<char>)
    requires
        a.len() <= b.len(),
        b.take(a.len() as int) == a,
    ensures
        text_le(a, b),
        a.len() < b.len() ==> !text_le(b, a),
    decreases a.len(),
{
    if a.len() > 0 {
        assert(b[0] == b.take(a.len() as int)[0]);
        assert(b.drop_first().take(a.len() - 1) =~= a.drop_first()) by {
            assert forall|j: int| 0 <= j < a.len() - 1 implies b.drop_first()[j] == a.drop_first()[j] by {
                assert(b.take(a.len() as int)[j + 1] == a[j + 1]);
                assert(a.drop_first()[j] == a[j + 1] && b.drop_first()[j] == b[j + 1]);
            }
        }
        lemma_text_le_prefix(a.drop_first(), b.drop_first());
    }
}

/// Any two texts are ordered one way or the other.
pub proof fn lemma_text_le_total(a: Seq<char>, b: Seq<char>)
    ensures
        text_le(a, b) || text_le(b, a),
    decreases a.len(),
{
    if a.len() > 0 && b.len() > 0 && a[0] == b[0] {
        lemma_text_le_total(a.drop_first(), b.drop_first());
    }
}

/// Character order is transitive.
pub proof fn lemma_text_le_transitive(a: Seq<char>, b: Seq<char>, c: Seq<char>)
    requires
        text_le(a, b),
        text_le(b, c),
    ensures
        text_le(a, c),
    decreases a.len(),
{
    if a.len() > 0 && b.len() > 0 && c.len() > 0 && a[0] == b[0] && b[0] == c[0] {
        lemma_text_le_transitive(a.drop_first(), b.drop_first(), c.drop_first());
    }
}

/// Whether `a` comes before `b`, or equals it, in character order.
pub fn text_precedes(a: &str, b: &str) -> (r: bool)
    ensures
        r == text_le(a@, b@),
{
    let la = a.unicode_len();
    let lb = b.unicode_len();
    let mut i: usize = 0;
    assert(a@.skip(0) =~= a@);
    assert(b@.skip(0) =~= b@);
    while i < la && i < lb
        invariant
            i <= la,
            i <= lb,
            la == a@.len(),
            lb == b@.len(),
            text_le(a@, b@) == text_le(a@.skip(i as int), b@.skip(i as int)),
        decreases la - i,
    {
        let ca = a.get_char(i);
        let cb = b.get_char(i);
        assert(a@.skip(i as int)[0] == ca);
        assert(b@.skip(i as int)[0] == cb);
        if ca != cb {
            return ca < cb;
        }
        assert(a@.skip(i as int).drop_first() =~= a@.skip(i + 1));
        assert(b@.skip(i as int).drop_first() =~= b@.skip(i + 1));
        i = i + 1;
    }
    if i == la {
        true
    } else {
        false
    }
}

proof fn lemma_insert_multiset<A>(s: Seq<A>, p: int, x: A)
    requires
        0 <= p <= s.len(),
    ensures
        s.insert(p, x).to_multiset() == s.to_multiset().insert(x),
{
    let l = s.take(p);
    let r = s.skip(p);
    assert(s =~= l + r);
    assert(s.insert(p, x) =~= l.push(x) + r);
    vstd::seq_lib::lemma_multiset_commutative(l.push(x), r);
    vstd::seq_lib::lemma_multiset_commutative(l, r);
    vstd::seq_lib::to_multiset_build(l, x);
}

/// The pages put in page order.
pub fn sort_pages(pages: Vec<PageEntry>) -> (r: Vec<PageEntry>)
    ensures
        r@.to_multiset() == pages@.to_multiset(),
        in_page_order(r@),
{
    let mut r: Vec<PageEntry> = Vec::new();
    let mut i: usize = 0;
    assert(pages@.take(0) =~= r@);
    while i < pages.len()
        invariant
            i <= pages.len(),
            r@.to_multiset() == pages@.take(i as int).to_multiset(),
            in_page_order(r@),
        decreases pages.len() - i,
    {
        let x = pages[i].clone();
        let mut p: usize = 0;
        while p < r.len() && text_precedes(r[p].path.as_str(), x.path.as_str())
            invariant
                p <= r.len(),
                forall|q: int| 0 <= q < p ==> text_le(r@[q].path@, x.path@),
            decreases r.len() - p,
        {
            p = p + 1;
        }
        let ghost old_r = r@;
        proof {
            if p < old_r.len() {
                lemma_text_le_total(old_r[p as int].path@, x.path@);
            }
            assert forall|a: int, b: int| 0 <= a < b < old_r.len() + 1 implies text_le(
                old_r.insert(p as int, x)[a].path@,
                old_r.insert(p as int, x)[b].path@,
            ) by {
                let n = old_r.insert(p as int, x);
                old_r.insert_ensures(p as int, x);
                if b < p {
                } else if b == p {
                } else if a < p {
                    assert(n[b] == old_r[b - 1]);
                    assert(n[a] == old_r[a]);
                } else if a == p {
                    assert(n[b] == old_r[b - 1]);
                    if b - 1 > p {
                        lemma_text_le_transitive(x.path@, old_r[p as int].path@, old_r[b - 1].path@);
                    }
                } else {
                    assert(n[b] == old_r[b - 1]);
                    assert(n[a] == old_r[a - 1]);
                }
            }
            lemma_insert_multiset(old_r, p as int, x);
            assert(pages@.take(i + 1) =~= pages@.take(i as int).push(pages@[i as int]));
            vstd::seq_lib::to_multiset_build(pages@.take(i as int), pages@[i as int]);
        }
        r.insert(p, x);
        i = i + 1;
    }
    assert(pages@.take(pages.len() as int) =~= pages@);
    r
}

/// The pages recognised are the listing's entries with the extension `png`, each once, in
/// listing order.
pub proof fn lemma_png_pages_is_filter(entries: Seq<PageEntry>)
    ensures
        png_pages(entries) == entries.filter(|e: PageEntry| e.extension matches Some(x) && x@ == "png"@),
    decreases entries.len(),
{
    reveal(Seq::filter);
    if entries.len() > 0 {
        lemma_png_pages_is_filter(entries.drop_last());
    }
}

/// Joining one part gives the part; joining two non-empty lists one after the other gives the
/// first joined, the separator, and the second joined.
pub proof fn lemma_joined_parts(a: Seq<Seq<char>>, b: Seq<Seq<char>>, sep: Seq<char>, x: Seq<char>)
    requires
        a.len() > 0,
        b.len() > 0,
    ensures
        joined(seq![x], sep) == x,
        joined(a + b, sep) == joined(a, sep) + sep + joined(b, sep),
    decreases b.len(),
{
    if b.len() == 1 {
        assert((a + b).drop_last() =~= a);
        assert(joined(b, sep) == b[0]);
    } else {
        lemma_joined_parts(a, b.drop_last(), sep, x);
        assert((a + b).drop_last() =~= a + b.drop_last());
        assert((a + b).last() == b.last());
        assert(joined(a, sep) + sep + (joined(b.drop_last(), sep) + sep + b.last()) =~= (joined(a, sep) + sep
            + joined(b.drop_last(), sep)) + sep + b.last());
    }
}

/// Tesseract is run on the page image, writes next to the page's PDF base name, in the chosen
/// language, with PDF output.
pub proof fn lemma_tesseract_args_parts(page: PageEntry, lang: Seq<char>)
    ensures
        tesseract_args(page, lang).len() == 5,
        tesseract_args(page, lang)[0] == page.path@,
        tesseract_args(page, lang)[1] == page.pdf_base@,
        tesseract_args(page, lang)[2] == "-l"@,
        tesseract_args(page, lang)[3] == lang,
        tesseract_args(page, lang)[4] == "pdf"@,
{
}

/// `pdftk` gets the one-page PDFs in the order they were made, then `cat output` and the
/// output path.
pub proof fn lemma_pdftk_args_parts(made: Seq<String>, output: Seq<char>)
    ensures
        pdftk_args(made, output).len() == made.len() + 3,
        forall|i: int| 0 <= i < made.len() ==> #[trigger] pdftk_args(made, output)[i] == made[i]@,
        pdftk_args(made, output)[made.len() as int] == "cat"@,
        pdftk_args(made, output)[made.len() as int + 1] == "output"@,
        pdftk_args(made, output)[made.len() as int + 2] == output,
{
}

/// The one-page PDFs of the first `n` pages, in page order.
pub open spec fn page_pdfs(pages: Seq<PageEntry>, n: int) -> Seq<String> {
    pages.take(n).map_values(|p: PageEntry| p.pdf_file)
}

/// While every page is recognised, the one-page PDFs made so far are those of the pages done,
/// in page order; once the last page is recognised, `pdftk` is asked to join the PDFs of all
/// pages, in page order, into the output. So page `j` of the output is page `j` of the input.
pub proof fn lemma_recognized_pages_join_in_order(a: OcrJobView, b: OcrJobView, act: OcrAction)
    requires
        a.next < a.pages.len(),
        a.made == page_pdfs(a.pages, a.next as int),
        ocr_step(a, OcrEvent::Recognized(true), b, act),
    ensures
        b.made == page_pdfs(a.pages, a.next as int + 1),
        a.next + 1 < a.pages.len() ==> b.stage == OcrStage::Recognizing && b.next == a.next + 1,
        a.next + 1 == a.pages.len() ==> {
            &&& b.stage == OcrStage::Merging
            &&& act matches OcrAction::Merge(c) && c.program@ == "pdftk"@ && arg_views(c.args@)
                == arg_views(a.pages.map_values(|p: PageEntry| p.pdf_file)) + seq!["cat"@, "output"@, a.output]
        },
{
    let made = a.made.push(a.pages[a.next as int].pdf_file);
    assert(made =~= page_pdfs(a.pages, a.next as int + 1));
    assert(made.len() > 0);
    if a.next + 1 == a.pages.len() {
        assert(a.pages.take(a.next as int + 1) =~= a.pages);
    }
}

} // verus!
