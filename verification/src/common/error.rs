//! The application's single error type and the text each error shows.

use vstd::prelude::*;

verus! {

/// Every error a command of the application can report.
#[derive(Debug, Clone)]
pub enum AppError {
    /// A file that was named does not exist.
    FileNotFound(String),
    /// Reading or writing failed.
    Io(String),
    /// The file's format is not supported.
    UnsupportedFormat(String),
    /// The user cancelled the task.
    TaskCancelled,
    /// Processing the file failed.
    ProcessingFailed(String),
    /// An external program the command needs is missing.
    DependencyNotFound(String),
    /// A parameter is not valid.
    InvalidParameter(String),
    /// The operating system refused access.
    PermissionDenied(String),
}

/// The result type of the application's commands.
pub type AppResult<T> = Result<T, AppError>;

impl AppError {
    /// The text shown to the user for this error.
    pub open spec fn text(&self) -> Seq<char> {
        match self {
            AppError::FileNotFound(s) => "文件不存在: "@ + s@,
            AppError::Io(s) => "IO 错误: "@ + s@,
            AppError::UnsupportedFormat(s) => "不支持的格式: "@ + s@,
            AppError::TaskCancelled => "任务已取消"@,
            AppError::ProcessingFailed(s) => "处理失败: "@ + s@,
            AppError::DependencyNotFound(s) => "未找到依赖: "@ + s@ + "。请安装后重试。"@,
            AppError::InvalidParameter(s) => "参数无效: "@ + s@,
            AppError::PermissionDenied(s) => "权限不足: "@ + s@,
        }
    }

    /// Renders the error as the user sees it.
    pub fn message(&self) -> (r: String)
        ensures
            r@ == self.text(),
    {
        match self {
            AppError::FileNotFound(s) => {
                let mut r = String::from_str("文件不存在: ");
                r.append(s.as_str());
                r
            },
            AppError::Io(s) => {
                let mut r = String::from_str("IO 错误: ");
                r.append(s.as_str());
                r
            },
            AppError::UnsupportedFormat(s) => {
                let mut r = String::from_str("不支持的格式: ");
                r.append(s.as_str());
                r
            },
            AppError::TaskCancelled => String::from_str("任务已取消"),
            AppError::ProcessingFailed(s) => {
                let mut r = String::from_str("处理失败: ");
                r.append(s.as_str());
                r
            },
            AppError::DependencyNotFound(s) => {
                let mut r = String::from_str("未找到依赖: ");
                r.append(s.as_str());
                r.append("。请安装后重试。");
                r
            },
            AppError::InvalidParameter(s) => {
                let mut r = String::from_str("参数无效: ");
                r.append(s.as_str());
                r
            },
            AppError::PermissionDenied(s) => {
                let mut r = String::from_str("权限不足: ");
                r.append(s.as_str());
                r
            },
        }
    }

    /// The error for a failed read or write, carrying the system's description of it.
    pub fn io(description: String) -> (r: AppError)
        ensures
            r == AppError::Io(description),
    {
        AppError::Io(description)
    }

    /// The error for JSON that could not be read or written, carrying the parser's description.
    pub fn json_failure(description: &str) -> (r: AppError)
        ensures
            r matches AppError::ProcessingFailed(s) && s@ == "JSON 序列化失败: "@ + description@,
    {
        let mut s = String::from_str("JSON 序列化失败: ");
        s.append(description);
        AppError::ProcessingFailed(s)
    }

    /// The error for a worker pool that could not be built, carrying the builder's description.
    pub fn thread_pool_failure(description: &str) -> (r: AppError)
        ensures
            r matches AppError::ProcessingFailed(s) && s@ == "创建线程池失败: "@ + description@,
    {
        let mut s = String::from_str("创建线程池失败: ");
        s.append(description);
        AppError::ProcessingFailed(s)
    }
}

/// Each error's text is its kind's label followed by its detail; a missing dependency also
/// asks the user to install it, and a cancellation has no detail.
pub proof fn lemma_error_texts(s: String)
    ensures
        AppError::FileNotFound(s).text() == "文件不存在: "@ + s@,
        AppError::Io(s).text() == "IO 错误: "@ + s@,
        AppError::UnsupportedFormat(s).text() == "不支持的格式: "@ + s@,
        AppError::TaskCancelled.text() == "任务已取消"@,
        AppError::ProcessingFailed(s).text() == "处理失败: "@ + s@,
        AppError::DependencyNotFound(s).text() == "未找到依赖: "@ + s@ + "。请安装后重试。"@,
        AppError::InvalidParameter(s).text() == "参数无效: "@ + s@,
        AppError::PermissionDenied(s).text() == "权限不足: "@ + s@,
{
}

} // verus!
