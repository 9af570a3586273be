//! Errors of the library; each refusal leaves the caller's inputs untouched.
use vstd::prelude::*;
use vstd::string::StringExecFns;
use vstd::utf8::{decode_utf8, valid_utf8};

verus! {

#[derive(Debug)]
pub enum Error {
    /// A text exceeds the per-file size limit.
    TooLarge,
    /// A text holds a NUL byte.
    Binary,
    /// A text is not valid UTF-8.
    NotUtf8,
    /// The conflict marker width is outside 7..=100.
    MarkerSize,
    /// An input already holds a conflict marker line.
    ExistingMarker,
    /// The cross-file candidate limit would be exceeded.
    TooManyCandidates,
    /// A snapshot holds an empty path.
    EmptyPath,
    /// The three snapshots together exceed the total size limit.
    TotalTooLarge,
    /// A report has another schema version or engine.
    ReportVersion,
    /// A report holds an invalid reason or candidate.
    InvalidReport,
    /// A report does not hold the requested path.
    MissingPath,
    /// A report's fingerprint does not match the given input (0 base, 1 ours, 2 theirs).
    StaleInput { side: usize },
    /// An error while processing one path.
    InFile { path: String, cause: Box<Error> },
    /// Mutually exclusive flags were given together.
    Exclusive { flags: &'static str },
    /// A request that the command does not support, described in the message.
    Usage { text: &'static str },
    /// A rebase todo holds an instruction the guarded rebase does not support.
    UnsupportedTodo { command: String },
    /// A Git rename between the base and a side.
    Rename,
    /// A path that is also a directory of another changed path.
    LayoutConflict { path: String },
    /// `git check-attr` output that ends inside a record.
    IncompleteAttributes,
    /// An attribute that would change the merge inputs.
    UnsupportedAttribute { file: Vec<u8>, attribute: Vec<u8>, value: Vec<u8> },
    /// Git has an operation of its own in progress.
    GitOperation { name: &'static str },
    /// A commit to replay has more or fewer than one parent.
    NotSingleParent { commit: String },
    /// A tree entry that is not a regular file.
    UnsupportedMode { path: String },
    /// A text of a snapshot is over the per-file or the total size limit.
    SnapshotTooLarge { path: String },
    /// A number that does not parse, for the reason given.
    ParseInt { reason: &'static str },
    /// A `pull.rebase` (or `branch.<name>.rebase`) value that is not supported.
    PullRebaseValue { setting: String },
    /// Git has an operation of its own in progress; it must continue or abort first.
    OperationRunning { name: &'static str },
    /// Another failure, described in the message.
    Other { message: String },
}

/// What std `String::from_utf8_lossy` makes of these bytes.
pub uninterp spec fn lossy_text(bytes: Seq<u8>) -> Seq<char>;

/// std `String::from_utf8_lossy(bytes)`, owned: the bytes as text, each
/// invalid sequence shown as U+FFFD (a function of the bytes, named
/// `lossy_text`); valid UTF-8 comes back as the text it encodes.
#[verifier::external_body]
fn lossy(bytes: &[u8]) -> (r: String)
    ensures
        r@ == lossy_text(bytes@),
        valid_utf8(bytes@) ==> r@ == decode_utf8(bytes@),
{
    String::from_utf8_lossy(bytes).into_owned()
}

pub open spec fn side_name(side: usize) -> Seq<char> {
    if side == 0 {
        "base"@
    } else if side == 1 {
        "ours"@
    } else {
        "theirs"@
    }
}

/// The user-facing description of each error.
pub open spec fn message_text(e: Error) -> Seq<char>
    decreases e,
{
    match e {
        Error::TooLarge => "初版仅支持不超过 1000000 bytes 的文本文件"@,
        Error::Binary => "初版不支持 binary 文件"@,
        Error::NotUtf8 => "初版仅支持 UTF-8 文本"@,
        Error::MarkerSize => "marker size 必须在 7..=100 之间"@,
        Error::ExistingMarker => "输入已有 conflict marker；保持输入不变，需先处理现有冲突"@,
        Error::TooManyCandidates => "移动候选超过 10000，无法完整生成报告；未写出分析文件"@,
        Error::EmptyPath => "空路径不受支持"@,
        Error::TotalTooLarge => "三方分析文本超过 64 MiB"@,
        Error::ReportVersion => "分析报告版本不兼容"@,
        Error::InvalidReport => "无效的分析原因结构"@,
        Error::MissingPath => "分析报告未包含此路径"@,
        Error::StaleInput { side } => "分析输入不匹配："@ + side_name(side) + "；报告可能已过期"@,
        Error::InFile { path, cause } => path@ + "："@ + message_text(*cause),
        Error::Exclusive { flags } => "互斥参数："@ + flags@,
        Error::Usage { text } => text@,
        Error::UnsupportedTodo { command } => "不支持的 rebase todo 指令："@ + command@,
        Error::Rename => "暂不支持 Git 文件 rename；跨文件 function 移动仍会分析"@,
        Error::LayoutConflict { path } => "暂不支持文件/目录布局冲突："@ + path@,
        Error::IncompleteAttributes => "Git check-attr 输出不完整"@,
        Error::UnsupportedAttribute { file, attribute, value } => "暂不支持影响合并原文的 attribute："@
            + lossy_text(file@) + " "@ + lossy_text(attribute@) + "="@ + lossy_text(value@),
        Error::GitOperation { name } => "已有 Git 操作："@ + name@ + "；请先由 Git 处理该操作"@,
        Error::NotSingleParent { commit } => "普通 rebase 仅支持单 parent commit："@ + commit@,
        Error::UnsupportedMode { path } => "初版分析不支持 symlink/submodule："@ + path@,
        Error::SnapshotTooLarge { path } => "分析文本超过大小限制："@ + path@,
        Error::ParseInt { reason } => reason@,
        Error::PullRebaseValue { setting } => "不支持的 pull.rebase 配置："@ + setting@,
        Error::OperationRunning { name } => "已有 Git 操作进行中："@ + name@ + "；先继续或中止该操作"@,
        Error::Other { message } => message@,
    }
}

impl Error {
    /// The user-facing description.
    pub fn message(&self) -> (r: String)
        ensures
            r@ == message_text(*self),
        decreases self,
    {
        match self {
            Error::TooLarge => String::from_str("初版仅支持不超过 1000000 bytes 的文本文件"),
            Error::Binary => String::from_str("初版不支持 binary 文件"),
            Error::NotUtf8 => String::from_str("初版仅支持 UTF-8 文本"),
            Error::MarkerSize => String::from_str("marker size 必须在 7..=100 之间"),
            Error::ExistingMarker => String::from_str(
                "输入已有 conflict marker；保持输入不变，需先处理现有冲突",
            ),
            Error::TooManyCandidates => String::from_str(
                "移动候选超过 10000，无法完整生成报告；未写出分析文件",
            ),
            Error::EmptyPath => String::from_str("空路径不受支持"),
            Error::TotalTooLarge => String::from_str("三方分析文本超过 64 MiB"),
            Error::ReportVersion => String::from_str("分析报告版本不兼容"),
            Error::InvalidReport => String::from_str("无效的分析原因结构"),
            Error::MissingPath => String::from_str("分析报告未包含此路径"),
            Error::StaleInput { side } => {
                let mut s = String::from_str("分析输入不匹配：");
                s.append(
                    if *side == 0 {
                        "base"
                    } else if *side == 1 {
                        "ours"
                    } else {
                        "theirs"
                    },
                );
                s.append("；报告可能已过期");
                s
            },
            Error::InFile { path, cause } => {
                let mut s = path.clone();
                s.append("：");
                s.append(cause.message().as_str());
                s
            },
            Error::Exclusive { flags } => {
                let mut s = String::from_str("互斥参数：");
                s.append(flags);
                s
            },
            Error::Usage { text } => String::from_str(text),
            Error::UnsupportedTodo { command } => {
                let mut s = String::from_str("不支持的 rebase todo 指令：");
                s.append(command.as_str());
                s
            },
            Error::Rename => String::from_str("暂不支持 Git 文件 rename；跨文件 function 移动仍会分析"),
            Error::LayoutConflict { path } => {
                let mut s = String::from_str("暂不支持文件/目录布局冲突：");
                s.append(path.as_str());
                s
            },
            Error::IncompleteAttributes => String::from_str("Git check-attr 输出不完整"),
            Error::UnsupportedAttribute { file, attribute, value } => {
                let mut s = String::from_str("暂不支持影响合并原文的 attribute：");
                s.append(lossy(file.as_slice()).as_str());
                s.append(" ");
                s.append(lossy(attribute.as_slice()).as_str());
                s.append("=");
                s.append(lossy(value.as_slice()).as_str());
                s
            },
            Error::GitOperation { name } => {
                let mut s = String::from_str("已有 Git 操作：");
                s.append(name);
                s.append("；请先由 Git 处理该操作");
                s
            },
            Error::NotSingleParent { commit } => {
                let mut s = String::from_str("普通 rebase 仅支持单 parent commit：");
                s.append(commit.as_str());
                s
            },
            Error::UnsupportedMode { path } => {
                let mut s = String::from_str("初版分析不支持 symlink/submodule：");
                s.append(path.as_str());
                s
            },
            Error::SnapshotTooLarge { path } => {
                let mut s = String::from_str("分析文本超过大小限制：");
                s.append(path.as_str());
                s
            },
            Error::ParseInt { reason } => String::from_str(reason),
            Error::PullRebaseValue { setting } => {
                let mut s = String::from_str("不支持的 pull.rebase 配置：");
                s.append(setting.as_str());
                s
            },
            Error::OperationRunning { name } => {
                let mut s = String::from_str("已有 Git 操作进行中：");
                s.append(name);
                s.append("；先继续或中止该操作");
                s
            },
            Error::Other { message } => message.clone(),
        }
    }
}

} // verus!
