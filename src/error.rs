use vstd::prelude::*;
use vstd::string::*;

verus! {

/// The ways an engine operation can fail; each carries the detail text.
#[derive(Debug, PartialEq, Eq)]
pub enum PlatformError {
    HomeUnavailable(String),
    InvalidSelection(String),
    Config(String),
    Io(String),
    Plist(String),
    MissingHandlers,
    Command(String),
    MissingInfo(String),
}

impl PlatformError {
    /// The fixed text put before an error's detail.
    pub open spec fn prefix_spec(&self) -> Seq<char> {
        match self {
            PlatformError::HomeUnavailable(_) => "无法获取用户目录: "@,
            PlatformError::InvalidSelection(_) => "选择的路径无效: "@,
            PlatformError::Config(_) => "配置读写失败: "@,
            PlatformError::Io(_) => "IO 错误: "@,
            PlatformError::Plist(_) => "Plist 解析失败: "@,
            PlatformError::MissingHandlers => "缺少 LSHandlers 配置"@,
            PlatformError::Command(_) => "命令执行失败: "@,
            PlatformError::MissingInfo(_) => "应用信息缺少字段: "@,
        }
    }

    /// The detail text an error carries (empty where it carries none).
    pub open spec fn detail_spec(&self) -> Seq<char> {
        match self {
            PlatformError::HomeUnavailable(d) => d@,
            PlatformError::InvalidSelection(d) => d@,
            PlatformError::Config(d) => d@,
            PlatformError::Io(d) => d@,
            PlatformError::Plist(d) => d@,
            PlatformError::MissingHandlers => Seq::empty(),
            PlatformError::Command(d) => d@,
            PlatformError::MissingInfo(d) => d@,
        }
    }

    /// The human-readable message shown to the user.
    pub fn message(&self) -> (r: String)
        ensures
            r@ == self.prefix_spec() + self.detail_spec(),
    {
        let (prefix, detail): (&str, &str) = match self {
            PlatformError::HomeUnavailable(d) => ("无法获取用户目录: ", d.as_str()),
            PlatformError::InvalidSelection(d) => ("选择的路径无效: ", d.as_str()),
            PlatformError::Config(d) => ("配置读写失败: ", d.as_str()),
            PlatformError::Io(d) => ("IO 错误: ", d.as_str()),
            PlatformError::Plist(d) => ("Plist 解析失败: ", d.as_str()),
            PlatformError::MissingHandlers => ("缺少 LSHandlers 配置", ""),
            PlatformError::Command(d) => ("命令执行失败: ", d.as_str()),
            PlatformError::MissingInfo(d) => ("应用信息缺少字段: ", d.as_str()),
        };
        proof {
            reveal_strlit("");
        }
        String::from_str(prefix).concat(detail)
    }
}

} // verus!
