//! The library's error type.

use vstd::prelude::*;

verus! {

/// Which part of the tool an error comes from.
#[derive(Clone, Copy, Debug, PartialEq, Eq, Structural)]
pub enum ErrorKind {
    Config,
    Docker,
    Script,
    Network,
    Discovery,
    Build,
    Container,
    State,
    Dockerfile,
    Nginx,
    Compose,
}

/// An error with its message.
#[derive(Debug)]
pub enum Error {
    Config(String),
    Docker(String),
    Script(String),
    Network(String),
    Discovery(String),
    Build(String),
    Container(String),
    State(String),
    Dockerfile(String),
    Nginx(String),
    Compose(String),
}

impl View for Error {
    type V = (ErrorKind, Seq<char>);

    open spec fn view(&self) -> (ErrorKind, Seq<char>) {
        match self {
            Error::Config(m) => (ErrorKind::Config, m@),
            Error::Docker(m) => (ErrorKind::Docker, m@),
            Error::Script(m) => (ErrorKind::Script, m@),
            Error::Network(m) => (ErrorKind::Network, m@),
            Error::Discovery(m) => (ErrorKind::Discovery, m@),
            Error::Build(m) => (ErrorKind::Build, m@),
            Error::Container(m) => (ErrorKind::Container, m@),
            Error::State(m) => (ErrorKind::State, m@),
            Error::Dockerfile(m) => (ErrorKind::Dockerfile, m@),
            Error::Nginx(m) => (ErrorKind::Nginx, m@),
            Error::Compose(m) => (ErrorKind::Compose, m@),
        }
    }
}

/// The heading that the text of an error of each kind starts with.
pub open spec fn kind_heading(k: ErrorKind) -> Seq<char> {
    match k {
        ErrorKind::Config => "配置错误: "@,
        ErrorKind::Docker => "Docker错误: "@,
        ErrorKind::Script => "脚本执行错误: "@,
        ErrorKind::Network => "网络错误: "@,
        ErrorKind::Discovery => "发现错误: "@,
        ErrorKind::Build => "构建错误: "@,
        ErrorKind::Container => "容器错误: "@,
        ErrorKind::State => "状态错误: "@,
        ErrorKind::Dockerfile => "Dockerfile解析错误: "@,
        ErrorKind::Nginx => "Nginx配置错误: "@,
        ErrorKind::Compose => "Compose配置错误: "@,
    }
}

impl Error {
    /// The error's kind.
    pub fn kind(&self) -> (k: ErrorKind)
        ensures
            k == self@.0,
    {
        match self {
            Error::Config(_) => ErrorKind::Config,
            Error::Docker(_) => ErrorKind::Docker,
            Error::Script(_) => ErrorKind::Script,
            Error::Network(_) => ErrorKind::Network,
            Error::Discovery(_) => ErrorKind::Discovery,
            Error::Build(_) => ErrorKind::Build,
            Error::Container(_) => ErrorKind::Container,
            Error::State(_) => ErrorKind::State,
            Error::Dockerfile(_) => ErrorKind::Dockerfile,
            Error::Nginx(_) => ErrorKind::Nginx,
            Error::Compose(_) => ErrorKind::Compose,
        }
    }

    /// The message the error carries.
    pub fn message(&self) -> (m: &String)
        ensures
            m@ == self@.1,
    {
        match self {
            Error::Config(m) => m,
            Error::Docker(m) => m,
            Error::Script(m) => m,
            Error::Network(m) => m,
            Error::Discovery(m) => m,
            Error::Build(m) => m,
            Error::Container(m) => m,
            Error::State(m) => m,
            Error::Dockerfile(m) => m,
            Error::Nginx(m) => m,
            Error::Compose(m) => m,
        }
    }

    /// The text shown to the user: the kind's heading, then the message.
    pub fn to_string(&self) -> (s: String)
        ensures
            s@ == kind_heading(self@.0) + self@.1,
    {
        let mut s = match self {
            Error::Config(_) => "配置错误: ".to_owned(),
            Error::Docker(_) => "Docker错误: ".to_owned(),
            Error::Script(_) => "脚本执行错误: ".to_owned(),
            Error::Network(_) => "网络错误: ".to_owned(),
            Error::Discovery(_) => "发现错误: ".to_owned(),
            Error::Build(_) => "构建错误: ".to_owned(),
            Error::Container(_) => "容器错误: ".to_owned(),
            Error::State(_) => "状态错误: ".to_owned(),
            Error::Dockerfile(_) => "Dockerfile解析错误: ".to_owned(),
            Error::Nginx(_) => "Nginx配置错误: ".to_owned(),
            Error::Compose(_) => "Compose配置错误: ".to_owned(),
        };
        s.append(self.message().as_str());
        s
    }
}

} // verus!
