//! The library's error type. Errors of outside crates are carried as the text
//! they display, which is all that the messages built from them read.
use vstd::prelude::*;

verus! {

#[derive(Debug)]
pub enum AppError {
    /// The configuration file could not be loaded; `source` is the loader's message.
    ConfigLoad { path: String, source: String },
    /// The configuration is not usable: a setting is invalid, TLS cannot be
    /// set up, or no listener can start.
    TlsConfig(String),
    Io(String),
    Rustls(String),
    UpstreamRequest(String),
    InvalidRequest(String),
}

pub enum AppErrorView {
    ConfigLoad { path: Seq<char>, source: Seq<char> },
    TlsConfig(Seq<char>),
    Io(Seq<char>),
    Rustls(Seq<char>),
    UpstreamRequest(Seq<char>),
    InvalidRequest(Seq<char>),
}

impl View for AppError {
    type V = AppErrorView;

    open spec fn view(&self) -> AppErrorView {
        match self {
            AppError::ConfigLoad { path, source } => AppErrorView::ConfigLoad {
                path: path@,
                source: source@,
            },
            AppError::TlsConfig(m) => AppErrorView::TlsConfig(m@),
            AppError::Io(m) => AppErrorView::Io(m@),
            AppError::Rustls(m) => AppErrorView::Rustls(m@),
            AppError::UpstreamRequest(m) => AppErrorView::UpstreamRequest(m@),
            AppError::InvalidRequest(m) => AppErrorView::InvalidRequest(m@),
        }
    }
}

/// The view of a result that carries text.
pub open spec fn text_result(r: Result<String, AppError>) -> Result<Seq<char>, AppErrorView> {
    match r {
        Ok(s) => Ok(s@),
        Err(e) => Err(e@),
    }
}

/// A configuration error with the given message.
pub open spec fn config_error(message: Seq<char>) -> AppErrorView {
    AppErrorView::TlsConfig(message)
}

} // verus!
