//! What can go wrong while a request is served, and how it is answered.
use vstd::prelude::*;

verus! {

/// A failure to serve a request.
#[derive(Debug, Clone, PartialEq, Eq)]
pub enum AppError {
    /// No tenant answers to this host.
    HostNotFound(String),
    /// No route of the tenant matches this path.
    RoutePathNotFound(String),
    /// The route that matches has no handler for the method of this name.
    RouteMethodNotAllowed(String),
    /// The request could not be read: a header or the body is not text.
    BadRequest(String),
    /// The script threw; the text is the class of what it threw.
    Script(String),
}

/// An `AppError` as plain values.
pub enum AppErrorView {
    HostNotFound(Seq<char>),
    RoutePathNotFound(Seq<char>),
    RouteMethodNotAllowed(Seq<char>),
    BadRequest(Seq<char>),
    Script(Seq<char>),
}

impl View for AppError {
    type V = AppErrorView;

    open spec fn view(&self) -> AppErrorView {
        match self {
            AppError::HostNotFound(host) => AppErrorView::HostNotFound(host@),
            AppError::RoutePathNotFound(path) => AppErrorView::RoutePathNotFound(path@),
            AppError::RouteMethodNotAllowed(method) => AppErrorView::RouteMethodNotAllowed(method@),
            AppError::BadRequest(what) => AppErrorView::BadRequest(what@),
            AppError::Script(class) => AppErrorView::Script(class@),
        }
    }
}

impl AppErrorView {
    /// The status that answers the failure.
    pub open spec fn status(self) -> u16 {
        match self {
            AppErrorView::HostNotFound(_) => 404,
            AppErrorView::RoutePathNotFound(_) => 404,
            AppErrorView::RouteMethodNotAllowed(_) => 405,
            AppErrorView::BadRequest(_) => 400,
            AppErrorView::Script(_) => 500,
        }
    }

    /// The body that answers the failure.
    pub open spec fn body(self) -> Seq<char> {
        match self {
            AppErrorView::HostNotFound(_) => "host not found"@,
            AppErrorView::RoutePathNotFound(path) => "path not found: "@ + path,
            AppErrorView::RouteMethodNotAllowed(method) => "method not allowed: "@ + method,
            AppErrorView::BadRequest(what) => "bad request: "@ + what,
            AppErrorView::Script(class) => class,
        }
    }
}

impl AppError {
    /// The status that answers the failure: 404 for an unknown host or path,
    /// 405 for a method without a handler, 400 for a request that cannot be
    /// read, 500 for a script that threw.
    pub fn status_code(&self) -> (code: u16)
        ensures
            code == self@.status(),
    {
        match self {
            AppError::HostNotFound(_) => 404,
            AppError::RoutePathNotFound(_) => 404,
            AppError::RouteMethodNotAllowed(_) => 405,
            AppError::BadRequest(_) => 400,
            AppError::Script(_) => 500,
        }
    }

    /// The body that answers the failure.
    pub fn body(&self) -> (text: String)
        ensures
            text@ == self@.body(),
    {
        match self {
            AppError::HostNotFound(_) => "host not found".to_owned(),
            AppError::RoutePathNotFound(path) => crate::text::append("path not found: ", path.as_str()),
            AppError::RouteMethodNotAllowed(method) => crate::text::append(
                "method not allowed: ",
                method.as_str(),
            ),
            AppError::BadRequest(what) => crate::text::append("bad request: ", what.as_str()),
            AppError::Script(class) => class.clone(),
        }
    }
}

} // verus!
