//! What goes into a handler and what comes out of it.
use crate::error::{AppError, AppErrorView};
use crate::string_map::StringMap;
use vstd::prelude::*;

verus! {

/// A request as a handler sees it.
#[derive(Debug, Clone, PartialEq, Eq)]
pub struct Req {
    pub method: String,
    pub url: String,
    pub query: StringMap,
    pub params: StringMap,
    pub headers: StringMap,
    pub body: Option<String>,
}

/// What a handler answers.
#[derive(Debug, Clone, PartialEq, Eq)]
pub struct Res {
    pub status: u16,
    pub headers: StringMap,
    pub body: Option<String>,
}

impl Req {
    /// A request for `url` with the given method and nothing else.
    pub fn new(method: &str, url: &str) -> (req: Req)
        ensures
            req.method@ == method@,
            req.url@ == url@,
            req.query@ == Map::<Seq<char>, Seq<char>>::empty(),
            req.params@ == Map::<Seq<char>, Seq<char>>::empty(),
            req.headers@ == Map::<Seq<char>, Seq<char>>::empty(),
            req.body is None,
    {
        Req {
            method: method.to_owned(),
            url: url.to_owned(),
            query: StringMap::new(),
            params: StringMap::new(),
            headers: StringMap::new(),
            body: None,
        }
    }
}

/// Whether `status` can be the status of a response: three digits.
pub open spec fn is_status(status: u16) -> bool {
    100 <= status <= 999
}

/// What a handler's answer amounts to: the answer itself where it has a
/// status, and a failure of the script where it has none.
pub open spec fn answer(
    status: Option<u16>,
    headers: Map<Seq<char>, Seq<char>>,
    body: Option<Seq<char>>,
) -> Result<(u16, Map<Seq<char>, Seq<char>>, Option<Seq<char>>), AppErrorView> {
    match status {
        Some(code) => Ok((code, headers, body)),
        None => Err(AppErrorView::Script("MissingStatus"@)),
    }
}

/// The view of a handler's answer.
pub open spec fn answer_view(r: Result<Res, AppError>) -> Result<
    (u16, Map<Seq<char>, Seq<char>>, Option<Seq<char>>),
    AppErrorView,
> {
    match r {
        Ok(res) => Ok((res.status, res.headers@, res.body.deep_view())),
        Err(e) => Err(e@),
    }
}

impl Res {
    /// Makes an answer of what a handler returned. The headers and the body
    /// may be missing; the status may not.
    pub fn from_parts(status: Option<u16>, headers: StringMap, body: Option<String>) -> (r: Result<
        Res,
        AppError,
    >)
        ensures
            answer_view(r) == answer(status, headers@, body.deep_view()),
    {
        match status {
            Some(code) => Ok(Res { status: code, headers, body }),
            None => Err(AppError::Script("MissingStatus".to_owned())),
        }
    }

    /// Whether the status of this answer can be sent.
    pub fn has_valid_status(&self) -> (r: bool)
        ensures
            r == is_status(self.status),
    {
        100 <= self.status && self.status <= 999
    }

    /// The answer that is sent: this one where its status can be sent, and
    /// the answer to a failed script where it cannot.
    pub fn checked(self) -> (res: Res)
        ensures
            is_status(self.status) ==> res == self,
            !is_status(self.status) ==> res.status == 500 && res.headers@ == Map::<
                Seq<char>,
                Seq<char>,
            >::empty() && res.body.deep_view() == Some("InvalidStatus"@),
    {
        if self.has_valid_status() {
            self
        } else {
            Res::from_error(&AppError::Script("InvalidStatus".to_owned()))
        }
    }

    /// The body to send: the handler's body, and the empty text where it
    /// gave none.
    pub fn body_text(&self) -> (text: &str)
        ensures
            text@ == match self.body {
                Some(body) => body@,
                None => Seq::<char>::empty(),
            },
    {
        match &self.body {
            Some(body) => body.as_str(),
            None => {
                proof {
                    reveal_strlit("");
                }
                ""
            },
        }
    }

    /// The answer to a request that failed: the status and the body of the
    /// failure, without headers.
    pub fn from_error(error: &AppError) -> (res: Res)
        ensures
            res.status == error@.status(),
            res.headers@ == Map::<Seq<char>, Seq<char>>::empty(),
            res.body.deep_view() == Some(error@.body()),
    {
        Res { status: error.status_code(), headers: StringMap::new(), body: Some(error.body()) }
    }
}

} // verus!
