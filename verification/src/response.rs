//! What an operation of the manager answers.

use vstd::prelude::*;
use crate::constraints::{CurrentInfo, CurrentInfoView};

verus! {

/// The answer to one operation: done, refused with the reason in words, or
/// the snapshot that was asked for.
#[derive(Debug)]
pub enum Response {
    Success,
    Error { msg: String },
    Info { info: CurrentInfo },
}

/// What an answer is, as a value.
pub enum ResponseView {
    Success,
    Error { msg: Seq<char> },
    Info { info: CurrentInfoView },
}

impl View for Response {
    type V = ResponseView;

    open spec fn view(&self) -> ResponseView {
        match self {
            Response::Success => ResponseView::Success,
            Response::Error { msg } => ResponseView::Error { msg: msg@ },
            Response::Info { info } => ResponseView::Info { info: info@ },
        }
    }
}

impl Response {
    /// Whether the two answers are the same value.
    pub fn same_as(&self, other: &Response) -> (b: bool)
        ensures
            b == (self@ == other@),
    {
        match self {
            Response::Success => matches!(other, Response::Success),
            Response::Error { msg } => match other {
                Response::Error { msg: other_msg } => *msg == *other_msg,
                _ => false,
            },
            Response::Info { info } => match other {
                Response::Info { info: other_info } => info.same_as(other_info),
                _ => false,
            },
        }
    }
}

impl PartialEq for Response {
    fn eq(&self, other: &Response) -> (b: bool) {
        self.same_as(other)
    }
}

impl vstd::std_specs::cmp::PartialEqSpecImpl for Response {
    open spec fn obeys_eq_spec() -> bool {
        true
    }

    open spec fn eq_spec(&self, other: &Response) -> bool {
        self@ == other@
    }
}

} // verus!
