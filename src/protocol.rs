use crate::command::{Frame, FrameView};
use vstd::prelude::*;

verus! {

/// A request that a client sends: the command half of [`Frame`].
#[derive(Clone, Debug, PartialEq)]
pub enum Command {
    Read(String),
    Write(String, String),
}

/// A reply that the server sends: the response half of [`Frame`].
#[derive(Clone, Debug, PartialEq)]
pub enum Response {
    Success,
    Value(String),
    Error(String),
}

impl View for Command {
    type V = FrameView;

    /// The frame that carries the command.
    open spec fn view(&self) -> FrameView {
        match self {
            Command::Read(k) => FrameView::Read(k@),
            Command::Write(k, v) => FrameView::Write(k@, v@),
        }
    }
}

impl View for Response {
    type V = FrameView;

    /// The frame that carries the response.
    open spec fn view(&self) -> FrameView {
        match self {
            Response::Success => FrameView::Success,
            Response::Value(v) => FrameView::Value(v@),
            Response::Error(e) => FrameView::Error(e@),
        }
    }
}

impl Response {
    /// The frame that carries the response on the wire.
    pub fn into_frame(self) -> (r: Frame)
        ensures
            r@ == self@,
    {
        match self {
            Response::Success => Frame::Success,
            Response::Value(v) => Frame::Value(v),
            Response::Error(e) => Frame::Error(e),
        }
    }
}

} // verus!
