//! What a build asks of the world, one request at a time, and what comes back.

use crate::package::Outcome;
use crate::text::texts;
use vstd::prelude::*;

verus! {

/// Something only the outside can do.
#[allow(inconsistent_fields)]
#[derive(Debug)]
pub enum Request {
    /// Run a program with its arguments and wait for its end.
    Run(Vec<String>),
    /// Read a file.
    Read(String),
    /// Make a directory and those above it.
    MakeDir(String),
    /// Write a file.
    Write { path: String, content: String },
    /// Look whether something stands at a path.
    Exists(String),
    Rename { from: String, to: String },
    /// Remove a directory and what is in it.
    RemoveDir(String),
}

/// A [`Request`] by its contents.
#[allow(inconsistent_fields)]
pub enum RequestV {
    Run(Seq<Seq<char>>),
    Read(Seq<char>),
    MakeDir(Seq<char>),
    Write { path: Seq<char>, content: Seq<char> },
    Exists(Seq<char>),
    Rename { from: Seq<char>, to: Seq<char> },
    RemoveDir(Seq<char>),
}

impl View for Request {
    type V = RequestV;

    open spec fn view(&self) -> RequestV {
        match self {
            Request::Run(x) => RequestV::Run(texts(x@)),
            Request::Read(x) => RequestV::Read(x@),
            Request::MakeDir(x) => RequestV::MakeDir(x@),
            Request::Write { path, content } => RequestV::Write { path: path@, content: content@ },
            Request::Exists(x) => RequestV::Exists(x@),
            Request::Rename { from, to } => RequestV::Rename { from: from@, to: to@ },
            Request::RemoveDir(x) => RequestV::RemoveDir(x@),
        }
    }
}

/// What a request came to.
#[derive(Debug)]
pub enum Reply {
    Ran(Outcome),
    Text(Result<String, String>),
    Done(Result<(), String>),
    Present(bool),
}

/// Whether a reply is of the kind that a request asks for.
pub open spec fn answers(request: RequestV, reply: Reply) -> bool {
    match request {
        RequestV::Run(_) => reply is Ran,
        RequestV::Read(_) => reply is Text,
        RequestV::Exists(_) => reply is Present,
        _ => reply is Done,
    }
}

} // verus!
