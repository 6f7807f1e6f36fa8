//! The errors that the library reports.

use vstd::prelude::*;

verus! {

/// What went wrong, by stage.
#[derive(Clone, Copy, Debug, PartialEq, Eq, Structural)]
pub enum ErrKind {
    /// A command-line value was refused.
    Input,
    /// A date could not be read.
    Parser,
    /// A document does not hold issue records.
    Format,
    /// The transport failed.
    Network,
    /// The upstream refused the credentials.
    Auth,
    /// The upstream does not know the resource.
    NotFound,
    /// The upstream answered with another failure.
    Upstream,
    /// The output could not be written.
    Writer,
}

/// An error with its kind and a message naming the offending value.
#[derive(Debug)]
pub struct IssueParserErr {
    pub msg: String,
    pub kind: ErrKind,
}

/// The name under which a kind of error is reported.
pub open spec fn kind_name(k: ErrKind) -> Seq<char> {
    match k {
        ErrKind::Input => "Input"@,
        ErrKind::Parser => "Parser"@,
        ErrKind::Format => "Format"@,
        ErrKind::Network => "Network"@,
        ErrKind::Auth => "Auth"@,
        ErrKind::NotFound => "NotFound"@,
        ErrKind::Upstream => "Upstream"@,
        ErrKind::Writer => "Writer"@,
    }
}

impl IssueParserErr {
    /// An error of kind `kind` with message `msg`.
    pub fn new(kind: ErrKind, msg: String) -> (r: IssueParserErr)
        ensures
            r.kind == kind,
            r.msg@ == msg@,
    {
        IssueParserErr { msg, kind }
    }

    /// The name of this error's kind.
    pub fn map_err_kind(&self) -> (r: String)
        ensures
            r@ == kind_name(self.kind),
    {
        let k = match self.kind {
            ErrKind::Input => "Input",
            ErrKind::Parser => "Parser",
            ErrKind::Format => "Format",
            ErrKind::Network => "Network",
            ErrKind::Auth => "Auth",
            ErrKind::NotFound => "NotFound",
            ErrKind::Upstream => "Upstream",
            ErrKind::Writer => "Writer",
        };
        String::from_str(k)
    }

    /// The report line: the kind's name, ` error: `, then the message.
    pub fn to_string(&self) -> (r: String)
        ensures
            r@ == kind_name(self.kind) + " error: "@ + self.msg@,
    {
        let mut r = self.map_err_kind();
        r.append(" error: ");
        r.append(self.msg.as_str());
        r
    }
}

} // verus!
