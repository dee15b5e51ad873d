//! Error and result types.

use vstd::prelude::*;

use crate::text;
use crate::text::{push_str, string_of};

verus! {

/// What kind of I/O failure occurred, as far as the library tells them apart.
#[derive(Debug, Clone, Copy, PartialEq, Eq, Structural)]
pub enum IoKind {
    /// Something that was looked for does not exist.
    NotFound,
    /// The operation needs privileges that the process lacks.
    PermissionDenied,
    /// Something that was to be created exists.
    AlreadyExists,
    /// There is no connection.
    NotConnected,
    /// Data did not have the expected form.
    InvalidData,
    /// An argument was not acceptable.
    InvalidInput,
    /// The time allowed for an operation ran out.
    TimedOut,
    /// The peer closed before everything was read.
    UnexpectedEof,
    /// Any other failure.
    Other,
}

/// An I/O failure.
#[derive(Debug)]
pub struct IoFailure {
    /// What kind of failure it was.
    pub kind: IoKind,
    /// The operating system's error number, where it reported one.
    pub code: Option<i32>,
    /// Human-readable description.
    pub message: String,
}

/// Result alias used throughout the crate.
pub type Result<T> = core::result::Result<T, Error>;

/// Errors that can occur while configuring or running a redirect.
#[derive(Debug)]
pub enum Error {
    /// The supplied proxy address could not be parsed.
    InvalidAddress {
        /// The offending input string.
        input: String,
    },
    /// A rule or proxy config was rejected during validation.
    Config(String),
    /// No proxy configuration was supplied but a rule requested `Proxy`.
    MissingProxyConfig,
    /// The driver library could not be loaded.
    WintunLoad(String),
    /// Creating the adapter failed.
    AdapterCreate {
        /// Adapter name that was requested.
        name: String,
        /// Underlying error text.
        reason: String,
    },
    /// Starting the adapter's session failed.
    SessionStart(String),
    /// Assigning an address, route, or interface parameter failed.
    NetConfig {
        /// The operation that failed, e.g. `add_route(0.0.0.0/1)`.
        op: String,
        /// The underlying failure.
        source: IoFailure,
    },
    /// The process lacks the privileges that creating an adapter requires.
    NotElevated,
    /// The redirect engine is already running.
    AlreadyRunning,
    /// The redirect engine is not running.
    NotRunning,
    /// An underlying I/O error.
    Io(IoFailure),
}

impl IoFailure {
    /// A failure with a message of the library's own.
    pub fn new(kind: IoKind, message: &str) -> (r: IoFailure)
        ensures
            r.kind == kind,
            r.code is None,
            r.message@ == message@,
    {
        IoFailure { kind, code: None, message: message.to_string() }
    }
}

impl Error {
    /// A configuration error.
    pub fn config(msg: &str) -> (r: Error)
        ensures
            r matches Error::Config(m) && m@ == msg@,
    {
        Error::Config(msg.to_string())
    }

    /// A network-configuration error.
    pub fn netcfg(op: &str, source: IoFailure) -> (r: Error)
        ensures
            r matches Error::NetConfig { op: o, source: s } && o@ == op@ && s == source,
    {
        Error::NetConfig { op: op.to_string(), source }
    }

    /// The text that describes the error.
    pub open spec fn text(self) -> Seq<char> {
        match self {
            Error::InvalidAddress { input } => "invalid address '"@ + input@
                + "': invalid socket address syntax"@,
            Error::Config(msg) => "invalid configuration: "@ + msg@,
            Error::MissingProxyConfig => "no proxy configuration available for a Proxy rule"@,
            Error::WintunLoad(msg) => "failed to load wintun.dll: "@ + msg@,
            Error::AdapterCreate { name, reason } => "failed to create WinTun adapter '"@ + name@
                + "': "@ + reason@,
            Error::SessionStart(msg) => "failed to start WinTun session: "@ + msg@,
            Error::NetConfig { op, source } => "network configuration failed ("@ + op@ + "): "@
                + source.message@,
            Error::NotElevated =>
            "administrator privileges are required to create a WinTun adapter"@,
            Error::AlreadyRunning => "tun redirect is already running"@,
            Error::NotRunning => "tun redirect is not running"@,
            Error::Io(source) => "io error: "@ + source.message@,
        }
    }

    /// The text that describes the error.
    pub fn message(&self) -> (r: String)
        ensures
            r@ == self.text(),
    {
        let mut out: Vec<char> = Vec::new();
        match self {
            Error::InvalidAddress { input } => {
                push_str(&mut out, "invalid address '");
                push_str(&mut out, input.as_str());
                push_str(&mut out, "': invalid socket address syntax");
            },
            Error::Config(msg) => {
                push_str(&mut out, "invalid configuration: ");
                push_str(&mut out, msg.as_str());
            },
            Error::MissingProxyConfig => {
                push_str(&mut out, "no proxy configuration available for a Proxy rule");
            },
            Error::WintunLoad(msg) => {
                push_str(&mut out, "failed to load wintun.dll: ");
                push_str(&mut out, msg.as_str());
            },
            Error::AdapterCreate { name, reason } => {
                push_str(&mut out, "failed to create WinTun adapter '");
                push_str(&mut out, name.as_str());
                push_str(&mut out, "': ");
                push_str(&mut out, reason.as_str());
            },
            Error::SessionStart(msg) => {
                push_str(&mut out, "failed to start WinTun session: ");
                push_str(&mut out, msg.as_str());
            },
            Error::NetConfig { op, source } => {
                push_str(&mut out, "network configuration failed (");
                push_str(&mut out, op.as_str());
                push_str(&mut out, "): ");
                push_str(&mut out, source.message.as_str());
            },
            Error::NotElevated => {
                push_str(
                    &mut out,
                    "administrator privileges are required to create a WinTun adapter",
                );
            },
            Error::AlreadyRunning => {
                push_str(&mut out, "tun redirect is already running");
            },
            Error::NotRunning => {
                push_str(&mut out, "tun redirect is not running");
            },
            Error::Io(source) => {
                push_str(&mut out, "io error: ");
                push_str(&mut out, source.message.as_str());
            },
        }
        assert(out@ == self.text());
        string_of(&out)
    }
}

/// What describes an error tells its cause: the text that was given with it stands
/// in it in full.
pub proof fn law_description_tells_the_cause(error: Error)
    ensures
        error matches Error::InvalidAddress { input } ==> text::contains_text(error.text(), input@),
        error matches Error::Config(msg) ==> text::contains_text(error.text(), msg@),
        error matches Error::WintunLoad(msg) ==> text::contains_text(error.text(), msg@),
        error matches Error::AdapterCreate { name, reason } ==> text::contains_text(
            error.text(),
            name@,
        ) && text::contains_text(error.text(), reason@),
        error matches Error::SessionStart(msg) ==> text::contains_text(error.text(), msg@),
        error matches Error::NetConfig { op, source } ==> text::contains_text(error.text(), op@)
            && text::contains_text(error.text(), source.message@),
        error matches Error::Io(source) ==> text::contains_text(error.text(), source.message@),
{
    let none = Seq::<char>::empty();
    match error {
        Error::InvalidAddress { input } => {
            lemma_holds("invalid address '"@, input@, "': invalid socket address syntax"@);
        },
        Error::Config(msg) => {
            lemma_holds("invalid configuration: "@, msg@, none);
        },
        Error::WintunLoad(msg) => {
            lemma_holds("failed to load wintun.dll: "@, msg@, none);
        },
        Error::AdapterCreate { name, reason } => {
            let front = "failed to create WinTun adapter '"@;
            lemma_holds(front, name@, "': "@ + reason@);
            lemma_holds(front + name@ + "': "@, reason@, none);
            assert(front + name@ + ("': "@ + reason@) =~= front + name@ + "': "@ + reason@);
        },
        Error::SessionStart(msg) => {
            lemma_holds("failed to start WinTun session: "@, msg@, none);
        },
        Error::NetConfig { op, source } => {
            let front = "network configuration failed ("@;
            let message = source.message@;
            lemma_holds(front, op@, "): "@ + message);
            lemma_holds(front + op@ + "): "@, message, none);
            assert(front + op@ + ("): "@ + message) =~= front + op@ + "): "@ + message);
        },
        Error::Io(source) => {
            lemma_holds("io error: "@, source.message@, none);
        },
        _ => {},
    }
}

proof fn lemma_holds(front: Seq<char>, inner: Seq<char>, back: Seq<char>)
    ensures
        text::contains_text(front + inner + back, inner),
        back.len() == 0 ==> text::contains_text(front + inner, inner),
{
    let whole = front + inner + back;
    let at = front.len() as int;
    assert(whole.subrange(at, at + inner.len()) =~= inner);
    assert(text::stands_at(whole, inner, at));
    if back.len() == 0 {
        assert(whole =~= front + inner);
    }
}

} // verus!
