use vstd::prelude::*;

verus! {

/// The HTTP status that an error is answered with.
#[derive(Clone, Copy, Debug, PartialEq, Eq, Structural)]
pub enum Status {
    Success,
    BadRequest,
    Unauthorized,
    InternalServerError,
}

/// The numeric code of each status.
pub open spec fn status_code_of(status: Status) -> u16 {
    match status {
        Status::Success => 200,
        Status::BadRequest => 400,
        Status::Unauthorized => 401,
        Status::InternalServerError => 500,
    }
}

impl Status {
    pub fn code(&self) -> (r: u16)
        ensures
            r == status_code_of(*self),
    {
        match self {
            Status::Success => 200,
            Status::BadRequest => 400,
            Status::Unauthorized => 401,
            Status::InternalServerError => 500,
        }
    }
}

/// The component that refused a request.
#[derive(Clone, Copy, Debug, PartialEq, Eq, Structural)]
pub enum Reason {
    Authorization,
    Authentication,
    IdempotencyCache,
    SubFilter,
    Request,
    Database,
    JsonExtractor,
}

pub open spec fn reason_text_of(reason: Reason) -> Seq<char> {
    match reason {
        Reason::Authorization => "Authorization"@,
        Reason::Authentication => "Authentication"@,
        Reason::IdempotencyCache => "IdempotencyCache"@,
        Reason::SubFilter => "SubFilter"@,
        Reason::Request => "Request"@,
        Reason::Database => "Database"@,
        Reason::JsonExtractor => "JsonExtractor"@,
    }
}

impl Reason {
    /// The name under which the reason is reported in an error body.
    pub fn text(&self) -> (r: &'static str)
        ensures
            r@ == reason_text_of(*self),
    {
        match self {
            Reason::Authorization => "Authorization",
            Reason::Authentication => "Authentication",
            Reason::IdempotencyCache => "IdempotencyCache",
            Reason::SubFilter => "SubFilter",
            Reason::Request => "Request",
            Reason::Database => "Database",
            Reason::JsonExtractor => "JsonExtractor",
        }
    }
}

/// An error answered to the client: either with a fixed message, or with
/// the message of an underlying failure passed through.
#[derive(Debug)]
pub enum Error {
    Static { status: Status, reason: Reason, message: &'static str },
    Passthrough { status: Status, reason: Reason, message: String },
}

/// The abstract content of an error: whether its message was passed
/// through, status, reason and message text.
pub struct ErrorView {
    /// The message is that of an underlying failure, not a fixed one.
    pub passthrough: bool,
    pub status: Status,
    pub reason: Reason,
    pub message: Seq<char>,
}

impl View for Error {
    type V = ErrorView;

    open spec fn view(&self) -> ErrorView {
        match self {
            Error::Static { status, reason, message } => ErrorView {
                passthrough: false,
                status: *status,
                reason: *reason,
                message: message@,
            },
            Error::Passthrough { status, reason, message } => ErrorView {
                passthrough: true,
                status: *status,
                reason: *reason,
                message: message@,
            },
        }
    }
}

impl Error {
    /// An error carrying the message of an underlying failure.
    pub fn passthrough(status: Status, reason: Reason, message: String) -> (r: Error)
        ensures
            r == (Error::Passthrough { status, reason, message }),
    {
        Error::Passthrough { status, reason, message }
    }

    /// A failure of the database, answered with 500.
    pub fn database(message: String) -> (r: Error)
        ensures
            r == (Error::Passthrough {
                status: Status::InternalServerError,
                reason: Reason::Database,
                message,
            }),
    {
        Error::Passthrough { status: Status::InternalServerError, reason: Reason::Database, message }
    }

    /// A token that could not be verified or read, answered with 401.
    pub fn authorization(message: String) -> (r: Error)
        ensures
            r == (Error::Passthrough {
                status: Status::Unauthorized,
                reason: Reason::Authorization,
                message,
            }),
    {
        Error::Passthrough { status: Status::Unauthorized, reason: Reason::Authorization, message }
    }

    pub fn status_code(&self) -> (r: Status)
        ensures
            r == self@.status,
    {
        match self {
            Error::Static { status, .. } => *status,
            Error::Passthrough { status, .. } => *status,
        }
    }

    pub fn reason(&self) -> (r: Reason)
        ensures
            r == self@.reason,
    {
        match self {
            Error::Static { reason, .. } => *reason,
            Error::Passthrough { reason, .. } => *reason,
        }
    }

    /// The message of the error, as its textual form shows it.
    pub fn message(&self) -> (r: &str)
        ensures
            r@ == self@.message,
    {
        match self {
            Error::Static { message, .. } => message,
            Error::Passthrough { message, .. } => message.as_str(),
        }
    }
}

} // verus!
