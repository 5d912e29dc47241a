//! Errors, and the HTTP responses that report them.

use vstd::prelude::*;

verus! {

/// What went wrong, as far as a response depends on it.
#[derive(Clone, Copy, Debug, PartialEq, Eq, Structural)]
pub enum ErrorKind {
    /// What was asked for does not exist.
    NotFound,
    /// The request makes no sense.
    InvalidInput,
    /// The target is in the way.
    TargetConflict,
    /// The caller gave up.
    Cancelled,
    /// The store failed.
    Database,
    /// Reading or writing files failed.
    Io,
    /// Anything else.
    Internal,
}

/// The text in lower case. Only ASCII letters have a case here.
pub open spec fn lowercase(text: Seq<char>) -> Seq<char> {
    text.map_values(
        |c: char|
            if 'A' <= c <= 'Z' {
                (c as u32 + 32) as char
            } else {
                c
            },
    )
}

impl ErrorKind {
    /// The name of the kind.
    pub open spec fn name(self) -> Seq<char> {
        match self {
            ErrorKind::NotFound => "NotFound"@,
            ErrorKind::InvalidInput => "InvalidInput"@,
            ErrorKind::TargetConflict => "TargetConflict"@,
            ErrorKind::Cancelled => "Cancelled"@,
            ErrorKind::Database => "Database"@,
            ErrorKind::Io => "Io"@,
            ErrorKind::Internal => "Internal"@,
        }
    }

    /// The HTTP status that reports the kind.
    pub open spec fn status(self) -> u16 {
        match self {
            ErrorKind::NotFound => 404,
            ErrorKind::InvalidInput => 400,
            _ => 500,
        }
    }

    /// The name of the kind in lower case.
    pub fn code(self) -> (code: String)
        ensures
            code@ == lowercase(self.name()),
            code@ == (match self {
                ErrorKind::NotFound => "notfound"@,
                ErrorKind::InvalidInput => "invalidinput"@,
                ErrorKind::TargetConflict => "targetconflict"@,
                ErrorKind::Cancelled => "cancelled"@,
                ErrorKind::Database => "database"@,
                ErrorKind::Io => "io"@,
                ErrorKind::Internal => "internal"@,
            }),
    {
        let code: &str = match self {
            ErrorKind::NotFound => {
                proof {
                    reveal_strlit("NotFound");
                    reveal_strlit("notfound");
                }
                "notfound"
            },
            ErrorKind::InvalidInput => {
                proof {
                    reveal_strlit("InvalidInput");
                    reveal_strlit("invalidinput");
                }
                "invalidinput"
            },
            ErrorKind::TargetConflict => {
                proof {
                    reveal_strlit("TargetConflict");
                    reveal_strlit("targetconflict");
                }
                "targetconflict"
            },
            ErrorKind::Cancelled => {
                proof {
                    reveal_strlit("Cancelled");
                    reveal_strlit("cancelled");
                }
                "cancelled"
            },
            ErrorKind::Database => {
                proof {
                    reveal_strlit("Database");
                    reveal_strlit("database");
                }
                "database"
            },
            ErrorKind::Io => {
                proof {
                    reveal_strlit("Io");
                    reveal_strlit("io");
                }
                "io"
            },
            ErrorKind::Internal => {
                proof {
                    reveal_strlit("Internal");
                    reveal_strlit("internal");
                }
                "internal"
            },
        };
        assert(code@ =~= lowercase(self.name()));
        code.to_owned()
    }
}

/// An error of the web surface.
#[derive(Debug)]
pub struct AppError {
    pub kind: ErrorKind,
    pub message: String,
}

/// An error as contracts see it.
#[verifier::ext_equal]
pub struct ErrorView {
    pub kind: ErrorKind,
    pub message: Seq<char>,
}

impl View for AppError {
    type V = ErrorView;

    open spec fn view(&self) -> ErrorView {
        ErrorView { kind: self.kind, message: self.message@ }
    }
}

impl ErrorView {
    pub open spec fn not_found(message: Seq<char>) -> ErrorView {
        ErrorView { kind: ErrorKind::NotFound, message }
    }

    pub open spec fn invalid_input(message: Seq<char>) -> ErrorView {
        ErrorView { kind: ErrorKind::InvalidInput, message }
    }

    pub open spec fn db(message: Seq<char>) -> ErrorView {
        ErrorView { kind: ErrorKind::Database, message }
    }

    pub open spec fn io(message: Seq<char>) -> ErrorView {
        ErrorView { kind: ErrorKind::Io, message }
    }
}

/// A result with its value and its error taken by their views.
pub open spec fn seen<T: View>(result: Result<T, AppError>) -> Result<T::V, ErrorView> {
    match result {
        Ok(value) => Ok(value@),
        Err(error) => Err(error@),
    }
}

/// The body of a response that reports an error.
#[derive(Debug)]
pub struct ErrorBody {
    /// Always false.
    pub ok: bool,
    pub code: String,
    pub kind: ErrorKind,
    pub message: String,
}

/// A response that reports an error.
#[derive(Debug)]
pub struct ErrorResponse {
    pub status: u16,
    pub body: ErrorBody,
}

impl AppError {
    pub fn not_found(message: &str) -> (error: AppError)
        ensures
            error@ == ErrorView::not_found(message@),
            error.kind == ErrorKind::NotFound,
            error.message@ == message@,
    {
        AppError { kind: ErrorKind::NotFound, message: message.to_owned() }
    }

    pub fn invalid_input(message: &str) -> (error: AppError)
        ensures
            error@ == ErrorView::invalid_input(message@),
            error.kind == ErrorKind::InvalidInput,
            error.message@ == message@,
    {
        AppError { kind: ErrorKind::InvalidInput, message: message.to_owned() }
    }

    pub fn db(message: &str) -> (error: AppError)
        ensures
            error@ == ErrorView::db(message@),
            error.kind == ErrorKind::Database,
            error.message@ == message@,
    {
        AppError { kind: ErrorKind::Database, message: message.to_owned() }
    }

    pub fn io(message: &str) -> (error: AppError)
        ensures
            error@ == ErrorView::io(message@),
            error.kind == ErrorKind::Io,
            error.message@ == message@,
    {
        AppError { kind: ErrorKind::Io, message: message.to_owned() }
    }

    /// The error of a request whose worker did not finish.
    pub fn join_error(reason: &str) -> (error: AppError)
        ensures
            error@ == ErrorView::db("join error: "@ + reason@),
            error.kind == ErrorKind::Database,
            error.message@ == "join error: "@ + reason@,
    {
        AppError {
            kind: ErrorKind::Database,
            message: "join error: ".to_owned().concat(reason),
        }
    }

    /// The response that reports the error: the status goes by the kind, the
    /// body holds `ok: false`, the kind, its name in lower case and the message.
    pub fn into_response(self) -> (response: ErrorResponse)
        ensures
            response.status == self.kind.status(),
            response.status == 404 <==> self.kind == ErrorKind::NotFound,
            response.status == 400 <==> self.kind == ErrorKind::InvalidInput,
            response.status == 404 || response.status == 400 || response.status == 500,
            !response.body.ok,
            response.body.code@ == lowercase(self.kind.name()),
            response.body.kind == self.kind,
            response.body.message@ == self.message@,
    {
        let status: u16 = match self.kind {
            ErrorKind::NotFound => 404,
            ErrorKind::InvalidInput => 400,
            _ => 500,
        };
        let code = self.kind.code();
        ErrorResponse {
            status,
            body: ErrorBody { ok: false, code, kind: self.kind, message: self.message },
        }
    }
}

/// What does not exist is answered with 404, a request that makes no sense with
/// 400, and all else with 500.
pub proof fn statuses_in_general(kind: ErrorKind)
    ensures
        kind.status() == (if kind == ErrorKind::NotFound {
            404
        } else if kind == ErrorKind::InvalidInput {
            400
        } else {
            500u16
        }),
{
}

/// The code of a response spells the kind in lower case, so that no two kinds
/// share a code.
pub proof fn codes_in_general(kind: ErrorKind)
    ensures
        lowercase(kind.name()) == (match kind {
            ErrorKind::NotFound => "notfound"@,
            ErrorKind::InvalidInput => "invalidinput"@,
            ErrorKind::TargetConflict => "targetconflict"@,
            ErrorKind::Cancelled => "cancelled"@,
            ErrorKind::Database => "database"@,
            ErrorKind::Io => "io"@,
            ErrorKind::Internal => "internal"@,
        }),
{
    reveal_strlit("NotFound");
    reveal_strlit("notfound");
    reveal_strlit("InvalidInput");
    reveal_strlit("invalidinput");
    reveal_strlit("TargetConflict");
    reveal_strlit("targetconflict");
    reveal_strlit("Cancelled");
    reveal_strlit("cancelled");
    reveal_strlit("Database");
    reveal_strlit("database");
    reveal_strlit("Io");
    reveal_strlit("io");
    reveal_strlit("Internal");
    reveal_strlit("internal");
    match kind {
        ErrorKind::NotFound => assert(lowercase(kind.name()) =~= "notfound"@),
        ErrorKind::InvalidInput => assert(lowercase(kind.name()) =~= "invalidinput"@),
        ErrorKind::TargetConflict => assert(lowercase(kind.name()) =~= "targetconflict"@),
        ErrorKind::Cancelled => assert(lowercase(kind.name()) =~= "cancelled"@),
        ErrorKind::Database => assert(lowercase(kind.name()) =~= "database"@),
        ErrorKind::Io => assert(lowercase(kind.name()) =~= "io"@),
        ErrorKind::Internal => assert(lowercase(kind.name()) =~= "internal"@),
    }
}

/// Each constructor makes an error of its own kind that says what it is given.
pub proof fn errors_say_what_they_are_given(message: Seq<char>)
    ensures
        ErrorView::not_found(message).kind == ErrorKind::NotFound,
        ErrorView::not_found(message).message == message,
        ErrorView::invalid_input(message).kind == ErrorKind::InvalidInput,
        ErrorView::invalid_input(message).message == message,
        ErrorView::db(message).kind == ErrorKind::Database,
        ErrorView::db(message).message == message,
        ErrorView::io(message).kind == ErrorKind::Io,
        ErrorView::io(message).message == message,
{
}

/// Contracts see the whole of a result: its value, or the kind and the message
/// of its error.
pub proof fn results_are_seen_whole<T: View>(value: T, error: AppError)
    ensures
        seen(Ok::<T, AppError>(value)) == Ok::<T::V, ErrorView>(value@),
        seen(Err::<T, AppError>(error)) == Err::<T::V, ErrorView>(
            ErrorView { kind: error.kind, message: error.message@ },
        ),
{
}

} // verus!
