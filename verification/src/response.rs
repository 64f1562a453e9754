//! How an operation that was turned down is reported: the class of the
//! failure, as a status, and the sentence sent to the caller.

use vstd::prelude::*;
use vstd::string::*;
use crate::model::Text;

verus! {

/// The class of a failure.
#[derive(Clone, Copy, Debug, PartialEq, Eq, Structural)]
pub enum Status {
    /// The caller's input or the state of the target does not allow the operation.
    BadRequest,
    /// What was asked for is not there, or not for this caller to see.
    NotFound,
    /// The store or the directory failed.
    InternalServerError,
}

impl Status {
    pub open spec fn number(self) -> u16 {
        match self {
            Status::BadRequest => 400,
            Status::NotFound => 404,
            Status::InternalServerError => 500,
        }
    }

    pub open spec fn label_text(self) -> Text {
        match self {
            Status::BadRequest => "400 Bad Request"@,
            Status::NotFound => "404 Not Found"@,
            Status::InternalServerError => "500 Internal Server Error"@,
        }
    }

    /// The status as a number.
    pub fn code(self) -> (n: u16)
        ensures
            n == self.number(),
    {
        match self {
            Status::BadRequest => 400,
            Status::NotFound => 404,
            Status::InternalServerError => 500,
        }
    }

    /// The status as it is written out: its number and its name.
    pub fn label(self) -> (s: &'static str)
        ensures
            s@ == self.label_text(),
    {
        match self {
            Status::BadRequest => "400 Bad Request",
            Status::NotFound => "404 Not Found",
            Status::InternalServerError => "500 Internal Server Error",
        }
    }
}

/// Why an operation was turned down.
#[derive(Clone, Copy, Debug, PartialEq, Eq, Structural)]
pub enum Rejection {
    /// A new quote came without shards.
    NoShards,
    /// A new quote came with more than six shards.
    TooManyShards,
    /// A speaker of a new quote is not among the quotable members.
    UnquotableSpeaker,
    /// A speaker of a new quote has no well-formed identifier.
    InvalidSpeaker,
    /// A member tried to quote themselves.
    SelfQuote,
    /// The submitter of a new quote has no well-formed identifier.
    InvalidSubmitter,
    /// The directory does not know every member that a new quote names.
    UnknownUsers,
    /// The quotable members could not be fetched.
    QuotableMembersUnavailable,
    /// The quote to delete is not there or is not the caller's.
    NotYourQuote,
    /// The reason given for hiding a quote is shorter than ten characters.
    ReasonTooShort,
    /// The quote to hide is not there, is hidden already, or the caller may
    /// not hide it.
    NotQuoted,
    /// The quote to report is not there, is hidden, or the caller has
    /// reported it before.
    AlreadyReported,
    /// The quote has no open report.
    NoOpenReport,
    /// The quote to vote on is not there for this caller.
    QuoteDoesNotExist,
    /// The quote asked for is not there for this caller.
    QuoteNotFound,
    /// The quote to favorite is not there or is a favorite already.
    AlreadyFavorited,
    /// The quote is not among the caller's favorites.
    NotFavorited,
    /// A listing was asked for with a limit below the one that lifts it.
    InvalidLimit,
    /// The store cannot take another record.
    StoreExhausted,
}

impl Rejection {
    pub open spec fn status_of(self) -> Status {
        match self {
            Rejection::QuotableMembersUnavailable
            | Rejection::InvalidLimit
            | Rejection::StoreExhausted => Status::InternalServerError,
            Rejection::QuoteNotFound => Status::NotFound,
            _ => Status::BadRequest,
        }
    }

    pub open spec fn message_text(self) -> Text {
        match self {
            Rejection::NoShards => "No quote shards specified"@,
            Rejection::TooManyShards => "Maximum of 6 shards exceeded."@,
            Rejection::UnquotableSpeaker => "One or more speakers is unquotable"@,
            Rejection::InvalidSpeaker => "Invalid speaker username format specified."@,
            Rejection::SelfQuote => "Erm... maybe don't quote yourself?"@,
            Rejection::InvalidSubmitter =>
                "Invalid submitter username specified. SHOULD NEVER HAPPEN!"@,
            Rejection::UnknownUsers => "Some users submitted do not exist."@,
            Rejection::QuotableMembersUnavailable => "Failed to fetch quotable members"@,
            Rejection::NotYourQuote =>
                "Either this is not your quote or this quote does not exist."@,
            Rejection::ReasonTooShort => "Reason must be at least 10 characters"@,
            Rejection::NotQuoted =>
                "Either you are not quoted in this quote or this quote does not exist."@,
            Rejection::AlreadyReported =>
                "You have already reported this quote or quote does not exist"@,
            Rejection::NoOpenReport => "Report is either already resolved or doesn't exist."@,
            Rejection::QuoteDoesNotExist => "Quote does not exist"@,
            Rejection::QuoteNotFound => "Quote could not be found"@,
            Rejection::AlreadyFavorited => "Quote is either already favorited or doesn't exist."@,
            Rejection::NotFavorited => "Quote is not favorited."@,
            Rejection::InvalidLimit => "Limit must not be negative"@,
            Rejection::StoreExhausted => "The store cannot take another record"@,
        }
    }

    /// The class of this failure.
    pub fn status(self) -> (s: Status)
        ensures
            s == self.status_of(),
    {
        match self {
            Rejection::QuotableMembersUnavailable
            | Rejection::InvalidLimit
            | Rejection::StoreExhausted => Status::InternalServerError,
            Rejection::QuoteNotFound => Status::NotFound,
            _ => Status::BadRequest,
        }
    }

    /// The sentence sent to the caller.
    pub fn message(self) -> (m: &'static str)
        ensures
            m@ == self.message_text(),
    {
        match self {
            Rejection::NoShards => "No quote shards specified",
            Rejection::TooManyShards => "Maximum of 6 shards exceeded.",
            Rejection::UnquotableSpeaker => "One or more speakers is unquotable",
            Rejection::InvalidSpeaker => "Invalid speaker username format specified.",
            Rejection::SelfQuote => "Erm... maybe don't quote yourself?",
            Rejection::InvalidSubmitter =>
                "Invalid submitter username specified. SHOULD NEVER HAPPEN!",
            Rejection::UnknownUsers => "Some users submitted do not exist.",
            Rejection::QuotableMembersUnavailable => "Failed to fetch quotable members",
            Rejection::NotYourQuote =>
                "Either this is not your quote or this quote does not exist.",
            Rejection::ReasonTooShort => "Reason must be at least 10 characters",
            Rejection::NotQuoted =>
                "Either you are not quoted in this quote or this quote does not exist.",
            Rejection::AlreadyReported =>
                "You have already reported this quote or quote does not exist",
            Rejection::NoOpenReport => "Report is either already resolved or doesn't exist.",
            Rejection::QuoteDoesNotExist => "Quote does not exist",
            Rejection::QuoteNotFound => "Quote could not be found",
            Rejection::AlreadyFavorited => "Quote is either already favorited or doesn't exist.",
            Rejection::NotFavorited => "Quote is not favorited.",
            Rejection::InvalidLimit => "Limit must not be negative",
            Rejection::StoreExhausted => "The store cannot take another record",
        }
    }

    /// This failure as a response: its status and its sentence.
    pub fn into_response(self) -> (r: SqlxErrorOrResponse<'static>)
        ensures
            r is Response,
            r.status_of() == self.status_of(),
            r.body_text() == self.message_text(),
    {
        SqlxErrorOrResponse::Response(self.status(), self.message())
    }
}

/// Judges a write by the number of rows it changed: a write that changed
/// nothing did not find its target in the state it needs, and is turned down
/// with `fault`.
pub fn rows_outcome(rows_affected: u64, fault: Rejection) -> (outcome: Result<(), Rejection>)
    ensures
        if rows_affected == 0 {
            outcome == Err::<(), Rejection>(fault)
        } else {
            outcome is Ok
        },
{
    if rows_affected == 0 {
        Err(fault)
    } else {
        Ok(())
    }
}

/// What goes back to the caller in place of a result: the failure of the
/// store, as the text it gave, or a response with a status and a sentence.
#[derive(Debug)]
pub enum SqlxErrorOrResponse<'a> {
    SqlxError(String),
    Response(Status, &'a str),
    ResponseOwned(Status, String),
}

impl<'a> SqlxErrorOrResponse<'a> {
    /// The status sent: a failure of the store is an internal error, a
    /// response carries its own status.
    pub open spec fn status_of(self) -> Status {
        match self {
            SqlxErrorOrResponse::SqlxError(_) => Status::InternalServerError,
            SqlxErrorOrResponse::Response(status, _) => status,
            SqlxErrorOrResponse::ResponseOwned(status, _) => status,
        }
    }

    /// The body sent: a failure of the store is named as one, a response
    /// sends its sentence.
    pub open spec fn body_text(self) -> Text {
        match self {
            SqlxErrorOrResponse::SqlxError(error) => "SQLX Error: "@ + error@,
            SqlxErrorOrResponse::Response(_, body) => body@,
            SqlxErrorOrResponse::ResponseOwned(_, body) => body@,
        }
    }

    /// The value written out: the text of the store's failure, or the status,
    /// a colon and the sentence.
    pub open spec fn display_text(self) -> Text {
        match self {
            SqlxErrorOrResponse::SqlxError(error) => error@,
            SqlxErrorOrResponse::Response(status, body) => status.label_text() + ": "@ + body@,
            SqlxErrorOrResponse::ResponseOwned(status, body) => status.label_text() + ": "@
                + body@,
        }
    }

    /// The status that this value is sent with.
    pub fn status_code(&self) -> (s: Status)
        ensures
            s == self.status_of(),
    {
        match self {
            SqlxErrorOrResponse::SqlxError(_) => Status::InternalServerError,
            SqlxErrorOrResponse::Response(status, _) => *status,
            SqlxErrorOrResponse::ResponseOwned(status, _) => *status,
        }
    }

    /// The body that this value is sent with.
    pub fn error_response(&self) -> (body: String)
        ensures
            body@ == self.body_text(),
    {
        match self {
            SqlxErrorOrResponse::SqlxError(error) => {
                let mut body = "SQLX Error: ".to_string();
                body.append(error.as_str());
                body
            },
            SqlxErrorOrResponse::Response(_, body) => (*body).to_string(),
            SqlxErrorOrResponse::ResponseOwned(_, body) => body.clone(),
        }
    }

    /// This value written out.
    pub fn to_text(&self) -> (text: String)
        ensures
            text@ == self.display_text(),
    {
        match self {
            SqlxErrorOrResponse::SqlxError(error) => error.clone(),
            SqlxErrorOrResponse::Response(status, body) => {
                let mut text = status.label().to_string();
                text.append(": ");
                text.append(body);
                text
            },
            SqlxErrorOrResponse::ResponseOwned(status, body) => {
                let mut text = status.label().to_string();
                text.append(": ");
                text.append(body.as_str());
                text
            },
        }
    }
}

/// The text of a failure of the store becomes the value that reports it.
impl<'a> From<String> for SqlxErrorOrResponse<'a> {
    fn from(error: String) -> (r: Self) {
        SqlxErrorOrResponse::SqlxError(error)
    }
}

impl<'a> vstd::std_specs::convert::FromSpecImpl<String> for SqlxErrorOrResponse<'a> {
    open spec fn obeys_from_spec() -> bool {
        true
    }

    open spec fn from_spec(error: String) -> Self {
        SqlxErrorOrResponse::SqlxError(error)
    }
}

} // verus!
