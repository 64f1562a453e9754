//! The values that cross the library's boundary: storage rows as a query
//! hands them over, the quote objects built from them, and what a member
//! submits. Each executable type has a view made of mathematical values;
//! every contract in the crate is stated over those views.

use vstd::prelude::*;

verus! {

/// Text as contracts see it.
pub type Text = Seq<char>;

/// The view of an optional piece of text.
pub open spec fn opt_text(o: Option<String>) -> Option<Text> {
    match o {
        Some(s) => Some(s@),
        None => None,
    }
}

/// The value of a vote: a member is for a quote or against it.
#[derive(Clone, Copy, Debug, PartialEq, Eq, Structural)]
pub enum Vote {
    Upvote,
    Downvote,
}

impl Vote {
    /// What one vote of this value adds to a quote's score.
    pub open spec fn weight(self) -> int {
        match self {
            Vote::Upvote => 1,
            Vote::Downvote => -1,
        }
    }

    /// What one vote of this value adds to a quote's score.
    pub fn score_delta(self) -> (d: i64)
        ensures
            d == self.weight(),
    {
        match self {
            Vote::Upvote => 1,
            Vote::Downvote => -1,
        }
    }
}

/// A member as the directory names them: identifier and display name.
#[derive(Clone, Debug, PartialEq, Eq)]
pub struct UserResponse {
    pub uid: String,
    pub cn: String,
}

pub struct UserView {
    pub uid: Text,
    pub cn: Text,
}

impl View for UserResponse {
    type V = UserView;

    open spec fn view(&self) -> UserView {
        UserView { uid: self.uid@, cn: self.cn@ }
    }
}

/// The views of a list of members.
pub open spec fn users_view(users: Seq<UserResponse>) -> Seq<UserView> {
    users.map_values(|u: UserResponse| u@)
}

/// The caller of an operation, as the identity layer has verified them.
#[derive(Clone, Debug, PartialEq, Eq)]
pub struct User {
    pub preferred_username: String,
    pub admin: bool,
}

impl User {
    /// A caller is privileged when they are an administrator, and every
    /// caller is while enforcement is switched off.
    pub open spec fn privileged(self, security_enabled: bool) -> bool {
        self.admin || !security_enabled
    }

    /// Whether this caller is privileged under the given enforcement setting.
    pub fn is_privileged(&self, security_enabled: bool) -> (p: bool)
        ensures
            p == self.privileged(security_enabled),
    {
        self.admin || !security_enabled
    }
}

/// One row of a quote query: a shard together with the fields of the quote
/// it belongs to, annotated for the viewer the query was made for.
#[derive(Clone, Debug, PartialEq, Eq)]
pub struct QuoteShard {
    pub id: i32,
    pub index: i16,
    pub body: String,
    pub submitter: String,
    pub speaker: String,
    pub timestamp: i64,
    pub vote: Option<Vote>,
    pub score: i64,
    pub hidden_reason: Option<String>,
    pub hidden_actor: Option<String>,
    pub favorited: bool,
}

pub struct RowView {
    pub id: i32,
    pub index: i16,
    pub body: Text,
    pub submitter: Text,
    pub speaker: Text,
    pub timestamp: i64,
    pub vote: Option<Vote>,
    pub score: i64,
    pub hidden_reason: Option<Text>,
    pub hidden_actor: Option<Text>,
    pub favorited: bool,
}

impl View for QuoteShard {
    type V = RowView;

    open spec fn view(&self) -> RowView {
        RowView {
            id: self.id,
            index: self.index,
            body: self.body@,
            submitter: self.submitter@,
            speaker: self.speaker@,
            timestamp: self.timestamp,
            vote: self.vote,
            score: self.score,
            hidden_reason: opt_text(self.hidden_reason),
            hidden_actor: opt_text(self.hidden_actor),
            favorited: self.favorited,
        }
    }
}

/// The views of a list of rows.
pub open spec fn rows_view(rows: Seq<QuoteShard>) -> Seq<RowView> {
    rows.map_values(|r: QuoteShard| r@)
}

/// One attributed fragment of a quote, with its speaker named.
#[derive(Clone, Debug, PartialEq, Eq)]
pub struct QuoteShardResponse {
    pub body: String,
    pub speaker: UserResponse,
}

pub struct ShardView {
    pub body: Text,
    pub speaker: UserView,
}

impl View for QuoteShardResponse {
    type V = ShardView;

    open spec fn view(&self) -> ShardView {
        ShardView { body: self.body@, speaker: self.speaker@ }
    }
}

/// Why a quote is hidden, and who hid it.
#[derive(Clone, Debug, PartialEq, Eq)]
pub struct Hidden {
    pub reason: String,
    pub actor: UserResponse,
}

pub struct HiddenView {
    pub reason: Text,
    pub actor: UserView,
}

impl View for Hidden {
    type V = HiddenView;

    open spec fn view(&self) -> HiddenView {
        HiddenView { reason: self.reason@, actor: self.actor@ }
    }
}

/// The view of an optional hidden marker.
pub open spec fn opt_hidden(o: Option<Hidden>) -> Option<HiddenView> {
    match o {
        Some(h) => Some(h@),
        None => None,
    }
}

/// A whole quote as a viewer receives it.
#[derive(Clone, Debug, PartialEq, Eq)]
pub struct QuoteResponse {
    pub id: i32,
    pub shards: Vec<QuoteShardResponse>,
    pub timestamp: i64,
    pub score: i64,
    pub vote: Option<Vote>,
    pub submitter: UserResponse,
    pub hidden: Option<Hidden>,
    pub favorited: bool,
}

pub struct QuoteView {
    pub id: i32,
    pub shards: Seq<ShardView>,
    pub timestamp: i64,
    pub score: i64,
    pub vote: Option<Vote>,
    pub submitter: UserView,
    pub hidden: Option<HiddenView>,
    pub favorited: bool,
}

impl View for QuoteResponse {
    type V = QuoteView;

    open spec fn view(&self) -> QuoteView {
        QuoteView {
            id: self.id,
            shards: self.shards@.map_values(|s: QuoteShardResponse| s@),
            timestamp: self.timestamp,
            score: self.score,
            vote: self.vote,
            submitter: self.submitter@,
            hidden: opt_hidden(self.hidden),
            favorited: self.favorited,
        }
    }
}

/// The views of a list of quotes.
pub open spec fn quotes_view(quotes: Seq<QuoteResponse>) -> Seq<QuoteView> {
    quotes.map_values(|q: QuoteResponse| q@)
}

/// One row of the open-reports query: a report with the quote it is about.
#[derive(Clone, Debug, PartialEq, Eq)]
pub struct ReportedQuoteShard {
    pub quote_id: i32,
    pub quote_submitter: String,
    pub quote_timestamp: i64,
    pub quote_hidden: bool,
    pub report_timestamp: i64,
    pub report_id: i32,
    pub report_reason: String,
    pub report_resolver: Option<String>,
}

pub struct ReportRowView {
    pub quote_id: i32,
    pub quote_submitter: Text,
    pub quote_timestamp: i64,
    pub quote_hidden: bool,
    pub report_timestamp: i64,
    pub report_id: i32,
    pub report_reason: Text,
    pub report_resolver: Option<Text>,
}

impl View for ReportedQuoteShard {
    type V = ReportRowView;

    open spec fn view(&self) -> ReportRowView {
        ReportRowView {
            quote_id: self.quote_id,
            quote_submitter: self.quote_submitter@,
            quote_timestamp: self.quote_timestamp,
            quote_hidden: self.quote_hidden,
            report_timestamp: self.report_timestamp,
            report_id: self.report_id,
            report_reason: self.report_reason@,
            report_resolver: opt_text(self.report_resolver),
        }
    }
}

/// The views of a list of report rows.
pub open spec fn report_rows_view(rows: Seq<ReportedQuoteShard>) -> Seq<ReportRowView> {
    rows.map_values(|r: ReportedQuoteShard| r@)
}

/// One report as a moderator receives it. The reporter is never part of it.
#[derive(Clone, Debug, PartialEq, Eq)]
pub struct ReportResponse {
    pub reason: String,
    pub timestamp: i64,
    pub id: i32,
}

pub struct ReportView {
    pub reason: Text,
    pub timestamp: i64,
    pub id: i32,
}

impl View for ReportResponse {
    type V = ReportView;

    open spec fn view(&self) -> ReportView {
        ReportView { reason: self.reason@, timestamp: self.timestamp, id: self.id }
    }
}

/// The open reports of one quote.
#[derive(Clone, Debug, PartialEq, Eq)]
pub struct ReportedQuoteResponse {
    pub quote_id: i32,
    pub reports: Vec<ReportResponse>,
}

pub struct ReportedQuoteView {
    pub quote_id: i32,
    pub reports: Seq<ReportView>,
}

impl View for ReportedQuoteResponse {
    type V = ReportedQuoteView;

    open spec fn view(&self) -> ReportedQuoteView {
        ReportedQuoteView {
            quote_id: self.quote_id,
            reports: self.reports@.map_values(|r: ReportResponse| r@),
        }
    }
}

/// The views of a list of reported quotes.
pub open spec fn reported_view(groups: Seq<ReportedQuoteResponse>) -> Seq<ReportedQuoteView> {
    groups.map_values(|g: ReportedQuoteResponse| g@)
}

/// One fragment of a quote as a member submits it.
#[derive(Clone, Debug, PartialEq, Eq)]
pub struct NewQuoteShard {
    pub body: String,
    pub speaker: String,
}

pub struct NewShardView {
    pub body: Text,
    pub speaker: Text,
}

impl View for NewQuoteShard {
    type V = NewShardView;

    open spec fn view(&self) -> NewShardView {
        NewShardView { body: self.body@, speaker: self.speaker@ }
    }
}

/// A quote as a member submits it: its fragments in order.
#[derive(Clone, Debug, PartialEq, Eq)]
pub struct NewQuote {
    pub shards: Vec<NewQuoteShard>,
}

impl View for NewQuote {
    type V = Seq<NewShardView>;

    open spec fn view(&self) -> Seq<NewShardView> {
        self.shards@.map_values(|s: NewQuoteShard| s@)
    }
}

/// The filters and the page of a listing request. A filter that is not
/// set filters nothing.
#[derive(Clone, Debug, PartialEq, Eq)]
pub struct FetchParams {
    /// A text that a shard's body must contain, letters compared without
    /// regard to case.
    pub q: Option<String>,
    /// The cursor: only quotes with an id strictly below it are listed,
    /// whatever its value.
    pub lt: Option<i32>,
    /// The most quotes to list; -1 for all of them.
    pub limit: Option<i64>,
    /// The submitter that a quote must have.
    pub submitter: Option<String>,
    /// The speaker that the shard containing `q` must have.
    pub speaker: Option<String>,
    /// A member who must be party to the quote.
    pub involved: Option<String>,
    /// Whether only hidden quotes are listed, or only those not hidden.
    pub hidden: Option<bool>,
    /// Whether only the viewer's favorites are listed.
    pub favorited: Option<bool>,
}

pub struct FilterView {
    pub q: Option<Text>,
    pub lt: Option<i32>,
    pub limit: Option<i64>,
    pub submitter: Option<Text>,
    pub speaker: Option<Text>,
    pub involved: Option<Text>,
    pub hidden: Option<bool>,
    pub favorited: Option<bool>,
}

impl View for FetchParams {
    type V = FilterView;

    open spec fn view(&self) -> FilterView {
        FilterView {
            q: opt_text(self.q),
            lt: self.lt,
            limit: self.limit,
            submitter: opt_text(self.submitter),
            speaker: opt_text(self.speaker),
            involved: opt_text(self.involved),
            hidden: self.hidden,
            favorited: self.favorited,
        }
    }
}

} // verus!
