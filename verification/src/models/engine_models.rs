//! Errors raised on behalf of upstream search engines, and the parameters of a
//! query that every engine understands.

use vstd::prelude::*;
use vstd::string::StringExecFns;

verus! {

/// The kind of failure an engine can report.
#[derive(Debug, Clone, Copy, PartialEq, Eq, Structural)]
pub enum EngineErrorType {
    /// No engine of the given name is known.
    NoSuchEngineFound,
    /// The upstream engine answered, with nothing usable.
    EmptyResultSet,
    /// The upstream engine could not be reached.
    RequestError,
    /// Any fault inside the code that handles the upstream engine.
    UnexpectedError,
}

/// A failure together with the name of the engine it belongs to.
#[derive(Debug)]
pub struct EngineError {
    /// The kind of failure.
    pub error_type: EngineErrorType,
    /// The name of the engine that raised it.
    pub engine: String,
}

/// The mathematical value of an [`EngineError`].
pub struct EngineErrorView {
    pub error_type: EngineErrorType,
    pub engine: Seq<char>,
}

impl View for EngineError {
    type V = EngineErrorView;

    open spec fn view(&self) -> EngineErrorView {
        EngineErrorView { error_type: self.error_type, engine: self.engine@ }
    }
}

/// The text shown for a failure of kind `error_type` raised by `engine`.
pub open spec fn error_message(error_type: EngineErrorType, engine: Seq<char>) -> Seq<char> {
    match error_type {
        EngineErrorType::NoSuchEngineFound => "No such engine with the name '"@ + engine
            + "' found"@,
        EngineErrorType::EmptyResultSet => "The upstream search engine returned an empty result set"@,
        EngineErrorType::RequestError => "Error occurred while requesting data from upstream search engine"@,
        EngineErrorType::UnexpectedError => "An unexpected error occurred while processing the data"@,
    }
}

impl EngineError {
    /// The text shown to a person for this failure.
    pub fn message(&self) -> (text: String)
        ensures
            text@ == error_message(self.error_type, self.engine@),
    {
        match self.error_type {
            EngineErrorType::NoSuchEngineFound => {
                let mut text = String::from_str("No such engine with the name '");
                text.append(self.engine.as_str());
                text.append("' found");
                text
            },
            EngineErrorType::EmptyResultSet => String::from_str(
                "The upstream search engine returned an empty result set",
            ),
            EngineErrorType::RequestError => String::from_str(
                "Error occurred while requesting data from upstream search engine",
            ),
            EngineErrorType::UnexpectedError => String::from_str(
                "An unexpected error occurred while processing the data",
            ),
        }
    }
}

/// One kind of result that a query can ask for.
#[derive(Debug, Clone, Copy, PartialEq, Eq, Structural)]
pub enum QueryType {
    /// Text search results.
    Text,
    /// Video search results.
    Video,
    /// Image search results.
    Image,
    /// File search results, torrent files included.
    File,
    /// Autocompletion results.
    AutoCompletion,
}

/// A set of [`QueryType`]s: a query may ask for several kinds at once, and an
/// engine may serve several.
#[derive(Debug, Clone, Copy, PartialEq, Eq, Structural)]
pub struct QueryTypes {
    pub text: bool,
    pub video: bool,
    pub image: bool,
    pub file: bool,
    pub auto_completion: bool,
}

impl QueryTypes {
    /// Whether `kind` is a member of the set.
    pub open spec fn has(self, kind: QueryType) -> bool {
        match kind {
            QueryType::Text => self.text,
            QueryType::Video => self.video,
            QueryType::Image => self.image,
            QueryType::File => self.file,
            QueryType::AutoCompletion => self.auto_completion,
        }
    }

    /// The set with no member.
    pub fn empty() -> (set: QueryTypes)
        ensures
            forall|kind: QueryType| !set.has(kind),
    {
        QueryTypes { text: false, video: false, image: false, file: false, auto_completion: false }
    }

    /// The set whose only member is `kind`.
    pub fn only(kind: QueryType) -> (set: QueryTypes)
        ensures
            forall|other: QueryType| set.has(other) == (other == kind),
    {
        QueryTypes::empty().with(kind)
    }

    /// This set with `kind` added.
    pub fn with(self, kind: QueryType) -> (set: QueryTypes)
        ensures
            forall|other: QueryType| set.has(other) == (self.has(other) || other == kind),
    {
        let mut set = self;
        match kind {
            QueryType::Text => set.text = true,
            QueryType::Video => set.video = true,
            QueryType::Image => set.image = true,
            QueryType::File => set.file = true,
            QueryType::AutoCompletion => set.auto_completion = true,
        }
        set
    }

    /// Whether `kind` is a member of the set.
    pub fn contains(self, kind: QueryType) -> (found: bool)
        ensures
            found == self.has(kind),
    {
        match kind {
            QueryType::Text => self.text,
            QueryType::Video => self.video,
            QueryType::Image => self.image,
            QueryType::File => self.file,
            QueryType::AutoCompletion => self.auto_completion,
        }
    }

    /// Whether the two sets share a member.
    pub fn intersects(self, other: QueryTypes) -> (shared: bool)
        ensures
            shared == exists|kind: QueryType| self.has(kind) && other.has(kind),
    {
        let shared = (self.text && other.text) || (self.video && other.video) || (self.image
            && other.image) || (self.file && other.file) || (self.auto_completion
            && other.auto_completion);
        proof {
            if shared {
                let kind = if self.text && other.text {
                    QueryType::Text
                } else if self.video && other.video {
                    QueryType::Video
                } else if self.image && other.image {
                    QueryType::Image
                } else if self.file && other.file {
                    QueryType::File
                } else {
                    QueryType::AutoCompletion
                };
                assert(self.has(kind) && other.has(kind));
            }
        }
        shared
    }
}

/// How recent the results of a query must be.
#[derive(Debug, Clone, Copy, PartialEq, Eq, Structural)]
pub enum TimeRelavancy {
    /// No limit.
    Anytime,
    /// Within the last day.
    LastDay,
    /// Within the last week.
    LastWeek,
    /// Within the last month.
    LastMonth,
    /// Within the last year.
    LastYear,
}

} // verus!
