//! A WebDAV hierarchy walker: a verified `multistatus` recognizer over XML
//! tokens, the listing logic around it, and the bookkeeping of a bounded task
//! tree whose results are drained as one sequence.
pub mod document;
pub mod grammar;
pub mod laws;
mod listing;
pub mod nursery;
mod parse;
mod redirect;
mod report;
mod status;
mod token;
mod tokenize;

pub use grammar::{FailureModel, ListingModel, ResponseModel};
pub use listing::{
    child_tasks, directory_listing, is_collection_url, ChildTask, DirectoryListing, ListingError,
};
pub use nursery::{Arrival, Completion, DrainState, PollAction};
pub use parse::{parse, parse_multistatus, FromXmlError};
pub use redirect::{redirect_target, RedirectError};
pub use report::{record_report, Report, TraversalReport};
pub use status::{is_ok, status_accepted};
pub use token::{Token, TokenModel};
pub use tokenize::{tokenize, tokens_from_events, XmlTokenizeError};
