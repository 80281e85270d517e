//! A local-first issue tracker: issues, labels, comments and links, with the
//! rules that govern them stated as contracts and proved.
pub mod color;
pub mod error;
pub mod model;
pub mod text;
pub mod store;
pub mod issues;
pub mod query;
pub mod labels;
pub mod links;
pub mod comments;
pub mod laws;
pub mod output;
pub mod params;
pub mod location;
pub mod validate;
pub mod schema;

pub use error::Error;
pub use model::{
    Comment, Issue, IssueCreate, IssueFilter, IssueLink, IssueState, IssueType, IssueUpdate,
    Label, LabelView, LinkedIssueRef, SortField, SortOrder, StateReason,
};
pub use store::Store;
