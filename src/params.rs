use vstd::prelude::*;
use crate::model::{
    state_named, type_named, IssueCreate, IssueFilter, IssueState, IssueType, IssueUpdate,
    SortField, SortOrder, DEFAULT_LIMIT,
};
use crate::text::{lower_of, lowercase, same_text};

verus! {

/// Listing options as a front end sends them: names as text, every field
/// optional.
#[derive(Debug, Clone)]
pub struct FilterParams {
    pub state: Option<String>,
    pub issue_type: Option<String>,
    pub labels: Option<Vec<String>>,
    pub sort_by: Option<String>,
    pub sort_order: Option<String>,
    pub limit: Option<i64>,
    pub offset: Option<i64>,
    pub include_deleted: Option<bool>,
    pub search: Option<String>,
}

/// A new issue as a front end sends it.
#[derive(Debug, Clone)]
pub struct CreateIssueParams {
    pub title: String,
    pub body: Option<String>,
    pub issue_type: Option<String>,
    pub labels: Option<Vec<String>>,
}

/// Changes to an issue as a front end sends them.
#[derive(Debug, Clone)]
pub struct UpdateIssueParams {
    pub title: Option<String>,
    pub body: Option<String>,
    pub issue_type: Option<String>,
}

/// Which directory a front end has open, and whether it holds a tracker.
#[derive(Debug, Clone)]
pub struct DirectoryState {
    pub path: Option<String>,
    pub initialized: bool,
}

/// The sort field a name denotes once lower-cased; anything else sorts by
/// update time.
pub open spec fn sort_field_named(l: Seq<char>) -> SortField {
    if l == "created"@ {
        SortField::Created
    } else if l == "id"@ {
        SortField::Id
    } else {
        SortField::Updated
    }
}

/// The sort order a name denotes once lower-cased; anything else is
/// descending.
pub open spec fn sort_order_named(l: Seq<char>) -> SortOrder {
    if l == "asc"@ {
        SortOrder::Asc
    } else {
        SortOrder::Desc
    }
}

/// The type a name denotes, if any.
pub open spec fn type_from(t: Option<String>) -> Option<IssueType> {
    match t {
        Some(s) => type_named(lower_of(s@)),
        None => None,
    }
}

fn type_of(t: &Option<String>) -> (r: Option<IssueType>)
    ensures
        r == type_from(*t),
{
    match t {
        Some(s) => match IssueType::parse(s.as_str()) {
            Ok(k) => Some(k),
            Err(_) => None,
        },
        None => None,
    }
}

impl FilterParams {
    /// The filter these options describe: each option given replaces the
    /// default; a state or type name that means nothing sets no condition,
    /// an unknown sort field or order falls back to the default.
    pub fn to_filter(&self) -> (r: IssueFilter)
        ensures
            r.state == (match self.state {
                Some(s) => state_named(lower_of(s@)),
                None => None,
            }),
            self.issue_type is Some ==> r.issue_type == type_from(self.issue_type),
            self.issue_type is None ==> r.issue_type is None,
            self.labels matches Some(l) ==> r.labels@ == l@,
            self.labels is None ==> r.labels@.len() == 0,
            r.sort_by == (match self.sort_by {
                Some(s) => sort_field_named(lower_of(s@)),
                None => SortField::Updated,
            }),
            r.sort_order == (match self.sort_order {
                Some(s) => sort_order_named(lower_of(s@)),
                None => SortOrder::Desc,
            }),
            r.limit == (match self.limit {
                Some(n) => n as usize,
                None => DEFAULT_LIMIT,
            }),
            r.offset == (match self.offset {
                Some(n) => n as usize,
                None => 0usize,
            }),
            r.include_deleted == (match self.include_deleted {
                Some(b) => b,
                None => false,
            }),
    {
        let mut filter = IssueFilter::default();
        match &self.state {
            Some(s) => {
                filter.state = IssueState::parse(s.as_str());
            },
            None => {},
        }
        if self.issue_type.is_some() {
            filter.issue_type = type_of(&self.issue_type);
        }
        match &self.labels {
            Some(l) => {
                filter.labels = l.clone();
            },
            None => {},
        }
        match &self.sort_by {
            Some(s) => {
                let l = lowercase(s.as_str());
                filter.sort_by = if same_text(l.as_str(), "created") {
                    SortField::Created
                } else if same_text(l.as_str(), "id") {
                    SortField::Id
                } else {
                    SortField::Updated
                };
            },
            None => {},
        }
        match &self.sort_order {
            Some(s) => {
                let l = lowercase(s.as_str());
                filter.sort_order = if same_text(l.as_str(), "asc") {
                    SortOrder::Asc
                } else {
                    SortOrder::Desc
                };
            },
            None => {},
        }
        match self.limit {
            Some(n) => {
                filter.limit = n as usize;
            },
            None => {},
        }
        match self.offset {
            Some(n) => {
                filter.offset = n as usize;
            },
            None => {},
        }
        match self.include_deleted {
            Some(b) => {
                filter.include_deleted = b;
            },
            None => {},
        }
        filter
    }
}

impl CreateIssueParams {
    /// The issue to create: a type name that means nothing gives a task, no
    /// labels gives none.
    pub fn to_create(&self) -> (r: IssueCreate)
        ensures
            r.title == self.title,
            r.body == self.body,
            r.issue_type == (match type_from(self.issue_type) {
                Some(t) => t,
                None => IssueType::Task,
            }),
            self.labels matches Some(l) ==> r.labels@ == l@,
            self.labels is None ==> r.labels@.len() == 0,
    {
        let issue_type = match type_of(&self.issue_type) {
            Some(t) => t,
            None => IssueType::Task,
        };
        let labels = match &self.labels {
            Some(l) => l.clone(),
            None => Vec::new(),
        };
        IssueCreate { title: self.title.clone(), body: crate::store::copy_text(&self.body), issue_type, labels }
    }
}

impl UpdateIssueParams {
    /// The update to make: a type name that means nothing changes no type.
    pub fn to_update(&self) -> (r: IssueUpdate)
        ensures
            r.title == self.title,
            r.body == self.body,
            r.issue_type == type_from(self.issue_type),
    {
        IssueUpdate {
            title: crate::store::copy_text(&self.title),
            body: crate::store::copy_text(&self.body),
            issue_type: type_of(&self.issue_type),
        }
    }
}

} // verus!
