use vstd::prelude::*;
use crate::error::Error;
use crate::text::{lower_of, lowercase, same_text};

verus! {

/// The kind of an issue.
#[derive(Debug, Clone, Copy, PartialEq, Eq, Structural)]
pub enum IssueType {
    Epic,
    Task,
    Bug,
    Request,
}

/// Whether an issue is open or closed.
#[derive(Debug, Clone, Copy, PartialEq, Eq, Structural)]
pub enum IssueState {
    Open,
    Closed,
}

/// Why an issue was closed.
#[derive(Debug, Clone, Copy, PartialEq, Eq, Structural)]
pub enum StateReason {
    Completed,
    NotPlanned,
}

/// The column that a listing is ordered by.
#[derive(Debug, Clone, Copy, PartialEq, Eq, Structural)]
pub enum SortField {
    Updated,
    Created,
    Id,
}

/// The direction of a listing's order.
#[derive(Debug, Clone, Copy, PartialEq, Eq, Structural)]
pub enum SortOrder {
    Asc,
    Desc,
}

impl Default for IssueType {
    fn default() -> (r: IssueType)
        ensures
            r == IssueType::Task,
    {
        IssueType::Task
    }
}

impl Default for IssueState {
    fn default() -> (r: IssueState)
        ensures
            r == IssueState::Open,
    {
        IssueState::Open
    }
}

impl Default for StateReason {
    fn default() -> (r: StateReason)
        ensures
            r == StateReason::Completed,
    {
        StateReason::Completed
    }
}

impl Default for SortField {
    fn default() -> (r: SortField)
        ensures
            r == SortField::Updated,
    {
        SortField::Updated
    }
}

impl Default for SortOrder {
    fn default() -> (r: SortOrder)
        ensures
            r == SortOrder::Desc,
    {
        SortOrder::Desc
    }
}

/// The name under which a type is written and stored.
pub open spec fn kind_name(t: IssueType) -> Seq<char> {
    match t {
        IssueType::Epic => "epic"@,
        IssueType::Task => "task"@,
        IssueType::Bug => "bug"@,
        IssueType::Request => "request"@,
    }
}

/// The name under which a state is written and stored.
pub open spec fn state_name(s: IssueState) -> Seq<char> {
    match s {
        IssueState::Open => "open"@,
        IssueState::Closed => "closed"@,
    }
}

/// The name under which a reason is written and stored.
pub open spec fn reason_name(r: StateReason) -> Seq<char> {
    match r {
        StateReason::Completed => "completed"@,
        StateReason::NotPlanned => "not_planned"@,
    }
}

/// The type that a name denotes once lower-cased, if any.
pub open spec fn type_named(l: Seq<char>) -> Option<IssueType> {
    if l == "epic"@ {
        Some(IssueType::Epic)
    } else if l == "task"@ {
        Some(IssueType::Task)
    } else if l == "bug"@ {
        Some(IssueType::Bug)
    } else if l == "request"@ {
        Some(IssueType::Request)
    } else {
        None
    }
}

/// The reason that a name denotes once lower-cased, if any; `notplanned`
/// is accepted beside `not_planned`.
pub open spec fn reason_named(l: Seq<char>) -> Option<StateReason> {
    if l == "completed"@ {
        Some(StateReason::Completed)
    } else if l == "not_planned"@ || l == "notplanned"@ {
        Some(StateReason::NotPlanned)
    } else {
        None
    }
}

/// The state that a name denotes once lower-cased, if any.
pub open spec fn state_named(l: Seq<char>) -> Option<IssueState> {
    if l == "open"@ {
        Some(IssueState::Open)
    } else if l == "closed"@ {
        Some(IssueState::Closed)
    } else {
        None
    }
}

impl IssueType {
    /// The type's name: epic, task, bug or request.
    pub fn as_str(&self) -> (r: &'static str)
        ensures
            r@ == kind_name(*self),
    {
        match self {
            IssueType::Epic => "epic",
            IssueType::Task => "task",
            IssueType::Bug => "bug",
            IssueType::Request => "request",
        }
    }

    /// Reads a type from its name, in any case.
    pub fn parse(s: &str) -> (r: Result<IssueType, Error>)
        ensures
            type_named(lower_of(s@)) matches Some(t) ==> r == Ok::<IssueType, Error>(t),
            type_named(lower_of(s@)) is None ==> (r matches Err(Error::InvalidIssueType(m))
                && m@ == s@),
    {
        let l = lowercase(s);
        let l = l.as_str();
        if same_text(l, "epic") {
            Ok(IssueType::Epic)
        } else if same_text(l, "task") {
            Ok(IssueType::Task)
        } else if same_text(l, "bug") {
            Ok(IssueType::Bug)
        } else if same_text(l, "request") {
            Ok(IssueType::Request)
        } else {
            Err(Error::InvalidIssueType(s.to_owned()))
        }
    }
}

impl IssueState {
    /// The state's name: open or closed.
    pub fn as_str(&self) -> (r: &'static str)
        ensures
            r@ == state_name(*self),
    {
        match self {
            IssueState::Open => "open",
            IssueState::Closed => "closed",
        }
    }

    /// Reads a state from its name, in any case.
    pub fn parse(s: &str) -> (r: Option<IssueState>)
        ensures
            r == state_named(lower_of(s@)),
    {
        let l = lowercase(s);
        let l = l.as_str();
        if same_text(l, "open") {
            Some(IssueState::Open)
        } else if same_text(l, "closed") {
            Some(IssueState::Closed)
        } else {
            None
        }
    }
}

impl StateReason {
    /// The reason's name: completed or not_planned.
    pub fn as_str(&self) -> (r: &'static str)
        ensures
            r@ == reason_name(*self),
    {
        match self {
            StateReason::Completed => "completed",
            StateReason::NotPlanned => "not_planned",
        }
    }

    /// Reads a reason from its name, in any case.
    pub fn parse(s: &str) -> (r: Result<StateReason, Error>)
        ensures
            reason_named(lower_of(s@)) matches Some(t) ==> r == Ok::<StateReason, Error>(t),
            reason_named(lower_of(s@)) is None ==> (r matches Err(Error::InvalidStateReason(m))
                && m@ == s@),
    {
        let l = lowercase(s);
        let l = l.as_str();
        if same_text(l, "completed") {
            Ok(StateReason::Completed)
        } else if same_text(l, "not_planned") || same_text(l, "notplanned") {
            Ok(StateReason::NotPlanned)
        } else {
            Err(Error::InvalidStateReason(s.to_owned()))
        }
    }
}

/// Reads a type as it is stored (exact lower-case name); anything else is
/// read as a task.
pub fn parse_issue_type(s: &str) -> (r: IssueType)
    ensures
        r == (if s@ == "epic"@ {
            IssueType::Epic
        } else if s@ == "bug"@ {
            IssueType::Bug
        } else if s@ == "request"@ {
            IssueType::Request
        } else {
            IssueType::Task
        }),
{
    if same_text(s, "epic") {
        IssueType::Epic
    } else if same_text(s, "bug") {
        IssueType::Bug
    } else if same_text(s, "request") {
        IssueType::Request
    } else {
        IssueType::Task
    }
}

/// Reads a state as it is stored; anything but `closed` is read as open.
pub fn parse_issue_state(s: &str) -> (r: IssueState)
    ensures
        r == (if s@ == "closed"@ {
            IssueState::Closed
        } else {
            IssueState::Open
        }),
{
    if same_text(s, "closed") {
        IssueState::Closed
    } else {
        IssueState::Open
    }
}

/// Reads a reason as it is stored; anything but `not_planned` is read as
/// completed.
pub fn parse_state_reason(s: &str) -> (r: StateReason)
    ensures
        r == (if s@ == "not_planned"@ {
            StateReason::NotPlanned
        } else {
            StateReason::Completed
        }),
{
    if same_text(s, "not_planned") {
        StateReason::NotPlanned
    } else {
        StateReason::Completed
    }
}

impl SortField {
    /// Reads a sort field from its name, in any case: updated, created or id.
    pub fn parse(s: &str) -> (r: Option<SortField>)
        ensures
            r == (if lower_of(s@) == "updated"@ {
                Some(SortField::Updated)
            } else if lower_of(s@) == "created"@ {
                Some(SortField::Created)
            } else if lower_of(s@) == "id"@ {
                Some(SortField::Id)
            } else {
                None
            }),
    {
        let l = lowercase(s);
        let l = l.as_str();
        if same_text(l, "updated") {
            Some(SortField::Updated)
        } else if same_text(l, "created") {
            Some(SortField::Created)
        } else if same_text(l, "id") {
            Some(SortField::Id)
        } else {
            None
        }
    }
}

impl SortOrder {
    /// Reads a sort order from its name, in any case: asc or desc.
    pub fn parse(s: &str) -> (r: Option<SortOrder>)
        ensures
            r == (if lower_of(s@) == "asc"@ {
                Some(SortOrder::Asc)
            } else if lower_of(s@) == "desc"@ {
                Some(SortOrder::Desc)
            } else {
                None
            }),
    {
        let l = lowercase(s);
        let l = l.as_str();
        if same_text(l, "asc") {
            Some(SortOrder::Asc)
        } else if same_text(l, "desc") {
            Some(SortOrder::Desc)
        } else {
            None
        }
    }
}

impl std::str::FromStr for IssueType {
    type Err = Error;

    fn from_str(s: &str) -> Result<IssueType, Error> {
        IssueType::parse(s)
    }
}

impl std::str::FromStr for StateReason {
    type Err = Error;

    fn from_str(s: &str) -> Result<StateReason, Error> {
        StateReason::parse(s)
    }
}

/// An issue of the tracker. Times are seconds since the Unix epoch, UTC.
#[derive(Debug, Clone)]
pub struct Issue {
    pub id: i64,
    pub title: String,
    pub body: Option<String>,
    pub issue_type: IssueType,
    pub state: IssueState,
    /// Present exactly when the issue is closed.
    pub state_reason: Option<StateReason>,
    pub created_at: i64,
    pub updated_at: i64,
    /// Present exactly when the issue is closed.
    pub closed_at: Option<i64>,
    /// Present exactly when the issue is soft-deleted.
    pub deleted_at: Option<i64>,
}

/// The lifecycle invariant of an issue: it is open exactly when it has
/// neither a reason nor a closing time, and closed exactly when it has both.
pub open spec fn lifecycle_ok(i: Issue) -> bool {
    &&& (i.state == IssueState::Open) <==> (i.state_reason is None && i.closed_at is None)
    &&& (i.state == IssueState::Closed) <==> (i.state_reason is Some && i.closed_at is Some)
}

/// What a new issue is made of.
#[derive(Debug, Clone)]
pub struct IssueCreate {
    pub title: String,
    pub body: Option<String>,
    pub issue_type: IssueType,
    /// Names of labels to attach; each must exist.
    pub labels: Vec<String>,
}

impl Default for IssueCreate {
    fn default() -> (r: IssueCreate)
        ensures
            r.title@.len() == 0,
            r.body is None,
            r.issue_type == IssueType::Task,
            r.labels@.len() == 0,
    {
        IssueCreate { title: String::new(), body: None, issue_type: IssueType::Task, labels: Vec::new() }
    }
}

/// Which issues a listing or a search returns, in what order, and which page.
#[derive(Debug, Clone)]
pub struct IssueFilter {
    /// Only issues in this state; all states when absent.
    pub state: Option<IssueState>,
    /// Only issues of this type; all types when absent.
    pub issue_type: Option<IssueType>,
    /// Only issues that carry every one of these labels.
    pub labels: Vec<String>,
    /// Soft-deleted issues are left out unless this is set.
    pub include_deleted: bool,
    pub sort_by: SortField,
    pub sort_order: SortOrder,
    /// At most this many issues.
    pub limit: usize,
    /// Skip this many issues first.
    pub offset: usize,
}

/// The number of issues on a page when nothing else is asked.
pub const DEFAULT_LIMIT: usize = 30;

/// The filter that `IssueFilter::new` and `default` give.
pub open spec fn is_default_filter(f: IssueFilter) -> bool {
    &&& f.state is None
    &&& f.issue_type is None
    &&& f.labels@.len() == 0
    &&& !f.include_deleted
    &&& f.sort_by == SortField::Updated
    &&& f.sort_order == SortOrder::Desc
    &&& f.limit == DEFAULT_LIMIT
    &&& f.offset == 0
}

impl Default for IssueFilter {
    /// All states and types, no labels, no deleted issues, most recently
    /// updated first, thirty to a page.
    fn default() -> (r: IssueFilter)
        ensures
            is_default_filter(r),
    {
        IssueFilter {
            state: None,
            issue_type: None,
            labels: Vec::new(),
            include_deleted: false,
            sort_by: SortField::Updated,
            sort_order: SortOrder::Desc,
            limit: DEFAULT_LIMIT,
            offset: 0,
        }
    }
}

impl IssueFilter {
    /// The default filter.
    pub fn new() -> (r: IssueFilter)
        ensures
            is_default_filter(r),
    {
        IssueFilter::default()
    }
}

/// The fields of an issue to change; absent ones stay as they are.
#[derive(Debug, Clone)]
pub struct IssueUpdate {
    pub title: Option<String>,
    pub body: Option<String>,
    pub issue_type: Option<IssueType>,
}

impl Default for IssueUpdate {
    fn default() -> (r: IssueUpdate)
        ensures
            r.title is None,
            r.body is None,
            r.issue_type is None,
    {
        IssueUpdate { title: None, body: None, issue_type: None }
    }
}

/// A link between two issues, smaller id first.
#[derive(Debug, Clone, Copy, PartialEq, Eq, Structural)]
pub struct IssueLink {
    pub issue_a_id: i64,
    pub issue_b_id: i64,
    pub created_at: i64,
}

/// A partner of a link, with its title.
#[derive(Debug, Clone)]
pub struct LinkedIssueRef {
    pub id: i64,
    pub title: String,
}

/// A label that can be put on issues.
#[derive(Debug, Clone)]
pub struct Label {
    pub id: i64,
    pub name: String,
    pub description: Option<String>,
    pub color: Option<String>,
}

/// A label as it is shown, without its id.
#[derive(Debug, Clone)]
pub struct LabelView {
    pub name: String,
    pub color: Option<String>,
    pub description: Option<String>,
}

impl From<Label> for LabelView {
    fn from(label: Label) -> (r: LabelView) {
        LabelView { name: label.name, color: label.color, description: label.description }
    }
}

impl vstd::std_specs::convert::FromSpecImpl<Label> for LabelView {
    open spec fn obeys_from_spec() -> bool {
        true
    }

    open spec fn from_spec(label: Label) -> LabelView {
        LabelView { name: label.name, color: label.color, description: label.description }
    }
}

/// A comment on an issue.
#[derive(Debug, Clone)]
pub struct Comment {
    pub id: i64,
    pub issue_id: i64,
    pub body: String,
    pub created_at: i64,
    pub updated_at: i64,
}

} // verus!
