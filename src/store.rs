use vstd::prelude::*;
use crate::model::{lifecycle_ok, Comment, Issue, IssueLink, Label};
use crate::text::{names_equal, same_name};

verus! {

/// Everything the tracker holds: issues, labels and which issue carries which,
/// comments and links. Rows of each table are kept in ascending id order.
#[derive(Debug)]
pub struct Store {
    pub issues: Vec<Issue>,
    pub labels: Vec<Label>,
    /// Pairs of (issue id, label id), each at most once.
    pub issue_labels: Vec<(i64, i64)>,
    pub comments: Vec<Comment>,
    /// Each link once, smaller id first.
    pub links: Vec<IssueLink>,
    /// The id the next issue gets; ids are never handed out twice.
    pub next_issue_id: i64,
    pub next_label_id: i64,
    pub next_comment_id: i64,
}

/// The largest id the store hands out; past it the id space is exhausted.
pub const MAX_ID: i64 = 0x7fff_ffff_ffff_ffff;

impl Store {
    pub open spec fn issue_ids(self) -> Seq<i64> {
        self.issues@.map_values(|i: Issue| i.id)
    }

    pub open spec fn label_ids(self) -> Seq<i64> {
        self.labels@.map_values(|l: Label| l.id)
    }

    /// Some issue has this id (deleted or not).
    pub open spec fn has_issue(self, id: i64) -> bool {
        self.issue_ids().contains(id)
    }

    pub open spec fn has_label_id(self, id: i64) -> bool {
        self.label_ids().contains(id)
    }

    /// Some label has a name equal to this one but for ASCII case.
    pub open spec fn has_label_named(self, name: Seq<char>) -> bool {
        exists|j: int| 0 <= j < self.labels@.len() && same_name(#[trigger] self.labels@[j].name@, name)
    }

    pub open spec fn issues_ok(self) -> bool {
        &&& forall|i: int, j: int|
            0 <= i < j < self.issues@.len() ==> #[trigger] self.issues@[i].id < #[trigger] self.issues@[j].id
        &&& forall|i: int|
            0 <= i < self.issues@.len() ==> 0 < #[trigger] self.issues@[i].id < self.next_issue_id
        &&& forall|i: int| 0 <= i < self.issues@.len() ==> lifecycle_ok(#[trigger] self.issues@[i])
    }

    pub open spec fn labels_ok(self) -> bool {
        &&& forall|i: int, j: int|
            0 <= i < j < self.labels@.len() ==> #[trigger] self.labels@[i].id < #[trigger] self.labels@[j].id
        &&& forall|i: int|
            0 <= i < self.labels@.len() ==> 0 < #[trigger] self.labels@[i].id < self.next_label_id
        &&& forall|i: int, j: int|
            0 <= i < self.labels@.len() && 0 <= j < self.labels@.len() && i != j ==> !same_name(
                #[trigger] self.labels@[i].name@,
                #[trigger] self.labels@[j].name@,
            )
    }

    pub open spec fn associations_ok(self) -> bool {
        &&& forall|k: int|
            0 <= k < self.issue_labels@.len() ==> self.has_issue(#[trigger] self.issue_labels@[k].0)
                && self.has_label_id(self.issue_labels@[k].1)
        &&& forall|i: int, j: int|
            0 <= i < j < self.issue_labels@.len() ==> #[trigger] self.issue_labels@[i]
                != #[trigger] self.issue_labels@[j]
    }

    pub open spec fn comments_ok(self) -> bool {
        &&& forall|i: int, j: int|
            0 <= i < j < self.comments@.len() ==> #[trigger] self.comments@[i].id
                < #[trigger] self.comments@[j].id
        &&& forall|i: int|
            0 <= i < self.comments@.len() ==> 0 < #[trigger] self.comments@[i].id
                < self.next_comment_id && self.has_issue(self.comments@[i].issue_id)
    }

    pub open spec fn links_ok(self) -> bool {
        &&& forall|k: int|
            0 <= k < self.links@.len() ==> #[trigger] self.links@[k].issue_a_id
                < self.links@[k].issue_b_id && self.has_issue(self.links@[k].issue_a_id)
                && self.has_issue(self.links@[k].issue_b_id)
        &&& forall|i: int, j: int|
            0 <= i < j < self.links@.len() ==> !(#[trigger] self.links@[i].issue_a_id
                == #[trigger] self.links@[j].issue_a_id && self.links@[i].issue_b_id
                == self.links@[j].issue_b_id)
    }

    /// The store's invariant.
    pub open spec fn wf(self) -> bool {
        &&& 0 < self.next_issue_id
        &&& 0 < self.next_label_id
        &&& 0 < self.next_comment_id
        &&& self.issues_ok()
        &&& self.labels_ok()
        &&& self.associations_ok()
        &&& self.comments_ok()
        &&& self.links_ok()
    }

    /// An empty store.
    pub fn new() -> (r: Store)
        ensures
            r.wf(),
            r.issues@.len() == 0,
            r.labels@.len() == 0,
            r.issue_labels@.len() == 0,
            r.comments@.len() == 0,
            r.links@.len() == 0,
            r.next_issue_id == 1,
            r.next_label_id == 1,
            r.next_comment_id == 1,
    {
        Store {
            issues: Vec::new(),
            labels: Vec::new(),
            issue_labels: Vec::new(),
            comments: Vec::new(),
            links: Vec::new(),
            next_issue_id: 1,
            next_label_id: 1,
            next_comment_id: 1,
        }
    }

    /// The position of the issue with this id.
    pub fn find_issue(&self, id: i64) -> (r: Option<usize>)
        ensures
            r matches Some(k) ==> k < self.issues@.len() && self.issues@[k as int].id == id,
            r is None ==> !self.has_issue(id),
    {
        let mut k: usize = 0;
        while k < self.issues.len()
            invariant
                0 <= k <= self.issues@.len(),
                forall|j: int| 0 <= j < k ==> #[trigger] self.issues@[j].id != id,
            decreases self.issues@.len() - k,
        {
            if self.issues[k].id == id {
                return Some(k);
            }
            k = k + 1;
        }
        proof {
            if self.has_issue(id) {
                let j = self.issue_ids().index_of(id);
                assert(self.issues@[j].id == id);
            }
        }
        None
    }

    /// The position of the label with this name, compared without regard to
    /// ASCII case.
    pub fn find_label(&self, name: &str) -> (r: Option<usize>)
        ensures
            r matches Some(j) ==> j < self.labels@.len() && same_name(self.labels@[j as int].name@, name@),
            r is None ==> !self.has_label_named(name@),
    {
        let mut j: usize = 0;
        while j < self.labels.len()
            invariant
                0 <= j <= self.labels@.len(),
                forall|i: int| 0 <= i < j ==> !same_name(#[trigger] self.labels@[i].name@, name@),
            decreases self.labels@.len() - j,
        {
            if names_equal(self.labels[j].name.as_str(), name) {
                return Some(j);
            }
            j = j + 1;
        }
        None
    }

    /// Whether the issue carries the label.
    pub fn has_pair(&self, issue_id: i64, label_id: i64) -> (r: bool)
        ensures
            r == self.issue_labels@.contains((issue_id, label_id)),
    {
        let mut k: usize = 0;
        while k < self.issue_labels.len()
            invariant
                0 <= k <= self.issue_labels@.len(),
                forall|i: int| 0 <= i < k ==> #[trigger] self.issue_labels@[i] != (issue_id, label_id),
            decreases self.issue_labels@.len() - k,
        {
            let (a, b) = self.issue_labels[k];
            if a == issue_id && b == label_id {
                return true;
            }
            k = k + 1;
        }
        false
    }
}

/// A copy of an issue, field for field.
pub fn copy_issue(i: &Issue) -> (r: Issue)
    ensures
        r == *i,
{
    Issue {
        id: i.id,
        title: i.title.clone(),
        body: copy_text(&i.body),
        issue_type: i.issue_type,
        state: i.state,
        state_reason: i.state_reason,
        created_at: i.created_at,
        updated_at: i.updated_at,
        closed_at: i.closed_at,
        deleted_at: i.deleted_at,
    }
}

pub fn copy_text(t: &Option<String>) -> (r: Option<String>)
    ensures
        r == *t,
{
    match t {
        Some(s) => Some(s.clone()),
        None => None,
    }
}

} // verus!
