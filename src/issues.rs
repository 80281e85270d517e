use vstd::prelude::*;
use crate::error::Error;
use crate::model::{lifecycle_ok, Comment, Issue, IssueCreate, IssueState, IssueUpdate, StateReason};
use crate::store::{copy_issue, copy_text, Store, MAX_ID};
use crate::text::{same_name, text_of};

verus! {

/// The issue that `create_issue` makes.
pub open spec fn new_issue(id: i64, c: IssueCreate, now: i64) -> Issue {
    Issue {
        id,
        title: c.title,
        body: c.body,
        issue_type: c.issue_type,
        state: IssueState::Open,
        state_reason: None,
        created_at: now,
        updated_at: now,
        closed_at: None,
        deleted_at: None,
    }
}

/// An issue once closed for a reason at a time.
pub open spec fn closed_issue(i: Issue, reason: StateReason, now: i64) -> Issue {
    Issue { state: IssueState::Closed, state_reason: Some(reason), closed_at: Some(now), updated_at: now, ..i }
}

/// An issue once reopened at a time.
pub open spec fn reopened_issue(i: Issue, now: i64) -> Issue {
    Issue { state: IssueState::Open, state_reason: None, closed_at: None, updated_at: now, ..i }
}

/// An issue once soft-deleted at a time.
pub open spec fn deleted_issue(i: Issue, now: i64) -> Issue {
    Issue { deleted_at: Some(now), updated_at: now, ..i }
}

/// An issue once restored at a time.
pub open spec fn restored_issue(i: Issue, now: i64) -> Issue {
    Issue { deleted_at: None, updated_at: now, ..i }
}

/// An update that names no field.
pub open spec fn is_empty_update(u: IssueUpdate) -> bool {
    u.title is None && u.body is None && u.issue_type is None
}

/// An issue once the fields present in an update are written at a time; an
/// update that names no field leaves it as it is, times included.
pub open spec fn edited_issue(i: Issue, u: IssueUpdate, now: i64) -> Issue {
    if is_empty_update(u) {
        i
    } else {
        Issue {
            title: match u.title {
                Some(t) => t,
                None => i.title,
            },
            body: match u.body {
                Some(b) => Some(b),
                None => i.body,
            },
            issue_type: match u.issue_type {
                Some(t) => t,
                None => i.issue_type,
            },
            updated_at: now,
            ..i
        }
    }
}

impl Store {
    /// The position of the issue with this id.
    pub open spec fn position(self, id: i64) -> int {
        self.issue_ids().index_of(id)
    }

    /// The issue with this id.
    pub open spec fn issue(self, id: i64) -> Issue {
        self.issues@[self.position(id)]
    }

    /// Every table and counter equal.
    pub open spec fn same_as(self, other: Store) -> bool {
        &&& self.issues@ == other.issues@
        &&& self.rest_same_as(other)
        &&& self.issue_labels@ == other.issue_labels@
        &&& self.comments@ == other.comments@
    }

    /// Labels, links and counters equal.
    pub open spec fn rest_same_as(self, other: Store) -> bool {
        &&& self.labels@ == other.labels@
        &&& self.links@ == other.links@
        &&& self.next_issue_id == other.next_issue_id
        &&& self.next_label_id == other.next_label_id
        &&& self.next_comment_id == other.next_comment_id
    }

    /// This store is `s0` with the issue of this id replaced by `i`.
    pub open spec fn replaced_issue(self, s0: Store, id: i64, i: Issue) -> bool {
        &&& self.issues@ == s0.issues@.update(s0.position(id), i)
        &&& self.rest_same_as(s0)
        &&& self.issue_labels@ == s0.issue_labels@
        &&& self.comments@ == s0.comments@
    }

    /// Every label named in `names` exists.
    pub open spec fn all_labels_exist(self, names: Seq<String>) -> bool {
        forall|m: int| 0 <= m < names.len() ==> self.has_label_named(#[trigger] names[m]@)
    }

    /// The label with this id is named, up to ASCII case, by one of `names`.
    pub open spec fn label_named_in(self, lid: i64, names: Seq<String>) -> bool {
        exists|j: int, m: int|
            0 <= j < self.labels@.len() && 0 <= m < names.len() && #[trigger] self.labels@[j].id == lid
                && same_name(self.labels@[j].name@, #[trigger] names[m]@)
    }

    /// What `create_issue` does: the title must not be empty; every named
    /// label must exist (the first missing one is reported and nothing
    /// changes); the new issue gets the next id, opens, carries each named
    /// label once, and is returned.
    pub open spec fn create_spec(s0: Store, s1: Store, c: IssueCreate, now: i64, r: Result<Issue, Error>) -> bool {
        if c.title@.len() == 0 {
            s1.same_as(s0) && r == Err::<Issue, Error>(Error::EmptyTitle)
        } else if !s0.all_labels_exist(c.labels@) {
            &&& s1.same_as(s0)
            &&& r matches Err(Error::LabelNotFound(n)) && exists|m: int|
                0 <= m < c.labels@.len() && #[trigger] c.labels@[m] == n && !s0.has_label_named(n@)
                    && forall|p: int| 0 <= p < m ==> s0.has_label_named(#[trigger] c.labels@[p]@)
        } else if s0.next_issue_id == MAX_ID {
            s1.same_as(s0) && r matches Err(Error::Storage(_))
        } else {
            let i = new_issue(s0.next_issue_id, c, now);
            &&& r == Ok::<Issue, Error>(i)
            &&& s1.issues@ == s0.issues@.push(i)
            &&& s1.labels@ == s0.labels@
            &&& s1.links@ == s0.links@
            &&& s1.comments@ == s0.comments@
            &&& s1.next_issue_id == s0.next_issue_id + 1
            &&& s1.next_label_id == s0.next_label_id
            &&& s1.next_comment_id == s0.next_comment_id
            &&& forall|p: (i64, i64)|
                #[trigger] s1.issue_labels@.contains(p) <==> (s0.issue_labels@.contains(p) || (p.0
                    == i.id && s0.label_named_in(p.1, c.labels@)))
        }
    }

    /// What an operation on one existing issue does: it fails with
    /// `IssueNotFound` on an unknown id and otherwise, unless `refused`, puts
    /// `changed` in place of the issue and returns it.
    pub open spec fn change_spec(s0: Store, s1: Store, id: i64, changed: Issue, r: Result<Issue, Error>) -> bool {
        if !s0.has_issue(id) {
            s1.same_as(s0) && r == Err::<Issue, Error>(Error::IssueNotFound(id))
        } else {
            s1.replaced_issue(s0, id, changed) && r == Ok::<Issue, Error>(changed)
        }
    }

    /// An error for an issue already in the named state, the store unchanged.
    pub open spec fn refused_spec(s0: Store, s1: Store, id: i64, state: Seq<char>, r: Result<Issue, Error>) -> bool {
        &&& s1.same_as(s0)
        &&& r matches Err(Error::InvalidStateTransition(i, m)) && i == id && m@ == state
    }

    /// What `close_issue_with_comment` does: an unknown id or a closed issue
    /// fails; otherwise the issue closes for the reason at `now` and, if a
    /// comment is given, the comment is added in the same step.
    pub open spec fn close_spec(
        s0: Store,
        s1: Store,
        id: i64,
        reason: StateReason,
        comment: Option<Seq<char>>,
        now: i64,
        r: Result<Issue, Error>,
    ) -> bool {
        if !s0.has_issue(id) {
            s1.same_as(s0) && r == Err::<Issue, Error>(Error::IssueNotFound(id))
        } else if s0.issue(id).state == IssueState::Closed {
            Store::refused_spec(s0, s1, id, "closed"@, r)
        } else if comment is Some && s0.next_comment_id == MAX_ID {
            s1.same_as(s0) && r matches Err(Error::Storage(_))
        } else {
            let i = closed_issue(s0.issue(id), reason, now);
            &&& r == Ok::<Issue, Error>(i)
            &&& s1.issues@ == s0.issues@.update(s0.position(id), i)
            &&& s1.labels@ == s0.labels@
            &&& s1.links@ == s0.links@
            &&& s1.issue_labels@ == s0.issue_labels@
            &&& s1.next_issue_id == s0.next_issue_id
            &&& s1.next_label_id == s0.next_label_id
            &&& match comment {
                None => s1.comments@ == s0.comments@ && s1.next_comment_id == s0.next_comment_id,
                Some(b) => Store::comment_added(s0, s1, id, b, now),
            }
        }
    }

    /// `s1` holds the comments of `s0` and one more, on the issue, with the
    /// next comment id, made at `now`.
    pub open spec fn comment_added(s0: Store, s1: Store, issue_id: i64, body: Seq<char>, now: i64) -> bool {
        &&& s1.comments@.len() == s0.comments@.len() + 1
        &&& s1.comments@.drop_last() == s0.comments@
        &&& s1.comments@.last().id == s0.next_comment_id
        &&& s1.comments@.last().issue_id == issue_id
        &&& s1.comments@.last().body@ == body
        &&& s1.comments@.last().created_at == now
        &&& s1.comments@.last().updated_at == now
        &&& s1.next_comment_id == s0.next_comment_id + 1
    }

    /// What `update_issue` does: an unknown id fails, then an empty new
    /// title; otherwise the fields present are written (see `edited_issue`).
    pub open spec fn update_spec(s0: Store, s1: Store, id: i64, u: IssueUpdate, now: i64, r: Result<Issue, Error>) -> bool {
        if s0.has_issue(id) && (u.title matches Some(t) && t@.len() == 0) {
            s1.same_as(s0) && r == Err::<Issue, Error>(Error::EmptyTitle)
        } else {
            Store::change_spec(s0, s1, id, edited_issue(s0.issue(id), u, now), r)
        }
    }

    /// What `reopen_issue` does.
    pub open spec fn reopen_spec(s0: Store, s1: Store, id: i64, now: i64, r: Result<Issue, Error>) -> bool {
        if s0.has_issue(id) && s0.issue(id).state == IssueState::Open {
            Store::refused_spec(s0, s1, id, "open"@, r)
        } else {
            Store::change_spec(s0, s1, id, reopened_issue(s0.issue(id), now), r)
        }
    }

    /// The issue with this id, deleted issues included.
    pub fn get_issue(&self, id: i64) -> (r: Option<Issue>)
        requires
            self.wf(),
        ensures
            self.has_issue(id) ==> r == Some(self.issue(id)),
            !self.has_issue(id) ==> r is None,
    {
        match self.find_issue(id) {
            Some(k) => {
                proof {
                    self.lemma_position(id, k as int);
                }
                Some(copy_issue(&self.issues[k]))
            },
            None => None,
        }
    }

    /// The position of an id is where the issue with that id stands.
    pub proof fn lemma_position(self, id: i64, k: int)
        requires
            self.wf(),
            0 <= k < self.issues@.len(),
            self.issues@[k].id == id,
        ensures
            self.position(id) == k,
            self.has_issue(id),
            self.issue(id) == self.issues@[k],
    {
        assert(self.issue_ids()[k] == id);
        let p = self.position(id);
        assert(self.issue_ids()[p] == id);
        if p != k {
            if p < k {
                assert(self.issues@[p].id < self.issues@[k].id);
            } else {
                assert(self.issues@[k].id < self.issues@[p].id);
            }
        }
    }

    /// Puts an issue with the same id in place of the one at position `k`.
    fn replace_issue(&mut self, k: usize, i: Issue)
        requires
            old(self).wf(),
            k < old(self).issues@.len(),
            i.id == old(self).issues@[k as int].id,
            lifecycle_ok(i),
        ensures
            final(self).wf(),
            final(self).replaced_issue(*old(self), i.id, i),
            final(self).issue_ids() == old(self).issue_ids(),
    {
        proof {
            old(self).lemma_position(i.id, k as int);
        }
        self.issues.set(k, i);
        proof {
            assert(self.issue_ids() =~= old(self).issue_ids());
        }
    }

    /// Creates an open issue at `now`; see `create_spec`.
    pub fn create_issue(&mut self, create: &IssueCreate, now: i64) -> (r: Result<Issue, Error>)
        requires
            old(self).wf(),
        ensures
            final(self).wf(),
            Store::create_spec(*old(self), *final(self), *create, now, r),
    {
        if create.title.as_str().is_empty() {
            return Err(Error::EmptyTitle);
        }
        let mut m: usize = 0;
        while m < create.labels.len()
            invariant
                self.wf(),
                *self == *old(self),
                create.title@.len() != 0,
                0 <= m <= create.labels@.len(),
                forall|p: int| 0 <= p < m ==> self.has_label_named(#[trigger] create.labels@[p]@),
            decreases create.labels@.len() - m,
        {
            if self.find_label(create.labels[m].as_str()).is_none() {
                return Err(Error::LabelNotFound(create.labels[m].clone()));
            }
            m = m + 1;
        }
        if self.next_issue_id == MAX_ID {
            return Err(Error::Storage("issue ids are exhausted".to_owned()));
        }
        let id = self.next_issue_id;
        let issue = Issue {
            id,
            title: create.title.clone(),
            body: copy_text(&create.body),
            issue_type: create.issue_type,
            state: IssueState::Open,
            state_reason: None,
            created_at: now,
            updated_at: now,
            closed_at: None,
            deleted_at: None,
        };
        let ghost s0 = *self;
        self.issues.push(copy_issue(&issue));
        self.next_issue_id = id + 1;
        proof {
            assert(self.issue_ids() =~= s0.issue_ids().push(id));
            assert forall|x: i64| s0.has_issue(x) implies self.has_issue(x) by {
                let j = s0.issue_ids().index_of(x);
                assert(self.issue_ids()[j] == x);
            }
            assert(self.issue_ids()[s0.issues@.len() as int] == id);
        }
        let mut m: usize = 0;
        while m < create.labels.len()
            invariant
                self.wf(),
                self.issues@ == s0.issues@.push(issue),
                self.labels@ == s0.labels@,
                self.links@ == s0.links@,
                self.comments@ == s0.comments@,
                self.next_issue_id == id + 1,
                self.next_label_id == s0.next_label_id,
                self.next_comment_id == s0.next_comment_id,
                id == s0.next_issue_id,
                create.title@.len() != 0,
                s0.wf(),
                self.has_issue(id),
                s0.all_labels_exist(create.labels@),
                0 <= m <= create.labels@.len(),
                forall|p: (i64, i64)|
                    #[trigger] self.issue_labels@.contains(p) <==> (s0.issue_labels@.contains(p) || (
                    p.0 == id && exists|j: int, q: int|
                        0 <= j < s0.labels@.len() && 0 <= q < m && #[trigger] s0.labels@[j].id
                            == p.1 && same_name(s0.labels@[j].name@, #[trigger] create.labels@[q]@))),
            decreases create.labels@.len() - m,
        {
            let found = self.find_label(create.labels[m].as_str());
            assert(self.has_label_named(create.labels@[m as int]@));
            let j = found.unwrap();
            let lid = self.labels[j].id;
            let ghost before = self.issue_labels@;
            if !self.has_pair(id, lid) {
                self.issue_labels.push((id, lid));
                proof {
                    assert forall|a: int, b: int| 0 <= a < b < self.issue_labels@.len() implies
                        #[trigger] self.issue_labels@[a] != #[trigger] self.issue_labels@[b] by {
                        if b == before.len() {
                            assert(before[a] == self.issue_labels@[a]);
                        }
                    }
                    assert(self.label_ids()[j as int] == lid);
                    assert forall|p: (i64, i64)| #[trigger] self.issue_labels@.contains(p) <==> (
                        before.contains(p) || p == (id, lid)) by {
                        if self.issue_labels@.contains(p) {
                            let w = self.issue_labels@.index_of(p);
                            if w < before.len() {
                                assert(before[w] == p);
                            }
                        }
                        if before.contains(p) {
                            let w = before.index_of(p);
                            assert(self.issue_labels@[w] == p);
                        }
                        if p == (id, lid) {
                            assert(self.issue_labels@[before.len() as int] == p);
                        }
                    }
                }
            }
            proof {
                let name = create.labels@[m as int]@;
                assert forall|p: (i64, i64)|
                    #[trigger] self.issue_labels@.contains(p) <==> (s0.issue_labels@.contains(p) || (
                    p.0 == id && exists|j2: int, q: int|
                        0 <= j2 < s0.labels@.len() && 0 <= q < m + 1 && #[trigger] s0.labels@[j2].id
                            == p.1 && same_name(s0.labels@[j2].name@, #[trigger] create.labels@[q]@)))
                by {
                    if p.0 == id && p.1 == lid {
                        assert(s0.labels@[j as int].id == p.1);
                        assert(same_name(s0.labels@[j as int].name@, create.labels@[m as int]@));
                    }
                    if exists|j2: int|
                        0 <= j2 < s0.labels@.len() && #[trigger] s0.labels@[j2].id == p.1 && same_name(
                            s0.labels@[j2].name@,
                            name,
                        ) {
                        let j2 = choose|j2: int|
                            0 <= j2 < s0.labels@.len() && #[trigger] s0.labels@[j2].id == p.1
                                && same_name(s0.labels@[j2].name@, name);
                        crate::text::lemma_same_name_trans(s0.labels@[j2].name@, name, s0.labels@[j as int].name@);
                        if j2 != j {
                            assert(!same_name(s0.labels@[j2].name@, s0.labels@[j as int].name@));
                        }
                    }
                }
            }
            m = m + 1;
        }
        proof {
            assert forall|p: (i64, i64)|
                #[trigger] self.issue_labels@.contains(p) <==> (s0.issue_labels@.contains(p) || (p.0
                    == id && s0.label_named_in(p.1, create.labels@))) by {
                if p.0 == id && s0.label_named_in(p.1, create.labels@) {
                    let (j2, q) = choose|j2: int, q: int|
                        0 <= j2 < s0.labels@.len() && 0 <= q < create.labels@.len() && #[trigger] s0.labels@[j2].id == p.1
                            && same_name(s0.labels@[j2].name@, #[trigger] create.labels@[q]@);
                    assert(s0.labels@[j2].id == p.1 && same_name(s0.labels@[j2].name@, create.labels@[q]@));
                }
            }
        }
        Ok(issue)
    }

    /// Adds a comment to an existing issue, with the next comment id.
    pub(crate) fn push_comment(&mut self, issue_id: i64, body: &str, now: i64) -> (r: Comment)
        requires
            old(self).wf(),
            old(self).has_issue(issue_id),
            old(self).next_comment_id < MAX_ID,
        ensures
            final(self).wf(),
            Store::comment_added(*old(self), *final(self), issue_id, body@, now),
            r == final(self).comments@.last(),
            final(self).issues@ == old(self).issues@,
            final(self).issue_labels@ == old(self).issue_labels@,
            final(self).labels@ == old(self).labels@,
            final(self).links@ == old(self).links@,
            final(self).next_issue_id == old(self).next_issue_id,
            final(self).next_label_id == old(self).next_label_id,
    {
        let id = self.next_comment_id;
        let c = Comment { id, issue_id, body: body.to_owned(), created_at: now, updated_at: now };
        let copy = Comment { id, issue_id, body: c.body.clone(), created_at: now, updated_at: now };
        self.comments.push(copy);
        self.next_comment_id = id + 1;
        proof {
            assert(self.comments@.drop_last() =~= old(self).comments@);
        }
        c
    }

    /// Closes an issue for a reason at `now`.
    pub fn close_issue(&mut self, id: i64, reason: StateReason, now: i64) -> (r: Result<Issue, Error>)
        requires
            old(self).wf(),
        ensures
            final(self).wf(),
            Store::close_spec(*old(self), *final(self), id, reason, None, now, r),
    {
        self.close_issue_with_comment(id, reason, None, now)
    }

    /// Closes an issue for a reason at `now`, adding the comment if one is
    /// given, both or neither; see `close_spec`.
    pub fn close_issue_with_comment(
        &mut self,
        id: i64,
        reason: StateReason,
        comment: Option<&str>,
        now: i64,
    ) -> (r: Result<Issue, Error>)
        requires
            old(self).wf(),
        ensures
            final(self).wf(),
            Store::close_spec(*old(self), *final(self), id, reason, text_of(comment), now, r),
    {
        let k = match self.find_issue(id) {
            Some(k) => k,
            None => {
                return Err(Error::IssueNotFound(id));
            },
        };
        proof {
            self.lemma_position(id, k as int);
        }
        if self.issues[k].state == IssueState::Closed {
            return Err(Error::InvalidStateTransition(id, "closed".to_owned()));
        }
        if comment.is_some() && self.next_comment_id == MAX_ID {
            return Err(Error::Storage("comment ids are exhausted".to_owned()));
        }
        let old_issue = copy_issue(&self.issues[k]);
        let closed = Issue {
            state: IssueState::Closed,
            state_reason: Some(reason),
            closed_at: Some(now),
            updated_at: now,
            ..old_issue
        };
        let result = copy_issue(&closed);
        self.replace_issue(k, closed);
        match comment {
            Some(body) => {
                self.push_comment(id, body, now);
            },
            None => {},
        }
        Ok(result)
    }

    /// Reopens a closed issue at `now`; fails on an unknown id or an open issue.
    pub fn reopen_issue(&mut self, id: i64, now: i64) -> (r: Result<Issue, Error>)
        requires
            old(self).wf(),
        ensures
            final(self).wf(),
            Store::reopen_spec(*old(self), *final(self), id, now, r),
    {
        let k = match self.find_issue(id) {
            Some(k) => k,
            None => {
                return Err(Error::IssueNotFound(id));
            },
        };
        proof {
            self.lemma_position(id, k as int);
        }
        if self.issues[k].state == IssueState::Open {
            return Err(Error::InvalidStateTransition(id, "open".to_owned()));
        }
        let old_issue = copy_issue(&self.issues[k]);
        let opened = Issue { state: IssueState::Open, state_reason: None, closed_at: None, updated_at: now, ..old_issue };
        let result = copy_issue(&opened);
        self.replace_issue(k, opened);
        Ok(result)
    }

    /// Soft-deletes an issue at `now`, whatever its state; fails only on an
    /// unknown id.
    pub fn delete_issue(&mut self, id: i64, now: i64) -> (r: Result<(), Error>)
        requires
            old(self).wf(),
        ensures
            final(self).wf(),
            Store::change_spec(
                *old(self),
                *final(self),
                id,
                deleted_issue(old(self).issue(id), now),
                match r {
                    Ok(_) => Ok(deleted_issue(old(self).issue(id), now)),
                    Err(e) => Err(e),
                },
            ),
    {
        let k = match self.find_issue(id) {
            Some(k) => k,
            None => {
                return Err(Error::IssueNotFound(id));
            },
        };
        proof {
            self.lemma_position(id, k as int);
        }
        let old_issue = copy_issue(&self.issues[k]);
        let gone = Issue { deleted_at: Some(now), updated_at: now, ..old_issue };
        self.replace_issue(k, gone);
        Ok(())
    }

    /// Restores a soft-deleted issue at `now` (any issue, deleted or not);
    /// fails only on an unknown id.
    pub fn restore_issue(&mut self, id: i64, now: i64) -> (r: Result<Issue, Error>)
        requires
            old(self).wf(),
        ensures
            final(self).wf(),
            Store::change_spec(*old(self), *final(self), id, restored_issue(old(self).issue(id), now), r),
    {
        let k = match self.find_issue(id) {
            Some(k) => k,
            None => {
                return Err(Error::IssueNotFound(id));
            },
        };
        proof {
            self.lemma_position(id, k as int);
        }
        let old_issue = copy_issue(&self.issues[k]);
        let back = Issue { deleted_at: None, updated_at: now, ..old_issue };
        let result = copy_issue(&back);
        self.replace_issue(k, back);
        Ok(result)
    }

    /// Writes the fields present in the update at `now`; with none present
    /// the issue is returned as it is. See `update_spec`.
    pub fn update_issue(&mut self, id: i64, update: &IssueUpdate, now: i64) -> (r: Result<Issue, Error>)
        requires
            old(self).wf(),
        ensures
            final(self).wf(),
            Store::update_spec(*old(self), *final(self), id, *update, now, r),
    {
        let k = match self.find_issue(id) {
            Some(k) => k,
            None => {
                return Err(Error::IssueNotFound(id));
            },
        };
        proof {
            self.lemma_position(id, k as int);
        }
        match &update.title {
            Some(t) => {
                if t.as_str().is_empty() {
                    return Err(Error::EmptyTitle);
                }
            },
            None => {},
        }
        let old_issue = copy_issue(&self.issues[k]);
        if update.title.is_none() && update.body.is_none() && update.issue_type.is_none() {
            proof {
                assert(self.issues@.update(k as int, old_issue) =~= self.issues@);
            }
            return Ok(old_issue);
        }
        let title = match &update.title {
            Some(t) => t.clone(),
            None => old_issue.title.clone(),
        };
        let body = match &update.body {
            Some(b) => Some(b.clone()),
            None => copy_text(&old_issue.body),
        };
        let issue_type = match update.issue_type {
            Some(t) => t,
            None => old_issue.issue_type,
        };
        let edited = Issue { title, body, issue_type, updated_at: now, ..old_issue };
        let result = copy_issue(&edited);
        self.replace_issue(k, edited);
        Ok(result)
    }
}

} // verus!
