use vstd::prelude::*;
use crate::error::Error;
use crate::model::Comment;
use crate::store::{Store, MAX_ID};

verus! {

impl Store {
    /// Everything but the comments as in `s0`.
    pub open spec fn same_but_comments(self, s0: Store) -> bool {
        &&& self.issues@ == s0.issues@
        &&& self.labels@ == s0.labels@
        &&& self.issue_labels@ == s0.issue_labels@
        &&& self.links@ == s0.links@
        &&& self.next_issue_id == s0.next_issue_id
        &&& self.next_label_id == s0.next_label_id
    }

    /// Some comment has this id.
    pub open spec fn has_comment(self, id: i64) -> bool {
        exists|k: int| 0 <= k < self.comments@.len() && #[trigger] self.comments@[k].id == id
    }

    /// What `add_comment` does: the issue must exist (deleted ones too); the
    /// comment gets the next id and is made at `now`.
    pub open spec fn add_comment_spec(s0: Store, s1: Store, issue_id: i64, body: Seq<char>, now: i64, r: Result<Comment, Error>) -> bool {
        if !s0.has_issue(issue_id) {
            s1.same_as(s0) && r == Err::<Comment, Error>(Error::IssueNotFound(issue_id))
        } else if s0.next_comment_id == MAX_ID {
            s1.same_as(s0) && r matches Err(Error::Storage(_))
        } else {
            &&& Store::comment_added(s0, s1, issue_id, body, now)
            &&& r == Ok::<Comment, Error>(s1.comments@.last())
            &&& s1.same_but_comments(s0)
        }
    }

    /// Adds a comment to an issue; see `add_comment_spec`.
    pub fn add_comment(&mut self, issue_id: i64, body: &str, now: i64) -> (r: Result<Comment, Error>)
        requires
            old(self).wf(),
        ensures
            final(self).wf(),
            Store::add_comment_spec(*old(self), *final(self), issue_id, body@, now, r),
    {
        match self.find_issue(issue_id) {
            Some(k) => {
                proof {
                    self.lemma_position(issue_id, k as int);
                }
            },
            None => {
                return Err(Error::IssueNotFound(issue_id));
            },
        }
        if self.next_comment_id == MAX_ID {
            return Err(Error::Storage("comment ids are exhausted".to_owned()));
        }
        Ok(self.push_comment(issue_id, body, now))
    }

    /// The comments on the issue, in the order they were made.
    pub open spec fn comments_on(self, issue_id: i64) -> Seq<Comment> {
        self.comments@.filter(|c: Comment| c.issue_id == issue_id)
    }

    /// The comments on the issue, in the order they were made.
    pub fn get_comments(&self, issue_id: i64) -> (r: Vec<Comment>)
        ensures
            r@ == self.comments_on(issue_id),
    {
        let ghost pred = |c: Comment| c.issue_id == issue_id;
        let mut out: Vec<Comment> = Vec::new();
        let mut k: usize = 0;
        while k < self.comments.len()
            invariant
                0 <= k <= self.comments@.len(),
                pred == (|c: Comment| c.issue_id == issue_id),
                out@ == self.comments@.subrange(0, k as int).filter(pred),
            decreases self.comments@.len() - k,
        {
            proof {
                reveal(Seq::filter);
                assert(self.comments@.subrange(0, k + 1).drop_last() =~= self.comments@.subrange(0, k as int));
            }
            if self.comments[k].issue_id == issue_id {
                out.push(copy_comment(&self.comments[k]));
            }
            k = k + 1;
        }
        proof {
            assert(self.comments@.subrange(0, self.comments@.len() as int) =~= self.comments@);
        }
        out
    }

    /// The position of the comment with this id.
    pub fn find_comment(&self, id: i64) -> (r: Option<usize>)
        ensures
            r matches Some(k) ==> k < self.comments@.len() && self.comments@[k as int].id == id,
            r is None ==> !self.has_comment(id),
    {
        let mut k: usize = 0;
        while k < self.comments.len()
            invariant
                0 <= k <= self.comments@.len(),
                forall|j: int| 0 <= j < k ==> #[trigger] self.comments@[j].id != id,
            decreases self.comments@.len() - k,
        {
            if self.comments[k].id == id {
                return Some(k);
            }
            k = k + 1;
        }
        None
    }

    /// What `update_comment` does: an unknown id fails; otherwise the body is
    /// replaced and the comment marked updated at `now`.
    pub open spec fn update_comment_spec(s0: Store, s1: Store, id: i64, body: Seq<char>, now: i64, r: Result<Comment, Error>) -> bool {
        if !s0.has_comment(id) {
            s1.same_as(s0) && r == Err::<Comment, Error>(Error::CommentNotFound(id))
        } else {
            exists|k: int|
                0 <= k < s0.comments@.len() && #[trigger] s0.comments@[k].id == id && (r matches Ok(c) && c.body@ == body
                    && c == (Comment { body: c.body, updated_at: now, ..s0.comments@[k] })
                    && s1.comments@ == s0.comments@.update(k, c)) && s1.same_but_comments(s0)
                    && s1.next_comment_id == s0.next_comment_id
        }
    }

    /// Replaces a comment's body; see `update_comment_spec`.
    pub fn update_comment(&mut self, id: i64, body: &str, now: i64) -> (r: Result<Comment, Error>)
        requires
            old(self).wf(),
        ensures
            final(self).wf(),
            Store::update_comment_spec(*old(self), *final(self), id, body@, now, r),
    {
        let k = match self.find_comment(id) {
            Some(k) => k,
            None => {
                return Err(Error::CommentNotFound(id));
            },
        };
        let old_comment = copy_comment(&self.comments[k]);
        let c = Comment { body: body.to_owned(), updated_at: now, ..old_comment };
        let result = copy_comment(&c);
        let ghost before = self.comments@;
        self.comments.set(k, c);
        proof {
            assert(self.comments@[k as int] == result);
        }
        Ok(result)
    }

    /// What `delete_comment` does: an unknown id fails; otherwise the comment
    /// goes.
    pub open spec fn delete_comment_spec(s0: Store, s1: Store, id: i64, r: Result<(), Error>) -> bool {
        if !s0.has_comment(id) {
            s1.same_as(s0) && r == Err::<(), Error>(Error::CommentNotFound(id))
        } else {
            exists|k: int|
                0 <= k < s0.comments@.len() && #[trigger] s0.comments@[k].id == id && r is Ok
                    && s1.comments@ == s0.comments@.remove(k) && s1.same_but_comments(s0)
                    && s1.next_comment_id == s0.next_comment_id
        }
    }

    /// Deletes a comment; see `delete_comment_spec`.
    pub fn delete_comment(&mut self, id: i64) -> (r: Result<(), Error>)
        requires
            old(self).wf(),
        ensures
            final(self).wf(),
            Store::delete_comment_spec(*old(self), *final(self), id, r),
    {
        let k = match self.find_comment(id) {
            Some(k) => k,
            None => {
                return Err(Error::CommentNotFound(id));
            },
        };
        let ghost before = self.comments@;
        self.comments.remove(k);
        proof {
            before.remove_ensures(k as int);
            assert forall|i: int, j: int| 0 <= i < j < self.comments@.len() implies #[trigger] self.comments@[i].id
                < #[trigger] self.comments@[j].id by {
                let i0 = if i < k { i } else { i + 1 };
                let j0 = if j < k { j } else { j + 1 };
                assert(self.comments@[i] == before[i0]);
                assert(self.comments@[j] == before[j0]);
            }
            assert forall|i: int| 0 <= i < self.comments@.len() implies 0 < #[trigger] self.comments@[i].id
                < self.next_comment_id && self.has_issue(self.comments@[i].issue_id) by {
                let i0 = if i < k { i } else { i + 1 };
                assert(self.comments@[i] == before[i0]);
            }
        }
        Ok(())
    }
}

/// A copy of a comment, field for field.
pub fn copy_comment(c: &Comment) -> (r: Comment)
    ensures
        r == *c,
{
    Comment { id: c.id, issue_id: c.issue_id, body: c.body.clone(), created_at: c.created_at, updated_at: c.updated_at }
}

} // verus!
