use vstd::prelude::*;
use crate::model::{lifecycle_ok, Issue, IssueState};
use crate::store::Store;
use crate::text::names_equal;

verus! {

fn issue_lifecycle_ok(i: &Issue) -> (r: bool)
    ensures
        r == lifecycle_ok(*i),
{
    match i.state {
        IssueState::Open => i.state_reason.is_none() && i.closed_at.is_none(),
        IssueState::Closed => i.state_reason.is_some() && i.closed_at.is_some(),
    }
}

impl Store {
    /// Whether some label has this id.
    fn label_id_known(&self, id: i64) -> (r: bool)
        ensures
            r == self.has_label_id(id),
    {
        let mut k: usize = 0;
        while k < self.labels.len()
            invariant
                0 <= k <= self.labels@.len(),
                forall|j: int| 0 <= j < k ==> #[trigger] self.labels@[j].id != id,
            decreases self.labels@.len() - k,
        {
            if self.labels[k].id == id {
                assert(self.label_ids()[k as int] == id);
                return true;
            }
            k = k + 1;
        }
        proof {
            if self.has_label_id(id) {
                let j = self.label_ids().index_of(id);
                assert(self.labels@[j].id == id);
            }
        }
        false
    }

    /// Whether some issue has this id.
    fn issue_known(&self, id: i64) -> (r: bool)
        ensures
            r == self.has_issue(id),
    {
        match self.find_issue(id) {
            Some(k) => {
                assert(self.issue_ids()[k as int] == id);
                true
            },
            None => false,
        }
    }

    fn check_issues(&self) -> (r: bool)
        ensures
            r == self.issues_ok(),
    {
        let n = self.issues.len();
        let mut k: usize = 0;
        while k < n
            invariant
                n == self.issues@.len(),
                0 <= k <= n,
                forall|i: int, j: int| 0 <= i < j < k ==> #[trigger] self.issues@[i].id < #[trigger] self.issues@[j].id,
                forall|i: int| 0 <= i < k ==> 0 < #[trigger] self.issues@[i].id < self.next_issue_id,
                forall|i: int| 0 <= i < k ==> lifecycle_ok(#[trigger] self.issues@[i]),
            decreases n - k,
        {
            let i = &self.issues[k];
            if !(0 < i.id && i.id < self.next_issue_id) || !issue_lifecycle_ok(i) {
                return false;
            }
            if k > 0 && self.issues[k - 1].id >= i.id {
                return false;
            }
            proof {
                assert forall|a: int, b: int| 0 <= a < b < k + 1 implies #[trigger] self.issues@[a].id < #[trigger] self.issues@[b].id by {
                    if b == k && a < k - 1 {
                        assert(self.issues@[a].id < self.issues@[k - 1].id);
                    }
                }
            }
            k = k + 1;
        }
        true
    }

    fn check_labels(&self) -> (r: bool)
        ensures
            r == self.labels_ok(),
    {
        let n = self.labels.len();
        let mut k: usize = 0;
        while k < n
            invariant
                n == self.labels@.len(),
                0 <= k <= n,
                forall|i: int, j: int| 0 <= i < j < k ==> #[trigger] self.labels@[i].id < #[trigger] self.labels@[j].id,
                forall|i: int| 0 <= i < k ==> 0 < #[trigger] self.labels@[i].id < self.next_label_id,
                forall|i: int, j: int|
                    0 <= i < k && 0 <= j < k && i != j ==> !crate::text::same_name(
                        #[trigger] self.labels@[i].name@,
                        #[trigger] self.labels@[j].name@,
                    ),
            decreases n - k,
        {
            let l = &self.labels[k];
            if !(0 < l.id && l.id < self.next_label_id) {
                return false;
            }
            if k > 0 && self.labels[k - 1].id >= l.id {
                return false;
            }
            let mut m: usize = 0;
            while m < k
                invariant
                    n == self.labels@.len(),
                    0 <= m <= k < n,
                    l == self.labels@[k as int],
                    forall|j: int| 0 <= j < m ==> !crate::text::same_name(#[trigger] self.labels@[j].name@, l.name@),
                decreases k - m,
            {
                if names_equal(self.labels[m].name.as_str(), l.name.as_str()) {
                    return false;
                }
                m = m + 1;
            }
            proof {
                assert forall|a: int, b: int| 0 <= a < b < k + 1 implies #[trigger] self.labels@[a].id < #[trigger] self.labels@[b].id by {
                    if b == k && a < k - 1 {
                        assert(self.labels@[a].id < self.labels@[k - 1].id);
                    }
                }
                assert forall|i: int, j: int|
                    0 <= i < k + 1 && 0 <= j < k + 1 && i != j implies !crate::text::same_name(
                    #[trigger] self.labels@[i].name@,
                    #[trigger] self.labels@[j].name@,
                ) by {
                    if j == k {
                        assert(!crate::text::same_name(self.labels@[i].name@, l.name@));
                    } else if i == k {
                        assert(!crate::text::same_name(self.labels@[j].name@, l.name@));
                        crate::text::lemma_same_name_trans(self.labels@[i].name@, self.labels@[j].name@, self.labels@[j].name@);
                    }
                }
            }
            k = k + 1;
        }
        true
    }

    fn check_associations(&self) -> (r: bool)
        ensures
            r == self.associations_ok(),
    {
        let n = self.issue_labels.len();
        let mut k: usize = 0;
        while k < n
            invariant
                n == self.issue_labels@.len(),
                0 <= k <= n,
                forall|t: int| 0 <= t < k ==> self.has_issue(#[trigger] self.issue_labels@[t].0)
                    && self.has_label_id(self.issue_labels@[t].1),
                forall|i: int, j: int| 0 <= i < j < k ==> #[trigger] self.issue_labels@[i] != #[trigger] self.issue_labels@[j],
            decreases n - k,
        {
            let p = self.issue_labels[k];
            if !self.issue_known(p.0) || !self.label_id_known(p.1) {
                return false;
            }
            let mut m: usize = 0;
            while m < k
                invariant
                    n == self.issue_labels@.len(),
                    0 <= m <= k < n,
                    p == self.issue_labels@[k as int],
                    forall|j: int| 0 <= j < m ==> #[trigger] self.issue_labels@[j] != p,
                decreases k - m,
            {
                let q = self.issue_labels[m];
                if q.0 == p.0 && q.1 == p.1 {
                    return false;
                }
                m = m + 1;
            }
            proof {
                assert forall|t: int| 0 <= t < k + 1 implies self.has_issue(#[trigger] self.issue_labels@[t].0)
                    && self.has_label_id(self.issue_labels@[t].1) by {
                    if t == k {
                        assert(self.issue_labels@[t] == p);
                    }
                }
            }
            k = k + 1;
        }
        true
    }

    fn check_comments(&self) -> (r: bool)
        ensures
            r == self.comments_ok(),
    {
        let n = self.comments.len();
        let mut k: usize = 0;
        while k < n
            invariant
                n == self.comments@.len(),
                0 <= k <= n,
                forall|i: int, j: int| 0 <= i < j < k ==> #[trigger] self.comments@[i].id < #[trigger] self.comments@[j].id,
                forall|i: int| 0 <= i < k ==> 0 < #[trigger] self.comments@[i].id < self.next_comment_id
                    && self.has_issue(self.comments@[i].issue_id),
            decreases n - k,
        {
            let c = &self.comments[k];
            if !(0 < c.id && c.id < self.next_comment_id) || !self.issue_known(c.issue_id) {
                return false;
            }
            if k > 0 && self.comments[k - 1].id >= c.id {
                return false;
            }
            proof {
                assert forall|a: int, b: int| 0 <= a < b < k + 1 implies #[trigger] self.comments@[a].id < #[trigger] self.comments@[b].id by {
                    if b == k && a < k - 1 {
                        assert(self.comments@[a].id < self.comments@[k - 1].id);
                    }
                }
            }
            k = k + 1;
        }
        true
    }

    fn check_links(&self) -> (r: bool)
        ensures
            r == self.links_ok(),
    {
        let n = self.links.len();
        let mut k: usize = 0;
        while k < n
            invariant
                n == self.links@.len(),
                0 <= k <= n,
                forall|t: int| 0 <= t < k ==> #[trigger] self.links@[t].issue_a_id < self.links@[t].issue_b_id
                    && self.has_issue(self.links@[t].issue_a_id) && self.has_issue(self.links@[t].issue_b_id),
                forall|i: int, j: int| 0 <= i < j < k ==> !(#[trigger] self.links@[i].issue_a_id
                    == #[trigger] self.links@[j].issue_a_id && self.links@[i].issue_b_id == self.links@[j].issue_b_id),
            decreases n - k,
        {
            let l = self.links[k];
            if !(l.issue_a_id < l.issue_b_id) || !self.issue_known(l.issue_a_id) || !self.issue_known(l.issue_b_id) {
                return false;
            }
            let mut m: usize = 0;
            while m < k
                invariant
                    n == self.links@.len(),
                    0 <= m <= k < n,
                    l == self.links@[k as int],
                    forall|j: int| 0 <= j < m ==> !(#[trigger] self.links@[j].issue_a_id == l.issue_a_id
                        && self.links@[j].issue_b_id == l.issue_b_id),
                decreases k - m,
            {
                if self.links[m].issue_a_id == l.issue_a_id && self.links[m].issue_b_id == l.issue_b_id {
                    return false;
                }
                m = m + 1;
            }
            k = k + 1;
        }
        true
    }

    /// Whether the store meets its invariant: what a store read back from
    /// disk must pass before any operation runs on it.
    pub fn check_wf(&self) -> (r: bool)
        ensures
            r == self.wf(),
    {
        0 < self.next_issue_id && 0 < self.next_label_id && 0 < self.next_comment_id
            && self.check_issues() && self.check_labels() && self.check_associations()
            && self.check_comments() && self.check_links()
    }
}

} // verus!
