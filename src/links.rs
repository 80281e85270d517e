use vstd::prelude::*;
use crate::error::Error;
use crate::model::{IssueLink, LinkedIssueRef};
use crate::store::Store;

verus! {

/// The smaller of two ids.
pub open spec fn low(a: i64, b: i64) -> i64 {
    if a < b { a } else { b }
}

/// The larger of two ids.
pub open spec fn high(a: i64, b: i64) -> i64 {
    if a < b { b } else { a }
}

/// The link joins the two issues, in either order.
pub open spec fn joins(l: IssueLink, a: i64, b: i64) -> bool {
    l.issue_a_id == low(a, b) && l.issue_b_id == high(a, b)
}

/// The link has the issue at one of its ends.
pub open spec fn touches(l: IssueLink, id: i64) -> bool {
    l.issue_a_id == id || l.issue_b_id == id
}

/// The other end of a link from the issue.
pub open spec fn partner(l: IssueLink, id: i64) -> i64 {
    if l.issue_a_id == id { l.issue_b_id } else { l.issue_a_id }
}

impl Store {
    /// The two issues are linked.
    pub open spec fn linked(self, a: i64, b: i64) -> bool {
        exists|k: int| 0 <= k < self.links@.len() && joins(#[trigger] self.links@[k], a, b)
    }

    /// Everything but the links as in `s0`.
    pub open spec fn same_but_links(self, s0: Store) -> bool {
        &&& self.issues@ == s0.issues@
        &&& self.labels@ == s0.labels@
        &&& self.issue_labels@ == s0.issue_labels@
        &&& self.comments@ == s0.comments@
        &&& self.next_issue_id == s0.next_issue_id
        &&& self.next_label_id == s0.next_label_id
        &&& self.next_comment_id == s0.next_comment_id
    }

    /// What `add_link` does: an issue cannot be linked to itself; both
    /// issues must exist (deleted ones too); a pair is linked at most once,
    /// whichever order it is named in; the link is stored smaller id first.
    pub open spec fn add_link_spec(s0: Store, s1: Store, a: i64, b: i64, now: i64, r: Result<(), Error>) -> bool {
        if a == b {
            s1.same_as(s0) && r == Err::<(), Error>(Error::SelfLink)
        } else if !s0.has_issue(a) {
            s1.same_as(s0) && r == Err::<(), Error>(Error::IssueNotFound(a))
        } else if !s0.has_issue(b) {
            s1.same_as(s0) && r == Err::<(), Error>(Error::IssueNotFound(b))
        } else if s0.linked(a, b) {
            s1.same_as(s0) && r == Err::<(), Error>(Error::DuplicateLink(low(a, b), high(a, b)))
        } else {
            &&& r is Ok
            &&& s1.links@ == s0.links@.push(IssueLink { issue_a_id: low(a, b), issue_b_id: high(a, b), created_at: now })
            &&& s1.same_but_links(s0)
        }
    }

    /// What `remove_link` does: the link between the two goes, if there is
    /// one, whichever order they are named in; it never fails.
    pub open spec fn remove_link_spec(s0: Store, s1: Store, a: i64, b: i64, r: Result<(), Error>) -> bool {
        &&& r is Ok
        &&& forall|l: IssueLink| #[trigger] s1.links@.contains(l) <==> s0.links@.contains(l) && !joins(l, a, b)
        &&& (!s0.linked(a, b) ==> s1.links@ == s0.links@)
        &&& (s0.linked(a, b) ==> exists|k: int|
            0 <= k < s0.links@.len() && joins(#[trigger] s0.links@[k], a, b) && s1.links@ == s0.links@.remove(k))
        &&& s1.same_but_links(s0)
    }

    /// The position of the link between the two issues.
    pub fn find_link(&self, a: i64, b: i64) -> (r: Option<usize>)
        ensures
            r matches Some(k) ==> k < self.links@.len() && joins(self.links@[k as int], a, b),
            r is None ==> !self.linked(a, b),
    {
        let (lo, hi) = if a < b { (a, b) } else { (b, a) };
        let mut k: usize = 0;
        while k < self.links.len()
            invariant
                0 <= k <= self.links@.len(),
                lo == low(a, b),
                hi == high(a, b),
                forall|t: int| 0 <= t < k ==> !joins(#[trigger] self.links@[t], a, b),
            decreases self.links@.len() - k,
        {
            if self.links[k].issue_a_id == lo && self.links[k].issue_b_id == hi {
                return Some(k);
            }
            k = k + 1;
        }
        None
    }

    /// Links two issues; see `add_link_spec`.
    pub fn add_link(&mut self, a: i64, b: i64, now: i64) -> (r: Result<(), Error>)
        requires
            old(self).wf(),
        ensures
            final(self).wf(),
            Store::add_link_spec(*old(self), *final(self), a, b, now, r),
    {
        if a == b {
            return Err(Error::SelfLink);
        }
        match self.find_issue(a) {
            Some(k) => {
                proof {
                    self.lemma_position(a, k as int);
                }
            },
            None => {
                return Err(Error::IssueNotFound(a));
            },
        }
        match self.find_issue(b) {
            Some(k) => {
                proof {
                    self.lemma_position(b, k as int);
                }
            },
            None => {
                return Err(Error::IssueNotFound(b));
            },
        }
        let (lo, hi) = if a < b { (a, b) } else { (b, a) };
        if self.find_link(a, b).is_some() {
            return Err(Error::DuplicateLink(lo, hi));
        }
        let ghost before = self.links@;
        self.links.push(IssueLink { issue_a_id: lo, issue_b_id: hi, created_at: now });
        proof {
            assert forall|i: int, j: int| 0 <= i < j < self.links@.len() implies !(#[trigger] self.links@[i].issue_a_id
                == #[trigger] self.links@[j].issue_a_id && self.links@[i].issue_b_id == self.links@[j].issue_b_id) by {
                if j == before.len() {
                    assert(!joins(before[i], a, b));
                }
            }
        }
        Ok(())
    }

    /// Removes the link between two issues, if any; see `remove_link_spec`.
    pub fn remove_link(&mut self, a: i64, b: i64) -> (r: Result<(), Error>)
        requires
            old(self).wf(),
        ensures
            final(self).wf(),
            Store::remove_link_spec(*old(self), *final(self), a, b, r),
    {
        match self.find_link(a, b) {
            None => {
                proof {
                    assert forall|l: IssueLink| #[trigger] self.links@.contains(l) implies !joins(l, a, b) by {
                        let k = self.links@.index_of(l);
                        assert(self.links@[k] == l);
                    }
                }
            },
            Some(k) => {
                let ghost before = self.links@;
                self.links.remove(k);
                proof {
                    before.remove_ensures(k as int);
                    assert(joins(before[k as int], a, b) && self.links@ == before.remove(k as int));
                    assert forall|l: IssueLink| #[trigger] self.links@.contains(l) <==> before.contains(l) && !joins(l, a, b) by {
                        if self.links@.contains(l) {
                            let w = self.links@.index_of(l);
                            let w0 = if w < k { w } else { w + 1 };
                            assert(self.links@[w] == before[w0]);
                            assert(before.contains(before[w0]));
                            if joins(l, a, b) {
                                assert(w0 != k);
                            }
                        }
                        if before.contains(l) && !joins(l, a, b) {
                            let w0 = before.index_of(l);
                            assert(w0 != k);
                            if w0 < k {
                                assert(self.links@[w0] == l);
                            } else {
                                assert(self.links@[w0 - 1] == l);
                            }
                        }
                    }
                    assert forall|i: int, j: int| 0 <= i < j < self.links@.len() implies !(#[trigger] self.links@[i].issue_a_id
                        == #[trigger] self.links@[j].issue_a_id && self.links@[i].issue_b_id == self.links@[j].issue_b_id) by {
                        let i0 = if i < k { i } else { i + 1 };
                        let j0 = if j < k { j } else { j + 1 };
                        assert(self.links@[i] == before[i0]);
                        assert(self.links@[j] == before[j0]);
                    }
                    assert forall|t: int| 0 <= t < self.links@.len() implies #[trigger] self.links@[t].issue_a_id
                        < self.links@[t].issue_b_id && self.has_issue(self.links@[t].issue_a_id)
                        && self.has_issue(self.links@[t].issue_b_id) by {
                        let t0 = if t < k { t } else { t + 1 };
                        assert(self.links@[t] == before[t0]);
                    }
                }
            },
        }
        Ok(())
    }

    /// The partners of the issue's links, in the order the links were made.
    pub open spec fn partners(self, id: i64) -> Seq<i64> {
        self.links@.filter(|l: IssueLink| touches(l, id)).map_values(|l: IssueLink| partner(l, id))
    }

    /// The ids of the issues linked to this one, whichever end they are
    /// stored at.
    pub fn get_linked_issues(&self, id: i64) -> (r: Vec<i64>)
        ensures
            r@ == self.partners(id),
    {
        let ghost pred = |l: IssueLink| touches(l, id);
        let ghost f = |l: IssueLink| partner(l, id);
        let mut out: Vec<i64> = Vec::new();
        let mut k: usize = 0;
        while k < self.links.len()
            invariant
                0 <= k <= self.links@.len(),
                pred == (|l: IssueLink| touches(l, id)),
                f == (|l: IssueLink| partner(l, id)),
                out@ == self.links@.subrange(0, k as int).filter(pred).map_values(f),
            decreases self.links@.len() - k,
        {
            let l = self.links[k];
            proof {
                reveal(Seq::filter);
                assert(self.links@.subrange(0, k + 1).drop_last() =~= self.links@.subrange(0, k as int));
            }
            if l.issue_a_id == id || l.issue_b_id == id {
                out.push(if l.issue_a_id == id { l.issue_b_id } else { l.issue_a_id });
                proof {
                    let sub = self.links@.subrange(0, k as int).filter(pred);
                    assert(self.links@.subrange(0, k + 1).filter(pred) == sub.push(l));
                    assert(sub.push(l).map_values(f) =~= sub.map_values(f).push(f(l)));
                }
            }
            k = k + 1;
        }
        proof {
            assert(self.links@.subrange(0, self.links@.len() as int) =~= self.links@);
        }
        out
    }

    /// The issues linked to this one with their titles, in the order the
    /// links were made.
    pub fn get_linked_issues_with_titles(&self, id: i64) -> (r: Vec<LinkedIssueRef>)
        requires
            self.wf(),
        ensures
            r@.len() == self.partners(id).len(),
            forall|k: int| 0 <= k < r@.len() ==> (#[trigger] r@[k]).id == self.partners(id)[k]
                && r@[k].title == self.issue(r@[k].id).title,
    {
        let ids = self.get_linked_issues(id);
        let mut out: Vec<LinkedIssueRef> = Vec::new();
        let mut k: usize = 0;
        while k < ids.len()
            invariant
                self.wf(),
                ids@ == self.partners(id),
                0 <= k <= ids@.len(),
                out@.len() == k,
                forall|t: int| 0 <= t < k ==> (#[trigger] out@[t]).id == ids@[t] && out@[t].title == self.issue(out@[t].id).title,
            decreases ids@.len() - k,
        {
            match self.find_issue(ids[k]) {
                Some(p) => {
                    proof {
                        self.lemma_position(ids@[k as int], p as int);
                    }
                    out.push(LinkedIssueRef { id: ids[k], title: self.issues[p].title.clone() });
                },
                None => {
                    proof {
                        self.lemma_partner_exists(id, k as int);
                    }
                },
            }
            k = k + 1;
        }
        out
    }

    /// Every partner of a link is an issue of the store.
    pub proof fn lemma_partner_exists(self, id: i64, k: int)
        requires
            self.wf(),
            0 <= k < self.partners(id).len(),
        ensures
            self.has_issue(self.partners(id)[k]),
    {
        let pred = |l: IssueLink| touches(l, id);
        let touching = self.links@.filter(pred);
        let l = touching[k];
        assert(touching.contains(l));
        self.links@.lemma_filter_contains_rev(pred, l);
        let t = self.links@.index_of(l);
        assert(self.links@[t] == l);
    }
}

} // verus!
