use vstd::prelude::*;
use crate::color::{generate_color, is_hex_color, label_color, validate_color};
use crate::error::Error;
use crate::model::Label;
use crate::store::{copy_text, Store, MAX_ID};
use crate::text::{
    string_view, text_of,
    folded, lemma_distinct_names_fold_apart, lemma_lex_order, name_before, name_less, same_name,
};

verus! {


impl Store {
    /// The position of the label with this name.
    pub open spec fn label_position(self, name: Seq<char>) -> int {
        choose|j: int| 0 <= j < self.labels@.len() && same_name(#[trigger] self.labels@[j].name@, name)
    }

    /// Labels, issues, comments, links and their counters all as in `s0`.
    pub open spec fn same_but_labels(self, s0: Store) -> bool {
        &&& self.issues@ == s0.issues@
        &&& self.comments@ == s0.comments@
        &&& self.links@ == s0.links@
        &&& self.next_issue_id == s0.next_issue_id
        &&& self.next_comment_id == s0.next_comment_id
    }

    /// What `create_label` does: a color given must be six hex digits; the
    /// name must be new (ASCII case aside); the label gets the next id and
    /// the given color, or the one generated from its name.
    pub open spec fn create_label_spec(
        s0: Store,
        s1: Store,
        name: Seq<char>,
        description: Option<Seq<char>>,
        color: Option<Seq<char>>,
        r: Result<Label, Error>,
    ) -> bool {
        if color matches Some(c) && !is_hex_color(c) {
            s1.same_as(s0) && (r matches Err(Error::InvalidColor(m)) && Some(m@) == color)
        } else if s0.has_label_named(name) {
            s1.same_as(s0) && (r matches Err(Error::LabelExists(m)) && m@ == name)
        } else if s0.next_label_id == MAX_ID {
            s1.same_as(s0) && r matches Err(Error::Storage(_))
        } else {
            &&& r matches Ok(l) && {
                &&& l.id == s0.next_label_id
                &&& l.name@ == name
                &&& string_view(l.description) == description
                &&& string_view(l.color) == Some(
                    match color {
                        Some(c) => c,
                        None => label_color(name),
                    },
                )
                &&& s1.labels@ == s0.labels@.push(l)
            }
            &&& s1.same_but_labels(s0)
            &&& s1.issue_labels@ == s0.issue_labels@
            &&& s1.next_label_id == s0.next_label_id + 1
        }
    }

    /// Creates a label; see `create_label_spec`.
    pub fn create_label(&mut self, name: &str, description: Option<&str>, color: Option<&str>) -> (r: Result<Label, Error>)
        requires
            old(self).wf(),
        ensures
            final(self).wf(),
            Store::create_label_spec(*old(self), *final(self), name@, text_of(description), text_of(color), r),
    {
        let chosen = match color {
            Some(c) => {
                if validate_color(c).is_err() {
                    return Err(Error::InvalidColor(c.to_owned()));
                }
                c.to_owned()
            },
            None => generate_color(name),
        };
        if self.find_label(name).is_some() {
            return Err(Error::LabelExists(name.to_owned()));
        }
        if self.next_label_id == MAX_ID {
            return Err(Error::Storage("label ids are exhausted".to_owned()));
        }
        let description = match description {
            Some(d) => Some(d.to_owned()),
            None => None,
        };
        let label = Label { id: self.next_label_id, name: name.to_owned(), description, color: Some(chosen) };
        let copy = Label {
            id: label.id,
            name: label.name.clone(),
            description: copy_text(&label.description),
            color: copy_text(&label.color),
        };
        let ghost s0 = *self;
        self.labels.push(copy);
        self.next_label_id = self.next_label_id + 1;
        proof {
            assert(self.label_ids() =~= s0.label_ids().push(label.id));
            assert forall|x: i64| s0.has_label_id(x) implies self.has_label_id(x) by {
                let j = s0.label_ids().index_of(x);
                assert(self.label_ids()[j] == x);
            }
            assert forall|i: int, j: int|
                0 <= i < self.labels@.len() && 0 <= j < self.labels@.len() && i != j implies !same_name(
                #[trigger] self.labels@[i].name@,
                #[trigger] self.labels@[j].name@,
            ) by {
                let n = s0.labels@.len() as int;
                if i == n {
                    crate::text::lemma_same_name_trans(self.labels@[i].name@, self.labels@[j].name@, name@);
                    assert(!same_name(s0.labels@[j].name@, name@));
                } else if j == n {
                    crate::text::lemma_same_name_trans(self.labels@[i].name@, self.labels@[j].name@, name@);
                    assert(!same_name(s0.labels@[i].name@, name@));
                }
            }
        }
        Ok(label)
    }

    /// All labels, ordered by name (ASCII case aside).
    pub fn list_labels(&self) -> (r: Vec<Label>)
        requires
            self.wf(),
        ensures
            by_name(r@),
            forall|l: Label| #[trigger] r@.contains(l) <==> self.labels@.contains(l),
    {
        let mut all: Vec<Label> = Vec::new();
        let mut k: usize = 0;
        while k < self.labels.len()
            invariant
                0 <= k <= self.labels@.len(),
                all@ == self.labels@.subrange(0, k as int),
            decreases self.labels@.len() - k,
        {
            all.push(copy_label(&self.labels[k]));
            proof {
                assert(all@ =~= self.labels@.subrange(0, k + 1));
            }
            k = k + 1;
        }
        proof {
            assert(all@ =~= self.labels@);
        }
        order_labels(all)
    }

    /// The labels the issue carries, ordered by name (ASCII case aside).
    pub fn get_issue_labels(&self, issue_id: i64) -> (r: Vec<Label>)
        requires
            self.wf(),
        ensures
            by_name(r@),
            forall|l: Label| #[trigger] r@.contains(l) <==> self.labels@.contains(l)
                && self.issue_labels@.contains((issue_id, l.id)),
    {
        let sorted = self.list_labels();
        let mut out: Vec<Label> = Vec::new();
        let mut k: usize = 0;
        while k < sorted.len()
            invariant
                0 <= k <= sorted@.len(),
                by_name(sorted@),
                by_name(out@),
                forall|t: int| 0 <= t < out@.len() ==> exists|u: int| 0 <= u < k && #[trigger] out@[t] == sorted@[u],
                forall|l: Label| #[trigger] out@.contains(l) ==> sorted@.contains(l) && self.issue_labels@.contains((issue_id, l.id)),
                forall|u: int| 0 <= u < k && self.issue_labels@.contains((issue_id, #[trigger] sorted@[u].id)) ==> out@.contains(sorted@[u]),
            decreases sorted@.len() - k,
        {
            let l = &sorted[k];
            if self.has_pair(issue_id, l.id) {
                let ghost before = out@;
                proof {
                    assert forall|t: int| 0 <= t < before.len() implies name_less(#[trigger] before[t].name@, sorted@[k as int].name@) by {
                        let u = choose|u: int| 0 <= u < k && #[trigger] before[t] == sorted@[u];
                    }
                }
                out.push(copy_label(l));
                proof {
                    assert(out@[before.len() as int] == sorted@[k as int]);
                    assert forall|t: int| 0 <= t < out@.len() implies exists|u: int| 0 <= u < k + 1 && #[trigger] out@[t] == sorted@[u] by {
                        if t < before.len() {
                            assert(before[t] == out@[t]);
                        }
                    }
                    assert forall|l2: Label| #[trigger] out@.contains(l2) implies sorted@.contains(l2) && self.issue_labels@.contains((issue_id, l2.id)) by {
                        let w = out@.index_of(l2);
                        if w < before.len() {
                            assert(before[w] == l2);
                            assert(before.contains(l2));
                        } else {
                            assert(sorted@[k as int] == l2);
                        }
                    }
                    assert forall|u: int| 0 <= u < k + 1 && self.issue_labels@.contains((issue_id, #[trigger] sorted@[u].id)) implies out@.contains(sorted@[u]) by {
                        if u < k {
                            let w = before.index_of(sorted@[u]);
                            assert(out@[w] == sorted@[u]);
                        }
                    }
                }
            }
            k = k + 1;
        }
        proof {
            assert forall|l2: Label| #[trigger] out@.contains(l2) <==> self.labels@.contains(l2)
                && self.issue_labels@.contains((issue_id, l2.id)) by {
                if self.labels@.contains(l2) && self.issue_labels@.contains((issue_id, l2.id)) {
                    assert(sorted@.contains(l2));
                    let u = sorted@.index_of(l2);
                    assert(sorted@[u] == l2);
                }
            }
        }
        out
    }

    /// What `delete_label` does: an unknown name fails; otherwise the label
    /// and every association with it go, and nothing else changes.
    pub open spec fn delete_label_spec(s0: Store, s1: Store, name: Seq<char>, r: Result<(), Error>) -> bool {
        if !s0.has_label_named(name) {
            s1.same_as(s0) && (r matches Err(Error::LabelNotFound(m)) && m@ == name)
        } else {
            let j = s0.label_position(name);
            let lid = s0.labels@[j].id;
            &&& r is Ok
            &&& s1.labels@ == s0.labels@.remove(j)
            &&& forall|p: (i64, i64)| #[trigger] s1.issue_labels@.contains(p) <==> s0.issue_labels@.contains(p) && p.1 != lid
            &&& s1.same_but_labels(s0)
            &&& s1.next_label_id == s0.next_label_id
        }
    }

    /// Deletes the label of this name (ASCII case aside) and takes it off
    /// every issue; see `delete_label_spec`.
    pub fn delete_label(&mut self, name: &str) -> (r: Result<(), Error>)
        requires
            old(self).wf(),
        ensures
            final(self).wf(),
            Store::delete_label_spec(*old(self), *final(self), name@, r),
    {
        let j = match self.find_label(name) {
            Some(j) => j,
            None => {
                return Err(Error::LabelNotFound(name.to_owned()));
            },
        };
        proof {
            self.lemma_label_position(name@, j as int);
        }
        let lid = self.labels[j].id;
        self.drop_pairs(lid, None);
        let ghost s0 = *self;
        self.labels.remove(j);
        proof {
            s0.labels@.remove_ensures(j as int);
            assert forall|x: i64| s0.has_label_id(x) && x != lid implies self.has_label_id(x) by {
                let t = s0.label_ids().index_of(x);
                if t < j {
                    assert(self.label_ids()[t] == x);
                } else {
                    assert(t != j);
                    assert(self.label_ids()[t - 1] == x);
                }
            }
            assert forall|i: int, k: int| 0 <= i < k < self.labels@.len() implies #[trigger] self.labels@[i].id < #[trigger] self.labels@[k].id by {
                let i0 = if i < j { i } else { i + 1 };
                let k0 = if k < j { k } else { k + 1 };
                assert(self.labels@[i] == s0.labels@[i0]);
                assert(self.labels@[k] == s0.labels@[k0]);
            }
            assert forall|i: int, k: int|
                0 <= i < self.labels@.len() && 0 <= k < self.labels@.len() && i != k implies !same_name(
                #[trigger] self.labels@[i].name@,
                #[trigger] self.labels@[k].name@,
            ) by {
                let i0 = if i < j { i } else { i + 1 };
                let k0 = if k < j { k } else { k + 1 };
                assert(self.labels@[i] == s0.labels@[i0]);
                assert(self.labels@[k] == s0.labels@[k0]);
            }
            assert forall|i: int| 0 <= i < self.labels@.len() implies 0 < #[trigger] self.labels@[i].id < self.next_label_id by {
                let i0 = if i < j { i } else { i + 1 };
                assert(self.labels@[i] == s0.labels@[i0]);
            }
            assert forall|k: int| 0 <= k < self.issue_labels@.len() implies self.has_issue(#[trigger] self.issue_labels@[k].0)
                && self.has_label_id(self.issue_labels@[k].1) by {
                assert(s0.issue_labels@.contains(s0.issue_labels@[k]));
                assert(s0.issue_labels@[k].1 != lid);
            }
        }
        Ok(())
    }

    /// The position of a name is where the label of that name stands.
    pub proof fn lemma_label_position(self, name: Seq<char>, j: int)
        requires
            self.wf(),
            0 <= j < self.labels@.len(),
            same_name(self.labels@[j].name@, name),
        ensures
            self.label_position(name) == j,
            self.has_label_named(name),
    {
        let p = self.label_position(name);
        assert(same_name(self.labels@[p].name@, name));
        crate::text::lemma_same_name_trans(self.labels@[p].name@, name, self.labels@[j].name@);
        crate::text::lemma_same_name_trans(self.labels@[j].name@, name, name);
        crate::text::lemma_same_name_trans(self.labels@[p].name@, name, self.labels@[j].name@);
    }

    /// Removes the association of the label with the issue, or with every
    /// issue when none is named.
    fn drop_pairs(&mut self, label_id: i64, issue_id: Option<i64>)
        requires
            old(self).wf(),
        ensures
            final(self).wf(),
            forall|p: (i64, i64)| #[trigger] final(self).issue_labels@.contains(p) <==> old(self).issue_labels@.contains(p)
                && !dropped(p, label_id, issue_id),
            final(self).labels@ == old(self).labels@,
            final(self).same_but_labels(*old(self)),
            final(self).next_label_id == old(self).next_label_id,
    {
        let mut kept: Vec<(i64, i64)> = Vec::new();
        let mut k: usize = 0;
        while k < self.issue_labels.len()
            invariant
                *self == *old(self),
                self.wf(),
                0 <= k <= self.issue_labels@.len(),
                forall|p: (i64, i64)| #[trigger] kept@.contains(p) <==> self.issue_labels@.subrange(0, k as int).contains(p)
                    && !dropped(p, label_id, issue_id),
                forall|a: int, b: int| 0 <= a < b < kept@.len() ==> #[trigger] kept@[a] != #[trigger] kept@[b],
            decreases self.issue_labels@.len() - k,
        {
            let p = self.issue_labels[k];
            let ghost pre = self.issue_labels@.subrange(0, k as int);
            let ghost post = self.issue_labels@.subrange(0, k + 1);
            proof {
                assert(post =~= pre.push(p));
                assert forall|q: (i64, i64)| post.contains(q) <==> pre.contains(q) || q == p by {
                    if post.contains(q) {
                        let u = post.index_of(q);
                        if u < k {
                            assert(pre[u] == q);
                        }
                    }
                    if pre.contains(q) {
                        let u = pre.index_of(q);
                        assert(post[u] == q);
                    }
                    if q == p {
                        assert(post[k as int] == q);
                    }
                }
            }
            let drop = p.1 == label_id && match issue_id {
                Some(i) => p.0 == i,
                None => true,
            };
            if !drop {
                let ghost before = kept@;
                proof {
                    if before.contains(p) {
                        let u = pre.index_of(p);
                        assert(self.issue_labels@[u] == p);
                        assert(self.issue_labels@[k as int] == p);
                    }
                }
                kept.push(p);
                proof {
                    assert forall|q: (i64, i64)| #[trigger] kept@.contains(q) <==> before.contains(q) || q == p by {
                        if kept@.contains(q) {
                            let u = kept@.index_of(q);
                            if u < before.len() {
                                assert(before[u] == q);
                            }
                        }
                        if before.contains(q) {
                            let u = before.index_of(q);
                            assert(kept@[u] == q);
                        }
                        if q == p {
                            assert(kept@[before.len() as int] == q);
                        }
                    }
                    assert forall|a: int, b: int| 0 <= a < b < kept@.len() implies #[trigger] kept@[a] != #[trigger] kept@[b] by {
                        if b == before.len() {
                            assert(before.contains(before[a]));
                        }
                    }
                }
            }
            k = k + 1;
        }
        proof {
            assert(self.issue_labels@.subrange(0, self.issue_labels@.len() as int) =~= self.issue_labels@);
            assert forall|t: int| 0 <= t < kept@.len() implies self.has_issue(#[trigger] kept@[t].0)
                && self.has_label_id(kept@[t].1) by {
                assert(kept@.contains(kept@[t]));
                let u = self.issue_labels@.index_of(kept@[t]);
                assert(self.issue_labels@[u] == kept@[t]);
            }
        }
        self.issue_labels = kept;
    }

    /// What `add_label_to_issue` does: the label must exist and then the
    /// issue; the issue carries the label afterwards, once.
    pub open spec fn attach_spec(s0: Store, s1: Store, issue_id: i64, name: Seq<char>, r: Result<(), Error>) -> bool {
        if !s0.has_label_named(name) {
            s1.same_as(s0) && (r matches Err(Error::LabelNotFound(m)) && m@ == name)
        } else if !s0.has_issue(issue_id) {
            s1.same_as(s0) && r == Err::<(), Error>(Error::IssueNotFound(issue_id))
        } else {
            let lid = s0.labels@[s0.label_position(name)].id;
            &&& r is Ok
            &&& forall|p: (i64, i64)| #[trigger] s1.issue_labels@.contains(p) <==> s0.issue_labels@.contains(p) || p == (issue_id, lid)
            &&& s1.labels@ == s0.labels@
            &&& s1.same_but_labels(s0)
            &&& s1.next_label_id == s0.next_label_id
        }
    }

    /// Puts the label of this name on the issue; nothing changes if it is on
    /// already. See `attach_spec`.
    pub fn add_label_to_issue(&mut self, issue_id: i64, name: &str) -> (r: Result<(), Error>)
        requires
            old(self).wf(),
        ensures
            final(self).wf(),
            Store::attach_spec(*old(self), *final(self), issue_id, name@, r),
    {
        let j = match self.find_label(name) {
            Some(j) => j,
            None => {
                return Err(Error::LabelNotFound(name.to_owned()));
            },
        };
        proof {
            self.lemma_label_position(name@, j as int);
        }
        let k = match self.find_issue(issue_id) {
            Some(k) => k,
            None => {
                return Err(Error::IssueNotFound(issue_id));
            },
        };
        proof {
            self.lemma_position(issue_id, k as int);
        }
        let lid = self.labels[j].id;
        if self.has_pair(issue_id, lid) {
            return Ok(());
        }
        let ghost before = self.issue_labels@;
        self.issue_labels.push((issue_id, lid));
        proof {
            assert(self.label_ids()[j as int] == lid);
            assert forall|a: int, b: int| 0 <= a < b < self.issue_labels@.len() implies
                #[trigger] self.issue_labels@[a] != #[trigger] self.issue_labels@[b] by {
                if b == before.len() {
                    assert(before.contains(before[a]));
                }
            }
            assert forall|p: (i64, i64)| #[trigger] self.issue_labels@.contains(p) <==> before.contains(p) || p == (issue_id, lid) by {
                if self.issue_labels@.contains(p) {
                    let w = self.issue_labels@.index_of(p);
                    if w < before.len() {
                        assert(before[w] == p);
                    }
                }
                if before.contains(p) {
                    let w = before.index_of(p);
                    assert(self.issue_labels@[w] == p);
                }
                if p == (issue_id, lid) {
                    assert(self.issue_labels@[before.len() as int] == p);
                }
            }
        }
        Ok(())
    }

    /// Takes the label of this name off the issue, if it is on; never fails.
    pub fn remove_label_from_issue(&mut self, issue_id: i64, name: &str) -> (r: Result<(), Error>)
        requires
            old(self).wf(),
        ensures
            final(self).wf(),
            r is Ok,
            final(self).labels@ == old(self).labels@,
            final(self).same_but_labels(*old(self)),
            final(self).next_label_id == old(self).next_label_id,
            forall|p: (i64, i64)| #[trigger] final(self).issue_labels@.contains(p) <==> old(self).issue_labels@.contains(p)
                && !(p.0 == issue_id && old(self).has_label_named(name@)
                && p.1 == old(self).labels@[old(self).label_position(name@)].id),
    {
        match self.find_label(name) {
            Some(j) => {
                proof {
                    self.lemma_label_position(name@, j as int);
                }
                let lid = self.labels[j].id;
                self.drop_pairs(lid, Some(issue_id));
            },
            None => {},
        }
        Ok(())
    }
}

/// The association is one that `drop_pairs` removes.
pub open spec fn dropped(p: (i64, i64), label_id: i64, issue_id: Option<i64>) -> bool {
    p.1 == label_id && (issue_id matches Some(i) ==> p.0 == i)
}

/// The labels come in strictly ascending name order (ASCII case aside).
pub open spec fn by_name(s: Seq<Label>) -> bool {
    forall|a: int, b: int| 0 <= a < b < s.len() ==> name_less(#[trigger] s[a].name@, #[trigger] s[b].name@)
}

/// The labels in name order (insertion sort; no two names may be equal but
/// for case).
fn order_labels(v: Vec<Label>) -> (r: Vec<Label>)
    requires
        forall|a: int, b: int| 0 <= a < v@.len() && 0 <= b < v@.len() && a != b ==> !same_name(#[trigger] v@[a].name@, #[trigger] v@[b].name@),
    ensures
        by_name(r@),
        forall|l: Label| #[trigger] r@.contains(l) <==> v@.contains(l),
{
    let mut out: Vec<Label> = Vec::new();
    let mut k: usize = 0;
    while k < v.len()
        invariant
            0 <= k <= v@.len(),
            forall|a: int, b: int| 0 <= a < v@.len() && 0 <= b < v@.len() && a != b ==> !same_name(#[trigger] v@[a].name@, #[trigger] v@[b].name@),
            by_name(out@),
            forall|l: Label| #[trigger] out@.contains(l) <==> v@.subrange(0, k as int).contains(l),
        decreases v@.len() - k,
    {
        let x = &v[k];
        proof {
            assert forall|t: int| 0 <= t < out@.len() implies name_less(#[trigger] out@[t].name@, x.name@) || name_less(x.name@, out@[t].name@) by {
                assert(out@.contains(out@[t]));
                let u = v@.subrange(0, k as int).index_of(out@[t]);
                assert(v@[u] == out@[t]);
                lemma_distinct_names_fold_apart(out@[t].name@, x.name@);
                lemma_lex_order(
                    folded(vstd::utf8::encode_utf8(out@[t].name@)),
                    folded(vstd::utf8::encode_utf8(x.name@)),
                    folded(vstd::utf8::encode_utf8(x.name@)),
                );
            }
        }
        let mut p: usize = 0;
        while p < out.len() && !name_before(x.name.as_str(), out[p].name.as_str())
            invariant
                0 <= p <= out@.len(),
                forall|t: int| 0 <= t < p ==> !name_less(x.name@, #[trigger] out@[t].name@),
            decreases out@.len() - p,
        {
            p = p + 1;
        }
        let ghost before = out@;
        out.insert(p, copy_label(x));
        proof {
            before.insert_ensures(p as int, *x);
            assert forall|a: int, b: int| 0 <= a < b < out@.len() implies name_less(#[trigger] out@[a].name@, #[trigger] out@[b].name@) by {
                let fx = folded(vstd::utf8::encode_utf8(x.name@));
                if a < p && b == p {
                    assert(name_less(before[a].name@, x.name@) || name_less(x.name@, before[a].name@));
                } else if a < p && b > p {
                    assert(name_less(before[a].name@, before[b - 1].name@));
                } else if a == p && b > p {
                    assert(name_less(x.name@, before[p as int].name@));
                    if b - 1 > p {
                        assert(name_less(before[p as int].name@, before[b - 1].name@));
                        lemma_lex_order(fx, folded(vstd::utf8::encode_utf8(before[p as int].name@)), folded(vstd::utf8::encode_utf8(before[b - 1].name@)));
                    }
                } else if a > p {
                    assert(name_less(before[a - 1].name@, before[b - 1].name@));
                }
            }
            let pre = v@.subrange(0, k as int);
            let post = v@.subrange(0, k + 1);
            assert(post =~= pre.push(*x));
            assert forall|l: Label| #[trigger] out@.contains(l) <==> post.contains(l) by {
                if out@.contains(l) {
                    let w = out@.index_of(l);
                    if w < p {
                        assert(out@[w] == before[w]);
                        assert(before.contains(before[w]));
                        let u = pre.index_of(l);
                        assert(post[u] == l);
                    } else if w > p {
                        assert(out@[w] == before[w - 1]);
                        assert(before.contains(before[w - 1]));
                        let u = pre.index_of(l);
                        assert(post[u] == l);
                    } else {
                        assert(post[k as int] == l);
                    }
                }
                if post.contains(l) {
                    let u = post.index_of(l);
                    if u < k {
                        assert(pre[u] == l);
                        assert(pre.contains(l));
                        assert(before.contains(l));
                        let w = before.index_of(l);
                        if w < p {
                            assert(out@[w] == l);
                        } else {
                            assert(out@[w + 1] == l);
                        }
                    } else {
                        assert(out@[p as int] == l);
                    }
                }
            }
        }
        k = k + 1;
    }
    assert(v@.subrange(0, v@.len() as int) =~= v@);
    out
}

/// A copy of a label, field for field.
pub fn copy_label(l: &Label) -> (r: Label)
    ensures
        r == *l,
{
    Label { id: l.id, name: l.name.clone(), description: copy_text(&l.description), color: copy_text(&l.color) }
}

} // verus!
