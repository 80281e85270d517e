use vstd::prelude::*;
use crate::error::Error;
use crate::issues::is_empty_update;
use crate::links::{high, joins, low, partner, touches};
use crate::model::{
    is_default_filter, lifecycle_ok, Issue, IssueCreate, IssueLink, IssueFilter, IssueState, IssueUpdate,
    StateReason,
};
use crate::query::{page, precedes};
use crate::store::Store;
use crate::text::{lemma_same_name_trans, same_name};

verus! {

/// An issue is open exactly when it has neither a closing reason nor a
/// closing time, in every store the operations leave behind (each of them
/// keeps `wf`).
pub proof fn lemma_lifecycle_holds(s: Store)
    requires
        s.wf(),
    ensures
        forall|k: int| 0 <= k < s.issues@.len() ==> lifecycle_ok(#[trigger] s.issues@[k]),
{
}

/// Replacing an issue by one with the same id keeps every id where it was.
proof fn lemma_same_positions(s0: Store, s1: Store, id: i64, i: Issue)
    requires
        s0.has_issue(id),
        i.id == id,
        s1.issues@ == s0.issues@.update(s0.position(id), i),
    ensures
        s1.issue_ids() == s0.issue_ids(),
        s1.has_issue(id),
        s1.position(id) == s0.position(id),
        s1.issue(id) == i,
{
    let p = s0.position(id);
    assert(s0.issue_ids()[p] == id);
    assert(s1.issue_ids() =~= s0.issue_ids());
}

/// Closing an issue twice fails the second time with `InvalidStateTransition`
/// ("closed"), and leaves the store as the first close left it.
pub proof fn lemma_close_twice_fails(
    s0: Store,
    s1: Store,
    s2: Store,
    id: i64,
    reason1: StateReason,
    reason2: StateReason,
    comment1: Option<Seq<char>>,
    comment2: Option<Seq<char>>,
    now1: i64,
    now2: i64,
    r1: Result<Issue, Error>,
    r2: Result<Issue, Error>,
)
    requires
        s0.wf(),
        Store::close_spec(s0, s1, id, reason1, comment1, now1, r1),
        r1 is Ok,
        Store::close_spec(s1, s2, id, reason2, comment2, now2, r2),
    ensures
        Store::refused_spec(s1, s2, id, "closed"@, r2),
{
    lemma_same_positions(s0, s1, id, r1->Ok_0);
}

/// Reopening an issue twice fails the second time with
/// `InvalidStateTransition` ("open"), and leaves the store as the first
/// reopen left it.
pub proof fn lemma_reopen_twice_fails(
    s0: Store,
    s1: Store,
    s2: Store,
    id: i64,
    now1: i64,
    now2: i64,
    r1: Result<Issue, Error>,
    r2: Result<Issue, Error>,
)
    requires
        s0.wf(),
        Store::reopen_spec(s0, s1, id, now1, r1),
        r1 is Ok,
        Store::reopen_spec(s1, s2, id, now2, r2),
    ensures
        Store::refused_spec(s1, s2, id, "open"@, r2),
{
    lemma_same_positions(s0, s1, id, r1->Ok_0);
}

/// Closing an issue and then reopening it leaves it open, with no reason and
/// no closing time.
pub proof fn lemma_close_then_reopen(
    s0: Store,
    s1: Store,
    s2: Store,
    id: i64,
    reason: StateReason,
    comment: Option<Seq<char>>,
    now1: i64,
    now2: i64,
    r1: Result<Issue, Error>,
    r2: Result<Issue, Error>,
)
    requires
        s0.wf(),
        Store::close_spec(s0, s1, id, reason, comment, now1, r1),
        r1 is Ok,
        Store::reopen_spec(s1, s2, id, now2, r2),
    ensures
        r2 matches Ok(i) && i.state == IssueState::Open && i.state_reason is None && i.closed_at is None,
        s2.issue(id).state == IssueState::Open,
        s2.issue(id).state_reason is None,
        s2.issue(id).closed_at is None,
{
    lemma_same_positions(s0, s1, id, r1->Ok_0);
    lemma_same_positions(s1, s2, id, r2->Ok_0);
}

/// Linking `a` to `b` and then `b` to `a` fails the second time as a
/// duplicate: the two calls name the same link.
pub proof fn lemma_link_either_order(
    s0: Store,
    s1: Store,
    s2: Store,
    a: i64,
    b: i64,
    now1: i64,
    now2: i64,
    r1: Result<(), Error>,
    r2: Result<(), Error>,
)
    requires
        s0.wf(),
        Store::add_link_spec(s0, s1, a, b, now1, r1),
        r1 is Ok,
        Store::add_link_spec(s1, s2, b, a, now2, r2),
    ensures
        r2 == Err::<(), Error>(Error::DuplicateLink(low(a, b), high(a, b))),
        s2.same_as(s1),
{
    assert(s1.issue_ids() == s0.issue_ids());
    let n = s0.links@.len() as int;
    assert(crate::links::joins(s1.links@[n], b, a));
}

/// A link made as `add_link(a, b)` is gone after `remove_link(b, a)`: the
/// pair is no longer linked and neither issue lists the other as a partner.
pub proof fn lemma_unlink_either_order(
    s0: Store,
    s1: Store,
    s2: Store,
    a: i64,
    b: i64,
    now: i64,
    r1: Result<(), Error>,
    r2: Result<(), Error>,
)
    requires
        s0.wf(),
        s2.wf(),
        Store::add_link_spec(s0, s1, a, b, now, r1),
        r1 is Ok,
        Store::remove_link_spec(s1, s2, b, a, r2),
    ensures
        !s2.linked(a, b),
        !s2.linked(b, a),
        !s2.partners(a).contains(b),
        !s2.partners(b).contains(a),
{
    if s2.linked(a, b) {
        let k = choose|k: int| 0 <= k < s2.links@.len() && crate::links::joins(#[trigger] s2.links@[k], a, b);
        assert(s2.links@.contains(s2.links@[k]));
    }
    if s2.linked(b, a) {
        let k = choose|k: int| 0 <= k < s2.links@.len() && crate::links::joins(#[trigger] s2.links@[k], b, a);
        assert(s2.links@.contains(s2.links@[k]));
    }
    lemma_not_partner(s2, a, b);
    lemma_not_partner(s2, b, a);
}

/// Issues that are not linked are not each other's partners.
proof fn lemma_not_partner(s: Store, a: i64, b: i64)
    requires
        s.wf(),
        !s.linked(a, b),
    ensures
        !s.partners(a).contains(b),
{
    let pred = |l: IssueLink| touches(l, a);
    let f = |l: IssueLink| partner(l, a);
    let t = s.links@.filter(pred);
    if s.partners(a).contains(b) {
        let k = s.partners(a).index_of(b);
        assert(s.partners(a)[k] == f(t[k]));
        let l = t[k];
        assert(t.contains(l));
        s.links@.lemma_filter_contains_rev(pred, l);
        s.links@.lemma_filter_pred(pred, k);
        let w = s.links@.index_of(l);
        assert(s.links@[w] == l);
        assert(joins(s.links@[w], a, b));
    }
}

/// An issue cannot be linked to itself, whatever the store holds.
pub proof fn lemma_no_self_link(s0: Store, s1: Store, x: i64, now: i64, r: Result<(), Error>)
    requires
        Store::add_link_spec(s0, s1, x, x, now, r),
    ensures
        r == Err::<(), Error>(Error::SelfLink),
        s1.same_as(s0),
{
}

/// Creating an issue with label names that all name one existing label
/// (repeated, in any case) attaches that label once and nothing else: the
/// new issue's associations are exactly the one pair, and the store holds
/// no pair twice.
pub proof fn lemma_repeated_label_attached_once(
    s0: Store,
    s1: Store,
    c: IssueCreate,
    now: i64,
    r: Result<Issue, Error>,
    j: int,
)
    requires
        s0.wf(),
        s1.wf(),
        Store::create_spec(s0, s1, c, now, r),
        r is Ok,
        0 <= j < s0.labels@.len(),
        c.labels@.len() > 0,
        forall|m: int| 0 <= m < c.labels@.len() ==> same_name(#[trigger] c.labels@[m]@, s0.labels@[j].name@),
    ensures
        forall|p: (i64, i64)|
            #[trigger] s1.issue_labels@.contains(p) && p.0 == r->Ok_0.id <==> p == (r->Ok_0.id, s0.labels@[j].id),
        forall|a: int, b: int| 0 <= a < b < s1.issue_labels@.len() ==> s1.issue_labels@[a] != s1.issue_labels@[b],
{
    let id = r->Ok_0.id;
    let lid = s0.labels@[j].id;
    assert forall|p: (i64, i64)| #[trigger] s1.issue_labels@.contains(p) && p.0 == id <==> p == (id, lid) by {
        if p == (id, lid) {
            lemma_same_name_trans(c.labels@[0]@, s0.labels@[j].name@, s0.labels@[j].name@);
            assert(s0.labels@[j].id == p.1 && same_name(s0.labels@[j].name@, c.labels@[0]@));
            assert(s0.label_named_in(p.1, c.labels@));
        }
        if s1.issue_labels@.contains(p) && p.0 == id {
            if s0.issue_labels@.contains(p) {
                let k = s0.issue_labels@.index_of(p);
                assert(s0.has_issue(s0.issue_labels@[k].0));
                let t = s0.issue_ids().index_of(id);
                assert(s0.issues@[t].id < s0.next_issue_id);
            } else {
                let (j2, m) = choose|j2: int, m: int|
                    0 <= j2 < s0.labels@.len() && 0 <= m < c.labels@.len() && #[trigger] s0.labels@[j2].id == p.1
                        && same_name(s0.labels@[j2].name@, #[trigger] c.labels@[m]@);
                lemma_same_name_trans(s0.labels@[j2].name@, c.labels@[m]@, s0.labels@[j].name@);
                if j2 != j {
                    assert(!same_name(s0.labels@[j2].name@, s0.labels@[j].name@));
                }
            }
        }
    }
}

/// A filter naming several labels keeps only issues that carry all of them:
/// an issue missing any one of them is left out.
pub proof fn lemma_labels_filter_all(s: Store, f: IssueFilter, query: Option<Seq<char>>, all: Seq<Issue>, i: Issue, m: int)
    requires
        s.is_listing(f, query, all),
        0 <= m < f.labels@.len(),
    ensures
        all.contains(i) ==> s.carries(i.id, f.labels@[m]@),
{
    if all.contains(i) {
        let k = all.index_of(i);
        assert(s.passes(all[k], f));
    }
}

/// When the store holds no more issues than a page from the start takes,
/// the page is the whole listing.
pub proof fn lemma_first_page_is_whole(s: Store, f: IssueFilter, query: Option<Seq<char>>, all: Seq<Issue>)
    requires
        s.is_listing(f, query, all),
        f.offset == 0,
        s.issues@.len() <= f.limit,
    ensures
        page(all, f.offset as int, f.limit as int) == all,
{
    broadcast use vstd::seq_lib::seq_to_set_is_finite;
    assert(all.no_duplicates()) by {
        assert forall|a: int, b: int| 0 <= a < all.len() && 0 <= b < all.len() && a != b implies all[a] != all[b] by {
            if a < b {
                assert(precedes(all[a], all[b], f.sort_by, f.sort_order));
            } else {
                assert(precedes(all[b], all[a], f.sort_by, f.sort_order));
            }
        }
    }
    all.unique_seq_to_set();
    assert forall|x: Issue| all.to_set().contains(x) implies s.issues@.to_set().contains(x) by {
        let k = all.index_of(x);
        assert(s.issues@.contains(all[k]));
    }
    vstd::set_lib::lemma_len_subset(all.to_set(), s.issues@.to_set());
    s.issues@.lemma_cardinality_of_set();
    assert(all.subrange(0, all.len() as int) =~= all);
}

/// A deleted issue is left out of a listing under the default filter, and
/// kept in one that includes deleted issues but is otherwise default.
pub proof fn lemma_delete_hides(
    s0: Store,
    s1: Store,
    id: i64,
    now: i64,
    f: IssueFilter,
    g: IssueFilter,
    all_f: Seq<Issue>,
    all_g: Seq<Issue>,
)
    requires
        s0.wf(),
        s0.has_issue(id),
        Store::change_spec(s0, s1, id, crate::issues::deleted_issue(s0.issue(id), now), Ok(crate::issues::deleted_issue(s0.issue(id), now))),
        is_default_filter(f),
        g == (IssueFilter { include_deleted: true, ..f }),
        s1.is_listing(f, None, all_f),
        s1.is_listing(g, None, all_g),
    ensures
        !all_f.contains(s1.issue(id)),
        all_g.contains(s1.issue(id)),
        !page(all_f, f.offset as int, f.limit as int).contains(s1.issue(id)),
        s1.issues@.len() <= g.limit ==> page(all_g, g.offset as int, g.limit as int).contains(s1.issue(id)),
{
    lemma_same_positions(s0, s1, id, crate::issues::deleted_issue(s0.issue(id), now));
    let d = s1.issue(id);
    if all_f.contains(d) {
        let k = all_f.index_of(d);
        assert(s1.passes(all_f[k], f));
    }
    assert(s1.issues@.contains(d));
    assert(s1.selects(d, g, None));
    let pf = page(all_f, f.offset as int, f.limit as int);
    if pf.contains(d) {
        let k = pf.index_of(d);
        assert(all_f.contains(pf[k]));
    }
    if s1.issues@.len() <= g.limit {
        lemma_first_page_is_whole(s1, g, None, all_g);
    }
}

/// A restored issue is back in a listing under the default filter.
pub proof fn lemma_restore_shows(s0: Store, s1: Store, id: i64, now: i64, f: IssueFilter, all: Seq<Issue>)
    requires
        s0.wf(),
        s0.has_issue(id),
        Store::change_spec(s0, s1, id, crate::issues::restored_issue(s0.issue(id), now), Ok(crate::issues::restored_issue(s0.issue(id), now))),
        is_default_filter(f),
        s1.is_listing(f, None, all),
    ensures
        all.contains(s1.issue(id)),
        s1.issues@.len() <= f.limit ==> page(all, f.offset as int, f.limit as int).contains(s1.issue(id)),
{
    lemma_same_positions(s0, s1, id, crate::issues::restored_issue(s0.issue(id), now));
    let d = s1.issue(id);
    assert(s1.issues@.contains(d));
    assert(s1.selects(d, f, None));
    if s1.issues@.len() <= f.limit {
        lemma_first_page_is_whole(s1, f, None, all);
    }
}

/// An update that names no field returns the issue as it was and changes
/// nothing, its update time included.
pub proof fn lemma_empty_update_changes_nothing(
    s0: Store,
    s1: Store,
    id: i64,
    u: IssueUpdate,
    now: i64,
    r: Result<Issue, Error>,
)
    requires
        s0.wf(),
        s0.has_issue(id),
        is_empty_update(u),
        Store::update_spec(s0, s1, id, u, now, r),
    ensures
        r == Ok::<Issue, Error>(s0.issue(id)),
        s1.same_as(s0),
{
    let p = s0.position(id);
    assert(s0.issue_ids()[p] == id);
    assert(s1.issues@ =~= s0.issues@);
}

} // verus!
