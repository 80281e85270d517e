use vstd::prelude::*;
use crate::model::{Issue, IssueFilter, SortField, SortOrder};
use crate::store::{copy_issue, Store};
use crate::text::{lower_of, lowercase, same_name, text_of};

verus! {

/// The value an issue is ordered by.
pub open spec fn sort_key(i: Issue, by: SortField) -> int {
    match by {
        SortField::Updated => i.updated_at as int,
        SortField::Created => i.created_at as int,
        SortField::Id => i.id as int,
    }
}

/// `a` comes before `b` in a listing: by the sort key in the asked
/// direction, and by ascending id where the keys are equal.
pub open spec fn precedes(a: Issue, b: Issue, by: SortField, order: SortOrder) -> bool {
    let ka = sort_key(a, by);
    let kb = sort_key(b, by);
    if ka == kb {
        a.id < b.id
    } else {
        match order {
            SortOrder::Asc => ka < kb,
            SortOrder::Desc => ka > kb,
        }
    }
}

/// Each issue comes before every later one.
pub open spec fn is_ordered(s: Seq<Issue>, by: SortField, order: SortOrder) -> bool {
    forall|a: int, b: int| 0 <= a < b < s.len() ==> precedes(#[trigger] s[a], #[trigger] s[b], by, order)
}

/// The page of a listing: `limit` issues from `offset` on, fewer at its end.
pub open spec fn page(all: Seq<Issue>, offset: int, limit: int) -> Seq<Issue> {
    let lo = if offset < all.len() { offset } else { all.len() as int };
    let hi = if lo + limit < all.len() { lo + limit } else { all.len() as int };
    all.subrange(lo, hi)
}

/// Whether a character is a letter or a digit, as `char::is_alphanumeric`
/// says (Unicode's Alphabetic and Numeric properties).
pub uninterp spec fn alnum(c: char) -> bool;

/// Relies on `char::is_alphanumeric`: the answer depends on the character
/// alone.
#[verifier::external_body]
fn word_char(c: char) -> (r: bool)
    ensures
        r == alnum(c),
{
    c.is_alphanumeric()
}

/// Relies on `str::chars`: the characters of the text, in order.
#[verifier::external_body]
fn chars_of(s: &str) -> (r: Vec<char>)
    ensures
        r@ == s@,
{
    s.chars().collect()
}

/// Characters `i` to `j` of `s` are a whole word: letters and digits, with
/// none right before or after.
pub open spec fn is_word(s: Seq<char>, i: int, j: int) -> bool {
    &&& 0 <= i < j <= s.len()
    &&& forall|k: int| i <= k < j ==> alnum(#[trigger] s[k])
    &&& (i == 0 || !alnum(s[i - 1]))
    &&& (j == s.len() || !alnum(s[j]))
}

/// `s` holds `w` as a whole word.
pub open spec fn has_word(s: Seq<char>, w: Seq<char>) -> bool {
    exists|i: int, j: int| is_word(s, i, j) && #[trigger] s.subrange(i, j) == w
}

/// A search text matches an issue when, all lower-cased, it has at least
/// one word and each of its words stands as a whole word in the issue's
/// title or body. Words are runs of letters and digits, so any other
/// character separates them; case is folded as `str::to_lowercase` does.
/// Unlike SQLite's full-text tokenizer, accents are kept: "é" does not
/// match "e".
pub open spec fn text_matches(q: Seq<char>, i: Issue) -> bool {
    let lq = lower_of(q);
    &&& exists|a: int, b: int| is_word(lq, a, b)
    &&& forall|a: int, b: int|
        #[trigger] is_word(lq, a, b) ==> has_word(lower_of(i.title@), lq.subrange(a, b))
            || (i.body matches Some(t) && has_word(lower_of(t@), lq.subrange(a, b)))
}

impl Store {
    /// The issue carries a label of this name (ASCII case aside).
    pub open spec fn carries(self, issue_id: i64, name: Seq<char>) -> bool {
        exists|j: int|
            0 <= j < self.labels@.len() && same_name(#[trigger] self.labels@[j].name@, name)
                && self.issue_labels@.contains((issue_id, self.labels@[j].id))
    }

    /// The issue passes the filter's state, type, deletion and label tests:
    /// it carries every label named, however often and in whatever case.
    pub open spec fn passes(self, i: Issue, f: IssueFilter) -> bool {
        &&& (f.state matches Some(s) ==> i.state == s)
        &&& (f.issue_type matches Some(t) ==> i.issue_type == t)
        &&& (f.include_deleted || i.deleted_at is None)
        &&& forall|m: int| 0 <= m < f.labels@.len() ==> self.carries(i.id, #[trigger] f.labels@[m]@)
    }

    /// The issue is selected by the filter and, for a search, by its text.
    pub open spec fn selects(self, i: Issue, f: IssueFilter, query: Option<Seq<char>>) -> bool {
        &&& self.passes(i, f)
        &&& (query matches Some(q) ==> text_matches(q, i))
    }

    /// `all` holds exactly the selected issues of the store, in listing order.
    pub open spec fn is_listing(self, f: IssueFilter, query: Option<Seq<char>>, all: Seq<Issue>) -> bool {
        &&& forall|k: int| 0 <= k < all.len() ==> self.issues@.contains(#[trigger] all[k]) && self.selects(all[k], f, query)
        &&& forall|i: Issue| #[trigger] self.issues@.contains(i) && self.selects(i, f, query) ==> all.contains(i)
        &&& is_ordered(all, f.sort_by, f.sort_order)
    }

    /// Whether the issue carries a label of this name.
    pub fn carries_label(&self, issue_id: i64, name: &str) -> (r: bool)
        requires
            self.wf(),
        ensures
            r == self.carries(issue_id, name@),
    {
        match self.find_label(name) {
            None => false,
            Some(j) => {
                let r = self.has_pair(issue_id, self.labels[j].id);
                proof {
                    if self.carries(issue_id, name@) {
                        let j2 = choose|j2: int|
                            0 <= j2 < self.labels@.len() && same_name(#[trigger] self.labels@[j2].name@, name@)
                                && self.issue_labels@.contains((issue_id, self.labels@[j2].id));
                        crate::text::lemma_same_name_trans(self.labels@[j2].name@, name@, self.labels@[j as int].name@);
                        crate::text::lemma_same_name_trans(self.labels@[j as int].name@, name@, name@);
                        crate::text::lemma_same_name_trans(self.labels@[j2].name@, name@, self.labels@[j as int].name@);
                        if j2 != j as int {
                            assert(!same_name(self.labels@[j2].name@, self.labels@[j as int].name@));
                        }
                    }
                }
                r
            },
        }
    }

    /// Whether the issue passes the filter's tests.
    pub fn passes_filter(&self, i: &Issue, f: &IssueFilter) -> (r: bool)
        requires
            self.wf(),
        ensures
            r == self.passes(*i, *f),
    {
        match f.state {
            Some(s) => {
                if i.state != s {
                    return false;
                }
            },
            None => {},
        }
        match f.issue_type {
            Some(t) => {
                if i.issue_type != t {
                    return false;
                }
            },
            None => {},
        }
        if !f.include_deleted && i.deleted_at.is_some() {
            return false;
        }
        let mut m: usize = 0;
        while m < f.labels.len()
            invariant
                self.wf(),
                0 <= m <= f.labels@.len(),
                forall|p: int| 0 <= p < m ==> self.carries(i.id, #[trigger] f.labels@[p]@),
            decreases f.labels@.len() - m,
        {
            if !self.carries_label(i.id, f.labels[m].as_str()) {
                return false;
            }
            m = m + 1;
        }
        true
    }

    /// The selected issues, in ascending id order.
    fn selected(&self, f: &IssueFilter, query: Option<&str>) -> (r: Vec<Issue>)
        requires
            self.wf(),
        ensures
            forall|k: int| 0 <= k < r@.len() ==> self.issues@.contains(#[trigger] r@[k]) && self.selects(r@[k], *f, text_of(query)),
            forall|i: Issue| #[trigger] self.issues@.contains(i) && self.selects(i, *f, text_of(query)) ==> r@.contains(i),
            forall|a: int, b: int| 0 <= a < b < r@.len() ==> #[trigger] r@[a].id < #[trigger] r@[b].id,
    {
        let mut out: Vec<Issue> = Vec::new();
        let mut k: usize = 0;
        while k < self.issues.len()
            invariant
                self.wf(),
                0 <= k <= self.issues@.len(),
                forall|t: int| 0 <= t < out@.len() ==> self.issues@.contains(#[trigger] out@[t]) && self.selects(out@[t], *f, text_of(query)),
                forall|t: int| 0 <= t < k && self.selects(#[trigger] self.issues@[t], *f, text_of(query)) ==> out@.contains(self.issues@[t]),
                forall|a: int, b: int| 0 <= a < b < out@.len() ==> #[trigger] out@[a].id < #[trigger] out@[b].id,
                forall|t: int| 0 <= t < out@.len() ==> exists|u: int| 0 <= u < k && #[trigger] out@[t] == self.issues@[u],
            decreases self.issues@.len() - k,
        {
            let i = &self.issues[k];
            let keep = self.passes_filter(i, f) && match query {
                Some(q) => matches_text(q, i),
                None => true,
            };
            if keep {
                let ghost before = out@;
                proof {
                    assert forall|t: int| 0 <= t < before.len() implies #[trigger] before[t].id < self.issues@[k as int].id by {
                        let u = choose|u: int| 0 <= u < k && #[trigger] before[t] == self.issues@[u];
                        assert(self.issues@[u].id < self.issues@[k as int].id);
                    }
                }
                out.push(copy_issue(i));
                proof {
                    assert(out@[before.len() as int] == self.issues@[k as int]);
                    assert forall|t: int| 0 <= t < out@.len() implies exists|u: int| 0 <= u < k + 1 && #[trigger] out@[t] == self.issues@[u] by {
                        if t < before.len() {
                            assert(before[t] == out@[t]);
                        } else {
                            assert(out@[t] == self.issues@[k as int]);
                        }
                    }
                    assert forall|t: int| 0 <= t < k + 1 && self.selects(#[trigger] self.issues@[t], *f, text_of(query)) implies out@.contains(self.issues@[t]) by {
                        if t < k {
                            let w = before.index_of(self.issues@[t]);
                            assert(out@[w] == self.issues@[t]);
                        }
                    }
                    assert(self.issues@.contains(self.issues@[k as int]));
                }
            }
            k = k + 1;
        }
        proof {
            assert forall|i: Issue| #[trigger] self.issues@.contains(i) && self.selects(i, *f, text_of(query)) implies out@.contains(i) by {
                let t = self.issues@.index_of(i);
                assert(self.issues@[t] == i);
            }
        }
        out
    }

    /// Issues that pass the filter, in the filter's order, the page it asks
    /// for. Issues with equal sort keys come in ascending id order.
    pub fn list_issues(&self, filter: &IssueFilter) -> (r: Vec<Issue>)
        requires
            self.wf(),
        ensures
            exists|all: Seq<Issue>|
                self.is_listing(*filter, None, all) && r@ == page(all, filter.offset as int, filter.limit as int),
    {
        self.listing(filter, None)
    }

    /// Issues whose title or body holds every word of the query and that pass
    /// the filter, in the filter's order, the page it asks for.
    pub fn search_issues(&self, query: &str, filter: &IssueFilter) -> (r: Vec<Issue>)
        requires
            self.wf(),
        ensures
            exists|all: Seq<Issue>|
                self.is_listing(*filter, Some(query@), all) && r@ == page(all, filter.offset as int, filter.limit as int),
    {
        self.listing(filter, Some(query))
    }

    fn listing(&self, filter: &IssueFilter, query: Option<&str>) -> (r: Vec<Issue>)
        requires
            self.wf(),
        ensures
            exists|all: Seq<Issue>|
                self.is_listing(*filter, text_of(query), all) && r@ == page(all, filter.offset as int, filter.limit as int),
    {
        let found = self.selected(filter, query);
        let ghost picked = found@;
        let all = order_issues(found, filter.sort_by, filter.sort_order);
        proof {
            assert forall|k: int| 0 <= k < all@.len() implies self.issues@.contains(#[trigger] all@[k])
                && self.selects(all@[k], *filter, text_of(query)) by {
                assert(all@.contains(all@[k]));
                let t = picked.index_of(all@[k]);
                assert(picked[t] == all@[k]);
            }
            assert(self.is_listing(*filter, text_of(query), all@));
        }
        take_page(&all, filter.offset, filter.limit)
    }
}


/// Two sequences in listing order that hold the same issues are the same.
pub proof fn lemma_ordered_unique(a: Seq<Issue>, b: Seq<Issue>, by: SortField, order: SortOrder)
    requires
        is_ordered(a, by, order),
        is_ordered(b, by, order),
        forall|x: Issue| a.contains(x) <==> b.contains(x),
    ensures
        a == b,
    decreases a.len() + b.len(),
{
    if a.len() == 0 || b.len() == 0 {
        if a.len() > 0 {
            assert(a.contains(a[0]));
        }
        if b.len() > 0 {
            assert(b.contains(b[0]));
        }
        assert(a =~= b);
    } else {
        assert(a.contains(a[0]));
        assert(b.contains(b[0]));
        let j = b.index_of(a[0]);
        let i = a.index_of(b[0]);
        if j > 0 {
            assert(precedes(b[0], b[j], by, order));
            if i == 0 {
                assert(!precedes(b[j], b[j], by, order));
            } else {
                assert(precedes(a[0], a[i], by, order));
                lemma_precedes_order(a[0], b[0], b[0], by, order);
            }
        }
        assert(a[0] == b[0]);
        let ta = a.drop_first();
        let tb = b.drop_first();
        assert forall|x: Issue| ta.contains(x) <==> tb.contains(x) by {
            if ta.contains(x) {
                let k = ta.index_of(x);
                assert(a[k + 1] == x);
                assert(a.contains(x));
                assert(precedes(a[0], a[k + 1], by, order));
                let w = b.index_of(x);
                if w == 0 {
                    assert(!precedes(x, x, by, order));
                }
                assert(tb[w - 1] == x);
            }
            if tb.contains(x) {
                let k = tb.index_of(x);
                assert(b[k + 1] == x);
                assert(b.contains(x));
                assert(precedes(b[0], b[k + 1], by, order));
                let w = a.index_of(x);
                if w == 0 {
                    assert(!precedes(x, x, by, order));
                }
                assert(ta[w - 1] == x);
            }
        }
        lemma_ordered_unique(ta, tb, by, order);
        assert(a =~= seq![a[0]] + ta);
        assert(b =~= seq![b[0]] + tb);
    }
}

/// A store has one listing for a filter and a query: what `list_issues`
/// and `search_issues` page through is determined.
pub proof fn lemma_listing_unique(s: Store, f: IssueFilter, query: Option<Seq<char>>, a: Seq<Issue>, b: Seq<Issue>)
    requires
        s.is_listing(f, query, a),
        s.is_listing(f, query, b),
    ensures
        a == b,
{
    assert forall|x: Issue| a.contains(x) <==> b.contains(x) by {
        if a.contains(x) {
            let k = a.index_of(x);
            assert(s.issues@.contains(a[k]) && s.selects(a[k], f, query));
        }
        if b.contains(x) {
            let k = b.index_of(x);
            assert(s.issues@.contains(b[k]) && s.selects(b[k], f, query));
        }
    }
    lemma_ordered_unique(a, b, f.sort_by, f.sort_order);
}

proof fn lemma_precedes_order(a: Issue, b: Issue, c: Issue, by: SortField, order: SortOrder)
    ensures
        precedes(a, b, by, order) && precedes(b, c, by, order) ==> precedes(a, c, by, order),
        a.id != b.id ==> precedes(a, b, by, order) || precedes(b, a, by, order),
        !(precedes(a, b, by, order) && precedes(b, a, by, order)),
{
}

/// Whether `a` comes before `b` in a listing.
fn comes_before(a: &Issue, b: &Issue, by: SortField, order: SortOrder) -> (r: bool)
    ensures
        r == precedes(*a, *b, by, order),
{
    let (ka, kb) = match by {
        SortField::Updated => (a.updated_at, b.updated_at),
        SortField::Created => (a.created_at, b.created_at),
        SortField::Id => (a.id, b.id),
    };
    if ka == kb {
        a.id < b.id
    } else {
        match order {
            SortOrder::Asc => ka < kb,
            SortOrder::Desc => ka > kb,
        }
    }
}

/// The issues in listing order (insertion sort; ids must ascend).
fn order_issues(v: Vec<Issue>, by: SortField, order: SortOrder) -> (r: Vec<Issue>)
    requires
        forall|a: int, b: int| 0 <= a < b < v@.len() ==> #[trigger] v@[a].id < #[trigger] v@[b].id,
    ensures
        is_ordered(r@, by, order),
        forall|i: Issue| #[trigger] r@.contains(i) <==> v@.contains(i),
{
    let mut out: Vec<Issue> = Vec::new();
    let mut k: usize = 0;
    while k < v.len()
        invariant
            0 <= k <= v@.len(),
            forall|a: int, b: int| 0 <= a < b < v@.len() ==> #[trigger] v@[a].id < #[trigger] v@[b].id,
            is_ordered(out@, by, order),
            forall|i: Issue| #[trigger] out@.contains(i) <==> v@.subrange(0, k as int).contains(i),
        decreases v@.len() - k,
    {
        let x = &v[k];
        proof {
            assert forall|t: int| 0 <= t < out@.len() implies #[trigger] out@[t].id < x.id by {
                assert(out@.contains(out@[t]));
                let u = v@.subrange(0, k as int).index_of(out@[t]);
                assert(v@[u] == out@[t]);
            }
        }
        let mut p: usize = 0;
        while p < out.len() && !comes_before(x, &out[p], by, order)
            invariant
                0 <= p <= out@.len(),
                forall|t: int| 0 <= t < p ==> !precedes(*x, #[trigger] out@[t], by, order),
            decreases out@.len() - p,
        {
            p = p + 1;
        }
        let ghost before = out@;
        out.insert(p, copy_issue(x));
        proof {
            before.insert_ensures(p as int, *x);
            assert forall|a: int, b: int| 0 <= a < b < out@.len() implies precedes(#[trigger] out@[a], #[trigger] out@[b], by, order) by {
                if p < before.len() {
                    assert(precedes(*x, before[p as int], by, order));
                }
                if a < p && b == p {
                    lemma_precedes_order(before[a], *x, *x, by, order);
                } else if a < p && b > p {
                    assert(precedes(before[a], before[b - 1], by, order));
                } else if a == p && b > p {
                    if b - 1 > p {
                        assert(precedes(before[p as int], before[b - 1], by, order));
                        lemma_precedes_order(*x, before[p as int], before[b - 1], by, order);
                    }
                } else if a > p {
                    assert(precedes(before[a - 1], before[b - 1], by, order));
                }
            }
            let pre = v@.subrange(0, k as int);
            let post = v@.subrange(0, k + 1);
            assert(post =~= pre.push(*x));
            assert forall|i: Issue| #[trigger] out@.contains(i) <==> post.contains(i) by {
                if out@.contains(i) {
                    let w = out@.index_of(i);
                    if w < p {
                        assert(out@[w] == before[w]);
                        assert(before.contains(before[w]));
                        let u = pre.index_of(i);
                        assert(post[u] == i);
                    } else if w > p {
                        assert(out@[w] == before[w - 1]);
                        assert(before.contains(before[w - 1]));
                        let u = pre.index_of(i);
                        assert(post[u] == i);
                    } else {
                        assert(post[k as int] == i);
                    }
                }
                if post.contains(i) {
                    let u = post.index_of(i);
                    if u < k {
                        assert(pre[u] == i);
                        assert(pre.contains(i));
                        assert(before.contains(i));
                        let w = before.index_of(i);
                        if w < p {
                            assert(out@[w] == i);
                        } else {
                            assert(out@[w + 1] == i);
                        }
                    } else {
                        assert(out@[p as int] == i);
                    }
                }
            }
        }
        k = k + 1;
    }
    assert(v@.subrange(0, v@.len() as int) =~= v@);
    out
}

/// The page of `limit` issues from `offset` on.
fn take_page(all: &Vec<Issue>, offset: usize, limit: usize) -> (r: Vec<Issue>)
    ensures
        r@ == page(all@, offset as int, limit as int),
{
    let n = all.len();
    let lo = if offset < n { offset } else { n };
    let hi = if limit < n - lo { lo + limit } else { n };
    let mut out: Vec<Issue> = Vec::new();
    let mut k: usize = lo;
    while k < hi
        invariant
            lo <= k <= hi <= n == all@.len(),
            out@ == all@.subrange(lo as int, k as int),
        decreases hi - k,
    {
        out.push(copy_issue(&all[k]));
        proof {
            assert(out@ =~= all@.subrange(lo as int, k + 1));
        }
        k = k + 1;
    }
    out
}

/// The first whole word of `s` that starts at or after `k`, as its bounds;
/// `(len, len)` when there is none.
fn next_word(s: &Vec<char>, k: usize) -> (r: (usize, usize))
    requires
        k <= s@.len(),
        k == 0 || !alnum(s@[k - 1]),
    ensures
        k <= r.0 <= r.1 <= s@.len(),
        r.0 < s@.len() ==> is_word(s@, r.0 as int, r.1 as int),
        r.0 == s@.len() ==> r.1 == s@.len(),
        forall|a: int, b: int| k <= a < r.0 ==> !#[trigger] is_word(s@, a, b),
        forall|b: int| r.0 < s@.len() && #[trigger] is_word(s@, r.0 as int, b) ==> b == r.1,
{
    let n = s.len();
    let mut i: usize = k;
    while i < n && !word_char(s[i])
        invariant
            k <= i <= n == s@.len(),
            forall|t: int| k <= t < i ==> !alnum(#[trigger] s@[t]),
        decreases n - i,
    {
        i = i + 1;
    }
    proof {
        assert forall|a: int, b: int| k <= a < i implies !#[trigger] is_word(s@, a, b) by {
            assert(!alnum(s@[a]));
        }
    }
    if i == n {
        return (n, n);
    }
    let mut j: usize = i + 1;
    while j < n && word_char(s[j])
        invariant
            i < j <= n == s@.len(),
            forall|t: int| i <= t < j ==> alnum(#[trigger] s@[t]),
        decreases n - j,
    {
        j = j + 1;
    }
    proof {
        assert forall|b: int| #[trigger] is_word(s@, i as int, b) implies b == j by {
            if b < j {
                assert(alnum(s@[b]));
            } else if b > j {
                assert(alnum(s@[j as int]));
            }
        }
    }
    (i, j)
}

/// Whether characters `i` to `j` of `s` equal characters `a` to `b` of `w`.
fn same_span(s: &Vec<char>, i: usize, j: usize, w: &Vec<char>, a: usize, b: usize) -> (r: bool)
    requires
        i <= j <= s@.len(),
        a <= b <= w@.len(),
    ensures
        r == (s@.subrange(i as int, j as int) == w@.subrange(a as int, b as int)),
{
    if j - i != b - a {
        proof {
            assert(s@.subrange(i as int, j as int).len() != w@.subrange(a as int, b as int).len());
        }
        return false;
    }
    let mut t: usize = 0;
    while t < j - i
        invariant
            i <= j <= s@.len(),
            a <= b <= w@.len(),
            j - i == b - a,
            0 <= t <= j - i,
            forall|u: int| 0 <= u < t ==> #[trigger] s@[i + u] == w@[a + u],
        decreases j - i - t,
    {
        if s[i + t] != w[a + t] {
            proof {
                let x = s@.subrange(i as int, j as int);
                let y = w@.subrange(a as int, b as int);
                assert(x[t as int] == s@[i + t]);
                assert(y[t as int] == w@[a + t]);
            }
            return false;
        }
        t = t + 1;
    }
    proof {
        let x = s@.subrange(i as int, j as int);
        let y = w@.subrange(a as int, b as int);
        assert forall|u: int| 0 <= u < x.len() implies x[u] == y[u] by {
            assert(x[u] == s@[i + u]);
            assert(y[u] == w@[a + u]);
        }
        assert(x =~= y);
    }
    true
}

/// Whether `s` holds characters `a` to `b` of `w` as a whole word.
fn holds_word(s: &Vec<char>, w: &Vec<char>, a: usize, b: usize) -> (r: bool)
    requires
        a <= b <= w@.len(),
    ensures
        r == has_word(s@, w@.subrange(a as int, b as int)),
{
    let n = s.len();
    let ghost word = w@.subrange(a as int, b as int);
    let mut k: usize = 0;
    while k < n
        invariant
            k <= n == s@.len(),
            a <= b <= w@.len(),
            word == w@.subrange(a as int, b as int),
            k == 0 || k == n || !alnum(s@[k - 1]),
            forall|x: int, y: int| #[trigger] is_word(s@, x, y) && x < k ==> s@.subrange(x, y) != word,
        decreases n - k,
    {
        let (i, j) = next_word(s, k);
        if i == n {
            proof {
                assert forall|x: int, y: int| #[trigger] is_word(s@, x, y) implies s@.subrange(x, y) != word by {
                    if x >= k {
                        assert(!is_word(s@, x, y));
                    }
                }
            }
            return false;
        }
        if same_span(s, i, j, w, a, b) {
            assert(is_word(s@, i as int, j as int) && s@.subrange(i as int, j as int) == word);
            return true;
        }
        let next = if j < n { j + 1 } else { n };
        proof {
            assert forall|x: int, y: int| #[trigger] is_word(s@, x, y) && x < next implies s@.subrange(x, y) != word by {
                if k <= x < i {
                    assert(!is_word(s@, x, y));
                } else if x == i {
                    assert(y == j);
                } else if i < x < j {
                    assert(alnum(s@[x - 1]));
                } else if x == j {
                    assert(!alnum(s@[j as int]));
                }
            }
        }
        k = next;
    }
    false
}

/// Whether a search text matches an issue (see `text_matches`).
pub fn matches_text(q: &str, i: &Issue) -> (r: bool)
    ensures
        r == text_matches(q@, *i),
{
    let qc = chars_of(lowercase(q).as_str());
    let tc = chars_of(lowercase(i.title.as_str()).as_str());
    let bc: Option<Vec<char>> = match &i.body {
        Some(t) => Some(chars_of(lowercase(t.as_str()).as_str())),
        None => None,
    };
    let n = qc.len();
    let mut any = false;
    let mut k: usize = 0;
    while k < n
        invariant
            k <= n == qc@.len(),
            qc@ == lower_of(q@),
            tc@ == lower_of(i.title@),
            i.body is None ==> bc is None,
            i.body matches Some(t) ==> (bc matches Some(v) && v@ == lower_of(t@)),
            k == 0 || k == n || !alnum(qc@[k - 1]),
            any ==> exists|x: int, y: int| is_word(qc@, x, y),
            !any ==> forall|x: int, y: int| #[trigger] is_word(qc@, x, y) ==> x >= k,
            forall|x: int, y: int| #[trigger] is_word(qc@, x, y) && x < k ==> has_word(tc@, qc@.subrange(x, y))
                || (i.body matches Some(t) && has_word(lower_of(t@), qc@.subrange(x, y))),
        decreases n - k,
    {
        let (a, b) = next_word(&qc, k);
        if a == n {
            proof {
                assert forall|x: int, y: int| #[trigger] is_word(qc@, x, y) implies x < k by {
                    if x >= k {
                        assert(!is_word(qc@, x, y));
                    }
                }
            }
            k = n;
            continue;
        }
        any = true;
        let found = holds_word(&tc, &qc, a, b) || match &bc {
            Some(v) => holds_word(v, &qc, a, b),
            None => false,
        };
        if !found {
            assert(is_word(qc@, a as int, b as int));
            return false;
        }
        let next = if b < n { b + 1 } else { n };
        proof {
            assert forall|x: int, y: int| #[trigger] is_word(qc@, x, y) && x < next implies has_word(tc@, qc@.subrange(x, y))
                || (i.body matches Some(t) && has_word(lower_of(t@), qc@.subrange(x, y))) by {
                if k <= x < a {
                    assert(!is_word(qc@, x, y));
                } else if x == a {
                    assert(y == b);
                } else if a < x < b {
                    assert(alnum(qc@[x - 1]));
                } else if x == b {
                    assert(!alnum(qc@[b as int]));
                }
            }
        }
        k = next;
    }
    any
}

} // verus!
