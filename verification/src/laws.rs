//! The library's stated laws: tenant registration is idempotent, ownership
//! isolates tenants from each other, the event log is append-only, the
//! recent feed is bounded and ordered and is pinned down by the aggregation
//! contract, and an unknown tenant aggregates to zeros rather than an
//! error. Each law is proved over the same model transitions and predicates
//! the operations' contracts use.

use vstd::prelude::*;

use crate::database::{
    add_event, has_email, has_tenant, stats_match, tenant_events, upsert_tenant, DbModel,
    EventModel, StatsModel, TenantModel,
};

verus! {

/// A sequence with exactly one index satisfying `pred` filters to exactly
/// one element.
proof fn lemma_filter_single<A>(s: Seq<A>, pred: spec_fn(A) -> bool, w: int)
    requires
        0 <= w < s.len(),
        pred(s[w]),
        forall|j: int| 0 <= j < s.len() && #[trigger] pred(s[j]) ==> j == w,
    ensures
        s.filter(pred).len() == 1,
    decreases s.len(),
{
    reveal(Seq::filter);
    if s.len() > 0 {
        let dl = s.drop_last();
        if w == s.len() - 1 {
            assert(pred(s.last()));
            assert(forall|j: int| 0 <= j < dl.len() ==> !#[trigger] pred(dl[j]));
            dl.lemma_all_neg_filter_empty(pred);
        } else {
            assert(!pred(s.last()));
            lemma_filter_single(dl, pred, w);
        }
    }
}

/// Registering the same tenant id twice leaves exactly one tenant row for
/// it: the second registration changes nothing at all, and the store holds
/// exactly one row with that id.
pub proof fn lemma_ensure_tenant_idempotent(
    m: DbModel,
    id: Seq<char>,
    name1: Seq<char>,
    name2: Seq<char>,
    ts1: i64,
    ts2: i64,
)
    requires
        m.wf(),
    ensures
        ({
            let m1 = upsert_tenant(m, id, name1, ts1);
            let m2 = upsert_tenant(m1, id, name2, ts2);
            &&& m2 == m1
            &&& m1.tenants.filter(|t: TenantModel| t.id == id).len() == 1
        }),
{
    let m1 = upsert_tenant(m, id, name1, ts1);
    let pred = |t: TenantModel| t.id == id;
    if has_tenant(m, id) {
        assert(m1 == m);
        let w = choose|i: int| 0 <= i < m.tenants.len() && m.tenants[i].id == id;
        assert(pred(m.tenants[w]));
        assert forall|j: int| 0 <= j < m.tenants.len() && #[trigger] pred(m.tenants[j]) implies j
            == w by {
            if j != w {
                assert(m.tenants[j].id != m.tenants[w].id);
            }
        }
        lemma_filter_single(m.tenants, pred, w);
    } else {
        let w = m.tenants.len() as int;
        assert(m1.tenants == m.tenants.push(TenantModel { id, name: name1, created_at: ts1 }));
        assert(m1.tenants[w].id == id);
        assert(has_tenant(m1, id));
        assert forall|j: int| 0 <= j < m1.tenants.len() && #[trigger] pred(m1.tenants[j]) implies j
            == w by {
            if j < w {
                assert(m1.tenants[j] == m.tenants[j]);
                assert(has_tenant(m, id)) by {
                    assert(m.tenants[j].id == id);
                }
            }
        }
        lemma_filter_single(m1.tenants, pred, w);
    }
}

/// Tenant isolation: an email that resolves under one tenant resolves under
/// no other. The dual-key lookup can never hand a record across tenants.
pub proof fn lemma_email_isolation(m: DbModel, email_id: i64, t1: Seq<char>, t2: Seq<char>)
    requires
        m.wf(),
        has_email(m, email_id, t1),
        t1 != t2,
    ensures
        !has_email(m, email_id, t2),
{
    if has_email(m, email_id, t2) {
        let i = choose|i: int|
            0 <= i < m.emails.len() && m.emails[i].id == email_id && m.emails[i].tenant_id == t1;
        let j = choose|j: int|
            0 <= j < m.emails.len() && m.emails[j].id == email_id && m.emails[j].tenant_id == t2;
        assert(i != j);
        if i < j {
            assert(m.emails[i].id != m.emails[j].id);
        } else {
            assert(m.emails[j].id != m.emails[i].id);
        }
    }
}

/// The event log is append-only: each recorded engagement adds exactly one
/// row, that row carries the recorded action, and every prior row is left
/// exactly as it was; a repeated recording appends a further row rather
/// than overwriting.
pub proof fn lemma_events_append_only(
    m: DbModel,
    email_id: i64,
    ty: Seq<char>,
    ua: Option<Seq<char>>,
    ip: Option<Seq<char>>,
    ts: i64,
    ua2: Option<Seq<char>>,
    ip2: Option<Seq<char>>,
    ts2: i64,
)
    ensures
        ({
            let m1 = add_event(m, email_id, ty, ua, ip, ts);
            let m2 = add_event(m1, email_id, ty, ua2, ip2, ts2);
            &&& m1.events.len() == m.events.len() + 1
            &&& m1.events.last().email_id == email_id
            &&& m1.events.last().event_type == ty
            &&& forall|k: int| 0 <= k < m.events.len() ==> m1.events[k] == m.events[k]
            &&& m2.events.len() == m.events.len() + 2
            &&& forall|k: int| 0 <= k < m1.events.len() ==> m2.events[k] == m1.events[k]
        }),
{
}

/// The recent feed never exceeds its cap, however many events exist, and is
/// ordered strictly most recent first (ties on the timestamp broken toward
/// the later-appended event).
pub proof fn lemma_recent_feed_bounded_and_ordered(m: DbModel, t: Seq<char>, st: StatsModel)
    requires
        stats_match(m, t, st),
    ensures
        st.recent_events.len() <= crate::database::RECENT_EVENTS_CAP,
        forall|a: int, b: int|
            0 <= a < b < st.recent_events.len() ==> crate::database::more_recent(
                #[trigger] st.recent_events[a],
                #[trigger] st.recent_events[b],
            ),
{
}

/// Two strictly recency-ordered sequences of equal length over the same
/// element set are the same sequence.
proof fn lemma_strict_sorted_same_set_equal(x: Seq<EventModel>, y: Seq<EventModel>)
    requires
        x.len() == y.len(),
        forall|a: int, b: int|
            #![trigger x[a], x[b]]
            0 <= a < b < x.len() ==> crate::database::more_recent(x[a], x[b]),
        forall|a: int, b: int|
            #![trigger y[a], y[b]]
            0 <= a < b < y.len() ==> crate::database::more_recent(y[a], y[b]),
        forall|e: EventModel| x.contains(e) <==> y.contains(e),
    ensures
        x == y,
    decreases x.len(),
{
    if x.len() > 0 {
        assert(x.contains(x[0]));
        assert(y.contains(x[0]));
        let j = choose|j: int| 0 <= j < y.len() && y[j] == x[0];
        assert(y.contains(y[0]));
        assert(x.contains(y[0]));
        let i = choose|i: int| 0 <= i < x.len() && x[i] == y[0];
        assert(x[0] == y[0]) by {
            if j > 0 && i > 0 {
                assert(crate::database::more_recent(y[0], y[j]));
                assert(crate::database::more_recent(x[0], x[i]));
            }
        }
        let xt = x.drop_first();
        let yt = y.drop_first();
        assert forall|e: EventModel| xt.contains(e) implies yt.contains(e) by {
            let k = choose|k: int| 0 <= k < xt.len() && xt[k] == e;
            assert(x[k + 1] == e);
            assert(x.contains(e));
            assert(e != x[0]) by {
                if e == x[0] {
                    assert(crate::database::more_recent(x[0], x[k + 1]));
                }
            }
            assert(y.contains(e));
            let l = choose|l: int| 0 <= l < y.len() && y[l] == e;
            assert(l != 0);
            assert(yt[l - 1] == e);
            assert(yt.contains(yt[l - 1]));
        }
        assert forall|e: EventModel| yt.contains(e) implies xt.contains(e) by {
            let k = choose|k: int| 0 <= k < yt.len() && yt[k] == e;
            assert(y[k + 1] == e);
            assert(y.contains(e));
            assert(e != y[0]) by {
                if e == y[0] {
                    assert(crate::database::more_recent(y[0], y[k + 1]));
                }
            }
            assert(x.contains(e));
            let l = choose|l: int| 0 <= l < x.len() && x[l] == e;
            assert(l != 0);
            assert(xt[l - 1] == e);
            assert(xt.contains(xt[l - 1]));
        }
        lemma_strict_sorted_same_set_equal(xt, yt);
        assert forall|k: int| 0 <= k < x.len() implies x[k] == y[k] by {
            if k > 0 {
                assert(xt[k - 1] == x[k]);
                assert(yt[k - 1] == y[k]);
            }
        }
        assert(x =~= y);
    } else {
        assert(x =~= y);
    }
}

/// The aggregation contract determines its result: any two statistics
/// values that satisfy it for the same store and tenant agree on every
/// counter and carry the same recent feed.
pub proof fn lemma_stats_unique(m: DbModel, t: Seq<char>, st1: StatsModel, st2: StatsModel)
    requires
        stats_match(m, t, st1),
        stats_match(m, t, st2),
    ensures
        st1.total_opens == st2.total_opens,
        st1.total_clicks == st2.total_clicks,
        st1.unique_opens == st2.unique_opens,
        st1.unique_clicks == st2.unique_clicks,
        st1.recent_events == st2.recent_events,
{
    let s = tenant_events(m, t);
    let r1 = st1.recent_events;
    let r2 = st2.recent_events;
    assert(r1.len() == r2.len());
    assert forall|a: int, b: int| 0 <= a < b < r1.len() implies (#[trigger] r1[a]) != (
    #[trigger] r1[b]) by {
        assert(crate::database::more_recent(r1[a], r1[b]));
    }
    assert forall|a: int, b: int| 0 <= a < b < r2.len() implies (#[trigger] r2[a]) != (
    #[trigger] r2[b]) by {
        assert(crate::database::more_recent(r2[a], r2[b]));
    }
    assert forall|x: EventModel| r1.contains(x) implies r2.contains(x) by {
        if !r2.contains(x) {
            let k = choose|k: int| 0 <= k < r1.len() && r1[k] == x;
            assert(s.contains(r1[k]));
            let i0 = choose|i: int| 0 <= i < s.len() && s[i] == x;
            assert(forall|k2: int|
                0 <= k2 < r2.len() ==> crate::database::more_recent(#[trigger] r2[k2], s[i0]));
            if exists|l: int| 0 <= l < r2.len() && !r1.contains(#[trigger] r2[l]) {
                let l = choose|l: int| 0 <= l < r2.len() && !r1.contains(#[trigger] r2[l]);
                let f = r2[l];
                assert(s.contains(r2[l]));
                let i1 = choose|i: int| 0 <= i < s.len() && s[i] == f;
                assert(forall|k2: int|
                    0 <= k2 < r1.len() ==> crate::database::more_recent(
                        #[trigger] r1[k2],
                        s[i1],
                    ));
                assert(crate::database::more_recent(r1[k], f));
                assert(crate::database::more_recent(r2[l], x));
            } else {
                lemma_contained_seq_shorter(r1, r2, x);
            }
        }
    }
    assert forall|x: EventModel| r2.contains(x) implies r1.contains(x) by {
        if !r1.contains(x) {
            let k = choose|k: int| 0 <= k < r2.len() && r2[k] == x;
            assert(s.contains(r2[k]));
            let i0 = choose|i: int| 0 <= i < s.len() && s[i] == x;
            assert(forall|k2: int|
                0 <= k2 < r1.len() ==> crate::database::more_recent(#[trigger] r1[k2], s[i0]));
            if exists|l: int| 0 <= l < r1.len() && !r2.contains(#[trigger] r1[l]) {
                let l = choose|l: int| 0 <= l < r1.len() && !r2.contains(#[trigger] r1[l]);
                let f = r1[l];
                assert(s.contains(r1[l]));
                let i1 = choose|i: int| 0 <= i < s.len() && s[i] == f;
                assert(forall|k2: int|
                    0 <= k2 < r2.len() ==> crate::database::more_recent(
                        #[trigger] r2[k2],
                        s[i1],
                    ));
                assert(crate::database::more_recent(r2[k], f));
                assert(crate::database::more_recent(r1[l], x));
            } else {
                lemma_contained_seq_shorter(r2, r1, x);
            }
        }
    }
    lemma_strict_sorted_same_set_equal(r1, r2);
}

/// A duplicate-free sequence whose elements all occur in another
/// duplicate-free sequence — one that also holds an element the first
/// lacks — is strictly shorter than it.
proof fn lemma_contained_seq_shorter(a: Seq<EventModel>, b: Seq<EventModel>, x: EventModel)
    requires
        a.contains(x),
        !b.contains(x),
        forall|l: int| 0 <= l < b.len() ==> a.contains(#[trigger] b[l]),
        forall|i: int, j: int| 0 <= i < j < a.len() ==> (#[trigger] a[i]) != (#[trigger] a[j]),
        forall|i: int, j: int| 0 <= i < j < b.len() ==> (#[trigger] b[i]) != (#[trigger] b[j]),
    ensures
        b.len() < a.len(),
{
    broadcast use vstd::seq_lib::seq_to_set_is_finite;

    assert forall|i: int, j: int|
        0 <= i < a.len() && 0 <= j < a.len() && i != j implies a[i] != a[j] by {
        if i < j {
            assert(a[i] != a[j]);
        } else {
            assert(a[j] != a[i]);
        }
    }
    assert forall|i: int, j: int|
        0 <= i < b.len() && 0 <= j < b.len() && i != j implies b[i] != b[j] by {
        if i < j {
            assert(b[i] != b[j]);
        } else {
            assert(b[j] != b[i]);
        }
    }
    a.unique_seq_to_set();
    b.unique_seq_to_set();
    let shrunk = a.to_set().remove(x);
    assert(b.to_set().subset_of(shrunk)) by {
        assert forall|y: EventModel| b.to_set().contains(y) implies shrunk.contains(y) by {
            assert(b.contains(y));
            assert(a.contains(y));
            assert(y != x);
        }
    }
    assert(shrunk.insert(x) =~= a.to_set());
    assert(shrunk.finite());
    assert(shrunk.insert(x).len() == shrunk.len() + 1);
    vstd::set_lib::lemma_len_subset(b.to_set(), shrunk);
}

/// A tenant that owns no email aggregates to all-zero counters and an empty
/// recent feed; absence is a valid result of aggregation, not a fault.
pub proof fn lemma_stats_empty_tenant(m: DbModel, t: Seq<char>, st: StatsModel)
    requires
        m.wf(),
        forall|i: int| 0 <= i < m.emails.len() ==> (#[trigger] m.emails[i]).tenant_id != t,
        stats_match(m, t, st),
    ensures
        st.total_opens == 0,
        st.total_clicks == 0,
        st.unique_opens == 0,
        st.unique_clicks == 0,
        st.recent_events.len() == 0,
{
    reveal(Seq::filter);
    assert forall|e: EventModel| !(#[trigger] crate::database::owned_pred(m, t)(e)) by {
        if has_email(m, e.email_id, t) {
            let i = choose|i: int|
                0 <= i < m.emails.len() && m.emails[i].id == e.email_id && m.emails[i].tenant_id
                    == t;
            assert(m.emails[i].tenant_id != t);
        }
    }
    assert(forall|i: int|
        0 <= i < m.events.len() ==> !crate::database::owned_pred(m, t)(
            #[trigger] m.events[i],
        ));
    m.events.lemma_all_neg_filter_empty(crate::database::owned_pred(m, t));
    let s = tenant_events(m, t);
    assert(s.len() == 0);
    assert(s =~= Seq::<EventModel>::empty());
    assert(crate::database::of_type(s, crate::database::open_label()).len() == 0);
    assert(crate::database::of_type(s, crate::database::click_label()).len() == 0);
    assert(crate::database::emails_of_type(s, crate::database::open_label())
        =~= Set::<i64>::empty());
    assert(crate::database::emails_of_type(s, crate::database::click_label())
        =~= Set::<i64>::empty());
}

} // verus!
