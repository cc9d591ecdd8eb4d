//! The tracking store: tenants, emails and engagement events, with the
//! invariants that keep tenants isolated and the event log append-only.
//!
//! The store is modelled as three relations held in memory. Tenant ids are
//! caller-supplied and globally unique; email and event ids are assigned by
//! the store from monotonically increasing counters. Every email belongs to
//! exactly one tenant, and an email is visible only through a lookup that
//! matches both its id and its owning tenant id. Events are append-only:
//! no operation updates or removes one.

use vstd::prelude::*;

use crate::error::AppError;

verus! {

/// A tenant row: an isolated customer namespace.
#[derive(Debug, Clone)]
pub struct Tenant {
    /// Caller-supplied primary identity, globally unique.
    pub id: String,
    /// Display label.
    pub name: String,
    /// Milliseconds since the epoch, set at first registration.
    pub created_at: i64,
}

/// An email row: a tracked message, owned by exactly one tenant.
#[derive(Debug, Clone)]
pub struct Email {
    /// Store-assigned integer id, unique across all tenants.
    pub id: i64,
    /// The owning tenant's id.
    pub tenant_id: String,
    pub subject: Option<String>,
    pub recipient: Option<String>,
    /// Milliseconds since the epoch, set at creation.
    pub created_at: i64,
}

/// An event row: one immutable engagement record, owned by one email.
#[derive(Debug, Clone)]
pub struct Event {
    /// Store-assigned integer id, monotonically increasing.
    pub id: i64,
    /// The email this engagement was observed against.
    pub email_id: i64,
    /// `"open"` or `"click"`; open for extension to other types.
    pub event_type: String,
    /// Milliseconds since the epoch, set at append time.
    pub timestamp: i64,
    pub user_agent: Option<String>,
    pub ip_address: Option<String>,
}

/// Mathematical image of a [`Tenant`].
pub ghost struct TenantModel {
    pub id: Seq<char>,
    pub name: Seq<char>,
    pub created_at: i64,
}

/// Mathematical image of an [`Email`].
pub ghost struct EmailModel {
    pub id: i64,
    pub tenant_id: Seq<char>,
    pub subject: Option<Seq<char>>,
    pub recipient: Option<Seq<char>>,
    pub created_at: i64,
}

/// Mathematical image of an [`Event`].
pub ghost struct EventModel {
    pub id: i64,
    pub email_id: i64,
    pub event_type: Seq<char>,
    pub timestamp: i64,
    pub user_agent: Option<Seq<char>>,
    pub ip_address: Option<Seq<char>>,
}

/// Mathematical image of the whole store.
pub ghost struct DbModel {
    pub tenants: Seq<TenantModel>,
    pub emails: Seq<EmailModel>,
    pub events: Seq<EventModel>,
    /// The id the next created email will receive.
    pub next_email_id: i64,
    /// The id the next appended event will receive.
    pub next_event_id: i64,
}

/// View of an optional owned string.
pub open spec fn opt_string_view(o: Option<String>) -> Option<Seq<char>> {
    match o {
        Some(s) => Some(s@),
        None => None,
    }
}

/// View of an optional borrowed string.
pub open spec fn opt_str_view(o: Option<&str>) -> Option<Seq<char>> {
    match o {
        Some(s) => Some(s@),
        None => None,
    }
}

impl View for Tenant {
    type V = TenantModel;

    open spec fn view(&self) -> TenantModel {
        TenantModel { id: self.id@, name: self.name@, created_at: self.created_at }
    }
}

impl View for Email {
    type V = EmailModel;

    open spec fn view(&self) -> EmailModel {
        EmailModel {
            id: self.id,
            tenant_id: self.tenant_id@,
            subject: opt_string_view(self.subject),
            recipient: opt_string_view(self.recipient),
            created_at: self.created_at,
        }
    }
}

impl View for Event {
    type V = EventModel;

    open spec fn view(&self) -> EventModel {
        EventModel {
            id: self.id,
            email_id: self.email_id,
            event_type: self.event_type@,
            timestamp: self.timestamp,
            user_agent: opt_string_view(self.user_agent),
            ip_address: opt_string_view(self.ip_address),
        }
    }
}

/// There is a tenant row whose id is `id`.
pub open spec fn has_tenant(m: DbModel, id: Seq<char>) -> bool {
    exists|i: int| 0 <= i < m.tenants.len() && m.tenants[i].id == id
}

/// There is an email row whose id is `email_id` and whose owner is `tenant_id`.
/// This dual-key test is the ownership check that isolates tenants.
pub open spec fn has_email(m: DbModel, email_id: i64, tenant_id: Seq<char>) -> bool {
    exists|i: int|
        0 <= i < m.emails.len() && m.emails[i].id == email_id && m.emails[i].tenant_id
            == tenant_id
}

/// The store after an insert-if-absent of tenant `id`: unchanged when the id
/// is already present, else extended by exactly one tenant row.
pub open spec fn upsert_tenant(m: DbModel, id: Seq<char>, name: Seq<char>, now_ms: i64) -> DbModel {
    if has_tenant(m, id) {
        m
    } else {
        DbModel {
            tenants: m.tenants.push(TenantModel { id, name, created_at: now_ms }),
            ..m
        }
    }
}

/// The store after creating one email under `tenant_id`, with the next
/// available id. Tenant existence is deliberately not checked here; callers
/// that need it guaranteed upsert the tenant first.
pub open spec fn add_email(
    m: DbModel,
    tenant_id: Seq<char>,
    subject: Option<Seq<char>>,
    recipient: Option<Seq<char>>,
    now_ms: i64,
) -> DbModel {
    DbModel {
        emails: m.emails.push(
            EmailModel {
                id: m.next_email_id,
                tenant_id,
                subject,
                recipient,
                created_at: now_ms,
            },
        ),
        next_email_id: (m.next_email_id + 1) as i64,
        ..m
    }
}

/// The store after appending one engagement event. Append-only: the prior
/// event log is a prefix of the new one.
pub open spec fn add_event(
    m: DbModel,
    email_id: i64,
    event_type: Seq<char>,
    user_agent: Option<Seq<char>>,
    ip_address: Option<Seq<char>>,
    now_ms: i64,
) -> DbModel {
    DbModel {
        events: m.events.push(
            EventModel {
                id: m.next_event_id,
                email_id,
                event_type,
                timestamp: now_ms,
                user_agent,
                ip_address,
            },
        ),
        next_event_id: (m.next_event_id + 1) as i64,
        ..m
    }
}

impl DbModel {
    /// Well-formedness of the store: tenant ids are unique; email and event
    /// ids are unique, positive, and below their counters; and each counter
    /// strictly exceeds the number of rows it has numbered, so row counts
    /// always fit in an `i64`.
    pub open spec fn wf(self) -> bool {
        &&& forall|i: int, j: int|
            #![trigger self.tenants[i], self.tenants[j]]
            0 <= i < j < self.tenants.len() ==> self.tenants[i].id != self.tenants[j].id
        &&& forall|i: int, j: int|
            #![trigger self.emails[i], self.emails[j]]
            0 <= i < j < self.emails.len() ==> self.emails[i].id != self.emails[j].id
        &&& forall|i: int, j: int|
            #![trigger self.events[i], self.events[j]]
            0 <= i < j < self.events.len() ==> self.events[i].id != self.events[j].id
        &&& forall|i: int|
            0 <= i < self.emails.len() ==> 1 <= (#[trigger] self.emails[i]).id
                < self.next_email_id
        &&& forall|i: int|
            0 <= i < self.events.len() ==> 1 <= (#[trigger] self.events[i]).id
                < self.next_event_id
        &&& 1 <= self.next_email_id <= i64::MAX
        &&& 1 <= self.next_event_id <= i64::MAX
        &&& self.emails.len() + 1 <= self.next_email_id
        &&& self.events.len() + 1 <= self.next_event_id
    }
}

/// The per-tenant statistics read-model, computed on demand from the event
/// log and never cached.
pub struct EventStats {
    /// Number of open events against the tenant's emails.
    pub total_opens: i64,
    /// Number of click events against the tenant's emails.
    pub total_clicks: i64,
    /// Number of distinct emails with at least one open.
    pub unique_opens: i64,
    /// Number of distinct emails with at least one click.
    pub unique_clicks: i64,
    /// The most recent events, most recent first, capped at
    /// [`RECENT_EVENTS_CAP`] entries.
    pub recent_events: Vec<Event>,
}

/// Upper bound on the length of [`EventStats::recent_events`].
pub const RECENT_EVENTS_CAP: usize = 50;

/// Mathematical image of an [`EventStats`].
pub ghost struct StatsModel {
    pub total_opens: i64,
    pub total_clicks: i64,
    pub unique_opens: i64,
    pub unique_clicks: i64,
    pub recent_events: Seq<EventModel>,
}

impl View for EventStats {
    type V = StatsModel;

    open spec fn view(&self) -> StatsModel {
        StatsModel {
            total_opens: self.total_opens,
            total_clicks: self.total_clicks,
            unique_opens: self.unique_opens,
            unique_clicks: self.unique_clicks,
            recent_events: views_of_events(self.recent_events@),
        }
    }
}

/// The event type of an open event.
pub open spec fn open_label() -> Seq<char> {
    "open"@
}

/// The event type of a click event.
pub open spec fn click_label() -> Seq<char> {
    "click"@
}

/// Models of a sequence of event rows.
pub open spec fn views_of_events(s: Seq<Event>) -> Seq<EventModel> {
    s.map_values(|e: Event| e@)
}

/// The predicate selecting events owned by tenant `t` (through the email
/// join): exactly the events whose email id resolves under `t`.
pub open spec fn owned_pred(m: DbModel, t: Seq<char>) -> spec_fn(EventModel) -> bool {
    |e: EventModel| has_email(m, e.email_id, t)
}

/// The tenant's slice of the event log, in insertion order: every event
/// whose email belongs to tenant `t`.
pub open spec fn tenant_events(m: DbModel, t: Seq<char>) -> Seq<EventModel> {
    m.events.filter(owned_pred(m, t))
}

/// The predicate selecting events of type `ty`.
pub open spec fn type_pred(ty: Seq<char>) -> spec_fn(EventModel) -> bool {
    |e: EventModel| e.event_type == ty
}

/// The email id of an event.
pub open spec fn email_id_of() -> spec_fn(EventModel) -> i64 {
    |e: EventModel| e.email_id
}

/// The events of `s` whose type is `ty`, in order.
pub open spec fn of_type(s: Seq<EventModel>, ty: Seq<char>) -> Seq<EventModel> {
    s.filter(type_pred(ty))
}

/// How many events of `s` have type `ty`.
pub open spec fn type_count(s: Seq<EventModel>, ty: Seq<char>) -> int {
    of_type(s, ty).len() as int
}

/// The set of distinct emails with at least one event of type `ty` in `s`.
pub open spec fn emails_of_type(s: Seq<EventModel>, ty: Seq<char>) -> Set<i64> {
    of_type(s, ty).map_values(email_id_of()).to_set()
}

/// How many distinct emails have at least one event of type `ty` in `s`.
pub open spec fn distinct_email_count(s: Seq<EventModel>, ty: Seq<char>) -> int {
    emails_of_type(s, ty).len() as int
}

/// Strict recency order: `a` was observed after `b`, with ties on the
/// timestamp broken by insertion order (the later-assigned id is the more
/// recent event).
pub open spec fn more_recent(a: EventModel, b: EventModel) -> bool {
    a.timestamp > b.timestamp || (a.timestamp == b.timestamp && a.id > b.id)
}

/// Non-strict recency order.
pub open spec fn at_least_as_recent(a: EventModel, b: EventModel) -> bool {
    a.timestamp > b.timestamp || (a.timestamp == b.timestamp && a.id >= b.id)
}

/// What `get_tenant_stats` promises about its result `st` for tenant `t`:
/// the four counters aggregate the tenant's slice of the event log, and the
/// recent feed holds its most recent events — at most fifty, strictly most
/// recent first, all drawn from the tenant's events, and dominating every
/// tenant event left out.
pub open spec fn stats_match(m: DbModel, t: Seq<char>, st: StatsModel) -> bool {
    let s = tenant_events(m, t);
    let r = st.recent_events;
    &&& st.total_opens == type_count(s, open_label())
    &&& st.total_clicks == type_count(s, click_label())
    &&& st.unique_opens == distinct_email_count(s, open_label())
    &&& st.unique_clicks == distinct_email_count(s, click_label())
    &&& r.len() == if s.len() < (RECENT_EVENTS_CAP as int) {
        s.len() as int
    } else {
        RECENT_EVENTS_CAP as int
    }
    &&& forall|a: int, b: int|
        #![trigger r[a], r[b]]
        0 <= a < b < r.len() ==> more_recent(r[a], r[b])
    &&& forall|k: int| #![trigger r[k]] 0 <= k < r.len() ==> s.contains(r[k])
    &&& forall|i: int|
        #![trigger s[i]]
        0 <= i < s.len() && !r.contains(s[i]) ==> forall|k: int|
            #![trigger r[k]]
            0 <= k < r.len() ==> more_recent(r[k], s[i])
}

/// Filtering preserves pairwise distinctness of event ids.
proof fn lemma_filter_distinct_ids(s: Seq<EventModel>, pred: spec_fn(EventModel) -> bool)
    requires
        forall|i: int, j: int|
            #![trigger s[i], s[j]]
            0 <= i < j < s.len() ==> s[i].id != s[j].id,
    ensures
        forall|i: int, j: int|
            #![trigger s.filter(pred)[i], s.filter(pred)[j]]
            0 <= i < j < s.filter(pred).len() ==> s.filter(pred)[i].id != s.filter(pred)[j].id,
    decreases s.len(),
{
    broadcast use vstd::seq_lib::group_filter_ensures;
    broadcast use Seq::lemma_filter_contains_rev;

    reveal(Seq::filter);
    if s.len() > 0 {
        let dl = s.drop_last();
        lemma_filter_distinct_ids(dl, pred);
        let f = s.filter(pred);
        let fdl = dl.filter(pred);
        if pred(s.last()) {
            assert(f == fdl.push(s.last()));
            assert forall|i: int, j: int|
                0 <= i < j < f.len() implies #[trigger] f[i].id != #[trigger] f[j].id by {
                if j < f.len() - 1 {
                    assert(f[i] == fdl[i] && f[j] == fdl[j]);
                } else {
                    assert(f[j] == s.last());
                    assert(f[i] == fdl[i]);
                    assert(fdl.contains(fdl[i]));
                    assert(dl.contains(fdl[i]));
                    let w = choose|w: int| 0 <= w < dl.len() && dl[w] == fdl[i];
                    assert(s[w] == fdl[i] && s[s.len() - 1] == s.last());
                    assert(s[w].id != s.last().id);
                }
            }
        } else {
            assert(f == fdl);
        }
    }
}

/// A field-for-field copy of an event row with the same model.
fn clone_event(e: &Event) -> (r: Event)
    ensures
        r@ == e@,
{
    Event {
        id: e.id,
        email_id: e.email_id,
        event_type: e.event_type.clone(),
        timestamp: e.timestamp,
        user_agent: match &e.user_agent {
            Some(s) => Some(s.clone()),
            None => None,
        },
        ip_address: match &e.ip_address {
            Some(s) => Some(s.clone()),
            None => None,
        },
    }
}

/// The id of an email row.
pub open spec fn email_id_key() -> spec_fn(EmailModel) -> i64 {
    |e: EmailModel| e.id
}

/// The id of an event row.
pub open spec fn event_id_key() -> spec_fn(EventModel) -> i64 {
    |e: EventModel| e.id
}

/// A field-for-field copy of a tenant row with the same model.
fn clone_tenant(t: &Tenant) -> (r: Tenant)
    ensures
        r@ == t@,
{
    Tenant { id: t.id.clone(), name: t.name.clone(), created_at: t.created_at }
}

/// A field-for-field copy of an email row with the same model.
fn clone_email(e: &Email) -> (r: Email)
    ensures
        r@ == e@,
{
    Email {
        id: e.id,
        tenant_id: e.tenant_id.clone(),
        subject: match &e.subject {
            Some(s) => Some(s.clone()),
            None => None,
        },
        recipient: match &e.recipient {
            Some(s) => Some(s.clone()),
            None => None,
        },
        created_at: e.created_at,
    }
}

/// Whether some row of `v` already carries tenant id `id`.
fn tenants_contain_id(v: &Vec<Tenant>, id: &String) -> (b: bool)
    ensures
        b == exists|j: int| 0 <= j < v@.len() && (#[trigger] v@[j])@.id == id@,
{
    let n = v.len();
    for i in 0..n
        invariant
            n == v@.len(),
            forall|k: int| 0 <= k < i ==> (#[trigger] v@[k])@.id != id@,
    {
        if v[i].id == *id {
            return true;
        }
    }
    false
}

/// Whether some row of `v` already carries email id `id`.
fn emails_contain_id(v: &Vec<Email>, id: i64) -> (b: bool)
    ensures
        b == exists|j: int| 0 <= j < v@.len() && (#[trigger] v@[j])@.id == id,
{
    let n = v.len();
    for i in 0..n
        invariant
            n == v@.len(),
            forall|k: int| 0 <= k < i ==> (#[trigger] v@[k])@.id != id,
    {
        if v[i].id == id {
            return true;
        }
    }
    false
}

/// Whether some row of `v` already carries event id `id`.
fn events_contain_id(v: &Vec<Event>, id: i64) -> (b: bool)
    ensures
        b == exists|j: int| 0 <= j < v@.len() && (#[trigger] v@[j])@.id == id,
{
    let n = v.len();
    for i in 0..n
        invariant
            n == v@.len(),
            forall|k: int| 0 <= k < i ==> (#[trigger] v@[k])@.id != id,
    {
        if v[i].id == id {
            return true;
        }
    }
    false
}

/// Linear membership test on a list of ids.
fn contains_id(v: &Vec<i64>, x: i64) -> (b: bool)
    ensures
        b == v@.contains(x),
{
    let n = v.len();
    for i in 0..n
        invariant
            n == v@.len(),
            forall|k: int| 0 <= k < i ==> v@[k] != x,
    {
        if v[i] == x {
            return true;
        }
    }
    false
}

/// Insertion sort of event rows into non-strict recency order, most recent
/// first; the result is a permutation of the input.
fn sort_events_desc(v: Vec<Event>) -> (r: Vec<Event>)
    ensures
        views_of_events(r@).to_multiset() == views_of_events(v@).to_multiset(),
        forall|a: int, b: int|
            #![trigger views_of_events(r@)[a], views_of_events(r@)[b]]
            0 <= a < b < r@.len() ==> at_least_as_recent(
                views_of_events(r@)[a],
                views_of_events(r@)[b],
            ),
{
    let mut out: Vec<Event> = Vec::new();
    let n = v.len();
    proof {
        assert(views_of_events(out@) =~= Seq::<EventModel>::empty());
        assert(views_of_events(v@.take(0)) =~= Seq::<EventModel>::empty());
        assert(views_of_events(out@).to_multiset() =~= views_of_events(
            v@.take(0),
        ).to_multiset());
    }
    for i in 0..n
        invariant
            n == v@.len(),
            views_of_events(out@).to_multiset() == views_of_events(v@.take(i as int)).to_multiset(),
            forall|a: int, b: int|
                #![trigger views_of_events(out@)[a], views_of_events(out@)[b]]
                0 <= a < b < out@.len() ==> at_least_as_recent(
                    views_of_events(out@)[a],
                    views_of_events(out@)[b],
                ),
    {
        let e = clone_event(&v[i]);
        let ghost evm = e@;
        let mut j: usize = 0;
        while j < out.len() && (out[j].timestamp > e.timestamp || (out[j].timestamp == e.timestamp
            && out[j].id > e.id))
            invariant
                j <= out.len(),
                evm == e@,
                forall|k: int|
                    #![trigger views_of_events(out@)[k]]
                    0 <= k < j ==> more_recent(views_of_events(out@)[k], evm),
            decreases out.len() - j,
        {
            proof {
                assert(views_of_events(out@)[j as int] == out@[j as int]@);
            }
            j += 1;
        }
        let ghost out_before = out@;
        out.insert(j, e);
        proof {
            let vo = views_of_events(out_before);
            let vn = views_of_events(out@);
            assert(j < out_before.len() ==> !more_recent(vo[j as int], evm)) by {
                if j < out_before.len() {
                    assert(views_of_events(out_before)[j as int] == out_before[j as int]@);
                }
            }
            assert(vn =~= vo.insert(j as int, evm));
            vstd::seq_lib::to_multiset_insert(vo, j as int, evm);
            assert(v@.take(i + 1) =~= v@.take(i as int).push(v@[i as int]));
            assert(views_of_events(v@.take(i as int).push(v@[i as int])) =~= views_of_events(
                v@.take(i as int),
            ).push(evm));
            vstd::seq_lib::to_multiset_build(views_of_events(v@.take(i as int)), evm);
            assert(vn.to_multiset() =~= views_of_events(v@.take(i + 1)).to_multiset());
            assert forall|a: int, b: int| 0 <= a < b < vn.len() implies at_least_as_recent(
                #[trigger] vn[a],
                #[trigger] vn[b],
            ) by {
                if b < j {
                    assert(vn[a] == vo[a] && vn[b] == vo[b]);
                } else if a < j && b == j {
                    assert(vn[a] == vo[a] && vn[b] == evm);
                } else if a < j && b > j {
                    assert(vn[a] == vo[a] && vn[b] == vo[b - 1]);
                } else if a == j && b > j {
                    assert(vn[a] == evm && vn[b] == vo[b - 1]);
                    assert(!more_recent(vo[j as int], evm));
                    assert(at_least_as_recent(vo[j as int], vo[b - 1]) || j as int == b - 1);
                } else {
                    assert(vn[a] == vo[a - 1] && vn[b] == vo[b - 1]);
                }
            }
        }
    }
    proof {
        assert(v@.take(n as int) =~= v@);
    }
    out
}

/// The tracking store. All reads and writes go through the methods below;
/// each call is one atomic unit, serialized by whoever owns the value.
pub struct Database {
    tenants: Vec<Tenant>,
    emails: Vec<Email>,
    events: Vec<Event>,
    next_email_id: i64,
    next_event_id: i64,
}

impl View for Database {
    type V = DbModel;

    closed spec fn view(&self) -> DbModel {
        DbModel {
            tenants: views_of_tenants(self.tenants@),
            emails: views_of_emails(self.emails@),
            events: views_of_events(self.events@),
            next_email_id: self.next_email_id,
            next_event_id: self.next_event_id,
        }
    }
}

impl Database {
    /// Well-formedness, lifted from the model.
    pub open spec fn wf(&self) -> bool {
        self@.wf()
    }

    /// An empty store: no tenants, no emails, no events, both counters at 1.
    pub fn new() -> (d: Database)
        ensures
            d.wf(),
            d@.tenants == Seq::<TenantModel>::empty(),
            d@.emails == Seq::<EmailModel>::empty(),
            d@.events == Seq::<EventModel>::empty(),
            d@.next_email_id == 1,
            d@.next_event_id == 1,
    {
        let d = Database {
            tenants: Vec::new(),
            emails: Vec::new(),
            events: Vec::new(),
            next_email_id: 1,
            next_event_id: 1,
        };
        proof {
            assert(d@.tenants =~= Seq::<TenantModel>::empty());
            assert(d@.emails =~= Seq::<EmailModel>::empty());
            assert(d@.events =~= Seq::<EventModel>::empty());
        }
        d
    }

    /// Insert-if-absent registration of a tenant: never overwrites an
    /// existing row, never errors on a duplicate id.
    pub fn create_tenant(&mut self, tenant_id: &str, name: &str, now_ms: i64) -> (r: Result<
        (),
        AppError,
    >)
        requires
            old(self).wf(),
        ensures
            final(self).wf(),
            final(self)@ == upsert_tenant(old(self)@, tenant_id@, name@, now_ms),
            r is Ok,
    {
        let tid: String = tenant_id.to_owned();
        let n = self.tenants.len();
        for i in 0..n
            invariant
                n == self.tenants.len(),
                tid@ == tenant_id@,
                *self == *old(self),
                old(self).wf(),
                forall|k: int| 0 <= k < i ==> self@.tenants[k].id != tenant_id@,
        {
            if self.tenants[i].id == tid {
                proof {
                    assert(self@.tenants[i as int].id == tenant_id@);
                    assert(has_tenant(self@, tenant_id@));
                }
                return Ok(());
            }
        }
        proof {
            assert(!has_tenant(self@, tenant_id@));
        }
        let row = Tenant { id: tid, name: name.to_owned(), created_at: now_ms };
        let ghost before = self@;
        self.tenants.push(row);
        proof {
            assert(final(self)@.tenants =~= before.tenants.push(
                TenantModel { id: tenant_id@, name: name@, created_at: now_ms },
            ));
            assert(final(self)@ == upsert_tenant(before, tenant_id@, name@, now_ms));
        }
        Ok(())
    }

    /// Point lookup of a tenant by primary key. Absence is a normal result,
    /// not an error.
    pub fn get_tenant(&self, tenant_id: &str) -> (r: Result<Option<Tenant>, AppError>)
        requires
            self.wf(),
        ensures
            match r {
                Ok(Some(t)) => self@.tenants.contains(t@) && t@.id == tenant_id@ && has_tenant(
                    self@,
                    tenant_id@,
                ),
                Ok(None) => !has_tenant(self@, tenant_id@),
                Err(_) => false,
            },
    {
        let tid: String = tenant_id.to_owned();
        let n = self.tenants.len();
        for i in 0..n
            invariant
                n == self.tenants.len(),
                tid@ == tenant_id@,
                forall|k: int| 0 <= k < i ==> self@.tenants[k].id != tenant_id@,
        {
            let t = &self.tenants[i];
            if t.id == tid {
                let found = Tenant {
                    id: t.id.clone(),
                    name: t.name.clone(),
                    created_at: t.created_at,
                };
                proof {
                    assert(self@.tenants[i as int] == found@);
                    assert(self@.tenants.contains(found@));
                }
                return Ok(Some(found));
            }
        }
        Ok(None)
    }

    /// Create one email record under `tenant_id`, assigning the next
    /// available id. Always inserts; tenant existence is not validated here
    /// (callers upsert the tenant first when they need that guarantee).
    /// Fails only when the id counter is exhausted, the store's analogue of
    /// a full table.
    pub fn create_email(
        &mut self,
        tenant_id: &str,
        subject: Option<&str>,
        recipient: Option<&str>,
        now_ms: i64,
    ) -> (r: Result<i64, AppError>)
        requires
            old(self).wf(),
        ensures
            final(self).wf(),
            old(self)@.next_email_id < i64::MAX ==> {
                &&& r matches Ok(id)
                &&& id == old(self)@.next_email_id
                &&& final(self)@ == add_email(
                    old(self)@,
                    tenant_id@,
                    opt_str_view(subject),
                    opt_str_view(recipient),
                    now_ms,
                )
            },
            old(self)@.next_email_id == i64::MAX ==> {
                &&& r matches Err(e)
                &&& e matches AppError::Database(_)
                &&& final(self)@ == old(self)@
            },
    {
        if self.next_email_id == i64::MAX {
            return Err(AppError::Database("email id space exhausted".to_owned()));
        }
        let id = self.next_email_id;
        let row = Email {
            id,
            tenant_id: tenant_id.to_owned(),
            subject: match subject {
                Some(s) => Some(s.to_owned()),
                None => None,
            },
            recipient: match recipient {
                Some(s) => Some(s.to_owned()),
                None => None,
            },
            created_at: now_ms,
        };
        let ghost before = self@;
        let ghost rowm = row@;
        self.emails.push(row);
        self.next_email_id = id + 1;
        proof {
            assert(final(self)@.emails =~= before.emails.push(rowm));
            assert(final(self)@ == add_email(
                before,
                tenant_id@,
                opt_str_view(subject),
                opt_str_view(recipient),
                now_ms,
            ));
        }
        Ok(id)
    }

    /// Tenant-scoped email lookup: the result is present only when both the
    /// email id and the owning tenant id match. An email that exists under a
    /// different tenant resolves to `None`, never to the record.
    pub fn get_email(&self, email_id: i64, tenant_id: &str) -> (r: Result<Option<Email>, AppError>)
        requires
            self.wf(),
        ensures
            match r {
                Ok(Some(e)) => self@.emails.contains(e@) && e@.id == email_id && e@.tenant_id
                    == tenant_id@ && has_email(self@, email_id, tenant_id@),
                Ok(None) => !has_email(self@, email_id, tenant_id@),
                Err(_) => false,
            },
    {
        let tid: String = tenant_id.to_owned();
        let n = self.emails.len();
        for i in 0..n
            invariant
                n == self.emails.len(),
                tid@ == tenant_id@,
                forall|k: int|
                    0 <= k < i ==> !(self@.emails[k].id == email_id && self@.emails[k].tenant_id
                        == tenant_id@),
        {
            let e = &self.emails[i];
            if e.id == email_id && e.tenant_id == tid {
                let found = Email {
                    id: e.id,
                    tenant_id: e.tenant_id.clone(),
                    subject: match &e.subject {
                        Some(s) => Some(s.clone()),
                        None => None,
                    },
                    recipient: match &e.recipient {
                        Some(s) => Some(s.clone()),
                        None => None,
                    },
                    created_at: e.created_at,
                };
                proof {
                    assert(self@.emails[i as int] == found@);
                    assert(self@.emails.contains(found@));
                }
                return Ok(Some(found));
            }
        }
        Ok(None)
    }

    /// Append one immutable engagement event with the next available id.
    /// Deliberately does not verify that the email exists or is owned by any
    /// tenant: the tracking operations perform the ownership check first and
    /// this append trusts its caller's prior check. Fails only when the id
    /// counter is exhausted.
    pub fn log_event(
        &mut self,
        email_id: i64,
        event_type: &str,
        user_agent: Option<&str>,
        ip_address: Option<&str>,
        now_ms: i64,
    ) -> (r: Result<(), AppError>)
        requires
            old(self).wf(),
        ensures
            final(self).wf(),
            old(self)@.next_event_id < i64::MAX ==> {
                &&& r is Ok
                &&& final(self)@ == add_event(
                    old(self)@,
                    email_id,
                    event_type@,
                    opt_str_view(user_agent),
                    opt_str_view(ip_address),
                    now_ms,
                )
            },
            old(self)@.next_event_id == i64::MAX ==> {
                &&& r matches Err(e)
                &&& e matches AppError::Database(_)
                &&& final(self)@ == old(self)@
            },
    {
        if self.next_event_id == i64::MAX {
            return Err(AppError::Database("event id space exhausted".to_owned()));
        }
        let id = self.next_event_id;
        let row = Event {
            id,
            email_id,
            event_type: event_type.to_owned(),
            timestamp: now_ms,
            user_agent: match user_agent {
                Some(s) => Some(s.to_owned()),
                None => None,
            },
            ip_address: match ip_address {
                Some(s) => Some(s.to_owned()),
                None => None,
            },
        };
        let ghost before = self@;
        let ghost rowm = row@;
        self.events.push(row);
        self.next_event_id = id + 1;
        proof {
            assert(final(self)@.events =~= before.events.push(rowm));
            assert(final(self)@ == add_event(
                before,
                email_id,
                event_type@,
                opt_str_view(user_agent),
                opt_str_view(ip_address),
                now_ms,
            ));
        }
        Ok(())
    }

    /// Rebuild a store from previously persisted rows, restoring every
    /// invariant: for each relation the first row of an id is kept and later
    /// rows with a taken id are dropped, email and event rows with an id
    /// outside `1..i64::MAX` are dropped, and each id counter resumes above
    /// every kept id.
    pub fn from_rows(tenants: Vec<Tenant>, emails: Vec<Email>, events: Vec<Event>) -> (d: Database)
        ensures
            d.wf(),
            d@.tenants == keep_tenants(views_of_tenants(tenants@)),
            d@.emails == keep_emails(views_of_emails(emails@)),
            d@.events == keep_events(views_of_events(events@)),
            d@.next_email_id == next_email_above(keep_emails(views_of_emails(emails@))),
            d@.next_event_id == next_event_above(keep_events(views_of_events(events@))),
    {
        let mut kt: Vec<Tenant> = Vec::new();
        let n1 = tenants.len();
        proof {
            assert(views_of_tenants(tenants@.take(0)) =~= Seq::<TenantModel>::empty());
            assert(views_of_tenants(kt@) =~= keep_tenants(views_of_tenants(tenants@.take(0))));
        }
        for i in 0..n1
            invariant
                n1 == tenants@.len(),
                views_of_tenants(kt@) == keep_tenants(views_of_tenants(tenants@.take(i as int))),
                forall|a: int, b: int|
                    #![trigger kt@[a], kt@[b]]
                    0 <= a < b < kt@.len() ==> kt@[a]@.id != kt@[b]@.id,
        {
            let t = &tenants[i];
            let ghost prev = views_of_tenants(tenants@.take(i as int));
            let ghost pre = keep_tenants(prev);
            proof {
                assert(views_of_tenants(tenants@.take(i + 1)) =~= prev.push(t@));
                assert(views_of_tenants(tenants@.take(i + 1)).drop_last() =~= prev);
                assert(views_of_tenants(tenants@.take(i + 1)).last() == t@);
            }
            let dup = tenants_contain_id(&kt, &t.id);
            proof {
                if dup {
                    let j = choose|j: int| 0 <= j < kt@.len() && kt@[j]@.id == t.id@;
                    assert(pre[j] == kt@[j]@);
                    assert(0 <= j < pre.len() && pre[j].id == t@.id);
                    assert(keep_tenants(views_of_tenants(tenants@.take(i + 1))) == pre);
                } else {
                    assert forall|j: int| 0 <= j < pre.len() implies #[trigger] pre[j].id
                        != t@.id by {
                        assert(pre[j] == kt@[j]@);
                    }
                    assert(keep_tenants(views_of_tenants(tenants@.take(i + 1))) == pre.push(t@));
                }
            }
            if !dup {
                kt.push(clone_tenant(t));
                proof {
                    assert(views_of_tenants(kt@) =~= pre.push(t@));
                }
            }
        }
        proof {
            assert(tenants@.take(n1 as int) =~= tenants@);
        }
        let mut ke: Vec<Email> = Vec::new();
        let mut next_email: i64 = 1;
        let n2 = emails.len();
        proof {
            assert(views_of_emails(emails@.take(0)) =~= Seq::<EmailModel>::empty());
            assert(views_of_emails(ke@) =~= keep_emails(views_of_emails(emails@.take(0))));
        }
        for i in 0..n2
            invariant
                n2 == emails@.len(),
                views_of_emails(ke@) == keep_emails(views_of_emails(emails@.take(i as int))),
                next_email == next_email_above(keep_emails(views_of_emails(emails@.take(i as int)))),
                1 <= next_email <= i64::MAX,
                forall|a: int, b: int|
                    #![trigger ke@[a], ke@[b]]
                    0 <= a < b < ke@.len() ==> ke@[a]@.id != ke@[b]@.id,
                forall|a: int| 0 <= a < ke@.len() ==> 1 <= (#[trigger] ke@[a])@.id < next_email,
        {
            let e = &emails[i];
            let ghost prev = views_of_emails(emails@.take(i as int));
            let ghost pre = keep_emails(prev);
            proof {
                assert(views_of_emails(emails@.take(i + 1)) =~= prev.push(e@));
                assert(views_of_emails(emails@.take(i + 1)).drop_last() =~= prev);
                assert(views_of_emails(emails@.take(i + 1)).last() == e@);
            }
            if 1 <= e.id && e.id < i64::MAX {
                let dup = emails_contain_id(&ke, e.id);
                proof {
                    if dup {
                        let j = choose|j: int| 0 <= j < ke@.len() && ke@[j]@.id == e.id;
                        assert(pre[j] == ke@[j]@);
                        assert(0 <= j < pre.len() && pre[j].id == e@.id);
                        assert(keep_emails(views_of_emails(emails@.take(i + 1))) == pre);
                        assert(next_email_above(keep_emails(views_of_emails(emails@.take(i + 1))))
                            == next_email);
                    } else {
                        assert forall|j: int| 0 <= j < pre.len() implies #[trigger] pre[j].id
                            != e@.id by {
                            assert(pre[j] == ke@[j]@);
                        }
                        assert(keep_emails(views_of_emails(emails@.take(i + 1))) == pre.push(e@));
                        assert(pre.push(e@).drop_last() =~= pre);
                        assert(next_email_above(pre.push(e@)) == if e@.id + 1 > next_email {
                            (e@.id + 1) as i64
                        } else {
                            next_email
                        });
                    }
                }
                if !dup {
                    ke.push(clone_email(e));
                    if e.id >= next_email {
                        next_email = e.id + 1;
                    }
                    proof {
                        assert(views_of_emails(ke@) =~= pre.push(e@));
                    }
                }
            } else {
                proof {
                    assert(keep_emails(views_of_emails(emails@.take(i + 1))) == pre);
                }
            }
        }
        proof {
            assert(emails@.take(n2 as int) =~= emails@);
        }
        let mut kv: Vec<Event> = Vec::new();
        let mut next_event: i64 = 1;
        let n3 = events.len();
        proof {
            assert(views_of_events(events@.take(0)) =~= Seq::<EventModel>::empty());
            assert(views_of_events(kv@) =~= keep_events(views_of_events(events@.take(0))));
        }
        for i in 0..n3
            invariant
                n3 == events@.len(),
                views_of_events(kv@) == keep_events(views_of_events(events@.take(i as int))),
                next_event == next_event_above(keep_events(views_of_events(events@.take(i as int)))),
                1 <= next_event <= i64::MAX,
                forall|a: int, b: int|
                    #![trigger kv@[a], kv@[b]]
                    0 <= a < b < kv@.len() ==> kv@[a]@.id != kv@[b]@.id,
                forall|a: int| 0 <= a < kv@.len() ==> 1 <= (#[trigger] kv@[a])@.id < next_event,
        {
            let e = &events[i];
            let ghost prev = views_of_events(events@.take(i as int));
            let ghost pre = keep_events(prev);
            proof {
                assert(views_of_events(events@.take(i + 1)) =~= prev.push(e@));
                assert(views_of_events(events@.take(i + 1)).drop_last() =~= prev);
                assert(views_of_events(events@.take(i + 1)).last() == e@);
            }
            if 1 <= e.id && e.id < i64::MAX {
                let dup = events_contain_id(&kv, e.id);
                proof {
                    if dup {
                        let j = choose|j: int| 0 <= j < kv@.len() && kv@[j]@.id == e.id;
                        assert(pre[j] == kv@[j]@);
                        assert(0 <= j < pre.len() && pre[j].id == e@.id);
                        assert(keep_events(views_of_events(events@.take(i + 1))) == pre);
                        assert(next_event_above(keep_events(views_of_events(events@.take(i + 1))))
                            == next_event);
                    } else {
                        assert forall|j: int| 0 <= j < pre.len() implies #[trigger] pre[j].id
                            != e@.id by {
                            assert(pre[j] == kv@[j]@);
                        }
                        assert(keep_events(views_of_events(events@.take(i + 1))) == pre.push(e@));
                        assert(pre.push(e@).drop_last() =~= pre);
                        assert(next_event_above(pre.push(e@)) == if e@.id + 1 > next_event {
                            (e@.id + 1) as i64
                        } else {
                            next_event
                        });
                    }
                }
                if !dup {
                    kv.push(clone_event(e));
                    if e.id >= next_event {
                        next_event = e.id + 1;
                    }
                    proof {
                        assert(views_of_events(kv@) =~= pre.push(e@));
                    }
                }
            } else {
                proof {
                    assert(keep_events(views_of_events(events@.take(i + 1))) == pre);
                }
            }
        }
        proof {
            assert(events@.take(n3 as int) =~= events@);
            let email_ids = views_of_emails(ke@).map_values(email_id_key());
            assert forall|a: int, b: int|
                #![trigger email_ids[a], email_ids[b]]
                0 <= a < b < email_ids.len() implies email_ids[a] != email_ids[b] by {
                assert(ke@[a]@.id != ke@[b]@.id);
            }
            assert forall|a: int| #![trigger email_ids[a]] 0 <= a < email_ids.len() implies 1
                <= email_ids[a] as int by {
                assert(1 <= ke@[a]@.id);
            }
            assert forall|a: int| #![trigger email_ids[a]] 0 <= a < email_ids.len() implies
                (email_ids[a] as int) < next_email as int by {
                assert(ke@[a]@.id < next_email);
            }
            lemma_distinct_bounded_len(email_ids, next_email as int);
            let event_ids = views_of_events(kv@).map_values(event_id_key());
            assert forall|a: int, b: int|
                #![trigger event_ids[a], event_ids[b]]
                0 <= a < b < event_ids.len() implies event_ids[a] != event_ids[b] by {
                assert(kv@[a]@.id != kv@[b]@.id);
            }
            assert forall|a: int| #![trigger event_ids[a]] 0 <= a < event_ids.len() implies 1
                <= event_ids[a] as int by {
                assert(1 <= kv@[a]@.id);
            }
            assert forall|a: int| #![trigger event_ids[a]] 0 <= a < event_ids.len() implies
                (event_ids[a] as int) < next_event as int by {
                assert(kv@[a]@.id < next_event);
            }
            lemma_distinct_bounded_len(event_ids, next_event as int);
        }
        Database {
            tenants: kt,
            emails: ke,
            events: kv,
            next_email_id: next_email,
            next_event_id: next_event,
        }
    }

    /// A row-level snapshot of the whole store, the inverse companion of
    /// [`Database::from_rows`]: every tenant, email and event row, in
    /// insertion order, for a caller that persists them.
    pub fn to_rows(&self) -> (r: (Vec<Tenant>, Vec<Email>, Vec<Event>))
        ensures
            views_of_tenants(r.0@) == self@.tenants,
            views_of_emails(r.1@) == self@.emails,
            views_of_events(r.2@) == self@.events,
    {
        let mut ts: Vec<Tenant> = Vec::new();
        let n1 = self.tenants.len();
        for i in 0..n1
            invariant
                n1 == self.tenants@.len(),
                ts@.len() == i,
                forall|k: int| 0 <= k < i ==> (#[trigger] ts@[k])@ == self@.tenants[k],
        {
            ts.push(clone_tenant(&self.tenants[i]));
        }
        let mut es: Vec<Email> = Vec::new();
        let n2 = self.emails.len();
        for i in 0..n2
            invariant
                n2 == self.emails@.len(),
                es@.len() == i,
                forall|k: int| 0 <= k < i ==> (#[trigger] es@[k])@ == self@.emails[k],
        {
            es.push(clone_email(&self.emails[i]));
        }
        let mut vs: Vec<Event> = Vec::new();
        let n3 = self.events.len();
        for i in 0..n3
            invariant
                n3 == self.events@.len(),
                vs@.len() == i,
                forall|k: int| 0 <= k < i ==> (#[trigger] vs@[k])@ == self@.events[k],
        {
            vs.push(clone_event(&self.events[i]));
        }
        proof {
            assert(views_of_tenants(ts@) =~= self@.tenants);
            assert(views_of_emails(es@) =~= self@.emails);
            assert(views_of_events(vs@) =~= self@.events);
        }
        (ts, es, vs)
    }

    /// Whether some email row matches both `email_id` and the owner `tid`.
    fn owns_email(&self, email_id: i64, tid: &String) -> (b: bool)
        ensures
            b == has_email(self@, email_id, tid@),
    {
        let n = self.emails.len();
        for i in 0..n
            invariant
                n == self.emails.len(),
                forall|k: int|
                    0 <= k < i ==> !(self@.emails[k].id == email_id && self@.emails[k].tenant_id
                        == tid@),
        {
            let e = &self.emails[i];
            if e.id == email_id && e.tenant_id == *tid {
                proof {
                    assert(self@.emails[i as int].id == email_id && self@.emails[i as int].tenant_id
                        == tid@);
                }
                return true;
            }
        }
        false
    }

    /// Compute the tenant's statistics from the event log: total and
    /// distinct-by-email counts for opens and clicks, and the most recent
    /// events, most recent first, capped at [`RECENT_EVENTS_CAP`]. A tenant
    /// with no emails or events gets all-zero counts and an empty feed;
    /// absence is not an error here.
    pub fn get_tenant_stats(&self, tenant_id: &str) -> (r: Result<EventStats, AppError>)
        requires
            self.wf(),
        ensures
            r matches Ok(st) && stats_match(self@, tenant_id@, st@),
    {
        let ghost m = self@;
        let ghost t = tenant_id@;
        let tid: String = tenant_id.to_owned();
        let open_s: String = "open".to_owned();
        let click_s: String = "click".to_owned();
        let mut owned: Vec<Event> = Vec::new();
        let mut total_opens: i64 = 0;
        let mut total_clicks: i64 = 0;
        let mut unique_opens: i64 = 0;
        let mut unique_clicks: i64 = 0;
        let mut seen_open: Vec<i64> = Vec::new();
        let mut seen_click: Vec<i64> = Vec::new();
        let n = self.events.len();
        proof {
            reveal(Seq::filter);
            assert(views_of_events(owned@) =~= Seq::<EventModel>::empty());
            assert(m.events.take(0) =~= Seq::<EventModel>::empty());
            assert(views_of_events(owned@) =~= m.events.take(0).filter(owned_pred(m, t)));
            assert(of_type(views_of_events(owned@), open_label()) =~= Seq::<EventModel>::empty());
            assert(of_type(views_of_events(owned@), click_label()) =~= Seq::<EventModel>::empty());
            assert(seen_open@.to_set() =~= emails_of_type(views_of_events(owned@), open_label()));
            assert(seen_click@.to_set() =~= emails_of_type(views_of_events(owned@), click_label()));
        }
        for idx in 0..n
            invariant
                self.wf(),
                m == self@,
                t == tid@,
                open_s@ == open_label(),
                click_s@ == click_label(),
                n == self.events.len(),
                n == m.events.len(),
                views_of_events(owned@) == m.events.take(idx as int).filter(owned_pred(m, t)),
                total_opens == type_count(views_of_events(owned@), open_label()),
                total_clicks == type_count(views_of_events(owned@), click_label()),
                total_opens <= idx,
                total_clicks <= idx,
                seen_open@.no_duplicates(),
                seen_click@.no_duplicates(),
                seen_open@.to_set() == emails_of_type(views_of_events(owned@), open_label()),
                seen_click@.to_set() == emails_of_type(views_of_events(owned@), click_label()),
                unique_opens == seen_open@.len(),
                unique_clicks == seen_click@.len(),
                seen_open@.len() <= total_opens,
                seen_click@.len() <= total_clicks,
        {
            let e = &self.events[idx];
            let ghost em = e@;
            let ghost fo_old = views_of_events(owned@);
            proof {
                assert(em == m.events[idx as int]);
                assert(m.events.take(idx + 1) =~= m.events.take(idx as int).push(em));
                m.events.take(idx as int).lemma_filter_push(em, owned_pred(m, t));
            }
            let owns = self.owns_email(e.email_id, &tid);
            if owns {
                proof {
                    assert(owned_pred(m, t)(em));
                }
                owned.push(clone_event(e));
                proof {
                    reveal_strlit("open");
                    reveal_strlit("click");
                    assert(views_of_events(owned@) =~= fo_old.push(em));
                    fo_old.lemma_filter_push(em, type_pred(open_label()));
                    fo_old.lemma_filter_push(em, type_pred(click_label()));
                }
                let is_open = e.event_type == open_s;
                let is_click = e.event_type == click_s;
                if is_open {
                    proof {
                        reveal_strlit("open");
                        reveal_strlit("click");
                        assert("open"@.len() == 4);
                        assert("click"@.len() == 5);
                        assert(open_label() != click_label());
                        assert(of_type(views_of_events(owned@), open_label()) == of_type(
                            fo_old,
                            open_label(),
                        ).push(em));
                        assert(of_type(views_of_events(owned@), click_label()) == of_type(
                            fo_old,
                            click_label(),
                        ));
                        assert(total_opens < i64::MAX);
                    }
                    total_opens = total_opens + 1;
                    let known = contains_id(&seen_open, e.email_id);
                    proof {
                        let mapped_old = of_type(fo_old, open_label()).map_values(email_id_of());
                        let mapped_new = of_type(
                            views_of_events(owned@),
                            open_label(),
                        ).map_values(email_id_of());
                        assert(mapped_new =~= mapped_old.push(em.email_id));
                        mapped_old.lemma_push_to_set_commute(em.email_id);
                    }
                    if !known {
                        let ghost seen_before = seen_open@;
                        seen_open.push(e.email_id);
                        unique_opens = unique_opens + 1;
                        proof {
                            seen_before.lemma_push_to_set_commute(em.email_id);
                            assert forall|i1: int, j1: int|
                                0 <= i1 < j1 < seen_open@.len() implies seen_open@[i1]
                                != seen_open@[j1] by {
                                if j1 == seen_open@.len() - 1 {
                                    assert(seen_before.contains(seen_before[i1]));
                                }
                            }
                        }
                    } else {
                        proof {
                            assert(seen_open@.contains(em.email_id));
                            assert(seen_open@.to_set().contains(em.email_id));
                            assert(seen_open@.to_set() =~= seen_open@.to_set().insert(
                                em.email_id,
                            ));
                        }
                    }
                } else if is_click {
                    proof {
                        reveal_strlit("open");
                        reveal_strlit("click");
                        assert(of_type(views_of_events(owned@), click_label()) == of_type(
                            fo_old,
                            click_label(),
                        ).push(em));
                        assert(of_type(views_of_events(owned@), open_label()) == of_type(
                            fo_old,
                            open_label(),
                        ));
                        assert(total_clicks < i64::MAX);
                    }
                    total_clicks = total_clicks + 1;
                    let known = contains_id(&seen_click, e.email_id);
                    proof {
                        let mapped_old = of_type(fo_old, click_label()).map_values(email_id_of());
                        let mapped_new = of_type(
                            views_of_events(owned@),
                            click_label(),
                        ).map_values(email_id_of());
                        assert(mapped_new =~= mapped_old.push(em.email_id));
                        mapped_old.lemma_push_to_set_commute(em.email_id);
                    }
                    if !known {
                        let ghost seen_before = seen_click@;
                        seen_click.push(e.email_id);
                        unique_clicks = unique_clicks + 1;
                        proof {
                            seen_before.lemma_push_to_set_commute(em.email_id);
                            assert forall|i1: int, j1: int|
                                0 <= i1 < j1 < seen_click@.len() implies seen_click@[i1]
                                != seen_click@[j1] by {
                                if j1 == seen_click@.len() - 1 {
                                    assert(seen_before.contains(seen_before[i1]));
                                }
                            }
                        }
                    } else {
                        proof {
                            assert(seen_click@.contains(em.email_id));
                            assert(seen_click@.to_set().contains(em.email_id));
                            assert(seen_click@.to_set() =~= seen_click@.to_set().insert(
                                em.email_id,
                            ));
                        }
                    }
                } else {
                    proof {
                        assert(of_type(views_of_events(owned@), open_label()) =~= of_type(
                            fo_old,
                            open_label(),
                        ));
                        assert(of_type(views_of_events(owned@), click_label()) =~= of_type(
                            fo_old,
                            click_label(),
                        ));
                    }
                }
            } else {
                proof {
                    assert(!owned_pred(m, t)(em));
                    assert(views_of_events(owned@) == fo_old);
                }
            }
        }
        proof {
            assert(m.events.take(n as int) =~= m.events);
            seen_open@.unique_seq_to_set();
            seen_click@.unique_seq_to_set();
        }
        let ghost fo = views_of_events(owned@);
        proof {
            assert(fo == tenant_events(m, t));
        }
        let mut sorted = sort_events_desc(owned);
        let ghost vs_full = views_of_events(sorted@);
        sorted.truncate(RECENT_EVENTS_CAP);
        proof {
            if vs_full.len() <= RECENT_EVENTS_CAP as int {
                assert(views_of_events(sorted@) =~= vs_full);
            } else {
                assert(views_of_events(sorted@) =~= vs_full.subrange(
                    0,
                    RECENT_EVENTS_CAP as int,
                ));
            }
            lemma_feed_from_sorted(m, t, fo, vs_full, views_of_events(sorted@));
        }
        Ok(
            EventStats {
                total_opens,
                total_clicks,
                unique_opens,
                unique_clicks,
                recent_events: sorted,
            },
        )
    }
}

/// Models of a sequence of tenant rows.
pub open spec fn views_of_tenants(s: Seq<Tenant>) -> Seq<TenantModel> {
    s.map_values(|t: Tenant| t@)
}

/// Models of a sequence of email rows.
pub open spec fn views_of_emails(s: Seq<Email>) -> Seq<EmailModel> {
    s.map_values(|e: Email| e@)
}

/// Persisted tenant rows reduced to a well-formed relation: the first row
/// of each id is kept, later rows with a taken id are dropped.
pub open spec fn keep_tenants(s: Seq<TenantModel>) -> Seq<TenantModel>
    decreases s.len(),
{
    if s.len() == 0 {
        Seq::<TenantModel>::empty()
    } else {
        let pre = keep_tenants(s.drop_last());
        if exists|j: int| 0 <= j < pre.len() && pre[j].id == s.last().id {
            pre
        } else {
            pre.push(s.last())
        }
    }
}

/// Persisted email rows reduced to a well-formed relation: a row is kept
/// when its id is positive, below the counter ceiling, and not already
/// taken by an earlier kept row.
pub open spec fn keep_emails(s: Seq<EmailModel>) -> Seq<EmailModel>
    decreases s.len(),
{
    if s.len() == 0 {
        Seq::<EmailModel>::empty()
    } else {
        let pre = keep_emails(s.drop_last());
        let e = s.last();
        if 1 <= e.id && e.id < i64::MAX && !(exists|j: int|
            0 <= j < pre.len() && pre[j].id == e.id) {
            pre.push(e)
        } else {
            pre
        }
    }
}

/// Persisted event rows reduced to a well-formed relation, as for emails.
pub open spec fn keep_events(s: Seq<EventModel>) -> Seq<EventModel>
    decreases s.len(),
{
    if s.len() == 0 {
        Seq::<EventModel>::empty()
    } else {
        let pre = keep_events(s.drop_last());
        let e = s.last();
        if 1 <= e.id && e.id < i64::MAX && !(exists|j: int|
            0 <= j < pre.len() && pre[j].id == e.id) {
            pre.push(e)
        } else {
            pre
        }
    }
}

/// The counter value resuming above every kept email id.
pub open spec fn next_email_above(s: Seq<EmailModel>) -> i64
    decreases s.len(),
{
    if s.len() == 0 {
        1
    } else {
        let p = next_email_above(s.drop_last());
        if s.last().id + 1 > p {
            (s.last().id + 1) as i64
        } else {
            p
        }
    }
}

/// The counter value resuming above every kept event id.
pub open spec fn next_event_above(s: Seq<EventModel>) -> i64
    decreases s.len(),
{
    if s.len() == 0 {
        1
    } else {
        let p = next_event_above(s.drop_last());
        if s.last().id + 1 > p {
            (s.last().id + 1) as i64
        } else {
            p
        }
    }
}

/// A list of pairwise-distinct ids drawn from `1..bound` holds fewer than
/// `bound` entries.
proof fn lemma_distinct_bounded_len(ids: Seq<i64>, bound: int)
    requires
        bound >= 1,
        forall|i: int, j: int| #![trigger ids[i], ids[j]] 0 <= i < j < ids.len() ==> ids[i] != ids[j],
        forall|i: int| 0 <= i < ids.len() ==> 1 <= ((#[trigger] ids[i]) as int) && (ids[i] as int)
            < bound,
    ensures
        ids.len() < bound,
{
    let cast = |x: i64| x as int;
    let ids_int = ids.map_values(cast);
    assert forall|i: int, j: int|
        0 <= i < ids_int.len() && 0 <= j < ids_int.len() && i != j implies ids_int[i]
        != ids_int[j] by {
        if i < j {
            assert(ids[i] != ids[j]);
        } else {
            assert(ids[j] != ids[i]);
        }
    }
    assert(ids_int.no_duplicates());
    ids_int.unique_seq_to_set();
    vstd::seq_lib::seq_to_set_is_finite(ids_int);
    let range = vstd::set_lib::set_int_range(1, bound);
    vstd::set_lib::lemma_int_range(1, bound);
    assert forall|x: int| ids_int.to_set().contains(x) implies range.contains(x) by {
        let i = choose|i: int| 0 <= i < ids_int.len() && ids_int[i] == x;
        assert(1 <= (ids[i] as int) && (ids[i] as int) < bound);
    }
    vstd::set_lib::lemma_len_subset(ids_int.to_set(), range);
}

/// From a non-strictly sorted permutation `vs` of the tenant's event slice
/// `fo` (whose event ids are pairwise distinct), the truncated prefix `rv`
/// satisfies every recent-feed clause of [`stats_match`]: bounded length,
/// strict recency order, membership, and dominance over the events left out.
proof fn lemma_feed_from_sorted(
    m: DbModel,
    t: Seq<char>,
    fo: Seq<EventModel>,
    vs: Seq<EventModel>,
    rv: Seq<EventModel>,
)
    requires
        m.wf(),
        fo == tenant_events(m, t),
        vs.to_multiset() == fo.to_multiset(),
        forall|a: int, b: int| #![trigger vs[a], vs[b]] 0 <= a < b < vs.len() ==> at_least_as_recent(vs[a], vs[b]),
        rv == if vs.len() <= (RECENT_EVENTS_CAP as int) {
            vs
        } else {
            vs.subrange(0, RECENT_EVENTS_CAP as int)
        },
    ensures
        rv.len() == if fo.len() < (RECENT_EVENTS_CAP as int) {
            fo.len() as int
        } else {
            RECENT_EVENTS_CAP as int
        },
        forall|a: int, b: int| #![trigger rv[a], rv[b]] 0 <= a < b < rv.len() ==> more_recent(rv[a], rv[b]),
        forall|k: int| #![trigger rv[k]] 0 <= k < rv.len() ==> fo.contains(rv[k]),
        forall|i: int|
            #![trigger fo[i]]
            0 <= i < fo.len() && !rv.contains(fo[i]) ==> forall|k: int|
                #![trigger rv[k]]
                0 <= k < rv.len() ==> more_recent(rv[k], fo[i]),
{
    vstd::seq_lib::to_multiset_len(vs);
    vstd::seq_lib::to_multiset_len(fo);
    assert(vs.len() == fo.len());
    // The tenant slice inherits pairwise-distinct ids from the event log.
    lemma_filter_distinct_ids(m.events, owned_pred(m, t));
    assert(forall|i: int, j: int|
        #![trigger fo[i], fo[j]]
        0 <= i < j < fo.len() ==> fo[i].id != fo[j].id);
    assert forall|i: int, j: int|
        0 <= i < fo.len() && 0 <= j < fo.len() && i != j implies fo[i] != fo[j] by {
        if i < j {
            assert(fo[i].id != fo[j].id);
        } else {
            assert(fo[j].id != fo[i].id);
        }
    }
    fo.lemma_multiset_has_no_duplicates();
    vs.lemma_multiset_has_no_duplicates_conv();
    // Every sorted entry is a tenant event.
    assert forall|p: int| 0 <= p < vs.len() implies fo.contains(#[trigger] vs[p]) by {
        vstd::seq_lib::to_multiset_contains(vs, vs[p]);
        vstd::seq_lib::to_multiset_contains(fo, vs[p]);
        assert(vs.contains(vs[p]));
    }
    // Strict order over the whole sorted sequence.
    assert forall|a: int, b: int| 0 <= a < b < vs.len() implies more_recent(
        #[trigger] vs[a],
        #[trigger] vs[b],
    ) by {
        if vs[a].id == vs[b].id {
            let w1 = choose|w: int| 0 <= w < fo.len() && fo[w] == vs[a];
            let w2 = choose|w: int| 0 <= w < fo.len() && fo[w] == vs[b];
            if w1 != w2 {
                assert(fo[w1].id != fo[w2].id);
            }
            assert(vs[a] == vs[b]);
            assert(vs.no_duplicates());
        }
    }
    // Dominance of the kept prefix over everything dropped.
    assert forall|i: int|
        0 <= i < fo.len() && !rv.contains(#[trigger] fo[i]) implies forall|k: int|
        #![trigger rv[k]]
        0 <= k < rv.len() ==> more_recent(rv[k], fo[i]) by {
        vstd::seq_lib::to_multiset_contains(vs, fo[i]);
        vstd::seq_lib::to_multiset_contains(fo, fo[i]);
        assert(fo.contains(fo[i]));
        assert(vs.contains(fo[i]));
        let p = choose|p: int| 0 <= p < vs.len() && vs[p] == fo[i];
        assert(p >= rv.len()) by {
            if p < rv.len() {
                assert(rv[p] == fo[i]);
                assert(rv.contains(fo[i]));
            }
        }
        assert forall|k: int| 0 <= k < rv.len() implies more_recent(#[trigger] rv[k], fo[i]) by {
            assert(rv[k] == vs[k]);
            assert(more_recent(vs[k], vs[p]));
        }
    }
}

} // verus!
