//! The session: relevance filter for announced objects, the listeners'
//! effects on the object store, the completion barrier, and a driver that
//! folds an event sequence into the final store.

use vstd::prelude::*;

use crate::device::{device_from_info, device_of_info, Device, DeviceModel};
use crate::device::direction_of_class;
use crate::parse::str_eq;
use crate::pending::{insert_token, lemma_remove_token, remove_token, PendingSet};
use crate::props::{lookup, Props};
use crate::settings::{apply_update_spec, default_settings, Settings, SettingsModel};

verus! {

/// The id under which the session's own core answers completion events;
/// completions for other ids belong to foreign objects and are ignored.
pub const CORE_ID: u32 = 0;

/// The declared type of an announced remote object.
#[derive(Clone, Copy, Debug, PartialEq, Eq, Structural)]
pub enum ObjectKind {
    Node,
    Metadata,
    Other,
}

/// What the registry enumerator decides about one announcement.
#[derive(Clone, Copy, Debug, PartialEq, Eq, Structural)]
pub enum Relevance {
    Device,
    SettingsObject,
    Irrelevant,
}

/// One event delivered by the dispatch loop.
pub enum Event {
    /// A remote object is announced.
    Global { kind: ObjectKind, id: u32, props: Option<Props> },
    /// A barrier request was answered: `seq` is the echoed correlation token.
    Done { id: u32, seq: u64 },
    /// A bound device object's full info arrived.
    NodeInfo { id: u32, props: Option<Props> },
    /// The settings object reported one property change.
    MetaProperty { key: Option<String>, value: Option<String> },
}

/// Mathematical model of an [`Event`].
pub ghost enum EventModel {
    Global { kind: ObjectKind, id: u32, props: Option<Seq<(Seq<char>, Seq<char>)>> },
    Done { id: u32, seq: u64 },
    NodeInfo { id: u32, props: Option<Seq<(Seq<char>, Seq<char>)>> },
    MetaProperty { key: Option<Seq<char>>, value: Option<Seq<char>> },
}

impl View for Event {
    type V = EventModel;

    open spec fn view(&self) -> EventModel {
        match self {
            Event::Global { kind, id, props } => EventModel::Global {
                kind: *kind,
                id: *id,
                props: match props {
                    Some(p) => Some(p@),
                    None => None,
                },
            },
            Event::Done { id, seq } => EventModel::Done { id: *id, seq: *seq },
            Event::NodeInfo { id, props } => EventModel::NodeInfo {
                id: *id,
                props: match props {
                    Some(p) => Some(p@),
                    None => None,
                },
            },
            Event::MetaProperty { key, value } => EventModel::MetaProperty {
                key: match key {
                    Some(k) => Some(k@),
                    None => None,
                },
                value: match value {
                    Some(v) => Some(v@),
                    None => None,
                },
            },
        }
    }
}

/// View of an optional borrowed dictionary.
pub open spec fn props_ref_view(o: Option<&Props>) -> Option<Seq<(Seq<char>, Seq<char>)>> {
    match o {
        Some(p) => Some(p@),
        None => None,
    }
}

/// View of an optional borrowed string.
pub open spec fn opt_str_view(o: Option<&str>) -> Option<Seq<char>> {
    match o {
        Some(s) => Some(s@),
        None => None,
    }
}

/// Views of a whole event sequence.
pub open spec fn views_of(events: Seq<Event>) -> Seq<EventModel> {
    events.map_values(|e: Event| e@)
}

/// The relevance of one announcement: a node whose media class names a
/// direction is a device; a metadata object named `settings` is the settings
/// object; everything else is ignored.
pub open spec fn classify_spec(
    kind: ObjectKind,
    props: Option<Seq<(Seq<char>, Seq<char>)>>,
) -> Relevance {
    match kind {
        ObjectKind::Metadata => match props {
            Some(m) => if lookup(m, "metadata.name"@) == Some("settings"@) {
                Relevance::SettingsObject
            } else {
                Relevance::Irrelevant
            },
            None => Relevance::Irrelevant,
        },
        ObjectKind::Node => match props {
            Some(m) => match lookup(m, "media.class"@) {
                Some(c) => if direction_of_class(c) is Some {
                    Relevance::Device
                } else {
                    Relevance::Irrelevant
                },
                None => Relevance::Irrelevant,
            },
            None => Relevance::Irrelevant,
        },
        ObjectKind::Other => Relevance::Irrelevant,
    }
}

/// Decide the relevance of one announcement, exactly as [`classify_spec`]
/// states.
pub fn classify(kind: ObjectKind, props: Option<&Props>) -> (r: Relevance)
    ensures
        r == classify_spec(kind, props_ref_view(props)),
{
    match kind {
        ObjectKind::Metadata => {
            match props {
                Some(p) => match p.get("metadata.name") {
                    Some(name) => {
                        if str_eq(name.as_str(), "settings") {
                            Relevance::SettingsObject
                        } else {
                            Relevance::Irrelevant
                        }
                    },
                    None => Relevance::Irrelevant,
                },
                None => Relevance::Irrelevant,
            }
        },
        ObjectKind::Node => {
            match props {
                Some(p) => match p.get("media.class") {
                    Some(c) => {
                        match crate::device::class_direction(c.as_str()) {
                            Some(_d) => Relevance::Device,
                            None => Relevance::Irrelevant,
                        }
                    },
                    None => Relevance::Irrelevant,
                },
                None => Relevance::Irrelevant,
            }
        },
        ObjectKind::Other => Relevance::Irrelevant,
    }
}

/// Mathematical model of a [`Session`].
pub ghost struct SessionModel {
    pub pending: Seq<u64>,
    pub devices: Seq<DeviceModel>,
    pub settings: SettingsModel,
    pub subs: Seq<u32>,
    pub settings_bound: bool,
    pub stopped: bool,
}

/// The session: the barrier, the object store, and the retained
/// subscriptions, all mutated only by callbacks on the single dispatch
/// thread.
pub struct Session {
    /// Outstanding correlation tokens.
    pub pending: PendingSet,
    /// Resolved device entities, in arrival order of their info events.
    pub devices: Vec<Device>,
    /// The single mutable settings record.
    pub settings: Settings,
    /// Object ids of device objects whose handle and listener the session
    /// retains; dropping one would silently stop its event delivery.
    pub subs: Vec<u32>,
    /// Whether the settings object has been bound and given a listener.
    pub settings_bound: bool,
    /// Whether the barrier emptied and loop termination was requested.
    pub stopped: bool,
}

impl View for Session {
    type V = SessionModel;

    open spec fn view(&self) -> SessionModel {
        SessionModel {
            pending: self.pending@,
            devices: self.devices@.map_values(|d: Device| d@),
            settings: self.settings@,
            subs: self.subs@,
            settings_bound: self.settings_bound,
            stopped: self.stopped,
        }
    }
}

/// A fresh session: nothing pending, nothing resolved, loop running.
pub open spec fn init_session() -> SessionModel {
    SessionModel {
        pending: Seq::empty(),
        devices: Seq::empty(),
        settings: default_settings(),
        subs: Seq::empty(),
        settings_bound: false,
        stopped: false,
    }
}

/// How a completion event changes the session: completions for foreign ids
/// and unknown tokens change nothing; a matched token leaves the barrier, and
/// emptying the barrier requests loop termination.
pub open spec fn done_step(s: SessionModel, id: u32, seq: u64) -> SessionModel {
    if id != CORE_ID {
        s
    } else {
        let p = remove_token(s.pending, seq);
        SessionModel {
            pending: p,
            stopped: s.stopped || (s.pending.contains(seq) && p.len() == 0),
            ..s
        }
    }
}

/// How a device info event changes the object store: a resolvable event
/// appends exactly one entity; anything else appends nothing.
pub open spec fn node_info_step(
    devices: Seq<DeviceModel>,
    id: u32,
    props: Option<Seq<(Seq<char>, Seq<char>)>>,
) -> Seq<DeviceModel> {
    match props {
        Some(m) => match device_of_info(id, m) {
            Some(d) => devices.push(d),
            None => devices,
        },
        None => devices,
    }
}

/// How a settings property event changes the record: both a key and a value
/// must be present for anything to happen.
pub open spec fn meta_step(
    st: SettingsModel,
    key: Option<Seq<char>>,
    value: Option<Seq<char>>,
) -> SettingsModel {
    match (key, value) {
        (Some(k), Some(v)) => apply_update_spec(st, k, v),
        _ => st,
    }
}

impl Session {
    /// The barrier holds each token at most once.
    pub open spec fn inv(&self) -> bool {
        self.pending.inv()
    }

    /// A fresh session.
    pub fn new() -> (r: Session)
        ensures
            r@ == init_session(),
            r.inv(),
    {
        let r = Session {
            pending: PendingSet::new(),
            devices: Vec::new(),
            settings: Settings::default(),
            subs: Vec::new(),
            settings_bound: false,
            stopped: false,
        };
        proof {
            assert(r@.devices =~= init_session().devices);
            assert(r@.subs =~= init_session().subs);
        }
        r
    }

    /// Track the token of a freshly issued barrier request.
    pub fn track(&mut self, token: u64)
        requires
            old(self).inv(),
        ensures
            final(self).inv(),
            final(self)@ == (SessionModel {
                pending: insert_token(old(self)@.pending, token),
                ..old(self)@
            }),
    {
        self.pending.track(token);
    }

    /// A relevant device object was bound and given a listener: retain the
    /// subscription and track the token of the barrier request this spawned.
    pub fn on_device_bound(&mut self, id: u32, token: u64)
        requires
            old(self).inv(),
        ensures
            final(self).inv(),
            final(self)@ == (SessionModel {
                pending: insert_token(old(self)@.pending, token),
                subs: old(self)@.subs.push(id),
                ..old(self)@
            }),
    {
        self.subs.push(id);
        self.pending.track(token);
    }

    /// The settings object was bound and given a listener: remember that and
    /// track the token of the barrier request this spawned.
    pub fn on_settings_bound(&mut self, token: u64)
        requires
            old(self).inv(),
        ensures
            final(self).inv(),
            final(self)@ == (SessionModel {
                pending: insert_token(old(self)@.pending, token),
                settings_bound: true,
                ..old(self)@
            }),
    {
        self.settings_bound = true;
        self.pending.track(token);
    }

    /// Handle one completion event, exactly as [`done_step`] states.  An
    /// unknown or already-removed token changes nothing and never requests
    /// termination; the completion that empties the barrier does.
    pub fn on_done(&mut self, id: u32, seq: u64) -> (stop: bool)
        requires
            old(self).inv(),
        ensures
            final(self).inv(),
            final(self)@ == done_step(old(self)@, id, seq),
            stop == (id == CORE_ID && old(self)@.pending.contains(seq) && old(
                self,
            )@.pending.len() == 1),
            final(self)@.stopped == (old(self)@.stopped || stop),
            !(id == CORE_ID && old(self)@.pending.contains(seq)) ==> final(self)@ == old(self)@
                && !stop,
    {
        if id != CORE_ID {
            return false;
        }
        proof {
            if !self.pending@.contains(seq) {
                self.pending@.index_of_first_ensures(seq);
            }
        }
        let stop = self.pending.complete(seq);
        if stop {
            self.stopped = true;
        }
        stop
    }

    /// Handle one device info event, exactly as [`node_info_step`] states.
    pub fn on_node_info(&mut self, id: u32, props: Option<&Props>)
        requires
            old(self).inv(),
        ensures
            final(self).inv(),
            final(self)@ == (SessionModel {
                devices: node_info_step(old(self)@.devices, id, props_ref_view(props)),
                ..old(self)@
            }),
    {
        match props {
            Some(p) => {
                match device_from_info(id, p) {
                    Some(d) => {
                        let ghost dm = d@;
                        self.devices.push(d);
                        proof {
                            assert(self.devices@.map_values(|x: Device| x@) =~= old(
                                self,
                            ).devices@.map_values(|x: Device| x@).push(dm));
                        }
                    },
                    None => {},
                }
            },
            None => {},
        }
    }

    /// Handle one settings property event, exactly as [`meta_step`] states.
    pub fn on_meta_property(&mut self, key: Option<&str>, value: Option<&str>)
        requires
            old(self).inv(),
        ensures
            final(self).inv(),
            final(self)@ == (SessionModel {
                settings: meta_step(old(self)@.settings, opt_str_view(key), opt_str_view(value)),
                ..old(self)@
            }),
    {
        match (key, value) {
            (Some(k), Some(v)) => {
                self.settings.apply_update(k, v);
            },
            _ => {},
        }
    }

    /// Whether `id` has a retained subscription.
    pub fn is_subscribed(&self, id: u32) -> (r: bool)
        ensures
            r == self@.subs.contains(id),
    {
        let n = self.subs.len();
        let mut i: usize = 0;
        while i < n
            invariant
                n == self.subs@.len(),
                i <= n,
                forall|j: int| 0 <= j < i ==> self.subs@[j] != id,
            decreases n - i,
        {
            if self.subs[i] == id {
                return true;
            }
            i = i + 1;
        }
        false
    }
}

/// The driver's whole state: the session, the next token the service will
/// issue, and how many tokens were ever issued and ever matched.
pub ghost struct RunState {
    pub session: SessionModel,
    pub next: u64,
    pub issued: int,
    pub matched: int,
}

/// The state the driver starts the loop in: the initial barrier request was
/// issued before any listener registration and its token is already issued.
pub open spec fn init_run() -> RunState {
    RunState {
        session: SessionModel { pending: seq![0u64], ..init_session() },
        next: 1,
        issued: 1,
        matched: 0,
    }
}

/// How one dispatched event changes the driver state.  Discovering a relevant
/// object binds it, registers its listener and tracks a fresh token; info and
/// property events only reach the store through a retained subscription.  A
/// session that exhausted the token space stops issuing requests; the
/// driver's precondition keeps that unreachable.
pub open spec fn step_model(st: RunState, e: EventModel) -> RunState {
    match e {
        EventModel::Global { kind, id, props } => match classify_spec(kind, props) {
            Relevance::Device => if st.next < u64::MAX {
                RunState {
                    session: SessionModel {
                        pending: insert_token(st.session.pending, st.next),
                        subs: st.session.subs.push(id),
                        ..st.session
                    },
                    next: (st.next + 1) as u64,
                    issued: st.issued + 1,
                    matched: st.matched,
                }
            } else {
                st
            },
            Relevance::SettingsObject => if st.next < u64::MAX {
                RunState {
                    session: SessionModel {
                        pending: insert_token(st.session.pending, st.next),
                        settings_bound: true,
                        ..st.session
                    },
                    next: (st.next + 1) as u64,
                    issued: st.issued + 1,
                    matched: st.matched,
                }
            } else {
                st
            },
            Relevance::Irrelevant => st,
        },
        EventModel::Done { id, seq } => RunState {
            session: done_step(st.session, id, seq),
            matched: if id == CORE_ID && st.session.pending.contains(seq) {
                st.matched + 1
            } else {
                st.matched
            },
            ..st
        },
        EventModel::NodeInfo { id, props } => if st.session.subs.contains(id) {
            RunState {
                session: SessionModel {
                    devices: node_info_step(st.session.devices, id, props),
                    ..st.session
                },
                ..st
            }
        } else {
            st
        },
        EventModel::MetaProperty { key, value } => if st.session.settings_bound {
            RunState {
                session: SessionModel {
                    settings: meta_step(st.session.settings, key, value),
                    ..st.session
                },
                ..st
            }
        } else {
            st
        },
    }
}

/// Fold a whole event sequence: dispatch stops at the event that empties the
/// barrier; later events are never processed.
pub open spec fn run_model(st: RunState, events: Seq<EventModel>) -> RunState
    decreases events.len(),
{
    if events.len() == 0 || st.session.stopped {
        st
    } else {
        run_model(step_model(st, events[0]), events.drop_first())
    }
}

/// The barrier invariant the driver maintains: tokens are pending at most
/// once, pending tokens were all issued already, the pending count is the
/// issued count less the matched count, and the loop has stopped exactly
/// when nothing is pending.
pub open spec fn barrier_wf(st: RunState) -> bool {
    &&& st.session.pending.no_duplicates()
    &&& (forall|k: int|
        0 <= k < st.session.pending.len() ==> #[trigger] st.session.pending[k] < st.next)
    &&& st.issued == st.matched + st.session.pending.len()
    &&& (st.session.stopped <==> st.session.pending.len() == 0)
}

/// One dispatched event preserves the barrier invariant.
pub proof fn lemma_step_preserves_wf(st: RunState, e: EventModel)
    requires
        barrier_wf(st),
        !st.session.stopped,
    ensures
        barrier_wf(step_model(st, e)),
{
    match e {
        EventModel::Global { kind, id, props } => {
            if classify_spec(kind, props) != Relevance::Irrelevant && st.next < u64::MAX {
                let p = st.session.pending;
                assert(forall|k: int| 0 <= k < p.len() ==> #[trigger] p[k] != st.next);
                assert(!p.contains(st.next));
                let q = p.push(st.next);
                assert forall|a: int, b: int|
                    0 <= a < q.len() && 0 <= b < q.len() && a != b implies q[a] != q[b] by {
                    if a < p.len() && b < p.len() {
                    } else if a == p.len() {
                        assert(q[b] == p[b]);
                    } else {
                        assert(q[a] == p[a]);
                    }
                }
            }
        },
        EventModel::Done { id, seq } => {
            if id == CORE_ID {
                let p = st.session.pending;
                if p.contains(seq) {
                    lemma_remove_token(p, seq);
                    assert forall|k: int|
                        0 <= k < remove_token(p, seq).len() implies #[trigger] remove_token(
                        p,
                        seq,
                    )[k] < st.next by {
                        assert(p.contains(remove_token(p, seq)[k]));
                        let j = choose|j: int|
                            0 <= j < p.len() && p[j] == remove_token(p, seq)[k];
                        assert(p[j] < st.next);
                    }
                } else {
                    p.index_of_first_ensures(seq);
                }
            }
        },
        EventModel::NodeInfo { id, props } => {},
        EventModel::MetaProperty { key, value } => {},
    }
}

/// The loop terminates exactly when the completion events matched against
/// issued tokens number as many as the tokens ever issued: one for the
/// initial barrier request and one per discovered relevant object, whatever
/// the interleaving of events.
pub proof fn lemma_run_termination(st: RunState, events: Seq<EventModel>)
    requires
        barrier_wf(st),
    ensures
        barrier_wf(run_model(st, events)),
        run_model(st, events).session.stopped <==> run_model(st, events).matched == run_model(
            st,
            events,
        ).issued,
    decreases events.len(),
{
    if events.len() == 0 || st.session.stopped {
    } else {
        lemma_step_preserves_wf(st, events[0]);
        lemma_run_termination(step_model(st, events[0]), events.drop_first());
    }
}

/// [`lemma_run_termination`] from the driver's actual starting state.
pub proof fn lemma_session_termination(events: Seq<EventModel>)
    ensures
        run_model(init_run(), events).session.stopped <==> run_model(init_run(), events).matched
            == run_model(init_run(), events).issued,
{
    assert(barrier_wf(init_run()));
    lemma_run_termination(init_run(), events);
}

/// What a device info event appends to the store depends only on that
/// event's own object id and properties, never on what the store already
/// holds from other objects' events.
pub proof fn lemma_entity_order_independent(
    devices1: Seq<DeviceModel>,
    devices2: Seq<DeviceModel>,
    id: u32,
    props: Option<Seq<(Seq<char>, Seq<char>)>>,
)
    ensures
        node_info_step(devices1, id, props).skip(devices1.len() as int) == node_info_step(
            devices2,
            id,
            props,
        ).skip(devices2.len() as int),
{
    match props {
        Some(m) => {
            match device_of_info(id, m) {
                Some(d) => {
                    assert(devices1.push(d).skip(devices1.len() as int) =~= seq![d]);
                    assert(devices2.push(d).skip(devices2.len() as int) =~= seq![d]);
                },
                None => {
                    assert(devices1.skip(devices1.len() as int) =~= Seq::<DeviceModel>::empty());
                    assert(devices2.skip(devices2.len() as int) =~= Seq::<DeviceModel>::empty());
                },
            }
        },
        None => {
            assert(devices1.skip(devices1.len() as int) =~= Seq::<DeviceModel>::empty());
            assert(devices2.skip(devices2.len() as int) =~= Seq::<DeviceModel>::empty());
        },
    }
}

/// Entities already in the store survive every later event unchanged: the
/// store is append-only.
pub proof fn lemma_run_append_only(st: RunState, events: Seq<EventModel>)
    ensures
        run_model(st, events).session.devices.len() >= st.session.devices.len(),
        run_model(st, events).session.devices.subrange(0, st.session.devices.len() as int)
            == st.session.devices,
    decreases events.len(),
{
    assert(st.session.devices.subrange(0, st.session.devices.len() as int) =~= st.session.devices);
    if events.len() == 0 || st.session.stopped {
    } else {
        let st1 = step_model(st, events[0]);
        assert(st1.session.devices.subrange(0, st.session.devices.len() as int)
            =~= st.session.devices);
        lemma_run_append_only(st1, events.drop_first());
        assert(run_model(st, events).session.devices.subrange(
            0,
            st.session.devices.len() as int,
        ) =~= st.session.devices);
    }
}

/// How many relevant objects the run discovers, each of which spawns one
/// fresh barrier request.
pub open spec fn discovered_count(st: RunState, events: Seq<EventModel>) -> int
    decreases events.len(),
{
    if events.len() == 0 || st.session.stopped {
        0
    } else {
        let c: int = match events[0] {
            EventModel::Global { kind, id, props } => if classify_spec(kind, props)
                != Relevance::Irrelevant && st.next < u64::MAX {
                1
            } else {
                0
            },
            _ => 0,
        };
        c + discovered_count(step_model(st, events[0]), events.drop_first())
    }
}

/// The tokens ever issued number one per discovered relevant object on top of
/// what the run started with; from [`init_run`] that is the initial request
/// plus one per discovery.  With [`lemma_run_termination`] this says the loop
/// ends exactly on the last of those completions being matched, in any
/// interleaving.
pub proof fn lemma_issued_counts_discoveries(st: RunState, events: Seq<EventModel>)
    ensures
        run_model(st, events).issued == st.issued + discovered_count(st, events),
    decreases events.len(),
{
    if events.len() == 0 || st.session.stopped {
    } else {
        lemma_issued_counts_discoveries(step_model(st, events[0]), events.drop_first());
    }
}

/// How many entities the run resolves: the info events it processes that
/// reach the store through a retained subscription and name a relevant media
/// class.
pub open spec fn resolved_count(st: RunState, events: Seq<EventModel>) -> int
    decreases events.len(),
{
    if events.len() == 0 || st.session.stopped {
        0
    } else {
        let c = match events[0] {
            EventModel::NodeInfo { id, props } => if st.session.subs.contains(id) {
                node_info_step(st.session.devices, id, props).len() - st.session.devices.len()
            } else {
                0
            },
            _ => 0,
        };
        c + resolved_count(step_model(st, events[0]), events.drop_first())
    }
}

/// The store ends up with exactly one entity per info event that fired and
/// resolved before termination, and none for an object whose listener never
/// fired.
pub proof fn lemma_one_entity_per_fired_info(st: RunState, events: Seq<EventModel>)
    ensures
        run_model(st, events).session.devices.len() == st.session.devices.len() + resolved_count(
            st,
            events,
        ),
    decreases events.len(),
{
    if events.len() == 0 || st.session.stopped {
    } else {
        lemma_one_entity_per_fired_info(step_model(st, events[0]), events.drop_first());
    }
}

/// Run a whole session over a given event sequence: issue and track the
/// initial barrier request, then dispatch events in order until the barrier
/// empties or the events run out.  The result is exactly [`run_model`] from
/// [`init_run`].
pub fn run_session(events: &Vec<Event>) -> (r: Session)
    requires
        events@.len() < u64::MAX - 1,
    ensures
        r.inv(),
        r@ == run_model(init_run(), views_of(events@)).session,
        r@.stopped <==> run_model(init_run(), views_of(events@)).matched == run_model(
            init_run(),
            views_of(events@),
        ).issued,
{
    let ghost evs: Seq<EventModel> = views_of(events@);
    proof {
        lemma_session_termination(evs);
    }
    let mut s = Session::new();
    s.track(0);
    let mut next: u64 = 1;
    let n = events.len();
    let mut i: usize = 0;
    proof {
        assert(s@.pending =~= seq![0u64]);
        assert(s@ == init_run().session);
        assert(evs.subrange(0, n as int) =~= evs);
    }
    let ghost mut st: RunState = init_run();
    while i < n && !s.stopped
        invariant
            n == events@.len(),
            n < u64::MAX - 1,
            evs == views_of(events@),
            evs.len() == n,
            i <= n,
            s.inv(),
            st.session == s@,
            st.next == next,
            next as int <= 1 + i,
            run_model(init_run(), evs) == run_model(st, evs.subrange(i as int, n as int)),
        decreases n - i,
    {
        let ghost e = evs[i as int];
        proof {
            assert(evs.subrange(i as int, n as int)[0] == e);
            assert(evs.subrange(i as int, n as int).drop_first() =~= evs.subrange(
                i as int + 1,
                n as int,
            ));
            assert(e == events@[i as int]@);
        }
        match &events[i] {
            Event::Global { kind, id, props } => {
                let pr = match props {
                    Some(p) => Some(p),
                    None => None,
                };
                match classify(*kind, pr) {
                    Relevance::Device => {
                        s.on_device_bound(*id, next);
                        next = next + 1;
                    },
                    Relevance::SettingsObject => {
                        s.on_settings_bound(next);
                        next = next + 1;
                    },
                    Relevance::Irrelevant => {},
                }
            },
            Event::Done { id, seq } => {
                let _stop = s.on_done(*id, *seq);
            },
            Event::NodeInfo { id, props } => {
                if s.is_subscribed(*id) {
                    let pr = match props {
                        Some(p) => Some(p),
                        None => None,
                    };
                    s.on_node_info(*id, pr);
                }
            },
            Event::MetaProperty { key, value } => {
                if s.settings_bound {
                    let k = match key {
                        Some(k) => Some(k.as_str()),
                        None => None,
                    };
                    let v = match value {
                        Some(v) => Some(v.as_str()),
                        None => None,
                    };
                    s.on_meta_property(k, v);
                }
            },
        }
        proof {
            st = step_model(st, e);
            assert(st.session == s@);
        }
        i = i + 1;
    }
    proof {
        if s.stopped {
            assert(run_model(st, evs.subrange(i as int, n as int)) == st);
        } else {
            assert(evs.subrange(n as int, n as int) =~= Seq::<EventModel>::empty());
        }
    }
    s
}

} // verus!
