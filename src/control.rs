//! The control plane's state: the validator registry, one FIFO of pending
//! envelopes and at most one attached mailbox per validator, the latest
//! metrics per validator, and the metrics bus.
use crate::channel::{broadcast_event, mailbox, metrics_bus, offer, subscribe, Offer};
use crate::types::{
    validator_id, Action, ActionEnvelope, ActionResult, ConnectRequest, MetricsUpdate,
    MetricsUpdateView, MetricsWatchRequest, ValidatorConfig,
};
use std::collections::VecDeque;
use tokio::sync::broadcast;
use tokio::sync::mpsc;
use vstd::prelude::*;

verus! {

/// Bound of each agent's mailbox.
pub const MAILBOX_CAPACITY: usize = 32;

/// How many metrics events the bus keeps for a lagging subscriber.
pub const METRICS_BUS_CAPACITY: usize = 256;

/// Why an operation was refused.
#[derive(Debug, Clone, Copy, PartialEq, Eq, Structural)]
pub enum ControlError {
    /// The validator id is not in the registry.
    NotFound,
    /// The shared secret does not match the registry.
    Unauthenticated,
    /// The payload did not decode, or names another validator.
    InvalidArgument,
}

/// The level at which an agent's report is logged.
#[derive(Debug, Clone, Copy, PartialEq, Eq, Structural)]
pub enum ReportLevel {
    Info,
    Error,
}

/// What the control plane knows of one registered validator.
pub struct SlotModel {
    pub id: Seq<char>,
    pub secret: Seq<char>,
    /// Whether an agent's mailbox is installed.
    pub attached: bool,
    /// Envelopes waiting for a mailbox, oldest first.
    pub pending: Seq<ActionEnvelope>,
    /// Every envelope a mailbox of this validator has accepted, in order.
    pub delivered: Seq<ActionEnvelope>,
    /// Every envelope accepted by `submit_action` for this validator, in order.
    pub submitted: Seq<ActionEnvelope>,
    /// The latest metrics payload published for this validator.
    pub latest: Option<Seq<char>>,
    /// Id of the latest connection attached for this validator.
    pub connection: u64,
    /// The latest envelopes, at most a mailbox's bound, that the current
    /// connection's mailbox accepted: those its agent may not have read yet.
    pub in_mailbox: Seq<ActionEnvelope>,
}

/// A freshly registered validator.
pub open spec fn fresh_slot(cfg: ValidatorConfig) -> SlotModel {
    SlotModel {
        id: cfg.id.0@,
        secret: cfg.auth_token@,
        attached: false,
        pending: Seq::empty(),
        delivered: Seq::empty(),
        submitted: Seq::empty(),
        latest: None,
        connection: 0,
        in_mailbox: Seq::empty(),
    }
}

/// The registry built from a configuration list: one slot per distinct id, in
/// order of first appearance, holding the last entry given for that id.
pub open spec fn registry_of(cfgs: Seq<ValidatorConfig>) -> Seq<SlotModel>
    decreases cfgs.len(),
{
    if cfgs.len() == 0 {
        Seq::empty()
    } else {
        let prev = registry_of(cfgs.drop_last());
        let cfg = cfgs.last();
        match lookup(prev, cfg.id.0@) {
            Some(i) => prev.update(i, fresh_slot(cfg)),
            None => prev.push(fresh_slot(cfg)),
        }
    }
}

/// No two slots share an id.
pub open spec fn ids_unique(m: Seq<SlotModel>) -> bool {
    forall|i: int, j: int|
        0 <= i < m.len() && 0 <= j < m.len() && i != j ==> #[trigger] m[i].id != #[trigger] m[j].id
}

/// The position of the slot registered under `id`, if any.
pub open spec fn lookup(m: Seq<SlotModel>, id: Seq<char>) -> Option<int> {
    if exists|i: int| 0 <= i < m.len() && m[i].id == id {
        Some(choose|i: int| 0 <= i < m.len() && m[i].id == id)
    } else {
        None
    }
}

/// `b` is `a` with at most slot `i` changed.
pub open spec fn same_except(a: Seq<SlotModel>, b: Seq<SlotModel>, i: int) -> bool {
    &&& a.len() == b.len()
    &&& forall|j: int| 0 <= j < a.len() && j != i ==> #[trigger] b[j] == a[j]
}

/// The last envelopes of `s`, as many as a mailbox can hold.
pub open spec fn recent(s: Seq<ActionEnvelope>) -> Seq<ActionEnvelope> {
    if s.len() > MAILBOX_CAPACITY {
        s.skip(s.len() - MAILBOX_CAPACITY)
    } else {
        s
    }
}

/// What every slot keeps: delivered-then-queued is what was submitted, and the
/// copies of what the mailbox took are the latest delivered envelopes.
pub open spec fn consistent(m: SlotModel) -> bool {
    &&& m.delivered + m.pending == m.submitted
    &&& m.in_mailbox.len() <= MAILBOX_CAPACITY
    &&& m.in_mailbox.len() <= m.delivered.len()
    &&& m.in_mailbox == m.delivered.skip(m.delivered.len() - m.in_mailbox.len())
}

/// `after` is `before` once a flush pass has run: some head of the queue, in
/// order, was accepted by the mailbox, the rest stays queued, and a mailbox
/// found closed was removed with the refused envelope back at the head. With
/// no mailbox or an empty queue nothing happens.
pub open spec fn flushed(before: SlotModel, after: SlotModel) -> bool {
    &&& after.id == before.id
    &&& after.secret == before.secret
    &&& after.latest == before.latest
    &&& after.submitted == before.submitted
    &&& after.connection == before.connection
    &&& (after.attached ==> before.attached)
    &&& exists|k: int|
        0 <= k <= before.pending.len() && after.pending == before.pending.skip(k)
            && after.delivered == before.delivered + before.pending.take(k) && after.in_mailbox
            == recent(before.in_mailbox + before.pending.take(k))
    &&& (!before.attached ==> after == before)
    &&& (before.pending.len() == 0 ==> after == before)
    &&& (before.attached && !after.attached ==> after.pending.len() > 0)
}

/// The id given to the connection that follows connection `c`.
pub open spec fn next_connection(c: u64) -> u64 {
    if c == u64::MAX {
        0
    } else {
        (c + 1) as u64
    }
}

/// `m` with a fresh mailbox installed in place of any earlier one.
pub open spec fn with_mailbox(m: SlotModel) -> SlotModel {
    SlotModel {
        attached: true,
        connection: next_connection(m.connection),
        in_mailbox: Seq::empty(),
        ..m
    }
}

/// `m` once its connection is gone and the last `unread` envelopes its
/// mailbox took, as far as copies are kept, are back at the head of the queue.
pub open spec fn returned(m: SlotModel, unread: int) -> SlotModel {
    let n = if unread < m.in_mailbox.len() {
        unread
    } else {
        m.in_mailbox.len() as int
    };
    SlotModel {
        attached: false,
        pending: m.in_mailbox.skip(m.in_mailbox.len() - n) + m.pending,
        delivered: m.delivered.take(m.delivered.len() - n),
        in_mailbox: Seq::empty(),
        ..m
    }
}

/// `m` with `e` appended to its queue.
pub open spec fn with_submitted(m: SlotModel, e: ActionEnvelope) -> SlotModel {
    SlotModel { pending: m.pending.push(e), submitted: m.submitted.push(e), ..m }
}

/// `m` with `payload` as its latest metrics.
pub open spec fn with_metrics(m: SlotModel, payload: Seq<char>) -> SlotModel {
    SlotModel { latest: Some(payload), ..m }
}

/// A subscription filter admits `id`: the filter is empty or lists it.
pub open spec fn admits(filter: Seq<String>, id: Seq<char>) -> bool {
    filter.len() == 0 || exists|k: int| 0 <= k < filter.len() && filter[k]@ == id
}

/// The event a subscriber sees for a stored payload: no secret.
pub open spec fn redacted(id: Seq<char>, payload: Seq<char>) -> MetricsUpdateView {
    MetricsUpdateView { validator_id: id, auth_token: Seq::empty(), metrics_json: payload }
}

/// The snapshot phase of a subscription: one redacted event per stored entry
/// that the filter admits, in registry order.
pub open spec fn snapshot_of(m: Seq<SlotModel>, filter: Seq<String>) -> Seq<MetricsUpdateView>
    decreases m.len(),
{
    if m.len() == 0 {
        Seq::empty()
    } else {
        let prev = snapshot_of(m.drop_last(), filter);
        let s = m.last();
        match s.latest {
            Some(p) => if admits(filter, s.id) {
                prev.push(redacted(s.id, p))
            } else {
                prev
            },
            None => prev,
        }
    }
}

/// The picture of each slot in a list, in order.
spec fn models(slots: Seq<ValidatorSlot>) -> Seq<SlotModel> {
    slots.map_values(|s: ValidatorSlot| s.model())
}

/// With unique ids, the slot found for an id is the one that holds it.
pub proof fn lemma_lookup_at(m: Seq<SlotModel>, i: int)
    requires
        ids_unique(m),
        0 <= i < m.len(),
    ensures
        lookup(m, m[i].id) == Some(i),
{
    let id = m[i].id;
    assert(m[i].id == id);
    let j = choose|j: int| 0 <= j < m.len() && m[j].id == id;
    assert(m[j].id == m[i].id);
}

/// Position of the slot registered under `id`.
fn position(slots: &Vec<ValidatorSlot>, id: &String) -> (r: Option<usize>)
    requires
        ids_unique(models(slots@)),
    ensures
        r == match lookup(models(slots@), id@) {
            Some(i) => Some(i as usize),
            None => None::<usize>,
        },
        r matches Some(i) ==> i < slots@.len() && models(slots@)[i as int].id == id@,
{
    let mut i: usize = 0;
    while i < slots.len()
        invariant
            0 <= i <= slots@.len(),
            ids_unique(models(slots@)),
            forall|j: int| 0 <= j < i ==> (#[trigger] models(slots@)[j]).id != id@,
        decreases slots@.len() - i,
    {
        if slots[i].config.id.0 == *id {
            proof {
                lemma_lookup_at(models(slots@), i as int);
            }
            return Some(i);
        }
        i = i + 1;
    }
    assert(!(exists|j: int| 0 <= j < models(slots@).len() && models(slots@)[j].id == id@));
    None
}

/// Whether the filter of a subscription admits `id`.
fn filter_admits(filter: &Vec<String>, id: &String) -> (r: bool)
    ensures
        r == admits(filter@, id@),
{
    if filter.len() == 0 {
        return true;
    }
    let mut k: usize = 0;
    while k < filter.len()
        invariant
            0 <= k <= filter@.len(),
            forall|j: int| 0 <= j < k ==> (#[trigger] filter@[j])@ != id@,
        decreases filter@.len() - k,
    {
        if filter[k] == *id {
            return true;
        }
        k = k + 1;
    }
    false
}

/// The live phase of a subscription: an event from the bus, redacted, if the
/// subscription's filter admits its validator.
pub fn live_event(request: &MetricsWatchRequest, event: MetricsUpdate) -> (r: Option<MetricsUpdate>)
    ensures
        r is Some <==> admits(request.validator_ids@, event.validator_id@),
        r matches Some(u) ==> u@ == redacted(event.validator_id@, event.metrics_json@),
{
    if filter_admits(&request.validator_ids, &event.validator_id) {
        Some(MetricsUpdate {
            validator_id: event.validator_id,
            auth_token: String::new(),
            metrics_json: event.metrics_json,
        })
    } else {
        None
    }
}

/// A copy of an envelope.
fn copy_envelope(e: &ActionEnvelope) -> (r: ActionEnvelope)
    ensures
        r == *e,
{
    ActionEnvelope { validator_id: e.validator_id.clone(), action_json: e.action_json.clone() }
}

struct ValidatorSlot {
    config: ValidatorConfig,
    client: Option<mpsc::Sender<ActionEnvelope>>,
    connection: u64,
    pending: VecDeque<ActionEnvelope>,
    in_mailbox: VecDeque<ActionEnvelope>,
    latest_metrics: Option<String>,
    delivered: Ghost<Seq<ActionEnvelope>>,
    submitted: Ghost<Seq<ActionEnvelope>>,
}

impl ValidatorSlot {
    spec fn model(&self) -> SlotModel {
        SlotModel {
            id: self.config.id.0@,
            secret: self.config.auth_token@,
            attached: self.client is Some,
            pending: self.pending@,
            delivered: self.delivered@,
            submitted: self.submitted@,
            latest: match self.latest_metrics {
                Some(p) => Some(p@),
                None => None,
            },
            connection: self.connection,
            in_mailbox: self.in_mailbox@,
        }
    }

    spec fn inv(&self) -> bool {
        consistent(self.model())
    }

    fn fresh(config: ValidatorConfig) -> (r: ValidatorSlot)
        ensures
            r.model() == fresh_slot(config),
            r.inv(),
    {
        let r = ValidatorSlot {
            config,
            client: None,
            connection: 0,
            pending: VecDeque::new(),
            in_mailbox: VecDeque::new(),
            latest_metrics: None,
            delivered: Ghost(Seq::empty()),
            submitted: Ghost(Seq::empty()),
        };
        assert(r.delivered@ + r.pending@ =~= r.submitted@);
        assert(r.in_mailbox@ =~= r.delivered@.skip(0));
        r
    }

    /// Applies the mailbox's answer to the envelope `sent`, just taken from
    /// the head of the queue while the mailbox `tx` was out of the slot.
    /// Accepted: it counts as delivered and the pass goes on. Full: it goes
    /// back to the head, the mailbox stays, and the pass stops. Closed: it
    /// goes back to the head, the mailbox is dropped, and the pass stops.
    fn settle(&mut self, tx: mpsc::Sender<ActionEnvelope>, sent: ActionEnvelope, answer: Offer) -> (stop: bool)
        requires
            old(self).client is None,
            answer matches Offer::Full(e) ==> e == sent,
            answer matches Offer::Closed(e) ==> e == sent,
        ensures
            final(self).config == old(self).config,
            final(self).connection == old(self).connection,
            final(self).latest_metrics == old(self).latest_metrics,
            final(self).submitted == old(self).submitted,
            match answer {
                Offer::Accepted => {
                    &&& !stop
                    &&& final(self).client == Some(tx)
                    &&& final(self).pending@ == old(self).pending@
                    &&& final(self).delivered@ == old(self).delivered@.push(sent)
                    &&& final(self).in_mailbox@ == old(self).in_mailbox@.push(sent)
                },
                Offer::Full(e) => {
                    &&& stop
                    &&& final(self).client == Some(tx)
                    &&& final(self).pending@ == seq![e] + old(self).pending@
                    &&& final(self).delivered == old(self).delivered
                    &&& final(self).in_mailbox@ == old(self).in_mailbox@
                },
                Offer::Closed(e) => {
                    &&& stop
                    &&& final(self).client is None
                    &&& final(self).pending@ == seq![e] + old(self).pending@
                    &&& final(self).delivered == old(self).delivered
                    &&& final(self).in_mailbox@ == old(self).in_mailbox@
                },
            },
    {
        match answer {
            Offer::Accepted => {
                self.delivered = Ghost(self.delivered@.push(sent));
                self.in_mailbox.push_back(sent);
                self.client = Some(tx);
                false
            },
            Offer::Full(e) => {
                self.pending.push_front(e);
                self.client = Some(tx);
                true
            },
            Offer::Closed(e) => {
                self.pending.push_front(e);
                true
            },
        }
    }

    /// Hands queued envelopes, oldest first, to the mailbox until the queue
    /// is empty or the mailbox refuses one (see `settle`).
    fn flush(&mut self)
        requires
            old(self).inv(),
        ensures
            final(self).inv(),
            flushed(old(self).model(), final(self).model()),
    {
        let ghost before = self.model();
        if self.client.is_none() || self.pending.len() == 0 {
            assert(before.pending.skip(0) =~= before.pending);
            assert(before.delivered + before.pending.take(0) =~= before.delivered);
            assert(before.in_mailbox + before.pending.take(0) =~= before.in_mailbox);
            return;
        }
        let mut done = false;
        let ghost mut k: int = 0;
        assert(before.pending.skip(0) =~= before.pending);
        assert(before.delivered + before.pending.take(0) =~= before.delivered);
        assert(before.in_mailbox + before.pending.take(0) =~= before.in_mailbox);
        while !done
            invariant
                self.config == old(self).config,
                self.connection == old(self).connection,
                self.latest_metrics == old(self).latest_metrics,
                self.submitted == old(self).submitted,
                before == old(self).model(),
                consistent(before),
                0 <= k <= before.pending.len(),
                self.pending@ == before.pending.skip(k),
                self.delivered@ == before.delivered + before.pending.take(k),
                self.in_mailbox@ == before.in_mailbox + before.pending.take(k),
                !done ==> self.client is Some,
                self.client is None ==> self.pending@.len() > 0,
            decreases self.pending@.len() + if done { 0int } else { 1int },
        {
            match self.client.take() {
                None => {
                    done = true;
                },
                Some(tx) => match self.pending.pop_front() {
                    None => {
                        self.client = Some(tx);
                        done = true;
                    },
                    Some(env) => {
                        let copy = copy_envelope(&env);
                        let answer = offer(&tx, env);
                        let stop = self.settle(tx, copy, answer);
                        if stop {
                            done = true;
                        } else {
                            proof {
                                assert(before.pending.take(k + 1) =~= before.pending.take(k).push(
                                    copy,
                                ));
                                assert(before.pending.skip(k + 1) =~= self.pending@);
                                k = k + 1;
                            }
                        }
                    },
                },
            }
        }
        let mut copies: VecDeque<ActionEnvelope> = VecDeque::new();
        std::mem::swap(&mut copies, &mut self.in_mailbox);
        let ghost grown = copies@;
        let ghost mut j: int = 0;
        while copies.len() > MAILBOX_CAPACITY
            invariant
                0 <= j <= grown.len(),
                copies@ == grown.skip(j),
                j > 0 ==> grown.len() - j >= MAILBOX_CAPACITY,
            decreases copies@.len(),
        {
            copies.pop_front();
            proof {
                j = j + 1;
            }
            assert(copies@ =~= grown.skip(j));
        }
        std::mem::swap(&mut copies, &mut self.in_mailbox);
        proof {
            assert(self.in_mailbox@ == recent(grown)) by {
                if grown.len() > MAILBOX_CAPACITY {
                    assert(j == grown.len() - MAILBOX_CAPACITY);
                } else {
                    assert(grown.skip(0) =~= grown);
                }
            }
            let d = self.delivered@;
            assert(d + self.pending@ =~= self.submitted@) by {
                assert(before.pending =~= before.pending.take(k) + before.pending.skip(k));
                assert(before.delivered + before.pending =~= before.submitted);
            }
            let m = self.in_mailbox@;
            assert(grown =~= d.skip(d.len() - grown.len())) by {
                assert(before.in_mailbox =~= before.delivered.skip(
                    before.delivered.len() - before.in_mailbox.len(),
                ));
            }
            assert(m =~= d.skip(d.len() - m.len()));
        }
    }

    /// Ends the current connection: the last `unread` envelopes its mailbox
    /// took, as far as copies are kept, go back to the head of the queue, in
    /// order, and the mailbox is dropped.
    fn detach_connection(&mut self, unread: usize)
        requires
            old(self).inv(),
        ensures
            final(self).inv(),
            final(self).model() == returned(old(self).model(), unread as int),
    {
        let ghost before = self.model();
        let n = if unread < self.in_mailbox.len() {
            unread
        } else {
            self.in_mailbox.len()
        };
        let ghost ml = before.in_mailbox.len() as int;
        let ghost dl = before.delivered.len() as int;
        let mut j: usize = 0;
        assert(before.in_mailbox.take(ml) =~= before.in_mailbox);
        assert(before.in_mailbox.skip(ml) + before.pending =~= before.pending);
        assert(before.delivered.take(dl) =~= before.delivered);
        while j < n
            invariant
                0 <= j <= n <= ml,
                ml == before.in_mailbox.len(),
                dl == before.delivered.len(),
                consistent(before),
                self.config == old(self).config,
                self.client == old(self).client,
                self.connection == old(self).connection,
                self.latest_metrics == old(self).latest_metrics,
                self.submitted == old(self).submitted,
                self.in_mailbox@ == before.in_mailbox.take(ml - j),
                self.pending@ == before.in_mailbox.skip(ml - j) + before.pending,
                self.delivered@ == before.delivered.take(dl - j),
            decreases n - j,
        {
            let e = self.in_mailbox.pop_back().unwrap();
            self.pending.push_front(e);
            self.delivered = Ghost(self.delivered@.drop_last());
            proof {
                assert(before.in_mailbox[ml - j - 1] == before.delivered[dl - j - 1]) by {
                    assert(before.in_mailbox =~= before.delivered.skip(dl - ml));
                }
                assert(self.in_mailbox@ =~= before.in_mailbox.take(ml - (j + 1)));
                assert(self.pending@ =~= before.in_mailbox.skip(ml - (j + 1)) + before.pending);
                assert(self.delivered@ =~= before.delivered.take(dl - (j + 1)));
            }
            j = j + 1;
        }
        self.in_mailbox = VecDeque::new();
        self.client = None;
        proof {
            let d = self.delivered@;
            assert(d + self.pending@ =~= self.submitted@) by {
                assert(before.delivered =~= before.delivered.take(dl - ml) + before.in_mailbox);
                assert(before.in_mailbox =~= before.in_mailbox.take(ml - n as int)
                    + before.in_mailbox.skip(ml - n as int));
                assert(before.delivered.take(dl - n as int) =~= before.delivered.take(dl - ml)
                    + before.in_mailbox.take(ml - n as int));
                assert(before.delivered + before.pending =~= before.submitted);
            }
            assert(self.in_mailbox@ =~= d.skip(d.len() as int));
            assert(self.model() =~= returned(before, unread as int));
        }
    }
}

/// An agent's attachment: the receiving end of its mailbox, and the id of
/// the connection.
pub struct Attachment {
    pub mailbox: mpsc::Receiver<ActionEnvelope>,
    pub connection: u64,
}

/// The control plane's shared state.
pub struct ControlState {
    slots: Vec<ValidatorSlot>,
    metrics_tx: broadcast::Sender<MetricsUpdate>,
    events: Ghost<Seq<MetricsUpdateView>>,
}

impl ControlState {
    /// Per-validator picture of the state, in registry order.
    pub closed spec fn view(&self) -> Seq<SlotModel> {
        self.slots@.map_values(|s: ValidatorSlot| s.model())
    }

    /// Every event put on the metrics bus so far, in order.
    pub closed spec fn events(&self) -> Seq<MetricsUpdateView> {
        self.events@
    }

    /// Ids are unique, each queue keeps what was submitted, and the bus has
    /// only ever carried redacted events.
    pub closed spec fn wf(&self) -> bool {
        &&& ids_unique(self.view())
        &&& forall|i: int| 0 <= i < self.slots@.len() ==> (#[trigger] self.slots@[i]).inv()
        &&& forall|k: int|
            0 <= k < self.events@.len() ==> (#[trigger] self.events@[k]).auth_token.len() == 0
    }

    /// A control plane for a fixed registry; a later entry for an id replaces
    /// an earlier one.
    pub fn new(validators: Vec<ValidatorConfig>) -> (r: ControlState)
        ensures
            r.wf(),
            r@ == registry_of(validators@),
            r.events() == Seq::<MetricsUpdateView>::empty(),
    {
        let ghost cfgs = validators@;
        let mut rest = validators;
        let mut slots: Vec<ValidatorSlot> = Vec::new();
        let ghost mut k: int = 0;
        assert(cfgs.take(0) =~= Seq::<ValidatorConfig>::empty());
        assert(models(slots@) =~= Seq::<SlotModel>::empty());
        while rest.len() > 0
            invariant
                0 <= k <= cfgs.len(),
                rest@ == cfgs.skip(k),
                models(slots@) == registry_of(cfgs.take(k)),
                ids_unique(models(slots@)),
                forall|i: int| 0 <= i < slots@.len() ==> (#[trigger] slots@[i]).inv(),
            decreases rest@.len(),
        {
            let cfg = rest.remove(0);
            assert(cfg == cfgs[k]);
            assert(cfgs.take(k + 1).drop_last() =~= cfgs.take(k));
            assert(cfgs.take(k + 1).last() == cfg);
            let ghost prev = models(slots@);
            match position(&slots, &cfg.id.0) {
                Some(i) => {
                    assert(prev[i as int].id == cfg.id.0@);
                    slots[i] = ValidatorSlot::fresh(cfg);
                    assert(models(slots@) =~= prev.update(i as int, fresh_slot(cfg)));
                    assert(ids_unique(models(slots@))) by {
                        assert forall|a: int, b: int|
                            0 <= a < models(slots@).len() && 0 <= b < models(slots@).len() && a
                                != b implies #[trigger] models(slots@)[a].id != #[trigger] models(
                            slots@,
                        )[b].id by {
                            assert(prev[a].id == models(slots@)[a].id);
                            assert(prev[b].id == models(slots@)[b].id);
                        }
                    }
                },
                None => {
                    slots.push(ValidatorSlot::fresh(cfg));
                    assert(models(slots@) =~= prev.push(fresh_slot(cfg)));
                    assert(ids_unique(models(slots@))) by {
                        assert forall|a: int, b: int|
                            0 <= a < models(slots@).len() && 0 <= b < models(slots@).len() && a
                                != b implies #[trigger] models(slots@)[a].id != #[trigger] models(
                            slots@,
                        )[b].id by {
                            if a < prev.len() && b < prev.len() {
                                assert(prev[a].id == models(slots@)[a].id);
                                assert(prev[b].id == models(slots@)[b].id);
                            } else if a < prev.len() {
                                assert(prev[a].id == models(slots@)[a].id);
                            } else {
                                assert(prev[b].id == models(slots@)[b].id);
                            }
                        }
                    }
                },
            }
            proof {
                k = k + 1;
            }
            assert(rest@ =~= cfgs.skip(k));
        }
        assert(cfgs.take(k) =~= cfgs);
        ControlState {
            slots,
            metrics_tx: metrics_bus(METRICS_BUS_CAPACITY),
            events: Ghost(Seq::empty()),
        }
    }

    /// Attaches an agent: checks its id and secret, installs a new mailbox in
    /// place of any earlier one (whose stream then ends once drained), and
    /// drains the validator's queue into it. The receiver yields what the
    /// mailbox takes; the connection id names this attachment to `detach`.
    pub fn stream_actions(&mut self, request: &ConnectRequest) -> (r: Result<
        Attachment,
        ControlError,
    >)
        requires
            old(self).wf(),
        ensures
            final(self).wf(),
            final(self).events() == old(self).events(),
            match lookup(old(self)@, request.validator_id@) {
                None => r matches Err(ControlError::NotFound) && final(self)@ == old(self)@,
                Some(i) => if old(self)@[i].secret != request.auth_token@ {
                    r matches Err(ControlError::Unauthenticated) && final(self)@ == old(self)@
                } else {
                    &&& r matches Ok(a) && a.connection == final(self)@[i].connection
                    &&& final(self)@[i].connection == next_connection(old(self)@[i].connection)
                    &&& same_except(old(self)@, final(self)@, i)
                    &&& flushed(with_mailbox(old(self)@[i]), final(self)@[i])
                    &&& (old(self)@[i].pending.len() == 0 ==> final(self)@[i] == with_mailbox(
                        old(self)@[i],
                    ))
                },
            },
    {
        let i = match position(&self.slots, &request.validator_id) {
            Some(i) => i,
            None => {
                return Err(ControlError::NotFound);
            },
        };
        if !(self.slots[i].config.auth_token == request.auth_token) {
            return Err(ControlError::Unauthenticated);
        }
        let (tx, rx) = mailbox(MAILBOX_CAPACITY);
        let ghost old_slots = self.slots@;
        let slot = &mut self.slots[i];
        slot.client = Some(tx);
        slot.connection = if slot.connection == u64::MAX {
            0
        } else {
            slot.connection + 1
        };
        slot.in_mailbox = VecDeque::new();
        assert(slot.in_mailbox@ =~= slot.delivered@.skip(slot.delivered@.len() as int));
        assert(slot.model() =~= with_mailbox(models(old_slots)[i as int]));
        slot.flush();
        let connection = slot.connection;
        proof {
            self.lemma_after_slot_change(old_slots, i as int);
        }
        Ok(Attachment { mailbox: rx, connection })
    }

    /// Ends a connection whose agent went away. `unread` is how many
    /// envelopes were still in its mailbox, unread, when its receiver closed:
    /// those go back to the head of the queue, in order, so that the next
    /// attachment gets them first. A connection that has been superseded
    /// changes nothing.
    pub fn detach(&mut self, validator_id: &String, connection: u64, unread: usize) -> (r: Result<
        (),
        ControlError,
    >)
        requires
            old(self).wf(),
        ensures
            final(self).wf(),
            final(self).events() == old(self).events(),
            match lookup(old(self)@, validator_id@) {
                None => r == Err::<(), _>(ControlError::NotFound) && final(self)@ == old(self)@,
                Some(i) => {
                    &&& r == Ok::<(), ControlError>(())
                    &&& final(self)@ == if old(self)@[i].connection == connection {
                        old(self)@.update(i, returned(old(self)@[i], unread as int))
                    } else {
                        old(self)@
                    }
                },
            },
    {
        let i = match position(&self.slots, validator_id) {
            Some(i) => i,
            None => {
                return Err(ControlError::NotFound);
            },
        };
        if self.slots[i].connection != connection {
            return Ok(());
        }
        let ghost old_slots = self.slots@;
        let slot = &mut self.slots[i];
        slot.detach_connection(unread);
        proof {
            self.lemma_after_slot_change(old_slots, i as int);
            assert(models(self.slots@) =~= models(old_slots).update(
                i as int,
                returned(models(old_slots)[i as int], unread as int),
            ));
        }
        Ok(())
    }

    /// Queues an envelope for its validator and drains the queue into the
    /// attached mailbox, if any. `action` is the envelope's payload as decoded
    /// (`None`: it did not decode). Nothing is queued on an error.
    pub fn submit_action(&mut self, envelope: ActionEnvelope, action: Option<Action>) -> (r: Result<
        (),
        ControlError,
    >)
        requires
            old(self).wf(),
        ensures
            final(self).wf(),
            final(self).events() == old(self).events(),
            match lookup(old(self)@, envelope.validator_id@) {
                None => r == Err::<(), _>(ControlError::NotFound) && final(self)@ == old(self)@,
                Some(i) => match action {
                    Some(a) if a@.target() == envelope.validator_id@ => {
                        &&& r == Ok::<(), ControlError>(())
                        &&& same_except(old(self)@, final(self)@, i)
                        &&& flushed(with_submitted(old(self)@[i], envelope), final(self)@[i])
                    },
                    _ => r == Err::<(), _>(ControlError::InvalidArgument) && final(self)@ == old(
                        self,
                    )@,
                },
            },
    {
        let i = match position(&self.slots, &envelope.validator_id) {
            Some(i) => i,
            None => {
                return Err(ControlError::NotFound);
            },
        };
        match &action {
            Some(a) => {
                if !(validator_id(a) == envelope.validator_id) {
                    return Err(ControlError::InvalidArgument);
                }
            },
            None => {
                return Err(ControlError::InvalidArgument);
            },
        }
        let ghost old_slots = self.slots@;
        let ghost e = envelope;
        let slot = &mut self.slots[i];
        slot.pending.push_back(envelope);
        slot.submitted = Ghost(slot.submitted@.push(e));
        assert(slot.delivered@ + slot.pending@ =~= slot.submitted@);
        slot.flush();
        proof {
            self.lemma_after_slot_change(old_slots, i as int);
        }
        Ok(())
    }

    /// Checks an agent's report on an action. `action` is its payload as
    /// decoded (`None`: it did not decode). The answer is the level at which
    /// the report is logged; nothing changes.
    pub fn report_result(&self, result: &ActionResult, action: &Option<Action>) -> (r: Result<
        ReportLevel,
        ControlError,
    >)
        requires
            self.wf(),
        ensures
            r == if lookup(self@, result.validator_id@) is None {
                Err(ControlError::NotFound)
            } else if action is None {
                Err(ControlError::InvalidArgument)
            } else if result.success {
                Ok(ReportLevel::Info)
            } else {
                Ok(ReportLevel::Error)
            },
    {
        if position(&self.slots, &result.validator_id).is_none() {
            return Err(ControlError::NotFound);
        }
        if action.is_none() {
            return Err(ControlError::InvalidArgument);
        }
        if result.success {
            Ok(ReportLevel::Info)
        } else {
            Ok(ReportLevel::Error)
        }
    }

    /// Stores a validator's latest metrics and broadcasts them without the
    /// secret. `payload_valid` says whether the payload decoded as metrics.
    pub fn publish_metrics(&mut self, update: MetricsUpdate, payload_valid: bool) -> (r: Result<
        (),
        ControlError,
    >)
        requires
            old(self).wf(),
        ensures
            final(self).wf(),
            match lookup(old(self)@, update.validator_id@) {
                None => r == Err::<(), _>(ControlError::NotFound),
                Some(i) => if old(self)@[i].secret != update.auth_token@ {
                    r == Err::<(), _>(ControlError::Unauthenticated)
                } else if !payload_valid {
                    r == Err::<(), _>(ControlError::InvalidArgument)
                } else {
                    &&& r == Ok::<(), ControlError>(())
                    &&& final(self)@ == old(self)@.update(
                        i,
                        with_metrics(old(self)@[i], update.metrics_json@),
                    )
                    &&& final(self).events() == old(self).events().push(
                        redacted(update.validator_id@, update.metrics_json@),
                    )
                },
            },
            r is Err ==> final(self)@ == old(self)@ && final(self).events() == old(self).events(),
    {
        let i = match position(&self.slots, &update.validator_id) {
            Some(i) => i,
            None => {
                return Err(ControlError::NotFound);
            },
        };
        if !(self.slots[i].config.auth_token == update.auth_token) {
            return Err(ControlError::Unauthenticated);
        }
        if !payload_valid {
            return Err(ControlError::InvalidArgument);
        }
        let ghost old_slots = self.slots@;
        let slot = &mut self.slots[i];
        slot.latest_metrics = Some(update.metrics_json.clone());
        proof {
            self.lemma_after_slot_change(old_slots, i as int);
        }
        let event = MetricsUpdate {
            validator_id: update.validator_id,
            auth_token: String::new(),
            metrics_json: update.metrics_json,
        };
        let ghost ev = event@;
        broadcast_event(&self.metrics_tx, event);
        self.events = Ghost(self.events@.push(ev));
        assert(models(self.slots@) =~= models(old_slots).update(
            i as int,
            with_metrics(models(old_slots)[i as int], update.metrics_json@),
        ));
        Ok(())
    }

    /// Opens a metrics subscription: the snapshot phase, if asked for, and a
    /// receiver for the live phase, taken together so that no event falls
    /// between them. Bus events are passed through `live_event`.
    pub fn subscribe_metrics(&self, request: &MetricsWatchRequest) -> (r: (
        Vec<MetricsUpdate>,
        broadcast::Receiver<MetricsUpdate>,
    ))
        requires
            self.wf(),
        ensures
            r.0@.map_values(|u: MetricsUpdate| u@) == if request.include_snapshot {
                snapshot_of(self@, request.validator_ids@)
            } else {
                Seq::empty()
            },
    {
        let live = subscribe(&self.metrics_tx);
        let mut snapshot: Vec<MetricsUpdate> = Vec::new();
        if request.include_snapshot {
            let mut i: usize = 0;
            while i < self.slots.len()
                invariant
                    0 <= i <= self.slots@.len(),
                    snapshot@.map_values(|u: MetricsUpdate| u@) == snapshot_of(
                        self@.take(i as int),
                        request.validator_ids@,
                    ),
                decreases self.slots@.len() - i,
            {
                let ghost before = snapshot@;
                assert(self@.take(i + 1).drop_last() =~= self@.take(i as int));
                let slot = &self.slots[i];
                match &slot.latest_metrics {
                    Some(p) => {
                        if filter_admits(&request.validator_ids, &slot.config.id.0) {
                            let event = MetricsUpdate {
                                validator_id: slot.config.id.0.clone(),
                                auth_token: String::new(),
                                metrics_json: p.clone(),
                            };
                            snapshot.push(event);
                            assert(snapshot@.map_values(|u: MetricsUpdate| u@) =~= before.map_values(
                                |u: MetricsUpdate| u@,
                            ).push(event@));
                        }
                    },
                    None => {},
                }
                i = i + 1;
            }
            assert(self@.take(i as int) =~= self@);
        } else {
            assert(snapshot@.map_values(|u: MetricsUpdate| u@) =~= Seq::<MetricsUpdateView>::empty());
        }
        (snapshot, live)
    }

    /// Runs a flush pass for every validator: the periodic retry that moves
    /// queued envelopes into mailboxes that have room again.
    pub fn retry_pending(&mut self)
        requires
            old(self).wf(),
        ensures
            final(self).wf(),
            final(self).events() == old(self).events(),
            final(self)@.len() == old(self)@.len(),
            forall|i: int| 0 <= i < old(self)@.len() ==> flushed(old(self)@[i], #[trigger] final(self)@[i]),
    {
        let mut i: usize = 0;
        while i < self.slots.len()
            invariant
                0 <= i <= self.slots@.len(),
                self.wf(),
                self.events() == old(self).events(),
                self@.len() == old(self)@.len(),
                forall|j: int| 0 <= j < i ==> flushed(old(self)@[j], #[trigger] self@[j]),
                forall|j: int| i <= j < self@.len() ==> #[trigger] self@[j] == old(self)@[j],
            decreases self.slots@.len() - i,
        {
            let ghost old_slots = self.slots@;
            let slot = &mut self.slots[i];
            slot.flush();
            proof {
                self.lemma_after_slot_change(old_slots, i as int);
                assert(models(old_slots)[i as int] == old(self)@[i as int]);
                assert forall|j: int| 0 <= j < i + 1 implies flushed(
                    old(self)@[j],
                    #[trigger] self@[j],
                ) by {
                    if j < i {
                        assert(self@[j] == models(old_slots)[j]);
                    }
                }
            }
            i = i + 1;
        }
    }

    /// A change confined to one slot that keeps its id and invariant keeps
    /// the state well formed.
    proof fn lemma_after_slot_change(&self, old_slots: Seq<ValidatorSlot>, i: int)
        requires
            0 <= i < old_slots.len(),
            self.slots@ == old_slots.update(i, self.slots@[i]),
            self.slots@[i].model().id == old_slots[i].model().id,
            self.slots@[i].inv(),
            ids_unique(models(old_slots)),
            forall|j: int| 0 <= j < old_slots.len() ==> (#[trigger] old_slots[j]).inv(),
            forall|k: int|
                0 <= k < self.events@.len() ==> (#[trigger] self.events@[k]).auth_token.len() == 0,
        ensures
            self.wf(),
            same_except(models(old_slots), self@, i),
            self@[i] == self.slots@[i].model(),
    {
        assert forall|a: int, b: int|
            0 <= a < self@.len() && 0 <= b < self@.len() && a != b implies #[trigger] self@[a].id
            != #[trigger] self@[b].id by {
            assert(self@[a].id == models(old_slots)[a].id);
            assert(self@[b].id == models(old_slots)[b].id);
        }
        assert forall|j: int| 0 <= j < self.slots@.len() implies (#[trigger] self.slots@[j]).inv() by {
            if j != i {
                assert(self.slots@[j] == old_slots[j]);
            }
        }
    }
}


/// A well-formed state registers each id at most once.
pub proof fn lemma_ids_unique(s: &ControlState)
    requires
        s.wf(),
    ensures
        ids_unique(s@),
{
}

/// A flush pass loses and repeats nothing: delivered-then-queued is unchanged,
/// and what was delivered before stays a prefix of what is delivered after.
pub proof fn lemma_flush_keeps_order(before: SlotModel, after: SlotModel)
    requires
        flushed(before, after),
    ensures
        after.delivered + after.pending == before.delivered + before.pending,
        before.delivered.is_prefix_of(after.delivered),
{
    let k = choose|k: int|
        0 <= k <= before.pending.len() && after.pending == before.pending.skip(k)
            && after.delivered == before.delivered + before.pending.take(k);
    assert(before.pending =~= before.pending.take(k) + before.pending.skip(k));
    assert(after.delivered + after.pending =~= before.delivered + before.pending);
    assert(before.delivered =~= after.delivered.subrange(0, before.delivered.len() as int));
}

/// An accepted submission goes to the end of the validator's delivered-then-
/// queued sequence, whatever its mailbox answered.
pub proof fn lemma_submit_appends(before: SlotModel, e: ActionEnvelope, after: SlotModel)
    requires
        flushed(with_submitted(before, e), after),
    ensures
        after.delivered + after.pending == (before.delivered + before.pending).push(e),
        before.delivered.is_prefix_of(after.delivered),
{
    lemma_flush_keeps_order(with_submitted(before, e), after);
    assert(before.delivered + before.pending.push(e) =~= (before.delivered
        + before.pending).push(e));
}

/// Three actions submitted in turn for one validator come out of its queue in
/// that order, after everything queued before them.
pub proof fn lemma_submissions_in_order(
    m0: SlotModel,
    m1: SlotModel,
    m2: SlotModel,
    m3: SlotModel,
    a1: ActionEnvelope,
    a2: ActionEnvelope,
    a3: ActionEnvelope,
)
    requires
        flushed(with_submitted(m0, a1), m1),
        flushed(with_submitted(m1, a2), m2),
        flushed(with_submitted(m2, a3), m3),
    ensures
        m3.delivered + m3.pending == m0.delivered + m0.pending + seq![a1, a2, a3],
        m0.delivered.is_prefix_of(m3.delivered),
{
    lemma_submit_appends(m0, a1, m1);
    lemma_submit_appends(m1, a2, m2);
    lemma_submit_appends(m2, a3, m3);
    assert(m3.delivered + m3.pending =~= m0.delivered + m0.pending + seq![a1, a2, a3]);
    assert(m0.delivered =~= m3.delivered.subrange(0, m0.delivered.len() as int)) by {
        assert(m0.delivered =~= m1.delivered.subrange(0, m0.delivered.len() as int));
        assert(m1.delivered =~= m2.delivered.subrange(0, m1.delivered.len() as int));
        assert(m2.delivered =~= m3.delivered.subrange(0, m2.delivered.len() as int));
    }
}

/// An agent that goes away loses nothing: the envelopes its mailbox still
/// held unread go back to the head of the queue, in order, ahead of what was
/// queued; the next attachment is handed them first, and delivered-then-queued
/// stays what it was, without repeats.
pub proof fn lemma_reattach_resumes(before: SlotModel, unread: int, after: SlotModel)
    requires
        consistent(before),
        0 <= unread <= before.in_mailbox.len(),
        flushed(with_mailbox(returned(before, unread)), after),
    ensures
        returned(before, unread).pending == before.in_mailbox.skip(
            before.in_mailbox.len() - unread,
        ) + before.pending,
        after.delivered + after.pending == before.delivered + before.pending,
        returned(before, unread).delivered.is_prefix_of(after.delivered),
{
    let back = returned(before, unread);
    let d = before.delivered;
    let m = before.in_mailbox;
    assert(m.skip(m.len() - unread) =~= d.skip(d.len() - unread)) by {
        assert(m =~= d.skip(d.len() - m.len()));
    }
    assert(back.delivered + back.pending =~= d + before.pending) by {
        assert(d =~= d.take(d.len() - unread) + d.skip(d.len() - unread));
    }
    lemma_flush_keeps_order(with_mailbox(back), after);
}

/// In every reachable state each validator's delivered envelopes followed by
/// its queued ones are exactly what was submitted for it, in order.
pub proof fn lemma_nothing_lost(s: &ControlState)
    requires
        s.wf(),
    ensures
        forall|i: int|
            0 <= i < s@.len() ==> (#[trigger] s@[i]).delivered + s@[i].pending == s@[i].submitted,
{
    assert forall|i: int| 0 <= i < s@.len() implies (#[trigger] s@[i]).delivered + s@[i].pending
        == s@[i].submitted by {
        assert(s.slots@[i].inv());
    }
}

/// Every snapshot event is free of the secret.
proof fn lemma_snapshot_redacted(m: Seq<SlotModel>, filter: Seq<String>)
    ensures
        forall|k: int|
            0 <= k < snapshot_of(m, filter).len() ==> (#[trigger] snapshot_of(m, filter)[k]).auth_token.len()
                == 0,
    decreases m.len(),
{
    if m.len() > 0 {
        let prev = snapshot_of(m.drop_last(), filter);
        lemma_snapshot_redacted(m.drop_last(), filter);
        assert forall|k: int| 0 <= k < snapshot_of(m, filter).len() implies (
        #[trigger] snapshot_of(m, filter)[k]).auth_token.len() == 0 by {
            if k < prev.len() {
                assert(snapshot_of(m, filter)[k] == prev[k]);
            }
        }
    }
}

/// No secret ever leaves: neither on the bus nor in a snapshot.
pub proof fn lemma_no_secret_leaves(s: &ControlState, filter: Seq<String>)
    requires
        s.wf(),
    ensures
        forall|k: int| 0 <= k < s.events().len() ==> (#[trigger] s.events()[k]).auth_token.len() == 0,
        forall|k: int|
            0 <= k < snapshot_of(s@, filter).len() ==> (#[trigger] snapshot_of(
                s@,
                filter,
            )[k]).auth_token.len() == 0,
{
    lemma_snapshot_redacted(s@, filter);
}

/// A snapshot holds exactly one event for a validator with stored metrics that
/// the filter admits, its latest value, and none for any other id.
pub proof fn lemma_snapshot_entries_for(m: Seq<SlotModel>, filter: Seq<String>, id: Seq<char>)
    requires
        ids_unique(m),
    ensures
        snapshot_of(m, filter).filter(|e: MetricsUpdateView| e.validator_id == id) == match lookup(
            m,
            id,
        ) {
            Some(i) => match m[i].latest {
                Some(p) => if admits(filter, id) {
                    seq![redacted(id, p)]
                } else {
                    Seq::empty()
                },
                None => Seq::empty(),
            },
            None => Seq::empty(),
        },
    decreases m.len(),
{
    let pred = |e: MetricsUpdateView| e.validator_id == id;
    if m.len() == 0 {
        assert(snapshot_of(m, filter).filter(pred) =~= Seq::<MetricsUpdateView>::empty());
        assert(!(exists|i: int| 0 <= i < m.len() && m[i].id == id));
    } else {
        let prev = m.drop_last();
        let n = m.len() - 1;
        assert(ids_unique(prev)) by {
            assert forall|a: int, b: int|
                0 <= a < prev.len() && 0 <= b < prev.len() && a != b implies #[trigger] prev[a].id
                != #[trigger] prev[b].id by {
                assert(prev[a] == m[a]);
                assert(prev[b] == m[b]);
            }
        }
        lemma_snapshot_entries_for(prev, filter, id);
        let last = m.last();
        let ps = snapshot_of(prev, filter);
        assert(ps.filter(pred) == snapshot_of(prev, filter).filter(
            |e: MetricsUpdateView| e.validator_id == id,
        ));
        match last.latest {
            Some(p) => {
                if admits(filter, last.id) {
                    ps.lemma_filter_push(redacted(last.id, p), pred);
                }
            },
            None => {},
        }
        if last.id == id {
            lemma_lookup_at(m, n);
            assert(lookup(prev, id) is None) by {
                if exists|i: int| 0 <= i < prev.len() && prev[i].id == id {
                    let i = choose|i: int| 0 <= i < prev.len() && prev[i].id == id;
                    assert(m[i].id == m[n].id);
                }
            }
            assert(ps.filter(pred) =~= Seq::<MetricsUpdateView>::empty());
        } else if exists|i: int| 0 <= i < prev.len() && prev[i].id == id {
            let i = choose|i: int| 0 <= i < prev.len() && prev[i].id == id;
            assert(m[i] == prev[i]);
            lemma_lookup_at(prev, i);
            lemma_lookup_at(m, i);
        } else {
            assert(!(exists|i: int| 0 <= i < m.len() && m[i].id == id)) by {
                if exists|i: int| 0 <= i < m.len() && m[i].id == id {
                    let i = choose|i: int| 0 <= i < m.len() && m[i].id == id;
                    if i < n {
                        assert(prev[i] == m[i]);
                    }
                }
            }
        }
    }
}

/// A subscriber that took an unfiltered snapshot and then sees a first
/// publication for a validator meets that validator exactly once: not in the
/// snapshot, and once among the events sent after it subscribed, with the
/// published value and no secret.
pub proof fn lemma_fresh_publish_seen_once(
    s0: &ControlState,
    s1: &ControlState,
    i: int,
    payload: Seq<char>,
)
    requires
        s0.wf(),
        0 <= i < s0@.len(),
        s0@[i].latest is None,
        s1@ == s0@.update(i, with_metrics(s0@[i], payload)),
        s1.events() == s0.events().push(redacted(s0@[i].id, payload)),
    ensures
        snapshot_of(s0@, Seq::empty()).filter(|e: MetricsUpdateView| e.validator_id == s0@[i].id)
            == Seq::<MetricsUpdateView>::empty(),
        s1.events().skip(s0.events().len() as int) == seq![redacted(s0@[i].id, payload)],
        admits(Seq::empty(), s0@[i].id),
        redacted(s0@[i].id, payload).auth_token.len() == 0,
{
    lemma_lookup_at(s0@, i);
    lemma_snapshot_entries_for(s0@, Seq::empty(), s0@[i].id);
    assert(s1.events().skip(s0.events().len() as int) =~= seq![redacted(s0@[i].id, payload)]);
}

} // verus!
