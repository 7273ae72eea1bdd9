//! Runtime update queues between external producers (BLE / bridge) and the
//! main loop, and the main loop's application of queued updates.
//!
//! External producers enqueue [`BleEvent`] updates into a bridge queue; a pump
//! forwards them into the external-event queue that the main loop drains and
//! applies to its [`TagState`].
use vstd::prelude::*;
use vstd::string::StringSliceAdditionalSpecFns;
use embassy_sync::blocking_mutex::raw::CriticalSectionRawMutex;
use embassy_sync::channel::{Channel, TrySendError};
use crate::firmware::config::{STOCK_MAX, STOCK_MIN};
use crate::firmware::grocy::{stock_in_range, BleEvent, TagState};
use crate::firmware::text::{
    code_bytes, code_eq, code_new, code_push_str, name_bytes, name_eq, name_new, name_push_str,
};

verus! {

/// Capacity of each event queue.
pub const EVENT_QUEUE_LEN: usize = 8;

/// What an event says, with its strings seen as bytes.
pub enum EventView {
    Connected,
    Disconnected,
    ProductName(Seq<u8>),
    Grocycode(Seq<u8>),
    Stock(i32),
}

/// The view of an event.
pub open spec fn event_view(e: BleEvent) -> EventView {
    match e {
        BleEvent::Connected => EventView::Connected,
        BleEvent::Disconnected => EventView::Disconnected,
        BleEvent::ProductNameChanged(s) => EventView::ProductName(name_bytes(s)),
        BleEvent::GrocycodeChanged(s) => EventView::Grocycode(code_bytes(s)),
        BleEvent::StockCountChanged(n) => EventView::Stock(n),
    }
}

/// An `embassy_sync` channel of events with room for eight of them, guarded
/// by a critical-section mutex.
#[verifier::external_body]
pub struct EventChannel {
    channel: Channel<CriticalSectionRawMutex, BleEvent, 8>,
}

/// The events an event channel holds, oldest first.
pub uninterp spec fn channel_events(c: EventChannel) -> Seq<BleEvent>;

/// `Channel::new`: an empty channel.
#[verifier::external_body]
fn channel_new() -> (r: EventChannel)
    ensures
        channel_events(r) == Seq::<BleEvent>::empty(),
{
    EventChannel { channel: Channel::new() }
}

/// `Channel::len`: the number of queued events, never more than the capacity.
#[verifier::external_body]
fn channel_len(c: &EventChannel) -> (r: usize)
    ensures
        r == channel_events(*c).len(),
        r <= 8,
{
    c.channel.len()
}

/// `Channel::try_send`: appends `event` at the back unless the channel holds
/// its capacity of events already; then the event is handed back and the
/// channel stays as it was.
#[verifier::external_body]
fn channel_try_send(c: &mut EventChannel, event: BleEvent) -> (r: Result<(), BleEvent>)
    ensures
        (channel_events(*old(c)).len() < 8) == (r is Ok),
        r is Ok ==> channel_events(*final(c)) == channel_events(*old(c)).push(event),
        r is Err ==> channel_events(*final(c)) == channel_events(*old(c)),
        (r matches Err(e) ==> e == event),
{
    match c.channel.try_send(event) {
        Ok(()) => Ok(()),
        Err(TrySendError::Full(e)) => Err(e),
    }
}

/// `Channel::try_receive`: takes the event at the front, if there is one.
#[verifier::external_body]
fn channel_try_receive(c: &mut EventChannel) -> (r: Option<BleEvent>)
    ensures
        channel_events(*old(c)).len() == 0 ==> r is None && channel_events(*final(c))
            == channel_events(*old(c)),
        channel_events(*old(c)).len() > 0 ==> r == Some(channel_events(*old(c))[0])
            && channel_events(*final(c)) == channel_events(*old(c)).drop_first(),
{
    c.channel.try_receive().ok()
}

/// A bounded first-in first-out queue of events holding at most
/// [`EVENT_QUEUE_LEN`] of them.
pub struct EventQueue {
    channel: EventChannel,
}

impl EventQueue {
    /// The queued events, oldest first.
    pub closed spec fn view_events(&self) -> Seq<EventView> {
        channel_events(self.channel).map_values(|e: BleEvent| event_view(e))
    }

    /// An empty queue.
    pub fn new() -> (r: EventQueue)
        ensures
            r.view_events() == Seq::<EventView>::empty(),
    {
        let r = EventQueue { channel: channel_new() };
        assert(r.view_events() =~= Seq::<EventView>::empty());
        r
    }

    /// Number of queued events.
    pub fn len(&self) -> (r: usize)
        ensures
            r == self.view_events().len(),
            r <= EVENT_QUEUE_LEN,
    {
        channel_len(&self.channel)
    }

    /// Enqueue `event` unless the queue is full; when full, hand it back.
    pub fn try_send(&mut self, event: BleEvent) -> (r: Result<(), BleEvent>)
        ensures
            (old(self).view_events().len() < EVENT_QUEUE_LEN) == (r is Ok),
            r is Ok ==> final(self).view_events() == old(self).view_events().push(
                event_view(event),
            ),
            r is Err ==> final(self).view_events() == old(self).view_events(),
            (r matches Err(e) ==> e == event),
    {
        let ghost before = channel_events(self.channel);
        let r = channel_try_send(&mut self.channel, event);
        proof {
            assert(before.push(event).map_values(|e: BleEvent| event_view(e)) =~= before.map_values(
                |e: BleEvent| event_view(e),
            ).push(event_view(event)));
        }
        r
    }

    /// Dequeue the oldest event, if any.
    pub fn try_receive(&mut self) -> (r: Option<BleEvent>)
        ensures
            old(self).view_events().len() == 0 ==> r is None && final(self).view_events()
                == old(self).view_events(),
            old(self).view_events().len() > 0 ==> (r matches Some(e) && event_view(e)
                == old(self).view_events()[0]) && final(self).view_events()
                == old(self).view_events().drop_first(),
    {
        let ghost before = channel_events(self.channel);
        let r = channel_try_receive(&mut self.channel);
        proof {
            if before.len() > 0 {
                assert(before.drop_first().map_values(|e: BleEvent| event_view(e))
                    =~= before.map_values(|e: BleEvent| event_view(e)).drop_first());
            }
        }
        r
    }
}

/// Enqueue an event from the BLE/bridge integration side; when the queue is
/// full the event is handed back.
pub fn publish_bridge_event(queue: &mut EventQueue, event: BleEvent) -> (r: Result<(), BleEvent>)
    ensures
        (old(queue).view_events().len() < EVENT_QUEUE_LEN) == (r is Ok),
        r is Ok ==> final(queue).view_events() == old(queue).view_events().push(event_view(event)),
        r is Err ==> final(queue).view_events() == old(queue).view_events(),
        (r matches Err(e) ==> e == event),
{
    queue.try_send(event)
}

/// Enqueue a state update from an external producer task; when the queue is
/// full the event is dropped and handed back.
pub fn publish_external_event(queue: &mut EventQueue, event: BleEvent) -> (r: Result<(), BleEvent>)
    ensures
        (old(queue).view_events().len() < EVENT_QUEUE_LEN) == (r is Ok),
        r is Ok ==> final(queue).view_events() == old(queue).view_events().push(event_view(event)),
        r is Err ==> final(queue).view_events() == old(queue).view_events(),
        (r matches Err(e) ==> e == event),
{
    queue.try_send(event)
}

/// Try to dequeue one external event, if any.
pub fn try_receive_external_event(queue: &mut EventQueue) -> (r: Option<BleEvent>)
    ensures
        old(queue).view_events().len() == 0 ==> r is None && final(queue).view_events()
            == old(queue).view_events(),
        old(queue).view_events().len() > 0 ==> (r matches Some(e) && event_view(e)
            == old(queue).view_events()[0]) && final(queue).view_events()
            == old(queue).view_events().drop_first(),
{
    queue.try_receive()
}

/// Raw external payload for runtime state updates: each `Some` field becomes
/// one event, in the order connected, product name, Grocycode, stock count.
#[derive(Debug, Clone, Copy, Default)]
pub struct BridgeUpdate<'a> {
    pub connected: Option<bool>,
    pub product_name: Option<&'a str>,
    pub grocycode: Option<&'a str>,
    pub stock_count: Option<i32>,
}

/// Errors returned while translating or enqueueing bridge updates.
#[derive(Debug, Clone, Copy, PartialEq, Eq, Structural)]
pub enum BridgeUpdateError {
    ProductNameTooLong,
    GrocycodeTooLong,
    QueueFull,
}

/// Outcome of [`publish_bridge_update_best_effort`].
#[derive(Debug, Clone, Copy, Default, PartialEq, Eq, Structural)]
pub struct BridgeUpdateBestEffortReport {
    pub published: u8,
    pub skipped_too_long: u8,
    pub skipped_queue_full: u8,
}

/// One field of an update, made ready: an event to enqueue, or the reason it
/// cannot be represented.
pub enum StepView {
    Publish(EventView),
    Reject(BridgeUpdateError),
}

/// The steps of an update: one per `Some` field, in field order. A product
/// name over 32 bytes or a Grocycode over 20 bytes cannot be represented.
pub open spec fn update_steps(u: BridgeUpdate) -> Seq<StepView> {
    let s0 = match u.connected {
        Some(c) => seq![
            StepView::Publish(
                if c {
                    EventView::Connected
                } else {
                    EventView::Disconnected
                },
            ),
        ],
        None => Seq::<StepView>::empty(),
    };
    let s1 = match u.product_name {
        Some(n) => seq![
            if n.spec_bytes().len() <= 32 {
                StepView::Publish(EventView::ProductName(n.spec_bytes()))
            } else {
                StepView::Reject(BridgeUpdateError::ProductNameTooLong)
            },
        ],
        None => Seq::<StepView>::empty(),
    };
    let s2 = match u.grocycode {
        Some(c) => seq![
            if c.spec_bytes().len() <= 20 {
                StepView::Publish(EventView::Grocycode(c.spec_bytes()))
            } else {
                StepView::Reject(BridgeUpdateError::GrocycodeTooLong)
            },
        ],
        None => Seq::<StepView>::empty(),
    };
    let s3 = match u.stock_count {
        Some(n) => seq![StepView::Publish(EventView::Stock(n))],
        None => Seq::<StepView>::empty(),
    };
    s0 + s1 + s2 + s3
}

/// Fail-fast processing of `steps` from index `i` with `free` places left in
/// the queue and `count` events already published: the events enqueued, and
/// the count or the first error (an unrepresentable field or a full queue).
pub open spec fn fail_fast(steps: Seq<StepView>, i: int, free: int, count: int) -> (
    Seq<EventView>,
    Result<u8, BridgeUpdateError>,
)
    decreases steps.len() - i,
{
    if i >= steps.len() || i < 0 {
        (Seq::empty(), Ok(count as u8))
    } else {
        match steps[i] {
            StepView::Reject(e) => (Seq::empty(), Err(e)),
            StepView::Publish(ev) => if free <= 0 {
                (Seq::empty(), Err(BridgeUpdateError::QueueFull))
            } else {
                let r = fail_fast(steps, i + 1, free - 1, count + 1);
                (seq![ev] + r.0, r.1)
            },
        }
    }
}

/// Best-effort processing of `steps` from index `i` with `free` places left:
/// the events enqueued and the report, each skipped field counted by reason.
pub open spec fn best_effort(
    steps: Seq<StepView>,
    i: int,
    free: int,
    report: BridgeUpdateBestEffortReport,
) -> (Seq<EventView>, BridgeUpdateBestEffortReport)
    decreases steps.len() - i,
{
    if i >= steps.len() || i < 0 {
        (Seq::empty(), report)
    } else {
        match steps[i] {
            StepView::Reject(_) => best_effort(
                steps,
                i + 1,
                free,
                BridgeUpdateBestEffortReport {
                    skipped_too_long: (report.skipped_too_long + 1) as u8,
                    ..report
                },
            ),
            StepView::Publish(ev) => if free <= 0 {
                best_effort(
                    steps,
                    i + 1,
                    free,
                    BridgeUpdateBestEffortReport {
                        skipped_queue_full: (report.skipped_queue_full + 1) as u8,
                        ..report
                    },
                )
            } else {
                let r = best_effort(
                    steps,
                    i + 1,
                    free - 1,
                    BridgeUpdateBestEffortReport { published: (report.published + 1) as u8, ..report },
                );
                (seq![ev] + r.0, r.1)
            },
        }
    }
}

/// An update field made ready for the queue.
enum UpdateStep {
    Publish(BleEvent),
    Reject(BridgeUpdateError),
}

spec fn step_view(s: UpdateStep) -> StepView {
    match s {
        UpdateStep::Publish(e) => StepView::Publish(event_view(e)),
        UpdateStep::Reject(e) => StepView::Reject(e),
    }
}

/// Turn each `Some` field of `update` into an event, or into the reason it
/// cannot be represented in the firmware's fixed-capacity strings.
fn prepare_steps(update: BridgeUpdate<'_>) -> (r: Vec<UpdateStep>)
    ensures
        r@.map_values(|s: UpdateStep| step_view(s)) == update_steps(update),
        r@.len() <= 4,
{
    let mut steps: Vec<UpdateStep> = Vec::new();
    if let Some(connected) = update.connected {
        let event = if connected {
            BleEvent::Connected
        } else {
            BleEvent::Disconnected
        };
        steps.push(UpdateStep::Publish(event));
    }
    let ghost n0 = steps@;
    if let Some(name) = update.product_name {
        let mut product_name = name_new();
        match name_push_str(&mut product_name, name) {
            Ok(()) => {
                steps.push(UpdateStep::Publish(BleEvent::ProductNameChanged(product_name)));
            },
            Err(_) => {
                steps.push(UpdateStep::Reject(BridgeUpdateError::ProductNameTooLong));
            },
        }
    }
    let ghost n1 = steps@;
    if let Some(code) = update.grocycode {
        let mut grocycode = code_new();
        match code_push_str(&mut grocycode, code) {
            Ok(()) => {
                steps.push(UpdateStep::Publish(BleEvent::GrocycodeChanged(grocycode)));
            },
            Err(_) => {
                steps.push(UpdateStep::Reject(BridgeUpdateError::GrocycodeTooLong));
            },
        }
    }
    let ghost n2 = steps@;
    if let Some(stock) = update.stock_count {
        steps.push(UpdateStep::Publish(BleEvent::StockCountChanged(stock)));
    }
    proof {
        let u = update;
        let s0 = match u.connected {
            Some(c) => seq![
                StepView::Publish(
                    if c {
                        EventView::Connected
                    } else {
                        EventView::Disconnected
                    },
                ),
            ],
            None => Seq::<StepView>::empty(),
        };
        assert(n0.map_values(|s: UpdateStep| step_view(s)) =~= s0);
        assert(n1.map_values(|s: UpdateStep| step_view(s)) =~= s0 + update_steps(
            BridgeUpdate { connected: None, grocycode: None, stock_count: None, ..u },
        ));
        assert(n2.map_values(|s: UpdateStep| step_view(s)) =~= update_steps(
            BridgeUpdate { stock_count: None, ..u },
        ));
        assert(steps@.map_values(|s: UpdateStep| step_view(s)) =~= update_steps(u));
    }
    steps
}

/// Convert a raw bridge update into events and enqueue them, failing fast:
/// processing stops at the first field that does not fit its fixed-capacity
/// string or finds the queue full, and that error is returned (events already
/// enqueued stay). Otherwise returns the number of events enqueued.
pub fn publish_bridge_update(queue: &mut EventQueue, update: BridgeUpdate<'_>) -> (r: Result<
    u8,
    BridgeUpdateError,
>)
    ensures
        ({
            let (evs, res) = fail_fast(
                update_steps(update),
                0,
                EVENT_QUEUE_LEN - old(queue).view_events().len(),
                0,
            );
            final(queue).view_events() == old(queue).view_events() + evs && r == res
        }),
{
    let steps = prepare_steps(update);
    let ghost sv = steps@.map_values(|s: UpdateStep| step_view(s));
    let ghost free0 = EVENT_QUEUE_LEN - queue.view_events().len();
    let ghost q0 = queue.view_events();
    let mut published = 0u8;
    let mut steps = steps;
    let mut i: usize = 0;
    let ghost mut done: Seq<EventView> = Seq::empty();
    while steps.len() > 0
        invariant
            sv == update_steps(update),
            sv.len() <= 4,
            i + steps@.len() == sv.len(),
            forall|k: int| 0 <= k < steps@.len() ==> step_view(#[trigger] steps@[k]) == sv[i + k],
            published == i,
            q0 == old(queue).view_events(),
            queue.view_events() == q0 + done,
            free0 == EVENT_QUEUE_LEN - q0.len(),
            done.len() == i,
            fail_fast(sv, 0, free0, 0) == ({
                let r = fail_fast(sv, i as int, free0 - i, i as int);
                (done + r.0, r.1)
            }),
        decreases steps.len(),
    {
        let step = steps.remove(0);
        assert(step_view(step) == sv[i as int]);
        match step {
            UpdateStep::Reject(e) => {
                assert(fail_fast(sv, i as int, free0 - i, i as int) == (
                    Seq::<EventView>::empty(),
                    Err::<u8, BridgeUpdateError>(e),
                ));
                assert(done + Seq::<EventView>::empty() =~= done);
                assert(queue.view_events() == q0 + fail_fast(sv, 0, free0, 0).0);
                return Err(e);
            },
            UpdateStep::Publish(event) => {
                match publish_bridge_event(queue, event) {
                    Ok(()) => {},
                    Err(_) => {
                        assert(free0 - i <= 0);
                        assert(fail_fast(sv, i as int, free0 - i, i as int) == (
                            Seq::<EventView>::empty(),
                            Err::<u8, BridgeUpdateError>(BridgeUpdateError::QueueFull),
                        ));
                        assert(done + Seq::<EventView>::empty() =~= done);
                        assert(queue.view_events() == q0 + fail_fast(sv, 0, free0, 0).0);
                        return Err(BridgeUpdateError::QueueFull);
                    },
                }
                published = published.saturating_add(1);
                proof {
                    let r = fail_fast(sv, i + 1, free0 - i - 1, i + 1);
                    assert(done + (seq![event_view(event)] + r.0) =~= done.push(event_view(event))
                        + r.0);
                    done = done.push(event_view(event));
                    assert(queue.view_events() =~= q0 + done);
                }
                i += 1;
            },
        }
    }
    assert(done + Seq::<EventView>::empty() =~= done);
    Ok(published)
}

/// Best-effort bridge payload publisher (the recommended default): fields that
/// do not fit their strings and events that find the queue full are skipped and
/// counted, while the other fields are still published.
pub fn publish_bridge_update_best_effort(queue: &mut EventQueue, update: BridgeUpdate<'_>) -> (r:
    BridgeUpdateBestEffortReport)
    ensures
        ({
            let (evs, rep) = best_effort(
                update_steps(update),
                0,
                EVENT_QUEUE_LEN - old(queue).view_events().len(),
                BridgeUpdateBestEffortReport {
                    published: 0,
                    skipped_too_long: 0,
                    skipped_queue_full: 0,
                },
            );
            final(queue).view_events() == old(queue).view_events() + evs && r == rep
        }),
{
    let steps = prepare_steps(update);
    let ghost sv = steps@.map_values(|s: UpdateStep| step_view(s));
    let ghost free0 = EVENT_QUEUE_LEN - queue.view_events().len();
    let ghost q0 = queue.view_events();
    let ghost r0 = BridgeUpdateBestEffortReport {
        published: 0,
        skipped_too_long: 0,
        skipped_queue_full: 0,
    };
    let mut report = BridgeUpdateBestEffortReport {
        published: 0,
        skipped_too_long: 0,
        skipped_queue_full: 0,
    };
    let mut steps = steps;
    let ghost mut i: int = 0;
    let ghost mut done: Seq<EventView> = Seq::empty();
    while steps.len() > 0
        invariant
            sv == update_steps(update),
            sv.len() <= 4,
            i + steps@.len() == sv.len(),
            0 <= i,
            forall|k: int| 0 <= k < steps@.len() ==> step_view(#[trigger] steps@[k]) == sv[i + k],
            report.published + report.skipped_too_long + report.skipped_queue_full == i,
            queue.view_events() == q0 + done,
            free0 == EVENT_QUEUE_LEN - q0.len(),
            done.len() == report.published,
            best_effort(sv, 0, free0, r0) == ({
                let r = best_effort(sv, i, free0 - report.published, report);
                (done + r.0, r.1)
            }),
        decreases steps.len(),
    {
        let step = steps.remove(0);
        assert(step_view(step) == sv[i]);
        match step {
            UpdateStep::Reject(_) => {
                report.skipped_too_long = report.skipped_too_long.saturating_add(1);
            },
            UpdateStep::Publish(event) => {
                if publish_bridge_event(queue, event).is_ok() {
                    report.published = report.published.saturating_add(1);
                    proof {
                        let r = best_effort(sv, i + 1, free0 - report.published, report);
                        assert(done + (seq![event_view(event)] + r.0) =~= done.push(
                            event_view(event),
                        ) + r.0);
                        done = done.push(event_view(event));
                        assert(queue.view_events() =~= q0 + done);
                    }
                } else {
                    report.skipped_queue_full = report.skipped_queue_full.saturating_add(1);
                }
            },
        }
        proof {
            i = i + 1;
        }
    }
    assert(done + Seq::<EventView>::empty() =~= done);
    report
}

proof fn lemma_best_effort_counts(
    steps: Seq<StepView>,
    i: int,
    free: int,
    report: BridgeUpdateBestEffortReport,
)
    requires
        0 <= i <= steps.len() <= 4,
        report.published + report.skipped_too_long + report.skipped_queue_full == i,
    ensures
        ({
            let (evs, rep) = best_effort(steps, i, free, report);
            &&& rep.published + rep.skipped_too_long + rep.skipped_queue_full == steps.len()
            &&& evs.len() == rep.published - report.published
        }),
    decreases steps.len() - i,
{
    if i < steps.len() {
        match steps[i] {
            StepView::Reject(_) => {
                lemma_best_effort_counts(
                    steps,
                    i + 1,
                    free,
                    BridgeUpdateBestEffortReport {
                        skipped_too_long: (report.skipped_too_long + 1) as u8,
                        ..report
                    },
                );
            },
            StepView::Publish(_) => {
                if free <= 0 {
                    lemma_best_effort_counts(
                        steps,
                        i + 1,
                        free,
                        BridgeUpdateBestEffortReport {
                            skipped_queue_full: (report.skipped_queue_full + 1) as u8,
                            ..report
                        },
                    );
                } else {
                    lemma_best_effort_counts(
                        steps,
                        i + 1,
                        free - 1,
                        BridgeUpdateBestEffortReport {
                            published: (report.published + 1) as u8,
                            ..report
                        },
                    );
                }
            },
        }
    }
}

/// Every field present in an update is accounted for exactly once by the
/// best-effort publisher: published, skipped as too long, or skipped because
/// the queue was full; and exactly the published ones are enqueued.
pub proof fn lemma_best_effort_accounts_every_field(u: BridgeUpdate, free: int)
    ensures
        ({
            let (evs, rep) = best_effort(
                update_steps(u),
                0,
                free,
                BridgeUpdateBestEffortReport {
                    published: 0,
                    skipped_too_long: 0,
                    skipped_queue_full: 0,
                },
            );
            &&& rep.published + rep.skipped_too_long + rep.skipped_queue_full
                == update_steps(u).len()
            &&& evs.len() == rep.published
        }),
{
    lemma_best_effort_counts(
        update_steps(u),
        0,
        free,
        BridgeUpdateBestEffortReport { published: 0, skipped_too_long: 0, skipped_queue_full: 0 },
    );
}

proof fn lemma_fail_fast_ok(steps: Seq<StepView>, i: int, free: int, count: int)
    requires
        0 <= i <= steps.len() <= 4,
        0 <= count <= 4,
        count == i,
    ensures
        ({
            let (evs, res) = fail_fast(steps, i, free, count);
            res is Ok ==> res->Ok_0 == steps.len() && evs.len() == steps.len() - i
        }),
    decreases steps.len() - i,
{
    if i < steps.len() {
        if let StepView::Publish(_) = steps[i] {
            if free > 0 {
                lemma_fail_fast_ok(steps, i + 1, free - 1, count + 1);
            }
        }
    }
}

/// When the fail-fast publisher succeeds, it has enqueued one event for every
/// field present in the update, and reports that number.
pub proof fn lemma_fail_fast_success_publishes_all(u: BridgeUpdate, free: int)
    ensures
        ({
            let (evs, res) = fail_fast(update_steps(u), 0, free, 0);
            res is Ok ==> res->Ok_0 == update_steps(u).len() && evs.len() == update_steps(u).len()
        }),
{
    lemma_fail_fast_ok(update_steps(u), 0, free, 0);
}

/// A stock count clamped into `[STOCK_MIN, STOCK_MAX]`.
pub open spec fn clamp_stock(n: i32) -> i32 {
    if n < STOCK_MIN {
        STOCK_MIN
    } else if n > STOCK_MAX {
        STOCK_MAX
    } else {
        n
    }
}

/// What a tag holds: the bytes of its Grocycode and product name, and its stock.
pub open spec fn tag_view(s: TagState) -> (Seq<u8>, Seq<u8>, i32) {
    (code_bytes(s.grocycode), name_bytes(s.product_name), s.stock_count)
}

/// One external event applied to a tag: names and codes replace the old ones,
/// stock counts are clamped into range, connection events change nothing.
/// Also says whether anything changed.
pub open spec fn apply_event(t: (Seq<u8>, Seq<u8>, i32), e: EventView) -> (
    (Seq<u8>, Seq<u8>, i32),
    bool,
) {
    match e {
        EventView::Connected => (t, false),
        EventView::Disconnected => (t, false),
        EventView::ProductName(n) => if t.1 != n {
            ((t.0, n, t.2), true)
        } else {
            (t, false)
        },
        EventView::Grocycode(c) => if t.0 != c {
            ((c, t.1, t.2), true)
        } else {
            (t, false)
        },
        EventView::Stock(n) => if t.2 != clamp_stock(n) {
            ((t.0, t.1, clamp_stock(n)), true)
        } else {
            (t, false)
        },
    }
}

/// Events applied in order; whether any of them changed the tag.
pub open spec fn apply_events(t: (Seq<u8>, Seq<u8>, i32), evs: Seq<EventView>) -> (
    (Seq<u8>, Seq<u8>, i32),
    bool,
)
    decreases evs.len(),
{
    if evs.len() == 0 {
        (t, false)
    } else {
        let (t1, c1) = apply_event(t, evs[0]);
        let (t2, c2) = apply_events(t1, evs.drop_first());
        (t2, c1 || c2)
    }
}

/// Drain the external-event queue into the tag state, in order; returns
/// whether any event changed the state.
pub fn apply_pending_external_updates(state: &mut TagState, queue: &mut EventQueue) -> (changed:
    bool)
    ensures
        final(queue).view_events().len() == 0,
        (tag_view(*final(state)), changed) == apply_events(
            tag_view(*old(state)),
            old(queue).view_events(),
        ),
{
    let ghost t0 = tag_view(*state);
    let ghost q0 = queue.view_events();
    let mut changed = false;
    loop
        invariant
            apply_events(t0, q0) == ({
                let r = apply_events(tag_view(*state), queue.view_events());
                (r.0, changed || r.1)
            }),
        ensures
            queue.view_events().len() == 0,
            apply_events(t0, q0) == (tag_view(*state), changed),
        decreases queue.view_events().len(),
    {
        let ghost before = tag_view(*state);
        let ghost evs = queue.view_events();
        let event = match try_receive_external_event(queue) {
            Some(e) => e,
            None => break,
        };
        match event {
            BleEvent::Connected => {},
            BleEvent::Disconnected => {},
            BleEvent::ProductNameChanged(new_name) => {
                if !name_eq(&state.product_name, &new_name) {
                    state.product_name = new_name;
                    changed = true;
                }
            },
            BleEvent::GrocycodeChanged(new_code) => {
                if !code_eq(&state.grocycode, &new_code) {
                    state.grocycode = new_code;
                    changed = true;
                }
            },
            BleEvent::StockCountChanged(new_stock) => {
                let clamped = if new_stock < STOCK_MIN {
                    STOCK_MIN
                } else if new_stock > STOCK_MAX {
                    STOCK_MAX
                } else {
                    new_stock
                };
                if state.stock_count != clamped {
                    state.stock_count = clamped;
                    changed = true;
                }
            },
        }
        assert(apply_event(before, evs[0]).0 == tag_view(*state));
    }
    changed
}

/// Applying external updates never takes a tag's stock out of the displayable
/// range `[STOCK_MIN, STOCK_MAX]`.
pub proof fn lemma_updates_keep_stock_in_range(t: (Seq<u8>, Seq<u8>, i32), evs: Seq<EventView>)
    requires
        stock_in_range(t.2 as int),
    ensures
        stock_in_range(apply_events(t, evs).0.2 as int),
    decreases evs.len(),
{
    if evs.len() > 0 {
        let (t1, _) = apply_event(t, evs[0]);
        lemma_updates_keep_stock_in_range(t1, evs.drop_first());
    }
}

/// Applying one more event after a run of events: a Grocycode or product name
/// event leaves the tag with exactly that code or name, whatever it held
/// before; a stock event leaves the count clamped into
/// `[STOCK_MIN, STOCK_MAX]`; connection events leave the tag as it was. The
/// run reports a change exactly when an earlier event changed the tag or the
/// last one replaced a different value.
pub proof fn lemma_last_event_decides(
    t: (Seq<u8>, Seq<u8>, i32),
    evs: Seq<EventView>,
    e: EventView,
)
    ensures
        ({
            let (t1, c1) = apply_events(t, evs);
            let (t2, c2) = apply_events(t, evs.push(e));
            match e {
                EventView::Grocycode(c) => t2 == (c, t1.1, t1.2) && c2 == (c1 || t1.0 != c),
                EventView::ProductName(n) => t2 == (t1.0, n, t1.2) && c2 == (c1 || t1.1 != n),
                EventView::Stock(n) => {
                    let k = if n < STOCK_MIN {
                        STOCK_MIN
                    } else if n > STOCK_MAX {
                        STOCK_MAX
                    } else {
                        n
                    };
                    t2 == (t1.0, t1.1, k) && c2 == (c1 || t1.2 != k)
                },
                EventView::Connected => t2 == t1 && c2 == c1,
                EventView::Disconnected => t2 == t1 && c2 == c1,
            }
        }),
    decreases evs.len(),
{
    if evs.len() > 0 {
        let (ta, _) = apply_event(t, evs[0]);
        assert(evs.push(e).drop_first() =~= evs.drop_first().push(e));
        assert(evs.push(e)[0] == evs[0]);
        lemma_last_event_decides(ta, evs.drop_first(), e);
    } else {
        assert(evs.push(e).drop_first() =~= Seq::<EventView>::empty());
        assert(evs.push(e)[0] == e);
        let (te, ce) = apply_event(t, e);
        assert(apply_events(te, Seq::<EventView>::empty()) == (te, false));
        assert(apply_events(t, evs.push(e)) == (te, ce));
    }
}

/// One round of the pump between the queues: move the oldest bridge event, if
/// any, into the external-event queue. `None` when there was none; otherwise
/// the outcome of enqueueing it, the event handed back (and dropped) when the
/// external queue is full.
pub fn forward_bridge_event(bridge: &mut EventQueue, external: &mut EventQueue) -> (r: Option<
    Result<(), BleEvent>,
>)
    ensures
        old(bridge).view_events().len() == 0 ==> r is None && final(bridge).view_events()
            == old(bridge).view_events() && final(external).view_events()
            == old(external).view_events(),
        old(bridge).view_events().len() > 0 ==> {
            &&& final(bridge).view_events() == old(bridge).view_events().drop_first()
            &&& r matches Some(res)
            &&& (old(external).view_events().len() < EVENT_QUEUE_LEN) == (res is Ok)
            &&& res is Ok ==> final(external).view_events() == old(external).view_events().push(
                old(bridge).view_events()[0],
            )
            &&& res is Err ==> final(external).view_events() == old(external).view_events()
        },
{
    match bridge.try_receive() {
        Some(event) => Some(publish_external_event(external, event)),
        None => None,
    }
}

/// Whether the tag differs from what was last drawn (Grocycode, product name or
/// stock), that is, whether the display needs a redraw.
pub fn tag_changed(current: &TagState, last_rendered: &TagState) -> (r: bool)
    ensures
        r == (tag_view(*current) != tag_view(*last_rendered)),
{
    !(code_eq(&current.grocycode, &last_rendered.grocycode) && name_eq(
        &current.product_name,
        &last_rendered.product_name,
    ) && current.stock_count == last_rendered.stock_count)
}

} // verus!
