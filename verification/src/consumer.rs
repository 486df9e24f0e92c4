use vstd::prelude::*;

use crate::broker::{resolve_broker_addr, spec_default_broker_addr, BrokerErrorKind};
use crate::json::{parse_inventory_item, spec_parse_item};
use crate::records::InventoryItem;

verus! {

/// Everything a consumer registration sends: the broker address, the
/// queue to drain, and the fixed consumer identifier.
pub struct ConsumeRequest {
    pub addr: String,
    pub queue: String,
    pub consumer_tag: String,
}

/// The request that registers the consumer on `inventory_queue` under
/// the identifier `my_consumer`.
pub fn consume_request(cfg: &Option<String>) -> (r: ConsumeRequest)
    ensures
        match cfg {
            Some(s) => r.addr@ == s@,
            None => r.addr@ == spec_default_broker_addr(),
        },
        r.queue@ == "inventory_queue"@,
        r.consumer_tag@ == "my_consumer"@,
{
    ConsumeRequest {
        addr: resolve_broker_addr(cfg),
        queue: String::from_str("inventory_queue"),
        consumer_tag: String::from_str("my_consumer"),
    }
}

/// Where a consumer registration stands. Like a publish operation it
/// is a straight line — connect, open a channel, subscribe — and any
/// failure moves it to `Aborted` for good. Once `Subscribed` it is
/// done: control returns to the caller and deliveries arrive through
/// the registered callback.
#[derive(Clone, Copy, Debug, PartialEq, Eq)]
pub enum ConsumePhase {
    Start,
    Connected,
    ChannelOpened,
    Subscribed,
    Aborted(BrokerErrorKind),
}

/// The broker calls a consumer registration performs, in order.
#[derive(Clone, Copy, Debug, PartialEq, Eq)]
pub enum ConsumeAction {
    Connect,
    OpenChannel,
    Subscribe,
}

/// The single call a consumer registration makes next; a registered or
/// aborted one makes none.
pub open spec fn spec_consume_next_action(p: ConsumePhase) -> Option<ConsumeAction> {
    match p {
        ConsumePhase::Start => Some(ConsumeAction::Connect),
        ConsumePhase::Connected => Some(ConsumeAction::OpenChannel),
        ConsumePhase::ChannelOpened => Some(ConsumeAction::Subscribe),
        ConsumePhase::Subscribed => None,
        ConsumePhase::Aborted(_) => None,
    }
}

/// The phase after the pending call came back: success advances one
/// step, failure aborts with the failing step's error kind.
pub open spec fn spec_consume_advance(p: ConsumePhase, ok: bool) -> ConsumePhase {
    match p {
        ConsumePhase::Start => if ok {
            ConsumePhase::Connected
        } else {
            ConsumePhase::Aborted(BrokerErrorKind::Connection)
        },
        ConsumePhase::Connected => if ok {
            ConsumePhase::ChannelOpened
        } else {
            ConsumePhase::Aborted(BrokerErrorKind::Channel)
        },
        ConsumePhase::ChannelOpened => if ok {
            ConsumePhase::Subscribed
        } else {
            ConsumePhase::Aborted(BrokerErrorKind::Subscribe)
        },
        ConsumePhase::Subscribed => ConsumePhase::Subscribed,
        ConsumePhase::Aborted(k) => ConsumePhase::Aborted(k),
    }
}

pub fn consume_next_action(p: &ConsumePhase) -> (a: Option<ConsumeAction>)
    ensures
        a == spec_consume_next_action(*p),
{
    match p {
        ConsumePhase::Start => Some(ConsumeAction::Connect),
        ConsumePhase::Connected => Some(ConsumeAction::OpenChannel),
        ConsumePhase::ChannelOpened => Some(ConsumeAction::Subscribe),
        ConsumePhase::Subscribed => None,
        ConsumePhase::Aborted(_) => None,
    }
}

pub fn consume_advance(p: &ConsumePhase, ok: bool) -> (q: ConsumePhase)
    ensures
        q == spec_consume_advance(*p, ok),
{
    match p {
        ConsumePhase::Start => if ok {
            ConsumePhase::Connected
        } else {
            ConsumePhase::Aborted(BrokerErrorKind::Connection)
        },
        ConsumePhase::Connected => if ok {
            ConsumePhase::ChannelOpened
        } else {
            ConsumePhase::Aborted(BrokerErrorKind::Channel)
        },
        ConsumePhase::ChannelOpened => if ok {
            ConsumePhase::Subscribed
        } else {
            ConsumePhase::Aborted(BrokerErrorKind::Subscribe)
        },
        ConsumePhase::Subscribed => ConsumePhase::Subscribed,
        ConsumePhase::Aborted(k) => ConsumePhase::Aborted(*k),
    }
}

/// The consumer's verdict on one delivered payload: acknowledge it,
/// carrying the decoded record, or abort without acknowledging.
#[derive(Debug, PartialEq, Eq)]
pub enum DeliveryOutcome {
    Ack(InventoryItem),
    Abort(BrokerErrorKind),
}

impl DeliveryOutcome {
    /// Whether this verdict acknowledges the delivery.
    pub open spec fn spec_acks(self) -> bool {
        self matches DeliveryOutcome::Ack(_)
    }
}

/// Decides one delivery. A payload that decodes as an inventory record
/// is acknowledged with the record; any other payload aborts with a
/// deserialization error and is never acknowledged.
pub fn handle_delivery(payload: &str) -> (r: DeliveryOutcome)
    ensures
        match spec_parse_item(payload@) {
            Some(m) => r matches DeliveryOutcome::Ack(it) && it.name@ == m.0 && it.quantity
                == m.1,
            None => r == DeliveryOutcome::Abort(BrokerErrorKind::Deserialization),
        },
        r.spec_acks() <==> spec_parse_item(payload@) is Some,
{
    match parse_inventory_item(payload) {
        Some(it) => DeliveryOutcome::Ack(it),
        None => DeliveryOutcome::Abort(BrokerErrorKind::Deserialization),
    }
}

} // verus!
