use vstd::prelude::*;

use crate::json::{
    encode_customer, encode_inventory_item, spec_encode_customer, spec_encode_item,
};
use crate::records::{Customer, InventoryItem};

verus! {

/// The failure vocabulary of the library: every abort point in a
/// publish, consume or producer run is classified by one of these.
#[derive(Clone, Copy, Debug, PartialEq, Eq)]
pub enum BrokerErrorKind {
    Connection,
    Channel,
    Serialization,
    Deserialization,
    Publish,
    Subscribe,
    ChannelSend,
    Ack,
}

/// The broker address used whenever the caller supplies no
/// configuration value.
pub open spec fn spec_default_broker_addr() -> Seq<char> {
    "amqp://localhost:5672/%2f"@
}

/// Resolves the broker address from an explicit configuration value,
/// falling back to the documented default when none is given.
pub fn resolve_broker_addr(cfg: &Option<String>) -> (r: String)
    ensures
        match cfg {
            Some(s) => r@ == s@,
            None => r@ == spec_default_broker_addr(),
        },
{
    match cfg {
        Some(s) => s.clone(),
        None => String::from_str("amqp://localhost:5672/%2f"),
    }
}

/// Everything one publish operation sends over the wire: the broker
/// address to dial, the exchange (always the default, empty one), the
/// routing key naming the destination queue, and the payload text.
pub struct PublishRequest {
    pub addr: String,
    pub exchange: String,
    pub routing_key: String,
    pub payload: String,
}

/// The request that publishes one inventory record to `inventory_queue`.
pub fn inventory_publish_request(item: &InventoryItem, cfg: &Option<String>) -> (r:
    PublishRequest)
    ensures
        match cfg {
            Some(s) => r.addr@ == s@,
            None => r.addr@ == spec_default_broker_addr(),
        },
        r.exchange@ == Seq::<char>::empty(),
        r.routing_key@ == "inventory_queue"@,
        r.payload@ == spec_encode_item(item.name@, item.quantity),
{
    PublishRequest {
        addr: resolve_broker_addr(cfg),
        exchange: String::new(),
        routing_key: String::from_str("inventory_queue"),
        payload: encode_inventory_item(item),
    }
}

/// The request that publishes one customer record to `customer_queue`.
pub fn customer_publish_request(customer: &Customer, cfg: &Option<String>) -> (r: PublishRequest)
    ensures
        match cfg {
            Some(s) => r.addr@ == s@,
            None => r.addr@ == spec_default_broker_addr(),
        },
        r.exchange@ == Seq::<char>::empty(),
        r.routing_key@ == "customer_queue"@,
        r.payload@ == spec_encode_customer(customer.name@, customer.email@),
{
    PublishRequest {
        addr: resolve_broker_addr(cfg),
        exchange: String::new(),
        routing_key: String::from_str("customer_queue"),
        payload: encode_customer(customer),
    }
}

/// The request that publishes a notification text, as it stands, to
/// `notification_queue`.
pub fn notification_publish_request(notification: &str, cfg: &Option<String>) -> (r:
    PublishRequest)
    ensures
        match cfg {
            Some(s) => r.addr@ == s@,
            None => r.addr@ == spec_default_broker_addr(),
        },
        r.exchange@ == Seq::<char>::empty(),
        r.routing_key@ == "notification_queue"@,
        r.payload@ == notification@,
{
    PublishRequest {
        addr: resolve_broker_addr(cfg),
        exchange: String::new(),
        routing_key: String::from_str("notification_queue"),
        payload: notification.to_owned(),
    }
}

// ---------------------------------------------------------------------------
// The publish handshake: connect, open a channel, publish — fail fast
// ---------------------------------------------------------------------------

/// Where a publish operation stands. The operation is a straight line:
/// any failure moves it to `Aborted` for good.
#[derive(Clone, Copy, Debug, PartialEq, Eq)]
pub enum PublishPhase {
    Start,
    Connected,
    ChannelOpened,
    Published,
    Aborted(BrokerErrorKind),
}

/// The broker calls a publish operation performs, in order.
#[derive(Clone, Copy, Debug, PartialEq, Eq)]
pub enum PublishAction {
    Connect,
    OpenChannel,
    PublishMessage,
}

/// The single call a publish operation makes next; a finished or
/// aborted operation makes none — there is no retry.
pub open spec fn spec_publish_next_action(p: PublishPhase) -> Option<PublishAction> {
    match p {
        PublishPhase::Start => Some(PublishAction::Connect),
        PublishPhase::Connected => Some(PublishAction::OpenChannel),
        PublishPhase::ChannelOpened => Some(PublishAction::PublishMessage),
        PublishPhase::Published => None,
        PublishPhase::Aborted(_) => None,
    }
}

/// The phase after the pending call came back: success advances one
/// step, failure aborts with the failing step's error kind.
pub open spec fn spec_publish_advance(p: PublishPhase, ok: bool) -> PublishPhase {
    match p {
        PublishPhase::Start => if ok {
            PublishPhase::Connected
        } else {
            PublishPhase::Aborted(BrokerErrorKind::Connection)
        },
        PublishPhase::Connected => if ok {
            PublishPhase::ChannelOpened
        } else {
            PublishPhase::Aborted(BrokerErrorKind::Channel)
        },
        PublishPhase::ChannelOpened => if ok {
            PublishPhase::Published
        } else {
            PublishPhase::Aborted(BrokerErrorKind::Publish)
        },
        PublishPhase::Published => PublishPhase::Published,
        PublishPhase::Aborted(k) => PublishPhase::Aborted(k),
    }
}

pub fn publish_next_action(p: &PublishPhase) -> (a: Option<PublishAction>)
    ensures
        a == spec_publish_next_action(*p),
{
    match p {
        PublishPhase::Start => Some(PublishAction::Connect),
        PublishPhase::Connected => Some(PublishAction::OpenChannel),
        PublishPhase::ChannelOpened => Some(PublishAction::PublishMessage),
        PublishPhase::Published => None,
        PublishPhase::Aborted(_) => None,
    }
}

pub fn publish_advance(p: &PublishPhase, ok: bool) -> (q: PublishPhase)
    ensures
        q == spec_publish_advance(*p, ok),
{
    match p {
        PublishPhase::Start => if ok {
            PublishPhase::Connected
        } else {
            PublishPhase::Aborted(BrokerErrorKind::Connection)
        },
        PublishPhase::Connected => if ok {
            PublishPhase::ChannelOpened
        } else {
            PublishPhase::Aborted(BrokerErrorKind::Channel)
        },
        PublishPhase::ChannelOpened => if ok {
            PublishPhase::Published
        } else {
            PublishPhase::Aborted(BrokerErrorKind::Publish)
        },
        PublishPhase::Published => PublishPhase::Published,
        PublishPhase::Aborted(k) => PublishPhase::Aborted(*k),
    }
}

/// Fail fast, no retry: a refused connection aborts the operation with
/// a connection error; an aborted or finished operation makes no
/// further call and never changes phase again; and no outcome ever
/// returns an operation to its starting phase, so the connection is
/// attempted at most once.
pub proof fn lemma_publish_fail_fast()
    ensures
        spec_publish_advance(PublishPhase::Start, false) == PublishPhase::Aborted(
            BrokerErrorKind::Connection,
        ),
        forall|k: BrokerErrorKind|
            spec_publish_next_action(PublishPhase::Aborted(k)) == None::<PublishAction>,
        spec_publish_next_action(PublishPhase::Published) == None::<PublishAction>,
        forall|p: PublishPhase, ok: bool|
            spec_publish_advance(p, ok) != PublishPhase::Start,
        forall|k: BrokerErrorKind, ok: bool|
            spec_publish_advance(PublishPhase::Aborted(k), ok) == PublishPhase::Aborted(k),
{
}

} // verus!
