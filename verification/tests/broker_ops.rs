use factory_simulation::broker::{
    customer_publish_request, inventory_publish_request, notification_publish_request,
    publish_advance, publish_next_action, resolve_broker_addr, BrokerErrorKind, PublishAction,
    PublishPhase,
};
use factory_simulation::consumer::{
    consume_advance, consume_next_action, consume_request, handle_delivery, ConsumeAction,
    ConsumePhase, DeliveryOutcome,
};
use factory_simulation::json::encode_inventory_item;
use factory_simulation::records::{Customer, InventoryItem};

#[test]
fn resolve_addr_uses_default_when_unset() {
    assert_eq!(resolve_broker_addr(&None), "amqp://localhost:5672/%2f");
}

#[test]
fn resolve_addr_passes_configuration_through() {
    let cfg = Some("amqp://broker:5672/%2f".to_string());
    assert_eq!(resolve_broker_addr(&cfg), "amqp://broker:5672/%2f");
}

#[test]
fn inventory_request_targets_inventory_queue() {
    let item = InventoryItem::new("Widget".to_string(), 7);
    let r = inventory_publish_request(&item, &None);
    assert_eq!(r.addr, "amqp://localhost:5672/%2f");
    assert_eq!(r.exchange, "");
    assert_eq!(r.routing_key, "inventory_queue");
    assert_eq!(r.payload, encode_inventory_item(&item));
}

#[test]
fn customer_request_targets_customer_queue() {
    let c = Customer::new("Alice".to_string(), "alice@example.com".to_string());
    let r = customer_publish_request(&c, &None);
    assert_eq!(r.routing_key, "customer_queue");
    assert_eq!(r.payload, "{\"name\":\"Alice\",\"email\":\"alice@example.com\"}");
}

#[test]
fn notification_request_passes_text_through() {
    let r = notification_publish_request("stock is low", &None);
    assert_eq!(r.routing_key, "notification_queue");
    assert_eq!(r.exchange, "");
    assert_eq!(r.payload, "stock is low");
}

#[test]
fn publish_success_path_runs_to_published() {
    let p0 = PublishPhase::Start;
    assert_eq!(publish_next_action(&p0), Some(PublishAction::Connect));
    let p1 = publish_advance(&p0, true);
    assert_eq!(p1, PublishPhase::Connected);
    assert_eq!(publish_next_action(&p1), Some(PublishAction::OpenChannel));
    let p2 = publish_advance(&p1, true);
    assert_eq!(p2, PublishPhase::ChannelOpened);
    assert_eq!(publish_next_action(&p2), Some(PublishAction::PublishMessage));
    let p3 = publish_advance(&p2, true);
    assert_eq!(p3, PublishPhase::Published);
    assert_eq!(publish_next_action(&p3), None);
}

#[test]
fn refused_connection_aborts_without_retry() {
    let aborted = publish_advance(&PublishPhase::Start, false);
    assert_eq!(aborted, PublishPhase::Aborted(BrokerErrorKind::Connection));
    assert_eq!(publish_next_action(&aborted), None);
    assert_eq!(publish_advance(&aborted, true), aborted);
    assert_eq!(publish_advance(&aborted, false), aborted);
}

#[test]
fn later_publish_failures_carry_their_own_kind() {
    assert_eq!(
        publish_advance(&PublishPhase::Connected, false),
        PublishPhase::Aborted(BrokerErrorKind::Channel)
    );
    assert_eq!(
        publish_advance(&PublishPhase::ChannelOpened, false),
        PublishPhase::Aborted(BrokerErrorKind::Publish)
    );
}

#[test]
fn consume_request_names_queue_and_tag() {
    let r = consume_request(&None);
    assert_eq!(r.addr, "amqp://localhost:5672/%2f");
    assert_eq!(r.queue, "inventory_queue");
    assert_eq!(r.consumer_tag, "my_consumer");
}

#[test]
fn consume_registration_runs_to_subscribed() {
    let p0 = ConsumePhase::Start;
    assert_eq!(consume_next_action(&p0), Some(ConsumeAction::Connect));
    let p1 = consume_advance(&p0, true);
    let p2 = consume_advance(&p1, true);
    assert_eq!(consume_next_action(&p2), Some(ConsumeAction::Subscribe));
    let p3 = consume_advance(&p2, true);
    assert_eq!(p3, ConsumePhase::Subscribed);
    assert_eq!(consume_next_action(&p3), None);
}

#[test]
fn failed_subscribe_aborts_registration() {
    let p2 = ConsumePhase::ChannelOpened;
    assert_eq!(
        consume_advance(&p2, false),
        ConsumePhase::Aborted(BrokerErrorKind::Subscribe)
    );
}

#[test]
fn delivered_widget_is_decoded_and_acknowledged() {
    let item = InventoryItem::new("Widget".to_string(), 7);
    let payload = encode_inventory_item(&item);
    match handle_delivery(&payload) {
        DeliveryOutcome::Ack(got) => assert_eq!(got, item),
        other => panic!("expected an acknowledgment, got {:?}", other),
    }
}

#[test]
fn invalid_payload_aborts_without_acknowledging() {
    let outcome = handle_delivery("definitely not an inventory record");
    assert_eq!(
        outcome,
        DeliveryOutcome::Abort(BrokerErrorKind::Deserialization)
    );
}
