use factory_simulation::json::{encode_inventory_item, parse_inventory_item};
use factory_simulation::records::{Customer, InventoryItem};

fn widget() -> InventoryItem {
    InventoryItem::new("Widget".to_string(), 7)
}

#[test]
fn encode_widget_exact() {
    let s = encode_inventory_item(&widget());
    assert_eq!(s, "{\"name\":\"Widget\",\"quantity\":7}");
}

#[test]
fn encode_customer_exact() {
    let c = Customer::new("Alice".to_string(), "alice@example.com".to_string());
    let s = factory_simulation::json::encode_customer(&c);
    assert_eq!(s, "{\"name\":\"Alice\",\"email\":\"alice@example.com\"}");
}

#[test]
fn round_trip_widget() {
    let item = widget();
    let parsed = parse_inventory_item(&encode_inventory_item(&item)).unwrap();
    assert_eq!(parsed, item);
}

#[test]
fn round_trip_escapes() {
    let item = InventoryItem::new("a\"b\\c/d\ne\tf\u{1}g".to_string(), 42);
    let parsed = parse_inventory_item(&encode_inventory_item(&item)).unwrap();
    assert_eq!(parsed, item);
}

#[test]
fn round_trip_unicode_name() {
    let item = InventoryItem::new("Produkt \u{e9}\u{65e5}\u{672c}".to_string(), 3);
    let parsed = parse_inventory_item(&encode_inventory_item(&item)).unwrap();
    assert_eq!(parsed, item);
}

#[test]
fn round_trip_empty_name() {
    let item = InventoryItem::new(String::new(), 0);
    let parsed = parse_inventory_item(&encode_inventory_item(&item)).unwrap();
    assert_eq!(parsed, item);
}

#[test]
fn round_trip_max_quantity() {
    let item = InventoryItem::new("max".to_string(), u32::MAX);
    let parsed = parse_inventory_item(&encode_inventory_item(&item)).unwrap();
    assert_eq!(parsed, item);
}

#[test]
fn encoded_form_is_json_for_serde() {
    let s = encode_inventory_item(&widget());
    let v: serde_json::Value = serde_json::from_str(&s).unwrap();
    assert_eq!(v.get("name").unwrap().as_str(), Some("Widget"));
    assert_eq!(v.get("quantity").unwrap().as_u64(), Some(7));
}

#[test]
fn escaped_form_is_json_for_serde() {
    let name = "with \"quote\", back\\slash and \u{2} control";
    let s = encode_inventory_item(&InventoryItem::new(name.to_string(), 9));
    let v: serde_json::Value = serde_json::from_str(&s).unwrap();
    assert_eq!(v.get("name").unwrap().as_str(), Some(name));
    assert_eq!(v.get("quantity").unwrap().as_u64(), Some(9));
}

#[test]
fn parses_serde_produced_text() {
    let mut m = serde_json::Map::new();
    m.insert(
        "name".to_string(),
        serde_json::Value::String("Widget".to_string()),
    );
    m.insert(
        "quantity".to_string(),
        serde_json::Value::Number(serde_json::Number::from(7u32)),
    );
    let text = serde_json::Value::Object(m).to_string();
    let parsed = parse_inventory_item(&text).unwrap();
    assert_eq!(parsed, widget());
}

#[test]
fn parses_reordered_members_and_whitespace() {
    let text = "  { \"quantity\" : 7 ,\n\t\"name\" : \"Widget\" }  ";
    let parsed = parse_inventory_item(text).unwrap();
    assert_eq!(parsed, widget());
}

#[test]
fn parses_unicode_escape() {
    let parsed = parse_inventory_item("{\"name\":\"a\\u0009b\",\"quantity\":1}").unwrap();
    assert_eq!(parsed.name, "a\tb");
}

#[test]
fn rejects_plain_text() {
    assert!(parse_inventory_item("not json").is_none());
}

#[test]
fn rejects_empty_object() {
    assert!(parse_inventory_item("{}").is_none());
}

#[test]
fn rejects_missing_quantity() {
    assert!(parse_inventory_item("{\"name\":\"Widget\"}").is_none());
}

#[test]
fn rejects_duplicate_member() {
    assert!(parse_inventory_item("{\"name\":\"a\",\"name\":\"b\"}").is_none());
}

#[test]
fn rejects_unknown_member() {
    assert!(parse_inventory_item("{\"name\":\"a\",\"amount\":7}").is_none());
}

#[test]
fn rejects_trailing_garbage() {
    assert!(parse_inventory_item("{\"name\":\"a\",\"quantity\":7} x").is_none());
}

#[test]
fn rejects_overflowing_quantity() {
    assert!(parse_inventory_item("{\"name\":\"a\",\"quantity\":4294967296}").is_none());
    let ok = parse_inventory_item("{\"name\":\"a\",\"quantity\":4294967295}").unwrap();
    assert_eq!(ok.quantity, u32::MAX);
}

#[test]
fn rejects_leading_zero() {
    assert!(parse_inventory_item("{\"name\":\"a\",\"quantity\":01}").is_none());
}

#[test]
fn rejects_negative_and_fractional_quantity() {
    assert!(parse_inventory_item("{\"name\":\"a\",\"quantity\":-1}").is_none());
    assert!(parse_inventory_item("{\"name\":\"a\",\"quantity\":7.5}").is_none());
}

#[test]
fn rejects_raw_control_char_in_string() {
    assert!(parse_inventory_item("{\"name\":\"a\nb\",\"quantity\":7}").is_none());
}

#[test]
fn rejects_bad_escape() {
    assert!(parse_inventory_item("{\"name\":\"a\\x\",\"quantity\":7}").is_none());
}

#[test]
fn rejects_unterminated_string() {
    assert!(parse_inventory_item("{\"name\":\"abc").is_none());
}
