use factory_simulation::producer::ProducerState;

#[test]
fn producer_numbers_items_from_one() {
    let mut p = ProducerState::new();
    assert_eq!(p.count, 0);
    let first = p.step();
    assert_eq!(first.name, "Product 1");
    assert_eq!(first.quantity, 100);
    let second = p.step();
    assert_eq!(second.name, "Product 2");
    assert_eq!(second.quantity, 100);
    let third = p.step();
    assert_eq!(third.name, "Product 3");
    assert_eq!(third.quantity, 100);
    assert_eq!(p.count, 3);
}

#[test]
fn producer_reaches_two_digit_suffixes() {
    let mut p = ProducerState::new();
    let mut last = p.step();
    for _ in 0..9 {
        last = p.step();
    }
    assert_eq!(last.name, "Product 10");
    assert_eq!(p.count, 10);
}

#[test]
fn two_producers_count_independently() {
    let mut a = ProducerState::new();
    let mut b = ProducerState::new();
    // an arbitrary interleaving of the two instances
    let a1 = a.step();
    let b1 = b.step();
    let b2 = b.step();
    let a2 = a.step();
    assert_eq!(a1.name, "Product 1");
    assert_eq!(a2.name, "Product 2");
    assert_eq!(b1.name, "Product 1");
    assert_eq!(b2.name, "Product 2");
    assert_eq!(a1.name, b1.name);
}
