use vstd::prelude::*;

verus! {

/// A stock record that producers synthesize and publishers send to the
/// broker's `inventory_queue` as a JSON object with the fields `name`
/// and `quantity`.
#[derive(Clone, Debug, PartialEq, Eq)]
pub struct InventoryItem {
    pub name: String,
    pub quantity: u32,
}

/// A customer record, published to `customer_queue` as a JSON object
/// with the fields `name` and `email`. No validation is applied to the
/// email text.
#[derive(Clone, Debug, PartialEq, Eq)]
pub struct Customer {
    pub name: String,
    pub email: String,
}

impl InventoryItem {
    pub fn new(name: String, quantity: u32) -> (r: InventoryItem)
        ensures
            r.name@ == name@,
            r.quantity == quantity,
    {
        InventoryItem { name, quantity }
    }
}

impl Customer {
    pub fn new(name: String, email: String) -> (r: Customer)
        ensures
            r.name@ == name@,
            r.email@ == email@,
    {
        Customer { name, email }
    }
}

} // verus!
