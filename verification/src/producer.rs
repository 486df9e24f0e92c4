use vstd::prelude::*;

use crate::json::{push_decimal, spec_decimal, spec_digits_val, string_of_chars};
use crate::records::InventoryItem;

verus! {

/// The model of one emitted item: its name and its quantity.
pub type ItemModel = (Seq<char>, u32);

/// The name of the k-th item a producer emits, counting from one.
pub open spec fn spec_product_name(k: nat) -> Seq<char> {
    seq!['P', 'r', 'o', 'd', 'u', 'c', 't', ' '] + spec_decimal(k)
}

/// The k-th emitted item: named after its rank, quantity always 100.
pub open spec fn spec_product_item(k: nat) -> ItemModel {
    (spec_product_name(k), 100u32)
}

/// The items of a producer run of `n` steps, in emission order.
pub open spec fn spec_producer_run(n: nat) -> Seq<ItemModel>
    decreases n,
{
    if n == 0 {
        Seq::empty()
    } else {
        spec_producer_run((n - 1) as nat).push(spec_product_item(n))
    }
}

/// The numeric suffix of an emitted name, read back from its digits.
pub open spec fn spec_suffix_value(name: Seq<char>) -> nat {
    spec_digits_val(name, 8, name.len() as int)
}

/// A simulated producer: it remembers how many items it has emitted
/// and synthesizes the next numbered record on each step. The caller
/// owns the cadence and the channel; this type owns the counting.
pub struct ProducerState {
    pub count: u64,
}

impl ProducerState {
    /// A fresh producer that has emitted nothing.
    pub fn new() -> (s: ProducerState)
        ensures
            s.count == 0,
    {
        ProducerState { count: 0 }
    }

    /// Emits the next item: "Product {count+1}" with quantity 100.
    pub fn step(&mut self) -> (item: InventoryItem)
        requires
            old(self).count < u64::MAX,
        ensures
            final(self).count == old(self).count + 1,
            item.name@ == spec_product_name(final(self).count as nat),
            item.quantity == 100,
    {
        self.count = self.count + 1;
        let mut chars: Vec<char> = Vec::new();
        chars.push('P');
        chars.push('r');
        chars.push('o');
        chars.push('d');
        chars.push('u');
        chars.push('c');
        chars.push('t');
        chars.push(' ');
        push_decimal(self.count, &mut chars);
        proof {
            assert(chars@ =~= spec_product_name(self.count as nat));
        }
        let name = string_of_chars(&chars);
        InventoryItem { name, quantity: 100 }
    }
}

/// A run of `n` steps emits exactly `n` items; the item at position
/// `k` is "Product {k+1}" with quantity 100, so names carry strictly
/// increasing numbers in emission order.
pub proof fn lemma_producer_run(n: nat)
    ensures
        spec_producer_run(n).len() == n,
        forall|k: int| 0 <= k < n ==> spec_producer_run(n)[k] == spec_product_item((k + 1) as nat),
    decreases n,
{
    if n > 0 {
        lemma_producer_run((n - 1) as nat);
    }
}

/// The numeric suffix of the k-th emitted name is k+1: later emissions
/// carry strictly greater suffixes.
pub proof fn lemma_producer_suffixes_increase(n: nat, i: int, j: int)
    requires
        0 <= i < j < n,
    ensures
        spec_suffix_value(spec_producer_run(n)[i].0) == i + 1,
        spec_suffix_value(spec_producer_run(n)[j].0) == j + 1,
        spec_suffix_value(spec_producer_run(n)[i].0) < spec_suffix_value(
            spec_producer_run(n)[j].0,
        ),
{
    lemma_producer_run(n);
    lemma_suffix_of_product((i + 1) as nat);
    lemma_suffix_of_product((j + 1) as nat);
}

// ---------------------------------------------------------------------------
// Concurrent producers: interleaved but individually sequential
// ---------------------------------------------------------------------------

/// How many labels of a choice sequence pick the first instance.
pub open spec fn spec_count_true(lab: Seq<bool>) -> nat
    decreases lab.len(),
{
    if lab.len() == 0 {
        0
    } else {
        (if lab[0] {
            1nat
        } else {
            0nat
        }) + spec_count_true(lab.drop_first())
    }
}

/// The events of one instance, each tagged with that instance.
pub open spec fn spec_tag(items: Seq<ItemModel>, t: bool) -> Seq<(bool, ItemModel)> {
    Seq::new(items.len(), |k: int| (t, items[k]))
}

/// The merged trace of two instances under a choice sequence: each
/// label consumes the next unconsumed event of the instance it names.
pub open spec fn spec_interleave(
    x: Seq<(bool, ItemModel)>,
    y: Seq<(bool, ItemModel)>,
    lab: Seq<bool>,
) -> Seq<(bool, ItemModel)>
    decreases lab.len(),
{
    if lab.len() == 0 {
        Seq::empty()
    } else if lab[0] {
        if x.len() > 0 {
            seq![x[0]] + spec_interleave(x.drop_first(), y, lab.drop_first())
        } else {
            Seq::empty()
        }
    } else {
        if y.len() > 0 {
            seq![y[0]] + spec_interleave(x, y.drop_first(), lab.drop_first())
        } else {
            Seq::empty()
        }
    }
}

/// The events of one instance within a merged trace, in trace order.
pub open spec fn spec_project(t: Seq<(bool, ItemModel)>, side: bool) -> Seq<ItemModel>
    decreases t.len(),
{
    if t.len() == 0 {
        Seq::empty()
    } else if t[0].0 == side {
        seq![t[0].1] + spec_project(t.drop_first(), side)
    } else {
        spec_project(t.drop_first(), side)
    }
}

proof fn lemma_count_true_le(lab: Seq<bool>)
    ensures
        spec_count_true(lab) <= lab.len(),
    decreases lab.len(),
{
    if lab.len() > 0 {
        lemma_count_true_le(lab.drop_first());
    }
}

proof fn lemma_interleave_project(a: Seq<ItemModel>, b: Seq<ItemModel>, lab: Seq<bool>)
    requires
        lab.len() == a.len() + b.len(),
        spec_count_true(lab) == a.len(),
    ensures
        spec_project(spec_interleave(spec_tag(a, true), spec_tag(b, false), lab), true) == a,
        spec_project(spec_interleave(spec_tag(a, true), spec_tag(b, false), lab), false) == b,
    decreases lab.len(),
{
    let x = spec_tag(a, true);
    let y = spec_tag(b, false);
    let t = spec_interleave(x, y, lab);
    if lab.len() == 0 {
        assert(a =~= Seq::<ItemModel>::empty());
        assert(b =~= Seq::<ItemModel>::empty());
        assert(spec_project(t, true) =~= a);
        assert(spec_project(t, false) =~= b);
    } else if lab[0] {
        assert(a.len() >= 1);
        assert(x.len() == a.len() && x[0] == (true, a[0]));
        assert(x.drop_first() =~= spec_tag(a.drop_first(), true));
        lemma_interleave_project(a.drop_first(), b, lab.drop_first());
        let rest = spec_interleave(spec_tag(a.drop_first(), true), y, lab.drop_first());
        assert(t == seq![(true, a[0])] + rest);
        assert(t[0] == (true, a[0]));
        assert(t.drop_first() =~= rest);
        assert(spec_project(t, true) == seq![a[0]] + spec_project(rest, true));
        assert(seq![a[0]] + a.drop_first() =~= a);
        assert(spec_project(t, false) == spec_project(rest, false));
    } else {
        lemma_count_true_le(lab.drop_first());
        assert(spec_count_true(lab.drop_first()) == a.len());
        assert(b.len() >= 1);
        assert(y.len() == b.len() && y[0] == (false, b[0]));
        assert(y.drop_first() =~= spec_tag(b.drop_first(), false));
        lemma_interleave_project(a, b.drop_first(), lab.drop_first());
        let rest = spec_interleave(x, spec_tag(b.drop_first(), false), lab.drop_first());
        assert(t == seq![(false, b[0])] + rest);
        assert(t[0] == (false, b[0]));
        assert(t.drop_first() =~= rest);
        assert(spec_project(t, false) == seq![b[0]] + spec_project(rest, false));
        assert(seq![b[0]] + b.drop_first() =~= b);
        assert(spec_project(t, true) == spec_project(rest, true));
    }
}

/// Two producers run concurrently against one channel: whatever order
/// their emissions interleave in, the trace restricted to either
/// instance is exactly that instance's own sequential run, "Product 1"
/// onward — duplicate names across instances are expected.
pub proof fn lemma_concurrent_producers(m: nat, n: nat, lab: Seq<bool>)
    requires
        lab.len() == m + n,
        spec_count_true(lab) == m,
    ensures
        spec_project(
            spec_interleave(
                spec_tag(spec_producer_run(m), true),
                spec_tag(spec_producer_run(n), false),
                lab,
            ),
            true,
        ) == spec_producer_run(m),
        spec_project(
            spec_interleave(
                spec_tag(spec_producer_run(m), true),
                spec_tag(spec_producer_run(n), false),
                lab,
            ),
            false,
        ) == spec_producer_run(n),
{
    lemma_producer_run(m);
    lemma_producer_run(n);
    lemma_interleave_project(spec_producer_run(m), spec_producer_run(n), lab);
}

proof fn lemma_suffix_of_product(k: nat)
    ensures
        spec_suffix_value(spec_product_name(k)) == k,
{
    let s = spec_product_name(k);
    let d = spec_decimal(k);
    assert(s.len() == 8 + d.len());
    assert forall|m: int| 0 <= m < d.len() implies s[8 + m] == d[m] by {
        assert(s[8 + m] == (seq!['P', 'r', 'o', 'd', 'u', 'c', 't', ' '] + d)[8 + m]);
    }
    crate::json::lemma_digits_val_of_decimal(k, s, 8);
}

} // verus!
