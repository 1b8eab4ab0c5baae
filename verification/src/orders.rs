use std::collections::HashMap;
use vstd::prelude::*;

use crate::order::{ErrorCode, Order};

verus! {

broadcast use vstd::std_specs::hash::group_hash_axioms;

/// The live orders of a market, by id.
pub struct Orders {
    pub orders: HashMap<u64, Order>,
}

impl View for Orders {
    type V = Map<u64, Order>;

    open spec fn view(&self) -> Map<u64, Order> {
        self.orders@
    }
}

impl Orders {
    /// No orders.
    pub fn new() -> (r: Orders)
        ensures
            r@ == Map::<u64, Order>::empty(),
    {
        Orders { orders: HashMap::new() }
    }

    /// Stores `order` under `id` and returns the order stored there
    /// before, if any.
    pub fn insert_order(&mut self, id: &u64, order: Order) -> (r: Option<Order>)
        ensures
            final(self)@ == old(self)@.insert(*id, order),
            r == (if old(self)@.contains_key(*id) {
                Some(old(self)@[*id])
            } else {
                None
            }),
    {
        self.orders.insert(*id, order)
    }

    /// Removes the order stored under `id` and returns it.
    pub fn remove_order(&mut self, id: &u64) -> (r: Option<Order>)
        ensures
            final(self)@ == old(self)@.remove(*id),
            r == (if old(self)@.contains_key(*id) {
                Some(old(self)@[*id])
            } else {
                None
            }),
    {
        self.orders.remove(id)
    }

    /// The order stored under `id`.
    pub fn get_order(&self, id: u64) -> (r: Result<&Order, ErrorCode>)
        ensures
            match r {
                Ok(o) => self@.contains_key(id) && *o == self@[id],
                Err(e) => !self@.contains_key(id) && e == ErrorCode::OrderNotFound,
            },
    {
        match self.orders.get(&id) {
            Some(o) => Ok(o),
            None => Err(ErrorCode::OrderNotFound),
        }
    }

    /// Whether an order is stored under `id`.
    pub fn contains(&self, id: u64) -> (b: bool)
        ensures
            b == self@.contains_key(id),
    {
        self.orders.contains_key(&id)
    }

    /// A copy of the order stored under `id`, if any.
    pub fn find(&self, id: u64) -> (r: Option<Order>)
        ensures
            r == (if self@.contains_key(id) {
                Some(self@[id])
            } else {
                None
            }),
    {
        match self.orders.get(&id) {
            Some(o) => Some(*o),
            None => None,
        }
    }
}

} // verus!
