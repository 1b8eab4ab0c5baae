use vstd::prelude::*;

verus! {

/// Side of an order.
#[derive(Clone, Copy, Debug, PartialEq, Eq, Structural)]
pub enum OrderSide {
    Buy,
    Sell,
}

impl Default for OrderSide {
    fn default() -> (s: Self)
        ensures
            s == OrderSide::Buy,
    {
        OrderSide::Buy
    }
}

/// Kind of an order.
#[derive(Clone, Copy, Debug, PartialEq, Eq, Structural)]
pub enum OrderType {
    Buy,
    Market,
    Limit,
    Stop,
    StopLimit,
    TrailingStop,
    TrailingStopLimit,
}

impl Default for OrderType {
    fn default() -> (t: Self)
        ensures
            t == OrderType::Market,
    {
        OrderType::Market
    }
}

/// How long an order stays in force.
#[derive(Clone, Copy, Debug, PartialEq, Eq, Structural)]
pub enum TimeInForce {
    /// Good-till-cancelled: the rest of the order stays in the book.
    GTC,
    /// Immediate-or-cancel: what is not matched at once is dropped.
    IOC,
    /// Fill-or-kill: matched completely at once, or not at all.
    FOK,
    /// All-or-none: executed only in full.
    AON,
}

impl Default for TimeInForce {
    fn default() -> (t: Self)
        ensures
            t == TimeInForce::IOC,
    {
        TimeInForce::IOC
    }
}

/// Errors reported by the order book and the market manager.
#[derive(Clone, Debug, PartialEq, Eq)]
pub enum ErrorCode {
    OK,
    SymbolDuplicate,
    SymbolNotFound,
    OrderBookDuplicate,
    OrderBookNotFound,
    OrderDuplicate,
    OrderNotFound,
    OrderIdInvalid,
    OrderTypeInvalid,
    OrderParameterInvalid,
    OrderQuantityInvalid,
    OrderCreationError,
    DummyError,
    OtherError(String),
}

/// An order. `trailing_distance` and `trailing_step` are absolute price
/// distances when non-negative, and percentages in hundredths of a
/// percent of the market price when negative.
#[derive(Clone, Copy, Debug, PartialEq, Eq, Structural)]
pub struct Order {
    pub id: u64,
    pub symbol_id: u64,
    pub order_type: OrderType,
    pub order_side: OrderSide,
    pub price: u64,
    pub stop_price: u64,
    pub quantity: u64,
    pub executed_quantity: u64,
    pub leaves_quantity: u64,
    pub time_in_force: TimeInForce,
    pub max_visible_quantity: u64,
    pub slippage: u64,
    pub trailing_distance: i64,
    pub trailing_step: i64,
}

impl Default for Order {
    fn default() -> (o: Self)
        ensures
            o.id == 0,
            o.symbol_id == 0,
            o.order_type == OrderType::Market,
            o.order_side == OrderSide::Buy,
            o.price == 0,
            o.stop_price == 0,
            o.quantity == 0,
            o.executed_quantity == 0,
            o.leaves_quantity == 0,
            o.time_in_force == TimeInForce::IOC,
            o.max_visible_quantity == 0,
            o.slippage == 0,
            o.trailing_distance == 0,
            o.trailing_step == 0,
    {
        Order {
            id: 0,
            symbol_id: 0,
            order_type: OrderType::Market,
            order_side: OrderSide::Buy,
            price: 0,
            stop_price: 0,
            quantity: 0,
            executed_quantity: 0,
            leaves_quantity: 0,
            time_in_force: TimeInForce::IOC,
            max_visible_quantity: 0,
            slippage: 0,
            trailing_distance: 0,
            trailing_step: 0,
        }
    }
}

impl Order {
    /// The part of the remaining quantity that is hidden from the book.
    pub open spec fn hidden(self) -> nat {
        if self.leaves_quantity > self.max_visible_quantity {
            (self.leaves_quantity - self.max_visible_quantity) as nat
        } else {
            0
        }
    }

    /// The part of the remaining quantity that is shown in the book.
    pub open spec fn visible(self) -> nat {
        if self.leaves_quantity < self.max_visible_quantity {
            self.leaves_quantity as nat
        } else {
            self.max_visible_quantity as nat
        }
    }

    pub open spec fn spec_is_buy(self) -> bool {
        self.order_side == OrderSide::Buy
    }

    pub open spec fn spec_is_aon(self) -> bool {
        self.time_in_force == TimeInForce::AON
    }

    pub open spec fn spec_is_fok(self) -> bool {
        self.time_in_force == TimeInForce::FOK
    }

    pub open spec fn spec_is_ioc(self) -> bool {
        self.time_in_force == TimeInForce::IOC
    }

    pub open spec fn spec_is_iceberg(self) -> bool {
        self.max_visible_quantity < u64::MAX
    }

    pub open spec fn spec_is_slippage(self) -> bool {
        self.slippage < u64::MAX
    }

    /// A stop or stop-limit order, not trailing.
    pub open spec fn is_plain_stop_kind(self) -> bool {
        self.order_type == OrderType::Stop || self.order_type == OrderType::StopLimit
    }

    /// A trailing stop or trailing stop-limit order.
    pub open spec fn is_trailing_kind(self) -> bool {
        self.order_type == OrderType::TrailingStop || self.order_type
            == OrderType::TrailingStopLimit
    }

    /// The outcome of `validate`.
    pub open spec fn validation(self) -> Result<(), ErrorCode> {
        if self.id == 0 {
            Err(ErrorCode::OrderIdInvalid)
        } else if self.quantity < self.leaves_quantity {
            Err(ErrorCode::OrderQuantityInvalid)
        } else if self.leaves_quantity == 0 {
            Err(ErrorCode::OrderQuantityInvalid)
        } else if self.order_type == OrderType::Market && !self.spec_is_ioc()
            && !self.spec_is_fok() {
            Err(ErrorCode::OrderParameterInvalid)
        } else if self.order_type == OrderType::Market && self.spec_is_iceberg() {
            Err(ErrorCode::OrderParameterInvalid)
        } else if self.order_type == OrderType::Limit && self.spec_is_slippage() {
            Err(ErrorCode::OrderParameterInvalid)
        } else {
            Ok(())
        }
    }

    /// Checks the order's parameters: a non-zero id, a remaining quantity
    /// that is positive and at most the quantity, a market order that is
    /// immediate-or-cancel or fill-or-kill and not an iceberg, and a limit
    /// order without slippage.
    pub fn validate(&self) -> (r: Result<(), ErrorCode>)
        ensures
            r == self.validation(),
    {
        if self.id == 0 {
            return Err(ErrorCode::OrderIdInvalid);
        }
        if self.quantity < self.leaves_quantity {
            return Err(ErrorCode::OrderQuantityInvalid);
        }
        if self.leaves_quantity == 0 {
            return Err(ErrorCode::OrderQuantityInvalid);
        }
        if self.is_market() {
            if !self.is_ioc() && !self.is_fok() {
                return Err(ErrorCode::OrderParameterInvalid);
            }
            if self.is_iceberg() {
                return Err(ErrorCode::OrderParameterInvalid);
            }
        }
        if self.is_limit() {
            if self.is_slippage() {
                return Err(ErrorCode::OrderParameterInvalid);
            }
        }
        Ok(())
    }

    pub fn leaves_quantity(&self) -> (q: u64)
        ensures
            q == self.leaves_quantity,
    {
        self.leaves_quantity
    }

    pub fn is_market(&self) -> (b: bool)
        ensures
            b == (self.order_type == OrderType::Market),
    {
        self.order_type == OrderType::Market
    }

    pub fn hidden_quantity(&self) -> (q: u64)
        ensures
            q == self.hidden(),
    {
        if self.leaves_quantity > self.max_visible_quantity {
            self.leaves_quantity - self.max_visible_quantity
        } else {
            0
        }
    }

    pub fn visible_quantity(&self) -> (q: u64)
        ensures
            q == self.visible(),
    {
        if self.leaves_quantity < self.max_visible_quantity {
            self.leaves_quantity
        } else {
            self.max_visible_quantity
        }
    }

    /// A copy of the given order.
    pub fn new(order: &Order) -> (o: Order)
        ensures
            o == *order,
    {
        *order
    }

    pub fn is_limit(&self) -> (b: bool)
        ensures
            b == (self.order_type == OrderType::Limit),
    {
        self.order_type == OrderType::Limit
    }

    pub fn is_buy(&self) -> (b: bool)
        ensures
            b == self.spec_is_buy(),
    {
        self.order_side == OrderSide::Buy
    }

    pub fn is_fok(&self) -> (b: bool)
        ensures
            b == self.spec_is_fok(),
    {
        self.time_in_force == TimeInForce::FOK
    }

    pub fn is_iceberg(&self) -> (b: bool)
        ensures
            b == self.spec_is_iceberg(),
    {
        self.max_visible_quantity < u64::MAX
    }

    pub fn is_slippage(&self) -> (b: bool)
        ensures
            b == self.spec_is_slippage(),
    {
        self.slippage < u64::MAX
    }

    pub fn is_aon(&self) -> (b: bool)
        ensures
            b == self.spec_is_aon(),
    {
        self.time_in_force == TimeInForce::AON
    }

    pub fn is_ioc(&self) -> (b: bool)
        ensures
            b == self.spec_is_ioc(),
    {
        self.time_in_force == TimeInForce::IOC
    }

    pub fn is_trailing_stop(&self) -> (b: bool)
        ensures
            b == (self.order_type == OrderType::TrailingStop),
    {
        self.order_type == OrderType::TrailingStop
    }

    pub fn is_trailing_stop_limit(&self) -> (b: bool)
        ensures
            b == (self.order_type == OrderType::TrailingStopLimit),
    {
        self.order_type == OrderType::TrailingStopLimit
    }
}

/// The hidden and visible parts add up to the remaining quantity.
pub proof fn lemma_hidden_visible_sum(o: Order)
    ensures
        o.hidden() + o.visible() == o.leaves_quantity,
{
}

} // verus!
