//! The canonical record of one trade or cash movement.

use vstd::prelude::*;
use vstd::string::*;
use crate::text::texts;
use crate::trade::Trade;

verus! {

/// One delivery order as it is reported. All texts are kept as the vendor
/// wrote them, but for `count` and `owned`, which the ledger writes.
#[derive(Debug)]
pub struct DeliveryOrder {
    code: String,
    name: String,
    date: String,
    kind: String,
    count: String,
    prize: String,
    amount: String,
    owned: String,
    trade: Trade,
}

/// What a `DeliveryOrder` holds, as plain values.
pub struct OrderView {
    /// Security code, the key of the ledger.
    pub code: Seq<char>,
    /// Security name.
    pub name: Seq<char>,
    /// Date of the transaction.
    pub date: Seq<char>,
    /// Label of the action.
    pub kind: Seq<char>,
    /// Signed quantity.
    pub count: Seq<char>,
    /// Price.
    pub prize: Seq<char>,
    /// Cash effect.
    pub amount: Seq<char>,
    /// Running total of the security after this order.
    pub owned: Seq<char>,
    /// The action.
    pub trade: Trade,
}

impl OrderView {
    /// The record before any column was read: empty texts, no action.
    pub open spec fn empty() -> OrderView {
        OrderView {
            code: Seq::empty(),
            name: Seq::empty(),
            date: Seq::empty(),
            kind: Seq::empty(),
            count: Seq::empty(),
            prize: Seq::empty(),
            amount: Seq::empty(),
            owned: Seq::empty(),
            trade: Trade::Ignore,
        }
    }

    /// A record is reported exactly if its action is not `Ignore`.
    pub open spec fn valid(self) -> bool {
        self.trade != Trade::Ignore
    }

    /// The cells of the record's row in the report: date, code, name, label
    /// of the action, quantity, price, amount, running total.
    pub open spec fn row(self) -> Seq<Seq<char>> {
        seq![
            self.date,
            self.code,
            self.name,
            self.kind,
            self.count,
            self.prize,
            self.amount,
            self.owned,
        ]
    }
}

impl View for DeliveryOrder {
    type V = OrderView;

    closed spec fn view(&self) -> OrderView {
        OrderView {
            code: self.code@,
            name: self.name@,
            date: self.date@,
            kind: self.kind@,
            count: self.count@,
            prize: self.prize@,
            amount: self.amount@,
            owned: self.owned@,
            trade: self.trade,
        }
    }
}

impl Default for DeliveryOrder {
    fn default() -> (r: Self)
        ensures
            r@ == OrderView::empty(),
    {
        DeliveryOrder {
            code: String::new(),
            name: String::new(),
            date: String::new(),
            kind: String::new(),
            count: String::new(),
            prize: String::new(),
            amount: String::new(),
            owned: String::new(),
            trade: Trade::Ignore,
        }
    }
}

impl Clone for DeliveryOrder {
    fn clone(&self) -> (r: Self)
        ensures
            r@ == self@,
    {
        DeliveryOrder {
            code: self.code.clone(),
            name: self.name.clone(),
            date: self.date.clone(),
            kind: self.kind.clone(),
            count: self.count.clone(),
            prize: self.prize.clone(),
            amount: self.amount.clone(),
            owned: self.owned.clone(),
            trade: self.trade,
        }
    }
}

impl DeliveryOrder {
    pub fn set_code(&mut self, code: String)
        ensures
            final(self)@ == (OrderView { code: code@, ..old(self)@ }),
    {
        self.code = code;
    }

    pub fn set_name(&mut self, name: String)
        ensures
            final(self)@ == (OrderView { name: name@, ..old(self)@ }),
    {
        self.name = name;
    }

    pub fn set_date(&mut self, date: String)
        ensures
            final(self)@ == (OrderView { date: date@, ..old(self)@ }),
    {
        self.date = date;
    }

    pub fn set_kind(&mut self, kind: String)
        ensures
            final(self)@ == (OrderView { kind: kind@, ..old(self)@ }),
    {
        self.kind = kind;
    }

    pub fn set_count(&mut self, count: String)
        ensures
            final(self)@ == (OrderView { count: count@, ..old(self)@ }),
    {
        self.count = count;
    }

    pub fn set_prize(&mut self, prize: String)
        ensures
            final(self)@ == (OrderView { prize: prize@, ..old(self)@ }),
    {
        self.prize = prize;
    }

    pub fn set_amount(&mut self, amount: String)
        ensures
            final(self)@ == (OrderView { amount: amount@, ..old(self)@ }),
    {
        self.amount = amount;
    }

    pub fn set_owned(&mut self, owned: String)
        ensures
            final(self)@ == (OrderView { owned: owned@, ..old(self)@ }),
    {
        self.owned = owned;
    }

    pub fn with_code(self, code: String) -> (r: Self)
        ensures
            r@ == (OrderView { code: code@, ..self@ }),
    {
        let mut order = self;
        order.code = code;
        order
    }

    pub fn with_name(self, name: String) -> (r: Self)
        ensures
            r@ == (OrderView { name: name@, ..self@ }),
    {
        let mut order = self;
        order.name = name;
        order
    }

    pub fn with_date(self, date: String) -> (r: Self)
        ensures
            r@ == (OrderView { date: date@, ..self@ }),
    {
        let mut order = self;
        order.date = date;
        order
    }

    pub fn with_kind(self, kind: String) -> (r: Self)
        ensures
            r@ == (OrderView { kind: kind@, ..self@ }),
    {
        let mut order = self;
        order.kind = kind;
        order
    }

    pub fn with_count(self, count: String) -> (r: Self)
        ensures
            r@ == (OrderView { count: count@, ..self@ }),
    {
        let mut order = self;
        order.count = count;
        order
    }

    pub fn with_prize(self, prize: String) -> (r: Self)
        ensures
            r@ == (OrderView { prize: prize@, ..self@ }),
    {
        let mut order = self;
        order.prize = prize;
        order
    }

    pub fn with_amount(self, amount: String) -> (r: Self)
        ensures
            r@ == (OrderView { amount: amount@, ..self@ }),
    {
        let mut order = self;
        order.amount = amount;
        order
    }

    pub fn with_owned(self, owned: String) -> (r: Self)
        ensures
            r@ == (OrderView { owned: owned@, ..self@ }),
    {
        let mut order = self;
        order.owned = owned;
        order
    }

    pub fn with_trade(self, trade: Trade) -> (r: Self)
        ensures
            r@ == (OrderView { trade: trade, ..self@ }),
    {
        let mut order = self;
        order.trade = trade;
        order
    }

    pub fn get_code(&self) -> (r: &String)
        ensures
            r@ == self@.code,
    {
        &self.code
    }

    pub fn get_name(&self) -> (r: &String)
        ensures
            r@ == self@.name,
    {
        &self.name
    }

    pub fn get_date(&self) -> (r: &String)
        ensures
            r@ == self@.date,
    {
        &self.date
    }

    pub fn get_kind(&self) -> (r: &String)
        ensures
            r@ == self@.kind,
    {
        &self.kind
    }

    pub fn get_count(&self) -> (r: &String)
        ensures
            r@ == self@.count,
    {
        &self.count
    }

    pub fn get_prize(&self) -> (r: &String)
        ensures
            r@ == self@.prize,
    {
        &self.prize
    }

    pub fn get_amount(&self) -> (r: &String)
        ensures
            r@ == self@.amount,
    {
        &self.amount
    }

    pub fn get_owned(&self) -> (r: &String)
        ensures
            r@ == self@.owned,
    {
        &self.owned
    }

    pub fn get_trade(&self) -> (r: &Trade)
        ensures
            *r == self@.trade,
    {
        &self.trade
    }

    /// The cells of the record's row in the report, in the order of the
    /// report's columns.
    pub fn to_row(&self) -> (r: Vec<String>)
        ensures
            texts(r@) == self@.row(),
    {
        let mut r: Vec<String> = Vec::new();
        r.push(self.date.clone());
        r.push(self.code.clone());
        r.push(self.name.clone());
        r.push(self.kind.clone());
        r.push(self.count.clone());
        r.push(self.prize.clone());
        r.push(self.amount.clone());
        r.push(self.owned.clone());
        assert(texts(r@) =~= self@.row());
        r
    }

    /// Whether the order is reported: every action but `Ignore` is.
    pub fn is_valid(&self) -> (r: bool)
        ensures
            r == self@.valid(),
    {
        match self.trade {
            Trade::Ignore => false,
            _ => true,
        }
    }
}

} // verus!
