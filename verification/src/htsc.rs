//! The extraction context: the position ledger, and the reading of one line
//! against the title row of its file.

use vstd::prelude::*;
use vstd::string::*;
use vstd::hash_map::StringHashMap;
use crate::error::OrderError;
use crate::ledger::{apply_delta, running_total};
use crate::number::{decimal_text, integer_of, lemma_integer_of_text, signed_decimal};
use crate::order::{DeliveryOrder, OrderView};
use crate::schema::{
    lemma_read_columns_magnitude, map_columns, map_columns_spec, map_fixed, map_fixed_spec,
    Staged, StagedView,
};
use crate::text::{line_fields, split_line, texts};
use crate::trade::{signed_quantity, Trade};

pub use crate::extract::extract_from_file;

verus! {

/// The state of one extraction run: a running total for every security code
/// that a line has referred to, and whether progress is to be reported.
pub struct Context {
    count: StringHashMap<i64>,
    debug: bool,
}

/// A running total that differs from the quantity that the vendor reports as
/// remaining. It is a notice: the record keeps the running total.
#[derive(Debug)]
pub struct LedgerMismatch {
    /// The security.
    pub code: String,
    /// The remaining quantity that the vendor reports.
    pub vendor: i64,
    /// The running total of the ledger.
    pub local: i64,
    /// The date of the transaction.
    pub date: String,
}

/// What a `LedgerMismatch` holds, as plain values.
pub struct MismatchView {
    pub code: Seq<char>,
    pub vendor: int,
    pub local: int,
    pub date: Seq<char>,
}

impl View for LedgerMismatch {
    type V = MismatchView;

    open spec fn view(&self) -> MismatchView {
        MismatchView {
            code: self.code@,
            vendor: self.vendor as int,
            local: self.local as int,
            date: self.date@,
        }
    }
}

/// What one line gives: the finished record, and a notice where the ledger
/// and the vendor disagree.
#[derive(Debug)]
pub struct Settlement {
    pub order: DeliveryOrder,
    pub mismatch: Option<LedgerMismatch>,
}

/// What a `Settlement` holds, as plain values.
pub struct SettlementView {
    pub order: OrderView,
    pub mismatch: Option<MismatchView>,
}

impl View for Settlement {
    type V = SettlementView;

    open spec fn view(&self) -> SettlementView {
        SettlementView {
            order: self.order@,
            mismatch: match self.mismatch {
                Some(m) => Some(m@),
                None => None,
            },
        }
    }
}

/// A settlement together with the ledger that it leaves.
pub struct Settled {
    pub result: SettlementView,
    pub ledger: Map<Seq<char>, int>,
}

/// The notice that a record gets: one where the vendor reports a remaining
/// quantity that is not the running total.
pub open spec fn mismatch_spec(order: OrderView, remaining: Option<int>, total: int) -> Option<
    MismatchView,
> {
    match remaining {
        Some(vendor) => if vendor != total {
            Some(MismatchView { code: order.code, vendor: vendor, local: total, date: order.date })
        } else {
            None
        },
        None => None,
    }
}

/// The ledger's part in a record.
///
/// The quantity gets its sign from the action and is written into the record.
/// A record with a security code adds it to the running total of that code;
/// where the sum leaves the range of `i64` the line is rejected and the
/// ledger stays as it was. A record without a code updates nothing. Where the
/// ledger then holds a total for the code, the record shows that total, and
/// a remaining quantity from the vendor is held against it.
pub open spec fn settle_spec(ledger: Map<Seq<char>, int>, st: StagedView) -> Result<
    Settled,
    OrderError,
> {
    let quantity = signed_quantity(st.order.trade, st.magnitude);
    let code = st.order.code;
    let total = running_total(ledger, code) + quantity;
    if code.len() > 0 && !(i64::MIN <= total <= i64::MAX) {
        Err(OrderError::Overflow)
    } else {
        let after = if code.len() > 0 {
            apply_delta(ledger, code, quantity)
        } else {
            ledger
        };
        let counted = OrderView { count: decimal_text(quantity), ..st.order };
        if after.contains_key(code) {
            Ok(
                Settled {
                    result: SettlementView {
                        order: OrderView { owned: decimal_text(after[code]), ..counted },
                        mismatch: mismatch_spec(counted, st.remaining, after[code]),
                    },
                    ledger: after,
                },
            )
        } else {
            Ok(Settled { result: SettlementView { order: counted, mismatch: None }, ledger: after })
        }
    }
}

/// What a line gives under the titles of its file.
pub open spec fn gen_order_spec(
    ledger: Map<Seq<char>, int>,
    titles: Seq<Seq<char>>,
    line: Seq<char>,
) -> Result<Settled, OrderError> {
    match map_columns_spec(titles, line_fields(line)) {
        Ok(st) => settle_spec(ledger, st),
        Err(e) => Err(e),
    }
}

/// What a line of the positional schema gives.
pub open spec fn gen_fixed_order_spec(ledger: Map<Seq<char>, int>, line: Seq<char>) -> Result<
    Settled,
    OrderError,
> {
    match map_fixed_spec(line_fields(line)) {
        Ok(st) => settle_spec(ledger, st),
        Err(e) => Err(e),
    }
}

/// The sign of stored quantities: the quantity that a settled record shows is
/// not positive for a sale and not negative for any other action.
pub proof fn law_stored_quantity_sign(ledger: Map<Seq<char>, int>, st: StagedView)
    requires
        st.magnitude >= 0,
    ensures
        settle_spec(ledger, st) matches Ok(s) ==> {
            let order = s.result.order;
            &&& order.count == decimal_text(integer_of(order.count))
            &&& order.trade == Trade::Sell ==> integer_of(order.count) <= 0
            &&& order.trade != Trade::Sell ==> integer_of(order.count) >= 0
        },
{
    lemma_integer_of_text(signed_quantity(st.order.trade, st.magnitude));
}

/// The sign of stored quantities, for every line that gives a record under
/// the titles of its file.
pub proof fn law_order_quantity_sign(
    ledger: Map<Seq<char>, int>,
    titles: Seq<Seq<char>>,
    line: Seq<char>,
)
    ensures
        gen_order_spec(ledger, titles, line) matches Ok(s) ==> {
            let order = s.result.order;
            &&& order.count == decimal_text(integer_of(order.count))
            &&& order.trade == Trade::Sell ==> integer_of(order.count) <= 0
            &&& order.trade != Trade::Sell ==> integer_of(order.count) >= 0
        },
{
    let columns = line_fields(line);
    if let Ok(st) = map_columns_spec(titles, columns) {
        lemma_read_columns_magnitude(titles, columns, titles.len() as int);
        law_stored_quantity_sign(ledger, st);
    }
}

/// A settled record shows the running total that the ledger holds for its
/// code after the line, whatever the vendor reports; a notice is given exactly
/// where the two differ. No other code's total moves, and no code leaves the
/// ledger.
pub proof fn law_running_balance(ledger: Map<Seq<char>, int>, st: StagedView)
    ensures
        settle_spec(ledger, st) matches Ok(s) ==> {
            &&& s.ledger.contains_key(st.order.code) ==> s.result.order.owned == decimal_text(
                running_total(s.ledger, st.order.code),
            )
            &&& s.result.mismatch is Some <==> s.ledger.contains_key(st.order.code)
                && st.remaining is Some && st.remaining->0 != running_total(
                s.ledger,
                st.order.code,
            )
            &&& forall|other: Seq<char>|
                other != st.order.code ==> running_total(s.ledger, other) == running_total(
                    ledger,
                    other,
                )
            &&& forall|other: Seq<char>|
                ledger.contains_key(other) ==> s.ledger.contains_key(other)
        },
{
}

/// The titles of the report's columns, in order.
pub open spec fn report_titles() -> Seq<Seq<char>> {
    seq![
        "成交日期"@,
        "证券代码"@,
        "证券名称"@,
        "交易类别"@,
        "成交数量"@,
        "成交价格"@,
        "发生金额"@,
        "证券余额"@,
    ]
}

impl Context {
    /// The running totals, by security code.
    pub closed spec fn totals(&self) -> Map<Seq<char>, int> {
        self.count@.map_values(|v: i64| v as int)
    }

    /// Whether progress is to be reported.
    pub closed spec fn is_debug(&self) -> bool {
        self.debug
    }

    /// A context with an empty ledger.
    pub fn new() -> (r: Self)
        ensures
            r.totals() == Map::<Seq<char>, int>::empty(),
            !r.is_debug(),
    {
        let r = Self { count: StringHashMap::new(), debug: false };
        assert(r.totals() =~= Map::<Seq<char>, int>::empty());
        r
    }

    /// Whether the ledger holds a running total for `key`.
    pub fn has(&self, key: &str) -> (r: bool)
        ensures
            r == self.totals().contains_key(key@),
    {
        self.count.contains_key(key)
    }

    /// The running total of `key`, if the ledger holds one.
    pub fn get_count(&self, key: &str) -> (r: Option<&i64>)
        ensures
            match r {
                Some(v) => self.totals().contains_key(key@) && *v == self.totals()[key@],
                None => !self.totals().contains_key(key@),
            },
    {
        self.count.get(key)
    }

    /// Whether progress is to be reported.
    pub fn debug(&self) -> (r: bool)
        ensures
            r == self.is_debug(),
    {
        self.debug
    }

    /// Switches the reporting of progress on or off.
    pub fn set_debug(&mut self, debug: bool) -> (r: &mut Self)
        ensures
            r.is_debug() == debug,
            r.totals() == old(self).totals(),
            *final(self) == *final(r),
    {
        self.debug = debug;
        self
    }

    /// Adds `count` to the running total of `key`, which starts at zero.
    pub fn add_count(&mut self, key: String, count: i64)
        requires
            i64::MIN <= running_total(old(self).totals(), key@) + count <= i64::MAX,
        ensures
            final(self).totals() == apply_delta(old(self).totals(), key@, count as int),
            final(self).is_debug() == old(self).is_debug(),
    {
        let current: i64 = match self.count.get(key.as_str()) {
            Some(v) => *v,
            None => 0,
        };
        let ghost before = self.count@;
        self.count.insert(key, current + count);
        assert(self.totals() =~= apply_delta(
            before.map_values(|v: i64| v as int),
            key@,
            count as int,
        ));
    }

    /// Adds `delta` to the running total of `key` and gives the new total.
    /// Where the total would leave the range of `i64`, nothing is added and
    /// the answer is `Overflow`.
    pub fn apply_delta(&mut self, key: String, delta: i64) -> (r: Result<i64, OrderError>)
        ensures
            match r {
                Ok(total) => {
                    &&& total == running_total(old(self).totals(), key@) + delta
                    &&& final(self).totals() == apply_delta(old(self).totals(), key@, delta as int)
                },
                Err(e) => {
                    &&& e == OrderError::Overflow
                    &&& !(i64::MIN <= running_total(old(self).totals(), key@) + delta <= i64::MAX)
                    &&& final(self).totals() == old(self).totals()
                },
            },
            final(self).is_debug() == old(self).is_debug(),
    {
        let current: i64 = match self.get_count(key.as_str()) {
            Some(v) => *v,
            None => 0,
        };
        match current.checked_add(delta) {
            Some(total) => {
                self.add_count(key, delta);
                Ok(total)
            },
            None => Err(OrderError::Overflow),
        }
    }

    /// The ledger's part in a record: see `settle_spec`.
    pub fn settle(&mut self, staged: Staged) -> (r: Result<Settlement, OrderError>)
        ensures
            match settle_spec(old(self).totals(), staged@) {
                Ok(s) => r is Ok && r->Ok_0@ == s.result && final(self).totals() == s.ledger,
                Err(e) => r == Err::<Settlement, OrderError>(e) && final(self).totals() == old(
                    self,
                ).totals(),
            },
            final(self).is_debug() == old(self).is_debug(),
    {
        let (order, magnitude, remaining) = staged.into_parts();
        let mut order = order;
        let quantity: i64 = if *order.get_trade() == Trade::Sell {
            -magnitude
        } else {
            magnitude
        };
        if !order.get_code().as_str().is_empty() {
            match self.apply_delta(order.get_code().clone(), quantity) {
                Ok(_) => {},
                Err(e) => {
                    return Err(e);
                },
            }
        }
        order.set_count(signed_decimal(quantity));
        let held: Option<i64> = match self.get_count(order.get_code().as_str()) {
            Some(v) => Some(*v),
            None => None,
        };
        match held {
            Some(total) => {
                let mismatch = match remaining {
                    Some(vendor) => if vendor != total {
                        Some(
                            LedgerMismatch {
                                code: order.get_code().clone(),
                                vendor: vendor,
                                local: total,
                                date: order.get_date().clone(),
                            },
                        )
                    } else {
                        None
                    },
                    None => None,
                };
                order.set_owned(signed_decimal(total));
                Ok(Settlement { order, mismatch })
            },
            None => Ok(Settlement { order, mismatch: None }),
        }
    }

    /// Reads one line under the titles of its file, and settles the record
    /// with the ledger.
    ///
    /// The line is rejected with `FormatMismatch` where it has another number
    /// of fields than there are titles, with `ParseError` at the first column
    /// whose number does not parse, and with `Overflow` where the running
    /// total would leave `i64`. A rejected line leaves the ledger as it was.
    pub fn gen_order(&mut self, titles: &Vec<String>, line: String) -> (r: Result<
        Settlement,
        OrderError,
    >)
        ensures
            match gen_order_spec(old(self).totals(), texts(titles@), line@) {
                Ok(s) => r is Ok && r->Ok_0@ == s.result && final(self).totals() == s.ledger,
                Err(e) => r == Err::<Settlement, OrderError>(e) && final(self).totals() == old(
                    self,
                ).totals(),
            },
            final(self).is_debug() == old(self).is_debug(),
    {
        let columns = split_line(line.as_str());
        match map_columns(titles, &columns) {
            Ok(staged) => self.settle(staged),
            Err(e) => Err(e),
        }
    }

    /// Reads one line of the positional schema, and settles the record with
    /// the ledger. Lines are rejected as by `gen_order`, with `FormatMismatch`
    /// unless the line has exactly twenty fields.
    pub fn gen_fixed_order(&mut self, line: String) -> (r: Result<Settlement, OrderError>)
        ensures
            match gen_fixed_order_spec(old(self).totals(), line@) {
                Ok(s) => r is Ok && r->Ok_0@ == s.result && final(self).totals() == s.ledger,
                Err(e) => r == Err::<Settlement, OrderError>(e) && final(self).totals() == old(
                    self,
                ).totals(),
            },
            final(self).is_debug() == old(self).is_debug(),
    {
        let columns = split_line(line.as_str());
        match map_fixed(&columns) {
            Ok(staged) => self.settle(staged),
            Err(e) => Err(e),
        }
    }

    /// The titles of the report's columns.
    pub fn gen_title() -> (r: Vec<String>)
        ensures
            crate::text::texts(r@) == report_titles(),
    {
        let mut r: Vec<String> = Vec::new();
        r.push("成交日期".to_owned());
        r.push("证券代码".to_owned());
        r.push("证券名称".to_owned());
        r.push("交易类别".to_owned());
        r.push("成交数量".to_owned());
        r.push("成交价格".to_owned());
        r.push("发生金额".to_owned());
        r.push("证券余额".to_owned());
        assert(crate::text::texts(r@) =~= report_titles());
        r
    }
}

} // verus!
