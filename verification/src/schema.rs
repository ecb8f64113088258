//! The column mapper: the fields of one line are laid onto a record, either
//! by the titles of the columns or by their positions.

use vstd::prelude::*;
use vstd::string::*;
use crate::error::OrderError;
use crate::number::{abs_clamped, clamp_i64, magnitude, number_value, parse_number};
use crate::order::{DeliveryOrder, OrderView};
use crate::text::{texts, trim, trimmed};
use crate::trade::{classify, classify_spec, from_label_spec, label_spec, Trade};

verus! {

/// What a column can hold.
#[derive(Clone, Copy, Debug, PartialEq, Eq, Structural)]
pub enum Column {
    Date,
    Code,
    Name,
    /// The traded quantity; only its magnitude is read.
    Quantity,
    Price,
    Amount,
    /// The vendor's business type.
    Business,
    /// The quantity that the vendor reports as remaining after the line.
    Remaining,
    /// A column that the record has no use for.
    Other,
}

/// The field that a column title stands for.
pub open spec fn column_of(title: Seq<char>) -> Column {
    if title == "发生日期"@ || title == "日期"@ {
        Column::Date
    } else if title == "证券代码"@ {
        Column::Code
    } else if title == "证券名称"@ || title == "股票名称"@ {
        Column::Name
    } else if title == "成交数量"@ || title == "发生数量"@ {
        Column::Quantity
    } else if title == "成交价格"@ || title == "成交均价"@ {
        Column::Price
    } else if title == "发生金额"@ || title == "收付金额"@ {
        Column::Amount
    } else if title == "业务名称"@ || title == "业务标志"@ {
        Column::Business
    } else if title == "证券数量"@ {
        Column::Remaining
    } else {
        Column::Other
    }
}

/// A record while its columns are read: the texts and the action found so
/// far, the magnitude of the quantity, and the remaining quantity that the
/// vendor reports.
#[derive(Debug)]
pub struct Staged {
    order: DeliveryOrder,
    magnitude: i64,
    remaining: Option<i64>,
}

/// What a `Staged` holds, as plain values.
pub struct StagedView {
    pub order: OrderView,
    /// Never negative: the sign comes with the action, once it is known.
    pub magnitude: int,
    pub remaining: Option<int>,
}

impl StagedView {
    /// The state before any column was read.
    pub open spec fn empty() -> StagedView {
        StagedView { order: OrderView::empty(), magnitude: 0, remaining: None }
    }
}

impl View for Staged {
    type V = StagedView;

    closed spec fn view(&self) -> StagedView {
        StagedView {
            order: self.order@,
            magnitude: self.magnitude as int,
            remaining: match self.remaining {
                Some(v) => Some(v as int),
                None => None,
            },
        }
    }
}

impl Staged {
    #[verifier::type_invariant]
    spec fn magnitude_is_natural(self) -> bool {
        self.magnitude >= 0
    }

    /// The record as far as it has been read.
    pub fn order(&self) -> (r: &DeliveryOrder)
        ensures
            r@ == self@.order,
    {
        &self.order
    }

    /// The magnitude of the quantity.
    pub fn magnitude(&self) -> (r: i64)
        ensures
            r == self@.magnitude,
            r >= 0,
    {
        proof {
            use_type_invariant(self);
        }
        self.magnitude
    }

    /// The remaining quantity that the vendor reports, if the line has one.
    pub fn remaining(&self) -> (r: Option<i64>)
        ensures
            match r {
                Some(v) => self@.remaining == Some(v as int),
                None => self@.remaining is None,
            },
    {
        self.remaining
    }

    /// The three parts of the staged record.
    pub fn into_parts(self) -> (r: (DeliveryOrder, i64, Option<i64>))
        ensures
            r.0@ == self@.order,
            r.1 == self@.magnitude,
            r.1 >= 0,
            match r.2 {
                Some(v) => self@.remaining == Some(v as int),
                None => self@.remaining is None,
            },
    {
        proof {
            use_type_invariant(&self);
        }
        (self.order, self.magnitude, self.remaining)
    }
}

/// The staged record after one more column was read; `None` where the column
/// should hold a number and does not.
///
/// Texts are taken without the white space around them. The business type is
/// looked up as it stands in the line; where the table has no action for it,
/// the label found so far is left alone.
pub open spec fn read_column(st: StagedView, title: Seq<char>, column: Seq<char>) -> Option<
    StagedView,
> {
    let value = trim(column);
    match column_of(title) {
        Column::Date => Some(StagedView { order: OrderView { date: value, ..st.order }, ..st }),
        Column::Code => Some(StagedView { order: OrderView { code: value, ..st.order }, ..st }),
        Column::Name => Some(StagedView { order: OrderView { name: value, ..st.order }, ..st }),
        Column::Quantity => match number_value(value) {
            Some(v) => Some(StagedView { magnitude: magnitude(v), ..st }),
            None => None,
        },
        Column::Price => Some(StagedView { order: OrderView { prize: value, ..st.order }, ..st }),
        Column::Amount => Some(
            StagedView { order: OrderView { amount: value, ..st.order }, ..st },
        ),
        Column::Business => {
            let trade = classify_spec(column);
            let kind = match label_spec(trade) {
                Some(label) => label,
                None => st.order.kind,
            };
            Some(StagedView { order: OrderView { trade: trade, kind: kind, ..st.order }, ..st })
        },
        Column::Remaining => match number_value(value) {
            Some(v) => Some(StagedView { remaining: Some(clamp_i64(v)), ..st }),
            None => None,
        },
        Column::Other => Some(st),
    }
}

/// The staged record after the first `n` columns were read in order, each
/// under the title of the same index. Reading stops at the first column that
/// should hold a number and does not.
pub open spec fn read_columns(titles: Seq<Seq<char>>, columns: Seq<Seq<char>>, n: int) -> Result<
    StagedView,
    OrderError,
>
    decreases n,
{
    if n <= 0 {
        Ok(StagedView::empty())
    } else {
        match read_columns(titles, columns, n - 1) {
            Ok(st) => match read_column(st, titles[n - 1], columns[n - 1]) {
                Some(next) => Ok(next),
                None => Err(OrderError::ParseError { column: (n - 1) as usize }),
            },
            Err(e) => Err(e),
        }
    }
}

/// The record that a line's fields give under the titles of its file: a
/// format mismatch where their numbers differ, else what reading all the
/// columns gives.
pub open spec fn map_columns_spec(titles: Seq<Seq<char>>, columns: Seq<Seq<char>>) -> Result<
    StagedView,
    OrderError,
> {
    if titles.len() != columns.len() {
        Err(OrderError::FormatMismatch)
    } else {
        read_columns(titles, columns, titles.len() as int)
    }
}

/// An error in one column is the result, whatever columns follow.
pub proof fn lemma_read_columns_error(
    titles: Seq<Seq<char>>,
    columns: Seq<Seq<char>>,
    k: int,
    n: int,
)
    requires
        0 <= k <= n,
        read_columns(titles, columns, k) is Err,
    ensures
        read_columns(titles, columns, n) == read_columns(titles, columns, k),
    decreases n - k,
{
    if k < n {
        lemma_read_columns_error(titles, columns, k, n - 1);
    }
}

/// The index of the last business type among the first `n` columns.
pub open spec fn last_business(titles: Seq<Seq<char>>, n: int) -> Option<int>
    decreases n,
{
    if n <= 0 {
        None
    } else if column_of(titles[n - 1]) == Column::Business {
        Some(n - 1)
    } else {
        last_business(titles, n - 1)
    }
}

/// A record always has an action: the one that the line's last business type
/// stands for, which is `Ignore` for a text that the table does not hold, and
/// `Ignore` where the line has no business type at all.
pub proof fn law_action(titles: Seq<Seq<char>>, columns: Seq<Seq<char>>, n: int)
    ensures
        read_columns(titles, columns, n) matches Ok(st) ==> st.order.trade == match last_business(
            titles,
            n,
        ) {
            Some(i) => classify_spec(columns[i]),
            None => Trade::Ignore,
        },
    decreases n,
{
    if n > 0 {
        law_action(titles, columns, n - 1);
    }
}

/// The magnitude that is staged is never negative.
pub proof fn lemma_read_columns_magnitude(titles: Seq<Seq<char>>, columns: Seq<Seq<char>>, n: int)
    ensures
        read_columns(titles, columns, n) matches Ok(st) ==> 0 <= st.magnitude <= i64::MAX,
    decreases n,
{
    if n > 0 {
        lemma_read_columns_magnitude(titles, columns, n - 1);
    }
}

/// The field that a column title stands for.
pub fn column_kind(title: &str) -> (r: Column)
    ensures
        r == column_of(title@),
{
    if title.eq("发生日期") || title.eq("日期") {
        Column::Date
    } else if title.eq("证券代码") {
        Column::Code
    } else if title.eq("证券名称") || title.eq("股票名称") {
        Column::Name
    } else if title.eq("成交数量") || title.eq("发生数量") {
        Column::Quantity
    } else if title.eq("成交价格") || title.eq("成交均价") {
        Column::Price
    } else if title.eq("发生金额") || title.eq("收付金额") {
        Column::Amount
    } else if title.eq("业务名称") || title.eq("业务标志") {
        Column::Business
    } else if title.eq("证券数量") {
        Column::Remaining
    } else {
        Column::Other
    }
}

/// Lays the fields of a line onto a record by the titles of the columns.
pub fn map_columns(titles: &Vec<String>, columns: &Vec<String>) -> (r: Result<Staged, OrderError>)
    ensures
        match map_columns_spec(texts(titles@), texts(columns@)) {
            Ok(st) => r is Ok && r->Ok_0@ == st,
            Err(e) => r == Err::<Staged, OrderError>(e),
        },
{
    if titles.len() != columns.len() {
        return Err(OrderError::FormatMismatch);
    }
    let n: usize = titles.len();
    let ghost ts = texts(titles@);
    let ghost cs = texts(columns@);
    let mut order = DeliveryOrder::default();
    let mut magnitude: i64 = 0;
    let mut remaining: Option<i64> = None;
    let mut i: usize = 0;
    while i < n
        invariant
            i <= n,
            n == titles.len(),
            n == columns.len(),
            ts == texts(titles@),
            cs == texts(columns@),
            magnitude >= 0,
            read_columns(ts, cs, i as int) == Ok::<StagedView, OrderError>(
                StagedView {
                    order: order@,
                    magnitude: magnitude as int,
                    remaining: match remaining {
                        Some(v) => Some(v as int),
                        None => None,
                    },
                },
            ),
        decreases n - i,
    {
        let title = titles[i].as_str();
        let column = columns[i].as_str();
        proof {
            assert(ts[i as int] == title@);
            assert(cs[i as int] == column@);
        }
        match column_kind(title) {
            Column::Date => {
                order.set_date(trimmed(column));
            },
            Column::Code => {
                order.set_code(trimmed(column));
            },
            Column::Name => {
                order.set_name(trimmed(column));
            },
            Column::Quantity => {
                let value = trimmed(column);
                match parse_number(value.as_str()) {
                    Some(v) => {
                        magnitude = abs_clamped(v);
                    },
                    None => {
                        proof {
                            lemma_read_columns_error(ts, cs, i + 1, n as int);
                        }
                        return Err(OrderError::ParseError { column: i });
                    },
                }
            },
            Column::Price => {
                order.set_prize(trimmed(column));
            },
            Column::Amount => {
                order.set_amount(trimmed(column));
            },
            Column::Business => {
                let trade = classify(column);
                order = order.with_trade(trade);
                match trade.label() {
                    Some(label) => {
                        order.set_kind(label.to_owned());
                    },
                    None => {},
                }
            },
            Column::Remaining => {
                let value = trimmed(column);
                match parse_number(value.as_str()) {
                    Some(v) => {
                        remaining = Some(v);
                    },
                    None => {
                        proof {
                            lemma_read_columns_error(ts, cs, i + 1, n as int);
                        }
                        return Err(OrderError::ParseError { column: i });
                    },
                }
            },
            Column::Other => {},
        }
        i = i + 1;
    }
    Ok(Staged { order, magnitude, remaining })
}

/// The number of columns of the positional schema.
pub const FIXED_COLUMNS: usize = 20;

/// The position of the date in the positional schema.
pub const FIXED_DATE: usize = 0;

/// The position of the security code.
pub const FIXED_CODE: usize = 2;

/// The position of the security name.
pub const FIXED_NAME: usize = 3;

/// The position of the buy/sell flag: the label of the action, as the report
/// shows it.
pub const FIXED_KIND: usize = 4;

/// The position of the traded quantity.
pub const FIXED_QUANTITY: usize = 5;

/// The position of the price.
pub const FIXED_PRICE: usize = 6;

/// The position of the cash effect.
pub const FIXED_AMOUNT: usize = 11;

/// The position of the quantity that the vendor reports as remaining.
pub const FIXED_REMAINING: usize = 18;

/// The record that the fields of a line give by their positions: a format
/// mismatch unless there are exactly twenty of them. The flag is kept as it
/// stands, and the action is the one reported under it.
pub open spec fn map_fixed_spec(columns: Seq<Seq<char>>) -> Result<StagedView, OrderError> {
    if columns.len() != FIXED_COLUMNS {
        Err(OrderError::FormatMismatch)
    } else {
        match number_value(trim(columns[FIXED_QUANTITY as int])) {
            None => Err(OrderError::ParseError { column: FIXED_QUANTITY }),
            Some(quantity) => match number_value(trim(columns[FIXED_REMAINING as int])) {
                None => Err(OrderError::ParseError { column: FIXED_REMAINING }),
                Some(left) => Ok(
                    StagedView {
                        order: OrderView {
                            date: trim(columns[FIXED_DATE as int]),
                            code: trim(columns[FIXED_CODE as int]),
                            name: trim(columns[FIXED_NAME as int]),
                            kind: columns[FIXED_KIND as int],
                            prize: trim(columns[FIXED_PRICE as int]),
                            amount: trim(columns[FIXED_AMOUNT as int]),
                            trade: from_label_spec(columns[FIXED_KIND as int]),
                            ..OrderView::empty()
                        },
                        magnitude: magnitude(quantity),
                        remaining: Some(clamp_i64(left)),
                    },
                ),
            },
        }
    }
}

/// The title row that a file of the positional schema must have: twenty
/// titles, in order.
#[derive(Debug)]
pub struct FixedSchema {
    titles: Vec<String>,
}

impl FixedSchema {
    #[verifier::type_invariant]
    spec fn has_all_titles(self) -> bool {
        self.titles.len() == FIXED_COLUMNS
    }

    /// The expected titles.
    pub closed spec fn titles(&self) -> Seq<Seq<char>> {
        texts(self.titles@)
    }

    /// The schema with these expected titles; a format mismatch unless there
    /// are exactly twenty of them.
    pub fn new(titles: Vec<String>) -> (r: Result<FixedSchema, OrderError>)
        ensures
            match r {
                Ok(schema) => titles.len() == FIXED_COLUMNS && schema.titles() == texts(titles@),
                Err(e) => titles.len() != FIXED_COLUMNS && e == OrderError::FormatMismatch,
            },
    {
        if titles.len() != FIXED_COLUMNS {
            Err(OrderError::FormatMismatch)
        } else {
            Ok(FixedSchema { titles })
        }
    }

    /// Accepts the title row of a file exactly if it holds the expected
    /// titles, in order.
    pub fn check_titles(&self, row: &Vec<String>) -> (r: Result<(), OrderError>)
        ensures
            r is Ok <==> texts(row@) == self.titles(),
            r is Ok ==> row.len() == FIXED_COLUMNS,
            r is Err ==> r == Err::<(), OrderError>(OrderError::FormatMismatch),
    {
        proof {
            use_type_invariant(self);
        }
        if row.len() != FIXED_COLUMNS {
            return Err(OrderError::FormatMismatch);
        }
        let mut i: usize = 0;
        while i < FIXED_COLUMNS
            invariant
                i <= FIXED_COLUMNS,
                row.len() == FIXED_COLUMNS,
                self.titles.len() == FIXED_COLUMNS,
                forall|j: int| 0 <= j < i ==> texts(row@)[j] == self.titles()[j],
            decreases FIXED_COLUMNS - i,
        {
            if !row[i].as_str().eq(self.titles[i].as_str()) {
                assert(texts(row@)[i as int] != self.titles()[i as int]);
                return Err(OrderError::FormatMismatch);
            }
            i = i + 1;
        }
        assert(texts(row@) =~= self.titles());
        Ok(())
    }
}

/// Lays the fields of a line onto a record by their positions.
pub fn map_fixed(columns: &Vec<String>) -> (r: Result<Staged, OrderError>)
    ensures
        match map_fixed_spec(texts(columns@)) {
            Ok(st) => r is Ok && r->Ok_0@ == st,
            Err(e) => r == Err::<Staged, OrderError>(e),
        },
{
    if columns.len() != FIXED_COLUMNS {
        return Err(OrderError::FormatMismatch);
    }
    let ghost cs = texts(columns@);
    proof {
        assert(cs[FIXED_DATE as int] == columns@[FIXED_DATE as int]@);
        assert(cs[FIXED_CODE as int] == columns@[FIXED_CODE as int]@);
        assert(cs[FIXED_NAME as int] == columns@[FIXED_NAME as int]@);
        assert(cs[FIXED_KIND as int] == columns@[FIXED_KIND as int]@);
        assert(cs[FIXED_QUANTITY as int] == columns@[FIXED_QUANTITY as int]@);
        assert(cs[FIXED_PRICE as int] == columns@[FIXED_PRICE as int]@);
        assert(cs[FIXED_AMOUNT as int] == columns@[FIXED_AMOUNT as int]@);
        assert(cs[FIXED_REMAINING as int] == columns@[FIXED_REMAINING as int]@);
    }
    let quantity = trimmed(columns[FIXED_QUANTITY].as_str());
    let magnitude: i64 = match parse_number(quantity.as_str()) {
        Some(v) => abs_clamped(v),
        None => {
            return Err(OrderError::ParseError { column: FIXED_QUANTITY });
        },
    };
    let left = trimmed(columns[FIXED_REMAINING].as_str());
    let remaining: i64 = match parse_number(left.as_str()) {
        Some(v) => v,
        None => {
            return Err(OrderError::ParseError { column: FIXED_REMAINING });
        },
    };
    let flag = columns[FIXED_KIND].as_str();
    let order = DeliveryOrder::default().with_date(trimmed(columns[FIXED_DATE].as_str())).with_code(
        trimmed(columns[FIXED_CODE].as_str()),
    ).with_name(trimmed(columns[FIXED_NAME].as_str())).with_kind(flag.to_owned()).with_prize(
        trimmed(columns[FIXED_PRICE].as_str()),
    ).with_amount(trimmed(columns[FIXED_AMOUNT].as_str())).with_trade(Trade::from_label(flag));
    Ok(Staged { order, magnitude, remaining: Some(remaining) })
}

} // verus!
