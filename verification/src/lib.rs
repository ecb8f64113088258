//! Normalisation of brokerage delivery orders.
//!
//! A vendor exports the settled trades and cash movements of an account as
//! tab-separated lines. This library turns each line into one canonical
//! record, keeps a running position for every security, and says what goes
//! into the queue between the readers of the files and the writer of the
//! report.
//!
//! - [`text`] and [`number`]: the fields of a line, and the numbers in them.
//! - [`trade`]: the actions, and the business types that stand for them.
//! - [`order`]: the canonical record.
//! - [`schema`]: the column mapper, by titles or by positions.
//! - [`ledger`]: the position ledger as a mathematical object, and its laws.
//! - [`htsc`]: the extraction context, which reads a line and settles it with
//!   the ledger.
//! - [`pipeline`]: the producer of one file and the consumer of the queue.
//! - [`extract`]: a whole file, or several, at once.
//! - [`accounting`]: what holds of the queue under every interleaving.
//!
//! Every executable function is verified against its contract. What is taken
//! on trust is the equality of string slices and the decoding of GBK text.

pub mod accounting;
pub mod error;
pub mod extract;
pub mod htsc;
pub mod ledger;
pub mod number;
pub mod order;
pub mod pipeline;
pub mod schema;
pub mod text;
pub mod trade;

pub use error::OrderError;
pub use order::DeliveryOrder;
pub use trade::Trade;
