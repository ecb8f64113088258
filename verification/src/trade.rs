//! The trade actions, and the vendor's business types that stand for them.

use vstd::prelude::*;
use vstd::string::*;

verus! {

/// What a line does to a position.
#[derive(Clone, Copy, Debug, PartialEq, Eq, PartialOrd, Structural)]
pub enum Trade {
    Buy,
    Sell,
    /// Transfer into the account.
    In,
    /// Transfer out of the account.
    Out,
    /// A line that is not reported.
    Ignore,
}

impl Default for Trade {
    fn default() -> (r: Self)
        ensures
            r == Trade::Ignore,
    {
        Trade::Ignore
    }
}

/// The action that a business type stands for. Every text has one; a text
/// that the table does not hold stands for `Ignore`.
pub open spec fn classify_spec(token: Seq<char>) -> Trade {
    if token == "证券卖出"@ {
        Trade::Sell
    } else if token == "证券买入"@ || token == "开放基金认购结果"@ {
        Trade::Buy
    } else if token == "银证转存"@ || token == "银行转存"@ || token == "利息归本"@ {
        Trade::In
    } else if token == "银证转取"@ || token == "银行转取"@ {
        Trade::Out
    } else {
        Trade::Ignore
    }
}

/// The label under which an action is reported. `Ignore` has none.
pub open spec fn label_spec(trade: Trade) -> Option<Seq<char>> {
    match trade {
        Trade::Sell => Some("卖出"@),
        Trade::Buy => Some("买入"@),
        Trade::In => Some("银证转入"@),
        Trade::Out => Some("银证转出"@),
        Trade::Ignore => None,
    }
}

/// The action that is reported under a label; `Ignore` for a text that is no
/// label.
pub open spec fn from_label_spec(label: Seq<char>) -> Trade {
    if label == "卖出"@ {
        Trade::Sell
    } else if label == "买入"@ {
        Trade::Buy
    } else if label == "银证转入"@ {
        Trade::In
    } else if label == "银证转出"@ {
        Trade::Out
    } else {
        Trade::Ignore
    }
}

/// The signed quantity that an action gives to a magnitude: a sale takes the
/// quantity away, every other action adds it.
pub open spec fn signed_quantity(trade: Trade, magnitude: int) -> int {
    if trade == Trade::Sell {
        -magnitude
    } else {
        magnitude
    }
}

/// The four labels differ from one another, so each action has its own.
pub proof fn lemma_labels_differ()
    ensures
        from_label_spec("卖出"@) == Trade::Sell,
        from_label_spec("买入"@) == Trade::Buy,
        from_label_spec("银证转入"@) == Trade::In,
        from_label_spec("银证转出"@) == Trade::Out,
{
    reveal_strlit("卖出");
    reveal_strlit("买入");
    reveal_strlit("银证转入");
    reveal_strlit("银证转出");
    assert("卖出"@[0] != "买入"@[0]);
    assert("卖出"@.len() != "银证转入"@.len());
    assert("买入"@.len() != "银证转出"@.len());
    assert("银证转入"@[3] != "银证转出"@[3]);
}

/// An action that has a label is the action that is read back from that
/// label.
pub proof fn law_label_round_trip(trade: Trade)
    ensures
        label_spec(trade) matches Some(l) ==> from_label_spec(l) == trade,
{
    lemma_labels_differ();
}

/// The action that a business type stands for.
pub fn classify(token: &str) -> (r: Trade)
    ensures
        r == classify_spec(token@),
{
    if token.eq("证券卖出") {
        Trade::Sell
    } else if token.eq("证券买入") || token.eq("开放基金认购结果") {
        Trade::Buy
    } else if token.eq("银证转存") || token.eq("银行转存") || token.eq("利息归本") {
        Trade::In
    } else if token.eq("银证转取") || token.eq("银行转取") {
        Trade::Out
    } else {
        Trade::Ignore
    }
}

impl Trade {
    /// The label under which the action is reported.
    pub fn label(&self) -> (r: Option<&'static str>)
        ensures
            match r {
                Some(l) => label_spec(*self) == Some(l@),
                None => label_spec(*self) is None,
            },
    {
        match self {
            Trade::Sell => Some("卖出"),
            Trade::Buy => Some("买入"),
            Trade::In => Some("银证转入"),
            Trade::Out => Some("银证转出"),
            Trade::Ignore => None,
        }
    }

    /// The action that is reported under `label`.
    pub fn from_label(label: &str) -> (r: Trade)
        ensures
            r == from_label_spec(label@),
    {
        if label.eq("卖出") {
            Trade::Sell
        } else if label.eq("买入") {
            Trade::Buy
        } else if label.eq("银证转入") {
            Trade::In
        } else if label.eq("银证转出") {
            Trade::Out
        } else {
            Trade::Ignore
        }
    }
}

} // verus!
