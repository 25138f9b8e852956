use vstd::prelude::*;

use crate::common::{OrderbookUpdate, SharedStr};
use crate::gemini::messages::{
    BalanceUpdate, ContractStatus, L2DifferentialDepth, Message, SubscriptionError,
};
use crate::gemini::types::depth_update;

verus! {

/// Where a message goes.
pub enum Routed {
    /// To the book keeper.
    Orderbook(OrderbookUpdate<L2DifferentialDepth, L2DifferentialDepth>),
    /// To the balance listener.
    Balance(BalanceUpdate),
    /// To the subscription manager's error listener.
    SubscriptionError(SubscriptionError),
    /// To the subscription manager and the metadata store; a settled
    /// contract also ends its book, which goes to the book keeper first.
    ContractStatus {
        terminal: Option<OrderbookUpdate<L2DifferentialDepth, L2DifferentialDepth>>,
        status: ContractStatus,
    },
    /// Nowhere.
    Dropped,
}

/// The status text of a settled contract.
pub open spec fn is_settled(status: Seq<char>) -> bool {
    status == "Settled"@
}

/// Whether a status text is the one of a settled contract.
pub fn settled(status: &String) -> (r: bool)
    ensures
        r == is_settled(status@),
{
    *status == String::from_str("Settled")
}

/// Where each message goes: depth messages to the books as snapshot or
/// diff, balances and subscription errors to their listeners, contract
/// statuses to both status listeners, ending the book of a settled one.
pub fn route_message(msg: Message) -> (r: Routed)
    ensures
        match msg {
            Message::L2DifferentialDepth(update) => r == Routed::Orderbook(depth_update(update)),
            Message::BalanceUpdate(update) => r == Routed::Balance(update),
            Message::SubscriptionError(error) => r == Routed::SubscriptionError(error),
            Message::ContractStatus(status) => r == Routed::ContractStatus {
                terminal: if is_settled(status.new_status@) {
                    Some(
                        OrderbookUpdate::<
                            L2DifferentialDepth,
                            L2DifferentialDepth,
                        >::Terminal(status.symbol),
                    )
                } else {
                    None
                },
                status,
            },
            Message::Unknown => r is Dropped,
        },
{
    match msg {
        Message::L2DifferentialDepth(update) => Routed::Orderbook(update.into()),
        Message::BalanceUpdate(update) => Routed::Balance(update),
        Message::SubscriptionError(error) => Routed::SubscriptionError(error),
        Message::ContractStatus(status) => {
            let terminal = if settled(&status.new_status) {
                Some(OrderbookUpdate::Terminal(status.symbol.clone()))
            } else {
                None
            };
            Routed::ContractStatus { terminal, status }
        },
        Message::Unknown => Routed::Dropped,
    }
}

} // verus!
