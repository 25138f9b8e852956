use vstd::prelude::*;

use crate::common::SharedStr;
use crate::data_structures::key_index::KeyIndex;
use crate::gemini::messages::{ContractStatus, Stream, SubscriptionError, Subscriptions};
use crate::gemini::router::{is_settled, settled};
use crate::session::Payload;

verus! {

/// What the metadata store asks its runner to do after a status message.
#[derive(Debug)]
pub enum MetadataAction {
    /// Fetch the event with this ticker and record each of its contracts.
    Fetch { event_ticker: String },
    /// Tell the matcher that this contract is gone.
    Remove(SharedStr),
    /// Nothing to do.
    Nothing,
}

/// The contracts whose metadata was fetched.
pub struct MetaDataRepo {
    metadata: KeyIndex<()>,
}

impl MetaDataRepo {
    /// The symbols of the contracts recorded.
    pub closed spec fn known(&self) -> Set<Seq<char>> {
        self.metadata@.dom()
    }

    /// The index is well formed, from `new` on.
    #[verifier::type_invariant]
    closed spec fn wf(&self) -> bool {
        self.metadata.wf()
    }

    pub fn new() -> (r: Self)
        ensures
            r.known() == Set::<Seq<char>>::empty(),
    {
        let r = Self { metadata: KeyIndex::new() };
        assert(r.known() =~= Set::<Seq<char>>::empty());
        r
    }

    /// A settled contract is dropped and its removal forwarded; the event
    /// of a contract not yet recorded is fetched; others need nothing.
    pub fn on_status(&mut self, msg: &ContractStatus) -> (r: MetadataAction)
        ensures
            is_settled(msg.new_status@) ==> final(self).known() == old(self).known().remove(
                msg.symbol@,
            ) && (r matches MetadataAction::Remove(s) && s@ == msg.symbol@),
            !is_settled(msg.new_status@) ==> final(self).known() == old(self).known(),
            !is_settled(msg.new_status@) && old(self).known().contains(msg.symbol@) ==> r is Nothing,
            !is_settled(msg.new_status@) && !old(self).known().contains(msg.symbol@) ==> (r matches MetadataAction::Fetch { event_ticker } && event_ticker@
                == msg.event_ticker@),
    {
        proof {
            use_type_invariant(&*self);
        }
        if settled(&msg.new_status) {
            let mut index = KeyIndex::new();
            std::mem::swap(&mut index, &mut self.metadata);
            index.remove(&msg.symbol);
            self.metadata = index;
            assert(self.known() =~= old(self).known().remove(msg.symbol@));
            return MetadataAction::Remove(msg.symbol.clone());
        }
        if self.metadata.get(&msg.symbol).is_some() {
            return MetadataAction::Nothing;
        }
        MetadataAction::Fetch { event_ticker: msg.event_ticker.clone() }
    }

    /// Records a contract whose metadata was forwarded.
    pub fn record(&mut self, contract_id: SharedStr)
        ensures
            final(self).known() == old(self).known().insert(contract_id@),
    {
        proof {
            use_type_invariant(&*self);
        }
        let ghost k = contract_id@;
        let mut index = KeyIndex::new();
        std::mem::swap(&mut index, &mut self.metadata);
        index.insert(contract_id, ());
        self.metadata = index;
        assert(self.known() =~= old(self).known().insert(k));
    }

    /// Whether the contract's metadata was recorded.
    pub fn contains(&self, contract_ticker: &SharedStr) -> (r: bool)
        ensures
            r == self.known().contains(contract_ticker@),
    {
        proof {
            use_type_invariant(self);
        }
        self.metadata.get(contract_ticker).is_some()
    }
}

/// What the subscription manager asks its runner to send after a status
/// message.
#[derive(Debug)]
pub enum SubscriptionAction {
    /// Subscribe to the book of this symbol; confirm once it is sent.
    Subscribe(SharedStr),
    /// Unsubscribe from the book of this symbol.
    Unsubscribe(SharedStr),
    /// Nothing to send.
    Nothing,
}

/// What handling a status message does to the set of subscribed books
/// and what it asks to send: a settled contract is unsubscribed and
/// forgotten, a contract not yet subscribed is to be subscribed, others
/// need nothing.
pub open spec fn status_handled(
    before: Set<Seq<char>>,
    after: Set<Seq<char>>,
    msg: ContractStatus,
    a: SubscriptionAction,
) -> bool {
    if is_settled(msg.new_status@) {
        after == before.remove(msg.symbol@) && (a matches SubscriptionAction::Unsubscribe(s)
            && s@ == msg.symbol@)
    } else if before.contains(msg.symbol@) {
        after == before && a is Nothing
    } else {
        after == before && (a matches SubscriptionAction::Subscribe(s) && s@ == msg.symbol@)
    }
}

/// What the subscription manager learns while it runs.
pub enum ManagerEvent {
    /// The manager was told to stop.
    Cancelled,
    /// A book asks to be fetched afresh; `None` once no sender is left.
    Resubscribe(Option<SharedStr>),
    /// The exchange refused a subscription; `None` once no sender is left.
    SubscriptionError(Option<SubscriptionError>),
    /// A contract changed status; `None` once no sender is left.
    ContractStatus(Option<ContractStatus>),
}

/// What the subscription manager does next.
pub enum ManagerAction {
    /// Stop managing.
    Stop,
    /// Send this payload.
    Send(Payload<Subscriptions>),
    /// Report this refusal.
    Report(SubscriptionError),
    /// Act on a status message as `handle_status_msg` decided.
    Status(SubscriptionAction),
}

/// The books subscribed to.
pub struct SubscriptionManager {
    subscriptions: KeyIndex<()>,
}

/// The payload of a request to subscribe to the book of `symbol`.
pub fn subscribe_payload(symbol: SharedStr) -> (r: Payload<Subscriptions>)
    ensures
        r == Payload::Single(Subscriptions::Subscribe(Stream::DifferentialDepth(symbol))),
{
    Payload::Single(Subscriptions::Subscribe(Stream::DifferentialDepth(symbol)))
}

/// The payload of a request to unsubscribe from the book of `symbol`.
pub fn unsubscribe_payload(symbol: SharedStr) -> (r: Payload<Subscriptions>)
    ensures
        r == Payload::Single(Subscriptions::Unsubscribe(Stream::DifferentialDepth(symbol))),
{
    Payload::Single(Subscriptions::Unsubscribe(Stream::DifferentialDepth(symbol)))
}

/// The payload that asks for the book of `symbol` afresh: unsubscribe,
/// then subscribe, in one batch.
pub fn resubscribe_payload(symbol: SharedStr) -> (r: Payload<Subscriptions>)
    ensures
        r matches Payload::Batch(items) && items@ == seq![
            Subscriptions::Unsubscribe(Stream::DifferentialDepth(symbol)),
            Subscriptions::Subscribe(Stream::DifferentialDepth(symbol)),
        ],
{
    let payload = vec![
        Subscriptions::Unsubscribe(Stream::DifferentialDepth(symbol.clone())),
        Subscriptions::Subscribe(Stream::DifferentialDepth(symbol)),
    ];
    Payload::Batch(payload)
}

/// The payload that subscribes to the streams every session needs.
pub fn static_streams_payload() -> (r: Payload<Subscriptions>)
    ensures
        r == Payload::Single(Subscriptions::Subscribe(Stream::ContractStatus)),
{
    Payload::Single(Subscriptions::Subscribe(Stream::ContractStatus))
}

impl SubscriptionManager {
    /// The symbols of the books subscribed to.
    pub closed spec fn subscribed(&self) -> Set<Seq<char>> {
        self.subscriptions@.dom()
    }

    /// The index is well formed, from `new` on.
    #[verifier::type_invariant]
    closed spec fn wf(&self) -> bool {
        self.subscriptions.wf()
    }

    pub fn new() -> (r: Self)
        ensures
            r.subscribed() == Set::<Seq<char>>::empty(),
    {
        let r = Self { subscriptions: KeyIndex::new() };
        assert(r.subscribed() =~= Set::<Seq<char>>::empty());
        r
    }

    /// A settled contract is unsubscribed and forgotten; a contract not yet
    /// subscribed is to be subscribed; others need nothing.
    pub fn handle_status_msg(&mut self, msg: &ContractStatus) -> (r: SubscriptionAction)
        ensures
            status_handled(old(self).subscribed(), final(self).subscribed(), *msg, r),
    {
        proof {
            use_type_invariant(&*self);
        }
        if settled(&msg.new_status) {
            let mut index = KeyIndex::new();
            std::mem::swap(&mut index, &mut self.subscriptions);
            index.remove(&msg.symbol);
            self.subscriptions = index;
            assert(self.subscribed() =~= old(self).subscribed().remove(msg.symbol@));
            return SubscriptionAction::Unsubscribe(msg.symbol.clone());
        }
        if self.subscriptions.get(&msg.symbol).is_none() {
            return SubscriptionAction::Subscribe(msg.symbol.clone());
        }
        SubscriptionAction::Nothing
    }

    /// The next step after `event`: a resubscription goes out as one batch,
    /// a refusal is reported, a status message is handled; the end of any
    /// source, and cancellation, stop the manager.
    pub fn step(&mut self, event: ManagerEvent) -> (r: ManagerAction)
        ensures
            event matches ManagerEvent::ContractStatus(Some(msg)) ==> (r matches ManagerAction::Status(a)
                && status_handled(old(self).subscribed(), final(self).subscribed(), msg, a)),
            !(event matches ManagerEvent::ContractStatus(Some(_))) ==> final(self).subscribed()
                == old(self).subscribed(),
            event matches ManagerEvent::Resubscribe(Some(symbol)) ==> (r matches ManagerAction::Send(
                Payload::Batch(items),
            ) && items@ == seq![
                Subscriptions::Unsubscribe(Stream::DifferentialDepth(symbol)),
                Subscriptions::Subscribe(Stream::DifferentialDepth(symbol)),
            ]),
            event matches ManagerEvent::SubscriptionError(Some(e)) ==> r == ManagerAction::Report(e),
            (event is Cancelled || event == ManagerEvent::Resubscribe(None) || event
                == ManagerEvent::SubscriptionError(None) || event == ManagerEvent::ContractStatus(
                None,
            )) ==> r is Stop,
    {
        match event {
            ManagerEvent::Cancelled => ManagerAction::Stop,
            ManagerEvent::Resubscribe(Some(symbol)) => ManagerAction::Send(
                resubscribe_payload(symbol),
            ),
            ManagerEvent::Resubscribe(None) => ManagerAction::Stop,
            ManagerEvent::SubscriptionError(Some(e)) => ManagerAction::Report(e),
            ManagerEvent::SubscriptionError(None) => ManagerAction::Stop,
            ManagerEvent::ContractStatus(Some(msg)) => ManagerAction::Status(
                self.handle_status_msg(&msg),
            ),
            ManagerEvent::ContractStatus(None) => ManagerAction::Stop,
        }
    }

    /// Records that the subscription request for `symbol` went out.
    pub fn confirm_subscribed(&mut self, symbol: SharedStr)
        ensures
            final(self).subscribed() == old(self).subscribed().insert(symbol@),
    {
        proof {
            use_type_invariant(&*self);
        }
        let ghost k = symbol@;
        let mut index = KeyIndex::new();
        std::mem::swap(&mut index, &mut self.subscriptions);
        index.insert(symbol, ());
        self.subscriptions = index;
        assert(self.subscribed() =~= old(self).subscribed().insert(k));
    }
}

/// A book is subscribed once: a status message for a book not subscribed
/// asks to subscribe, and once that is confirmed, further status messages
/// that do not settle it ask for nothing and change nothing.
pub proof fn lemma_subscribe_once(
    s0: Set<Seq<char>>,
    s1: Set<Seq<char>>,
    s2: Set<Seq<char>>,
    msg: ContractStatus,
    first: SubscriptionAction,
    again: SubscriptionAction,
)
    requires
        !is_settled(msg.new_status@),
        !s0.contains(msg.symbol@),
        status_handled(s0, s1, msg, first),
        status_handled(s1.insert(msg.symbol@), s2, msg, again),
    ensures
        first matches SubscriptionAction::Subscribe(s) && s@ == msg.symbol@,
        again is Nothing,
        s2 == s0.insert(msg.symbol@),
{
}

/// A settled book is forgotten: it is unsubscribed, and a later status
/// message that does not settle it subscribes it afresh.
pub proof fn lemma_settled_is_forgotten(
    s0: Set<Seq<char>>,
    s1: Set<Seq<char>>,
    s2: Set<Seq<char>>,
    settled_msg: ContractStatus,
    later: ContractStatus,
    first: SubscriptionAction,
    again: SubscriptionAction,
)
    requires
        is_settled(settled_msg.new_status@),
        later.symbol@ == settled_msg.symbol@,
        !is_settled(later.new_status@),
        status_handled(s0, s1, settled_msg, first),
        status_handled(s1, s2, later, again),
    ensures
        first matches SubscriptionAction::Unsubscribe(s) && s@ == settled_msg.symbol@,
        !s1.contains(settled_msg.symbol@),
        again matches SubscriptionAction::Subscribe(s) && s@ == later.symbol@,
{
}

} // verus!
