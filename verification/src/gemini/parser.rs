use vstd::prelude::*;
use vstd::string::StringSliceAdditionalSpecFns;

verus! {

/// `needle` stands in `haystack` at `i`.
pub open spec fn occurs_at(haystack: Seq<u8>, needle: Seq<u8>, i: int) -> bool {
    0 <= i && i + needle.len() <= haystack.len() && haystack.subrange(i, i + needle.len())
        == needle
}

/// `needle` stands somewhere in `haystack`.
pub open spec fn occurs_in(haystack: Seq<u8>, needle: Seq<u8>) -> bool {
    exists|i: int| occurs_at(haystack, needle, i)
}

/// `memchr::memmem::find`: the first position at which `needle` stands in
/// `haystack`, or None where it stands nowhere, as its documentation says.
#[verifier::external_body]
fn memmem_find(haystack: &[u8], needle: &[u8]) -> (r: Option<usize>)
    ensures
        match r {
            Some(i) => occurs_at(haystack@, needle@, i as int) && forall|j: int|
                0 <= j < i ==> !occurs_at(haystack@, needle@, j),
            None => !occurs_in(haystack@, needle@),
        },
{
    memchr::memmem::find(haystack, needle)
}

/// The kind of an exchange message, told by the keys it holds.
#[derive(Debug, Clone, Copy, PartialEq, Eq, Structural)]
pub enum MessageKind {
    L2DifferentialDepth,
    ContractStatus,
    BalanceUpdate,
    SubscriptionError,
    Unknown,
}

/// The key of a book update.
pub open spec fn depth_key() -> Seq<u8> {
    "\"depthUpdate\"".spec_bytes()
}

/// The key of a balance update.
pub open spec fn balance_key() -> Seq<u8> {
    "\"balanceUpdate\"".spec_bytes()
}

/// The key of an error.
pub open spec fn error_key() -> Seq<u8> {
    "\"error\"".spec_bytes()
}

/// The key of an error code.
pub open spec fn code_key() -> Seq<u8> {
    "\"code\"".spec_bytes()
}

/// The key of a contract status change.
pub open spec fn contract_status_key() -> Seq<u8> {
    "\"contractStatus\"".spec_bytes()
}

/// The kind of a message: the first of book update, contract status and
/// balance update whose key it holds; an error when it holds both the error
/// and the code keys; unknown otherwise.
pub open spec fn message_kind(bytes: Seq<u8>) -> MessageKind {
    if occurs_in(bytes, depth_key()) {
        MessageKind::L2DifferentialDepth
    } else if occurs_in(bytes, contract_status_key()) {
        MessageKind::ContractStatus
    } else if occurs_in(bytes, balance_key()) {
        MessageKind::BalanceUpdate
    } else if occurs_in(bytes, error_key()) && occurs_in(bytes, code_key()) {
        MessageKind::SubscriptionError
    } else {
        MessageKind::Unknown
    }
}

/// Tells exchange messages apart by the keys they hold.
pub struct GeminiParser {
    depth_finder: &'static str,
    balance_finder: &'static str,
    error_finder: &'static str,
    code_finder: &'static str,
    contract_status_finder: &'static str,
}

impl GeminiParser {
    #[verifier::type_invariant]
    closed spec fn wf(&self) -> bool {
        &&& self.depth_finder.spec_bytes() == depth_key()
        &&& self.balance_finder.spec_bytes() == balance_key()
        &&& self.error_finder.spec_bytes() == error_key()
        &&& self.code_finder.spec_bytes() == code_key()
        &&& self.contract_status_finder.spec_bytes() == contract_status_key()
    }

    /// The keys the parser looks for, in the order it tries them: book
    /// update, contract status, balance update, error, error code.
    pub closed spec fn needles(&self) -> Seq<Seq<u8>> {
        seq![
            self.depth_finder.spec_bytes(),
            self.contract_status_finder.spec_bytes(),
            self.balance_finder.spec_bytes(),
            self.error_finder.spec_bytes(),
            self.code_finder.spec_bytes(),
        ]
    }

    /// A parser that looks for the keys of the exchange's messages.
    pub fn new() -> (r: Self)
        ensures
            r.needles() == seq![
                depth_key(),
                contract_status_key(),
                balance_key(),
                error_key(),
                code_key(),
            ],
    {
        Self {
            depth_finder: "\"depthUpdate\"",
            balance_finder: "\"balanceUpdate\"",
            error_finder: "\"error\"",
            code_finder: "\"code\"",
            contract_status_finder: "\"contractStatus\"",
        }
    }

    /// The kind of the message with these bytes.
    pub fn classify(&self, bytes: &[u8]) -> (r: MessageKind)
        ensures
            r == message_kind(bytes@),
    {
        proof {
            use_type_invariant(self);
        }
        if memmem_find(bytes, self.depth_finder.as_bytes()).is_some() {
            return MessageKind::L2DifferentialDepth;
        }
        if memmem_find(bytes, self.contract_status_finder.as_bytes()).is_some() {
            return MessageKind::ContractStatus;
        }
        if memmem_find(bytes, self.balance_finder.as_bytes()).is_some() {
            return MessageKind::BalanceUpdate;
        }
        if memmem_find(bytes, self.error_finder.as_bytes()).is_some() && memmem_find(
            bytes,
            self.code_finder.as_bytes(),
        ).is_some() {
            return MessageKind::SubscriptionError;
        }
        MessageKind::Unknown
    }
}

} // verus!
