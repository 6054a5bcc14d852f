//! Linking a wallet address to an account: the challenge store, the
//! challenge phase of a link attempt, and the decision on what a verified
//! attempt does to the stored bindings.

use vstd::prelude::*;
use crate::errors::ErrorKind;
use crate::models::{WalletBinding, WalletBindingView};
use crate::platform::{base64_decode, base64_decoded, fresh_uuid, now_millis};
use crate::text::{concat2, lowercase_of, normalize_address};
use crate::tokens::{consumed, ConsumeError, TokenStore};

verus! {

/// How long a challenge may be answered, in milliseconds: five minutes.
pub const NONCE_TTL_MILLIS: i64 = 300_000;

/// The body of a request for a challenge.
#[derive(Debug)]
pub struct NonceRequest {
    pub address: String,
}

/// The answer to a request for a challenge.
#[derive(Debug)]
pub struct NonceResponse {
    pub nonce: String,
}

/// The body of a link attempt: the claimed address and the signature over
/// the challenge, in base64.
#[derive(Debug)]
pub struct VerifyRequest {
    pub address: String,
    pub signature: String,
}

/// One outstanding challenge per normalized address.
pub struct NonceStore {
    tokens: TokenStore,
}

impl NonceStore {
    pub closed spec fn wf(&self) -> bool {
        self.tokens.wf() && self.tokens.ttl() == NONCE_TTL_MILLIS
    }

    /// For each normalized address, its outstanding challenge and the time
    /// of its issue.
    pub closed spec fn view(&self) -> Map<Seq<char>, (Seq<char>, i64)> {
        self.tokens@
    }

    /// A store with no outstanding challenge.
    pub fn new() -> (r: Self)
        ensures
            r.wf(),
            r@ == Map::<Seq<char>, (Seq<char>, i64)>::empty(),
    {
        NonceStore { tokens: TokenStore::new(NONCE_TTL_MILLIS) }
    }

    /// Stores `nonce` as the challenge for `address`, issued at `now`. An
    /// earlier challenge for the same address is overwritten.
    pub fn issue_at(&mut self, address: &str, nonce: String, now: i64)
        requires
            old(self).wf(),
        ensures
            final(self).wf(),
            final(self)@ == old(self)@.insert(lowercase_of(address@), (nonce@, now)),
    {
        self.tokens.insert(normalize_address(address), nonce, now);
    }

    /// Draws a fresh random challenge for `address`, stores it with the
    /// current time and returns it. Whatever was drawn, it is now the one
    /// outstanding challenge for the address, and no other address is touched.
    pub fn issue(&mut self, address: &str) -> (nonce: String)
        requires
            old(self).wf(),
        ensures
            final(self).wf(),
            final(self)@.contains_key(lowercase_of(address@)),
            final(self)@[lowercase_of(address@)].0 == nonce@,
            final(self)@.remove(lowercase_of(address@)) == old(self)@.remove(
                lowercase_of(address@),
            ),
    {
        let nonce = fresh_uuid();
        let now = now_millis();
        let ghost key = lowercase_of(address@);
        self.issue_at(address, nonce.clone(), now);
        assert(old(self)@.insert(key, (nonce@, now)).remove(key) =~= old(self)@.remove(key));
        nonce
    }

    /// Removes the challenge for `address` and returns it if it is still
    /// fresh at `now`. `None` stands for "not found": never issued, consumed
    /// already, or older than the time to live.
    pub fn consume(&mut self, address: &str, now: i64) -> (r: Option<String>)
        requires
            old(self).wf(),
        ensures
            final(self).wf(),
            final(self)@ == old(self)@.remove(lowercase_of(address@)),
            match r {
                Some(nonce) => consumed(
                    old(self)@,
                    lowercase_of(address@),
                    now,
                    NONCE_TTL_MILLIS,
                ) == Ok::<Seq<char>, ConsumeError>(nonce@),
                None => consumed(old(self)@, lowercase_of(address@), now, NONCE_TTL_MILLIS)
                    is Err,
            },
    {
        let key = normalize_address(address);
        match self.tokens.consume(key.as_str(), now) {
            Ok(nonce) => Some(nonce),
            Err(_) => None,
        }
    }
}

/// Answers a request for a challenge.
pub fn link_nonce(nonces: &mut NonceStore, payload: &NonceRequest) -> (r: NonceResponse)
    requires
        old(nonces).wf(),
    ensures
        final(nonces).wf(),
        final(nonces)@.contains_key(lowercase_of(payload.address@)),
        final(nonces)@[lowercase_of(payload.address@)].0 == r.nonce@,
        final(nonces)@.remove(lowercase_of(payload.address@)) == old(nonces)@.remove(
            lowercase_of(payload.address@),
        ),
{
    let nonce = nonces.issue(payload.address.as_str());
    NonceResponse { nonce }
}

/// What the signature verifier found.
#[derive(Debug, Clone, Copy, PartialEq, Eq, Structural)]
pub enum SignatureCheck {
    /// The signature is valid for the claimed address over the challenge.
    Valid,
    /// The decoded bytes are no signature.
    MalformedSignature,
    /// The claimed address is no address.
    MalformedAddress,
    /// The signature does not match the address and the challenge.
    Mismatch,
}

/// Why a link attempt was turned down.
#[derive(Debug, Clone, Copy, PartialEq, Eq, Structural)]
pub enum LinkError {
    NonceInvalidOrExpired,
    InvalidBase64,
    InvalidSignatureFormat,
    InvalidAddressFormat,
    SignatureInvalid,
    AlreadyLinked,
    /// The store refused a write; nothing was changed.
    Storage,
}

impl LinkError {
    /// The HTTP status that reports the error.
    pub open spec fn status_spec(self) -> u16 {
        match self {
            LinkError::Storage => 500,
            _ => 400,
        }
    }

    pub fn status(&self) -> (r: u16)
        ensures
            r == self.status_spec(),
    {
        match self {
            LinkError::Storage => 500,
            _ => 400,
        }
    }

    /// The reason given to the client.
    pub open spec fn message_spec(self) -> Seq<char> {
        match self {
            LinkError::NonceInvalidOrExpired => "Nonce invalid or expired"@,
            LinkError::InvalidBase64 => "Invalid base64"@,
            LinkError::InvalidSignatureFormat => "Invalid signature format"@,
            LinkError::InvalidAddressFormat => "Invalid address format"@,
            LinkError::SignatureInvalid => "Signature verification failed"@,
            LinkError::AlreadyLinked => "Wallet already linked"@,
            LinkError::Storage => "Internal server error"@,
        }
    }

    pub fn message(&self) -> (r: &'static str)
        ensures
            r@ == self.message_spec(),
    {
        match self {
            LinkError::NonceInvalidOrExpired => "Nonce invalid or expired",
            LinkError::InvalidBase64 => "Invalid base64",
            LinkError::InvalidSignatureFormat => "Invalid signature format",
            LinkError::InvalidAddressFormat => "Invalid address format",
            LinkError::SignatureInvalid => "Signature verification failed",
            LinkError::AlreadyLinked => "Wallet already linked",
            LinkError::Storage => "Internal server error",
        }
    }
}

/// A link attempt whose challenge was consumed and whose signature was
/// decoded, waiting for the signature to be verified.
#[derive(Debug)]
pub struct PendingLink {
    /// The claimed address, normalized.
    pub address: String,
    /// The challenge that the signature must cover.
    pub nonce: String,
    /// The signature bytes.
    pub signature: Vec<u8>,
}

/// What the challenge phase of a link attempt yields.
pub open spec fn challenge_outcome(
    stored: Map<Seq<char>, (Seq<char>, i64)>,
    address: Seq<char>,
    signature: Seq<char>,
    now: i64,
) -> Result<(Seq<char>, Seq<char>, Seq<u8>), LinkError> {
    let key = lowercase_of(address);
    match consumed(stored, key, now, NONCE_TTL_MILLIS) {
        Err(_) => Err(LinkError::NonceInvalidOrExpired),
        Ok(nonce) => match base64_decoded(signature) {
            None => Err(LinkError::InvalidBase64),
            Some(bytes) => Ok((key, nonce, bytes)),
        },
    }
}

/// The challenge phase of a link attempt: consumes the outstanding challenge
/// for the claimed address, then decodes the signature.
///
/// The challenge is consumed whatever follows, so that a challenge can be
/// answered once only, also by a failed attempt.
pub fn link_challenge(nonces: &mut NonceStore, payload: &VerifyRequest, now: i64) -> (r: Result<
    PendingLink,
    LinkError,
>)
    requires
        old(nonces).wf(),
    ensures
        final(nonces).wf(),
        final(nonces)@ == old(nonces)@.remove(lowercase_of(payload.address@)),
        match r {
            Ok(p) => challenge_outcome(old(nonces)@, payload.address@, payload.signature@, now)
                == Ok::<(Seq<char>, Seq<char>, Seq<u8>), LinkError>(
                (p.address@, p.nonce@, p.signature@),
            ),
            Err(e) => challenge_outcome(old(nonces)@, payload.address@, payload.signature@, now)
                == Err::<(Seq<char>, Seq<char>, Seq<u8>), LinkError>(e),
        },
{
    let address = normalize_address(payload.address.as_str());
    let nonce = match nonces.consume(payload.address.as_str(), now) {
        Some(n) => n,
        None => {
            return Err(LinkError::NonceInvalidOrExpired);
        },
    };
    match base64_decode(payload.signature.as_str()) {
        Ok(signature) => Ok(PendingLink { address, nonce, signature }),
        Err(_) => Err(LinkError::InvalidBase64),
    }
}

/// The error that a failed signature check stands for.
pub open spec fn check_error(check: SignatureCheck) -> Option<LinkError> {
    match check {
        SignatureCheck::Valid => None,
        SignatureCheck::MalformedSignature => Some(LinkError::InvalidSignatureFormat),
        SignatureCheck::MalformedAddress => Some(LinkError::InvalidAddressFormat),
        SignatureCheck::Mismatch => Some(LinkError::SignatureInvalid),
    }
}

/// Fails closed: anything but a valid signature is an error.
pub fn require_valid_signature(check: SignatureCheck) -> (r: Result<(), LinkError>)
    ensures
        match r {
            Ok(_) => check_error(check) is None,
            Err(e) => check_error(check) == Some(e),
        },
{
    match check {
        SignatureCheck::Valid => Ok(()),
        SignatureCheck::MalformedSignature => Err(LinkError::InvalidSignatureFormat),
        SignatureCheck::MalformedAddress => Err(LinkError::InvalidAddressFormat),
        SignatureCheck::Mismatch => Err(LinkError::SignatureInvalid),
    }
}

/// A successful link is either a new binding or the reactivation of a
/// soft-deleted one.
#[derive(Debug, Clone, Copy, PartialEq, Eq, Structural)]
pub enum LinkOutcome {
    Linked,
    Relinked,
}

impl LinkOutcome {
    /// What the client is told. The answer does not tell a relink from a
    /// new link; only the audit entry does.
    pub open spec fn message_spec(self) -> Seq<char> {
        "Wallet linked successfully"@
    }

    pub fn message(&self) -> (r: &'static str)
        ensures
            r@ == self.message_spec(),
    {
        "Wallet linked successfully"
    }
}

/// What to write for a verified link attempt.
#[derive(Debug, Clone, Copy, PartialEq, Eq, Structural)]
pub enum LinkPlan {
    /// No binding holds the address: insert a new active one.
    Insert,
    /// A soft-deleted binding holds the address: hand it to the requester,
    /// clear its soft-delete mark and refresh its verification time.
    Reactivate,
}

/// The view of an optional binding.
pub open spec fn opt_binding_view(b: Option<&WalletBinding>) -> Option<WalletBindingView> {
    match b {
        Some(w) => Some(w@),
        None => None,
    }
}

/// What a link attempt does, given the signature check and the binding that
/// holds the address, if any.
pub open spec fn link_decision(check: SignatureCheck, existing: Option<WalletBindingView>) -> Result<
    LinkPlan,
    LinkError,
> {
    match check_error(check) {
        Some(e) => Err(e),
        None => match existing {
            None => Ok(LinkPlan::Insert),
            Some(w) => if w.is_active() {
                Err(LinkError::AlreadyLinked)
            } else {
                Ok(LinkPlan::Reactivate)
            },
        },
    }
}

/// Decides what a link attempt does. `existing` is the binding, active or
/// soft-deleted, that holds the normalized address, if there is one.
pub fn plan_link(check: SignatureCheck, existing: Option<&WalletBinding>) -> (r: Result<
    LinkPlan,
    LinkError,
>)
    ensures
        r == link_decision(check, opt_binding_view(existing)),
{
    match require_valid_signature(check) {
        Err(e) => Err(e),
        Ok(_) => match existing {
            None => Ok(LinkPlan::Insert),
            Some(w) => if w.is_active() {
                Err(LinkError::AlreadyLinked)
            } else {
                Ok(LinkPlan::Reactivate)
            },
        },
    }
}

/// A challenge that was just issued for an address is answered by the next
/// attempt for that address, if the attempt comes within the time to live
/// and its signature decodes; any later attempt finds no challenge.
pub proof fn lemma_issued_challenge_is_answered_once(
    stored: Map<Seq<char>, (Seq<char>, i64)>,
    address: Seq<char>,
    nonce: Seq<char>,
    signature: Seq<char>,
    times: (i64, i64, i64),
)
    requires
        times.1 - times.0 <= NONCE_TTL_MILLIS,
        base64_decoded(signature) is Some,
    ensures
        ({
            let key = lowercase_of(address);
            let issued = stored.insert(key, (nonce, times.0));
            &&& challenge_outcome(issued, address, signature, times.1) == Ok::<
                (Seq<char>, Seq<char>, Seq<u8>),
                LinkError,
            >((key, nonce, base64_decoded(signature)->0))
            &&& challenge_outcome(issued.remove(key), address, signature, times.2) == Err::<
                (Seq<char>, Seq<char>, Seq<u8>),
                LinkError,
            >(LinkError::NonceInvalidOrExpired)
        }),
{
}

/// What a link that goes through is: a new link or a relink.
pub open spec fn planned_outcome(plan: LinkPlan) -> LinkOutcome {
    match plan {
        LinkPlan::Insert => LinkOutcome::Linked,
        LinkPlan::Reactivate => LinkOutcome::Relinked,
    }
}

/// What the audit log says of a link: only here a relink differs from a new
/// link.
pub open spec fn link_details(plan: LinkPlan, address: Seq<char>) -> Seq<char> {
    match plan {
        LinkPlan::Insert => "Linked wallet "@ + address,
        LinkPlan::Reactivate => "Re-linked wallet "@ + address,
    }
}

/// The outcome of a planned link and the details of its audit entry.
pub fn link_record(plan: LinkPlan, address: &str) -> (r: (LinkOutcome, String))
    ensures
        r.0 == planned_outcome(plan),
        r.1@ == link_details(plan, address@),
{
    match plan {
        LinkPlan::Insert => (LinkOutcome::Linked, concat2("Linked wallet ", address)),
        LinkPlan::Reactivate => (LinkOutcome::Relinked, concat2("Re-linked wallet ", address)),
    }
}

/// How a link attempt that the store did not take is reported: a write that
/// the store refused as a duplicate means that another attempt for the
/// address won, so the address is linked already; any other failure is the
/// store's.
pub open spec fn link_failure_of(kind: ErrorKind) -> LinkError {
    if kind == ErrorKind::Conflict {
        LinkError::AlreadyLinked
    } else {
        LinkError::Storage
    }
}

/// Reports a link attempt that the store did not take.
pub fn link_failure(kind: ErrorKind) -> (r: LinkError)
    ensures
        r == link_failure_of(kind),
{
    match kind {
        ErrorKind::Conflict => LinkError::AlreadyLinked,
        _ => LinkError::Storage,
    }
}

/// How the write of a link went, as the audited transaction sees it: a
/// refused write is a conflict, since the store's uniqueness constraint on
/// the address is the last arbiter of two racing attempts.
pub fn link_write_result(written: bool) -> (r: Result<(), ErrorKind>)
    ensures
        r == if written {
            Ok::<(), ErrorKind>(())
        } else {
            Err::<(), ErrorKind>(ErrorKind::Conflict)
        },
{
    if written {
        Ok(())
    } else {
        Err(ErrorKind::Conflict)
    }
}

} // verus!
