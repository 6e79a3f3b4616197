//! Pushing signed tree heads to witness nodes: the push body, the parsing
//! of a witness's counter-signature, the retry schedule, and the failure
//! accounting that flags unreachable witnesses as dead.
use vstd::prelude::*;
use vstd::arithmetic::power2::pow2;
use crate::bytes::{array32, array64};
use crate::hex_codec::{hex_decode, hex_decoding, hex_encode, hex_encoding, hex_valid};
use crate::storage::settled::SettledRecord;
use crate::storage::types::{CounterSignature, FinalSTH, SignedTreeHead};
use crate::text::push_text;

verus! {

/// A signed tree head as pushed to a witness: the byte fields as hex text.
pub struct SthPushBody {
    pub tree_size: u64,
    pub root_hash: String,
    pub timestamp_ns: i64,
    pub signature: String,
    pub public_key: String,
    pub key_version: u32,
}

/// A witness's answer to a push: its counter-signature and public key, as
/// hex text.
pub struct PushResponse {
    pub counter_signature: String,
    pub public_key: String,
}

impl SthPushBody {
    /// The push body of a signed tree head.
    pub fn from(s: &SignedTreeHead) -> (b: SthPushBody)
        ensures
            b.tree_size == s.tree_size,
            b.root_hash@ == hex_encoding(s.root_hash@),
            b.timestamp_ns == s.timestamp_ns,
            b.signature@ == hex_encoding(s.signature@),
            b.public_key@ == hex_encoding(s.public_key@),
            b.key_version == s.key_version,
    {
        SthPushBody {
            tree_size: s.tree_size,
            root_hash: hex_encode(s.root_hash.as_slice()),
            timestamp_ns: s.timestamp_ns,
            signature: hex_encode(s.signature.as_slice()),
            public_key: hex_encode(s.public_key.as_slice()),
            key_version: s.key_version,
        }
    }
}

/// Why a witness's answer could not be read as a counter-signature.
pub enum CounterSignatureError {
    InvalidHex(hex::FromHexError),
    SignatureLength,
    PublicKeyLength,
}

/// The bytes a witness's answer decodes to, when it is well formed.
pub open spec fn counter_signature_ok(pr: PushResponse) -> bool {
    &&& hex_valid(pr.counter_signature@)
    &&& hex_valid(pr.public_key@)
    &&& hex_decoding(pr.counter_signature@).len() == 64
    &&& hex_decoding(pr.public_key@).len() == 32
}

/// Reads a witness's answer: both fields must be hex (the signature is
/// decoded first), the signature 64 bytes and the key 32 bytes.
pub fn parse_counter_signature(url: &str, pr: &PushResponse) -> (r: Result<
    CounterSignature,
    CounterSignatureError,
>)
    ensures
        r is Ok <==> counter_signature_ok(*pr),
        r matches Ok(cs) ==> {
            &&& cs.settled_node_url@ == url@
            &&& cs.signature@ == hex_decoding(pr.counter_signature@)
            &&& cs.public_key@ == hex_decoding(pr.public_key@)
        },
        r matches Err(e) ==> if !hex_valid(pr.counter_signature@) || !hex_valid(pr.public_key@) {
            e is InvalidHex
        } else if hex_decoding(pr.counter_signature@).len() != 64 {
            e is SignatureLength
        } else {
            e is PublicKeyLength
        },
{
    let sig_bytes = match hex_decode(pr.counter_signature.as_str()) {
        Ok(b) => b,
        Err(e) => {
            return Err(CounterSignatureError::InvalidHex(e));
        },
    };
    let key_bytes = match hex_decode(pr.public_key.as_str()) {
        Ok(b) => b,
        Err(e) => {
            return Err(CounterSignatureError::InvalidHex(e));
        },
    };
    let signature = match array64(sig_bytes.as_slice()) {
        Some(s) => s,
        None => {
            return Err(CounterSignatureError::SignatureLength);
        },
    };
    let public_key = match array32(key_bytes.as_slice()) {
        Some(k) => k,
        None => {
            return Err(CounterSignatureError::PublicKeyLength);
        },
    };
    Ok(CounterSignature { settled_node_url: url.to_owned(), public_key, signature })
}

impl CounterSignatureError {
    /// The text of a length error; `None` for a hex error, whose text is
    /// that of the `hex` crate's error.
    pub fn length_message(&self) -> (m: Option<String>)
        ensures
            m matches Some(s) ==> s@ == match *self {
                CounterSignatureError::SignatureLength => "counter_signature must be 64 bytes"@,
                _ => "public_key must be 32 bytes"@,
            },
            m is None <==> *self is InvalidHex,
    {
        match self {
            CounterSignatureError::InvalidHex(_) => None,
            CounterSignatureError::SignatureLength => Some(
                "counter_signature must be 64 bytes".to_owned(),
            ),
            CounterSignatureError::PublicKeyLength => Some("public_key must be 32 bytes".to_owned()),
        }
    }
}

/// The push endpoint of a witness at `url`.
pub fn push_url(url: &str) -> (u: String)
    ensures
        u@ == url@ + "/push"@,
{
    let mut u = String::new();
    push_text(&mut u, url);
    push_text(&mut u, "/push");
    assert(u@ =~= url@ + "/push"@);
    u
}

/// A witness that answered: its failure count is cleared and it is live.
pub fn record_push_success(r: &mut SettledRecord)
    ensures
        final(r).consecutive_failures == 0,
        !final(r).flagged_dead,
        final(r).url == old(r).url,
        final(r).public_key == old(r).public_key,
        final(r).registered_at_ns == old(r).registered_at_ns,
{
    r.consecutive_failures = 0;
    r.flagged_dead = false;
}

/// A witness that did not answer: one more consecutive failure, and it is
/// flagged dead once the count reaches `max_failures`.
pub fn record_push_failure(r: &mut SettledRecord, max_failures: u32)
    requires
        old(r).consecutive_failures < u32::MAX,
    ensures
        final(r).consecutive_failures == old(r).consecutive_failures + 1,
        final(r).flagged_dead == (old(r).flagged_dead || old(r).consecutive_failures + 1
            >= max_failures),
        final(r).url == old(r).url,
        final(r).public_key == old(r).public_key,
        final(r).registered_at_ns == old(r).registered_at_ns,
{
    r.consecutive_failures = r.consecutive_failures + 1;
    if r.consecutive_failures >= max_failures {
        r.flagged_dead = true;
    }
}

/// A witness's failure count and dead flag after one push round: a dead
/// witness is not pushed to (only live records are) and stays as it is; a
/// live one is cleared on success, or counts one more failure and is
/// flagged once the count reaches the limit, as `record_push_success` and
/// `record_push_failure` do.
pub open spec fn after_round(f: nat, dead: bool, succeeded: bool, max_failures: nat) -> (nat, bool) {
    if dead {
        (f, dead)
    } else if succeeded {
        (0, false)
    } else {
        (f + 1, f + 1 >= max_failures)
    }
}

/// The failure count and dead flag after `k` rounds in which every push to
/// the witness fails.
pub open spec fn after_failed_rounds(f: nat, dead: bool, k: nat, max_failures: nat) -> (nat, bool)
    decreases k,
{
    if k == 0 {
        (f, dead)
    } else {
        let (f1, d1) = after_round(f, dead, false, max_failures);
        after_failed_rounds(f1, d1, (k - 1) as nat, max_failures)
    }
}

/// From a cleared, live record and a limit of at least one, `k` rounds of
/// failed pushes leave the count at the smaller of `k` and the limit, and
/// the witness flagged dead exactly when `k` reached the limit; a round
/// that succeeds clears both.
pub proof fn lemma_failure_count_over_rounds(k: nat, max_failures: nat)
    requires
        max_failures >= 1,
    ensures
        after_failed_rounds(0, false, k, max_failures) == (
            if k < max_failures { k } else { max_failures },
            k >= max_failures,
        ),
        forall|f: nat, d: bool| !d ==> #[trigger] after_round(f, d, true, max_failures) == (0nat, false),
{
    lemma_failed_rounds_from(0, k, max_failures);
}

proof fn lemma_failed_rounds_from(f: nat, k: nat, max_failures: nat)
    requires
        f < max_failures,
    ensures
        after_failed_rounds(f, false, k, max_failures) == (
            if f + k < max_failures { f + k } else { max_failures },
            f + k >= max_failures,
        ),
    decreases k,
{
    if k > 0 {
        if f + 1 < max_failures {
            lemma_failed_rounds_from(f + 1, (k - 1) as nat, max_failures);
        } else {
            lemma_dead_rounds(max_failures, (k - 1) as nat, max_failures);
        }
    }
}

proof fn lemma_dead_rounds(f: nat, k: nat, max_failures: nat)
    ensures
        after_failed_rounds(f, true, k, max_failures) == (f, true),
    decreases k,
{
    if k > 0 {
        lemma_dead_rounds(f, (k - 1) as nat, max_failures);
    }
}

/// The tree head and counter-signatures kept after a push round: only when
/// a counter-signature threshold is configured.
pub fn final_sth(threshold: u32, sth: SignedTreeHead, counter_signatures: Vec<CounterSignature>) -> (r:
    Option<FinalSTH>)
    ensures
        r is Some <==> threshold > 0,
        r matches Some(f) ==> f.sth == sth && f.counter_signatures@ == counter_signatures@,
{
    if threshold > 0 {
        Some(FinalSTH { sth, counter_signatures })
    } else {
        None
    }
}

/// Tries a push gets before it is given up.
pub const MAX_PUSH_ATTEMPTS: u32 = 4;

/// The wait before the first retry; each later wait doubles.
pub const FIRST_RETRY_DELAY_MS: u64 = 1000;

/// Where a push stands in its retries: the try being made and the wait
/// before the next one.
pub struct RetrySchedule {
    pub attempt: u32,
    pub delay_ms: u64,
}

/// What follows a failed try.
#[derive(PartialEq, Eq, Structural, Debug, Clone, Copy)]
pub enum RetryStep {
    Retry { delay_ms: u64 },
    GiveUp,
}

impl RetrySchedule {
    /// Try `attempt` (from 1 up to the limit) waits twice as long as the
    /// one before it.
    pub open spec fn wf(self) -> bool {
        &&& 1 <= self.attempt <= MAX_PUSH_ATTEMPTS
        &&& self.delay_ms == FIRST_RETRY_DELAY_MS * pow2((self.attempt - 1) as nat)
    }

    /// The schedule of a push about to make its first try.
    pub fn new() -> (s: RetrySchedule)
        ensures
            s.wf(),
            s.attempt == 1,
    {
        proof {
            vstd::arithmetic::power2::lemma2_to64();
        }
        RetrySchedule { attempt: 1, delay_ms: FIRST_RETRY_DELAY_MS }
    }

    /// After a failed try: wait and retry while tries are left (the wait
    /// doubling each time), else give up.
    pub fn after_failure(&mut self) -> (step: RetryStep)
        requires
            old(self).wf(),
        ensures
            final(self).wf(),
            old(self).attempt < MAX_PUSH_ATTEMPTS ==> step == (RetryStep::Retry {
                delay_ms: old(self).delay_ms,
            }) && final(self).attempt == old(self).attempt + 1,
            old(self).attempt >= MAX_PUSH_ATTEMPTS ==> step == RetryStep::GiveUp && *final(self)
                == *old(self),
    {
        proof {
            vstd::arithmetic::power2::lemma2_to64();
        }
        if self.attempt < MAX_PUSH_ATTEMPTS {
            let step = RetryStep::Retry { delay_ms: self.delay_ms };
            assert(pow2(self.attempt as nat) == 2 * pow2((self.attempt - 1) as nat)) by {
                vstd::arithmetic::power2::lemma_pow2_unfold(self.attempt as nat);
            }
            self.delay_ms = self.delay_ms * 2;
            self.attempt = self.attempt + 1;
            step
        } else {
            RetryStep::GiveUp
        }
    }
}

} // verus!
