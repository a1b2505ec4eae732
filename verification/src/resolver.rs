//! Resolving a zkURL to a proof bundle: the URL plan and the bundle rules.
//!
//! The network fetch itself happens outside the crate; this module states
//! which URL every attempt must query (`attempt_url`: the primary URL
//! first, then each fallback endpoint in order) and which bundles are
//! acceptable (`verify_proof_bundle`: not from the future, within the
//! freshness window, within the size bound).

use vstd::prelude::*;
use vstd::string::*;
use crate::zkurl::ZkURL;

verus! {

/// Per-attempt fetch timeout in milliseconds.
pub const FETCH_TIMEOUT_MS: u64 = 5000;

/// Freshness window for proof bundles, in seconds.
pub const FRESHNESS_WINDOW_SECS: u64 = 3600;

/// Largest accepted proof, in bytes.
pub const MAX_PROOF_BYTES: usize = 5000000;

/// The public commitments a proof binds to.
#[derive(Debug, Clone, PartialEq, Eq)]
pub struct PublicInputs {
    pub block_hash: String,
    pub state_root: String,
    pub gas_used: u64,
    pub transaction_count: u32,
}

/// Provenance metadata of a fetched proof.
#[derive(Debug, Clone, PartialEq, Eq)]
pub struct ProofMetadata {
    pub version: String,
    pub compression: Option<String>,
    pub size_bytes: usize,
}

/// A fetched succinct proof with its public inputs and provenance.
/// Transient: fetched, validated, consumed by verification.
#[derive(Debug)]
pub struct ProofBundle {
    /// The encoded proof.
    pub proof_bytes: Vec<u8>,
    /// The commitments the proof speaks about.
    pub public_inputs: PublicInputs,
    /// Signature over the bundle (binding scheme pending).
    pub signature: String,
    /// Who produced the proof.
    pub prover_id: String,
    /// Creation time, unix seconds.
    pub timestamp: u64,
    /// Provenance metadata.
    pub metadata: ProofMetadata,
}

/// Why a fetched bundle was rejected by validation.
#[derive(Debug, Clone, Copy, PartialEq, Eq, Structural)]
pub enum BundleValidationError {
    /// The bundle's timestamp lies after the local clock.
    FutureTimestamp,
    /// The bundle is older than the freshness window.
    StaleTimestamp,
    /// The proof exceeds the size bound.
    OversizedProof,
}

/// Why no bundle could be fetched.
#[derive(Debug, Clone, PartialEq, Eq)]
pub enum FetchError {
    /// The request failed before an HTTP status arrived.
    NetworkError(String),
    /// The endpoint answered with a non-success status.
    HttpError(u16),
    /// The primary URL and every fallback endpoint failed.
    AllEndpointsExhausted,
}

/// The primary URL for an address: with a prover id, the domain serves the
/// proof under `/proof/`; without one the domain-or-hash is taken as a
/// content hash on the public gateway (the proof id is not appended there).
pub open spec fn spec_primary_url(u: crate::zkurl::ZkURLView) -> Seq<char> {
    if u.prover_id is Some {
        "https://"@ + u.domain_or_hash + "/proof/"@ + u.proof_id
    } else {
        "https://ipfs.io/ipfs/"@ + u.domain_or_hash
    }
}

/// The URL a fallback endpoint is queried under.
pub open spec fn spec_fallback_url(endpoint: Seq<char>, proof_id: Seq<char>) -> Seq<char> {
    endpoint + "/proof/"@ + proof_id
}

/// Whether a fetched bundle is acceptable at local time `now`: rejected
/// when its timestamp lies in the future, when it is older than the
/// freshness window, or when its proof exceeds the size bound; accepted
/// otherwise.
pub open spec fn spec_validate_bundle(b: ProofBundle, now: u64) -> Result<
    (),
    BundleValidationError,
> {
    if now < b.timestamp {
        Result::Err(BundleValidationError::FutureTimestamp)
    } else if now - b.timestamp > FRESHNESS_WINDOW_SECS {
        Result::Err(BundleValidationError::StaleTimestamp)
    } else if b.proof_bytes@.len() > MAX_PROOF_BYTES {
        Result::Err(BundleValidationError::OversizedProof)
    } else {
        Result::Ok(())
    }
}

/// Plans proof fetches for zkURL addresses: the primary URL, then the
/// configured fallback endpoints in order.
#[derive(Debug, Clone)]
pub struct ZkURLResolver {
    /// Endpoints queried in order after the primary URL fails.
    pub fallback_endpoints: Vec<String>,
    /// Per-attempt timeout in milliseconds.
    pub timeout_ms: u64,
}

impl ZkURLResolver {
    /// A resolver with the given fallback endpoints and the default
    /// per-attempt timeout.
    pub fn new(fallback_endpoints: Vec<String>) -> (r: ZkURLResolver)
        ensures
            r.fallback_endpoints@ == fallback_endpoints@,
            r.timeout_ms == FETCH_TIMEOUT_MS,
    {
        ZkURLResolver { fallback_endpoints, timeout_ms: FETCH_TIMEOUT_MS }
    }

    /// The primary proof URL for an address, exactly `spec_primary_url`.
    pub fn construct_url(&self, zkurl: &ZkURL) -> (r: String)
        ensures
            r@ == spec_primary_url(zkurl@),
    {
        match &zkurl.prover_id {
            Option::Some(_) => {
                let mut s = "https://".to_owned();
                s.append(zkurl.domain_or_hash.as_str());
                s.append("/proof/");
                s.append(zkurl.proof_id.as_str());
                s
            },
            Option::None => {
                let mut s = "https://ipfs.io/ipfs/".to_owned();
                s.append(zkurl.domain_or_hash.as_str());
                s
            },
        }
    }

    /// The URL a fallback endpoint is queried under, exactly
    /// `spec_fallback_url`.
    pub fn fallback_url(&self, endpoint: &str, zkurl: &ZkURL) -> (r: String)
        ensures
            r@ == spec_fallback_url(endpoint@, zkurl@.proof_id),
    {
        let mut s = endpoint.to_owned();
        s.append("/proof/");
        s.append(zkurl.proof_id.as_str());
        s
    }

    /// The URL of fetch attempt `i`: attempt 0 is the primary URL, attempt
    /// `i >= 1` queries fallback endpoint `i - 1`, and past the fallback
    /// list there is no attempt left.
    pub fn attempt_url(&self, zkurl: &ZkURL, i: usize) -> (r: Option<String>)
        ensures
            (match r {
                Option::Some(u) => i <= self.fallback_endpoints@.len() && u@ == (if i == 0 {
                    spec_primary_url(zkurl@)
                } else {
                    spec_fallback_url(self.fallback_endpoints@[i - 1]@, zkurl@.proof_id)
                }),
                Option::None => i > self.fallback_endpoints@.len(),
            }),
    {
        if i == 0 {
            Option::Some(self.construct_url(zkurl))
        } else if i <= self.fallback_endpoints.len() {
            Option::Some(self.fallback_url(self.fallback_endpoints[i - 1].as_str(), zkurl))
        } else {
            Option::None
        }
    }

    /// Validates a fetched bundle against local time `now`, exactly
    /// `spec_validate_bundle`: `FutureTimestamp` when the timestamp lies
    /// after `now`, `StaleTimestamp` when it is more than the freshness
    /// window old, `OversizedProof` when the proof exceeds the size bound.
    pub fn verify_proof_bundle(&self, bundle: &ProofBundle, now: u64) -> (r: Result<
        (),
        BundleValidationError,
    >)
        ensures
            r == spec_validate_bundle(*bundle, now),
    {
        if now < bundle.timestamp {
            Result::Err(BundleValidationError::FutureTimestamp)
        } else if now - bundle.timestamp > FRESHNESS_WINDOW_SECS {
            Result::Err(BundleValidationError::StaleTimestamp)
        } else if bundle.proof_bytes.len() > MAX_PROOF_BYTES {
            Result::Err(BundleValidationError::OversizedProof)
        } else {
            Result::Ok(())
        }
    }
}

} // verus!
