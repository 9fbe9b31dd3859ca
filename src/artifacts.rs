//! The artifacts a proof backend hands back, as bytes the core carries but
//! never reads.

use vstd::prelude::*;

verus! {

/// A proof with its public inputs and verifying key, compact form.
#[derive(Clone, Debug)]
pub struct ProofPackageLite {
    pub proof: Vec<u8>,
    pub public_inputs: Vec<[u8; 32]>,
    pub verifying_key: Vec<u8>,
}

/// A proof prepared for the validator's pairing check.
#[derive(Clone, Debug)]
pub struct ProofPackagePrepared {
    pub proof: Vec<u8>,
    pub public_inputs: Vec<u8>,
    pub verifying_key: Vec<u8>,
}

/// A prepared Groth16 verifying key in the parent chain's byte layout.
#[derive(Clone, Copy, Debug)]
pub struct Groth16VerifyingKeyPrepared {
    pub vk_alpha_g1: [u8; 64],
    pub vk_beta_g2: [u8; 128],
    pub vk_gamma_g2: [u8; 128],
    pub vk_delta_g2: [u8; 128],
}

/// The validator's signed statement that a state root was proved.
#[derive(Clone, Copy, Debug)]
pub struct ZkProofCommitment {
    pub verifier_signature: [u8; 64],
    pub recovery_id: u8,
    pub public_key: [u8; 65],
    pub new_state_root: [u8; 32],
}

/// Why the validator refused a commitment.
#[derive(Clone, Copy, Debug, PartialEq, Eq)]
pub enum ValidationError {
    CommitmentTransactionFailed,
    ProofVerificationFailed,
}

} // verus!
