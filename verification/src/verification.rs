//! How documents are checked against their hash and signature.
//!
//! Computing a hash or checking a signature is cryptography done by the caller;
//! the functions here take its outcome and decide what follows from it under
//! the verification options.
use vstd::prelude::*;

use crate::error::SentinelError;

verus! {

/// What happens when a check fails.
#[derive(Debug, Clone, Copy, PartialEq, Eq, Structural)]
pub enum VerificationMode {
    /// The failure is an error.
    Strict,
    /// The failure is reported as a warning and the operation goes on.
    Warn,
    /// The check is not made, or its failure is ignored.
    Silent,
}

/// Which checks to make and what their failures mean.
#[derive(Debug, Clone, Copy, PartialEq, Eq, Structural)]
pub struct VerificationOptions {
    /// Check signatures.
    pub verify_signature: bool,
    /// Check hashes.
    pub verify_hash: bool,
    /// Mode for a signature that does not verify.
    pub signature_verification_mode: VerificationMode,
    /// Mode for a hash that does not match.
    pub hash_verification_mode: VerificationMode,
    /// Mode for a document without a signature.
    pub empty_signature_mode: VerificationMode,
}

impl VerificationOptions {
    /// Every check made, every failure an error.
    pub fn strict() -> (r: VerificationOptions)
        ensures
            r.verify_signature && r.verify_hash,
            r.signature_verification_mode == VerificationMode::Strict,
            r.hash_verification_mode == VerificationMode::Strict,
            r.empty_signature_mode == VerificationMode::Strict,
    {
        VerificationOptions {
            verify_signature: true,
            verify_hash: true,
            signature_verification_mode: VerificationMode::Strict,
            hash_verification_mode: VerificationMode::Strict,
            empty_signature_mode: VerificationMode::Strict,
        }
    }

    /// Every check made, every failure a warning.
    pub fn warn() -> (r: VerificationOptions)
        ensures
            r.verify_signature && r.verify_hash,
            r.signature_verification_mode == VerificationMode::Warn,
            r.hash_verification_mode == VerificationMode::Warn,
            r.empty_signature_mode == VerificationMode::Warn,
    {
        VerificationOptions {
            verify_signature: true,
            verify_hash: true,
            signature_verification_mode: VerificationMode::Warn,
            hash_verification_mode: VerificationMode::Warn,
            empty_signature_mode: VerificationMode::Warn,
        }
    }

    /// No check made.
    pub fn disabled() -> (r: VerificationOptions)
        ensures
            !r.verify_signature && !r.verify_hash,
            r.signature_verification_mode == VerificationMode::Silent,
            r.hash_verification_mode == VerificationMode::Silent,
            r.empty_signature_mode == VerificationMode::Silent,
    {
        VerificationOptions {
            verify_signature: false,
            verify_hash: false,
            signature_verification_mode: VerificationMode::Silent,
            hash_verification_mode: VerificationMode::Silent,
            empty_signature_mode: VerificationMode::Silent,
        }
    }
}

impl Default for VerificationOptions {
    /// The default: every check made; a hash or signature that does not verify
    /// is an error, a document without a signature only a warning.
    fn default() -> (r: VerificationOptions)
        ensures
            r == (VerificationOptions {
                verify_signature: true,
                verify_hash: true,
                signature_verification_mode: VerificationMode::Strict,
                hash_verification_mode: VerificationMode::Strict,
                empty_signature_mode: VerificationMode::Warn,
            }),
    {
        VerificationOptions {
            verify_signature: true,
            verify_hash: true,
            signature_verification_mode: VerificationMode::Strict,
            hash_verification_mode: VerificationMode::Strict,
            empty_signature_mode: VerificationMode::Warn,
        }
    }
}

/// The reason given for a hash that does not match.
fn hash_mismatch_reason(expected: &str, computed: &str) -> (r: String)
    ensures
        r@ == "Expected hash: "@ + expected@ + ", Computed hash: "@ + computed@,
{
    let mut r = "Expected hash: ".to_owned();
    r.append(expected);
    r.append(", Computed hash: ");
    r.append(computed);
    r
}

/// Whether the hash of a document is to be computed for a check under these options.
pub fn hash_check_needed(options: &VerificationOptions) -> (r: bool)
    ensures
        r == (options.hash_verification_mode != VerificationMode::Silent),
{
    options.hash_verification_mode != VerificationMode::Silent
}

/// The outcome of a hash check given the hash computed from the document's data:
/// a mismatch is an error only in strict mode.
pub fn hash_verdict(id: &str, stored_hash: &str, options: &VerificationOptions, computed_hash: &str) -> (r: Result<(), SentinelError>)
    ensures
        r is Err <==> (options.hash_verification_mode == VerificationMode::Strict && stored_hash@ != computed_hash@),
        r matches Err(e) ==> e matches SentinelError::HashVerificationFailed { id: x, reason } && x@ == id@
            && reason@ == "Expected hash: "@ + stored_hash@ + ", Computed hash: "@ + computed_hash@,
{
    let same = stored_hash.to_owned() == computed_hash.to_owned();
    if !same {
        match options.hash_verification_mode {
            VerificationMode::Strict => {
                let reason = hash_mismatch_reason(stored_hash, computed_hash);
                return Err(SentinelError::HashVerificationFailed { id: id.to_owned(), reason });
            },
            _ => {},
        }
    }
    Ok(())
}

/// What the signature check of a document needs from outside.
#[derive(Debug, Clone, Copy, PartialEq, Eq, Structural)]
pub enum SignatureCheck {
    /// The check is decided without looking at the signature's validity.
    Decided,
    /// The signature's validity against the collection's key decides it.
    NeedsValidity,
}

/// Whether the signature check of a document needs the signature checked against
/// the key: only when some signature mode is not silent, the document has a
/// signature, signature checking is on, and there is a key.
pub fn signature_check_needed(options: &VerificationOptions, signature: &str, has_key: bool) -> (r: SignatureCheck)
    ensures
        (r == SignatureCheck::NeedsValidity) <==> (!(options.signature_verification_mode == VerificationMode::Silent
            && options.empty_signature_mode == VerificationMode::Silent) && signature@.len() > 0
            && options.verify_signature && has_key),
{
    if options.signature_verification_mode == VerificationMode::Silent && options.empty_signature_mode
        == VerificationMode::Silent {
        return SignatureCheck::Decided;
    }
    if signature.unicode_len() == 0 {
        return SignatureCheck::Decided;
    }
    if !options.verify_signature || !has_key {
        return SignatureCheck::Decided;
    }
    SignatureCheck::NeedsValidity
}

/// The outcome of a signature check. `valid` is the signature's validity against
/// the collection's key, where that was checked (`None` when there is no key or
/// the check was not needed). A missing signature is an error when the empty
/// signature mode is strict; an invalid one when the signature mode is strict.
pub fn signature_verdict(id: &str, signature: &str, options: &VerificationOptions, valid: Option<bool>) -> (r: Result<(), SentinelError>)
    ensures
        ({
            let all_silent = options.signature_verification_mode == VerificationMode::Silent
                && options.empty_signature_mode == VerificationMode::Silent;
            let empty_fails = signature@.len() == 0 && options.empty_signature_mode == VerificationMode::Strict;
            let invalid_fails = signature@.len() > 0 && options.verify_signature && valid == Some(false)
                && options.signature_verification_mode == VerificationMode::Strict;
            r is Err <==> !all_silent && (empty_fails || invalid_fails)
        }),
        r matches Err(e) ==> e matches SentinelError::SignatureVerificationFailed { id: x, reason } && x@ == id@
            && reason@ == (if signature@.len() == 0 {
                "Document has no signature"@
            } else {
                "Signature verification using public key failed"@
            }),
{
    if options.signature_verification_mode == VerificationMode::Silent && options.empty_signature_mode
        == VerificationMode::Silent {
        return Ok(());
    }
    if signature.unicode_len() == 0 {
        match options.empty_signature_mode {
            VerificationMode::Strict => {
                return Err(
                    SentinelError::SignatureVerificationFailed {
                        id: id.to_owned(),
                        reason: "Document has no signature".to_owned(),
                    },
                );
            },
            _ => {},
        }
        return Ok(());
    }
    if !options.verify_signature {
        return Ok(());
    }
    match valid {
        Some(false) => match options.signature_verification_mode {
            VerificationMode::Strict => Err(
                SentinelError::SignatureVerificationFailed {
                    id: id.to_owned(),
                    reason: "Signature verification using public key failed".to_owned(),
                },
            ),
            _ => Ok(()),
        },
        _ => Ok(()),
    }
}

/// While streaming documents, whether a failed check of one document is passed on
/// as an error item. A hash or signature failure is passed on when the hash or
/// signature mode is strict (and, where `count_empty_signature` holds, when the
/// empty signature mode is); it is otherwise dropped and the document is yielded.
/// Any other error is always passed on.
pub fn stream_error_passed_on(error: &SentinelError, options: &VerificationOptions, count_empty_signature: bool) -> (r: bool)
    ensures
        (error is HashVerificationFailed || error is SignatureVerificationFailed) ==> r == (
        options.hash_verification_mode == VerificationMode::Strict || options.signature_verification_mode
            == VerificationMode::Strict || (count_empty_signature && options.empty_signature_mode
            == VerificationMode::Strict)),
        !(error is HashVerificationFailed || error is SignatureVerificationFailed) ==> r,
{
    match error {
        SentinelError::HashVerificationFailed { .. } | SentinelError::SignatureVerificationFailed { .. } => {
            options.hash_verification_mode == VerificationMode::Strict || options.signature_verification_mode
                == VerificationMode::Strict || (count_empty_signature && options.empty_signature_mode
                == VerificationMode::Strict)
        },
        _ => true,
    }
}

/// The hash that the caller computed, if it computed one.
pub open spec fn computed_text(c: &Option<Result<String, SentinelError>>) -> Option<Seq<char>> {
    match c {
        Some(Ok(h)) => Some(h@),
        _ => None,
    }
}

/// The error of the caller's hash computation, if it failed.
pub open spec fn hash_computation_error(c: &Option<Result<String, SentinelError>>) -> Option<SentinelError> {
    match c {
        Some(Err(e)) => Some(*e),
        _ => None,
    }
}

/// The validity that the caller found for the signature, if it found one.
pub open spec fn validity_value(v: &Option<Result<bool, SentinelError>>) -> Option<bool> {
    match v {
        Some(Ok(b)) => Some(*b),
        _ => None,
    }
}

/// The error of the caller's signature check, if it failed.
pub open spec fn validity_error(v: &Option<Result<bool, SentinelError>>) -> Option<SentinelError> {
    match v {
        Some(Err(e)) => Some(*e),
        _ => None,
    }
}

/// The hash of the document is checked under the options.
pub open spec fn hash_checked(options: &VerificationOptions) -> bool {
    options.verify_hash && options.hash_verification_mode != VerificationMode::Silent
}

/// A computed hash differs from the stored one in strict mode.
pub open spec fn hash_mismatch_fails(options: &VerificationOptions, stored_hash: Seq<char>, c: &Option<Result<String, SentinelError>>) -> bool {
    match computed_text(c) {
        Some(h) => options.hash_verification_mode == VerificationMode::Strict && h != stored_hash,
        None => false,
    }
}

/// The hash part of `document_verdict` lets the document through.
pub open spec fn hash_passes(options: &VerificationOptions, stored_hash: Seq<char>, c: &Option<Result<String, SentinelError>>) -> bool {
    !hash_checked(options) || (computed_text(c) is Some && !hash_mismatch_fails(options, stored_hash, c))
}

/// The hash check alone lets the document through: the hash mode is silent, or
/// the hash was computed and does not differ from the stored one in strict mode.
pub open spec fn hash_verdict_ok(options: &VerificationOptions, stored_hash: Seq<char>, c: &Option<Result<String, SentinelError>>) -> bool {
    options.hash_verification_mode == VerificationMode::Silent || (computed_text(c) is Some && !hash_mismatch_fails(
        options,
        stored_hash,
        c,
    ))
}

/// Whether the signature check needs the signature's validity (see `signature_check_needed`).
pub open spec fn signature_check_needed_spec(options: &VerificationOptions, signature: Seq<char>, has_key: bool) -> bool {
    !(options.signature_verification_mode == VerificationMode::Silent && options.empty_signature_mode
        == VerificationMode::Silent) && signature.len() > 0 && options.verify_signature && has_key
}

/// The signature check fails, given the validity that was found where it was needed.
pub open spec fn signature_fails(
    options: &VerificationOptions,
    signature: Seq<char>,
    has_key: bool,
    v: &Option<Result<bool, SentinelError>>,
) -> bool {
    let all_silent = options.signature_verification_mode == VerificationMode::Silent && options.empty_signature_mode
        == VerificationMode::Silent;
    let empty_fails = signature.len() == 0 && options.empty_signature_mode == VerificationMode::Strict;
    let invalid_fails = signature_check_needed_spec(options, signature, has_key) && validity_value(v) == Some(false)
        && options.signature_verification_mode == VerificationMode::Strict;
    !all_silent && (empty_fails || invalid_fails)
}

/// The signature check ends in the error of the caller's validity check.
pub open spec fn signature_check_errs(
    options: &VerificationOptions,
    signature: Seq<char>,
    has_key: bool,
    v: &Option<Result<bool, SentinelError>>,
) -> bool {
    signature_check_needed_spec(options, signature, has_key) && validity_error(v) is Some
}

/// The signature check alone lets the document through: its validity check did
/// not fail, and neither a missing nor an invalid signature fails.
pub open spec fn signature_verdict_ok(
    options: &VerificationOptions,
    signature: Seq<char>,
    has_key: bool,
    v: &Option<Result<bool, SentinelError>>,
) -> bool {
    !signature_check_errs(options, signature, has_key, v) && !signature_fails(options, signature, has_key, v)
}

/// A document check succeeds exactly when each enabled check succeeds on its own:
/// the hash check when hashes are checked, the signature check when signatures
/// are; with neither enabled it always succeeds.
pub proof fn lemma_document_check_is_each_check(
    options: &VerificationOptions,
    stored_hash: Seq<char>,
    signature: Seq<char>,
    has_key: bool,
    computed_hash: &Option<Result<String, SentinelError>>,
    validity: &Option<Result<bool, SentinelError>>,
)
    ensures
        (hash_passes(options, stored_hash, computed_hash) && (!options.verify_signature || (!signature_check_errs(
            options,
            signature,
            has_key,
            validity,
        ) && !signature_fails(options, signature, has_key, validity)))) <==> ((!options.verify_hash || hash_verdict_ok(
            options,
            stored_hash,
            computed_hash,
        )) && (!options.verify_signature || signature_verdict_ok(options, signature, has_key, validity))),
        !options.verify_hash && !options.verify_signature ==> hash_passes(options, stored_hash, computed_hash),
{
}

/// The outcome of checking a document under the options, given what the caller
/// computed for it: `computed_hash` is the result of hashing the document's data
/// (needed when `hash_checked`), `validity` the result of checking its signature
/// against the collection's key (needed when `signature_check_needed` asks for
/// it). Hashes are checked when `verify_hash` is set, signatures when
/// `verify_signature` is; the hash first. An error of either computation is
/// passed on as it is.
pub fn document_verdict(
    id: &str,
    stored_hash: &str,
    signature: &str,
    options: &VerificationOptions,
    has_key: bool,
    computed_hash: &Option<Result<String, SentinelError>>,
    validity: &Option<Result<bool, SentinelError>>,
) -> (r: Result<(), SentinelError>)
    requires
        hash_checked(options) ==> computed_hash is Some,
        options.verify_signature && signature_check_needed_spec(options, signature@, has_key) ==> validity is Some,
    ensures
        r is Ok <==> hash_passes(options, stored_hash@, computed_hash) && (!options.verify_signature || (
        !signature_check_errs(options, signature@, has_key, validity) && !signature_fails(
            options,
            signature@,
            has_key,
            validity,
        ))),
        hash_checked(options) ==> match hash_computation_error(computed_hash) {
            Some(e) => r == Err::<(), SentinelError>(e),
            None => true,
        },
        hash_checked(options) && hash_mismatch_fails(options, stored_hash@, computed_hash) ==> match computed_text(
            computed_hash,
        ) {
            Some(h) => (r matches Err(SentinelError::HashVerificationFailed { id: x, reason }) && x@ == id@ && reason@
                == "Expected hash: "@ + stored_hash@ + ", Computed hash: "@ + h),
            None => false,
        },
        hash_passes(options, stored_hash@, computed_hash) && options.verify_signature && signature_check_errs(
            options,
            signature@,
            has_key,
            validity,
        ) ==> match validity_error(validity) {
            Some(e) => r == Err::<(), SentinelError>(e),
            None => false,
        },
        hash_passes(options, stored_hash@, computed_hash) && options.verify_signature && !signature_check_errs(
            options,
            signature@,
            has_key,
            validity,
        ) && signature_fails(options, signature@, has_key, validity) ==> (r matches Err(
            SentinelError::SignatureVerificationFailed { id: x, reason },
        ) && x@ == id@ && reason@ == (if signature@.len() == 0 {
            "Document has no signature"@
        } else {
            "Signature verification using public key failed"@
        })),
{
    if options.verify_hash && hash_check_needed(options) {
        match computed_hash {
            Some(Ok(h)) => {
                hash_verdict(id, stored_hash, options, h.as_str())?;
            },
            Some(Err(e)) => {
                return Err(e.clone_error());
            },
            None => {},
        }
    }
    if options.verify_signature {
        let needed = signature_check_needed(options, signature, has_key);
        let valid = match needed {
            SignatureCheck::NeedsValidity => match validity {
                Some(Ok(v)) => Some(*v),
                Some(Err(e)) => {
                    return Err(e.clone_error());
                },
                None => None,
            },
            SignatureCheck::Decided => None,
        };
        signature_verdict(id, signature, options, valid)?;
    }
    Ok(())
}

} // verus!
