//! Checking a password against the text form of a record.
use crate::encryption::unlocks_phrase;
use crate::hasher::{derive_key, run_workers, unlocks, BYTES_PER_MB};
use crate::storage::{
    base64_decoded_of, parse_number, parse_record, split_fields, tag_chars, FormatError, RecordModel,
    SinkproofHash,
};
use vstd::prelude::*;
use vstd::string::StringSliceAdditionalSpecFns;

verus! {

/// What checking `password` against the record text gives: the format error,
/// or whether the password opens the record's sealed phrase.
pub open spec fn verify_outcome(password: Seq<u8>, text: Seq<char>) -> Result<bool, FormatError> {
    match parse_record(text) {
        Err(e) => Err(e),
        Ok(record) => if record.memory_mb * (BYTES_PER_MB as nat) > usize::MAX {
            Err(FormatError::Memory)
        } else {
            Ok(unlocks(password, record))
        },
    }
}

/// Checks `password` against a stored record text: the workers are run again
/// with the record's salt and parameters, and the password is accepted when
/// the key they give opens the sealed phrase. A wrong password is `Ok(false)`,
/// never an error.
pub fn verify_password(password: &str, stored_hash: &str) -> (r: Result<bool, FormatError>)
    ensures
        r == verify_outcome(password.spec_bytes(), stored_hash@),
{
    let hash = match SinkproofHash::from_string(stored_hash) {
        Ok(h) => h,
        Err(e) => {
            return Err(e);
        },
    };
    if hash.memory_mb > usize::MAX / BYTES_PER_MB {
        assert(hash.memory_mb * BYTES_PER_MB > usize::MAX) by (nonlinear_arith)
            requires
                hash.memory_mb > usize::MAX / BYTES_PER_MB,
                BYTES_PER_MB == 1048576,
        ;
        return Err(FormatError::Memory);
    }
    assert(hash.memory_mb * BYTES_PER_MB <= usize::MAX) by (nonlinear_arith)
        requires
            hash.memory_mb <= usize::MAX / BYTES_PER_MB,
            BYTES_PER_MB == 1048576,
    ;
    let memory_size = hash.memory_mb * BYTES_PER_MB;
    let digests = run_workers(password, hash.salt.as_slice(), hash.threads, memory_size);
    let key = derive_key(digests.as_slice());
    Ok(unlocks_phrase(key.as_slice(), hash.encrypted_phrase.as_slice()))
}

/// The same check as `verify_password`.
pub fn verify_password_robust(password: &str, stored_hash: &str) -> (r: Result<bool, FormatError>)
    ensures
        r == verify_outcome(password.spec_bytes(), stored_hash@),
{
    verify_password(password, stored_hash)
}

/// A record that a password unlocks, read back from its text, verifies that
/// password: the text that `to_string` makes of a record from
/// `hash_password` satisfies both conditions.
pub proof fn lemma_hash_then_verify(password: Seq<u8>, record: RecordModel, text: Seq<char>)
    requires
        unlocks(password, record),
        record.memory_mb * (BYTES_PER_MB as nat) <= usize::MAX,
        parse_record(text) == Ok::<RecordModel, FormatError>(record),
    ensures
        verify_outcome(password, text) == Ok::<bool, FormatError>(true),
{
}

/// Texts with the wrong number of fields or the wrong first field are
/// rejected as malformed, and so are texts whose counts are not numbers or
/// whose salt or sealed phrase is not base64.
pub proof fn lemma_malformed_rejected(password: Seq<u8>, text: Seq<char>)
    requires
        split_fields(text).len() != 6 || split_fields(text)[0] != tag_chars()
            || parse_number(split_fields(text)[2]) is None
            || parse_number(split_fields(text)[3]) is None
            || base64_decoded_of(split_fields(text)[4]) is None
            || base64_decoded_of(split_fields(text)[5]) is None,
    ensures
        parse_record(text) is Err,
        verify_outcome(password, text) is Err,
{
}

} // verus!
