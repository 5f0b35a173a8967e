//! Checking of signatures.
use vstd::prelude::*;

verus! {

/// Why a signature could not be checked.
#[derive(Clone, Copy, Debug, PartialEq, Eq, Structural)]
pub enum VerificationError {
    BatchErr,
    GenericErr,
    InvalidHashFormat,
    InvalidSignatureFormat,
    InvalidPubkeyFormat,
    InvalidRecoveryParam,
    UnknownErr { error_code: u32 },
}

/// Why no public key could be recovered.
#[derive(Clone, Copy, Debug, PartialEq, Eq, Structural)]
pub enum RecoverPubkeyError {
    InvalidHashFormat,
    InvalidSignatureFormat,
    InvalidRecoveryParam,
    UnknownErr { error_code: u32 },
}

/// The codes under which a failure is reported.
pub const CODE_HASH_FORMAT: u32 = 3;

pub const CODE_SIGNATURE_FORMAT: u32 = 4;

pub const CODE_PUBKEY_FORMAT: u32 = 5;

pub const CODE_RECOVERY_PARAM: u32 = 6;

pub const CODE_BATCH: u32 = 7;

pub const CODE_GENERIC: u32 = 10;

impl VerificationError {
    pub open spec fn of_code(code: u32) -> Self {
        if code == CODE_HASH_FORMAT {
            VerificationError::InvalidHashFormat
        } else if code == CODE_SIGNATURE_FORMAT {
            VerificationError::InvalidSignatureFormat
        } else if code == CODE_PUBKEY_FORMAT {
            VerificationError::InvalidPubkeyFormat
        } else if code == CODE_RECOVERY_PARAM {
            VerificationError::InvalidRecoveryParam
        } else if code == CODE_BATCH {
            VerificationError::BatchErr
        } else if code == CODE_GENERIC {
            VerificationError::GenericErr
        } else {
            VerificationError::UnknownErr { error_code: code }
        }
    }

    /// The error that a code stands for.
    pub fn from_code(code: u32) -> (r: Self)
        ensures
            r == VerificationError::of_code(code),
    {
        if code == CODE_HASH_FORMAT {
            VerificationError::InvalidHashFormat
        } else if code == CODE_SIGNATURE_FORMAT {
            VerificationError::InvalidSignatureFormat
        } else if code == CODE_PUBKEY_FORMAT {
            VerificationError::InvalidPubkeyFormat
        } else if code == CODE_RECOVERY_PARAM {
            VerificationError::InvalidRecoveryParam
        } else if code == CODE_BATCH {
            VerificationError::BatchErr
        } else if code == CODE_GENERIC {
            VerificationError::GenericErr
        } else {
            VerificationError::UnknownErr { error_code: code }
        }
    }
}

impl RecoverPubkeyError {
    pub open spec fn of_code(code: u32) -> Self {
        if code == CODE_HASH_FORMAT {
            RecoverPubkeyError::InvalidHashFormat
        } else if code == CODE_SIGNATURE_FORMAT {
            RecoverPubkeyError::InvalidSignatureFormat
        } else if code == CODE_RECOVERY_PARAM {
            RecoverPubkeyError::InvalidRecoveryParam
        } else {
            RecoverPubkeyError::UnknownErr { error_code: code }
        }
    }

    /// The error that a code stands for. Recovery knows no failure of a public key or a batch.
    pub fn from_code(code: u32) -> (r: Self)
        requires
            code != CODE_PUBKEY_FORMAT,
            code != CODE_BATCH,
        ensures
            r == RecoverPubkeyError::of_code(code),
    {
        if code == CODE_HASH_FORMAT {
            RecoverPubkeyError::InvalidHashFormat
        } else if code == CODE_SIGNATURE_FORMAT {
            RecoverPubkeyError::InvalidSignatureFormat
        } else if code == CODE_RECOVERY_PARAM {
            RecoverPubkeyError::InvalidRecoveryParam
        } else {
            RecoverPubkeyError::UnknownErr { error_code: code }
        }
    }
}

pub open spec fn fails_with<T>(r: Result<T, u32>, code: u32) -> bool {
    r matches Err(c) && c == code
}

pub open spec fn answers(r: Result<bool, u32>, valid: bool) -> bool {
    r matches Ok(v) && v == valid
}

/// A public key of 33 bytes in compressed form, or of 65 bytes in full.
pub open spec fn is_sec1_key(key: Seq<u8>) -> bool {
    ||| key.len() == 33 && (key[0] == 2 || key[0] == 3)
    ||| key.len() == 65 && key[0] == 4
}

/// Whether `cosmwasm_crypto::secp256k1_verify` takes a signature for good, or the code of its
/// failure, where hash, signature and key have the right form.
pub uninterp spec fn secp256k1_checked(hash: Seq<u8>, signature: Seq<u8>, key: Seq<u8>) -> Result<
    bool,
    u32,
>;

/// What `secp256k1_verify` says of any input: the form of hash, signature and key is looked at
/// first, in this order.
pub open spec fn secp256k1_outcome(hash: Seq<u8>, signature: Seq<u8>, key: Seq<u8>) -> Result<
    bool,
    u32,
> {
    if hash.len() != 32 {
        Err(CODE_HASH_FORMAT)
    } else if signature.len() != 64 {
        Err(CODE_SIGNATURE_FORMAT)
    } else if !is_sec1_key(key) {
        Err(CODE_PUBKEY_FORMAT)
    } else {
        secp256k1_checked(hash, signature, key)
    }
}

/// Calls `cosmwasm_crypto::secp256k1_verify`. Claims that it refuses a hash that is not of 32
/// bytes, a signature that is not of 64 bytes and a key that is not in one of the two forms, in
/// this order, each with its code; that it is a function of its input else; and that any other
/// failure has the general code.
#[verifier::external_body]
fn secp256k1_verify_call(hash: &[u8], signature: &[u8], key: &[u8]) -> (r: Result<bool, u32>)
    ensures
        hash.len() != 32 ==> fails_with(r, CODE_HASH_FORMAT),
        hash.len() == 32 && signature.len() != 64 ==> fails_with(r, CODE_SIGNATURE_FORMAT),
        hash.len() == 32 && signature.len() == 64 && !is_sec1_key(key@) ==> fails_with(
            r,
            CODE_PUBKEY_FORMAT,
        ),
        hash.len() == 32 && signature.len() == 64 && is_sec1_key(key@) ==> r == secp256k1_checked(
            hash@,
            signature@,
            key@,
        ),
        hash.len() == 32 && signature.len() == 64 && is_sec1_key(key@) && r is Err ==> fails_with(
            r,
            CODE_GENERIC,
        ),
{
    cosmwasm_crypto::secp256k1_verify(hash, signature, key).map_err(|e| e.code())
}

/// The key that `cosmwasm_crypto::secp256k1_recover_pubkey` recovers, or the code of its failure,
/// where hash, signature and parameter have the right form.
pub uninterp spec fn secp256k1_recovered(
    hash: Seq<u8>,
    signature: Seq<u8>,
    recovery_param: u8,
) -> Result<Seq<u8>, u32>;

/// What `secp256k1_recover_pubkey` says of any input.
pub open spec fn recover_outcome(
    hash: Seq<u8>,
    signature: Seq<u8>,
    recovery_param: u8,
) -> Result<Seq<u8>, u32> {
    if hash.len() != 32 {
        Err(CODE_HASH_FORMAT)
    } else if signature.len() != 64 {
        Err(CODE_SIGNATURE_FORMAT)
    } else if recovery_param > 1 {
        Err(CODE_RECOVERY_PARAM)
    } else {
        secp256k1_recovered(hash, signature, recovery_param)
    }
}

pub open spec fn key_result(r: Result<Vec<u8>, u32>) -> Result<Seq<u8>, u32> {
    match r {
        Ok(v) => Ok(v@),
        Err(code) => Err(code),
    }
}

/// Calls `cosmwasm_crypto::secp256k1_recover_pubkey`. Claims that it refuses a hash that is not of
/// 32 bytes, a signature that is not of 64 bytes and a parameter other than 0 and 1, in this
/// order, each with its code; that it is a function of its input else; and that any other failure
/// has the general code.
#[verifier::external_body]
fn secp256k1_recover_call(hash: &[u8], signature: &[u8], recovery_param: u8) -> (r: Result<
    Vec<u8>,
    u32,
>)
    ensures
        hash.len() != 32 ==> fails_with(r, CODE_HASH_FORMAT),
        hash.len() == 32 && signature.len() != 64 ==> fails_with(r, CODE_SIGNATURE_FORMAT),
        hash.len() == 32 && signature.len() == 64 && recovery_param > 1 ==> fails_with(
            r,
            CODE_RECOVERY_PARAM,
        ),
        hash.len() == 32 && signature.len() == 64 && recovery_param <= 1 ==> key_result(r)
            == secp256k1_recovered(hash@, signature@, recovery_param),
        hash.len() == 32 && signature.len() == 64 && recovery_param <= 1 && r is Err ==> fails_with(
            r,
            CODE_GENERIC,
        ),
{
    cosmwasm_crypto::secp256k1_recover_pubkey(hash, signature, recovery_param).map_err(
        |e| e.code(),
    )
}

/// The number that bytes stand for, lowest byte first.
pub open spec fn le_value(s: Seq<u8>) -> nat
    decreases s.len(),
{
    if s.len() == 0 {
        0
    } else {
        s[0] as nat + 256 * le_value(s.skip(1))
    }
}

/// The number is below the order of the base point of the curve.
pub open spec fn canonical_scalar(s: Seq<u8>) -> bool {
    le_value(s) < 7237005577332262213973186563042994240857116359379907606001950938285454250989nat
}

/// The point `(x, y)` is on the curve: `y*y - x*x` is `1 + d*x*x*y*y`, where `d` is
/// `-121665/121666`, modulo the prime `2^255 - 19`.
pub open spec fn curve_point(x: int, y: int) -> bool {
    (121666 * (y * y - x * x) - (121666 - 121665 * (x * x) * (y * y)))
        % 57896044618658097711785492504343953926634992332820282019728792003956564819949int == 0
}

/// Some point of the curve has the low 255 bits of these bytes for its second coordinate.
pub open spec fn is_point(s: Seq<u8>) -> bool {
    exists|x: int| #[trigger]
        curve_point(
            x,
            le_value(s) as int
                % 57896044618658097711785492504343953926634992332820282019728792003956564819968int,
        )
}

/// Key and signature are what a check can be made with: the key and the first half of the
/// signature stand for points, and the second half is a canonical number.
pub open spec fn ed25519_form(signature: Seq<u8>, key: Seq<u8>) -> bool {
    &&& is_point(key)
    &&& is_point(signature.take(32))
    &&& canonical_scalar(signature.skip(32))
}

/// Whether `cosmwasm_crypto::ed25519_verify` takes a signature of 64 bytes under a key of 32 bytes
/// for good.
pub uninterp spec fn ed25519_valid(message: Seq<u8>, signature: Seq<u8>, key: Seq<u8>) -> bool;

/// What `ed25519_verify` says of any input.
pub open spec fn ed25519_outcome(message: Seq<u8>, signature: Seq<u8>, key: Seq<u8>) -> Result<
    bool,
    u32,
> {
    if signature.len() != 64 {
        Err(CODE_SIGNATURE_FORMAT)
    } else if key.len() != 32 {
        Err(CODE_PUBKEY_FORMAT)
    } else {
        Ok(ed25519_valid(message, signature, key))
    }
}

/// Calls `cosmwasm_crypto::ed25519_verify`. Claims that it refuses a signature that is not of 64
/// bytes and a key that is not of 32 bytes, in this order, each with its code; that else it gives
/// an answer, which is a function of its input; and that it says yes only where key and signature
/// stand for points of the curve and a canonical number.
#[verifier::external_body]
fn ed25519_verify_call(message: &[u8], signature: &[u8], key: &[u8]) -> (r: Result<bool, u32>)
    ensures
        signature.len() != 64 ==> fails_with(r, CODE_SIGNATURE_FORMAT),
        signature.len() == 64 && key.len() != 32 ==> fails_with(r, CODE_PUBKEY_FORMAT),
        signature.len() == 64 && key.len() == 32 ==> answers(
            r,
            ed25519_valid(message@, signature@, key@),
        ),
        answers(r, true) ==> ed25519_form(signature@, key@),
{
    cosmwasm_crypto::ed25519_verify(message, signature, key).map_err(|e| e.code())
}

/// Whether three lists of these lengths go together: all are of one length, or there is one message
/// for as many keys as signatures, or one key for as many messages as signatures.
pub open spec fn batch_fits(messages: nat, signatures: nat, keys: nat) -> bool {
    ||| messages == signatures && keys == signatures
    ||| messages == 1 && keys == signatures
    ||| keys == 1 && messages == signatures
}

/// Item `i` of a list that may stand for many equal items by having one.
pub open spec fn batch_item(s: Seq<&[u8]>, n: nat, i: int) -> Seq<u8> {
    if s.len() == 1 && n != 1 {
        s[0]@
    } else {
        s[i]@
    }
}

/// The code of the first signature or key of a batch that has the wrong length, if there is one.
pub open spec fn batch_format(signatures: Seq<&[u8]>, keys: Seq<&[u8]>, from: int) -> Option<u32>
    decreases signatures.len() - from,
{
    if from < 0 || from >= signatures.len() {
        None
    } else if signatures[from]@.len() != 64 {
        Some(CODE_SIGNATURE_FORMAT)
    } else if batch_item(keys, signatures.len(), from).len() != 32 {
        Some(CODE_PUBKEY_FORMAT)
    } else {
        batch_format(signatures, keys, from + 1)
    }
}

/// Every signature of a batch is good by itself.
pub open spec fn batch_all_valid(
    messages: Seq<&[u8]>,
    signatures: Seq<&[u8]>,
    keys: Seq<&[u8]>,
) -> bool {
    forall|i: int|
        0 <= i < signatures.len() ==> ed25519_valid(
            batch_item(messages, signatures.len(), i),
            (#[trigger] signatures[i])@,
            batch_item(keys, signatures.len(), i),
        )
}

/// Every key and signature of a batch stand for points and a canonical number.
pub open spec fn batch_form(signatures: Seq<&[u8]>, keys: Seq<&[u8]>) -> bool {
    forall|i: int|
        0 <= i < signatures.len() ==> ed25519_form(
            (#[trigger] signatures[i])@,
            batch_item(keys, signatures.len(), i),
        )
}

/// Calls `cosmwasm_crypto::ed25519_batch_verify`. Claims that it refuses lists that do not go
/// together, then the first signature or key of the wrong length, each with its code; that else
/// it gives an answer; that the answer is yes where every signature is good by itself, and is no
/// where some key or signature does not stand for points of the curve and a canonical number.
/// What is left is one equation for the whole batch, weighted by random numbers: that it fails
/// where a signature of the right form is bad holds with all but a vanishing chance, and is not
/// claimed.
#[verifier::external_body]
fn ed25519_batch_call(messages: &[&[u8]], signatures: &[&[u8]], keys: &[&[u8]]) -> (r: Result<
    bool,
    u32,
>)
    ensures
        !batch_fits(messages@.len(), signatures@.len(), keys@.len()) ==> fails_with(r, CODE_BATCH),
        batch_fits(messages@.len(), signatures@.len(), keys@.len()) ==> match batch_format(
            signatures@,
            keys@,
            0,
        ) {
            Some(code) => fails_with(r, code),
            None => r is Ok,
        },
        r is Ok && batch_all_valid(messages@, signatures@, keys@) ==> answers(r, true),
        answers(r, true) ==> batch_form(signatures@, keys@),
{
    cosmwasm_crypto::ed25519_batch_verify(messages, signatures, keys).map_err(|e| e.code())
}

pub open spec fn verification_result(r: Result<bool, u32>) -> Result<bool, VerificationError> {
    match r {
        Ok(valid) => Ok(valid),
        Err(code) => Err(VerificationError::of_code(code)),
    }
}

/// Turns the code of a failure into the error that it stands for.
pub fn report_verification(r: Result<bool, u32>) -> (out: Result<bool, VerificationError>)
    ensures
        out == verification_result(r),
{
    match r {
        Ok(valid) => Ok(valid),
        Err(code) => Err(VerificationError::from_code(code)),
    }
}

/// Checks a signature of the hash of a message.
pub fn secp256k1_verify(message_hash: &[u8], signature: &[u8], public_key: &[u8]) -> (r: Result<
    bool,
    VerificationError,
>)
    ensures
        r == verification_result(secp256k1_outcome(message_hash@, signature@, public_key@)),
{
    report_verification(secp256k1_verify_call(message_hash, signature, public_key))
}

pub open spec fn recovery_result(r: Result<Seq<u8>, u32>) -> Result<Seq<u8>, RecoverPubkeyError> {
    match r {
        Ok(key) => Ok(key),
        Err(code) => Err(RecoverPubkeyError::of_code(code)),
    }
}

pub open spec fn recovered_view(r: Result<Vec<u8>, RecoverPubkeyError>) -> Result<
    Seq<u8>,
    RecoverPubkeyError,
> {
    match r {
        Ok(key) => Ok(key@),
        Err(e) => Err(e),
    }
}

/// Turns the code of a failure into the error that it stands for.
pub fn report_recovery(r: Result<Vec<u8>, u32>) -> (out: Result<Vec<u8>, RecoverPubkeyError>)
    requires
        r matches Err(code) ==> code != CODE_PUBKEY_FORMAT && code != CODE_BATCH,
    ensures
        recovered_view(out) == recovery_result(key_result(r)),
{
    match r {
        Ok(key) => Ok(key),
        Err(code) => Err(RecoverPubkeyError::from_code(code)),
    }
}

/// Recovers the public key from a signature of the hash of a message.
pub fn secp256k1_recover_pubkey(message_hash: &[u8], signature: &[u8], recovery_param: u8) -> (r:
    Result<Vec<u8>, RecoverPubkeyError>)
    ensures
        recovered_view(r) == recovery_result(
            recover_outcome(message_hash@, signature@, recovery_param),
        ),
{
    report_recovery(secp256k1_recover_call(message_hash, signature, recovery_param))
}

/// Checks a signature of a message. The answer is yes only where key and signature stand for points
/// of the curve and a canonical number.
pub fn ed25519_verify(message: &[u8], signature: &[u8], public_key: &[u8]) -> (r: Result<
    bool,
    VerificationError,
>)
    ensures
        r == verification_result(ed25519_outcome(message@, signature@, public_key@)),
        r == Ok::<bool, VerificationError>(true) ==> ed25519_form(signature@, public_key@),
{
    report_verification(ed25519_verify_call(message, signature, public_key))
}

/// Checks many signatures at once. Lists that do not go together and signatures and keys of the
/// wrong length are refused; else there is an answer. It is yes where every signature is good by
/// itself, and no where some key or signature does not stand for points of the curve and a
/// canonical number. That it is no where a signature of the right form is bad rests on random
/// numbers and is not stated.
pub fn ed25519_batch_verify(messages: &[&[u8]], signatures: &[&[u8]], public_keys: &[&[u8]]) -> (r:
    Result<bool, VerificationError>)
    ensures
        !batch_fits(messages@.len(), signatures@.len(), public_keys@.len()) ==> r == Err::<
            bool,
            VerificationError,
        >(VerificationError::BatchErr),
        batch_fits(messages@.len(), signatures@.len(), public_keys@.len()) ==> match batch_format(
            signatures@,
            public_keys@,
            0,
        ) {
            Some(code) => r == Err::<bool, VerificationError>(VerificationError::of_code(code)),
            None => r is Ok,
        },
        r is Ok && batch_all_valid(messages@, signatures@, public_keys@) ==> r == Ok::<
            bool,
            VerificationError,
        >(true),
        r == Ok::<bool, VerificationError>(true) ==> batch_form(signatures@, public_keys@),
{
    report_verification(ed25519_batch_call(messages, signatures, public_keys))
}

/// Each code stands for its own error: six for a known one, and all others for themselves.
pub proof fn law_codes_stand_for_errors(a: u32, b: u32)
    ensures
        VerificationError::of_code(3) == VerificationError::InvalidHashFormat,
        VerificationError::of_code(4) == VerificationError::InvalidSignatureFormat,
        VerificationError::of_code(5) == VerificationError::InvalidPubkeyFormat,
        VerificationError::of_code(6) == VerificationError::InvalidRecoveryParam,
        VerificationError::of_code(7) == VerificationError::BatchErr,
        VerificationError::of_code(10) == VerificationError::GenericErr,
        !(3 <= a <= 7) && a != 10 ==> VerificationError::of_code(a) == (
        VerificationError::UnknownErr { error_code: a }),
        a != b ==> VerificationError::of_code(a) != VerificationError::of_code(b),
        RecoverPubkeyError::of_code(3) == RecoverPubkeyError::InvalidHashFormat,
        RecoverPubkeyError::of_code(4) == RecoverPubkeyError::InvalidSignatureFormat,
        RecoverPubkeyError::of_code(6) == RecoverPubkeyError::InvalidRecoveryParam,
        a != 3 && a != 4 && a != 6 ==> RecoverPubkeyError::of_code(a) == (
        RecoverPubkeyError::UnknownErr { error_code: a }),
        a != b ==> RecoverPubkeyError::of_code(a) != RecoverPubkeyError::of_code(b),
{
}

/// A signature of a hash is checked as it is, under the key as it is, once hash, signature and key
/// have the right form; else the first of the three that has not is told.
pub proof fn law_secp256k1_input_is_checked_as_it_is(
    hash: Seq<u8>,
    signature: Seq<u8>,
    key: Seq<u8>,
)
    ensures
        ({
            let r = verification_result(secp256k1_outcome(hash, signature, key));
            let in_form = (key.len() == 33 && (key[0] == 2 || key[0] == 3)) || (key.len() == 65
                && key[0] == 4);
            let checked = secp256k1_checked(hash, signature, key);
            &&& hash.len() != 32 ==> r == Err::<bool, VerificationError>(
                VerificationError::InvalidHashFormat,
            )
            &&& hash.len() == 32 && signature.len() != 64 ==> r == Err::<bool, VerificationError>(
                VerificationError::InvalidSignatureFormat,
            )
            &&& hash.len() == 32 && signature.len() == 64 && !in_form ==> r == Err::<
                bool,
                VerificationError,
            >(VerificationError::InvalidPubkeyFormat)
            &&& hash.len() == 32 && signature.len() == 64 && in_form ==> {
                &&& r is Ok == checked is Ok
                &&& checked matches Ok(valid) ==> r == Ok::<bool, VerificationError>(valid)
                &&& checked == Err::<bool, u32>(10) ==> r == Err::<bool, VerificationError>(
                    VerificationError::GenericErr,
                )
            }
        }),
{
}

/// A key is recovered from hash, signature and parameter as they are, once they have the right
/// form; else the first of the three that has not is told.
pub proof fn law_keys_are_recovered_from_the_input_as_it_is(
    hash: Seq<u8>,
    signature: Seq<u8>,
    recovery_param: u8,
)
    ensures
        ({
            let r = recovery_result(recover_outcome(hash, signature, recovery_param));
            let recovered = secp256k1_recovered(hash, signature, recovery_param);
            &&& hash.len() != 32 ==> r == Err::<Seq<u8>, RecoverPubkeyError>(
                RecoverPubkeyError::InvalidHashFormat,
            )
            &&& hash.len() == 32 && signature.len() != 64 ==> r == Err::<
                Seq<u8>,
                RecoverPubkeyError,
            >(RecoverPubkeyError::InvalidSignatureFormat)
            &&& hash.len() == 32 && signature.len() == 64 && recovery_param > 1 ==> r == Err::<
                Seq<u8>,
                RecoverPubkeyError,
            >(RecoverPubkeyError::InvalidRecoveryParam)
            &&& hash.len() == 32 && signature.len() == 64 && recovery_param <= 1 ==> {
                &&& r is Ok == recovered is Ok
                &&& recovered matches Ok(key) ==> r == Ok::<Seq<u8>, RecoverPubkeyError>(key)
                &&& recovered == Err::<Seq<u8>, u32>(10) ==> r == Err::<
                    Seq<u8>,
                    RecoverPubkeyError,
                >(RecoverPubkeyError::UnknownErr { error_code: 10 })
            }
        }),
{
}

/// A signature of a message is checked as it is, under the key as it is, once signature and key
/// have the right length; else the first of the two that has not is told.
pub proof fn law_ed25519_input_is_checked_as_it_is(
    message: Seq<u8>,
    signature: Seq<u8>,
    key: Seq<u8>,
)
    ensures
        ({
            let r = verification_result(ed25519_outcome(message, signature, key));
            &&& signature.len() != 64 ==> r == Err::<bool, VerificationError>(
                VerificationError::InvalidSignatureFormat,
            )
            &&& signature.len() == 64 && key.len() != 32 ==> r == Err::<bool, VerificationError>(
                VerificationError::InvalidPubkeyFormat,
            )
            &&& signature.len() == 64 && key.len() == 32 ==> r == Ok::<bool, VerificationError>(
                ed25519_valid(message, signature, key),
            )
        }),
{
}

/// The first item of a batch that has the wrong length counts, the signature before the key; a
/// single key stands for that of every signature.
pub proof fn law_first_wrong_item_counts(signatures: Seq<&[u8]>, keys: Seq<&[u8]>, i: int)
    requires
        0 <= i <= signatures.len(),
        keys.len() == signatures.len() || keys.len() == 1,
        forall|j: int|
            0 <= j < i ==> {
                &&& (#[trigger] signatures[j])@.len() == 64
                &&& keys.len() == 1 ==> keys[0]@.len() == 32
                &&& keys.len() != 1 ==> keys[j]@.len() == 32
            },
    ensures
        i == signatures.len() ==> batch_format(signatures, keys, 0) is None,
        i < signatures.len() && signatures[i]@.len() != 64 ==> batch_format(signatures, keys, 0)
            == Some(4u32),
        i < signatures.len() && signatures[i]@.len() == 64 && (if keys.len() == 1 {
            keys[0]
        } else {
            keys[i]
        })@.len() != 32 ==> batch_format(signatures, keys, 0) == Some(5u32),
{
    assert forall|j: int| 0 <= j < i implies {
        &&& (#[trigger] signatures[j])@.len() == 64
        &&& keys.len() == 1 ==> keys[0]@.len() == 32
        &&& keys.len() != 1 ==> keys[j]@.len() == 32
    } by {
        assert(signatures[j]@.len() == 64);
    }
    lemma_batch_format_from(signatures, keys, 0, i);
}

proof fn lemma_batch_format_from(signatures: Seq<&[u8]>, keys: Seq<&[u8]>, from: int, i: int)
    requires
        0 <= from <= i <= signatures.len(),
        keys.len() == signatures.len() || keys.len() == 1,
        forall|j: int|
            0 <= j < i ==> {
                &&& (#[trigger] signatures[j])@.len() == 64
                &&& keys.len() == 1 ==> keys[0]@.len() == 32
                &&& keys.len() != 1 ==> keys[j]@.len() == 32
            },
    ensures
        batch_format(signatures, keys, from) == batch_format(signatures, keys, i),
        i < signatures.len() ==> batch_item(keys, signatures.len(), i) == (if keys.len() == 1 {
            keys[0]
        } else {
            keys[i]
        })@,
    decreases i - from,
{
    if from < i {
        assert(signatures[from]@.len() == 64);
        assert forall|j: int| 0 <= j < i implies {
            &&& (#[trigger] signatures[j])@.len() == 64
            &&& keys.len() == 1 ==> keys[0]@.len() == 32
            &&& keys.len() != 1 ==> keys[j]@.len() == 32
        } by {
            assert(signatures[j]@.len() == 64);
        }
        lemma_batch_format_from(signatures, keys, from + 1, i);
    }
}

/// A batch is good by parts where each signature is good for its message under its key; a single
/// message or key stands for that of every signature.
pub proof fn law_batch_items_go_together(
    messages: Seq<&[u8]>,
    signatures: Seq<&[u8]>,
    keys: Seq<&[u8]>,
)
    requires
        messages.len() == signatures.len() || messages.len() == 1,
        keys.len() == signatures.len() || keys.len() == 1,
    ensures
        batch_all_valid(messages, signatures, keys) <==> forall|i: int|
            0 <= i < signatures.len() ==> ed25519_valid(
                (if messages.len() == 1 {
                    messages[0]
                } else {
                    messages[i]
                })@,
                (#[trigger] signatures[i])@,
                (if keys.len() == 1 {
                    keys[0]
                } else {
                    keys[i]
                })@,
            ),
        batch_fits(messages.len(), signatures.len(), keys.len()) <==> (messages.len()
            == signatures.len() || messages.len() == 1) && (keys.len() == signatures.len()
            || keys.len() == 1) && (messages.len() == signatures.len() || keys.len()
            == signatures.len()),
{
    let n = signatures.len();
    assert forall|i: int| 0 <= i < n implies #[trigger] batch_item(messages, n, i) == (
    if messages.len() == 1 {
        messages[0]
    } else {
        messages[i]
    })@ by {}
    assert forall|i: int| 0 <= i < n implies #[trigger] batch_item(keys, n, i) == (if keys.len()
        == 1 {
        keys[0]
    } else {
        keys[i]
    })@ by {}
}

/// Bytes are counted lowest first, each worth 256 times the one before it.
pub proof fn law_lowest_byte_first(b: u8, s: Seq<u8>)
    ensures
        le_value(Seq::empty()) == 0,
        le_value(seq![b] + s) == b + 256 * le_value(s),
{
    assert((seq![b] + s).skip(1) =~= s);
}

/// Results are taken as they are.
pub proof fn law_results_of_checks_are_taken_as_they_are(
    valid: bool,
    key: Vec<u8>,
    code: u32,
    e: RecoverPubkeyError,
)
    ensures
        verification_result(Ok(valid)) == Ok::<bool, VerificationError>(valid),
        verification_result(Err(code)) == Err::<bool, VerificationError>(
            VerificationError::of_code(code),
        ),
        recovery_result(Ok(key@)) == Ok::<Seq<u8>, RecoverPubkeyError>(key@),
        recovery_result(Err(code)) == Err::<Seq<u8>, RecoverPubkeyError>(
            RecoverPubkeyError::of_code(code),
        ),
        answers(Ok(valid), valid),
        !answers(Ok(valid), !valid),
        !answers(Err(code), valid),
        fails_with(Err::<bool, u32>(code), code),
        !fails_with(Ok::<bool, u32>(valid), code),
        key_result(Ok(key)) == Ok::<Seq<u8>, u32>(key@),
        key_result(Err(code)) == Err::<Seq<u8>, u32>(code),
        recovered_view(Ok(key)) == Ok::<Seq<u8>, RecoverPubkeyError>(key@),
        recovered_view(Err(e)) == Err::<Seq<u8>, RecoverPubkeyError>(e),
{
}

} // verus!
