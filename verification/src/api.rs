//! Addresses, as people write them and as a chain keeps them, and the checking of signatures.
use crate::backend::{BackendError, BackendErrorView, BackendResult, GasInfo};
use crate::base32::{
    are_groups, bech32_decoded, bech32_encoded, bytes_of, bytes_to_groups, decode, encode,
    groups_of, groups_to_bytes, law_bytes_are_determined, law_groups_are_determined,
    law_regrouping_round_trip, lowercase, regrouped, valid_prefix, Decoded, Variant,
};
use crate::crypto::{
    batch_all_valid, batch_fits, batch_form, batch_format, ed25519_form, ed25519_outcome,
    recover_outcome, recovered_view, recovery_result, secp256k1_outcome, verification_result,
    RecoverPubkeyError, VerificationError,
};
use crate::errors::StdError;
use vstd::prelude::*;

verus! {

/// Gas for writing an address as text.
pub const GAS_COST_HUMANIZE: u64 = 44;

/// Gas for reading an address from text.
pub const GAS_COST_CANONICALIZE: u64 = 55;

/// The prefix of addresses where none is asked for.
pub const BECH32_PREFIX: &'static str = "orai";

#[derive(Copy, Clone)]
enum MockApiImpl {
    /// Every address fails, with this message.
    Error(&'static str),
    /// Addresses are text in Bech32 under this prefix.
    Bech32 { bech32_prefix: &'static str },
}

/// What stands between contracts and the addresses and keys of a chain.
#[derive(Copy, Clone)]
pub struct MockApi(MockApiImpl);

/// What a [`MockApi`] does with addresses.
pub enum ApiView {
    Failing { message: Seq<char> },
    Bech32 { prefix: Seq<char> },
}

impl View for MockApi {
    type V = ApiView;

    closed spec fn view(&self) -> ApiView {
        match self.0 {
            MockApiImpl::Error(message) => ApiView::Failing { message: message@ },
            MockApiImpl::Bech32 { bech32_prefix } => ApiView::Bech32 { prefix: bech32_prefix@ },
        }
    }
}

/// An address of a chain has 1 to 255 bytes.
pub open spec fn valid_length(bytes: Seq<u8>) -> bool {
    1 <= bytes.len() <= 255
}

pub open spec fn user_err(msg: Seq<char>) -> Result<Seq<u8>, BackendErrorView> {
    Err(BackendErrorView::UserErr { msg })
}

/// What reading an address gives, once its text has been decoded, or has not.
pub open spec fn canonical_outcome(
    api: ApiView,
    decoded: Option<(Seq<char>, Seq<u8>, Variant)>,
) -> Result<Seq<u8>, BackendErrorView> {
    match api {
        ApiView::Failing { message } => Err(BackendErrorView::Unknown { msg: message }),
        ApiView::Bech32 { prefix } => match decoded {
            None => user_err("Error decoding bech32"@),
            Some((p, groups, variant)) => if p != prefix {
                user_err("Wrong bech32 prefix"@)
            } else if variant == Variant::Bech32m {
                user_err("Wrong bech32 variant"@)
            } else {
                match bytes_of(groups) {
                    None => user_err("Invalid bech32 data"@),
                    Some(bytes) => if valid_length(bytes) {
                        Ok(bytes)
                    } else {
                        user_err("Invalid canonical address length"@)
                    },
                }
            },
        },
    }
}

/// What writing an address gives.
pub open spec fn human_outcome(api: ApiView, canonical: Seq<u8>) -> Result<
    Seq<char>,
    BackendErrorView,
> {
    match api {
        ApiView::Failing { message } => Err(BackendErrorView::Unknown { msg: message }),
        ApiView::Bech32 { prefix } => if !valid_length(canonical) {
            Err(BackendErrorView::UserErr { msg: "Invalid canonical address length"@ })
        } else if !valid_prefix(prefix) {
            Err(BackendErrorView::UserErr { msg: "Invalid bech32 prefix"@ })
        } else {
            Ok(bech32_encoded(prefix, groups_of(canonical)))
        },
    }
}

/// What reading the text of the address `canonical` gives.
pub open spec fn reread(api: ApiView, canonical: Seq<u8>) -> Result<Seq<u8>, BackendErrorView> {
    match api {
        ApiView::Failing { message } => Err(BackendErrorView::Unknown { msg: message }),
        ApiView::Bech32 { prefix } => if lowercase(prefix) == prefix {
            Ok(canonical)
        } else {
            user_err("Wrong bech32 prefix"@)
        },
    }
}

/// `text` is in lower case and begins with the prefix and a `1`.
pub open spec fn written_under(api: ApiView, text: Seq<char>) -> bool {
    &&& api matches ApiView::Bech32 { prefix } && lowercase(prefix).push('1').is_prefix_of(text)
    &&& lowercase(text) == text
}

/// What checking the text of an address gives: that text, or the message of the error.
pub open spec fn validate_outcome(
    api: ApiView,
    input: Seq<char>,
    decoded: Option<(Seq<char>, Seq<u8>, Variant)>,
) -> Result<Seq<char>, Seq<char>> {
    match canonical_outcome(api, decoded) {
        Err(e) => Err(e.text()),
        Ok(bytes) => match human_outcome(api, bytes) {
            Err(e) => Err(e.text()),
            Ok(text) => if input == text {
                Ok(input)
            } else {
                Err("Invalid input: address not normalized"@)
            },
        },
    }
}

pub open spec fn std_bytes_result(r: Result<Vec<u8>, StdError>) -> Result<Seq<u8>, Seq<char>> {
    match r {
        Ok(v) => Ok(v@),
        Err(e) => Err(e@),
    }
}

pub open spec fn std_text_result(r: Result<String, StdError>) -> Result<Seq<char>, Seq<char>> {
    match r {
        Ok(v) => Ok(v@),
        Err(e) => Err(e@),
    }
}

/// An outcome with the error as a text for people.
pub open spec fn with_text<T>(r: Result<T, BackendErrorView>) -> Result<T, Seq<char>> {
    match r {
        Ok(v) => Ok(v),
        Err(e) => Err(e.text()),
    }
}

pub open spec fn bytes_result(r: Result<Vec<u8>, BackendError>) -> Result<
    Seq<u8>,
    BackendErrorView,
> {
    match r {
        Ok(v) => Ok(v@),
        Err(e) => Err(e@),
    }
}

pub open spec fn text_result(r: Result<String, BackendError>) -> Result<
    Seq<char>,
    BackendErrorView,
> {
    match r {
        Ok(v) => Ok(v@),
        Err(e) => Err(e@),
    }
}

pub open spec fn opt_decoded(d: Option<Decoded>) -> Option<(Seq<char>, Seq<u8>, Variant)> {
    match d {
        Some(x) => Some(x@),
        None => None,
    }
}

/// Checks the number of bytes of an address.
pub fn validate_length(bytes: &[u8]) -> (r: Result<(), BackendError>)
    ensures
        r is Ok <==> valid_length(bytes@),
        r matches Err(e) ==> e@ == (BackendErrorView::UserErr {
            msg: "Invalid canonical address length"@,
        }),
{
    if 1 <= bytes.len() && bytes.len() <= 255 {
        Ok(())
    } else {
        Err(BackendError::user_err("Invalid canonical address length"))
    }
}

impl MockApi {
    /// Fails on every address with this message.
    pub fn new_failing(backend_error: &'static str) -> (r: Self)
        ensures
            r@ == (ApiView::Failing { message: backend_error@ }),
    {
        MockApi(MockApiImpl::Error(backend_error))
    }

    /// Takes and gives addresses under this prefix, whatever was done before.
    pub fn with_prefix(self, prefix: &'static str) -> (r: Self)
        ensures
            r@ == (ApiView::Bech32 { prefix: prefix@ }),
    {
        MockApi(MockApiImpl::Bech32 { bech32_prefix: prefix })
    }

    /// What reading an address gives, once its text has been decoded, or has not.
    pub fn canonical_from_decoded(&self, decoded: Option<Decoded>) -> (r: BackendResult<Vec<u8>>)
        requires
            decoded matches Some(d) ==> are_groups(d.groups@),
        ensures
            bytes_result(r.0) == canonical_outcome(self@, opt_decoded(decoded)),
            r.1 == (GasInfo { cost: GAS_COST_CANONICALIZE, externally_used: 0 }),
    {
        let gas_info = GasInfo::with_cost(GAS_COST_CANONICALIZE);
        let bech32_prefix = match self.0 {
            MockApiImpl::Error(e) => {
                return (Err(BackendError::unknown(e)), gas_info);
            },
            MockApiImpl::Bech32 { bech32_prefix } => bech32_prefix,
        };
        match decoded {
            None => (Err(BackendError::user_err("Error decoding bech32")), gas_info),
            Some(d) => {
                if d.prefix != bech32_prefix.to_owned() {
                    (Err(BackendError::user_err("Wrong bech32 prefix")), gas_info)
                } else if d.variant == Variant::Bech32m {
                    (Err(BackendError::user_err("Wrong bech32 variant")), gas_info)
                } else {
                    match groups_to_bytes(d.groups.as_slice()) {
                        Some(bytes) => match validate_length(bytes.as_slice()) {
                            Ok(()) => (Ok(bytes), gas_info),
                            Err(e) => (Err(e), gas_info),
                        },
                        None => (Err(BackendError::user_err("Invalid bech32 data")), gas_info),
                    }
                }
            },
        }
    }

    /// Reads an address from text. Writing what was read gives the text back, in lower case.
    pub fn canonical_address(&self, input: &str) -> (r: BackendResult<Vec<u8>>)
        ensures
            bytes_result(r.0) == canonical_outcome(self@, bech32_decoded(input@)),
            r.0 matches Ok(bytes) ==> human_outcome(self@, bytes@) == Ok::<
                Seq<char>,
                BackendErrorView,
            >(lowercase(input@)),
            r.0 matches Ok(bytes) ==> {
                &&& 1 <= bytes.len() <= 255
                &&& bech32_decoded(input@) matches Some((_, groups, Variant::Bech32)) && regrouped(
                    bytes@,
                    groups,
                )
            },
            r.1 == (GasInfo { cost: GAS_COST_CANONICALIZE, externally_used: 0 }),
    {
        let decoded = decode(input);
        proof {
            if let Some((_, groups, _)) = opt_decoded(decoded) {
                if bytes_of(groups) is Some {
                    let bytes = choose|bytes: Seq<u8>| regrouped(bytes, groups);
                    law_groups_are_determined(bytes, groups, groups);
                }
            }
        }
        self.canonical_from_decoded(decoded)
    }

    /// Writes an address as text, which is in lower case and begins with the prefix and a `1`.
    /// Where the prefix has no upper case, reading that text gives the address back.
    pub fn human_address(&self, canonical: &[u8]) -> (r: BackendResult<String>)
        ensures
            text_result(r.0) == human_outcome(self@, canonical@),
            r.0 matches Ok(text) ==> canonical_outcome(self@, bech32_decoded(text@)) == reread(
                self@,
                canonical@,
            ),
            r.0 matches Ok(text) ==> written_under(self@, text@),
            r.0 matches Ok(text) ==> {
                &&& 1 <= canonical.len() <= 255
                &&& bech32_decoded(text@) matches Some((_, groups, Variant::Bech32)) && regrouped(
                    canonical@,
                    groups,
                )
            },
            r.1 == (GasInfo { cost: GAS_COST_HUMANIZE, externally_used: 0 }),
    {
        let gas_info = GasInfo::with_cost(GAS_COST_HUMANIZE);
        let bech32_prefix = match self.0 {
            MockApiImpl::Error(e) => {
                return (Err(BackendError::unknown(e)), gas_info);
            },
            MockApiImpl::Bech32 { bech32_prefix } => bech32_prefix,
        };
        if let Err(e) = validate_length(canonical) {
            return (Err(e), gas_info);
        }
        let groups = bytes_to_groups(canonical);
        let result = match encode(bech32_prefix, groups.as_slice()) {
            Some(text) => {
                proof {
                    law_regrouping_round_trip(canonical@);
                }
                Ok(text)
            },
            None => Err(BackendError::user_err("Invalid bech32 prefix")),
        };
        (result, gas_info)
    }
}

/// Takes the text of an address that is written as it should be.
pub fn check_normalized(input: &str, normalized: &String) -> (r: Result<String, StdError>)
    ensures
        std_text_result(r) == (if input@ == normalized@ {
            Ok::<Seq<char>, Seq<char>>(input@)
        } else {
            Err("Invalid input: address not normalized"@)
        }),
{
    let input = input.to_owned();
    if input != *normalized {
        Err(StdError::generic_err("Invalid input: address not normalized".to_owned()))
    } else {
        Ok(input)
    }
}

impl MockApi {
    /// Takes the text of an address that can be read and that is written as it should be: exactly
    /// the texts that can be read and have no upper case.
    pub fn addr_validate(&self, input: &str) -> (r: Result<String, StdError>)
        ensures
            std_text_result(r) == validate_outcome(self@, input@, bech32_decoded(input@)),
            r is Ok <==> canonical_outcome(self@, bech32_decoded(input@)) is Ok && lowercase(input@)
                == input@,
    {
        let canonical = match self.addr_canonicalize(input) {
            Ok(bytes) => bytes,
            Err(e) => {
                return Err(e);
            },
        };
        let normalized = match self.addr_humanize(canonical.as_slice()) {
            Ok(text) => text,
            Err(e) => {
                return Err(e);
            },
        };
        check_normalized(input, &normalized)
    }

    /// Reads an address from text. Writing what was read gives the text back, in lower case.
    pub fn addr_canonicalize(&self, human: &str) -> (r: Result<Vec<u8>, StdError>)
        ensures
            std_bytes_result(r) == with_text(canonical_outcome(self@, bech32_decoded(human@))),
            r matches Ok(bytes) ==> human_outcome(self@, bytes@) == Ok::<
                Seq<char>,
                BackendErrorView,
            >(lowercase(human@)),
    {
        match self.canonical_address(human).0 {
            Ok(addr) => Ok(addr),
            Err(error) => Err(StdError::generic_err(error.to_text())),
        }
    }

    /// Writes an address as text, which is in lower case and begins with the prefix and a `1`. It
    /// is one that [`MockApi::addr_validate`] takes, where the prefix has no upper case.
    pub fn addr_humanize(&self, canonical: &[u8]) -> (r: Result<String, StdError>)
        ensures
            std_text_result(r) == with_text(human_outcome(self@, canonical@)),
            r matches Ok(text) ==> canonical_outcome(self@, bech32_decoded(text@)) == reread(
                self@,
                canonical@,
            ),
            r matches Ok(text) ==> written_under(self@, text@),
            r matches Ok(text) ==> (reread(self@, canonical@) is Ok ==> validate_outcome(
                self@,
                text@,
                bech32_decoded(text@),
            ) == Ok::<Seq<char>, Seq<char>>(text@)),
    {
        match self.human_address(canonical).0 {
            Ok(addr) => Ok(addr),
            Err(error) => Err(StdError::generic_err(error.to_text())),
        }
    }

    /// Checks a signature of the hash of a message.
    pub fn secp256k1_verify(&self, message_hash: &[u8], signature: &[u8], public_key: &[u8]) -> (r:
        Result<bool, VerificationError>)
        ensures
            r == verification_result(secp256k1_outcome(message_hash@, signature@, public_key@)),
    {
        crate::crypto::secp256k1_verify(message_hash, signature, public_key)
    }

    /// Recovers the public key from a signature of the hash of a message.
    pub fn secp256k1_recover_pubkey(
        &self,
        message_hash: &[u8],
        signature: &[u8],
        recovery_param: u8,
    ) -> (r: Result<Vec<u8>, RecoverPubkeyError>)
        ensures
            recovered_view(r) == recovery_result(
                recover_outcome(message_hash@, signature@, recovery_param),
            ),
    {
        crate::crypto::secp256k1_recover_pubkey(message_hash, signature, recovery_param)
    }

    /// Checks a signature of a message.
    pub fn ed25519_verify(&self, message: &[u8], signature: &[u8], public_key: &[u8]) -> (r: Result<
        bool,
        VerificationError,
    >)
        ensures
            r == verification_result(ed25519_outcome(message@, signature@, public_key@)),
            r == Ok::<bool, VerificationError>(true) ==> ed25519_form(signature@, public_key@),
    {
        crate::crypto::ed25519_verify(message, signature, public_key)
    }

    /// Checks many signatures at once. The answer is yes where every signature is good by itself,
    /// and no where some key or signature does not stand for points of the curve and a canonical
    /// number. That it is no where a signature of the right form is bad rests on random numbers
    /// and is not stated.
    pub fn ed25519_batch_verify(
        &self,
        messages: &[&[u8]],
        signatures: &[&[u8]],
        public_keys: &[&[u8]],
    ) -> (r: Result<bool, VerificationError>)
        ensures
            !batch_fits(messages@.len(), signatures@.len(), public_keys@.len()) ==> r == Err::<
                bool,
                VerificationError,
            >(VerificationError::BatchErr),
            batch_fits(messages@.len(), signatures@.len(), public_keys@.len())
                ==> match batch_format(signatures@, public_keys@, 0) {
                Some(code) => r == Err::<bool, VerificationError>(VerificationError::of_code(code)),
                None => r is Ok,
            },
            r is Ok && batch_all_valid(messages@, signatures@, public_keys@) ==> r == Ok::<
                bool,
                VerificationError,
            >(true),
            r == Ok::<bool, VerificationError>(true) ==> batch_form(signatures@, public_keys@),
    {
        crate::crypto::ed25519_batch_verify(messages, signatures, public_keys)
    }
}

impl Default for MockApi {
    fn default() -> (r: Self)
        ensures
            r@ == (ApiView::Bech32 { prefix: BECH32_PREFIX@ }),
    {
        MockApi(MockApiImpl::Bech32 { bech32_prefix: BECH32_PREFIX })
    }
}

/// An interface that was made to fail fails on every address, with its message.
pub proof fn law_failing_always_fails(
    message: Seq<char>,
    decoded: Option<(Seq<char>, Seq<u8>, Variant)>,
    canonical: Seq<u8>,
)
    ensures
        canonical_outcome(ApiView::Failing { message }, decoded) == Err::<
            Seq<u8>,
            BackendErrorView,
        >(BackendErrorView::Unknown { msg: message }),
        human_outcome(ApiView::Failing { message }, canonical) == Err::<
            Seq<char>,
            BackendErrorView,
        >(BackendErrorView::Unknown { msg: message }),
{
}

/// An address that is taken stands for 1 to 255 bytes, and is how those bytes are written.
pub proof fn law_validated_is_normal(
    api: ApiView,
    input: Seq<char>,
    decoded: Option<(Seq<char>, Seq<u8>, Variant)>,
)
    requires
        validate_outcome(api, input, decoded) is Ok,
    ensures
        canonical_outcome(api, decoded) matches Ok(bytes) && valid_length(bytes) && human_outcome(
            api,
            bytes,
        ) == Ok::<Seq<char>, BackendErrorView>(input),
        validate_outcome(api, input, decoded) == Ok::<Seq<char>, Seq<char>>(input),
{
}

/// With a valid prefix in lower case, every address of 1 to 255 bytes can be written, and is read
/// back.
pub proof fn law_prefix_round_trip(prefix: Seq<char>, canonical: Seq<u8>)
    requires
        valid_prefix(prefix),
        lowercase(prefix) == prefix,
        valid_length(canonical),
    ensures
        human_outcome(ApiView::Bech32 { prefix }, canonical) is Ok,
        reread(ApiView::Bech32 { prefix }, canonical) == Ok::<Seq<u8>, BackendErrorView>(canonical),
{
}

/// With the prefix that is used where none is asked for, every address of 1 to 255 bytes can be
/// written, and is read back.
pub proof fn law_default_prefix_round_trip(canonical: Seq<u8>)
    requires
        valid_length(canonical),
    ensures
        human_outcome(ApiView::Bech32 { prefix: BECH32_PREFIX@ }, canonical) is Ok,
        reread(ApiView::Bech32 { prefix: BECH32_PREFIX@ }, canonical) == Ok::<
            Seq<u8>,
            BackendErrorView,
        >(canonical),
{
    reveal_strlit("orai");
    assert(lowercase(BECH32_PREFIX@) =~= BECH32_PREFIX@);
    law_prefix_round_trip(BECH32_PREFIX@, canonical);
}

/// What reading and writing addresses cost.
pub proof fn law_gas_of_addresses()
    ensures
        GAS_COST_HUMANIZE == 44,
        GAS_COST_CANONICALIZE == 55,
        BECH32_PREFIX@ == "orai"@,
{
}

/// An address is read as the very bytes whose bits its groups have, in order: under the right
/// prefix, with the older checksum, and where there are 1 to 255 of them. Other numbers of bytes
/// are refused.
pub proof fn law_reading_keeps_the_bytes(
    prefix: Seq<char>,
    groups: Seq<u8>,
    bytes: Seq<u8>,
)
    requires
        regrouped(bytes, groups),
    ensures
        ({
            let r = canonical_outcome(
                ApiView::Bech32 { prefix },
                Some((prefix, groups, Variant::Bech32)),
            );
            &&& 1 <= bytes.len() <= 255 ==> r == Ok::<Seq<u8>, BackendErrorView>(bytes)
            &&& !(1 <= bytes.len() <= 255) ==> r == Err::<Seq<u8>, BackendErrorView>(
                BackendErrorView::UserErr { msg: "Invalid canonical address length"@ },
            )
        }),
{
    law_bytes_are_determined(bytes, bytes, groups);
}

/// Text that is not in Bech32, has another prefix or the newer checksum, or whose groups have the
/// bits of no bytes, is refused, each for its reason and in this order.
pub proof fn law_reading_refuses(
    prefix: Seq<char>,
    other: Seq<char>,
    groups: Seq<u8>,
    variant: Variant,
)
    ensures
        canonical_outcome(ApiView::Bech32 { prefix }, None) == Err::<Seq<u8>, BackendErrorView>(
            BackendErrorView::UserErr { msg: "Error decoding bech32"@ },
        ),
        other != prefix ==> canonical_outcome(
            ApiView::Bech32 { prefix },
            Some((other, groups, variant)),
        ) == Err::<Seq<u8>, BackendErrorView>(
            BackendErrorView::UserErr { msg: "Wrong bech32 prefix"@ },
        ),
        canonical_outcome(ApiView::Bech32 { prefix }, Some((prefix, groups, Variant::Bech32m)))
            == Err::<Seq<u8>, BackendErrorView>(
            BackendErrorView::UserErr { msg: "Wrong bech32 variant"@ },
        ),
        (forall|bytes: Seq<u8>| !regrouped(bytes, groups)) ==> canonical_outcome(
            ApiView::Bech32 { prefix },
            Some((prefix, groups, Variant::Bech32)),
        ) == Err::<Seq<u8>, BackendErrorView>(
            BackendErrorView::UserErr { msg: "Invalid bech32 data"@ },
        ),
{
}

/// An address is written from the groups that have the bits of its very bytes, in order, under the
/// prefix as it is; other numbers of bytes than 1 to 255 are refused, and then prefixes that are
/// not valid.
pub proof fn law_writing_keeps_the_bytes(
    prefix: Seq<char>,
    canonical: Seq<u8>,
    groups: Seq<u8>,
)
    requires
        regrouped(canonical, groups),
    ensures
        ({
            let r = human_outcome(ApiView::Bech32 { prefix }, canonical);
            &&& !(1 <= canonical.len() <= 255) ==> r == Err::<Seq<char>, BackendErrorView>(
                BackendErrorView::UserErr { msg: "Invalid canonical address length"@ },
            )
            &&& 1 <= canonical.len() <= 255 && !valid_prefix(prefix) ==> r == Err::<
                Seq<char>,
                BackendErrorView,
            >(BackendErrorView::UserErr { msg: "Invalid bech32 prefix"@ })
            &&& 1 <= canonical.len() <= 255 && valid_prefix(prefix) ==> r == Ok::<
                Seq<char>,
                BackendErrorView,
            >(bech32_encoded(prefix, groups))
        }),
{
    law_groups_are_determined(canonical, groups, groups);
}

/// An address is taken exactly where it can be read and writing what was read gives the same text;
/// else the error is that of reading or of writing, or says that the text is not normalized.
pub proof fn law_validation_is_reading_and_writing(
    api: ApiView,
    input: Seq<char>,
    decoded: Option<(Seq<char>, Seq<u8>, Variant)>,
)
    ensures
        match canonical_outcome(api, decoded) {
            Err(e) => validate_outcome(api, input, decoded) == Err::<Seq<char>, Seq<char>>(
                e.text(),
            ),
            Ok(bytes) => match human_outcome(api, bytes) {
                Err(e) => validate_outcome(api, input, decoded) == Err::<Seq<char>, Seq<char>>(
                    e.text(),
                ),
                Ok(text) => {
                    &&& validate_outcome(api, text, decoded) == Ok::<Seq<char>, Seq<char>>(text)
                    &&& input != text ==> validate_outcome(api, input, decoded) == Err::<
                        Seq<char>,
                        Seq<char>,
                    >("Invalid input: address not normalized"@)
                },
            },
        },
{
}

/// Results and errors are taken as they are.
pub proof fn law_results_are_taken_as_they_are(
    bytes: Vec<u8>,
    text: String,
    e: BackendError,
    s: StdError,
    d: Decoded,
)
    ensures
        bytes_result(Ok(bytes)) == Ok::<Seq<u8>, BackendErrorView>(bytes@),
        bytes_result(Err(e)) == Err::<Seq<u8>, BackendErrorView>(e@),
        text_result(Ok(text)) == Ok::<Seq<char>, BackendErrorView>(text@),
        text_result(Err(e)) == Err::<Seq<char>, BackendErrorView>(e@),
        std_bytes_result(Ok(bytes)) == Ok::<Seq<u8>, Seq<char>>(bytes@),
        std_bytes_result(Err(s)) == Err::<Seq<u8>, Seq<char>>(s@),
        std_text_result(Ok(text)) == Ok::<Seq<char>, Seq<char>>(text@),
        std_text_result(Err(s)) == Err::<Seq<char>, Seq<char>>(s@),
        with_text(Ok::<Seq<u8>, BackendErrorView>(bytes@)) == Ok::<Seq<u8>, Seq<char>>(bytes@),
        with_text(Ok::<Seq<char>, BackendErrorView>(text@)) == Ok::<Seq<char>, Seq<char>>(text@),
        with_text(Err::<Seq<u8>, BackendErrorView>(e@)) == Err::<Seq<u8>, Seq<char>>(e@.text()),
        with_text(Err::<Seq<char>, BackendErrorView>(e@)) == Err::<Seq<char>, Seq<char>>(e@.text()),
        opt_decoded(Some(d)) == Some((d.prefix@, d.groups@, d.variant)),
        opt_decoded(None) == None::<(Seq<char>, Seq<u8>, Variant)>,
{
}

} // verus!
