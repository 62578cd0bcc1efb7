//! Attestation providers: the bridge to compute layers that have executions attested, program
//! keys derived and messages signed.

use crate::frost;
use crate::frost::{point_from_slice, verify_bytes};
use crate::hashing;
use crate::hashing::sha256_digest;
use crate::point;
use crate::text;
use crate::text::{append_bytes, joined, push_decimal};
use vstd::bytes::*;
use vstd::prelude::*;
use vstd::string::*;
use vstd::utf8::*;

verus! {

/// That a time lies before another.
#[verifier::external_type_specification]
#[verifier::external_body]
pub struct ExSystemTimeError(std::time::SystemTimeError);

/// `SystemTime::elapsed` of the Unix epoch: the time that has passed since, or an error where
/// the clock stands before it. It depends on the clock, so nothing is said of it.
#[verifier::external_body]
fn elapsed_since_epoch() -> (r: core::result::Result<
    std::time::Duration,
    std::time::SystemTimeError,
>) {
    std::time::SystemTime::UNIX_EPOCH.elapsed()
}

/// The whole milliseconds of a span of time: what `Duration::as_millis` returns.
pub uninterp spec fn span_millis(span: std::time::Duration) -> u128;

/// `Duration::as_millis`: the whole milliseconds of a span, a function of the span.
pub assume_specification[ std::time::Duration::as_millis ](d: &std::time::Duration) -> (r: u128)
    ensures
        r == span_millis(*d),
;

/// The milliseconds since the Unix epoch, given the time that has passed since or that the clock
/// stands before it: the lower 64 bits of the span's milliseconds, or zero.
pub open spec fn epoch_millis(
    elapsed: core::result::Result<std::time::Duration, std::time::SystemTimeError>,
) -> u64 {
    match elapsed {
        Ok(span) => (span_millis(span) % 0x1_0000_0000_0000_0000) as u64,
        Err(_) => 0,
    }
}

/// The milliseconds since the Unix epoch, given the time that has passed since or that the clock
/// stands before it.
pub fn millis_since_epoch(
    elapsed: core::result::Result<std::time::Duration, std::time::SystemTimeError>,
) -> (r: u64)
    ensures
        r == epoch_millis(elapsed),
{
    match elapsed {
        Ok(span) => {
            let ms: u128 = span.as_millis();
            assert(ms as u64 == ms % 0x1_0000_0000_0000_0000) by (bit_vector);
            #[verifier::truncate]
            (ms as u64)
        },
        Err(_) => 0,
    }
}

/// The milliseconds since the Unix epoch, as the clock tells it.
fn current_time_ms() -> (r: u64)
    ensures
        exists|elapsed: core::result::Result<std::time::Duration, std::time::SystemTimeError>|
            r == #[trigger] epoch_millis(elapsed),
{
    let elapsed = elapsed_since_epoch();
    let r = millis_since_epoch(elapsed);
    r
}

/// An execution attestation: a threshold signature over what a program made of an input.
#[derive(Clone, Debug)]
pub struct ExecutionAttestation {
    /// The content id of the program.
    pub program_cid: String,
    /// The SHA-256 digest of the input.
    pub input_hash: [u8; 32],
    /// The SHA-256 digest of the output.
    pub output_hash: [u8; 32],
    /// The Unix time in milliseconds.
    pub timestamp_ms: u64,
    /// The signature.
    pub signature: Vec<u8>,
    /// The group key that verifies the signature.
    pub group_public_key: Vec<u8>,
}

/// The bytes that are signed to attest an execution.
pub open spec fn execution_bytes(
    program_cid: Seq<char>,
    input_hash: Seq<u8>,
    output_hash: Seq<u8>,
    timestamp_ms: u64,
) -> Seq<u8> {
    encode_utf8("CraftSEC-ExecAttest-v1"@) + encode_utf8(program_cid) + input_hash + output_hash
        + spec_u64_to_le_bytes(timestamp_ms)
}

/// The mock provider's signature of bytes: a digest that anyone can compute.
pub open spec fn mock_signature(signed: Seq<u8>) -> Seq<u8> {
    hashing::sha256(signed + encode_utf8("mock-secret"@))
}

/// The mock provider's signature of bytes.
fn mock_digest(signed: &[u8]) -> (r: [u8; 32])
    ensures
        r@ == mock_signature(signed@),
{
    let mut data: Vec<u8> = Vec::new();
    append_bytes(&mut data, signed);
    append_bytes(&mut data, "mock-secret".as_bytes());
    assert(data@ =~= signed@ + encode_utf8("mock-secret"@));
    sha256_digest(data.as_slice())
}

/// Whether two lists of bytes are equal.
fn same_bytes(a: &[u8], b: &[u8]) -> (r: bool)
    ensures
        r == (a@ == b@),
{
    if a.len() != b.len() {
        return false;
    }
    let mut k: usize = 0;
    while k < a.len()
        invariant
            k <= a@.len(),
            a@.len() == b@.len(),
            forall|i: int| 0 <= i < k ==> #[trigger] a@[i] == b@[i],
        decreases a@.len() - k,
    {
        if a[k] != b[k] {
            return false;
        }
        k = k + 1;
    }
    assert(a@ =~= b@);
    true
}

impl ExecutionAttestation {
    /// The bytes that are signed.
    pub fn signing_bytes(
        program_cid: &str,
        input_hash: &[u8; 32],
        output_hash: &[u8; 32],
        timestamp_ms: u64,
    ) -> (r: Vec<u8>)
        ensures
            r@ == execution_bytes(program_cid@, input_hash@, output_hash@, timestamp_ms),
            r@ == encode_utf8("CraftSEC-ExecAttest-v1"@) + encode_utf8(program_cid@) + input_hash@
                + output_hash@ + spec_u64_to_le_bytes(timestamp_ms),
    {
        let mut data: Vec<u8> = Vec::new();
        append_bytes(&mut data, "CraftSEC-ExecAttest-v1".as_bytes());
        append_bytes(&mut data, program_cid.as_bytes());
        append_bytes(&mut data, input_hash);
        append_bytes(&mut data, output_hash);
        let timestamp_bytes = u64_to_le_bytes(timestamp_ms);
        append_bytes(&mut data, timestamp_bytes.as_slice());
        assert(data@ =~= execution_bytes(
            program_cid@,
            input_hash@,
            output_hash@,
            timestamp_ms,
        ));
        data
    }

    /// The bytes that the attestation's own fields give to sign.
    pub open spec fn signed(self) -> Seq<u8> {
        execution_bytes(
            self.program_cid@,
            self.input_hash@,
            self.output_hash@,
            self.timestamp_ms,
        )
    }

    /// The signature belongs to the attestation's own signed bytes: it is the one that the mock
    /// provider makes of them, or one that is valid for them under the group key.
    pub open spec fn is_signed(self) -> bool {
        ||| self.signature@ == mock_signature(self.signed())
        ||| self.group_public_key@.len() == 32 && point::decoded(self.group_public_key@) is Some
            && frost::accepts_bytes(
            self.signature@,
            point::element(point::decoded(self.group_public_key@)->0),
            self.signed(),
        )
    }

    /// The attestation is consistent: neither the signature nor the group key is missing, and the
    /// signature belongs to the attestation's own signed bytes.
    pub fn verify_structure(&self) -> (r: bool)
        ensures
            r == (self.signature@.len() > 0 && self.group_public_key@.len() > 0
                && self.is_signed()),
    {
        if self.signature.len() == 0 || self.group_public_key.len() == 0 {
            return false;
        }
        let message = ExecutionAttestation::signing_bytes(
            self.program_cid.as_str(),
            &self.input_hash,
            &self.output_hash,
            self.timestamp_ms,
        );
        let mock = mock_digest(message.as_slice());
        if same_bytes(self.signature.as_slice(), &mock) {
            return true;
        }
        match point_from_slice(self.group_public_key.as_slice()) {
            Some(key) => verify_bytes(self.signature.as_slice(), &key, message.as_slice()),
            None => false,
        }
    }
}

/// Different programs, inputs, outputs or times give different bytes to sign.
pub proof fn law_execution_bytes_injective(
    program_cid: Seq<char>,
    input_hash: [u8; 32],
    output_hash: [u8; 32],
    timestamp_ms: u64,
    other_cid: Seq<char>,
    other_input: [u8; 32],
    other_output: [u8; 32],
    other_time: u64,
)
    requires
        execution_bytes(program_cid, input_hash@, output_hash@, timestamp_ms) == execution_bytes(
            other_cid,
            other_input@,
            other_output@,
            other_time,
        ),
    ensures
        program_cid == other_cid,
        input_hash == other_input,
        output_hash == other_output,
        timestamp_ms == other_time,
{
    lemma_auto_spec_u64_to_from_le_bytes();
    let p = encode_utf8("CraftSEC-ExecAttest-v1"@);
    let w = execution_bytes(program_cid, input_hash@, output_hash@, timestamp_ms);
    let v = execution_bytes(other_cid, other_input@, other_output@, other_time);
    let x = encode_utf8(program_cid);
    let y = encode_utf8(other_cid);
    assert(spec_u64_to_le_bytes(timestamp_ms).len() == 8);
    assert(spec_u64_to_le_bytes(other_time).len() == 8);
    assert(w.len() == p.len() + x.len() + 64 + 8);
    assert(v.len() == p.len() + y.len() + 64 + 8);
    let s = (p.len() + x.len()) as int;
    assert(x =~= w.subrange(p.len() as int, s));
    assert(y =~= v.subrange(p.len() as int, s));
    assert(input_hash@ =~= w.subrange(s, s + 32));
    assert(other_input@ =~= v.subrange(s, s + 32));
    assert(output_hash@ =~= w.subrange(s + 32, s + 64));
    assert(other_output@ =~= v.subrange(s + 32, s + 64));
    assert(spec_u64_to_le_bytes(timestamp_ms) =~= w.skip(s + 64));
    assert(spec_u64_to_le_bytes(other_time) =~= v.skip(s + 64));
    assert(input_hash =~= other_input);
    assert(output_hash =~= other_output);
    text::lemma_utf8_injective(program_cid, other_cid);
}

/// A program's public key.
#[derive(Clone, Debug)]
pub struct ProgramKey {
    /// The content id of the program.
    pub program_cid: String,
    /// The public key.
    pub public_key: Vec<u8>,
}

/// A threshold signature on behalf of a program.
#[derive(Clone, Debug)]
pub struct ProgramSignature {
    /// The content id of the program.
    pub program_cid: String,
    /// The message that was signed.
    pub message: Vec<u8>,
    /// The signature.
    pub signature: Vec<u8>,
}

/// What can go wrong at a provider.
#[derive(Debug)]
pub enum AttestationError {
    /// Too few nodes agree.
    ThresholdNotMet { need: u32, have: u32 },
    /// The program is unknown.
    ProgramNotFound(String),
    /// The signature could not be made.
    SigningFailed(String),
    /// The key could not be derived.
    KeyDerivationFailed(String),
}

impl AttestationError {
    /// The message that describes the error.
    pub open spec fn message(self) -> Seq<char> {
        match self {
            AttestationError::ThresholdNotMet { need, have } => "threshold not met: need "@
                + text::decimal(need as nat) + ", have "@ + text::decimal(have as nat),
            AttestationError::ProgramNotFound(s) => "program not found: "@ + s@,
            AttestationError::SigningFailed(s) => "signing failed: "@ + s@,
            AttestationError::KeyDerivationFailed(s) => "key derivation failed: "@ + s@,
        }
    }

    /// The message that describes the error, as text.
    pub fn to_text(&self) -> (r: String)
        ensures
            r@ == self.message(),
    {
        match self {
            AttestationError::ThresholdNotMet { need, have } => {
                let mut r = "threshold not met: need ".to_owned();
                push_decimal(&mut r, *need as u64);
                r.append(", have ");
                push_decimal(&mut r, *have as u64);
                r
            },
            AttestationError::ProgramNotFound(s) => joined("program not found: ", s),
            AttestationError::SigningFailed(s) => joined("signing failed: ", s),
            AttestationError::KeyDerivationFailed(s) => joined("key derivation failed: ", s),
        }
    }
}

/// What a compute layer asks for, whichever signature scheme answers it.
pub trait AttestationProvider: Send + Sync {
    /// Attests that a program made the output of the input.
    fn attest_execution(&self, program_cid: &str, input: &[u8], output: &[u8]) -> core::result::Result<
        ExecutionAttestation,
        AttestationError,
    >;

    /// The public key of a program.
    fn derive_program_key(&self, program_cid: &str) -> core::result::Result<
        ProgramKey,
        AttestationError,
    >;

    /// Signs a message on behalf of a program.
    fn sign_as_program(&self, program_cid: &str, message: &[u8]) -> core::result::Result<
        ProgramSignature,
        AttestationError,
    >;
}

/// The SHA-256 digest of bytes.
pub fn hash_bytes(data: &[u8]) -> (r: [u8; 32])
    ensures
        r@ == hashing::sha256(data@),
{
    sha256_digest(data)
}

/// A provider for tests and development: its signatures are digests that anyone can compute.
#[derive(Clone, Debug)]
pub struct MockAttestationProvider {
    /// The threshold it pretends to have.
    pub threshold: u32,
    /// The number of nodes it pretends to have.
    pub total: u32,
}

/// The attestation that the mock provider makes at the attestation's own time.
pub open spec fn is_mock_attestation(
    a: ExecutionAttestation,
    program_cid: Seq<char>,
    input: Seq<u8>,
    output: Seq<u8>,
) -> bool {
    &&& a.program_cid@ == program_cid
    &&& a.input_hash@ == hashing::sha256(input)
    &&& a.output_hash@ == hashing::sha256(output)
    &&& a.signature@ == mock_signature(
        execution_bytes(
            program_cid,
            hashing::sha256(input),
            hashing::sha256(output),
            a.timestamp_ms,
        ),
    )
    &&& a.group_public_key@ == hashing::sha256(encode_utf8(program_cid))
    &&& a.signature@.len() == 32
    &&& a.group_public_key@.len() == 32
}

/// The key that the mock provider derives for a program.
pub open spec fn is_mock_key(k: ProgramKey, program_cid: Seq<char>) -> bool {
    &&& k.program_cid@ == program_cid
    &&& k.public_key@ == hashing::sha256(
        encode_utf8("CraftSEC-PDK-mock"@) + encode_utf8(program_cid),
    )
    &&& k.public_key@.len() == 32
}

/// The signature that the mock provider makes on behalf of a program.
pub open spec fn is_mock_program_signature(
    s: ProgramSignature,
    program_cid: Seq<char>,
    message: Seq<u8>,
) -> bool {
    &&& s.program_cid@ == program_cid
    &&& s.message@ == message
    &&& s.signature@ == hashing::sha256(
        encode_utf8("CraftSEC-ProgramSig-mock"@) + encode_utf8(program_cid) + message,
    )
    &&& s.signature@.len() == 32
}

/// The mock provider's keys depend on the program alone.
pub proof fn law_mock_keys_deterministic(a: ProgramKey, b: ProgramKey, program_cid: Seq<char>)
    requires
        is_mock_key(a, program_cid),
        is_mock_key(b, program_cid),
    ensures
        a.program_cid@ == b.program_cid@,
        a.public_key@ == b.public_key@,
{
}

/// The mock provider's signatures depend on the program and the message alone.
pub proof fn law_mock_signatures_deterministic(
    a: ProgramSignature,
    b: ProgramSignature,
    program_cid: Seq<char>,
    message: Seq<u8>,
)
    requires
        is_mock_program_signature(a, program_cid, message),
        is_mock_program_signature(b, program_cid, message),
    ensures
        a.program_cid@ == b.program_cid@,
        a.message@ == b.message@,
        a.signature@ == b.signature@,
{
}

/// The mock provider's attestations are consistent.
pub proof fn law_mock_attestations_signed(
    a: ExecutionAttestation,
    program_cid: Seq<char>,
    input: Seq<u8>,
    output: Seq<u8>,
)
    requires
        is_mock_attestation(a, program_cid, input, output),
    ensures
        a.is_signed(),
{
}

impl MockAttestationProvider {
    /// A provider that pretends to the given configuration.
    pub fn new(threshold: u32, total: u32) -> (r: MockAttestationProvider)
        ensures
            r.threshold == threshold,
            r.total == total,
    {
        MockAttestationProvider { threshold, total }
    }

    /// The attestation that is made at a given time.
    pub fn attest_execution_at(
        program_cid: &str,
        input: &[u8],
        output: &[u8],
        timestamp_ms: u64,
    ) -> (r: ExecutionAttestation)
        ensures
            r.timestamp_ms == timestamp_ms,
            is_mock_attestation(r, program_cid@, input@, output@),
    {
        let input_hash = hash_bytes(input);
        let output_hash = hash_bytes(output);
        let signed = ExecutionAttestation::signing_bytes(
            program_cid,
            &input_hash,
            &output_hash,
            timestamp_ms,
        );
        let signature_digest = mock_digest(signed.as_slice());
        let key_digest = sha256_digest(program_cid.as_bytes());
        let mut signature: Vec<u8> = Vec::new();
        append_bytes(&mut signature, &signature_digest);
        let mut group_public_key: Vec<u8> = Vec::new();
        append_bytes(&mut group_public_key, &key_digest);
        assert(signature@ =~= signature_digest@);
        assert(group_public_key@ =~= key_digest@);
        ExecutionAttestation {
            program_cid: program_cid.to_owned(),
            input_hash,
            output_hash,
            timestamp_ms,
            signature,
            group_public_key,
        }
    }
}

impl Default for MockAttestationProvider {
    fn default() -> (r: MockAttestationProvider)
        ensures
            r.threshold == 2,
            r.total == 3,
    {
        MockAttestationProvider::new(2, 3)
    }
}

impl AttestationProvider for MockAttestationProvider {
    fn attest_execution(&self, program_cid: &str, input: &[u8], output: &[u8]) -> (r: core::result::Result<
        ExecutionAttestation,
        AttestationError,
    >)
        ensures
            r matches Ok(a) && is_mock_attestation(a, program_cid@, input@, output@),
    {
        let timestamp_ms = current_time_ms();
        Ok(MockAttestationProvider::attest_execution_at(program_cid, input, output, timestamp_ms))
    }

    fn derive_program_key(&self, program_cid: &str) -> (r: core::result::Result<
        ProgramKey,
        AttestationError,
    >)
        ensures
            r matches Ok(k) && is_mock_key(k, program_cid@),
    {
        let mut data: Vec<u8> = Vec::new();
        append_bytes(&mut data, "CraftSEC-PDK-mock".as_bytes());
        append_bytes(&mut data, program_cid.as_bytes());
        assert(data@ =~= encode_utf8("CraftSEC-PDK-mock"@) + encode_utf8(program_cid@));
        let digest = sha256_digest(data.as_slice());
        let mut public_key: Vec<u8> = Vec::new();
        append_bytes(&mut public_key, &digest);
        assert(public_key@ =~= digest@);
        Ok(ProgramKey { program_cid: program_cid.to_owned(), public_key })
    }

    fn sign_as_program(&self, program_cid: &str, message: &[u8]) -> (r: core::result::Result<
        ProgramSignature,
        AttestationError,
    >)
        ensures
            r matches Ok(s) && is_mock_program_signature(s, program_cid@, message@),
    {
        let mut data: Vec<u8> = Vec::new();
        append_bytes(&mut data, "CraftSEC-ProgramSig-mock".as_bytes());
        append_bytes(&mut data, program_cid.as_bytes());
        append_bytes(&mut data, message);
        assert(data@ =~= encode_utf8("CraftSEC-ProgramSig-mock"@) + encode_utf8(program_cid@)
            + message@);
        let digest = sha256_digest(data.as_slice());
        let mut signature: Vec<u8> = Vec::new();
        append_bytes(&mut signature, &digest);
        let mut copy: Vec<u8> = Vec::new();
        append_bytes(&mut copy, message);
        assert(signature@ =~= digest@);
        assert(copy@ =~= message@);
        Ok(ProgramSignature { program_cid: program_cid.to_owned(), message: copy, signature })
    }
}

/// A signature of an execution covers all that the attestation says: it is a digest of the
/// program, the digests of the input and the output and the time, or a threshold signature that is
/// valid for these under the group key.
pub proof fn law_signature_covers_execution(a: ExecutionAttestation, message: Seq<u8>)
    requires
        message == encode_utf8("CraftSEC-ExecAttest-v1"@) + encode_utf8(a.program_cid@)
            + a.input_hash@ + a.output_hash@ + spec_u64_to_le_bytes(a.timestamp_ms),
    ensures
        a.is_signed() <==> a.signature@ == hashing::sha256(message + encode_utf8("mock-secret"@))
            || (a.group_public_key@.len() == 32 && point::decoded(a.group_public_key@) is Some
            && frost::accepts_bytes(
            a.signature@,
            point::element(point::decoded(a.group_public_key@)->0),
            message,
        )),
{
}

/// A tampered attestation is found out: where two attestations that differ in the program, in a
/// digest or in the time carry the same digest for a signature, two different byte strings have the
/// same SHA-256 digest.
pub proof fn law_tampered_execution_needs_collision(
    a: ExecutionAttestation,
    b: ExecutionAttestation,
)
    requires
        a.signature@ == mock_signature(a.signed()),
        b.signature@ == mock_signature(b.signed()),
        a.signature@ == b.signature@,
        a.program_cid@ != b.program_cid@ || a.input_hash != b.input_hash || a.output_hash
            != b.output_hash || a.timestamp_ms != b.timestamp_ms,
    ensures
        exists|x: Seq<u8>, y: Seq<u8>|
            x != y && #[trigger] hashing::sha256(x) == #[trigger] hashing::sha256(y),
{
    let x = a.signed() + encode_utf8("mock-secret"@);
    let y = b.signed() + encode_utf8("mock-secret"@);
    if x == y {
        let n = encode_utf8("mock-secret"@).len();
        assert(a.signed() =~= x.take(x.len() - n));
        assert(b.signed() =~= y.take(y.len() - n));
        law_execution_bytes_injective(
            a.program_cid@,
            a.input_hash,
            a.output_hash,
            a.timestamp_ms,
            b.program_cid@,
            b.input_hash,
            b.output_hash,
            b.timestamp_ms,
        );
    }
    assert(hashing::sha256(x) == hashing::sha256(y));
}

/// The mock provider attests what it is given: the digests are those of the whole input and the
/// whole output.
pub proof fn law_mock_attests_what_is_given(
    a: ExecutionAttestation,
    program_cid: Seq<char>,
    input: Seq<u8>,
    output: Seq<u8>,
)
    requires
        is_mock_attestation(a, program_cid, input, output),
    ensures
        a.program_cid@ == program_cid,
        a.input_hash@ == hashing::sha256(input),
        a.output_hash@ == hashing::sha256(output),
        a.group_public_key@ == hashing::sha256(encode_utf8(program_cid)),
        a.signature@ == hashing::sha256(
            encode_utf8("CraftSEC-ExecAttest-v1"@) + encode_utf8(program_cid) + hashing::sha256(
                input,
            ) + hashing::sha256(output) + spec_u64_to_le_bytes(a.timestamp_ms) + encode_utf8(
                "mock-secret"@,
            ),
        ),
{
}

/// The mock provider's keys and signatures are digests of all that they are for: programs or
/// messages that share one share a digest of the whole.
pub proof fn law_mock_digests_cover_all(
    k: ProgramKey,
    s: ProgramSignature,
    program_cid: Seq<char>,
    message: Seq<u8>,
    other_cid: Seq<char>,
    other_message: Seq<u8>,
)
    requires
        is_mock_key(k, program_cid),
        is_mock_program_signature(s, program_cid, message),
    ensures
        is_mock_key(k, other_cid) ==> hashing::sha256(
            encode_utf8("CraftSEC-PDK-mock"@) + encode_utf8(program_cid),
        ) == hashing::sha256(encode_utf8("CraftSEC-PDK-mock"@) + encode_utf8(other_cid)),
        k.public_key@ == hashing::sha256(
            encode_utf8("CraftSEC-PDK-mock"@) + encode_utf8(program_cid),
        ),
        is_mock_program_signature(s, other_cid, other_message) ==> program_cid == other_cid
            && message == other_message,
        s.signature@ == hashing::sha256(
            encode_utf8("CraftSEC-ProgramSig-mock"@) + encode_utf8(program_cid) + message,
        ),
{
}

/// Messages tell what went wrong at a provider in full.
pub proof fn law_provider_messages(s: String, need: u32, have: u32)
    ensures
        (AttestationError::ThresholdNotMet { need, have }).message() == "threshold not met: need "@
            + text::decimal(need as nat) + ", have "@ + text::decimal(have as nat),
        AttestationError::ProgramNotFound(s).message() == "program not found: "@ + s@,
        AttestationError::SigningFailed(s).message() == "signing failed: "@ + s@,
        AttestationError::KeyDerivationFailed(s).message() == "key derivation failed: "@ + s@,
{
}

/// The time in milliseconds is the span since the epoch as far as 64 bits hold it, and zero before
/// the epoch.
pub proof fn law_time_since_epoch(
    elapsed: core::result::Result<std::time::Duration, std::time::SystemTimeError>,
)
    ensures
        elapsed matches Ok(span) ==> epoch_millis(elapsed) == span_millis(span)
            % 0x1_0000_0000_0000_0000,
        elapsed matches Ok(span) ==> span_millis(span) <= u64::MAX ==> epoch_millis(elapsed)
            == span_millis(span),
        elapsed is Err ==> epoch_millis(elapsed) == 0,
{
}

} // verus!
