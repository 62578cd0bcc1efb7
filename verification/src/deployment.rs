//! Programs deployed on one machine: content ids, and attestation by nodes of its own.

use crate::client;
use crate::client::{AttestedTransaction, CraftSecClient};
use crate::error::{CraftSecError, Result};
use crate::executor;
use crate::executor::ProgramRegistry;
use crate::feldman;
use crate::hashing;
use crate::hashing::{hex_encode, sha256_digest};
use crate::interpolation;
use crate::json;
use crate::json::Json;
use crate::model;
use crate::model::{AttestationRequest, AttestationResult, KeyShare, ThresholdConfig};
use crate::node::CraftSecNode;
use crate::pdk;
use crate::pdk::derive_key;
use crate::point;
use crate::point::EdwardsPoint;
use crate::text;
use crate::text::{joined, joined_decimal};
use crate::transport;
use crate::transport::{os_random_blocks, SeededTransport};
use vstd::prelude::*;
use vstd::slice::slice_subrange;
use vstd::string::*;

verus! {

/// The content id of a program: the first sixteen hexadecimal digits of its SHA-256 digest.
pub fn compute_cid(data: &[u8]) -> (r: String)
    ensures
        r@ == "Qm_"@ + hashing::hex_text(hashing::sha256(data@)).take(16),
{
    let digest = sha256_digest(data);
    let hash = hex_encode(slice_subrange(&digest, 0, 8));
    assert(hash@ =~= hashing::hex_text(hashing::sha256(data@)).take(16));
    joined("Qm_", hash.as_str())
}

/// A point's encoding in hexadecimal.
pub fn point_hex(p: &EdwardsPoint) -> (r: String)
    ensures
        r@ == hashing::hex_text(p@.encoding()),
{
    let bytes = p.to_bytes();
    hex_encode(&bytes)
}

/// A request of the command line's user, given the arguments as JSON text and a number for the
/// request's id, or why the arguments cannot be read.
pub fn local_request(program_cid: &str, args_json: &str, number: u32) -> (r: core::result::Result<
    AttestationRequest,
    String,
>)
    ensures
        match r {
            Ok(request) => {
                &&& json::parsed(args_json@) == Ok::<json::JsonModel, Seq<char>>(request.args@)
                &&& request.program_cid@ == program_cid@
                &&& request.requester@ == "did:cli-user"@
                &&& request.request_id@ == "cli-"@ + text::decimal(number as nat)
            },
            Err(e) => json::parsed(args_json@) == Err::<json::JsonModel, Seq<char>>(e@),
        },
{
    match Json::parse(args_json) {
        Ok(args) => Ok(
            AttestationRequest {
                program_cid: program_cid.to_owned(),
                requester: "did:cli-user".to_owned(),
                args,
                request_id: joined_decimal("cli-", number as u64),
            },
        ),
        Err(e) => Err(e),
    }
}

/// The nodes that share a program's key, each with a validator of the program.
pub fn program_nodes<F: Fn(&AttestationRequest) -> Result<AttestationResult> + Copy>(
    program_cid: &str,
    shares: &Vec<KeyShare>,
    validator: F,
) -> (r: Vec<CraftSecNode<ProgramRegistry<F>>>)
    requires
        executor::accepts_requests(validator),
    ensures
        r@.len() == shares@.len(),
        forall|i: int|
            0 <= i < r@.len() ==> model::same_share((#[trigger] r@[i]).key_share, shares@[i])
                && r@[i].key_shares@ == Map::<Seq<char>, KeyShare>::empty()
                && r@[i].frozen_programs@ == Set::<Seq<char>>::empty()
                && r@[i].registry.programs() == Map::<Seq<char>, F>::empty().insert(
                program_cid@,
                validator,
            ),
{
    let mut nodes: Vec<CraftSecNode<ProgramRegistry<F>>> = Vec::new();
    let mut k: usize = 0;
    while k < shares.len()
        invariant
            k <= shares@.len(),
            executor::accepts_requests(validator),
            nodes@.len() == k,
            forall|i: int|
                0 <= i < k ==> model::same_share((#[trigger] nodes@[i]).key_share, shares@[i])
                    && nodes@[i].key_shares@ == Map::<Seq<char>, KeyShare>::empty()
                    && nodes@[i].frozen_programs@ == Set::<Seq<char>>::empty()
                    && nodes@[i].registry.programs() == Map::<Seq<char>, F>::empty().insert(
                    program_cid@,
                    validator,
                ),
        decreases shares@.len() - k,
    {
        let mut registry: ProgramRegistry<F> = ProgramRegistry::new();
        registry.register(program_cid.to_owned(), validator);
        nodes.push(CraftSecNode::new(shares[k].clone(), registry));
        k = k + 1;
    }
    nodes
}

/// A validator says of a request that it is valid, whatever it says in particular.
pub open spec fn always_valid<F: Fn(&AttestationRequest) -> Result<AttestationResult>>(
    validator: F,
    request: AttestationRequest,
) -> bool {
    forall|outcome: Result<AttestationResult>| #[trigger]
        call_ensures(validator, (&request,), outcome) ==> outcome matches Ok(
            AttestationResult::Valid(_),
        )
}

/// A validator never says of a request that it is valid.
pub open spec fn never_valid<F: Fn(&AttestationRequest) -> Result<AttestationResult>>(
    validator: F,
    request: AttestationRequest,
) -> bool {
    forall|outcome: Result<AttestationResult>| #[trigger]
        call_ensures(validator, (&request,), outcome) ==> !(outcome matches Ok(
            AttestationResult::Valid(_),
        ))
}

/// What comes of attesting a request by three nodes that share the key derived from the program's
/// content id, two of which sign, with given random blocks: a transaction that the validator has
/// made of the request, or a refusal because too few nodes find it valid or there are too few
/// blocks.
pub open spec fn attests_locally<F: Fn(&AttestationRequest) -> Result<AttestationResult>>(
    request: AttestationRequest,
    validator: F,
    blocks: Seq<[u8; 64]>,
    r: Result<AttestedTransaction>,
) -> bool {
    &&& match r {
        Ok(attested) => {
            &&& attested.valid()
            &&& attested.group_public_key@ == point::base_times(
                pdk::derived_polynomial(request.program_cid@, "main"@, 2)[0],
            )
            &&& call_ensures(
                validator,
                (&request,),
                Ok(AttestationResult::Valid(attested.transaction)),
            )
        },
        Err(e) => e matches CraftSecError::InsufficientShares { have, need } && have < 2 && need
            == 2,
    }
    &&& always_valid(validator, request) && blocks.len() >= 4 ==> r is Ok
    &&& never_valid(validator, request) ==> (r matches Err(
        CraftSecError::InsufficientShares { have, need },
    ) && have == 0)
}

/// Attests a request by three nodes that share the key derived from the program's content id, two
/// of which sign, with given random blocks, two for each of them.
pub fn attest_locally_with<F: Fn(&AttestationRequest) -> Result<AttestationResult> + Copy>(
    request: &AttestationRequest,
    validator: F,
    blocks: &[[u8; 64]],
) -> (r: Result<AttestedTransaction>)
    requires
        executor::accepts_requests(validator),
    ensures
        attests_locally(*request, validator, blocks@, r),
{
    let config = ThresholdConfig { threshold: 2, total: 3 };
    let (key, shares) = derive_key(request.program_cid.as_str(), "main", &config)?;
    let nodes = program_nodes(request.program_cid.as_str(), &shares, validator);
    let mut drawn: Vec<[u8; 64]> = Vec::new();
    let mut k: usize = 0;
    while k < blocks.len()
        invariant
            k <= blocks@.len(),
            drawn@ == blocks@.take(k as int),
        decreases blocks@.len() - k,
    {
        drawn.push(blocks[k]);
        k = k + 1;
        assert(drawn@ =~= blocks@.take(k as int));
    }
    assert(drawn@ =~= blocks@);
    let seeded = SeededTransport::new(nodes, drawn);
    let ghost before = seeded;
    let mut local = CraftSecClient::new(seeded, key, 2, 3);
    let r = local.attest(request);
    proof {
        let f = pdk::derived_polynomial(request.program_cid@, "main"@, 2);
        let cid = request.program_cid@;
        let (first, second, between, attempts) = choose|
            first: Seq<Result<client::Round1Response>>,
            second: Seq<Result<client::Round2Response>>,
            between: SeededTransport<ProgramRegistry<F>>,
            attempts: Seq<client::Attempt>,
        |
            client::asked(first, 2, 3) && client::exchanged(
                before,
                *request,
                first,
                second,
                between,
            ) && #[trigger] client::attests(
                2,
                3,
                key,
                *request,
                first,
                second,
                between,
                attempts,
                local.transport,
                r,
            );
        assert(feldman::shares_of(transport::held_shares(before.nodes()), f)) by {
            assert forall|i: int| 0 <= i < 3 implies feldman::share_of(
                #[trigger] transport::held_shares(before.nodes())[i],
                i,
                3,
                f,
            ) by {
                assert(feldman::share_of(shares@[i], i, 3, f));
                assert(model::same_share(before.nodes()[i].key_share, shares@[i]));
            }
        }
        assert forall|i: int| 0 <= i < before.nodes().len() implies !(
        #[trigger] before.nodes()[i]).key_shares@.dom().contains(cid) by {
            assert(before.nodes()[i].key_shares@ == Map::<Seq<char>, KeyShare>::empty());
        }
        interpolation::lemma_value_at_zero(f);
        assert forall|i: int| 0 <= i < 3 && always_valid(
            validator,
            *request,
        ) implies transport::willing(#[trigger] before.nodes()[i], *request) by {
            assert(before.nodes()[i].registry.programs()[cid] == validator);
        }
        assert forall|i: int| 0 <= i < 3 && never_valid(
            validator,
            *request,
        ) implies transport::unwilling(#[trigger] before.nodes()[i], *request) by {
            assert(before.nodes()[i].registry.programs()[cid] == validator);
        }
        transport::law_seeded_attestation(
            before,
            *request,
            first,
            second,
            between,
            attempts,
            local.transport,
            f,
            2,
            3,
            key,
            r,
        );
        if r is Ok {
            let attested = r->Ok_0;
            let i = choose|i: int|
                0 <= i < 3 && transport::makes(
                    #[trigger] before.nodes()[i],
                    *request,
                    attested.transaction,
                );
            assert(before.nodes()[i].registry.programs()[cid] == validator);
        }
    }
    r
}

/// Attests a request by three nodes that share the key derived from the program's content id, two
/// of which sign, with random blocks of the operating system, as far as it has any. Which blocks
/// it gives is not foretold.
pub fn attest_locally<F: Fn(&AttestationRequest) -> Result<AttestationResult> + Copy>(
    request: &AttestationRequest,
    validator: F,
) -> (r: Result<AttestedTransaction>)
    requires
        executor::accepts_requests(validator),
    ensures
        exists|blocks: Seq<[u8; 64]>| #[trigger]
            attests_locally(*request, validator, blocks, r),
        r matches Ok(attested) ==> call_ensures(
            validator,
            (request,),
            Ok(AttestationResult::Valid(attested.transaction)),
        ),
{
    let blocks = os_random_blocks(4);
    attest_locally_with(request, validator, blocks.as_slice())
}

/// What a local attestation is worth: its transaction is what the validator has made of the request,
/// its signature is valid, a request that the validator always accepts is attested where there are
/// random blocks for two nodes, and one that it never accepts is not.
pub proof fn law_local_attestation<F: Fn(&AttestationRequest) -> Result<AttestationResult>>(
    request: AttestationRequest,
    validator: F,
    blocks: Seq<[u8; 64]>,
    r: Result<AttestedTransaction>,
)
    requires
        attests_locally(request, validator, blocks, r),
    ensures
        r matches Ok(attested) ==> attested.valid() && call_ensures(
            validator,
            (&request,),
            Ok(AttestationResult::Valid(attested.transaction)),
        ) && attested.group_public_key@ == point::base_times(
            pdk::derived_polynomial(request.program_cid@, "main"@, 2)[0],
        ),
        blocks.len() >= 4 && (forall|outcome: Result<AttestationResult>| #[trigger]
            call_ensures(validator, (&request,), outcome) ==> outcome matches Ok(
                AttestationResult::Valid(_),
            )) ==> r is Ok,
        (forall|outcome: Result<AttestationResult>| #[trigger]
            call_ensures(validator, (&request,), outcome) ==> !(outcome matches Ok(
                AttestationResult::Valid(_),
            ))) ==> r is Err,
{
}

} // verus!
