//! Nodes: they hold key shares, have requests validated and produce signature shares.

use crate::error::{CraftSecError, Result};
use crate::executor::{ProgramExecutor, ProgramRegistry};
use crate::frost;
use crate::frost::{
    generate_nonces, sign_partial, PartialSignature, SigningCommitment, SigningNonce,
};
use crate::model;
use crate::model::{AttestationRequest, AttestationResult, KeyShare};
use crate::order;
use crate::point;
use crate::scalar_ext;
use vstd::hash_map::StringHashMap;
use vstd::hash_set::StringHashSet;
use vstd::prelude::*;

verus! {

/// A threshold node.
pub struct CraftSecNode<E: ProgramExecutor = ProgramRegistry> {
    /// The node's key shares by the content ids of the programs they belong to.
    pub key_shares: StringHashMap<KeyShare>,
    /// The key share for programs that have none of their own.
    pub key_share: KeyShare,
    /// The backend that validates requests.
    pub registry: E,
    /// The programs that no longer attest.
    pub frozen_programs: StringHashSet,
}

/// What a node answers to a request.
#[derive(Debug)]
pub struct NodeResponse {
    /// What the program says of the request.
    pub result: AttestationResult,
    /// If the request is valid, the commitment to the node's nonces.
    pub commitment: Option<SigningCommitment>,
    /// If the request is valid, the node's nonces, which it keeps secret.
    pub nonce: Option<SigningNonce>,
}

/// What a node answers in the second round.
#[derive(Debug)]
pub struct NodeSignature {
    /// The node's partial signature.
    pub partial: PartialSignature,
}

/// The nonces are those of two random blocks, and the commitment is the one to them.
pub open spec fn drawn(
    nonce: SigningNonce,
    commitment: SigningCommitment,
    index: model::ParticipantIndex,
    hiding_block: Seq<u8>,
    binding_block: Seq<u8>,
) -> bool {
    &&& nonce.index == index
    &&& nonce.d.value() == scalar_ext::block_value(hiding_block)
    &&& nonce.e.value() == scalar_ext::block_value(binding_block)
    &&& frost::commits(commitment, nonce)
}

/// What a node answers when the program says `outcome` of a request: nonces are drawn for a valid
/// request only, and errors are passed on.
pub open spec fn responds(
    outcome: Result<AttestationResult>,
    index: model::ParticipantIndex,
    hiding_block: Seq<u8>,
    binding_block: Seq<u8>,
    r: Result<NodeResponse>,
) -> bool {
    match outcome {
        Ok(AttestationResult::Valid(tx)) => r matches Ok(response) && response.result
            == AttestationResult::Valid(tx) && (response.commitment matches Some(commitment)
            && response.nonce matches Some(nonce) && drawn(
            nonce,
            commitment,
            index,
            hiding_block,
            binding_block,
        )),
        Ok(AttestationResult::Invalid(reason)) => r matches Ok(response) && response.result
            == AttestationResult::Invalid(reason) && response.commitment is None
            && response.nonce is None,
        Err(e) => r == Err::<NodeResponse, CraftSecError>(e),
    }
}

/// What a node says of a request: a frozen program is refused, and otherwise it is what the program
/// says.
pub open spec fn validates<E: ProgramExecutor>(
    node: CraftSecNode<E>,
    request: AttestationRequest,
    outcome: Result<AttestationResult>,
) -> bool {
    if node.frozen(request.program_cid@) {
        outcome matches Err(CraftSecError::ProgramFrozen(cid)) && cid@ == request.program_cid@
    } else {
        call_ensures(E::execute, (&node.registry, &request), outcome)
    }
}

/// The answer to a request of which the program says `outcome`.
pub fn respond(
    outcome: Result<AttestationResult>,
    key_share: &KeyShare,
    hiding_block: &[u8; 64],
    binding_block: &[u8; 64],
) -> (r: Result<NodeResponse>)
    ensures
        responds(outcome, key_share.index, hiding_block@, binding_block@, r),
{
    match outcome {
        Ok(AttestationResult::Valid(tx)) => {
            let (nonce, commitment) = generate_nonces(
                key_share.index,
                hiding_block,
                binding_block,
            );
            Ok(
                NodeResponse {
                    result: AttestationResult::Valid(tx),
                    commitment: Some(commitment),
                    nonce: Some(nonce),
                },
            )
        },
        Ok(AttestationResult::Invalid(reason)) => Ok(
            NodeResponse {
                result: AttestationResult::Invalid(reason),
                commitment: None,
                nonce: None,
            },
        ),
        Err(e) => Err(e),
    }
}

impl<E: ProgramExecutor> CraftSecNode<E> {
    /// The key share for a program: its own, or the one for programs that have none.
    pub open spec fn share_for(self, program_cid: Seq<char>) -> KeyShare {
        if self.key_shares@.dom().contains(program_cid) {
            self.key_shares@[program_cid]
        } else {
            self.key_share
        }
    }

    /// The program no longer attests.
    pub open spec fn frozen(self, program_cid: Seq<char>) -> bool {
        self.frozen_programs@.contains(program_cid)
    }

    /// A node with one key share for all programs, none of which is frozen.
    pub fn new(key_share: KeyShare, registry: E) -> (r: CraftSecNode<E>)
        ensures
            r.key_shares@ == Map::<Seq<char>, KeyShare>::empty(),
            r.key_share == key_share,
            r.registry == registry,
            r.frozen_programs@ == Set::<Seq<char>>::empty(),
    {
        CraftSecNode {
            key_shares: StringHashMap::new(),
            key_share,
            registry,
            frozen_programs: StringHashSet::new(),
        }
    }

    /// Registers the key share for a program.
    pub fn register_key(&mut self, program_cid: String, key_share: KeyShare)
        ensures
            final(self).key_shares@ == old(self).key_shares@.insert(program_cid@, key_share),
            final(self).key_share == old(self).key_share,
            final(self).registry == old(self).registry,
            final(self).frozen_programs == old(self).frozen_programs,
    {
        self.key_shares.insert(program_cid, key_share);
    }

    /// Freezes a program: the node refuses to attest for it from now on.
    pub fn freeze_program(&mut self, program_cid: String)
        ensures
            final(self).frozen_programs@ == old(self).frozen_programs@.insert(program_cid@),
            final(self).key_shares == old(self).key_shares,
            final(self).key_share == old(self).key_share,
            final(self).registry == old(self).registry,
            final(self).frozen(program_cid@),
    {
        self.frozen_programs.insert(program_cid);
    }

    /// The program is frozen.
    pub fn is_frozen(&self, program_cid: &str) -> (r: bool)
        ensures
            r == self.frozen(program_cid@),
    {
        self.frozen_programs.contains(program_cid)
    }

    /// The key share for a program.
    pub fn get_key_share(&self, program_cid: &str) -> (r: &KeyShare)
        ensures
            *r == self.share_for(program_cid@),
    {
        match self.key_shares.get(program_cid) {
            Some(share) => share,
            None => &self.key_share,
        }
    }

    /// What the node says of a request: what the program says of it, unless the program is frozen.
    pub fn validate(&self, request: &AttestationRequest) -> (r: Result<AttestationResult>)
        ensures
            validates(*self, *request, r),
    {
        if self.is_frozen(request.program_cid.as_str()) {
            return Err(CraftSecError::ProgramFrozen(request.program_cid.clone()));
        }
        self.registry.execute(request)
    }

    /// Round 1: has a request validated and, where it is valid, draws nonces from two random
    /// blocks and commits to them. A frozen program is refused.
    pub fn process_request(
        &self,
        request: &AttestationRequest,
        hiding_block: &[u8; 64],
        binding_block: &[u8; 64],
    ) -> (r: Result<NodeResponse>)
        ensures
            self.frozen(request.program_cid@) ==> (r matches Err(e)
                && e matches CraftSecError::ProgramFrozen(cid) && cid@ == request.program_cid@),
            !self.frozen(request.program_cid@) ==> exists|outcome: Result<AttestationResult>|
                call_ensures(E::execute, (&self.registry, request), outcome) && #[trigger] responds(
                    outcome,
                    self.share_for(request.program_cid@).index,
                    hiding_block@,
                    binding_block@,
                    r,
                ),
    {
        let outcome = self.validate(request);
        let key_share = self.get_key_share(request.program_cid.as_str());
        let r = respond(outcome, key_share, hiding_block, binding_block);
        r
    }

    /// Round 2: signs with the key share for programs that have none of their own.
    pub fn sign(&self, nonce: &SigningNonce, message: &[u8], commitments: &[SigningCommitment]) -> (r:
        Result<NodeSignature>)
        ensures
            r matches Ok(s) && s.partial.index == self.key_share.index && s.partial.z.value()
                == frost::partial_value(self.key_share, *nonce, message@, commitments@)
                % order::group_order(),
    {
        let partial = sign_partial(&self.key_share, nonce, message, commitments)?;
        Ok(NodeSignature { partial })
    }

    /// Round 2: signs with the key share for a program.
    pub fn sign_for_program(
        &self,
        program_cid: &str,
        nonce: &SigningNonce,
        message: &[u8],
        commitments: &[SigningCommitment],
    ) -> (r: Result<NodeSignature>)
        ensures
            r matches Ok(s) && s.partial.index == self.share_for(program_cid@).index
                && s.partial.z.value() == frost::partial_value(
                self.share_for(program_cid@),
                *nonce,
                message@,
                commitments@,
            ) % order::group_order(),
    {
        let key_share = self.get_key_share(program_cid);
        let partial = sign_partial(key_share, nonce, message, commitments)?;
        Ok(NodeSignature { partial })
    }
}

/// Migrates a program to a new content id: the new one gets the old one's key share, and the old
/// one is frozen. Nothing changes for other programs.
pub fn migrate_program<E: ProgramExecutor>(
    node: &mut CraftSecNode<E>,
    old_cid: &str,
    new_cid: &str,
)
    ensures
        model::same_share(
            final(node).share_for(new_cid@),
            old(node).share_for(old_cid@),
        ),
        final(node).key_shares@.dom() == old(node).key_shares@.dom().insert(new_cid@),
        forall|cid: Seq<char>|
            cid != new_cid@ ==> #[trigger] final(node).share_for(cid) == old(node).share_for(cid),
        final(node).frozen_programs@ == old(node).frozen_programs@.insert(old_cid@),
        final(node).frozen(old_cid@),
        final(node).key_share == old(node).key_share,
        final(node).registry == old(node).registry,
{
    let key_share = node.get_key_share(old_cid).clone();
    node.register_key(new_cid.to_owned(), key_share);
    node.freeze_program(old_cid.to_owned());
}

/// A frozen program no longer attests, and nothing but freezing stops one: a node refuses requests
/// for the programs that it has frozen and asks its executor about all others.
pub proof fn law_frozen_programs_refused<E: ProgramExecutor>(
    node: CraftSecNode<E>,
    request: AttestationRequest,
    outcome: Result<AttestationResult>,
)
    requires
        validates(node, request, outcome),
    ensures
        node.frozen_programs@.contains(request.program_cid@) ==> (outcome matches Err(
            CraftSecError::ProgramFrozen(cid),
        ) && cid@ == request.program_cid@),
        !node.frozen_programs@.contains(request.program_cid@) ==> call_ensures(
            E::execute,
            (&node.registry, &request),
            outcome,
        ),
{
}

/// A node signs for a program with the key share registered for it, and with the one for programs
/// that have none otherwise.
pub proof fn law_key_share_of_program<E: ProgramExecutor>(node: CraftSecNode<E>, cid: Seq<char>)
    ensures
        node.key_shares@.dom().contains(cid) ==> node.share_for(cid) == node.key_shares@[cid],
        !node.key_shares@.dom().contains(cid) ==> node.share_for(cid) == node.key_share,
        node.frozen(cid) <==> node.frozen_programs@.contains(cid),
{
}

/// A node commits to nonces just for valid requests: both are drawn from their own block, and the
/// commitment is the base point times each.
pub proof fn law_commits_for_valid_requests(
    outcome: Result<AttestationResult>,
    index: model::ParticipantIndex,
    hiding_block: Seq<u8>,
    binding_block: Seq<u8>,
    response: NodeResponse,
)
    requires
        responds(outcome, index, hiding_block, binding_block, Ok(response)),
    ensures
        outcome == Ok::<AttestationResult, CraftSecError>(response.result),
        response.result is Valid <==> response.nonce is Some,
        response.result is Valid <==> response.commitment is Some,
        response.nonce matches Some(nonce) ==> nonce.index == index && nonce.d.value()
            == scalar_ext::block_value(hiding_block) && nonce.e.value() == scalar_ext::block_value(
            binding_block,
        ),
        response.commitment matches Some(c) ==> c.index == index && c.hiding@ == point::base_times(
            scalar_ext::block_value(hiding_block),
        ) && c.binding@ == point::base_times(scalar_ext::block_value(binding_block)),
{
}

} // verus!
