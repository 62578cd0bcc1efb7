//! Transports.

use crate::client;
use crate::client::{AttestedTransaction, NodeTransport, Round1Response, Round2Response};
use crate::error::{CraftSecError, Result};
use crate::executor::ProgramExecutor;
use crate::feldman;
use crate::frost;
use crate::frost::{PartialSignature, SigningCommitment, SigningNonce};
use crate::interpolation;
use crate::model;
use crate::model::{AttestationRequest, AttestationResult, KeyShare, Transaction};
use crate::node;
use crate::node::{respond, CraftSecNode, NodeResponse};
use crate::order;
use crate::point;
use crate::point::EdwardsPoint;
use crate::scalar_ext;
use vstd::prelude::*;

verus! {

/// `RngCore::try_fill_bytes` of `rand::rngs::OsRng`: a block of random bytes, or nothing where the
/// operating system has none to give. The bytes depend on chance, so nothing is said of them.
#[verifier::external_body]
fn os_random_block() -> (r: Option<[u8; 64]>) {
    let mut block = [0u8; 64];
    match rand::RngCore::try_fill_bytes(&mut rand::rngs::OsRng, &mut block) {
        Ok(_) => Some(block),
        Err(_) => None,
    }
}

/// Blocks of random bytes: as many as asked for, or as the operating system has to give.
pub(crate) fn os_random_blocks(count: usize) -> (r: Vec<[u8; 64]>)
    ensures
        r@.len() <= count,
{
    let mut blocks: Vec<[u8; 64]> = Vec::new();
    let mut k: usize = 0;
    while k < count
        invariant
            k <= count,
            blocks@.len() <= k,
        decreases count - k,
    {
        match os_random_block() {
            Some(block) => blocks.push(block),
            None => {
                return blocks;
            },
        }
        k = k + 1;
    }
    blocks
}

/// A transport that calls the nodes directly.
pub struct LocalTransport<E: ProgramExecutor> {
    /// The nodes.
    pub nodes: Vec<CraftSecNode<E>>,
    nonces: Vec<Option<SigningNonce>>,
}

impl<E: ProgramExecutor> LocalTransport<E> {
    /// The nodes.
    pub closed spec fn nodes(self) -> Seq<CraftSecNode<E>> {
        self.nodes@
    }

    /// The nonces that the nodes have drawn in the first round.
    pub closed spec fn nonces(self) -> Seq<Option<SigningNonce>> {
        self.nonces@
    }

    /// A transport for nodes that have drawn no nonces yet.
    pub fn new(nodes: Vec<CraftSecNode<E>>) -> (r: LocalTransport<E>)
        ensures
            r.nodes() == nodes@,
            r.nonces().len() == nodes@.len(),
            forall|i: int| 0 <= i < nodes@.len() ==> (#[trigger] r.nonces()[i]) is None,
            forall|i: int| #[trigger] r.reaches(i) <==> 0 <= i < nodes@.len(),
    {
        let mut nonces: Vec<Option<SigningNonce>> = Vec::new();
        let mut k: usize = 0;
        while k < nodes.len()
            invariant
                k <= nodes@.len(),
                nonces@.len() == k,
                forall|i: int| 0 <= i < k ==> (#[trigger] nonces@[i]) is None,
            decreases nodes@.len() - k,
        {
            nonces.push(None);
            k = k + 1;
        }
        LocalTransport { nodes, nonces }
    }
}

/// What the transport makes of a node's response: the nonces stay with the transport, the rest is
/// passed on.
pub open spec fn relays(
    response: Result<NodeResponse>,
    before: Seq<Option<SigningNonce>>,
    node_index: int,
    after: Seq<Option<SigningNonce>>,
    r: Result<Round1Response>,
) -> bool {
    match response {
        Ok(response) => r matches Ok(relayed) && relayed.result == response.result
            && relayed.commitment == response.commitment && after == before.update(
            node_index,
            response.nonce,
        ),
        Err(e) => r == Err::<Round1Response, CraftSecError>(e) && after == before,
    }
}

/// Two blocks, where there are any.
pub open spec fn given(blocks: Option<([u8; 64], [u8; 64])>) -> ([u8; 64], [u8; 64]) {
    blocks.unwrap()
}

/// The answer of a node that has no random bytes.
pub open spec fn without_bytes(r: Result<Round1Response>) -> bool {
    r matches Err(CraftSecError::AttestationFailed(m)) && m@ == "no random bytes"@
}

/// What comes of the first round at a node of which it is known what it says of the request: only
/// for a valid request nonces are drawn, from two blocks if there are any.
pub open spec fn handles(
    outcome: Result<AttestationResult>,
    index: model::ParticipantIndex,
    blocks: Option<([u8; 64], [u8; 64])>,
    before: Seq<Option<SigningNonce>>,
    node_index: int,
    after: Seq<Option<SigningNonce>>,
    r: Result<Round1Response>,
) -> bool {
    if outcome matches Ok(AttestationResult::Valid(_)) && blocks is None {
        without_bytes(r) && after == before
    } else {
        exists|response: Result<NodeResponse>| #[trigger]
            node::responds(outcome, index, given(blocks).0@, given(blocks).1@, response) && relays(
                response,
                before,
                node_index,
                after,
                r,
            )
    }
}

/// What comes of the first round at a node that draws its nonces from two given blocks, if any.
pub open spec fn answers<E: ProgramExecutor>(
    node: CraftSecNode<E>,
    request: AttestationRequest,
    blocks: Option<([u8; 64], [u8; 64])>,
    before: Seq<Option<SigningNonce>>,
    node_index: int,
    after: Seq<Option<SigningNonce>>,
    r: Result<Round1Response>,
) -> bool {
    exists|outcome: Result<AttestationResult>|
        node::validates(node, request, outcome) && #[trigger] handles(
            outcome,
            node.share_for(request.program_cid@).index,
            blocks,
            before,
            node_index,
            after,
            r,
        )
}

/// The partial signature is the one that the holder of a key share makes with given nonces.
pub open spec fn signs(
    share: KeyShare,
    nonce: SigningNonce,
    message: Seq<u8>,
    commitments: Seq<SigningCommitment>,
    partial: PartialSignature,
) -> bool {
    &&& partial.index == share.index
    &&& partial.z.value() == frost::partial_value(share, nonce, message, commitments)
        % order::group_order()
}

/// What comes of the second round at a node whose nonces are kept, if any.
pub open spec fn signs_with(
    share: KeyShare,
    nonce: Option<SigningNonce>,
    message: Seq<u8>,
    commitments: Seq<SigningCommitment>,
    r: Result<Round2Response>,
) -> bool {
    match nonce {
        Some(nonce) => r matches Ok(response) && signs(
            share,
            nonce,
            message,
            commitments,
            response.partial,
        ),
        None => r matches Err(CraftSecError::InvalidSignature(m)) && m@ == "no nonce"@,
    }
}

impl<E: ProgramExecutor> LocalTransport<E> {
    /// The first round at a node of which it is known what it says of the request.
    fn finish_round1(
        &mut self,
        node_index: usize,
        request: &AttestationRequest,
        outcome: Result<AttestationResult>,
        blocks: Option<([u8; 64], [u8; 64])>,
    ) -> (r: Result<Round1Response>)
        requires
            old(self).reaches(node_index as int),
        ensures
            final(self).nodes() == old(self).nodes(),
            handles(
                outcome,
                old(self).nodes()[node_index as int].share_for(request.program_cid@).index,
                blocks,
                old(self).nonces(),
                node_index as int,
                final(self).nonces(),
                r,
            ),
            forall|i: int| #[trigger] final(self).reaches(i) == old(self).reaches(i),
    {
        let (hiding_block, binding_block) = match blocks {
            Some(drawn) => drawn,
            None => {
                if let Ok(AttestationResult::Valid(_)) = &outcome {
                    return Err(CraftSecError::AttestationFailed("no random bytes".to_owned()));
                }
                ([0u8; 64], [0u8; 64])
            },
        };
        let ghost drawn_from = given(blocks);
        let ghost asked = outcome;
        let key_share = self.nodes[node_index].get_key_share(request.program_cid.as_str());
        let ghost index = key_share.index;
        let response = respond(outcome, key_share, &hiding_block, &binding_block);
        let ghost answered = response;
        assert(node::responds(asked, index, drawn_from.0@, drawn_from.1@, answered));
        let r = match response {
            Ok(response) => {
                self.nonces.set(node_index, response.nonce);
                Ok(Round1Response { result: response.result, commitment: response.commitment })
            },
            Err(e) => Err(e),
        };
        assert(relays(answered, old(self).nonces(), node_index as int, self.nonces(), r));
        r
    }

    /// The first round at a node that draws its nonces from two given blocks, if any.
    pub fn round1_with(
        &mut self,
        node_index: usize,
        request: &AttestationRequest,
        blocks: Option<([u8; 64], [u8; 64])>,
    ) -> (r: Result<Round1Response>)
        requires
            old(self).reaches(node_index as int),
        ensures
            final(self).nodes() == old(self).nodes(),
            answers(
                old(self).nodes()[node_index as int],
                *request,
                blocks,
                old(self).nonces(),
                node_index as int,
                final(self).nonces(),
                r,
            ),
            forall|i: int| #[trigger] final(self).reaches(i) == old(self).reaches(i),
    {
        let outcome = self.nodes[node_index].validate(request);
        self.finish_round1(node_index, request, outcome, blocks)
    }
}

impl<E: ProgramExecutor> NodeTransport for LocalTransport<E> {
    open spec fn answers_first(
        &self,
        node_index: int,
        request: AttestationRequest,
        answer: Result<Round1Response>,
        after: &Self,
    ) -> bool {
        &&& after.nodes() == self.nodes()
        &&& exists|blocks: Option<([u8; 64], [u8; 64])>| #[trigger]
            answers(
                self.nodes()[node_index],
                request,
                blocks,
                self.nonces(),
                node_index,
                after.nonces(),
                answer,
            )
    }

    open spec fn answers_second(
        &self,
        node_index: int,
        message: Seq<u8>,
        commitments: Seq<SigningCommitment>,
        answer: Result<Round2Response>,
        after: &Self,
    ) -> bool {
        &&& after == self
        &&& signs_with(
            self.nodes()[node_index].key_share,
            self.nonces()[node_index],
            message,
            commitments,
            answer,
        )
    }

    closed spec fn reaches(&self, node_index: int) -> bool {
        0 <= node_index < self.nodes@.len() && node_index < self.nonces@.len()
    }

    fn round1(&mut self, node_index: usize, request: &AttestationRequest) -> (r: Result<
        Round1Response,
    >) {
        let outcome = self.nodes[node_index].validate(request);
        let blocks = match &outcome {
            Ok(AttestationResult::Valid(_)) => match (os_random_block(), os_random_block()) {
                (Some(hiding), Some(binding)) => Some((hiding, binding)),
                _ => None,
            },
            _ => None,
        };
        let r = self.finish_round1(node_index, request, outcome, blocks);
        assert(answers(
            old(self).nodes()[node_index as int],
            *request,
            blocks,
            old(self).nonces(),
            node_index as int,
            self.nonces(),
            r,
        ));
        r
    }

    fn round2(
        &mut self,
        node_index: usize,
        message: &[u8],
        commitments: &[SigningCommitment],
    ) -> (r: Result<Round2Response>) {
        match self.nonces[node_index] {
            Some(nonce) => {
                let signature = self.nodes[node_index].sign(&nonce, message, commitments)?;
                Ok(Round2Response { partial: signature.partial })
            },
            None => Err(CraftSecError::InvalidSignature("no nonce".to_owned())),
        }
    }
}

/// A local transport whose nodes draw their nonces from given blocks, two for each valid request.
pub struct SeededTransport<E: ProgramExecutor> {
    local: LocalTransport<E>,
    blocks: Vec<[u8; 64]>,
    used: usize,
}

impl<E: ProgramExecutor> SeededTransport<E> {
    /// The nodes.
    pub closed spec fn nodes(self) -> Seq<CraftSecNode<E>> {
        self.local.nodes()
    }

    /// The nonces that the nodes have drawn in the first round.
    pub closed spec fn nonces(self) -> Seq<Option<SigningNonce>> {
        self.local.nonces()
    }

    /// The blocks that are left.
    pub closed spec fn left(self) -> Seq<[u8; 64]> {
        if self.used <= self.blocks@.len() {
            self.blocks@.skip(self.used as int)
        } else {
            Seq::empty()
        }
    }

    /// A transport for nodes that have drawn no nonces yet.
    pub fn new(nodes: Vec<CraftSecNode<E>>, blocks: Vec<[u8; 64]>) -> (r: SeededTransport<E>)
        ensures
            r.nodes() == nodes@,
            r.nonces().len() == nodes@.len(),
            r.left() == blocks@,
            forall|i: int| #[trigger] r.reaches(i) <==> 0 <= i < nodes@.len(),
    {
        let r = SeededTransport { local: LocalTransport::new(nodes), blocks, used: 0 };
        assert(r.left() =~= blocks@);
        assert forall|i: int| #[trigger] r.reaches(i) <==> 0 <= i < nodes@.len() by {
            assert(r.local.reaches(i) <==> 0 <= i < nodes@.len());
        }
        r
    }
}

/// The next two blocks of those that are left, if there are as many.
pub open spec fn next_blocks(left: Seq<[u8; 64]>) -> Option<([u8; 64], [u8; 64])> {
    if left.len() >= 2 {
        Some((left[0], left[1]))
    } else {
        None
    }
}

impl<E: ProgramExecutor> NodeTransport for SeededTransport<E> {
    open spec fn answers_first(
        &self,
        node_index: int,
        request: AttestationRequest,
        answer: Result<Round1Response>,
        after: &Self,
    ) -> bool {
        &&& after.nodes() == self.nodes()
        &&& answers(
            self.nodes()[node_index],
            request,
            next_blocks(self.left()),
            self.nonces(),
            node_index,
            after.nonces(),
            answer,
        )
        &&& after.left() == if client::is_valid(answer) {
            self.left().skip(2)
        } else {
            self.left()
        }
    }

    open spec fn answers_second(
        &self,
        node_index: int,
        message: Seq<u8>,
        commitments: Seq<SigningCommitment>,
        answer: Result<Round2Response>,
        after: &Self,
    ) -> bool {
        &&& after.nodes() == self.nodes()
        &&& after.nonces() == self.nonces()
        &&& after.left() == self.left()
        &&& signs_with(
            self.nodes()[node_index].key_share,
            self.nonces()[node_index],
            message,
            commitments,
            answer,
        )
    }

    closed spec fn reaches(&self, node_index: int) -> bool {
        self.local.reaches(node_index)
    }

    fn round1(&mut self, node_index: usize, request: &AttestationRequest) -> (r: Result<
        Round1Response,
    >) {
        let available: usize = self.blocks.len();
        let blocks = if self.used < available && available - self.used >= 2 {
            Some((self.blocks[self.used], self.blocks[self.used + 1]))
        } else {
            None
        };
        assert(blocks == next_blocks(self.left()));
        let r = self.local.round1_with(node_index, request, blocks);
        let drawn = match &r {
            Ok(Round1Response { result: AttestationResult::Valid(_), commitment: _ }) => true,
            _ => false,
        };
        proof {
            lemma_valid_draws(
                old(self).nodes()[node_index as int],
                *request,
                blocks,
                old(self).nonces(),
                node_index as int,
                self.nonces(),
                r,
            );
        }
        if drawn {
            self.used = self.used + 2;
            assert(self.left() =~= old(self).left().skip(2));
        }
        r
    }

    fn round2(
        &mut self,
        node_index: usize,
        message: &[u8],
        commitments: &[SigningCommitment],
    ) -> (r: Result<Round2Response>) {
        self.local.round2(node_index, message, commitments)
    }
}

/// A node that answers that the request is valid has drawn nonces, and kept them.
proof fn lemma_valid_draws<E: ProgramExecutor>(
    node: CraftSecNode<E>,
    request: AttestationRequest,
    blocks: Option<([u8; 64], [u8; 64])>,
    before: Seq<Option<SigningNonce>>,
    node_index: int,
    after: Seq<Option<SigningNonce>>,
    r: Result<Round1Response>,
)
    requires
        answers(node, request, blocks, before, node_index, after, r),
        0 <= node_index < before.len(),
    ensures
        after.len() == before.len(),
        forall|j: int|
            0 <= j < before.len() && j != node_index ==> #[trigger] after[j] == before[j],
        client::is_valid(r) ==> {
            &&& blocks is Some
            &&& !node.frozen(request.program_cid@)
            &&& call_ensures(
                E::execute,
                (&node.registry, &request),
                Ok(AttestationResult::Valid(r->Ok_0.result->Valid_0)),
            )
            &&& after[node_index] is Some
            &&& r->Ok_0.commitment is Some
            &&& frost::commits(r->Ok_0.commitment->0, after[node_index]->0)
            &&& r->Ok_0.commitment->0.index == node.share_for(request.program_cid@).index
        },
        without_bytes(r) && willing(node, request) ==> blocks is None,
        willing(node, request) ==> client::is_valid(r) || without_bytes(r),
        unwilling(node, request) ==> !client::is_valid(r),
{
    let index = node.share_for(request.program_cid@).index;
    let outcome = choose|outcome: Result<AttestationResult>|
        node::validates(node, request, outcome) && #[trigger] handles(
            outcome,
            index,
            blocks,
            before,
            node_index,
            after,
            r,
        );
    if !(outcome matches Ok(AttestationResult::Valid(_)) && blocks is None) {
        let response = choose|response: Result<NodeResponse>| #[trigger]
            node::responds(outcome, index, given(blocks).0@, given(blocks).1@, response) && relays(
                response,
                before,
                node_index,
                after,
                r,
            );
        if client::is_valid(r) {
            assert(response.unwrap().result is Valid);
            assert(outcome == Ok::<AttestationResult, CraftSecError>(
                AttestationResult::Valid(r->Ok_0.result->Valid_0),
            ));
        }
    }
}

/// The key shares of nodes, for programs that have none of their own.
pub open spec fn held_shares<E: ProgramExecutor>(nodes: Seq<CraftSecNode<E>>) -> Seq<KeyShare> {
    Seq::new(nodes.len(), |i: int| nodes[i].key_share)
}

/// The node finds a request valid, whatever its program executor says of it in particular.
pub open spec fn willing<E: ProgramExecutor>(
    node: CraftSecNode<E>,
    request: AttestationRequest,
) -> bool {
    &&& !node.frozen(request.program_cid@)
    &&& forall|outcome: Result<AttestationResult>| #[trigger]
        call_ensures(E::execute, (&node.registry, &request), outcome) ==> outcome matches Ok(
            AttestationResult::Valid(_),
        )
}

/// The node does not find a request valid: the program is frozen, or its program executor never
/// says that the request is valid.
pub open spec fn unwilling<E: ProgramExecutor>(
    node: CraftSecNode<E>,
    request: AttestationRequest,
) -> bool {
    node.frozen(request.program_cid@) || forall|outcome: Result<AttestationResult>| #[trigger]
        call_ensures(E::execute, (&node.registry, &request), outcome) ==> !(outcome matches Ok(
            AttestationResult::Valid(_),
        ))
}

/// The transaction is one that the node's program executor makes of the request.
pub open spec fn makes<E: ProgramExecutor>(
    node: CraftSecNode<E>,
    request: AttestationRequest,
    transaction: Transaction,
) -> bool {
    !node.frozen(request.program_cid@) && call_ensures(
        E::execute,
        (&node.registry, &request),
        Ok(AttestationResult::Valid(transaction)),
    )
}

/// What can come of the first round at a node, whatever blocks it has.
spec fn can_answer<E: ProgramExecutor>(
    node: CraftSecNode<E>,
    request: AttestationRequest,
    before: Seq<Option<SigningNonce>>,
    node_index: int,
    after: Seq<Option<SigningNonce>>,
    r: Result<Round1Response>,
) -> bool {
    exists|blocks: Option<([u8; 64], [u8; 64])>| #[trigger]
        answers(node, request, blocks, before, node_index, after, r)
}

/// What comes of the second round at the node in the given place among those that found the request
/// valid.
spec fn can_sign<E: ProgramExecutor>(
    nodes: Seq<CraftSecNode<E>>,
    before: Seq<Option<SigningNonce>>,
    first: Seq<Result<Round1Response>>,
    k: int,
    after: Seq<Option<SigningNonce>>,
    r: Result<Round2Response>,
) -> bool {
    &&& after == before
    &&& signs_with(
        nodes[client::valid_nodes(first)[k]].key_share,
        before[client::valid_nodes(first)[k]],
        client::message_of(first),
        client::commitments_of(first),
        r,
    )
}

/// What nodes on one machine answer in two rounds, and the nonces that are kept meanwhile.
spec fn is_local<E: ProgramExecutor>(
    nodes: Seq<CraftSecNode<E>>,
    nonces: Seq<Seq<Option<SigningNonce>>>,
    request: AttestationRequest,
    first: Seq<Result<Round1Response>>,
    second: Seq<Result<Round2Response>>,
) -> bool {
    &&& nonces.len() == first.len() + second.len() + 1
    &&& first.len() <= nodes.len()
    &&& nonces[0].len() == nodes.len()
    &&& forall|k: int|
        0 <= k < first.len() ==> can_answer(
            nodes[k],
            request,
            nonces[k],
            k,
            nonces[k + 1],
            #[trigger] first[k],
        )
    &&& forall|k: int|
        0 <= k < second.len() ==> can_sign(
            nodes,
            nonces[first.len() + k],
            first,
            k,
            nonces[first.len() + k + 1],
            #[trigger] second[k],
        )
}

/// What is known of a node once it was asked: if it has found the request valid, its nonces are
/// kept.
spec fn answered<E: ProgramExecutor>(
    node: CraftSecNode<E>,
    request: AttestationRequest,
    nonce: Option<SigningNonce>,
    answer: Result<Round1Response>,
) -> bool {
    &&& client::is_valid(answer) ==> {
        &&& nonce is Some
        &&& answer->Ok_0.commitment is Some
        &&& frost::commits(answer->Ok_0.commitment->0, nonce->0)
        &&& answer->Ok_0.commitment->0.index == node.share_for(request.program_cid@).index
        &&& makes(node, request, answer->Ok_0.result->Valid_0)
    }
    &&& willing(node, request) ==> client::is_valid(answer) || without_bytes(answer)
    &&& unwilling(node, request) ==> !client::is_valid(answer)
}

/// In the first round, the nonces of each node that was asked are kept.
proof fn lemma_first_round<E: ProgramExecutor>(
    nodes: Seq<CraftSecNode<E>>,
    nonces: Seq<Seq<Option<SigningNonce>>>,
    request: AttestationRequest,
    first: Seq<Result<Round1Response>>,
    second: Seq<Result<Round2Response>>,
    m: int,
)
    requires
        is_local(nodes, nonces, request, first, second),
        0 <= m <= first.len(),
    ensures
        nonces[m].len() == nodes.len(),
        forall|j: int|
            0 <= j < m ==> answered(nodes[j], request, #[trigger] nonces[m][j], first[j]),
    decreases m,
{
    if m > 0 {
        lemma_first_round(nodes, nonces, request, first, second, m - 1);
        let k = m - 1;
        let answer = first[k];
        assert(can_answer(nodes[k], request, nonces[k], k, nonces[k + 1], answer));
        let blocks = choose|blocks: Option<([u8; 64], [u8; 64])>| #[trigger]
            answers(nodes[k], request, blocks, nonces[k], k, nonces[k + 1], answer);
        lemma_valid_draws(nodes[k], request, blocks, nonces[k], k, nonces[k + 1], answer);
        assert forall|j: int| 0 <= j < m implies answered(
            nodes[j],
            request,
            #[trigger] nonces[m][j],
            first[j],
        ) by {
            if j < m - 1 {
                assert(answered(nodes[j], request, nonces[k][j], first[j]));
            }
        }
    }
}

/// The second round changes nothing.
proof fn lemma_second_round<E: ProgramExecutor>(
    nodes: Seq<CraftSecNode<E>>,
    nonces: Seq<Seq<Option<SigningNonce>>>,
    request: AttestationRequest,
    first: Seq<Result<Round1Response>>,
    second: Seq<Result<Round2Response>>,
    m: int,
)
    requires
        is_local(nodes, nonces, request, first, second),
        0 <= m <= second.len(),
    ensures
        nonces[first.len() + m] == nonces[first.len() as int],
    decreases m,
{
    if m > 0 {
        lemma_second_round(nodes, nonces, request, first, second, m - 1);
        let k = m - 1;
        assert(can_sign(
            nodes,
            nonces[first.len() + k],
            first,
            k,
            nonces[first.len() + k + 1],
            second[k],
        ));
    }
}

/// Nodes that share a key and have none of their own for the program: if enough of them find the
/// request valid, its attestation succeeds, with a transaction that one of them has made of it.
proof fn lemma_local_attestation<E: ProgramExecutor, T: NodeTransport>(
    nodes: Seq<CraftSecNode<E>>,
    nonces: Seq<Seq<Option<SigningNonce>>>,
    request: AttestationRequest,
    first: Seq<Result<Round1Response>>,
    second: Seq<Result<Round2Response>>,
    between: T,
    attempts: Seq<client::Attempt>,
    after: T,
    f: Seq<int>,
    threshold: nat,
    node_count: nat,
    group_public_key: EdwardsPoint,
    r: Result<AttestedTransaction>,
)
    requires
        is_local(nodes, nonces, request, first, second),
        feldman::shares_of(held_shares(nodes), f),
        forall|i: int|
            0 <= i < nodes.len() ==> !(#[trigger] nodes[i]).key_shares@.dom().contains(
                request.program_cid@,
            ),
        group_public_key@ == point::base_times(interpolation::poly_value(f, 0)),
        f.len() <= threshold,
        0 < threshold,
        client::asked(first, threshold, node_count),
        client::attests(
            threshold,
            node_count,
            group_public_key,
            request,
            first,
            second,
            between,
            attempts,
            after,
            r,
        ),
    ensures
        match r {
            Ok(attested) => attested.valid() && attested.group_public_key == group_public_key
                && exists|i: int|
                0 <= i < first.len() && makes(#[trigger] nodes[i], request, attested.transaction),
            Err(e) => e matches CraftSecError::InsufficientShares { have, need } && have
                == client::valid_nodes(first).len() && have < threshold && need == threshold
                && first.len() == node_count,
        },
        forall|j: int|
            0 <= j < first.len() && willing(nodes[j], request) ==> client::is_valid(
                #[trigger] first[j],
            ) || without_bytes(first[j]),
        forall|j: int|
            0 <= j < first.len() && unwilling(nodes[j], request) ==> !client::is_valid(
                #[trigger] first[j],
            ),
{
    let shares = held_shares(nodes);
    let valid = client::valid_nodes(first);
    let middle = nonces[first.len() as int];
    lemma_first_round(nodes, nonces, request, first, second, first.len() as int);
    client::lemma_valid_nodes(first);
    client::lemma_valid_nodes_increase(first);
    assert forall|j: int| 0 <= j < first.len() implies answered(
        nodes[j],
        request,
        middle[j],
        #[trigger] first[j],
    ) by {
        assert(answered(nodes[j], request, middle[j], first[j]));
    }
    if valid.len() >= threshold {
        let cs = client::commitments_of(first);
        let message = client::message_of(first);
        let kept = Seq::new(valid.len(), |k: int| middle[valid[k]]->0);
        assert forall|k: int| 0 <= k < valid.len() implies middle[#[trigger] valid[k]] is Some
            && first[valid[k]]->Ok_0.commitment is Some && frost::commits(cs[k], kept[k])
            && cs[k].index == shares[valid[k]].index by {
            assert(answered(nodes[valid[k]], request, middle[valid[k]], first[valid[k]]));
        }
        assert(client::all_committed(first));
        assert forall|k: int| 0 <= k < second.len() && k < valid.len() implies (
        #[trigger] second[k]) is Ok && signs(
            shares[valid[k]],
            kept[k],
            message,
            cs,
            second[k]->Ok_0.partial,
        ) by {
            lemma_second_round(nodes, nonces, request, first, second, k);
            assert(can_sign(
                nodes,
                nonces[first.len() + k],
                first,
                k,
                nonces[first.len() + k + 1],
                second[k],
            ));
            assert(middle[valid[k]] is Some);
        }
        assert(second.len() <= cs.len());
        if second.len() > 0 {
            assert(second.last() == second[second.len() - 1]);
        }
        let partials = client::partials_of(second);
        assert(second.len() == valid.len());
        assert forall|k: int| 0 <= k < valid.len() implies frost::commits(
            #[trigger] cs[k],
            kept[k],
        ) && cs[k].index == shares[valid[k]].index by {
            assert(0 <= valid[k]);
        }
        assert forall|k: int| 0 <= k < valid.len() implies (#[trigger] partials[k]).z.value()
            == frost::partial_value(shares[valid[k]], kept[k], message, cs)
            % order::group_order() by {
            assert(second[k] is Ok);
        }
        assert(frost::signing(shares, valid, kept, message, cs, partials));
        client::law_honest_rounds_accepted(shares, f, valid, kept, message, cs, partials);
        let i = valid[0];
        assert(answered(nodes[i], request, middle[i], first[i]));
        assert(makes(nodes[i], request, client::first_transaction(first)));
    }
}

/// Where as many nodes as there are positions answer that the request is valid, so many count.
proof fn lemma_valid_count(first: Seq<Result<Round1Response>>, positions: Seq<int>)
    requires
        feldman::are_positions(positions, first.len()),
        forall|k: int|
            0 <= k < positions.len() ==> client::is_valid(first[#[trigger] positions[k]]),
    ensures
        client::valid_nodes(first).len() >= positions.len(),
{
    let valid = client::valid_nodes(first);
    client::lemma_valid_nodes_increase(first);
    assert(positions.no_duplicates()) by {
        assert forall|i: int, j: int|
            0 <= i < positions.len() && 0 <= j < positions.len() && i != j implies positions[i]
            != positions[j] by {
            if i < j {
                assert(positions[i] != positions[j]);
            } else {
                assert(positions[j] != positions[i]);
            }
        }
    }
    positions.unique_seq_to_set();
    vstd::seq_lib::seq_to_set_is_finite(valid);
    assert(positions.to_set().subset_of(valid.to_set())) by {
        assert forall|x: int| positions.to_set().contains(x) implies valid.to_set().contains(x) by {
            let k = choose|k: int| 0 <= k < positions.len() && positions[k] == x;
            assert(client::is_valid(first[positions[k]]));
            client::lemma_valid_nodes_complete(first, x);
        }
    }
    vstd::set_lib::lemma_len_subset(positions.to_set(), valid.to_set());
    valid.lemma_cardinality_of_set();
}

/// The nonces that a local transport keeps in each state.
spec fn local_nonces<E: ProgramExecutor>(states: Seq<LocalTransport<E>>) -> Seq<
    Seq<Option<SigningNonce>>,
> {
    Seq::new(states.len(), |k: int| states[k].nonces())
}

/// The nonces that a transport with given blocks keeps in each state.
spec fn seeded_nonces<E: ProgramExecutor>(states: Seq<SeededTransport<E>>) -> Seq<
    Seq<Option<SigningNonce>>,
> {
    Seq::new(states.len(), |k: int| states[k].nonces())
}

/// The answers of a local transport are those of nodes on one machine.
proof fn lemma_local_exchange<E: ProgramExecutor>(
    states: Seq<LocalTransport<E>>,
    request: AttestationRequest,
    first: Seq<Result<Round1Response>>,
    second: Seq<Result<Round2Response>>,
)
    requires
        client::is_exchange(states, request, first, second),
        first.len() <= states[0].nodes().len(),
        states[0].nonces().len() == states[0].nodes().len(),
    ensures
        is_local(
            states[0].nodes(),
            local_nonces(states),
            request,
            first,
            second,
        ),
{
    let nodes = states[0].nodes();
    let nonces = local_nonces(states);
    assert forall|k: int| 0 <= k < states.len() implies (#[trigger] states[k]).nodes() == nodes by {
        lemma_local_nodes(states, request, first, second, k);
    }
    assert forall|k: int| 0 <= k < first.len() implies can_answer(
        nodes[k],
        request,
        nonces[k],
        k,
        nonces[k + 1],
        #[trigger] first[k],
    ) by {
        assert(states[k].answers_first(k, request, first[k], &states[k + 1]));
        assert(states[k].nodes() == nodes);
        let blocks = choose|blocks: Option<([u8; 64], [u8; 64])>| #[trigger]
            answers(
                states[k].nodes()[k],
                request,
                blocks,
                states[k].nonces(),
                k,
                states[k + 1].nonces(),
                first[k],
            );
        assert(answers(nodes[k], request, blocks, nonces[k], k, nonces[k + 1], first[k]));
    }
    let n = first.len();
    assert forall|k: int| 0 <= k < second.len() implies can_sign(
        nodes,
        nonces[n + k],
        first,
        k,
        nonces[n + k + 1],
        #[trigger] second[k],
    ) by {
        assert(states[n + k].answers_second(
            client::valid_nodes(first)[k],
            client::message_of(first),
            client::commitments_of(first),
            second[k],
            &states[n + k + 1],
        ));
        assert(states[n + k].nodes() == nodes);
    }
}

/// The nodes of a local transport stay what they are.
proof fn lemma_local_nodes<E: ProgramExecutor>(
    states: Seq<LocalTransport<E>>,
    request: AttestationRequest,
    first: Seq<Result<Round1Response>>,
    second: Seq<Result<Round2Response>>,
    k: int,
)
    requires
        client::is_exchange(states, request, first, second),
        0 <= k < states.len(),
    ensures
        states[k].nodes() == states[0].nodes(),
    decreases k,
{
    if k > 0 {
        lemma_local_nodes(states, request, first, second, k - 1);
        let n = first.len();
        if k <= n {
            assert(states[k - 1].answers_first(k - 1, request, first[k - 1], &states[k - 1 + 1]));
        } else {
            let j = k - 1 - n;
            assert(states[n + j].answers_second(
                client::valid_nodes(first)[j],
                client::message_of(first),
                client::commitments_of(first),
                second[j],
                &states[n + j + 1],
            ));
        }
    }
}

/// The answers of a transport with given blocks are those of nodes on one machine, and every valid
/// answer uses up two blocks.
proof fn lemma_seeded_exchange<E: ProgramExecutor>(
    states: Seq<SeededTransport<E>>,
    request: AttestationRequest,
    first: Seq<Result<Round1Response>>,
    second: Seq<Result<Round2Response>>,
)
    requires
        client::is_exchange(states, request, first, second),
        first.len() <= states[0].nodes().len(),
        states[0].nonces().len() == states[0].nodes().len(),
    ensures
        is_local(
            states[0].nodes(),
            seeded_nonces(states),
            request,
            first,
            second,
        ),
        forall|k: int|
            0 <= k < first.len() && states[0].left().len() >= 2 * client::valid_nodes(
                first.take(k),
            ).len() + 2 && willing(states[0].nodes()[k], request) ==> !without_bytes(
                #[trigger] first[k],
            ),
{
    let nodes = states[0].nodes();
    let nonces = seeded_nonces(states);
    assert forall|k: int| 0 <= k < states.len() implies (#[trigger] states[k]).nodes() == nodes by {
        lemma_seeded_states(states, request, first, second, k);
    }
    assert forall|k: int| 0 <= k < first.len() implies can_answer(
        nodes[k],
        request,
        nonces[k],
        k,
        nonces[k + 1],
        #[trigger] first[k],
    ) by {
        assert(states[k].answers_first(k, request, first[k], &states[k + 1]));
        assert(states[k].nodes() == nodes);
        let blocks = next_blocks(states[k].left());
        assert(answers(nodes[k], request, blocks, nonces[k], k, nonces[k + 1], first[k]));
    }
    let n = first.len();
    assert forall|k: int| 0 <= k < second.len() implies can_sign(
        nodes,
        nonces[n + k],
        first,
        k,
        nonces[n + k + 1],
        #[trigger] second[k],
    ) by {
        assert(states[n + k].answers_second(
            client::valid_nodes(first)[k],
            client::message_of(first),
            client::commitments_of(first),
            second[k],
            &states[n + k + 1],
        ));
        assert(states[n + k].nodes() == nodes);
    }
    assert forall|k: int|
        0 <= k < first.len() && states[0].left().len() >= 2 * client::valid_nodes(
            first.take(k),
        ).len() + 2 && willing(states[0].nodes()[k], request) implies !without_bytes(
        #[trigger] first[k],
    ) by {
        lemma_seeded_states(states, request, first, second, k);
        lemma_first_round(nodes, nonces, request, first, second, k);
        assert(states[k].answers_first(k, request, first[k], &states[k + 1]));
        lemma_valid_draws(
            nodes[k],
            request,
            next_blocks(states[k].left()),
            nonces[k],
            k,
            nonces[k + 1],
            first[k],
        );
    }
}

/// The nodes of a transport with given blocks stay what they are, and every valid answer uses up
/// two blocks.
proof fn lemma_seeded_states<E: ProgramExecutor>(
    states: Seq<SeededTransport<E>>,
    request: AttestationRequest,
    first: Seq<Result<Round1Response>>,
    second: Seq<Result<Round2Response>>,
    k: int,
)
    requires
        client::is_exchange(states, request, first, second),
        0 <= k < states.len(),
    ensures
        states[k].nodes() == states[0].nodes(),
        k <= first.len() && 2 * client::valid_nodes(first.take(k)).len() <= states[0].left().len()
            ==> states[k].left().len() == states[0].left().len() - 2 * client::valid_nodes(
            first.take(k),
        ).len(),
    decreases k,
{
    if k > 0 {
        lemma_seeded_states(states, request, first, second, k - 1);
        let n = first.len();
        if k <= n {
            assert(states[k - 1].answers_first(k - 1, request, first[k - 1], &states[k - 1 + 1]));
            assert(first.take(k).drop_last() =~= first.take(k - 1));
            assert(first.take(k).last() == first[k - 1]);
        } else {
            let j = k - 1 - n;
            assert(states[n + j].answers_second(
                client::valid_nodes(first)[j],
                client::message_of(first),
                client::commitments_of(first),
                second[j],
                &states[n + j + 1],
            ));
        }
    }
}

/// An attestation by willing nodes succeeds: where the nodes of a local transport share a key, and
/// as many of them as the threshold says, whichever they are, find the request valid, the client
/// gets an attested transaction that verifies and that one of the nodes has made of the request,
/// unless a node has no random bytes.
pub proof fn law_willing_nodes_attest<E: ProgramExecutor>(
    before: LocalTransport<E>,
    request: AttestationRequest,
    first: Seq<Result<Round1Response>>,
    second: Seq<Result<Round2Response>>,
    between: LocalTransport<E>,
    attempts: Seq<client::Attempt>,
    after: LocalTransport<E>,
    f: Seq<int>,
    threshold: nat,
    node_count: nat,
    group_public_key: EdwardsPoint,
    r: Result<AttestedTransaction>,
    available: Seq<int>,
)
    requires
        before.nonces().len() == before.nodes().len(),
        feldman::shares_of(held_shares(before.nodes()), f),
        forall|i: int|
            0 <= i < before.nodes().len() ==> !(
            #[trigger] before.nodes()[i]).key_shares@.dom().contains(request.program_cid@),
        group_public_key@ == point::base_times(interpolation::poly_value(f, 0)),
        f.len() <= threshold,
        0 < threshold <= available.len(),
        node_count <= before.nodes().len(),
        feldman::are_positions(available, node_count),
        forall|k: int|
            0 <= k < available.len() ==> willing(before.nodes()[#[trigger] available[k]], request),
        client::asked(first, threshold, node_count),
        client::exchanged(before, request, first, second, between),
        client::attests(
            threshold,
            node_count,
            group_public_key,
            request,
            first,
            second,
            between,
            attempts,
            after,
            r,
        ),
    ensures
        match r {
            Ok(attested) => attested.valid() && attested.group_public_key == group_public_key
                && exists|i: int|
                0 <= i < node_count && makes(
                    #[trigger] before.nodes()[i],
                    request,
                    attested.transaction,
                ),
            Err(e) => e is InsufficientShares && exists|k: int|
                0 <= k < first.len() && without_bytes(#[trigger] first[k]),
        },
{
    let states = choose|states: Seq<LocalTransport<E>>| #[trigger]
        client::is_exchange(states, request, first, second) && states[0] == before
            && states.last() == between;
    lemma_local_exchange(states, request, first, second);
    lemma_local_attestation(
        before.nodes(),
        local_nonces(states),
        request,
        first,
        second,
        between,
        attempts,
        after,
        f,
        threshold,
        node_count,
        group_public_key,
        r,
    );
    if r is Err && !(exists|k: int| 0 <= k < first.len() && without_bytes(#[trigger] first[k])) {
        assert forall|k: int| 0 <= k < available.len() implies client::is_valid(
            first[#[trigger] available[k]],
        ) by {
            assert(willing(before.nodes()[available[k]], request));
        }
        lemma_valid_count(first, available);
    }
}

/// A request that no node finds valid is refused: where the program is frozen or rejects the
/// request at every node of a local transport, the client gets no attested transaction.
pub proof fn law_unwilling_nodes_refuse<E: ProgramExecutor>(
    before: LocalTransport<E>,
    request: AttestationRequest,
    first: Seq<Result<Round1Response>>,
    second: Seq<Result<Round2Response>>,
    between: LocalTransport<E>,
    attempts: Seq<client::Attempt>,
    after: LocalTransport<E>,
    threshold: nat,
    node_count: nat,
    group_public_key: EdwardsPoint,
    r: Result<AttestedTransaction>,
)
    requires
        before.nonces().len() == before.nodes().len(),
        node_count <= before.nodes().len(),
        forall|i: int|
            0 <= i < node_count ==> unwilling(#[trigger] before.nodes()[i], request),
        client::asked(first, threshold, node_count),
        client::exchanged(before, request, first, second, between),
        client::attests(
            threshold,
            node_count,
            group_public_key,
            request,
            first,
            second,
            between,
            attempts,
            after,
            r,
        ),
    ensures
        r matches Err(CraftSecError::InsufficientShares { have, need }) && have == 0 && need
            == threshold,
        first.len() == node_count || threshold == 0,
        second.len() == 0,
{
    let states = choose|states: Seq<LocalTransport<E>>| #[trigger]
        client::is_exchange(states, request, first, second) && states[0] == before
            && states.last() == between;
    let nonces = local_nonces(states);
    lemma_local_exchange(states, request, first, second);
    lemma_first_round(before.nodes(), nonces, request, first, second, first.len() as int);
    assert forall|k: int| 0 <= k < first.len() implies !client::is_valid(#[trigger] first[k]) by {
        assert(answered(
            before.nodes()[k],
            request,
            nonces[first.len() as int][k],
            first[k],
        ));
        assert(unwilling(before.nodes()[k], request));
    }
    client::lemma_valid_nodes_count(first);
}

/// An attestation over a transport with given blocks: it succeeds just if enough nodes find the
/// request valid, where there are two blocks for each.
pub proof fn law_seeded_attestation<E: ProgramExecutor>(
    before: SeededTransport<E>,
    request: AttestationRequest,
    first: Seq<Result<Round1Response>>,
    second: Seq<Result<Round2Response>>,
    between: SeededTransport<E>,
    attempts: Seq<client::Attempt>,
    after: SeededTransport<E>,
    f: Seq<int>,
    threshold: nat,
    node_count: nat,
    group_public_key: EdwardsPoint,
    r: Result<AttestedTransaction>,
)
    requires
        before.nonces().len() == before.nodes().len(),
        feldman::shares_of(held_shares(before.nodes()), f),
        forall|i: int|
            0 <= i < before.nodes().len() ==> !(
            #[trigger] before.nodes()[i]).key_shares@.dom().contains(request.program_cid@),
        group_public_key@ == point::base_times(interpolation::poly_value(f, 0)),
        f.len() <= threshold,
        0 < threshold <= node_count <= before.nodes().len(),
        client::asked(first, threshold, node_count),
        client::exchanged(before, request, first, second, between),
        client::attests(
            threshold,
            node_count,
            group_public_key,
            request,
            first,
            second,
            between,
            attempts,
            after,
            r,
        ),
    ensures
        match r {
            Ok(attested) => attested.valid() && attested.group_public_key == group_public_key
                && exists|i: int|
                0 <= i < node_count && makes(
                    #[trigger] before.nodes()[i],
                    request,
                    attested.transaction,
                ),
            Err(e) => e matches CraftSecError::InsufficientShares { have, need } && have
                < threshold && need == threshold,
        },
        before.left().len() >= 2 * threshold && (forall|i: int|
            0 <= i < node_count ==> willing(#[trigger] before.nodes()[i], request)) ==> r is Ok,
        (forall|i: int| 0 <= i < node_count ==> unwilling(#[trigger] before.nodes()[i], request))
            ==> (r matches Err(CraftSecError::InsufficientShares { have, need }) && have == 0),
{
    let states = choose|states: Seq<SeededTransport<E>>| #[trigger]
        client::is_exchange(states, request, first, second) && states[0] == before
            && states.last() == between;
    let nodes = before.nodes();
    lemma_seeded_exchange(states, request, first, second);
    lemma_local_attestation(
        nodes,
        seeded_nonces(states),
        request,
        first,
        second,
        between,
        attempts,
        after,
        f,
        threshold,
        node_count,
        group_public_key,
        r,
    );
    client::lemma_valid_nodes_count(first);
    if forall|i: int| 0 <= i < node_count ==> unwilling(#[trigger] nodes[i], request) {
        assert forall|k: int| 0 <= k < first.len() implies !client::is_valid(
            #[trigger] first[k],
        ) by {
            assert(unwilling(nodes[k], request));
        }
    }
    if before.left().len() >= 2 * threshold && (forall|i: int|
        0 <= i < node_count ==> willing(#[trigger] nodes[i], request)) {
        assert forall|k: int| 0 <= k < first.len() implies client::is_valid(
            #[trigger] first[k],
        ) by {
            assert(willing(nodes[k], request));
            client::lemma_asked_before(first, threshold, node_count, k);
        }
    }
}

/// Who is willing and who is not: a node is willing if the program is not frozen and its executor
/// only ever says that the request is valid, and unwilling if the program is frozen or its executor
/// never says so. What a node makes of a request is what its executor says.
pub proof fn law_willingness<E: ProgramExecutor>(
    node: CraftSecNode<E>,
    request: AttestationRequest,
    transaction: Transaction,
)
    ensures
        willing(node, request) <==> !node.frozen_programs@.contains(request.program_cid@) && forall|
            outcome: Result<AttestationResult>,
        | #[trigger]
            call_ensures(E::execute, (&node.registry, &request), outcome) ==> outcome matches Ok(
                AttestationResult::Valid(_),
            ),
        unwilling(node, request) <==> node.frozen_programs@.contains(request.program_cid@)
            || forall|outcome: Result<AttestationResult>| #[trigger]
            call_ensures(E::execute, (&node.registry, &request), outcome) ==> !(outcome matches Ok(
                AttestationResult::Valid(_),
            )),
        makes(node, request, transaction) <==> !node.frozen_programs@.contains(
            request.program_cid@,
        ) && call_ensures(
            E::execute,
            (&node.registry, &request),
            Ok(AttestationResult::Valid(transaction)),
        ),
{
}

/// A node signs what it is sent with its own share and with the nonces that it has committed to; one
/// that has drawn none refuses.
pub proof fn law_second_round(
    share: KeyShare,
    nonce: Option<SigningNonce>,
    message: Seq<u8>,
    commitments: Seq<SigningCommitment>,
    r: Result<Round2Response>,
    commitment: SigningCommitment,
)
    requires
        signs_with(share, nonce, message, commitments, r),
    ensures
        r is Ok <==> nonce is Some,
        nonce matches Some(drawn) ==> frost::commits(commitment, drawn) ==> (r matches Ok(response)
            && response.partial.index == share.index && point::base_times(
            response.partial.z.value() as int,
        ) == frost::expected_partial(
            share.index,
            commitment,
            point::base_times(share.secret.value() as int),
            message,
            commitments,
            share.group_public_key@,
        )),
{
    if nonce is Some && frost::commits(commitment, nonce->0) {
        frost::law_partial_verifies(
            share,
            nonce->0,
            commitment,
            message,
            commitments,
            r->Ok_0.partial.z,
        );
    }
}

/// The first round at a node that says of a request that it is valid: with random blocks it passes
/// the transaction on with a commitment, and keeps the nonces; other nodes' nonces stay. Without
/// blocks, or for a request that is not valid, there is no commitment.
pub proof fn law_first_round(
    outcome: Result<AttestationResult>,
    index: model::ParticipantIndex,
    blocks: Option<([u8; 64], [u8; 64])>,
    before: Seq<Option<SigningNonce>>,
    node_index: int,
    after: Seq<Option<SigningNonce>>,
    r: Result<Round1Response>,
    other: int,
)
    requires
        handles(outcome, index, blocks, before, node_index, after, r),
        0 <= node_index < before.len(),
    ensures
        after.len() == before.len(),
        0 <= other < before.len() && other != node_index ==> after[other] == before[other],
        outcome matches Ok(AttestationResult::Valid(tx)) ==> blocks is Some ==> (r matches Ok(
            response,
        ) && response.result == AttestationResult::Valid(tx) && response.commitment is Some
            && after[node_index] is Some && frost::commits(
            response.commitment->0,
            after[node_index]->0,
        ) && after[node_index]->0.d.value() == scalar_ext::block_value(given(blocks).0@)
            && after[node_index]->0.e.value() == scalar_ext::block_value(given(blocks).1@)
            && after[node_index]->0.index == index),
        outcome matches Ok(AttestationResult::Invalid(reason)) ==> (r matches Ok(response)
            && response.result == AttestationResult::Invalid(reason) && response.commitment is None
            && after[node_index] is None),
        outcome matches Err(e) ==> r == Err::<Round1Response, CraftSecError>(e) && after == before,
{
    if !(outcome matches Ok(AttestationResult::Valid(_)) && blocks is None) {
        let response = choose|response: Result<NodeResponse>| #[trigger]
            node::responds(outcome, index, given(blocks).0@, given(blocks).1@, response) && relays(
                response,
                before,
                node_index,
                after,
                r,
            );
        assert(relays(response, before, node_index, after, r));
    }
}

/// Random blocks are used once: a node that commits draws its two nonces from two blocks of their
/// own, which are the next ones, and those are then gone. Without two blocks none is used.
pub proof fn law_blocks_used_once<E: ProgramExecutor>(
    before: SeededTransport<E>,
    node_index: int,
    request: AttestationRequest,
    answer: Result<Round1Response>,
    after: SeededTransport<E>,
)
    requires
        before.answers_first(node_index, request, answer, &after),
        0 <= node_index < before.nonces().len(),
        answer is Ok,
        answer->Ok_0.result is Valid,
    ensures
        before.left().len() >= 2,
        after.left() == before.left().subrange(2, before.left().len() as int),
        after.nonces()[node_index] is Some,
        after.nonces()[node_index]->0.d.value() == scalar_ext::block_value(before.left()[0]@),
        after.nonces()[node_index]->0.e.value() == scalar_ext::block_value(before.left()[1]@),
        answer->Ok_0.commitment is Some,
        answer->Ok_0.commitment->0.hiding@ == point::base_times(
            scalar_ext::block_value(before.left()[0]@),
        ),
        answer->Ok_0.commitment->0.binding@ == point::base_times(
            scalar_ext::block_value(before.left()[1]@),
        ),
{
    let blocks = next_blocks(before.left());
    let node = before.nodes()[node_index];
    let index = node.share_for(request.program_cid@).index;
    let outcome = choose|outcome: Result<AttestationResult>|
        node::validates(node, request, outcome) && #[trigger] handles(
            outcome,
            index,
            blocks,
            before.nonces(),
            node_index,
            after.nonces(),
            answer,
        );
    law_first_round(
        outcome,
        index,
        blocks,
        before.nonces(),
        node_index,
        after.nonces(),
        answer,
        node_index,
    );
    assert(before.left().skip(2) =~= before.left().subrange(2, before.left().len() as int));
}

} // verus!
