//! The client: it sends attestation requests to the nodes, collects their signature shares and
//! aggregates them into the group's signature.

use crate::error::{CraftSecError, Result};
use crate::feldman;
use crate::frost;
use crate::frost::{
    aggregate, verify, PartialSignature, SigningCommitment, SigningNonce, ThresholdSignature,
};
use crate::hashing;
use crate::interpolation;
use crate::json;
use crate::model;
use crate::model::{AttestationRequest, AttestationResult, KeyShare, Transaction};
use crate::modular;
use crate::order;
use crate::point;
use crate::point::EdwardsPoint;
use crate::scalar;
use vstd::arithmetic::div_mod::*;
use vstd::prelude::*;
use vstd::utf8::*;

verus! {

/// A node's answer in the first round.
#[derive(Debug)]
pub struct Round1Response {
    /// What the program says of the request.
    pub result: AttestationResult,
    /// If the request is valid, the commitment to the node's nonces.
    pub commitment: Option<SigningCommitment>,
}

/// A node's answer in the second round.
#[derive(Debug)]
pub struct Round2Response {
    /// The node's partial signature.
    pub partial: PartialSignature,
}

/// A transaction with the group's signature.
#[derive(Debug)]
pub struct AttestedTransaction {
    /// The transaction.
    pub transaction: Transaction,
    /// The group's signature.
    pub signature: ThresholdSignature,
    /// The group's public key.
    pub group_public_key: EdwardsPoint,
}

impl AttestedTransaction {
    /// The signature is valid for the transaction under the group's public key.
    pub open spec fn valid(self) -> bool {
        frost::accepts(
            self.signature,
            self.group_public_key@,
            encode_utf8(self.transaction.json()),
        )
    }

    /// Verifies the attestation.
    pub fn verify(&self) -> (r: Result<()>)
        ensures
            r is Ok <==> self.valid(),
            r matches Err(e) ==> e matches CraftSecError::InvalidSignature(m) && m@
                == "threshold signature verification failed"@,
    {
        let message = self.transaction.signing_bytes();
        verify(&self.signature, &self.group_public_key, message.as_slice())
    }
}

/// How the client reaches the nodes.
pub trait NodeTransport {
    /// There is a node with the given number. A transport that says nothing else answers for every
    /// number.
    open spec fn reaches(&self, node_index: int) -> bool {
        true
    }

    /// What a node can answer to a request, and what then becomes of the transport. A transport
    /// that says nothing else leaves it open.
    open spec fn answers_first(
        &self,
        node_index: int,
        request: AttestationRequest,
        answer: Result<Round1Response>,
        after: &Self,
    ) -> bool {
        true
    }

    /// What a node can answer to a message and commitments, and what then becomes of the
    /// transport. A transport that says nothing else leaves it open.
    open spec fn answers_second(
        &self,
        node_index: int,
        message: Seq<u8>,
        commitments: Seq<SigningCommitment>,
        answer: Result<Round2Response>,
        after: &Self,
    ) -> bool {
        true
    }

    /// Sends a request to a node and returns what it says of it.
    fn round1(&mut self, node_index: usize, request: &AttestationRequest) -> (r: Result<
        Round1Response,
    >)
        requires
            old(self).reaches(node_index as int),
        ensures
            forall|i: int| #[trigger] final(self).reaches(i) == old(self).reaches(i),
            old(self).answers_first(node_index as int, *request, r, final(self)),
    ;

    /// Sends a message and all commitments to a node and returns its partial signature.
    fn round2(
        &mut self,
        node_index: usize,
        message: &[u8],
        commitments: &[SigningCommitment],
    ) -> (r: Result<Round2Response>)
        requires
            old(self).reaches(node_index as int),
        ensures
            forall|i: int| #[trigger] final(self).reaches(i) == old(self).reaches(i),
            old(self).answers_second(
                node_index as int,
                message@,
                commitments@,
                r,
                final(self),
            ),
    ;
}

/// The node's answer is that the request is valid.
pub open spec fn is_valid(answer: Result<Round1Response>) -> bool {
    answer matches Ok(response) && response.result is Valid
}

/// The numbers of the nodes that answered that the request is valid, in order.
pub open spec fn valid_nodes(answers: Seq<Result<Round1Response>>) -> Seq<int>
    decreases answers.len(),
{
    if answers.len() == 0 {
        Seq::empty()
    } else if is_valid(answers.last()) {
        valid_nodes(answers.drop_last()).push(answers.len() - 1)
    } else {
        valid_nodes(answers.drop_last())
    }
}

/// Enough nodes have answered that the request is valid, the last of those asked having answered.
pub open spec fn enough(answers: Seq<Result<Round1Response>>, threshold: nat) -> bool {
    answers.len() > 0 && answers.last() is Ok && valid_nodes(answers).len() >= threshold
}

/// The nodes are asked one after the other until as many as the threshold says have answered that
/// the request is valid, or all have been asked. A node that fails to answer is passed over.
pub open spec fn asked(
    answers: Seq<Result<Round1Response>>,
    threshold: nat,
    node_count: nat,
) -> bool {
    &&& answers.len() <= node_count
    &&& forall|k: int| 0 < k < answers.len() ==> !enough(#[trigger] answers.take(k), threshold)
    &&& answers.len() == node_count || enough(answers, threshold)
}

/// The transaction of the first node that answered that the request is valid.
pub open spec fn first_transaction(answers: Seq<Result<Round1Response>>) -> Transaction {
    answers[valid_nodes(answers)[0]]->Ok_0.result->Valid_0
}

/// Every node that answered that the request is valid has committed to its nonces.
pub open spec fn all_committed(answers: Seq<Result<Round1Response>>) -> bool {
    forall|k: int|
        0 <= k < valid_nodes(answers).len() ==> (answers[#[trigger] valid_nodes(
            answers,
        )[k]]->Ok_0).commitment is Some
}

/// The commitments of the nodes that answered that the request is valid.
pub open spec fn commitments_of(answers: Seq<Result<Round1Response>>) -> Seq<SigningCommitment> {
    Seq::new(
        valid_nodes(answers).len(),
        |k: int| answers[valid_nodes(answers)[k]]->Ok_0.commitment->0,
    )
}

/// The partial signatures of the second round.
pub open spec fn partials_of(answers: Seq<Result<Round2Response>>) -> Seq<PartialSignature> {
    Seq::new(answers.len(), |k: int| answers[k]->Ok_0.partial)
}

/// The aggregated signature is valid.
pub open spec fn aggregate_accepted(
    message: Seq<u8>,
    cs: Seq<SigningCommitment>,
    partials: Seq<PartialSignature>,
    key: point::Element,
) -> bool {
    point::base_times(interpolation::sum(frost::partial_scalars(partials))) == frost::group_element(
        message,
        cs,
    ).plus(key.times(frost::challenge(frost::group_element(message, cs), key, message)))
}

/// The transaction is attested with the signature that the commitments and partial signatures make.
pub open spec fn attested_by(
    transaction: Transaction,
    cs: Seq<SigningCommitment>,
    group_public_key: EdwardsPoint,
    r: Result<AttestedTransaction>,
) -> bool {
    r matches Ok(attested) && attested.transaction == transaction && attested.group_public_key
        == group_public_key && attested.valid() && attested.signature.r@ == frost::group_element(
        encode_utf8(transaction.json()),
        cs,
    )
}

/// The aggregated signature is refused.
pub open spec fn refuses_signature(r: Result<AttestedTransaction>) -> bool {
    r matches Err(CraftSecError::InvalidSignature(m)) && m@
        == "threshold signature verification failed"@
}

/// A try to have certain nodes sign: their numbers, and their answers in both rounds.
pub ghost struct Attempt {
    /// The numbers of the nodes.
    pub nodes: Seq<int>,
    /// The answers of the first round.
    pub first: Seq<Result<Round1Response>>,
    /// The answers of the second round.
    pub second: Seq<Result<Round2Response>>,
}

/// The node's answer is that the request is valid, and it has committed to its nonces.
pub open spec fn is_usable(answer: Result<Round1Response>) -> bool {
    is_valid(answer) && answer->Ok_0.commitment is Some
}

impl Attempt {
    /// The transaction to be signed: that of the first node.
    pub open spec fn transaction(self) -> Transaction {
        self.first[0]->Ok_0.result->Valid_0
    }

    /// The message to be signed.
    pub open spec fn message(self) -> Seq<u8> {
        encode_utf8(self.transaction().json())
    }

    /// The nodes' commitments.
    pub open spec fn commitments(self) -> Seq<SigningCommitment> {
        Seq::new(self.first.len(), |k: int| self.first[k]->Ok_0.commitment->0)
    }

    /// All nodes have found the request valid and committed.
    pub open spec fn committed(self) -> bool {
        self.first.len() == self.nodes.len() && forall|k: int|
            0 <= k < self.first.len() ==> is_usable(#[trigger] self.first[k])
    }

    /// The first round is over: all nodes have committed, or one has not.
    pub open spec fn first_over(self) -> bool {
        &&& self.first.len() <= self.nodes.len()
        &&& forall|k: int| 0 <= k < self.first.len() - 1 ==> is_usable(#[trigger] self.first[k])
        &&& self.committed() || (self.first.len() > 0 && !is_usable(self.first.last()))
    }

    /// The second round is over: it was not begun unless all nodes have committed, and then all
    /// nodes have signed, or one has not.
    pub open spec fn second_over(self) -> bool {
        &&& !self.committed() ==> self.second.len() == 0
        &&& self.second.len() <= self.nodes.len()
        &&& forall|k: int| 0 <= k < self.second.len() - 1 ==> (#[trigger] self.second[k]) is Ok
        &&& self.committed() ==> self.second.len() == self.nodes.len() || (self.second.len() > 0
            && self.second.last() is Err)
    }

    /// All nodes have signed, and the signature is valid.
    pub open spec fn succeeds(self, key: point::Element) -> bool {
        &&& self.committed()
        &&& self.second.len() == self.nodes.len()
        &&& forall|k: int| 0 <= k < self.second.len() ==> (#[trigger] self.second[k]) is Ok
        &&& aggregate_accepted(
            self.message(),
            self.commitments(),
            partials_of(self.second),
            key,
        )
    }
}

/// The answers of an attempt are those of its nodes, with the transport in the given states.
pub open spec fn is_attempt<T: NodeTransport>(
    states: Seq<T>,
    request: AttestationRequest,
    attempt: Attempt,
) -> bool {
    &&& states.len() == attempt.first.len() + attempt.second.len() + 1
    &&& forall|k: int|
        0 <= k < attempt.first.len() ==> states[k].answers_first(
            attempt.nodes[k],
            request,
            #[trigger] attempt.first[k],
            &states[k + 1],
        )
    &&& forall|k: int|
        0 <= k < attempt.second.len() ==> states[attempt.first.len() + k].answers_second(
            attempt.nodes[k],
            attempt.message(),
            attempt.commitments(),
            #[trigger] attempt.second[k],
            &states[attempt.first.len() + k + 1],
        )
}

/// An attempt was made and takes the transport from one state to another.
pub open spec fn attempted<T: NodeTransport>(
    before: T,
    request: AttestationRequest,
    attempt: Attempt,
    after: T,
) -> bool {
    &&& attempt.first_over()
    &&& attempt.second_over()
    &&& exists|states: Seq<T>| #[trigger]
        is_attempt(states, request, attempt) && states[0] == before && states.last() == after
}

/// Attempts were made one after the other, between the given states of the transport.
pub open spec fn is_series<T: NodeTransport>(
    bounds: Seq<T>,
    request: AttestationRequest,
    attempts: Seq<Attempt>,
) -> bool {
    &&& bounds.len() == attempts.len() + 1
    &&& forall|i: int|
        0 <= i < attempts.len() ==> attempted(
            bounds[i],
            request,
            #[trigger] attempts[i],
            bounds[i + 1],
        )
}

/// The nodes are a choice of as many as needed, in order.
pub open spec fn is_choice(nodes: Seq<int>, size: nat, node_count: nat) -> bool {
    &&& nodes.len() == size
    &&& forall|k: int| 0 <= k < nodes.len() ==> 0 <= #[trigger] nodes[k] < node_count
    &&& forall|j: int, k: int|
        0 <= j < k < nodes.len() ==> #[trigger] nodes[j] < #[trigger] nodes[k]
}

/// There is an attempt with the given nodes.
pub open spec fn tried(attempts: Seq<Attempt>, nodes: Seq<int>) -> bool {
    exists|i: int| 0 <= i < attempts.len() && (#[trigger] attempts[i]).nodes == nodes
}

/// No attempt succeeds.
pub open spec fn all_fail(attempts: Seq<Attempt>, key: point::Element) -> bool {
    forall|i: int| 0 <= i < attempts.len() ==> !(#[trigger] attempts[i]).succeeds(key)
}

/// What comes of a signature that is invalid: other choices of as many nodes are tried until one
/// succeeds, so that nodes that sign wrongly are left out.
pub open spec fn recovers<T: NodeTransport>(
    before: T,
    request: AttestationRequest,
    size: nat,
    node_count: nat,
    group_public_key: EdwardsPoint,
    attempts: Seq<Attempt>,
    after: T,
    r: Result<AttestedTransaction>,
) -> bool {
    &&& exists|bounds: Seq<T>| #[trigger]
        is_series(bounds, request, attempts) && bounds[0] == before && bounds.last() == after
    &&& forall|i: int|
        0 <= i < attempts.len() ==> is_choice((#[trigger] attempts[i]).nodes, size, node_count)
    &&& {
        ||| attempts.len() > 0 && all_fail(attempts.drop_last(), group_public_key@)
            && attempts.last().succeeds(group_public_key@) && attested_by(
            attempts.last().transaction(),
            attempts.last().commitments(),
            group_public_key,
            r,
        )
        ||| all_fail(attempts, group_public_key@) && refuses_signature(r) && forall|nodes: Seq<int>|
            is_choice(nodes, size, node_count) ==> #[trigger] tried(attempts, nodes)
    }
}

/// What comes of the two rounds, and of the attempts that follow an invalid signature.
pub open spec fn attests<T: NodeTransport>(
    threshold: nat,
    node_count: nat,
    group_public_key: EdwardsPoint,
    request: AttestationRequest,
    first: Seq<Result<Round1Response>>,
    second: Seq<Result<Round2Response>>,
    between: T,
    attempts: Seq<Attempt>,
    after: T,
    r: Result<AttestedTransaction>,
) -> bool {
    let valid = valid_nodes(first);
    let cs = commitments_of(first);
    if valid.len() < threshold || valid.len() == 0 {
        &&& r matches Err(CraftSecError::InsufficientShares { have, need }) && have == valid.len()
            && need == threshold
        &&& second.len() == 0
        &&& attempts.len() == 0
        &&& after == between
    } else if !all_committed(first) {
        &&& r matches Err(CraftSecError::InvalidCommitment(m)) && m@ == "missing commitment"@
        &&& second.len() == 0
        &&& attempts.len() == 0
        &&& after == between
    } else {
        &&& second.len() <= cs.len()
        &&& forall|k: int| 0 <= k < second.len() - 1 ==> (#[trigger] second[k]) is Ok
        &&& if second.len() > 0 && second.last() is Err {
            &&& r == Err::<AttestedTransaction, CraftSecError>(second.last()->Err_0)
            &&& attempts.len() == 0
            &&& after == between
        } else {
            &&& second.len() == cs.len()
            &&& if aggregate_accepted(
                message_of(first),
                cs,
                partials_of(second),
                group_public_key@,
            ) {
                &&& attested_by(first_transaction(first), cs, group_public_key, r)
                &&& attempts.len() == 0
                &&& after == between
            } else {
                recovers(
                    between,
                    request,
                    cs.len(),
                    node_count,
                    group_public_key,
                    attempts,
                    after,
                    r,
                )
            }
        }
    }
}

/// Nodes that sign wrongly are left out: where the signature is invalid and some choice of as many
/// nodes makes a valid one whenever it is tried, the transaction is attested.
pub proof fn law_wrong_signers_left_out<T: NodeTransport>(
    before: T,
    request: AttestationRequest,
    size: nat,
    node_count: nat,
    group_public_key: EdwardsPoint,
    attempts: Seq<Attempt>,
    after: T,
    r: Result<AttestedTransaction>,
    honest: Seq<int>,
)
    requires
        recovers(before, request, size, node_count, group_public_key, attempts, after, r),
        is_choice(honest, size, node_count),
        forall|start: T, attempt: Attempt, end: T| #[trigger]
            attempted(start, request, attempt, end) && attempt.nodes == honest
                ==> attempt.succeeds(group_public_key@),
    ensures
        r matches Ok(attested) && attested.valid() && attested.group_public_key
            == group_public_key,
{
    if refuses_signature(r) {
        assert(tried(attempts, honest));
        let i = choose|i: int| 0 <= i < attempts.len() && (#[trigger] attempts[i]).nodes == honest;
        let bounds = choose|bounds: Seq<T>| #[trigger]
            is_series(bounds, request, attempts) && bounds[0] == before && bounds.last() == after;
        assert(attempted(bounds[i], request, attempts[i], bounds[i + 1]));
    }
}

/// The message that is to be signed after the first round.
pub open spec fn message_of(first: Seq<Result<Round1Response>>) -> Seq<u8> {
    encode_utf8(first_transaction(first).json())
}

/// The answers are those of the nodes: in the first round, the nodes are sent the request in order,
/// in the second one those that found it valid are sent the message and the commitments. The
/// transport goes through the given states.
pub open spec fn is_exchange<T: NodeTransport>(
    states: Seq<T>,
    request: AttestationRequest,
    first: Seq<Result<Round1Response>>,
    second: Seq<Result<Round2Response>>,
) -> bool {
    &&& states.len() == first.len() + second.len() + 1
    &&& forall|k: int|
        0 <= k < first.len() ==> states[k].answers_first(
            k,
            request,
            #[trigger] first[k],
            &states[k + 1],
        )
    &&& forall|k: int|
        0 <= k < second.len() ==> states[first.len() + k].answers_second(
            valid_nodes(first)[k],
            message_of(first),
            commitments_of(first),
            #[trigger] second[k],
            &states[first.len() + k + 1],
        )
}

/// The answers are those of the nodes, and they take the transport from one state to another.
pub open spec fn exchanged<T: NodeTransport>(
    before: T,
    request: AttestationRequest,
    first: Seq<Result<Round1Response>>,
    second: Seq<Result<Round2Response>>,
    after: T,
) -> bool {
    exists|states: Seq<T>| #[trigger]
        is_exchange(states, request, first, second) && states[0] == before && states.last()
            == after
}

/// What the nodes have answered in the first round.
pub struct FirstRound {
    /// The numbers and responses of the nodes that found the request valid.
    pub responses: Vec<(usize, Round1Response)>,
    /// The transaction of the first of them.
    pub transaction: Option<Transaction>,
}

/// What the first round leads to: a transaction, the numbers of the nodes that have to sign it, and
/// their commitments.
pub struct Selection {
    /// The transaction to be signed.
    pub transaction: Transaction,
    /// The numbers of the nodes.
    pub nodes: Vec<usize>,
    /// The commitments of the nodes.
    pub commitments: Vec<SigningCommitment>,
}

impl FirstRound {
    /// No node has answered.
    pub fn new() -> (r: FirstRound)
        ensures
            r.responses@.len() == 0,
            r.transaction is None,
    {
        FirstRound { responses: Vec::new(), transaction: None }
    }

    /// Records the answer of a node: it counts if the node found the request valid.
    pub fn record(&mut self, node_index: usize, answer: Result<Round1Response>)
        ensures
            is_valid(answer) ==> final(self).responses@ == old(self).responses@.push(
                (node_index, answer->Ok_0),
            ),
            is_valid(answer) ==> final(self).transaction == (match old(self).transaction {
                Some(tx) => Some(tx),
                None => Some(answer->Ok_0.result->Valid_0),
            }),
            !is_valid(answer) ==> *final(self) == *old(self),
    {
        match answer {
            Ok(response) => {
                if let AttestationResult::Valid(tx) = &response.result {
                    if self.transaction.is_none() {
                        self.transaction = Some(tx.clone());
                    }
                    self.responses.push((node_index, response));
                }
            },
            Err(_) => {},
        }
    }

    /// Every node that found the request valid has committed to its nonces.
    pub open spec fn committed(self) -> bool {
        forall|k: int|
            0 <= k < self.responses@.len() ==> (#[trigger] self.responses@[k]).1.commitment is Some
    }

    /// What the first round leads to: too few nodes that found the request valid are an error, and
    /// so is one without a commitment.
    pub fn select(self, threshold: usize) -> (r: Result<Selection>)
        ensures
            if self.responses@.len() < threshold || self.transaction is None {
                r matches Err(e) && e matches CraftSecError::InsufficientShares { have, need }
                    && have == self.responses@.len() && need == threshold
            } else if !self.committed() {
                r matches Err(e) && e matches CraftSecError::InvalidCommitment(m) && m@
                    == "missing commitment"@
            } else {
                r matches Ok(selection) && Some(selection.transaction) == self.transaction
                    && selection.nodes@.len() == self.responses@.len()
                    && selection.commitments@.len() == self.responses@.len() && (forall|k: int|
                    0 <= k < self.responses@.len() ==> (#[trigger] selection.nodes@[k])
                        == self.responses@[k].0) && (forall|k: int|
                    0 <= k < self.responses@.len() ==> self.responses@[k].1.commitment == Some(
                        #[trigger] selection.commitments@[k],
                    ))
            },
    {
        let FirstRound { responses, transaction } = self;
        let have = responses.len();
        if have < threshold {
            return Err(CraftSecError::InsufficientShares { have, need: threshold });
        }
        let transaction = match transaction {
            Some(tx) => tx,
            None => {
                return Err(CraftSecError::InsufficientShares { have, need: threshold });
            },
        };
        let mut nodes: Vec<usize> = Vec::new();
        let mut commitments: Vec<SigningCommitment> = Vec::new();
        let mut k: usize = 0;
        while k < responses.len()
            invariant
                k <= responses@.len(),
                responses == self.responses,
                responses@.len() >= threshold,
                self.transaction is Some,
                nodes@.len() == k,
                commitments@.len() == k,
                forall|j: int|
                    0 <= j < k ==> responses@[j].1.commitment == Some(#[trigger] commitments@[j]),
                forall|j: int| 0 <= j < k ==> (#[trigger] nodes@[j]) == responses@[j].0,
            decreases responses@.len() - k,
        {
            match responses[k].1.commitment {
                Some(commitment) => {
                    nodes.push(responses[k].0);
                    commitments.push(commitment);
                },
                None => {
                    assert(self.responses@[k as int].1.commitment is None);
                    return Err(CraftSecError::InvalidCommitment("missing commitment".to_owned()));
                },
            }
            k = k + 1;
        }
        proof {
            assert forall|j: int| 0 <= j < self.responses@.len() implies (
            #[trigger] self.responses@[j]).1.commitment is Some by {
                assert(responses@[j].1.commitment == Some(commitments@[j]));
            }
        }
        Ok(Selection { transaction, nodes, commitments })
    }
}

/// The client.
pub struct CraftSecClient<T: NodeTransport> {
    /// How the nodes are reached.
    pub transport: T,
    /// The group's public key.
    pub group_public_key: EdwardsPoint,
    /// How many nodes have to sign.
    pub threshold: u32,
    /// How many nodes there are.
    pub node_count: usize,
}

/// Aggregates the partial signatures on a transaction and verifies the signature.
pub fn conclude(
    transaction: Transaction,
    commitments: &[SigningCommitment],
    partials: &[PartialSignature],
    group_public_key: EdwardsPoint,
) -> (r: Result<AttestedTransaction>)
    ensures
        ({
            let message = encode_utf8(transaction.json());
            if aggregate_accepted(message, commitments@, partials@, group_public_key@) {
                attested_by(transaction, commitments@, group_public_key, r)
            } else {
                refuses_signature(r)
            }
        }),
{
    let message = transaction.signing_bytes();
    let signature = aggregate(message.as_slice(), commitments, partials);
    proof {
        let total = interpolation::sum(frost::partial_scalars(partials@));
        order::lemma_group_order_large();
        lemma_mod_twice(total, order::group_order());
        point::lemma_base_equal(signature.s.value() as int, total);
    }
    match verify(&signature, &group_public_key, message.as_slice()) {
        Ok(_) => Ok(AttestedTransaction { transaction, signature, group_public_key }),
        Err(e) => Err(e),
    }
}

/// The numbers of nodes.
pub open spec fn numbers(nodes: Seq<usize>) -> Seq<int> {
    Seq::new(nodes.len(), |k: int| nodes[k] as int)
}

/// Tries to have certain nodes sign: sends them the request, and the transaction of the first one
/// with all commitments. Any failure ends the attempt.
fn try_nodes<T: NodeTransport>(
    transport: &mut T,
    request: &AttestationRequest,
    nodes: &Vec<usize>,
    group_public_key: EdwardsPoint,
) -> (r: (Option<AttestedTransaction>, Ghost<Attempt>))
    requires
        nodes@.len() > 0,
        forall|k: int|
            0 <= k < nodes@.len() ==> old(transport).reaches(#[trigger] nodes@[k] as int),
    ensures
        forall|i: int| #[trigger] final(transport).reaches(i) == old(transport).reaches(i),
        attempted(*old(transport), *request, r.1@, *final(transport)),
        r.1@.nodes == numbers(nodes@),
        r.0 is Some <==> r.1@.succeeds(group_public_key@),
        r.0 matches Some(attested) ==> attested_by(
            r.1@.transaction(),
            r.1@.commitments(),
            group_public_key,
            Ok(attested),
        ),
{
    let ghost mut attempt = Attempt {
        nodes: numbers(nodes@),
        first: Seq::empty(),
        second: Seq::empty(),
    };
    let ghost mut states: Seq<T> = seq![*transport];
    let mut transaction: Option<Transaction> = None;
    let mut commitments: Vec<SigningCommitment> = Vec::new();
    let mut k: usize = 0;
    while k < nodes.len()
        invariant
            k <= nodes@.len(),
            forall|i: int| #[trigger] transport.reaches(i) == old(transport).reaches(i),
            forall|i: int|
                0 <= i < nodes@.len() ==> old(transport).reaches(#[trigger] nodes@[i] as int),
            attempt.nodes == numbers(nodes@),
            attempt.first.len() == k,
            attempt.second.len() == 0,
            forall|i: int| 0 <= i < k ==> is_usable(#[trigger] attempt.first[i]),
            commitments@ == attempt.commitments(),
            k > 0 ==> transaction == Some(attempt.transaction()),
            states[0] == *old(transport),
            states.last() == *transport,
            is_attempt(states, *request, attempt),
        decreases nodes@.len() - k,
    {
        let node_index = nodes[k];
        assert(old(transport).reaches(node_index as int));
        let answer = transport.round1(node_index, request);
        proof {
            let before = attempt;
            let came = states;
            attempt = Attempt {
                nodes: before.nodes,
                first: before.first.push(answer),
                second: Seq::empty(),
            };
            states = states.push(*transport);
            assert forall|j: int| 0 <= j < attempt.first.len() implies states[j].answers_first(
                attempt.nodes[j],
                *request,
                #[trigger] attempt.first[j],
                &states[j + 1],
            ) by {
                if j < before.first.len() {
                    assert(before.first[j] == attempt.first[j]);
                    assert(came[j] == states[j] && came[j + 1] == states[j + 1]);
                }
            }
            assert(is_attempt(states, *request, attempt));
            assert(forall|j: int| 0 <= j < k ==> #[trigger] attempt.first[j] == before.first[j]);
        }
        match answer {
            Ok(Round1Response { result: AttestationResult::Valid(tx), commitment: Some(c) }) => {
                if k == 0 {
                    transaction = Some(tx);
                }
                commitments.push(c);
                assert(commitments@ =~= attempt.commitments());
            },
            _ => {
                assert(!is_usable(attempt.first.last()));
                assert(!is_usable(attempt.first[k as int]));
                return (None, Ghost(attempt));
            },
        }
        k = k + 1;
    }
    assert(attempt.committed());
    let transaction = transaction.unwrap();
    let message = transaction.signing_bytes();
    let mut partials: Vec<PartialSignature> = Vec::new();
    assert(partials@ =~= partials_of(attempt.second));
    let mut k: usize = 0;
    while k < nodes.len()
        invariant
            k <= nodes@.len(),
            forall|i: int| #[trigger] transport.reaches(i) == old(transport).reaches(i),
            forall|i: int|
                0 <= i < nodes@.len() ==> old(transport).reaches(#[trigger] nodes@[i] as int),
            attempt.nodes == numbers(nodes@),
            attempt.committed(),
            attempt.second.len() == k,
            forall|i: int| 0 <= i < k ==> (#[trigger] attempt.second[i]) is Ok,
            commitments@ == attempt.commitments(),
            transaction == attempt.transaction(),
            message@ == attempt.message(),
            partials@ == partials_of(attempt.second),
            states[0] == *old(transport),
            states.last() == *transport,
            is_attempt(states, *request, attempt),
        decreases nodes@.len() - k,
    {
        let node_index = nodes[k];
        assert(old(transport).reaches(node_index as int));
        let answer = transport.round2(node_index, message.as_slice(), commitments.as_slice());
        proof {
            let before = attempt;
            let came = states;
            attempt = Attempt {
                nodes: before.nodes,
                first: before.first,
                second: before.second.push(answer),
            };
            states = states.push(*transport);
            let n = attempt.first.len();
            assert forall|j: int| 0 <= j < n implies states[j].answers_first(
                attempt.nodes[j],
                *request,
                #[trigger] attempt.first[j],
                &states[j + 1],
            ) by {
                assert(came[j] == states[j] && came[j + 1] == states[j + 1]);
            }
            assert forall|j: int| 0 <= j < attempt.second.len() implies states[n
                + j].answers_second(
                attempt.nodes[j],
                attempt.message(),
                attempt.commitments(),
                #[trigger] attempt.second[j],
                &states[n + j + 1],
            ) by {
                if j < before.second.len() {
                    assert(before.second[j] == attempt.second[j]);
                    assert(came[n + j] == states[n + j]);
                    assert(came[n + j + 1] == states[n + j + 1]);
                }
            }
            assert(is_attempt(states, *request, attempt));
            assert(forall|j: int| 0 <= j < k ==> #[trigger] attempt.second[j] == before.second[j]);
        }
        match answer {
            Ok(response) => {
                partials.push(response.partial);
                assert(partials@ =~= partials_of(attempt.second));
            },
            Err(_) => {
                assert(attempt.second.last() is Err);
                assert(attempt.second[k as int] is Err);
                return (None, Ghost(attempt));
            },
        }
        k = k + 1;
    }
    match conclude(
        transaction,
        commitments.as_slice(),
        partials.as_slice(),
        group_public_key,
    ) {
        Ok(attested) => (Some(attested), Ghost(attempt)),
        Err(_) => (None, Ghost(attempt)),
    }
}

/// The nodes are the chosen ones and others that come after a given number.
spec fn extends(nodes: Seq<int>, chosen: Seq<int>, next: int) -> bool {
    &&& chosen.len() <= nodes.len()
    &&& nodes.take(chosen.len() as int) == chosen
    &&& forall|k: int| chosen.len() <= k < nodes.len() ==> #[trigger] nodes[k] >= next
}

/// What is known of a search among choices.
spec fn searched<T: NodeTransport>(
    before: T,
    request: AttestationRequest,
    size: nat,
    node_count: nat,
    group_public_key: EdwardsPoint,
    attempts: Seq<Attempt>,
    bounds: Seq<T>,
    after: T,
    found: Option<AttestedTransaction>,
) -> bool {
    &&& is_series(bounds, request, attempts)
    &&& bounds[0] == before
    &&& bounds.last() == after
    &&& forall|i: int|
        0 <= i < attempts.len() ==> is_choice((#[trigger] attempts[i]).nodes, size, node_count)
    &&& match found {
        Some(attested) => attempts.len() > 0 && all_fail(
            attempts.drop_last(),
            group_public_key@,
        ) && attempts.last().succeeds(group_public_key@) && attested_by(
            attempts.last().transaction(),
            attempts.last().commitments(),
            group_public_key,
            Ok(attested),
        ),
        None => all_fail(attempts, group_public_key@),
    }
}

/// One search after another that found nothing is a search.
proof fn lemma_searches_join<T: NodeTransport>(
    before: T,
    request: AttestationRequest,
    size: nat,
    node_count: nat,
    group_public_key: EdwardsPoint,
    a: Seq<Attempt>,
    a_bounds: Seq<T>,
    between: T,
    b: Seq<Attempt>,
    b_bounds: Seq<T>,
    after: T,
    found: Option<AttestedTransaction>,
)
    requires
        searched(
            before,
            request,
            size,
            node_count,
            group_public_key,
            a,
            a_bounds,
            between,
            None,
        ),
        searched(
            between,
            request,
            size,
            node_count,
            group_public_key,
            b,
            b_bounds,
            after,
            found,
        ),
    ensures
        searched(
            before,
            request,
            size,
            node_count,
            group_public_key,
            a + b,
            a_bounds + b_bounds.skip(1),
            after,
            found,
        ),
{
    let attempts = a + b;
    let bounds = a_bounds + b_bounds.skip(1);
    assert(bounds.len() == attempts.len() + 1);
    assert forall|i: int| 0 <= i < attempts.len() implies attempted(
        bounds[i],
        request,
        #[trigger] attempts[i],
        bounds[i + 1],
    ) by {
        if i < a.len() {
            assert(attempts[i] == a[i]);
            assert(bounds[i] == a_bounds[i] && bounds[i + 1] == a_bounds[i + 1]);
        } else {
            let j = i - a.len();
            assert(attempts[i] == b[j]);
            assert(bounds[i + 1] == b_bounds[j + 1]);
            if j > 0 {
                assert(bounds[i] == b_bounds[j]);
            } else {
                assert(bounds[i] == a_bounds.last());
            }
            assert(attempted(b_bounds[j], request, b[j], b_bounds[j + 1]));
        }
    }
    assert forall|i: int| 0 <= i < attempts.len() implies is_choice(
        (#[trigger] attempts[i]).nodes,
        size,
        node_count,
    ) by {
        if i < a.len() {
            assert(attempts[i] == a[i]);
        } else {
            assert(attempts[i] == b[i - a.len()]);
        }
    }
    if b.len() > 0 {
        assert(bounds.last() == b_bounds.last());
        assert(attempts.last() == b.last());
    } else {
        assert(bounds =~= a_bounds);
    }
    if found is Some {
        let c = attempts.drop_last();
        assert forall|i: int| 0 <= i < c.len() implies !(#[trigger] c[i]).succeeds(
            group_public_key@,
        ) by {
            if i < a.len() {
                assert(c[i] == a[i]);
            } else {
                assert(c[i] == b.drop_last()[i - a.len()]);
            }
        }
    } else {
        assert forall|i: int| 0 <= i < attempts.len() implies !(#[trigger] attempts[i]).succeeds(
            group_public_key@,
        ) by {
            if i < a.len() {
                assert(attempts[i] == a[i]);
            } else {
                assert(attempts[i] == b[i - a.len()]);
            }
        }
    }
}

/// Tries the choices of nodes that extend the chosen ones by later ones, in order, until one
/// succeeds.
fn search<T: NodeTransport>(
    transport: &mut T,
    request: &AttestationRequest,
    size: usize,
    node_count: usize,
    group_public_key: EdwardsPoint,
    chosen: &Vec<usize>,
    next: usize,
) -> (r: (Option<AttestedTransaction>, Ghost<(Seq<Attempt>, Seq<T>)>))
    requires
        0 < size,
        chosen@.len() <= size,
        next <= node_count,
        is_choice(numbers(chosen@), chosen@.len(), next as nat),
        forall|i: int| 0 <= i < node_count ==> #[trigger] old(transport).reaches(i),
    ensures
        forall|i: int| #[trigger] final(transport).reaches(i) == old(transport).reaches(i),
        searched(
            *old(transport),
            *request,
            size as nat,
            node_count as nat,
            group_public_key,
            r.1@.0,
            r.1@.1,
            *final(transport),
            r.0,
        ),
        r.0 is None ==> forall|nodes: Seq<int>|
            is_choice(nodes, size as nat, node_count as nat) && extends(
                nodes,
                numbers(chosen@),
                next as int,
            ) ==> #[trigger] tried(r.1@.0, nodes),
    decreases node_count - next,
{
    let ghost picked = numbers(chosen@);
    if chosen.len() == size {
        assert forall|k: int| 0 <= k < chosen@.len() implies transport.reaches(
            #[trigger] chosen@[k] as int,
        ) by {
            assert(picked[k] == chosen@[k]);
        }
        let ghost start = *transport;
        let (found, attempt) = try_nodes(transport, request, chosen, group_public_key);
        let ghost attempts = seq![attempt@];
        let ghost bounds = seq![start, *transport];
        proof {
            assert(attempts[0] == attempt@);
            assert forall|i: int| 0 <= i < attempts.len() implies is_choice(
                (#[trigger] attempts[i]).nodes,
                size as nat,
                node_count as nat,
            ) by {
                assert(is_choice(picked, size as nat, next as nat));
            }
            assert(attempts.last() == attempt@);
            assert forall|nodes: Seq<int>|
                is_choice(nodes, size as nat, node_count as nat) && extends(
                    nodes,
                    picked,
                    next as int,
                ) implies #[trigger] tried(attempts, nodes) by {
                assert(nodes.take(size as int) =~= nodes);
                assert(attempts[0].nodes == nodes);
            }
        }
        return (found, Ghost((attempts, bounds)));
    }
    if next == node_count {
        let ghost attempts = Seq::<Attempt>::empty();
        let ghost bounds = seq![*transport];
        proof {
            assert forall|nodes: Seq<int>|
                is_choice(nodes, size as nat, node_count as nat) && extends(
                    nodes,
                    picked,
                    next as int,
                ) implies #[trigger] tried(attempts, nodes) by {
                assert(nodes[picked.len() as int] >= next);
            }
        }
        return (None, Ghost((attempts, bounds)));
    }
    let mut more: Vec<usize> = Vec::new();
    let mut k: usize = 0;
    while k < chosen.len()
        invariant
            k <= chosen@.len(),
            more@ == chosen@.take(k as int),
        decreases chosen@.len() - k,
    {
        more.push(chosen[k]);
        k = k + 1;
        assert(more@ =~= chosen@.take(k as int));
    }
    assert(more@ =~= chosen@);
    more.push(next);
    let ghost wider = numbers(more@);
    proof {
        assert(wider =~= picked.push(next as int));
        assert forall|i: int| 0 <= i < wider.len() implies 0 <= #[trigger] wider[i] < next + 1 by {
            if i < picked.len() {
                assert(wider[i] == picked[i]);
            }
        }
        assert forall|i: int, j: int| 0 <= i < j < wider.len() implies #[trigger] wider[i]
            < #[trigger] wider[j] by {
            assert(wider[i] == picked[i]);
            if j < picked.len() {
                assert(wider[j] == picked[j]);
            }
        }
    }
    let (found, Ghost(with_next)) = search(
        transport,
        request,
        size,
        node_count,
        group_public_key,
        &more,
        next + 1,
    );
    if found.is_some() {
        return (found, Ghost(with_next));
    }
    let (found, Ghost(without_next)) = search(
        transport,
        request,
        size,
        node_count,
        group_public_key,
        chosen,
        next + 1,
    );
    let ghost attempts = with_next.0 + without_next.0;
    let ghost bounds = with_next.1 + without_next.1.skip(1);
    proof {
        lemma_searches_join(
            *old(transport),
            *request,
            size as nat,
            node_count as nat,
            group_public_key,
            with_next.0,
            with_next.1,
            with_next.1.last(),
            without_next.0,
            without_next.1,
            *transport,
            found,
        );
        if found is None {
            assert forall|nodes: Seq<int>|
                is_choice(nodes, size as nat, node_count as nat) && extends(
                    nodes,
                    picked,
                    next as int,
                ) implies #[trigger] tried(attempts, nodes) by {
                let m = picked.len() as int;
                assert(nodes[m] >= next);
                if nodes[m] == next {
                    assert(nodes.take(m + 1) =~= wider) by {
                        assert(nodes.take(m) == picked);
                        assert forall|i: int| 0 <= i < m implies nodes[i] == picked[i] by {
                            assert(nodes.take(m)[i] == nodes[i]);
                        }
                    }
                    assert(extends(nodes, wider, next + 1)) by {
                        assert forall|i: int| wider.len() <= i < nodes.len() implies
                            #[trigger] nodes[i] >= next + 1 by {
                            assert(nodes[m] < nodes[i]);
                        }
                    }
                    assert(tried(with_next.0, nodes));
                    let i = choose|i: int|
                        0 <= i < with_next.0.len() && (#[trigger] with_next.0[i]).nodes == nodes;
                    assert(attempts[i] == with_next.0[i]);
                } else {
                    assert(extends(nodes, picked, next + 1)) by {
                        assert forall|i: int| picked.len() <= i < nodes.len() implies
                            #[trigger] nodes[i] >= next + 1 by {
                            if i > m {
                                assert(nodes[m] < nodes[i]);
                            }
                        }
                    }
                    assert(tried(without_next.0, nodes));
                    let i = choose|i: int|
                        0 <= i < without_next.0.len() && (#[trigger] without_next.0[i]).nodes
                            == nodes;
                    assert(attempts[with_next.0.len() + i] == without_next.0[i]);
                }
            }
        }
    }
    (found, Ghost((attempts, bounds)))
}

/// Tries the choices of as many nodes as needed, in order, until one succeeds.
fn recover<T: NodeTransport>(
    transport: &mut T,
    request: &AttestationRequest,
    size: usize,
    node_count: usize,
    group_public_key: EdwardsPoint,
) -> (r: (Result<AttestedTransaction>, Ghost<Seq<Attempt>>))
    requires
        0 < size,
        forall|i: int| 0 <= i < node_count ==> #[trigger] old(transport).reaches(i),
    ensures
        forall|i: int| #[trigger] final(transport).reaches(i) == old(transport).reaches(i),
        recovers(
            *old(transport),
            *request,
            size as nat,
            node_count as nat,
            group_public_key,
            r.1@,
            *final(transport),
            r.0,
        ),
{
    let chosen: Vec<usize> = Vec::new();
    let (found, Ghost(trace)) = search(
        transport,
        request,
        size,
        node_count,
        group_public_key,
        &chosen,
        0,
    );
    proof {
        assert(is_series(trace.1, *request, trace.0));
        if found is None {
            assert forall|nodes: Seq<int>| is_choice(
                nodes,
                size as nat,
                node_count as nat,
            ) implies #[trigger] tried(trace.0, nodes) by {
                assert(nodes.take(0) =~= numbers(chosen@));
                assert(extends(nodes, numbers(chosen@), 0));
            }
        }
    }
    match found {
        Some(attested) => (Ok(attested), Ghost(trace.0)),
        None => (
            Err(
                CraftSecError::InvalidSignature(
                    "threshold signature verification failed".to_owned(),
                ),
            ),
            Ghost(trace.0),
        ),
    }
}

/// The nodes that answered that the request is valid are among those asked.
pub proof fn lemma_valid_nodes(answers: Seq<Result<Round1Response>>)
    ensures
        valid_nodes(answers).len() <= answers.len(),
        forall|k: int|
            0 <= k < valid_nodes(answers).len() ==> 0 <= #[trigger] valid_nodes(answers)[k]
                < answers.len() && is_valid(answers[valid_nodes(answers)[k]]),
    decreases answers.len(),
{
    if answers.len() > 0 {
        lemma_valid_nodes(answers.drop_last());
    }
}

/// The nodes that answered that the request is valid are numbered in order.
pub proof fn lemma_valid_nodes_increase(answers: Seq<Result<Round1Response>>)
    ensures
        forall|j: int, k: int|
            0 <= j < k < valid_nodes(answers).len() ==> #[trigger] valid_nodes(answers)[j]
                < #[trigger] valid_nodes(answers)[k],
    decreases answers.len(),
{
    if answers.len() > 0 {
        lemma_valid_nodes_increase(answers.drop_last());
        lemma_valid_nodes(answers.drop_last());
    }
}

/// A node that answered that the request is valid counts.
pub proof fn lemma_valid_nodes_complete(answers: Seq<Result<Round1Response>>, k: int)
    requires
        0 <= k < answers.len(),
        is_valid(answers[k]),
    ensures
        valid_nodes(answers).contains(k),
    decreases answers.len(),
{
    let head = answers.drop_last();
    if k < answers.len() - 1 {
        assert(head[k] == answers[k]);
        lemma_valid_nodes_complete(head, k);
        let j = choose|j: int| 0 <= j < valid_nodes(head).len() && valid_nodes(head)[j] == k;
        assert(valid_nodes(answers)[j] == k);
    } else {
        assert(valid_nodes(answers).last() == k);
    }
}

/// As long as nodes are asked, too few have answered that the request is valid.
pub proof fn lemma_asked_before(
    answers: Seq<Result<Round1Response>>,
    threshold: nat,
    node_count: nat,
    k: int,
)
    requires
        asked(answers, threshold, node_count),
        0 < threshold,
        0 <= k < answers.len(),
    ensures
        valid_nodes(answers.take(k)).len() < threshold,
    decreases k,
{
    let head = answers.take(k);
    if k > 0 {
        assert(!enough(answers.take(k), threshold));
        lemma_asked_before(answers, threshold, node_count, k - 1);
        assert(head.drop_last() =~= answers.take(k - 1));
    }
}

/// Where all nodes answered that the request is valid, they all count; where none did, none does.
pub proof fn lemma_valid_nodes_count(answers: Seq<Result<Round1Response>>)
    ensures
        (forall|k: int| 0 <= k < answers.len() ==> is_valid(#[trigger] answers[k])) ==> valid_nodes(
            answers,
        ).len() == answers.len(),
        (forall|k: int| 0 <= k < answers.len() ==> !is_valid(#[trigger] answers[k])) ==> valid_nodes(
            answers,
        ).len() == 0,
    decreases answers.len(),
{
    if answers.len() > 0 {
        let head = answers.drop_last();
        lemma_valid_nodes_count(head);
        assert(forall|k: int| 0 <= k < head.len() ==> #[trigger] head[k] == answers[k]);
        assert(answers.last() == answers[answers.len() - 1]);
    }
}

impl<T: NodeTransport> CraftSecClient<T> {
    /// A client for the nodes that a transport reaches.
    pub fn new(
        transport: T,
        group_public_key: EdwardsPoint,
        threshold: u32,
        node_count: usize,
    ) -> (r: CraftSecClient<T>)
        ensures
            r.transport == transport,
            r.group_public_key == group_public_key,
            r.threshold == threshold,
            r.node_count == node_count,
    {
        CraftSecClient { transport, group_public_key, threshold, node_count }
    }

    /// Runs the attestation of a request: asks the nodes until enough of them find it valid, has
    /// these sign the transaction of the first one, and aggregates and verifies the signature. If
    /// it is invalid, other choices of nodes are tried, so that those that sign wrongly are left
    /// out. The client cannot tell which of the signers those are: in the worst case it tries all
    /// the ways to choose `threshold` of the `node_count` nodes, `n! / (t! * (n - t)!)` of them, and
    /// each costs two rounds.
    pub fn attest(&mut self, request: &AttestationRequest) -> (r: Result<AttestedTransaction>)
        requires
            forall|i: int|
                0 <= i < old(self).node_count ==> #[trigger] old(self).transport.reaches(i),
        ensures
            final(self).group_public_key == old(self).group_public_key,
            final(self).threshold == old(self).threshold,
            final(self).node_count == old(self).node_count,
            forall|i: int| #[trigger]
                final(self).transport.reaches(i) == old(self).transport.reaches(i),
            exists|
                first: Seq<Result<Round1Response>>,
                second: Seq<Result<Round2Response>>,
                between: T,
                attempts: Seq<Attempt>,
            |
                asked(first, old(self).threshold as nat, old(self).node_count as nat) && exchanged(
                    old(self).transport,
                    *request,
                    first,
                    second,
                    between,
                ) && #[trigger] attests(
                    old(self).threshold as nat,
                    old(self).node_count as nat,
                    old(self).group_public_key,
                    *request,
                    first,
                    second,
                    between,
                    attempts,
                    final(self).transport,
                    r,
                ),
            r matches Ok(attested) ==> attested.valid() && attested.group_public_key == old(
                self,
            ).group_public_key,
    {
        let threshold = self.threshold as usize;
        let node_count = self.node_count;
        let group_public_key = self.group_public_key;
        let mut round = FirstRound::new();
        let ghost mut first: Seq<Result<Round1Response>> = Seq::empty();
        let ghost mut states: Seq<T> = seq![self.transport];
        let mut i: usize = 0;
        let mut done = false;
        while i < node_count && !done
            invariant
                i <= node_count,
                i == first.len(),
                states[0] == old(self).transport,
                states.last() == self.transport,
                is_exchange(states, *request, first, Seq::empty()),
                self.group_public_key == old(self).group_public_key,
                self.threshold == old(self).threshold,
                self.node_count == old(self).node_count,
                node_count == self.node_count,
                threshold == self.threshold,
                forall|j: int| #[trigger]
                    self.transport.reaches(j) == old(self).transport.reaches(j),
                forall|j: int|
                    0 <= j < node_count ==> #[trigger] old(self).transport.reaches(j),
                done <==> enough(first, threshold as nat),
                forall|k: int|
                    0 < k < first.len() ==> !enough(#[trigger] first.take(k), threshold as nat),
                collected(round, first),
            decreases node_count - i,
        {
            assert(old(self).transport.reaches(i as int));
            let answer = self.transport.round1(i, request);
            proof {
                let before = first;
                let came = states;
                first = first.push(answer);
                states = states.push(self.transport);
                assert(first.drop_last() =~= before);
                assert forall|k: int| 0 <= k < first.len() implies states[k].answers_first(
                    k,
                    *request,
                    #[trigger] first[k],
                    &states[k + 1],
                ) by {
                    if k < before.len() {
                        assert(before[k] == first[k]);
                        assert(came[k] == states[k] && came[k + 1] == states[k + 1]);
                    }
                }
                assert forall|k: int| 0 < k < first.len() implies !enough(
                    #[trigger] first.take(k),
                    threshold as nat,
                ) by {
                    assert(first.take(k) =~= before.take(k));
                    assert(before.take(before.len() as int) =~= before);
                }
                lemma_valid_nodes(before);
            }
            let answered = answer.is_ok();
            round.record(i, answer);
            i = i + 1;
            done = answered && round.responses.len() >= threshold;
        }
        let ghost recorded = round;
        let selection = match round.select(threshold) {
            Ok(selection) => selection,
            Err(e) => {
                let r = Err(e);
                proof {
                    lemma_committed(recorded, first);
                    assert(exchanged(
                        old(self).transport,
                        *request,
                        first,
                        Seq::<Result<Round2Response>>::empty(),
                        self.transport,
                    ));
                    assert(attests(
                        threshold as nat,
                        node_count as nat,
                        group_public_key,
                        *request,
                        first,
                        Seq::<Result<Round2Response>>::empty(),
                        self.transport,
                        Seq::<Attempt>::empty(),
                        self.transport,
                        r,
                    ));
                }
                return r;
            },
        };
        let message = selection.transaction.signing_bytes();
        proof {
            lemma_committed(recorded, first);
            lemma_valid_nodes(first);
            assert forall|k: int| 0 <= k < selection.commitments@.len() implies
                selection.commitments@[k] == commitments_of(first)[k] && selection.nodes@[k]
                == valid_nodes(first)[k] by {
                assert(recorded.responses@[k].1.commitment == Some(selection.commitments@[k]));
                assert(selection.nodes@[k] == recorded.responses@[k].0);
                assert(recorded.responses@[k].0 == valid_nodes(first)[k]);
            }
            assert(selection.commitments@ =~= commitments_of(first));
            assert forall|k: int| 0 <= k < selection.nodes@.len() implies #[trigger] selection.nodes@[k]
                < node_count by {
                assert(selection.commitments@[k] == commitments_of(first)[k]);
                assert(selection.nodes@[k] == valid_nodes(first)[k]);
            }
        }
        let mut partials: Vec<PartialSignature> = Vec::new();
        let ghost mut second: Seq<Result<Round2Response>> = Seq::empty();
        let mut k: usize = 0;
        while k < selection.nodes.len()
            invariant
                k <= selection.nodes@.len(),
                selection.nodes@.len() == selection.commitments@.len(),
                selection.nodes@.len() > 0,
                selection.nodes@.len() >= threshold,
                forall|j: int|
                    0 <= j < selection.nodes@.len() ==> #[trigger] selection.nodes@[j]
                        < node_count,
                asked(first, threshold as nat, node_count as nat),
                all_committed(first),
                selection.commitments@ == commitments_of(first),
                selection.transaction == first_transaction(first),
                threshold == old(self).threshold,
                node_count == old(self).node_count,
                group_public_key == old(self).group_public_key,
                self.group_public_key == old(self).group_public_key,
                self.threshold == old(self).threshold,
                self.node_count == old(self).node_count,
                forall|j: int| #[trigger]
                    self.transport.reaches(j) == old(self).transport.reaches(j),
                forall|j: int|
                    0 <= j < node_count ==> #[trigger] old(self).transport.reaches(j),
                second.len() == k,
                states[0] == old(self).transport,
                states.last() == self.transport,
                is_exchange(states, *request, first, second),
                message@ == message_of(first),
                selection.nodes@.len() == valid_nodes(first).len(),
                forall|j: int|
                    0 <= j < selection.nodes@.len() ==> #[trigger] selection.nodes@[j]
                        == valid_nodes(first)[j],
                forall|j: int| 0 <= j < k ==> (#[trigger] second[j]) is Ok,
                partials@ == partials_of(second),
            decreases selection.nodes@.len() - k,
        {
            let node_index = selection.nodes[k];
            assert(old(self).transport.reaches(node_index as int));
            let answer = self.transport.round2(
                node_index,
                message.as_slice(),
                selection.commitments.as_slice(),
            );
            proof {
                let before = second;
                let came = states;
                second = second.push(answer);
                states = states.push(self.transport);
                assert forall|j: int| 0 <= j < first.len() implies states[j].answers_first(
                    j,
                    *request,
                    #[trigger] first[j],
                    &states[j + 1],
                ) by {
                    assert(came[j] == states[j] && came[j + 1] == states[j + 1]);
                }
                assert forall|j: int| 0 <= j < second.len() implies states[first.len()
                    + j].answers_second(
                    valid_nodes(first)[j],
                    message_of(first),
                    commitments_of(first),
                    #[trigger] second[j],
                    &states[first.len() + j + 1],
                ) by {
                    if j < before.len() {
                        assert(before[j] == second[j]);
                        assert(came[first.len() + j] == states[first.len() + j]);
                        assert(came[first.len() + j + 1] == states[first.len() + j + 1]);
                    }
                }
                assert(is_exchange(states, *request, first, second));
            }
            match answer {
                Ok(response) => {
                    partials.push(response.partial);
                    assert(partials@ =~= partials_of(second));
                },
                Err(e) => {
                    let r = Err(e);
                    assert(exchanged(
                        old(self).transport,
                        *request,
                        first,
                        second,
                        self.transport,
                    ));
                    assert(attests(
                        threshold as nat,
                        node_count as nat,
                        group_public_key,
                        *request,
                        first,
                        second,
                        self.transport,
                        Seq::<Attempt>::empty(),
                        self.transport,
                        r,
                    ));
                    return r;
                },
            }
            k = k + 1;
        }
        let ghost between = self.transport;
        assert(exchanged(old(self).transport, *request, first, second, between));
        let size = selection.nodes.len();
        let concluded = conclude(
            selection.transaction,
            selection.commitments.as_slice(),
            partials.as_slice(),
            group_public_key,
        );
        if concluded.is_ok() {
            assert(attests(
                threshold as nat,
                node_count as nat,
                group_public_key,
                *request,
                first,
                second,
                between,
                Seq::<Attempt>::empty(),
                self.transport,
                concluded,
            ));
            return concluded;
        }
        let (r, Ghost(attempts)) = recover(
            &mut self.transport,
            request,
            size,
            node_count,
            group_public_key,
        );
        assert(attests(
            threshold as nat,
            node_count as nat,
            group_public_key,
            *request,
            first,
            second,
            between,
            attempts,
            self.transport,
            r,
        ));
        r
    }
}

/// The responses are those of the nodes that answered that the request is valid.
spec fn collected(round: FirstRound, answers: Seq<Result<Round1Response>>) -> bool {
    &&& round.responses@.len() == valid_nodes(answers).len()
    &&& forall|k: int|
        0 <= k < round.responses@.len() ==> (#[trigger] round.responses@[k]).0 == valid_nodes(
            answers,
        )[k] && answers[round.responses@[k].0 as int] == Ok::<Round1Response, CraftSecError>(
            round.responses@[k].1,
        )
    &&& round.transaction is Some <==> round.responses@.len() > 0
    &&& round.transaction is Some ==> round.transaction->0 == first_transaction(answers)
}

/// Commitments are missing in the round just if they are missing in the answers.
proof fn lemma_committed(round: FirstRound, answers: Seq<Result<Round1Response>>)
    requires
        collected(round, answers),
    ensures
        round.committed() <==> all_committed(answers),
{
    if round.committed() {
        assert forall|k: int| 0 <= k < valid_nodes(answers).len() implies (answers[
        #[trigger] valid_nodes(answers)[k]]->Ok_0).commitment is Some by {
            assert(round.responses@[k].1.commitment is Some);
        }
    }
    if all_committed(answers) {
        assert forall|k: int| 0 <= k < round.responses@.len() implies (
        #[trigger] round.responses@[k]).1.commitment is Some by {
            assert(round.responses@[k].0 == valid_nodes(answers)[k]);
        }
    }
}

/// Honest rounds succeed: where as many participants as the shared polynomial has coefficients
/// commit and sign as they should, the aggregated signature is accepted.
pub proof fn law_honest_rounds_accepted(
    shares: Seq<KeyShare>,
    f: Seq<int>,
    positions: Seq<int>,
    nonces: Seq<SigningNonce>,
    message: Seq<u8>,
    cs: Seq<SigningCommitment>,
    partials: Seq<PartialSignature>,
)
    requires
        feldman::shares_of(shares, f),
        feldman::are_positions(positions, shares.len()),
        f.len() <= positions.len(),
        frost::signing(shares, positions, nonces, message, cs, partials),
    ensures
        aggregate_accepted(
            message,
            cs,
            partials,
            point::base_times(interpolation::poly_value(f, 0)),
        ),
{
    frost::lemma_honest_sum(shares, f, positions, nonces, message, cs, partials);
}

/// Which nodes count as having found the request valid: those that answered so, each once and in
/// order.
pub proof fn law_valid_answers_counted(answers: Seq<Result<Round1Response>>, i: int)
    ensures
        forall|j: int, k: int|
            0 <= j < k < valid_nodes(answers).len() ==> #[trigger] valid_nodes(answers)[j]
                < #[trigger] valid_nodes(answers)[k],
        valid_nodes(answers).contains(i) <==> 0 <= i < answers.len() && answers[i] is Ok
            && answers[i]->Ok_0.result is Valid,
{
    lemma_valid_nodes(answers);
    lemma_valid_nodes_increase(answers);
    if 0 <= i < answers.len() && is_valid(answers[i]) {
        lemma_valid_nodes_complete(answers, i);
    }
}

/// The nodes are asked until enough have found the request valid: while nodes are asked too few
/// have, and unless all nodes were asked, enough have in the end.
pub proof fn law_asked_until_enough(
    answers: Seq<Result<Round1Response>>,
    threshold: nat,
    node_count: nat,
    k: int,
)
    requires
        asked(answers, threshold, node_count),
        0 < threshold,
    ensures
        answers.len() <= node_count,
        0 <= k < answers.len() ==> valid_nodes(answers.take(k)).len() < threshold,
        answers.len() < node_count ==> valid_nodes(answers).len() >= threshold,
{
    if 0 <= k < answers.len() {
        lemma_asked_before(answers, threshold, node_count, k);
    }
}

/// What an attestation is worth: as many nodes as the threshold says have found the request valid,
/// the transaction is what one of them has made of it, and the signature satisfies the verification
/// equation for the whole text of the transaction under the client's group key.
pub proof fn law_attestation_is_worth<T: NodeTransport>(
    threshold: nat,
    node_count: nat,
    group_public_key: EdwardsPoint,
    request: AttestationRequest,
    first: Seq<Result<Round1Response>>,
    second: Seq<Result<Round2Response>>,
    between: T,
    attempts: Seq<Attempt>,
    after: T,
    attested: AttestedTransaction,
)
    requires
        attests(
            threshold,
            node_count,
            group_public_key,
            request,
            first,
            second,
            between,
            attempts,
            after,
            Ok(attested),
        ),
    ensures
        attested.group_public_key == group_public_key,
        point::base_times(attested.signature.s.value() as int) == attested.signature.r@.plus(
            group_public_key@.times(
                (scalar::little_endian(
                    hashing::sha512(
                        attested.signature.r@.encoding() + group_public_key@.encoding()
                            + encode_utf8(attested.transaction.json()),
                    ),
                ) as int % order::group_order()) as nat,
            ),
        ),
        exists|nodes: Seq<int>|
            0 < #[trigger] nodes.len() && nodes.len() >= threshold && (forall|j: int, k: int|
                0 <= j < k < nodes.len() ==> nodes[j] < nodes[k]) && forall|k: int|
                0 <= k < nodes.len() ==> 0 <= #[trigger] nodes[k] < first.len() && first[nodes[k]]
                    is Ok && first[nodes[k]]->Ok_0.result is Valid,
        ({
            ||| exists|k: int|
                0 <= k < first.len() && #[trigger] first[k] is Ok && first[k]->Ok_0.result
                    == AttestationResult::Valid(attested.transaction) && forall|j: int|
                    0 <= j < k ==> !(#[trigger] first[j] is Ok && first[j]->Ok_0.result is Valid)
            ||| attempts.len() > 0 && attempts.last().first.len() > 0 && attempts.last().first[0]
                is Ok && attempts.last().first[0]->Ok_0.result == AttestationResult::Valid(
                attested.transaction,
            )
        }),
{
    let valid = valid_nodes(first);
    lemma_valid_nodes(first);
    lemma_valid_nodes_increase(first);
    frost::law_verification_equation(
        attested.signature,
        group_public_key@,
        encode_utf8(attested.transaction.json()),
    );
    assert(0 < valid.len() && valid.len() >= threshold);
    assert forall|k: int| 0 <= k < valid.len() implies 0 <= #[trigger] valid[k] < first.len()
        && first[valid[k]] is Ok && first[valid[k]]->Ok_0.result is Valid by {}
    if attempts.len() == 0 {
        let k = valid[0];
        assert(is_valid(first[k]));
        assert forall|j: int| 0 <= j < k implies !(#[trigger] first[j] is Ok
            && first[j]->Ok_0.result is Valid) by {
            if is_valid(first[j]) {
                lemma_valid_nodes_complete(first, j);
                let m = choose|m: int| 0 <= m < valid.len() && valid[m] == j;
                assert(valid[m] == j);
                if m > 0 {
                    assert(valid[0] < valid[m]);
                }
            }
        }
        assert(first[k] is Ok && first[k]->Ok_0.result == AttestationResult::Valid(
            attested.transaction,
        ));
    } else {
        let last = attempts.last();
        if last.first.len() > 0 {
            assert(is_usable(last.first[0]));
        }
    }
}

/// An attested transaction cannot be changed: where one signature is valid for two transactions
/// that differ in any field (in the amount, in its text), two different byte strings have digests
/// that are congruent.
pub proof fn law_changed_transactions_refused(
    a: AttestedTransaction,
    b: AttestedTransaction,
    nonce: int,
    secret: int,
)
    requires
        a.valid(),
        b.valid(),
        a.signature == b.signature,
        a.group_public_key == b.group_public_key,
        a.signature.r@ == point::base_times(nonce),
        a.group_public_key@ == point::base_times(secret),
        modular::invertible(secret, order::group_order()),
        json::has_numeral(a.transaction.amount.bits()),
        json::has_numeral(b.transaction.amount.bits()),
        a.transaction.seq != b.transaction.seq || a.transaction.prev_hash@
            != b.transaction.prev_hash@ || a.transaction.sender@ != b.transaction.sender@
            || a.transaction.recipient@ != b.transaction.recipient@ || json::float_text(
            a.transaction.amount.bits(),
        ) != json::float_text(b.transaction.amount.bits()) || a.transaction.asset@
            != b.transaction.asset@ || a.transaction.timestamp != b.transaction.timestamp
            || a.transaction.program_cid@ != b.transaction.program_cid@
            || a.transaction.user_sig@ != b.transaction.user_sig@,
    ensures
        exists|x: Seq<u8>, y: Seq<u8>|
            x != y && modular::congruent(
                scalar::little_endian(#[trigger] hashing::sha512(x)) as int,
                scalar::little_endian(#[trigger] hashing::sha512(y)) as int,
                order::group_order(),
            ),
{
    let head = point::base_times(nonce).encoding() + point::base_times(secret).encoding();
    let m = encode_utf8(a.transaction.json());
    let w = encode_utf8(b.transaction.json());
    frost::law_signature_binds_message(a.signature, nonce, secret, m, w);
    let x = head + m;
    let y = head + w;
    if x == y {
        assert(m =~= x.skip(head.len() as int));
        assert(w =~= y.skip(head.len() as int));
        model::law_signed_bytes_determine_fields(a.transaction, b.transaction);
    }
    assert(modular::congruent(
        scalar::little_endian(hashing::sha512(x)) as int,
        scalar::little_endian(hashing::sha512(y)) as int,
        order::group_order(),
    ));
}

/// Why an attestation is refused: because too few nodes have found the request valid, and then the
/// refusal tells how many have; because one of them has not committed to its nonces; or because one
/// does not sign. Otherwise, where the sum of the partial signatures satisfies the verification
/// equation, the first valid node's transaction is attested.
pub proof fn law_refusals<T: NodeTransport>(
    threshold: nat,
    node_count: nat,
    group_public_key: EdwardsPoint,
    request: AttestationRequest,
    first: Seq<Result<Round1Response>>,
    second: Seq<Result<Round2Response>>,
    between: T,
    attempts: Seq<Attempt>,
    after: T,
    r: Result<AttestedTransaction>,
)
    requires
        attests(
            threshold,
            node_count,
            group_public_key,
            request,
            first,
            second,
            between,
            attempts,
            after,
            r,
        ),
    ensures
        valid_nodes(first).len() < threshold || valid_nodes(first).len() == 0 <==> (r matches Err(
            CraftSecError::InsufficientShares { have, need },
        ) && have == valid_nodes(first).len() && need == threshold && second.len() == 0),
        valid_nodes(first).len() >= threshold && valid_nodes(first).len() > 0 && (exists|k: int|
            0 <= k < valid_nodes(first).len() && first[#[trigger] valid_nodes(
                first,
            )[k]]->Ok_0.commitment is None) ==> (r matches Err(CraftSecError::InvalidCommitment(m))
            && m@ == "missing commitment"@ && second.len() == 0),
        ({
            let message = encode_utf8(
                first[valid_nodes(first)[0]]->Ok_0.result->Valid_0.json(),
            );
            let cs = Seq::new(
                valid_nodes(first).len(),
                |k: int| first[valid_nodes(first)[k]]->Ok_0.commitment->0,
            );
            let zs = Seq::new(second.len(), |k: int| second[k]->Ok_0.partial.z.value() as int);
            valid_nodes(first).len() >= threshold && valid_nodes(first).len() > 0 && (forall|k: int|
                0 <= k < valid_nodes(first).len() ==> first[#[trigger] valid_nodes(
                    first,
                )[k]]->Ok_0.commitment is Some) && second.len() == valid_nodes(first).len() && (
            forall|k: int| 0 <= k < second.len() ==> #[trigger] second[k] is Ok)
                && point::base_times(interpolation::sum(zs)) == frost::group_element(
                message,
                cs,
            ).plus(
                group_public_key@.times(
                    frost::challenge(frost::group_element(message, cs), group_public_key@, message),
                ),
            ) ==> (r matches Ok(attested) && attested.transaction
                == first[valid_nodes(first)[0]]->Ok_0.result->Valid_0)
        }),
{
    let valid = valid_nodes(first);
    let cs = Seq::new(valid.len(), |k: int| first[valid_nodes(first)[k]]->Ok_0.commitment->0);
    let zs = Seq::new(second.len(), |k: int| second[k]->Ok_0.partial.z.value() as int);
    assert(cs =~= commitments_of(first));
    assert(zs =~= frost::partial_scalars(partials_of(second)));
    if valid.len() >= threshold && valid.len() > 0 {
        if exists|k: int|
            0 <= k < valid.len() && first[#[trigger] valid_nodes(first)[k]]->Ok_0.commitment
                is None {
            assert(!all_committed(first));
        }
    }
}

/// The answers come from the nodes: in the first round the nodes are sent the request one after the
/// other, and in the second one those that found it valid are sent the whole text of the first one's
/// transaction and all commitments.
pub proof fn law_answers_of_nodes<T: NodeTransport>(
    before: T,
    request: AttestationRequest,
    first: Seq<Result<Round1Response>>,
    second: Seq<Result<Round2Response>>,
    after: T,
)
    requires
        exchanged(before, request, first, second, after),
        second.len() <= valid_nodes(first).len(),
    ensures
        exists|states: Seq<T>|
            {
                &&& #[trigger] states.len() == first.len() + second.len() + 1
                &&& states[0] == before
                &&& states[states.len() - 1] == after
                &&& forall|k: int|
                    0 <= k < first.len() ==> states[k].answers_first(
                        k,
                        request,
                        #[trigger] first[k],
                        &states[k + 1],
                    )
                &&& forall|k: int|
                    0 <= k < second.len() ==> states[first.len() + k].answers_second(
                        valid_nodes(first)[k],
                        encode_utf8(first[valid_nodes(first)[0]]->Ok_0.result->Valid_0.json()),
                        Seq::new(
                            valid_nodes(first).len(),
                            |j: int| first[valid_nodes(first)[j]]->Ok_0.commitment->0,
                        ),
                        #[trigger] second[k],
                        &states[first.len() + k + 1],
                    )
            },
{
    let states = choose|states: Seq<T>| #[trigger]
        is_exchange(states, request, first, second) && states[0] == before && states.last()
            == after;
    assert(states.len() == first.len() + second.len() + 1);
    let cs = Seq::new(
        valid_nodes(first).len(),
        |j: int| first[valid_nodes(first)[j]]->Ok_0.commitment->0,
    );
    assert(cs =~= commitments_of(first));
}

/// The attempts after an invalid signature are made with the nodes too: each asks a choice of as
/// many nodes, numbered in order, first for commitments and then, if all have committed, for partial
/// signatures of the transaction of the first of them.
pub proof fn law_attempts_with_nodes<T: NodeTransport>(
    before: T,
    request: AttestationRequest,
    size: nat,
    node_count: nat,
    group_public_key: EdwardsPoint,
    attempts: Seq<Attempt>,
    after: T,
    r: Result<AttestedTransaction>,
    i: int,
)
    requires
        recovers(before, request, size, node_count, group_public_key, attempts, after, r),
        0 <= i < attempts.len(),
    ensures
        attempts[i].nodes.len() == size,
        forall|k: int| 0 <= k < size ==> 0 <= #[trigger] attempts[i].nodes[k] < node_count,
        forall|j: int, k: int|
            0 <= j < k < size ==> #[trigger] attempts[i].nodes[j] < #[trigger] attempts[i].nodes[k],
        exists|states: Seq<T>|
            {
                &&& #[trigger] states.len() == attempts[i].first.len() + attempts[i].second.len()
                    + 1
                &&& forall|k: int|
                    0 <= k < attempts[i].first.len() ==> states[k].answers_first(
                        attempts[i].nodes[k],
                        request,
                        #[trigger] attempts[i].first[k],
                        &states[k + 1],
                    )
                &&& forall|k: int|
                    0 <= k < attempts[i].second.len() ==> states[attempts[i].first.len()
                        + k].answers_second(
                        attempts[i].nodes[k],
                        encode_utf8(attempts[i].first[0]->Ok_0.result->Valid_0.json()),
                        Seq::new(
                            attempts[i].first.len(),
                            |j: int| attempts[i].first[j]->Ok_0.commitment->0,
                        ),
                        #[trigger] attempts[i].second[k],
                        &states[attempts[i].first.len() + k + 1],
                    )
            },
{
    let bounds = choose|bounds: Seq<T>| #[trigger]
        is_series(bounds, request, attempts) && bounds[0] == before && bounds.last() == after;
    let attempt = attempts[i];
    assert(attempted(bounds[i], request, attempts[i], bounds[i + 1]));
    assert(is_choice(attempts[i].nodes, size, node_count));
    let states = choose|states: Seq<T>| #[trigger]
        is_attempt(states, request, attempt) && states[0] == bounds[i] && states.last() == bounds[i
            + 1];
    assert(states.len() == attempts[i].first.len() + attempts[i].second.len() + 1);
    let cs = Seq::new(
        attempts[i].first.len(),
        |j: int| attempts[i].first[j]->Ok_0.commitment->0,
    );
    assert(cs =~= attempt.commitments());
}

/// When the attempts end: the first one whose signature is valid is the result, and a refusal means
/// that every choice of as many nodes was tried and none made a valid signature.
pub proof fn law_attempts_end<T: NodeTransport>(
    before: T,
    request: AttestationRequest,
    size: nat,
    node_count: nat,
    group_public_key: EdwardsPoint,
    attempts: Seq<Attempt>,
    after: T,
    r: Result<AttestedTransaction>,
    nodes: Seq<int>,
)
    requires
        recovers(before, request, size, node_count, group_public_key, attempts, after, r),
        nodes.len() == size,
        forall|k: int| 0 <= k < nodes.len() ==> 0 <= #[trigger] nodes[k] < node_count,
        forall|j: int, k: int|
            0 <= j < k < nodes.len() ==> #[trigger] nodes[j] < #[trigger] nodes[k],
    ensures
        r is Err ==> exists|i: int|
            0 <= i < attempts.len() && (#[trigger] attempts[i]).nodes == nodes
                && !attempts[i].succeeds(group_public_key@),
        r matches Ok(attested) ==> attempts.len() > 0 && attempts.last().succeeds(
            group_public_key@,
        ) && attested.transaction == attempts.last().first[0]->Ok_0.result->Valid_0
            && attested.valid() && attested.group_public_key == group_public_key,
{
    assert(is_choice(nodes, size, node_count));
    if r is Err {
        assert(tried(attempts, nodes));
        let i = choose|i: int| 0 <= i < attempts.len() && (#[trigger] attempts[i]).nodes == nodes;
        assert(attempts[i].nodes == nodes);
    }
}

/// What it takes for an attempt to succeed: all its nodes have found the request valid, committed
/// and signed, and the sum of the partial signatures satisfies the verification equation.
pub proof fn law_successful_attempt(attempt: Attempt, key: point::Element)
    ensures
        attempt.succeeds(key) ==> {
            let message = encode_utf8(attempt.first[0]->Ok_0.result->Valid_0.json());
            let cs = Seq::new(
                attempt.first.len(),
                |k: int| attempt.first[k]->Ok_0.commitment->0,
            );
            let zs = Seq::new(
                attempt.second.len(),
                |k: int| attempt.second[k]->Ok_0.partial.z.value() as int,
            );
            &&& attempt.first.len() == attempt.nodes.len()
            &&& attempt.second.len() == attempt.nodes.len()
            &&& forall|k: int|
                0 <= k < attempt.first.len() ==> (#[trigger] attempt.first[k]) is Ok
                    && attempt.first[k]->Ok_0.result is Valid && attempt.first[k]->Ok_0.commitment
                    is Some
            &&& forall|k: int|
                0 <= k < attempt.second.len() ==> (#[trigger] attempt.second[k]) is Ok
            &&& point::base_times(interpolation::sum(zs)) == frost::group_element(
                message,
                cs,
            ).plus(key.times(frost::challenge(frost::group_element(message, cs), key, message)))
        },
{
    let cs = Seq::new(attempt.first.len(), |k: int| attempt.first[k]->Ok_0.commitment->0);
    let zs = Seq::new(
        attempt.second.len(),
        |k: int| attempt.second[k]->Ok_0.partial.z.value() as int,
    );
    assert(cs =~= attempt.commitments());
    assert(zs =~= frost::partial_scalars(partials_of(attempt.second)));
    if attempt.succeeds(key) {
        assert forall|k: int| 0 <= k < attempt.first.len() implies (#[trigger] attempt.first[k])
            is Ok && attempt.first[k]->Ok_0.result is Valid && attempt.first[k]->Ok_0.commitment
            is Some by {
            assert(is_usable(attempt.first[k]));
        }
    }
}

/// An attempt is carried through: its nodes are asked until one of them does not find the request
/// valid or does not commit; if all do, they are asked to sign until one of them fails to. Without
/// all commitments nobody is asked to sign.
pub proof fn law_attempts_carried_through<T: NodeTransport>(
    before: T,
    request: AttestationRequest,
    attempt: Attempt,
    after: T,
)
    requires
        attempted(before, request, attempt, after),
    ensures
        ({
            let refused = attempt.first.len() > 0 && !({
                let last = attempt.first[attempt.first.len() - 1];
                last is Ok && last->Ok_0.result is Valid && last->Ok_0.commitment is Some
            });
            let unsigned = attempt.second.len() > 0 && attempt.second[attempt.second.len() - 1]
                is Err;
            &&& attempt.first.len() <= attempt.nodes.len()
            &&& attempt.second.len() <= attempt.nodes.len()
            &&& !refused ==> attempt.first.len() == attempt.nodes.len()
            &&& refused ==> attempt.second.len() == 0
            &&& !refused && !unsigned ==> attempt.second.len() == attempt.nodes.len()
            &&& forall|k: int|
                0 <= k < attempt.first.len() - 1 ==> (#[trigger] attempt.first[k]) is Ok
                    && attempt.first[k]->Ok_0.result is Valid && attempt.first[k]->Ok_0.commitment
                    is Some
            &&& forall|k: int|
                0 <= k < attempt.second.len() - 1 ==> (#[trigger] attempt.second[k]) is Ok
        }),
{
    assert forall|k: int| 0 <= k < attempt.first.len() - 1 implies (#[trigger] attempt.first[k])
        is Ok && attempt.first[k]->Ok_0.result is Valid && attempt.first[k]->Ok_0.commitment
        is Some by {
        assert(is_usable(attempt.first[k]));
    }
    if attempt.committed() && attempt.first.len() > 0 {
        assert(is_usable(attempt.first[attempt.first.len() - 1]));
    }
}

} // verus!
