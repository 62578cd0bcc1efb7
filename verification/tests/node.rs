//! Validators, registries, nodes, clients and local attestation.

use craftsec::attestation::{hash_bytes, ExecutionAttestation};
use craftsec::client::{
    conclude, CraftSecClient, FirstRound, NodeTransport, Round1Response, Round2Response,
};
use craftsec::deployment::{attest_locally, attest_locally_with, compute_cid, local_request};
use craftsec::error::{CraftSecError, Result};
use craftsec::executor::{transfer_validator, ProgramExecutor, ProgramRegistry, ValidatorFn};
use craftsec::feldman::run_dkg;
use craftsec::float::Float;
use craftsec::frost::{
    aggregate, generate_nonces, group_commitment, sign_partial, verify, PartialSignature,
    SigningCommitment,
};
use craftsec::json::{Json, JsonNumber};
use craftsec::model::{
    AttestationRequest, AttestationResult, KeyShare, MultiAttestationRequest, ThresholdConfig,
    Transaction,
};
use craftsec::node::{migrate_program, respond, CraftSecNode, NodeResponse};
use craftsec::point::EdwardsPoint;
use craftsec::receipt::AttestationReceipt;
use craftsec::scalar::Scalar;
use craftsec::transport::LocalTransport;
use rand::rngs::OsRng;
use rand::RngCore;

fn block() -> [u8; 64] {
    let mut b = [0u8; 64];
    OsRng.fill_bytes(&mut b);
    b
}

fn dkg(t: u32, n: u32) -> Vec<KeyShare> {
    let config = ThresholdConfig::new(t, n).unwrap();
    let blocks: Vec<[u8; 64]> = (0..t * n).map(|_| block()).collect();
    run_dkg(&config, &blocks).unwrap()
}

fn num(x: f64) -> Json {
    Json::Number(JsonNumber::Float(Float::from_bits(x.to_bits()).unwrap()))
}

fn whole(n: u64) -> Json {
    Json::Number(JsonNumber::PosInt(n))
}

fn text(s: &str) -> Json {
    Json::Text(s.to_string())
}

fn object(entries: Vec<(&str, Json)>) -> Json {
    Json::Object(entries.into_iter().map(|(k, v)| (k.to_string(), v)).collect())
}

fn request(program_cid: &str, args: Json, request_id: &str) -> AttestationRequest {
    AttestationRequest {
        program_cid: program_cid.into(),
        requester: "did:alice".into(),
        args,
        request_id: request_id.into(),
    }
}

fn full_args() -> Json {
    object(vec![
        ("recipient", text("did:bob")),
        ("amount", num(50.0)),
        ("seq", whole(1)),
        ("prev_hash", text("0000")),
        ("timestamp", whole(1000)),
    ])
}

fn transfer_node(share: KeyShare) -> CraftSecNode {
    let mut registry = ProgramRegistry::new();
    registry.register("Qm_transfer".into(), Box::new(transfer_validator) as ValidatorFn);
    CraftSecNode::new(share, registry)
}

fn setup_nodes(t: u32, n: u32) -> Vec<CraftSecNode> {
    dkg(t, n).into_iter().map(transfer_node).collect()
}

fn process(node: &CraftSecNode, request: &AttestationRequest) -> Result<NodeResponse> {
    node.process_request(request, &block(), &block())
}

fn amount_of(tx: &Transaction) -> f64 {
    f64::from_bits(tx.amount.to_bits())
}

#[test]
fn transfer_valid() {
    let req = request(
        "Qm_transfer",
        object(vec![("recipient", text("did:bob")), ("amount", num(50.0))]),
        "req-1",
    );
    let result = transfer_validator(&req).unwrap();
    assert!(matches!(result, AttestationResult::Valid(_)));
}

#[test]
fn transfer_insufficient_balance() {
    let req = request(
        "Qm_transfer",
        object(vec![
            ("recipient", text("did:bob")),
            ("amount", num(50.0)),
            ("balance", num(10.0)),
        ]),
        "req-1",
    );
    let result = transfer_validator(&req).unwrap();
    assert!(matches!(result, AttestationResult::Invalid(ref r) if r == "insufficient balance"));
}

#[test]
fn transfer_negative_amount() {
    let req = request(
        "Qm_transfer",
        object(vec![("recipient", text("did:bob")), ("amount", num(-10.0))]),
        "req-1",
    );
    let result = transfer_validator(&req).unwrap();
    assert!(matches!(result, AttestationResult::Invalid(ref r) if r == "amount must be positive"));
}

#[test]
fn transfer_edges() {
    let verdict = |amount: Json, balance: Option<Json>| {
        let mut entries = vec![("recipient", text("did:bob")), ("amount", amount)];
        if let Some(b) = balance {
            entries.push(("balance", b));
        }
        transfer_validator(&request("Qm_transfer", object(entries), "r")).unwrap()
    };
    assert!(matches!(verdict(num(0.0), None), AttestationResult::Invalid(_)));
    assert!(matches!(verdict(num(-0.0), None), AttestationResult::Invalid(_)));
    assert!(matches!(verdict(num(1000.0), None), AttestationResult::Valid(_)));
    assert!(matches!(verdict(num(1000.0000001), None), AttestationResult::Invalid(_)));
    assert!(matches!(verdict(whole(50), Some(whole(50))), AttestationResult::Valid(_)));
    assert!(matches!(verdict(whole(51), Some(whole(50))), AttestationResult::Invalid(_)));
    assert!(matches!(verdict(whole(51), Some(text("5"))), AttestationResult::Valid(_)));
}

#[test]
fn transfer_missing_arguments() {
    let e = transfer_validator(&request("Qm", object(vec![("amount", num(1.0))]), "r")).unwrap_err();
    assert!(matches!(e, CraftSecError::ProgramError(ref m) if m == "missing recipient"));
    let e = transfer_validator(&request("Qm", object(vec![("recipient", text("x"))]), "r"))
        .unwrap_err();
    assert!(matches!(e, CraftSecError::ProgramError(ref m) if m == "missing amount"));
    let e = transfer_validator(&request("Qm", Json::Null, "r")).unwrap_err();
    assert!(matches!(e, CraftSecError::ProgramError(ref m) if m == "missing recipient"));
}

#[test]
fn transfer_defaults_and_given_fields() {
    let args = object(vec![("recipient", text("did:bob")), ("amount", num(50.0))]);
    match transfer_validator(&request("Qm_transfer", args, "r")).unwrap() {
        AttestationResult::Valid(tx) => {
            assert_eq!(
                tx.to_json(),
                "{\"seq\":1,\"prev_hash\":\"0000\",\"sender\":\"did:alice\",\"recipient\":\"did:bob\",\"amount\":50.0,\"asset\":\"USDC\",\"timestamp\":0,\"program_cid\":\"Qm_transfer\",\"user_sig\":\"placeholder\"}"
            );
        }
        AttestationResult::Invalid(reason) => panic!("{}", reason),
    }
    let args = object(vec![
        ("recipient", text("did:bob")),
        ("amount", whole(5)),
        ("seq", whole(9)),
        ("prev_hash", text("ff")),
        ("asset", text("EUR")),
        ("timestamp", whole(77)),
        ("user_sig", text("aa")),
    ]);
    match transfer_validator(&request("Qm_transfer", args, "r")).unwrap() {
        AttestationResult::Valid(tx) => {
            assert_eq!(
                tx.to_json(),
                "{\"seq\":9,\"prev_hash\":\"ff\",\"sender\":\"did:alice\",\"recipient\":\"did:bob\",\"amount\":5.0,\"asset\":\"EUR\",\"timestamp\":77,\"program_cid\":\"Qm_transfer\",\"user_sig\":\"aa\"}"
            );
        }
        AttestationResult::Invalid(reason) => panic!("{}", reason),
    }
}

#[test]
fn registry_unknown_program() {
    let registry: ProgramRegistry = ProgramRegistry::new();
    let req = request("Qm_unknown", object(vec![]), "req-1");
    assert!(ProgramRegistry::execute(&registry, &req).is_err());
    let e = ProgramExecutor::execute(&registry, &req).unwrap_err();
    assert!(matches!(e, CraftSecError::ProgramError(ref m) if m == "unknown program CID: Qm_unknown"));
}

#[test]
fn registry_later_validator_replaces() {
    let mut registry: ProgramRegistry = ProgramRegistry::default();
    registry.register("Qm".into(), Box::new(transfer_validator) as ValidatorFn);
    registry.register(
        "Qm".into(),
        Box::new(|_req: &AttestationRequest| Ok(AttestationResult::Invalid("no".into())))
            as ValidatorFn,
    );
    let result = ProgramRegistry::execute(&registry, &request("Qm", full_args(), "r")).unwrap();
    assert!(matches!(result, AttestationResult::Invalid(ref m) if m == "no"));
}

#[test]
fn end_to_end_attestation_2_of_3() {
    let nodes = setup_nodes(2, 3);
    let req = request("Qm_transfer", full_args(), "req-1");

    let signers = &[0usize, 1];

    let mut responses: Vec<NodeResponse> = Vec::new();
    for &i in signers {
        let resp = process(&nodes[i], &req).unwrap();
        assert!(matches!(resp.result, AttestationResult::Valid(_)));
        responses.push(resp);
    }

    let tx = match &responses[0].result {
        AttestationResult::Valid(tx) => tx,
        _ => unreachable!(),
    };
    let message = tx.signing_bytes();

    let commitments: Vec<SigningCommitment> =
        responses.iter().map(|r| r.commitment.clone().unwrap()).collect();

    let mut partials = Vec::new();
    for (idx, &i) in signers.iter().enumerate() {
        let nonce = responses[idx].nonce.as_ref().unwrap();
        let sig = nodes[i].sign(nonce, &message, &commitments).unwrap();
        partials.push(sig.partial);
    }

    let threshold_sig = aggregate(&message, &commitments, &partials);
    verify(&threshold_sig, &nodes[0].key_share.group_public_key, &message).unwrap();
}

#[test]
fn attestation_rejected_insufficient_balance() {
    let nodes = setup_nodes(2, 3);
    let req = request(
        "Qm_transfer",
        object(vec![
            ("recipient", text("did:bob")),
            ("amount", num(50.0)),
            ("balance", num(10.0)),
        ]),
        "req-2",
    );

    let resp = process(&nodes[0], &req).unwrap();
    assert!(matches!(resp.result, AttestationResult::Invalid(_)));
    assert!(resp.commitment.is_none());
    assert!(resp.nonce.is_none());
}

#[test]
fn frozen_program_rejected() {
    let mut nodes = setup_nodes(2, 3);
    nodes[0].freeze_program("Qm_transfer".into());

    let req = request(
        "Qm_transfer",
        object(vec![("recipient", text("did:bob")), ("amount", num(50.0))]),
        "req-3",
    );

    let err = process(&nodes[0], &req).unwrap_err();
    assert!(matches!(err, CraftSecError::ProgramFrozen(ref cid) if cid == "Qm_transfer"));
    assert!(!nodes[0].is_frozen("Qm_other"));
}

#[test]
fn node_passes_program_errors_on() {
    let nodes = setup_nodes(2, 3);
    let err = process(&nodes[0], &request("Qm_other", full_args(), "r")).unwrap_err();
    assert!(matches!(err, CraftSecError::ProgramError(ref m) if m == "unknown program CID: Qm_other"));
}

#[test]
fn response_to_each_outcome() {
    let share = &dkg(1, 1)[0];
    let (hiding, binding) = (block(), block());
    let r = respond(Ok(AttestationResult::Invalid("no".into())), share, &hiding, &binding).unwrap();
    assert!(r.commitment.is_none() && r.nonce.is_none());
    let e = respond(Err(CraftSecError::ProgramError("x".into())), share, &hiding, &binding);
    assert!(matches!(e, Err(CraftSecError::ProgramError(ref m)) if m == "x"));
    let tx = match transfer_validator(&request("Qm", full_args(), "r")).unwrap() {
        AttestationResult::Valid(tx) => tx,
        AttestationResult::Invalid(reason) => panic!("{}", reason),
    };
    let r = respond(Ok(AttestationResult::Valid(tx)), share, &hiding, &binding).unwrap();
    let (nonce, commitment) = generate_nonces(share.index, &hiding, &binding);
    assert_eq!(r.nonce.unwrap().d, nonce.d);
    assert_eq!(r.commitment.unwrap().binding, commitment.binding);
}

#[test]
fn migrate_program_transfers_key_and_freezes_old() {
    let key_shares = dkg(2, 3);
    let gpk = key_shares[0].group_public_key;

    let mut nodes: Vec<CraftSecNode> = key_shares
        .into_iter()
        .map(|ks| {
            let mut registry = ProgramRegistry::new();
            registry.register("Qm_transfer_v1".into(), Box::new(transfer_validator) as ValidatorFn);
            registry.register("Qm_transfer_v2".into(), Box::new(transfer_validator) as ValidatorFn);
            let mut node = CraftSecNode::new(ks.clone(), registry);
            node.register_key("Qm_transfer_v1".into(), ks);
            node
        })
        .collect();

    for node in &mut nodes {
        migrate_program(node, "Qm_transfer_v1", "Qm_transfer_v2");
    }

    assert!(nodes[0].is_frozen("Qm_transfer_v1"));

    let req_v1 = request(
        "Qm_transfer_v1",
        object(vec![("recipient", text("did:bob")), ("amount", num(50.0))]),
        "req-v1",
    );
    assert!(process(&nodes[0], &req_v1).is_err());

    let req_v2 = request("Qm_transfer_v2", full_args(), "req-v2");

    let signers = &[0usize, 1];
    let mut responses = Vec::new();
    for &i in signers {
        responses.push(process(&nodes[i], &req_v2).unwrap());
    }

    let tx = match &responses[0].result {
        AttestationResult::Valid(tx) => tx,
        _ => unreachable!(),
    };
    let message = tx.signing_bytes();
    let commitments: Vec<_> = responses.iter().map(|r| r.commitment.clone().unwrap()).collect();

    let mut partials = Vec::new();
    for (idx, &i) in signers.iter().enumerate() {
        let nonce = responses[idx].nonce.as_ref().unwrap();
        let sig = nodes[i]
            .sign_for_program("Qm_transfer_v2", nonce, &message, &commitments)
            .unwrap();
        partials.push(sig.partial);
    }

    let threshold_sig = aggregate(&message, &commitments, &partials);
    verify(&threshold_sig, &gpk, &message).unwrap();
}

#[test]
fn migration_leaves_other_programs_alone() {
    let shares = dkg(2, 3);
    let mut node = transfer_node(shares[0].clone());
    node.register_key("Qm_a".into(), shares[1].clone());
    node.register_key("Qm_c".into(), shares[2].clone());
    migrate_program(&mut node, "Qm_a", "Qm_b");
    assert_eq!(node.get_key_share("Qm_b").secret, shares[1].secret);
    assert_eq!(node.get_key_share("Qm_a").secret, shares[1].secret);
    assert_eq!(node.get_key_share("Qm_c").secret, shares[2].secret);
    assert_eq!(node.get_key_share("Qm_d").secret, shares[0].secret);
    assert!(node.is_frozen("Qm_a"));
    assert!(!node.is_frozen("Qm_b"));
}

fn compliance_nodes(validator: fn() -> ValidatorFn) -> Vec<CraftSecNode> {
    dkg(2, 3)
        .into_iter()
        .map(|ks| {
            let mut registry = ProgramRegistry::new();
            registry.register("Qm_transfer".into(), Box::new(transfer_validator) as ValidatorFn);
            registry.register("Qm_compliance".into(), validator());
            CraftSecNode::new(ks, registry)
        })
        .collect()
}

fn multi_request(request_id: &str) -> MultiAttestationRequest {
    MultiAttestationRequest {
        program_cids: vec!["Qm_transfer".into(), "Qm_compliance".into()],
        requester: "did:alice".into(),
        args: full_args(),
        request_id: request_id.into(),
    }
}

#[test]
fn multi_program_all_accept() {
    let nodes = compliance_nodes(|| {
        Box::new(|req: &AttestationRequest| transfer_validator(req)) as ValidatorFn
    });
    let individual = multi_request("multi-1").to_individual_requests();
    for req in &individual {
        for node in &nodes {
            let resp = process(node, req).unwrap();
            assert!(matches!(resp.result, AttestationResult::Valid(_)));
        }
    }
}

#[test]
fn multi_program_one_rejects() {
    let nodes = compliance_nodes(|| {
        Box::new(|_req: &AttestationRequest| {
            Ok(AttestationResult::Invalid("compliance check failed".into()))
        }) as ValidatorFn
    });
    let individual = multi_request("multi-2").to_individual_requests();
    let mut any_rejected = false;
    for req in &individual {
        let resp = process(&nodes[0], req).unwrap();
        if matches!(resp.result, AttestationResult::Invalid(_)) {
            any_rejected = true;
        }
    }
    assert!(any_rejected, "at least one program should reject");
}

#[test]
fn receipt_with_threshold_signature() {
    let key_shares = dkg(2, 3);
    let gpk = key_shares[0].group_public_key;

    let mut receipt = AttestationReceipt::new(
        "Qm_transfer".into(),
        b"{\"amount\":50}",
        b"{\"status\":\"valid\"}",
        1706000000,
    );
    let message = receipt.signing_bytes();

    let signers = &[0usize, 1];
    let mut nonces = Vec::new();
    let mut commitments = Vec::new();
    for &i in signers {
        let (n, c) = generate_nonces(key_shares[i].index, &block(), &block());
        nonces.push(n);
        commitments.push(c);
    }

    let mut partials = Vec::new();
    for (idx, &i) in signers.iter().enumerate() {
        partials.push(sign_partial(&key_shares[i], &nonces[idx], &message, &commitments).unwrap());
    }

    let sig = aggregate(&message, &commitments, &partials);
    let sig_bytes = [sig.r.to_bytes().as_slice(), sig.s.to_bytes().as_slice()].concat();
    receipt.add_signature(0, hex::encode(&sig_bytes));

    verify(&sig, &gpk, &message).unwrap();
    assert!(receipt.verify_signatures());

    let mut tampered = receipt.clone();
    tampered.timestamp = 9999;
    assert_ne!(receipt.signing_bytes(), tampered.signing_bytes());

    assert!(receipt.verify_signatures_under(&gpk));
    assert!(!tampered.verify_signatures_under(&gpk));
    assert!(!receipt.verify_signatures_under(&EdwardsPoint::basepoint()));
}

#[test]
fn execution_attestation_with_threshold_signature() {
    let key_shares = dkg(2, 3);
    let gpk = key_shares[0].group_public_key;
    let (input_hash, output_hash) = (hash_bytes(b"in"), hash_bytes(b"out"));
    let message = ExecutionAttestation::signing_bytes("Qm_a", &input_hash, &output_hash, 7);
    let (n1, c1) = generate_nonces(1, &block(), &block());
    let (n3, c3) = generate_nonces(3, &block(), &block());
    let commitments = [c1, c3];
    let partials = [
        sign_partial(&key_shares[0], &n1, &message, &commitments).unwrap(),
        sign_partial(&key_shares[2], &n3, &message, &commitments).unwrap(),
    ];
    let sig = aggregate(&message, &commitments, &partials);
    let att = ExecutionAttestation {
        program_cid: "Qm_a".into(),
        input_hash,
        output_hash,
        timestamp_ms: 7,
        signature: [sig.r.to_bytes().as_slice(), sig.s.to_bytes().as_slice()].concat(),
        group_public_key: gpk.to_bytes().to_vec(),
    };
    assert!(att.verify_structure());
    let mut forged = att.clone();
    forged.input_hash = hash_bytes(b"forged");
    assert!(!forged.verify_structure());
    let mut other_key = att.clone();
    other_key.group_public_key = EdwardsPoint::basepoint().to_bytes().to_vec();
    assert!(!other_key.verify_structure());
}

fn make_client(t: u32, n: u32) -> CraftSecClient<LocalTransport<ProgramRegistry>> {
    let shares = dkg(t, n);
    let gpk = shares[0].group_public_key;
    let nodes = shares.into_iter().map(transfer_node).collect();
    CraftSecClient::new(LocalTransport::new(nodes), gpk, t, n as usize)
}

#[test]
fn full_client_flow_2_of_3() {
    let mut client = make_client(2, 3);
    let attested = client.attest(&request("Qm_transfer", full_args(), "req-1")).unwrap();
    attested.verify().unwrap();
    assert_eq!(attested.transaction.sender, "did:alice");
    assert_eq!(attested.transaction.recipient, "did:bob");
    assert_eq!(amount_of(&attested.transaction), 50.0);
}

#[test]
fn full_client_flow_3_of_5() {
    let mut client = make_client(3, 5);
    let req = request(
        "Qm_transfer",
        object(vec![
            ("recipient", text("did:charlie")),
            ("amount", num(100.0)),
            ("seq", whole(42)),
            ("prev_hash", text("abc123")),
            ("timestamp", whole(2000)),
        ]),
        "req-2",
    );
    let attested = client.attest(&req).unwrap();
    attested.verify().unwrap();
}

#[test]
fn client_rejects_invalid_request() {
    let mut client = make_client(2, 3);
    let req = request(
        "Qm_transfer",
        object(vec![
            ("recipient", text("did:bob")),
            ("amount", num(50.0)),
            ("balance", num(10.0)),
        ]),
        "req-3",
    );
    assert!(client.attest(&req).is_err());
}

#[test]
fn client_skips_nodes_that_refuse() {
    let mut client = make_client(2, 3);
    client.transport.nodes[0].freeze_program("Qm_transfer".into());
    let attested = client.attest(&request("Qm_transfer", full_args(), "r")).unwrap();
    attested.verify().unwrap();
    client.transport.nodes[1].freeze_program("Qm_transfer".into());
    let e = client.attest(&request("Qm_transfer", full_args(), "r")).unwrap_err();
    assert!(matches!(e, CraftSecError::InsufficientShares { have: 1, need: 2 }));
}

#[test]
fn client_refuses_a_signature_under_another_key() {
    let mut client = make_client(2, 3);
    client.group_public_key = EdwardsPoint::basepoint();
    let e = client.attest(&request("Qm_transfer", full_args(), "r")).unwrap_err();
    assert!(matches!(
        e,
        CraftSecError::InvalidSignature(ref m) if m == "threshold signature verification failed"
    ));
}

#[test]
fn attested_transaction_detects_tampering() {
    let mut client = make_client(2, 3);
    let mut attested = client.attest(&request("Qm_transfer", full_args(), "r")).unwrap();
    attested.transaction.recipient = "did:eve".into();
    assert!(attested.verify().is_err());
}

/// A transport that answers as it is told.
struct Scripted {
    commits: bool,
    asked: Vec<usize>,
}

impl NodeTransport for Scripted {
    fn round1(&mut self, node_index: usize, request: &AttestationRequest) -> Result<Round1Response> {
        self.asked.push(node_index);
        let (_, commitment) = generate_nonces(node_index as u32 + 1, &[7; 64], &[8; 64]);
        Ok(Round1Response {
            result: transfer_validator(request)?,
            commitment: if self.commits { Some(commitment) } else { None },
        })
    }

    fn round2(
        &mut self,
        _node_index: usize,
        _message: &[u8],
        _commitments: &[SigningCommitment],
    ) -> Result<Round2Response> {
        Err(CraftSecError::AttestationFailed("down".into()))
    }
}

#[test]
fn client_needs_commitments() {
    let transport = Scripted { commits: false, asked: vec![] };
    let mut client = CraftSecClient::new(transport, EdwardsPoint::basepoint(), 2, 3);
    let e = client.attest(&request("Qm", full_args(), "r")).unwrap_err();
    assert!(matches!(e, CraftSecError::InvalidCommitment(ref m) if m == "missing commitment"));
    assert_eq!(client.transport.asked, vec![0, 1]);
}

#[test]
fn client_passes_errors_of_the_second_round_on() {
    let transport = Scripted { commits: true, asked: vec![] };
    let mut client = CraftSecClient::new(transport, EdwardsPoint::basepoint(), 1, 3);
    let e = client.attest(&request("Qm", full_args(), "r")).unwrap_err();
    assert!(matches!(e, CraftSecError::AttestationFailed(ref m) if m == "down"));
    assert_eq!(client.transport.asked, vec![0]);
}

#[test]
fn client_without_nodes() {
    let transport = Scripted { commits: true, asked: vec![] };
    let mut client = CraftSecClient::new(transport, EdwardsPoint::basepoint(), 0, 0);
    let e = client.attest(&request("Qm", full_args(), "r")).unwrap_err();
    assert!(matches!(e, CraftSecError::InsufficientShares { have: 0, need: 0 }));
}

#[test]
fn first_round_counts_valid_answers() {
    let answer = |sender: &str, committed: bool| {
        let mut req = request("Qm", full_args(), "r");
        req.requester = sender.into();
        let (_, commitment) = generate_nonces(1, &[7; 64], &[8; 64]);
        Ok(Round1Response {
            result: transfer_validator(&req).unwrap(),
            commitment: if committed { Some(commitment) } else { None },
        })
    };
    let mut round = FirstRound::new();
    round.record(0, Err(CraftSecError::AttestationFailed("down".into())));
    round.record(1, answer("did:first", true));
    round.record(
        2,
        Ok(Round1Response {
            result: AttestationResult::Invalid("no".into()),
            commitment: None,
        }),
    );
    round.record(3, answer("did:second", true));
    assert_eq!(round.responses.len(), 2);
    let selection = round.select(2).unwrap();
    assert_eq!(selection.nodes, vec![1, 3]);
    assert_eq!(selection.commitments.len(), 2);
    assert_eq!(selection.transaction.sender, "did:first");

    let mut round = FirstRound::new();
    round.record(4, answer("did:first", true));
    assert!(matches!(
        round.select(2),
        Err(CraftSecError::InsufficientShares { have: 1, need: 2 })
    ));

    let mut round = FirstRound::new();
    round.record(4, answer("did:first", true));
    round.record(5, answer("did:first", false));
    assert!(matches!(round.select(2), Err(CraftSecError::InvalidCommitment(_))));
}

#[test]
fn conclusion_of_honest_rounds() {
    let shares = dkg(2, 3);
    let tx = match transfer_validator(&request("Qm", full_args(), "r")).unwrap() {
        AttestationResult::Valid(tx) => tx,
        AttestationResult::Invalid(reason) => panic!("{}", reason),
    };
    let message = tx.signing_bytes();
    let (n0, c0) = generate_nonces(shares[0].index, &block(), &block());
    let (n2, c2) = generate_nonces(shares[2].index, &block(), &block());
    let commitments = [c0, c2];
    let partials = [
        sign_partial(&shares[0], &n0, &message, &commitments).unwrap(),
        sign_partial(&shares[2], &n2, &message, &commitments).unwrap(),
    ];
    let gpk = shares[0].group_public_key;
    conclude(tx.clone(), &commitments, &partials, gpk).unwrap().verify().unwrap();
    let wrong = [PartialSignature { index: 1, z: Scalar::one() }, partials[1]];
    assert!(conclude(tx, &commitments, &wrong, gpk).is_err());
}

#[test]
fn transport_needs_the_first_round() {
    let nodes = setup_nodes(2, 3);
    let mut transport = LocalTransport::new(nodes);
    let e = transport.round2(0, b"m", &[]).unwrap_err();
    assert!(matches!(e, CraftSecError::InvalidSignature(ref m) if m == "no nonce"));
    let req = request("Qm_transfer", full_args(), "r");
    let first = transport.round1_with(0, &req, Some(([5; 64], [6; 64]))).unwrap();
    let (nonce, commitment) = generate_nonces(1, &[5; 64], &[6; 64]);
    let given = first.commitment.unwrap();
    assert_eq!(given.hiding, commitment.hiding);
    let second = transport.round2(0, b"m", &[given]).unwrap();
    let expected = sign_partial(&transport.nodes[0].key_share, &nonce, b"m", &[given]).unwrap();
    assert_eq!(second.partial.z, expected.z);
}

#[test]
fn transport_draws_new_nonces() {
    let mut transport = LocalTransport::new(setup_nodes(2, 3));
    let req = request("Qm_transfer", full_args(), "r");
    let a = transport.round1(0, &req).unwrap().commitment.unwrap();
    let b = transport.round1(0, &req).unwrap().commitment.unwrap();
    assert_ne!(a.hiding, b.hiding);
    assert_ne!(a.hiding, a.binding);
}

#[test]
fn local_attestation() {
    let attested = attest_locally(&request("Qm_transfer", full_args(), "r"), transfer_validator).unwrap();
    attested.verify().unwrap();
    assert_eq!(
        hex::encode(attested.group_public_key.to_bytes()),
        "7087956e2488d4ac822092f01993864094a04e1777731f8702f6a381400be1cc"
    );
    let rejected = attest_locally(&request("Qm_transfer", object(vec![]), "r"), transfer_validator);
    assert!(matches!(rejected, Err(CraftSecError::InsufficientShares { have: 0, need: 2 })));
}

#[test]
fn content_ids() {
    assert_eq!(compute_cid(b"transfer.wasm"), "Qm_eb0602450a7d1687");
}

#[test]
fn requests_of_the_command_line() {
    let request = local_request("Qm_a", "{\"amount\": 5, \"recipient\": \"did:bob\"}", 42).unwrap();
    assert_eq!(request.program_cid, "Qm_a");
    assert_eq!(request.requester, "did:cli-user");
    assert_eq!(request.request_id, "cli-42");
    assert_eq!(request.args.to_text(), "{\"amount\":5,\"recipient\":\"did:bob\"}");
    let attested = attest_locally(&request, transfer_validator).unwrap();
    attested.verify().unwrap();
    assert_eq!(attested.transaction.sender, "did:cli-user");
    let e = local_request("Qm_a", "{", 1).unwrap_err();
    assert_eq!(e, "EOF while parsing an object at line 1 column 1");
}

/// A local transport at which some nodes sign wrongly or do not answer.
struct Faulty {
    inner: LocalTransport<ProgramRegistry>,
    wrong: Vec<usize>,
    silent: Vec<usize>,
    first: usize,
    second: usize,
}

impl NodeTransport for Faulty {
    fn round1(&mut self, node_index: usize, request: &AttestationRequest) -> Result<Round1Response> {
        self.first += 1;
        if self.silent.contains(&node_index) {
            return Err(CraftSecError::AttestationFailed("down".into()));
        }
        self.inner.round1(node_index, request)
    }

    fn round2(
        &mut self,
        node_index: usize,
        message: &[u8],
        commitments: &[SigningCommitment],
    ) -> Result<Round2Response> {
        self.second += 1;
        let mut response = self.inner.round2(node_index, message, commitments)?;
        if self.wrong.contains(&node_index) {
            response.partial.z = response.partial.z + Scalar::one();
        }
        Ok(response)
    }
}

fn faulty_client(t: u32, n: u32, wrong: &[usize], silent: &[usize]) -> CraftSecClient<Faulty> {
    let shares = dkg(t, n);
    let gpk = shares[0].group_public_key;
    let nodes = shares.into_iter().map(transfer_node).collect();
    let transport = Faulty {
        inner: LocalTransport::new(nodes),
        wrong: wrong.to_vec(),
        silent: silent.to_vec(),
        first: 0,
        second: 0,
    };
    CraftSecClient::new(transport, gpk, t, n as usize)
}

/// The nodes that sign wrongly are left out.
fn leaves_out(t: u32, n: u32, wrong: &[usize], silent: &[usize]) {
    let mut client = faulty_client(t, n, wrong, silent);
    let attested = client.attest(&request("Qm_transfer", full_args(), "r")).unwrap();
    attested.verify().unwrap();
    assert_eq!(attested.transaction.recipient, "did:bob");
}

#[test]
fn wrong_signers_are_left_out() {
    leaves_out(2, 3, &[0], &[]);
    leaves_out(2, 3, &[1], &[]);
}

#[test]
fn several_wrong_signers_are_left_out() {
    leaves_out(2, 4, &[0, 1], &[]);
}

#[test]
fn wrong_and_silent_signers_are_left_out() {
    leaves_out(2, 4, &[0], &[2]);
}

#[test]
fn too_many_wrong_signers() {
    let mut client = faulty_client(2, 3, &[0, 1], &[]);
    let refused = client.attest(&request("Qm_transfer", full_args(), "r"));
    assert!(matches!(refused, Err(CraftSecError::InvalidSignature(_))));
}

#[test]
fn honest_signers_are_asked_once() {
    let mut client = faulty_client(2, 3, &[], &[]);
    client.attest(&request("Qm_transfer", full_args(), "r")).unwrap();
    assert_eq!((client.transport.first, client.transport.second), (2, 2));
}

#[test]
fn a_refused_request_is_not_signed() {
    let mut client = faulty_client(2, 3, &[], &[0, 2]);
    let refused = client.attest(&request("Qm_transfer", full_args(), "r"));
    assert!(matches!(refused, Err(CraftSecError::InsufficientShares { have: 1, need: 2 })));
    assert_eq!((client.transport.first, client.transport.second), (3, 0));
}

#[test]
fn silent_nodes_are_passed_over() {
    let mut client = faulty_client(1, 3, &[], &[0]);
    client.threshold = 0;
    client.attest(&request("Qm_transfer", full_args(), "r")).unwrap().verify().unwrap();
    assert_eq!((client.transport.first, client.transport.second), (2, 1));
}

#[test]
fn any_available_nodes_suffice() {
    for frozen in [[0usize, 1], [2, 4]] {
        let mut client = make_client(3, 5);
        for i in frozen {
            client.transport.nodes[i].freeze_program("Qm_transfer".into());
        }
        let attested = client.attest(&request("Qm_transfer", full_args(), "r")).unwrap();
        attested.verify().unwrap();
    }
}

#[test]
fn random_bytes_are_for_valid_requests() {
    let mut transport = LocalTransport::new(setup_nodes(2, 3));
    let valid = request("Qm_transfer", full_args(), "r");
    let e = transport.round1_with(0, &valid, None).unwrap_err();
    assert!(matches!(e, CraftSecError::AttestationFailed(ref m) if m == "no random bytes"));
    let invalid = request(
        "Qm_transfer",
        object(vec![("recipient", text("did:bob")), ("amount", num(-1.0))]),
        "r",
    );
    let answer = transport.round1_with(0, &invalid, None).unwrap();
    assert!(matches!(answer.result, AttestationResult::Invalid(_)));
    transport.nodes[0].freeze_program("Qm_transfer".into());
    let e = transport.round1_with(0, &valid, None).unwrap_err();
    assert!(matches!(e, CraftSecError::ProgramFrozen(ref cid) if cid == "Qm_transfer"));
}

#[test]
fn local_attestation_with_given_blocks() {
    let req = request("Qm_transfer", full_args(), "r");
    let blocks = [[1u8; 64], [2; 64], [3; 64], [4; 64]];
    let a = attest_locally_with(&req, transfer_validator, &blocks).unwrap();
    let b = attest_locally_with(&req, transfer_validator, &blocks).unwrap();
    a.verify().unwrap();
    assert_eq!(a.signature.r, b.signature.r);
    assert_eq!(a.signature.s, b.signature.s);
    let (_, c1) = generate_nonces(1, &blocks[0], &blocks[1]);
    let (_, c2) = generate_nonces(2, &blocks[2], &blocks[3]);
    assert_eq!(a.signature.r, group_commitment(&a.transaction.signing_bytes(), &[c1, c2]));
    let short = attest_locally_with(&req, transfer_validator, &blocks[..3]);
    assert!(matches!(short, Err(CraftSecError::InsufficientShares { have: 1, need: 2 })));
    let bad = request("Qm_transfer", object(vec![]), "r");
    let refused = attest_locally_with(&bad, transfer_validator, &[]);
    assert!(matches!(refused, Err(CraftSecError::InsufficientShares { have: 0, need: 2 })));
}
