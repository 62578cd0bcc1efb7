//! The values that participants, nodes and clients exchange.

use crate::error::{CraftSecError, Result};
use crate::float::Float;
use crate::json;
use crate::json::{push_float, push_quoted, Json, JsonNumber};
use crate::point::EdwardsPoint;
use crate::scalar::Scalar;
use crate::text;
use crate::text::{append_bytes, push_decimal};
use vstd::prelude::*;
use vstd::string::*;
use vstd::utf8::*;

verus! {

/// Threshold configuration: how many of how many participants sign.
#[derive(Clone, Debug)]
pub struct ThresholdConfig {
    /// The least number of signers.
    pub threshold: u32,
    /// The number of participants.
    pub total: u32,
}

impl ThresholdConfig {
    /// A configuration whose threshold is at least one and at most the number of participants.
    pub fn new(threshold: u32, total: u32) -> (r: Result<ThresholdConfig>)
        ensures
            match r {
                Ok(config) => 0 < threshold <= total && config.threshold == threshold
                    && config.total == total,
                Err(e) => !(0 < threshold <= total) && e == (CraftSecError::InvalidThreshold {
                    t: threshold,
                    n: total,
                }),
            },
    {
        if threshold == 0 || threshold > total {
            return Err(CraftSecError::InvalidThreshold { t: threshold, n: total });
        }
        Ok(ThresholdConfig { threshold, total })
    }
}

/// A participant's index, counted from one.
pub type ParticipantIndex = u32;

/// A key share held by one participant.
#[derive(Debug)]
pub struct KeyShare {
    /// The participant's index.
    pub index: ParticipantIndex,
    /// The secret share.
    pub secret: Scalar,
    /// The group's public key.
    pub group_public_key: EdwardsPoint,
    /// The public key of each participant's share: the base point times the share.
    pub verification_shares: Vec<(ParticipantIndex, EdwardsPoint)>,
}

/// Two key shares hold the same.
pub open spec fn same_share(a: KeyShare, b: KeyShare) -> bool {
    &&& a.index == b.index
    &&& a.secret == b.secret
    &&& a.group_public_key == b.group_public_key
    &&& a.verification_shares@ == b.verification_shares@
}

impl Clone for KeyShare {
    fn clone(&self) -> (r: KeyShare)
        ensures
            same_share(r, *self),
    {
        let mut verification_shares: Vec<(ParticipantIndex, EdwardsPoint)> = Vec::new();
        let mut k: usize = 0;
        while k < self.verification_shares.len()
            invariant
                k <= self.verification_shares@.len(),
                verification_shares@ == self.verification_shares@.take(k as int),
            decreases self.verification_shares@.len() - k,
        {
            verification_shares.push(self.verification_shares[k]);
            k = k + 1;
            assert(verification_shares@ =~= self.verification_shares@.take(k as int));
        }
        assert(self.verification_shares@.take(k as int) =~= self.verification_shares@);
        KeyShare {
            index: self.index,
            secret: self.secret,
            group_public_key: self.group_public_key,
            verification_shares,
        }
    }
}

/// An attestation request from a client.
#[derive(Clone, Debug)]
pub struct AttestationRequest {
    /// The content id of the program to execute.
    pub program_cid: String,
    /// Who requests.
    pub requester: String,
    /// The program's arguments.
    pub args: Json,
    /// The id of the request.
    pub request_id: String,
}

/// A request to several programs, each of which has to accept.
#[derive(Clone, Debug)]
pub struct MultiAttestationRequest {
    /// The content ids of the programs to execute.
    pub program_cids: Vec<String>,
    /// Who requests.
    pub requester: String,
    /// The programs' arguments.
    pub args: Json,
    /// The id of the request.
    pub request_id: String,
}

impl MultiAttestationRequest {
    /// The request to one of the programs.
    pub open spec fn is_individual(self, request: AttestationRequest, k: int) -> bool {
        &&& request.program_cid@ == self.program_cids@[k]@
        &&& request.requester@ == self.requester@
        &&& request.args@ == self.args@
        &&& request.request_id@ == self.request_id@
    }

    /// One request for each program, in order.
    pub fn to_individual_requests(&self) -> (r: Vec<AttestationRequest>)
        ensures
            r@.len() == self.program_cids@.len(),
            forall|k: int| 0 <= k < r@.len() ==> self.is_individual(#[trigger] r@[k], k),
    {
        let mut requests: Vec<AttestationRequest> = Vec::new();
        let mut k: usize = 0;
        while k < self.program_cids.len()
            invariant
                k <= self.program_cids@.len(),
                requests@.len() == k,
                forall|i: int| 0 <= i < k ==> self.is_individual(#[trigger] requests@[i], i),
            decreases self.program_cids@.len() - k,
        {
            requests.push(
                AttestationRequest {
                    program_cid: self.program_cids[k].clone(),
                    requester: self.requester.clone(),
                    args: self.args.clone(),
                    request_id: self.request_id.clone(),
                },
            );
            k = k + 1;
        }
        requests
    }
}

/// A transaction that the group attests with its signature.
#[derive(Debug)]
pub struct Transaction {
    /// The transaction's number.
    pub seq: u64,
    /// The hash of the previous transaction.
    pub prev_hash: String,
    /// Who pays.
    pub sender: String,
    /// Who is paid.
    pub recipient: String,
    /// How much is paid.
    pub amount: Float,
    /// What is paid.
    pub asset: String,
    /// When it is paid.
    pub timestamp: u64,
    /// The content id of the program that validated the transaction.
    pub program_cid: String,
    /// The user's Ed25519 signature, in hexadecimal.
    pub user_sig: String,
}

impl Clone for Transaction {
    fn clone(&self) -> (r: Transaction)
        ensures
            r == *self,
    {
        Transaction {
            seq: self.seq,
            prev_hash: self.prev_hash.clone(),
            sender: self.sender.clone(),
            recipient: self.recipient.clone(),
            amount: self.amount,
            asset: self.asset.clone(),
            timestamp: self.timestamp,
            program_cid: self.program_cid.clone(),
            user_sig: self.user_sig.clone(),
        }
    }
}

/// What a program says of a request.
#[derive(Debug)]
pub enum AttestationResult {
    /// The request is valid and makes this transaction.
    Valid(Transaction),
    /// The request is rejected for this reason.
    Invalid(String),
}

impl Transaction {
    /// The transaction as a JSON object.
    pub open spec fn json(self) -> Seq<char> {
        "{\"seq\":"@ + text::decimal(self.seq as nat) + ",\"prev_hash\":"@ + json::quoted(
            self.prev_hash@,
        ) + ",\"sender\":"@ + json::quoted(self.sender@) + ",\"recipient\":"@ + json::quoted(
            self.recipient@,
        ) + ",\"amount\":"@ + json::float_text(self.amount.bits()) + ",\"asset\":"@
            + json::quoted(self.asset@) + ",\"timestamp\":"@ + text::decimal(
            self.timestamp as nat,
        ) + ",\"program_cid\":"@ + json::quoted(self.program_cid@) + ",\"user_sig\":"@
            + json::quoted(self.user_sig@) + "}"@
    }

    /// The transaction as a JSON object, in text.
    pub fn to_json(&self) -> (r: String)
        ensures
            r@ == self.json(),
            json::has_numeral(self.amount.bits()),
    {
        let mut r = "{\"seq\":".to_owned();
        push_decimal(&mut r, self.seq);
        r.append(",\"prev_hash\":");
        push_quoted(&mut r, self.prev_hash.as_str());
        r.append(",\"sender\":");
        push_quoted(&mut r, self.sender.as_str());
        r.append(",\"recipient\":");
        push_quoted(&mut r, self.recipient.as_str());
        r.append(",\"amount\":");
        push_float(&mut r, &self.amount);
        r.append(",\"asset\":");
        push_quoted(&mut r, self.asset.as_str());
        r.append(",\"timestamp\":");
        push_decimal(&mut r, self.timestamp);
        r.append(",\"program_cid\":");
        push_quoted(&mut r, self.program_cid.as_str());
        r.append(",\"user_sig\":");
        push_quoted(&mut r, self.user_sig.as_str());
        r.append("}");
        r
    }

    /// The transactions agree in every field; in the amount, to its text.
    pub open spec fn agrees(self, other: Transaction) -> bool {
        &&& self.seq == other.seq
        &&& self.prev_hash@ == other.prev_hash@
        &&& self.sender@ == other.sender@
        &&& self.recipient@ == other.recipient@
        &&& json::float_text(self.amount.bits()) == json::float_text(other.amount.bits())
        &&& self.asset@ == other.asset@
        &&& self.timestamp == other.timestamp
        &&& self.program_cid@ == other.program_cid@
        &&& self.user_sig@ == other.user_sig@
    }

    /// The bytes that are signed: the JSON object with the fields in order. No other transaction
    /// has the same bytes.
    pub fn signing_bytes(&self) -> (r: Vec<u8>)
        ensures
            r@ == encode_utf8(self.json()),
            json::has_numeral(self.amount.bits()),
            forall|other: Transaction|
                encode_utf8(#[trigger] other.json()) == r@ && json::has_numeral(
                    other.amount.bits(),
                ) ==> self.agrees(other),
    {
        let json = self.to_json();
        let mut r: Vec<u8> = Vec::new();
        append_bytes(&mut r, json.as_str().as_bytes());
        assert(r@ =~= encode_utf8(self.json()));
        proof {
            assert forall|other: Transaction|
                encode_utf8(#[trigger] other.json()) == r@ && json::has_numeral(
                    other.amount.bits(),
                ) implies self.agrees(other) by {
                text::lemma_utf8_injective(self.json(), other.json());
                lemma_json_determines(*self, other);
            }
        }
        r
    }

    spec fn from_user_sig(self) -> Seq<char> {
        json::quoted(self.user_sig@) + "}"@
    }

    spec fn from_program_cid(self) -> Seq<char> {
        json::quoted(self.program_cid@) + (",\"user_sig\":"@ + self.from_user_sig())
    }

    spec fn from_timestamp(self) -> Seq<char> {
        text::decimal(self.timestamp as nat) + (",\"program_cid\":"@ + self.from_program_cid())
    }

    spec fn from_asset(self) -> Seq<char> {
        json::quoted(self.asset@) + (",\"timestamp\":"@ + self.from_timestamp())
    }

    spec fn from_amount(self) -> Seq<char> {
        json::float_text(self.amount.bits()) + (",\"asset\":"@ + self.from_asset())
    }

    spec fn from_recipient(self) -> Seq<char> {
        json::quoted(self.recipient@) + (",\"amount\":"@ + self.from_amount())
    }

    spec fn from_sender(self) -> Seq<char> {
        json::quoted(self.sender@) + (",\"recipient\":"@ + self.from_recipient())
    }

    spec fn from_prev_hash(self) -> Seq<char> {
        json::quoted(self.prev_hash@) + (",\"sender\":"@ + self.from_sender())
    }

    spec fn from_seq(self) -> Seq<char> {
        text::decimal(self.seq as nat) + (",\"prev_hash\":"@ + self.from_prev_hash())
    }
}

/// The JSON object in parts, each of which starts at a field's value.
proof fn lemma_json_parts(a: Transaction)
    ensures
        a.json() == "{\"seq\":"@ + a.from_seq(),
{
    let l_seq = "{\"seq\":"@;
    let v_seq = text::decimal(a.seq as nat);
    let k_prev_hash = ",\"prev_hash\":"@;
    let l_prev_hash = l_seq + v_seq + k_prev_hash;
    let v_prev_hash = json::quoted(a.prev_hash@);
    let k_sender = ",\"sender\":"@;
    let l_sender = l_prev_hash + v_prev_hash + k_sender;
    let v_sender = json::quoted(a.sender@);
    let k_recipient = ",\"recipient\":"@;
    let l_recipient = l_sender + v_sender + k_recipient;
    let v_recipient = json::quoted(a.recipient@);
    let k_amount = ",\"amount\":"@;
    let l_amount = l_recipient + v_recipient + k_amount;
    let v_amount = json::float_text(a.amount.bits());
    let k_asset = ",\"asset\":"@;
    let l_asset = l_amount + v_amount + k_asset;
    let v_asset = json::quoted(a.asset@);
    let k_timestamp = ",\"timestamp\":"@;
    let l_timestamp = l_asset + v_asset + k_timestamp;
    let v_timestamp = text::decimal(a.timestamp as nat);
    let k_program_cid = ",\"program_cid\":"@;
    let l_program_cid = l_timestamp + v_timestamp + k_program_cid;
    let v_program_cid = json::quoted(a.program_cid@);
    let k_user_sig = ",\"user_sig\":"@;
    let l_user_sig = l_program_cid + v_program_cid + k_user_sig;
    let v_user_sig = json::quoted(a.user_sig@);
    assert(a.json() == l_user_sig + v_user_sig + "}"@);
    text::lemma_joined(l_user_sig, v_user_sig, "}"@);
    text::lemma_joined(l_program_cid + v_program_cid, k_user_sig, a.from_user_sig());
    text::lemma_joined(l_program_cid, v_program_cid, k_user_sig + a.from_user_sig());
    text::lemma_joined(l_timestamp + v_timestamp, k_program_cid, a.from_program_cid());
    text::lemma_joined(l_timestamp, v_timestamp, k_program_cid + a.from_program_cid());
    text::lemma_joined(l_asset + v_asset, k_timestamp, a.from_timestamp());
    text::lemma_joined(l_asset, v_asset, k_timestamp + a.from_timestamp());
    text::lemma_joined(l_amount + v_amount, k_asset, a.from_asset());
    text::lemma_joined(l_amount, v_amount, k_asset + a.from_asset());
    text::lemma_joined(l_recipient + v_recipient, k_amount, a.from_amount());
    text::lemma_joined(l_recipient, v_recipient, k_amount + a.from_amount());
    text::lemma_joined(l_sender + v_sender, k_recipient, a.from_recipient());
    text::lemma_joined(l_sender, v_sender, k_recipient + a.from_recipient());
    text::lemma_joined(l_prev_hash + v_prev_hash, k_sender, a.from_sender());
    text::lemma_joined(l_prev_hash, v_prev_hash, k_sender + a.from_sender());
    text::lemma_joined(l_seq + v_seq, k_prev_hash, a.from_prev_hash());
    text::lemma_joined(l_seq, v_seq, k_prev_hash + a.from_prev_hash());
}

/// The JSON object determines the transaction.
proof fn lemma_json_determines(a: Transaction, b: Transaction)
    requires
        a.json() == b.json(),
        json::has_numeral(a.amount.bits()),
        json::has_numeral(b.amount.bits()),
    ensures
        a.agrees(b),
{
    lemma_json_parts(a);
    lemma_json_parts(b);
    reveal_strlit(",\"prev_hash\":");
    reveal_strlit(",\"asset\":");
    reveal_strlit(",\"program_cid\":");
    text::lemma_same_start("{\"seq\":"@, a.from_seq(), b.from_seq());
    text::lemma_decimal_prefix(
        a.seq as nat,
        ",\"prev_hash\":"@ + a.from_prev_hash(),
        b.seq as nat,
        ",\"prev_hash\":"@ + b.from_prev_hash(),
    );
    text::lemma_same_start(",\"prev_hash\":"@, a.from_prev_hash(), b.from_prev_hash());
    json::lemma_quoted_prefix(
        a.prev_hash@,
        ",\"sender\":"@ + a.from_sender(),
        b.prev_hash@,
        ",\"sender\":"@ + b.from_sender(),
    );
    text::lemma_same_start(",\"sender\":"@, a.from_sender(), b.from_sender());
    json::lemma_quoted_prefix(
        a.sender@,
        ",\"recipient\":"@ + a.from_recipient(),
        b.sender@,
        ",\"recipient\":"@ + b.from_recipient(),
    );
    text::lemma_same_start(",\"recipient\":"@, a.from_recipient(), b.from_recipient());
    json::lemma_quoted_prefix(
        a.recipient@,
        ",\"amount\":"@ + a.from_amount(),
        b.recipient@,
        ",\"amount\":"@ + b.from_amount(),
    );
    text::lemma_same_start(",\"amount\":"@, a.from_amount(), b.from_amount());
    text::lemma_same_split(
        json::float_text(a.amount.bits()),
        ",\"asset\":"@ + a.from_asset(),
        json::float_text(b.amount.bits()),
        ",\"asset\":"@ + b.from_asset(),
        |c: char| json::is_numeral(c),
    );
    text::lemma_same_start(",\"asset\":"@, a.from_asset(), b.from_asset());
    json::lemma_quoted_prefix(
        a.asset@,
        ",\"timestamp\":"@ + a.from_timestamp(),
        b.asset@,
        ",\"timestamp\":"@ + b.from_timestamp(),
    );
    text::lemma_same_start(",\"timestamp\":"@, a.from_timestamp(), b.from_timestamp());
    text::lemma_decimal_prefix(
        a.timestamp as nat,
        ",\"program_cid\":"@ + a.from_program_cid(),
        b.timestamp as nat,
        ",\"program_cid\":"@ + b.from_program_cid(),
    );
    text::lemma_same_start(",\"program_cid\":"@, a.from_program_cid(), b.from_program_cid());
    json::lemma_quoted_prefix(
        a.program_cid@,
        ",\"user_sig\":"@ + a.from_user_sig(),
        b.program_cid@,
        ",\"user_sig\":"@ + b.from_user_sig(),
    );
    text::lemma_same_start(",\"user_sig\":"@, a.from_user_sig(), b.from_user_sig());
    json::lemma_quoted_prefix(a.user_sig@, "}"@, b.user_sig@, "}"@);
}

/// A program in the registry.
#[derive(Clone, Debug)]
pub struct ProgramSpec {
    /// The content id of the program.
    pub cid: String,
    /// The name of the program.
    pub name: String,
    /// The version.
    pub version: String,
    /// The threshold configuration of the program's key.
    pub threshold: ThresholdConfig,
}

/// The fields of a transaction, in order, with their JSON values.
pub open spec fn transaction_fields(tx: Transaction) -> Seq<(Seq<char>, json::JsonModel)> {
    seq![
        ("seq"@, json::JsonModel::Number(JsonNumber::PosInt(tx.seq))),
        ("prev_hash"@, json::JsonModel::Text(tx.prev_hash@)),
        ("sender"@, json::JsonModel::Text(tx.sender@)),
        ("recipient"@, json::JsonModel::Text(tx.recipient@)),
        ("amount"@, json::JsonModel::Number(JsonNumber::Float(tx.amount))),
        ("asset"@, json::JsonModel::Text(tx.asset@)),
        ("timestamp"@, json::JsonModel::Number(JsonNumber::PosInt(tx.timestamp))),
        ("program_cid"@, json::JsonModel::Text(tx.program_cid@)),
        ("user_sig"@, json::JsonModel::Text(tx.user_sig@)),
    ]
}

/// What stands in front of a field's value in the text of an object.
proof fn lemma_field_labels()
    ensures
        "{\"seq\":"@ == "{"@ + json::quoted("seq"@) + ":"@,
        ",\"prev_hash\":"@ == ","@ + json::quoted("prev_hash"@) + ":"@,
        ",\"sender\":"@ == ","@ + json::quoted("sender"@) + ":"@,
        ",\"recipient\":"@ == ","@ + json::quoted("recipient"@) + ":"@,
        ",\"amount\":"@ == ","@ + json::quoted("amount"@) + ":"@,
        ",\"asset\":"@ == ","@ + json::quoted("asset"@) + ":"@,
        ",\"timestamp\":"@ == ","@ + json::quoted("timestamp"@) + ":"@,
        ",\"program_cid\":"@ == ","@ + json::quoted("program_cid"@) + ":"@,
        ",\"user_sig\":"@ == ","@ + json::quoted("user_sig"@) + ":"@,
{
    reveal_strlit("{");
    reveal_strlit(",");
    reveal_strlit(":");
    reveal_strlit("seq");
    reveal_strlit("{\"seq\":");
    json::lemma_plain_quoted("seq"@);
    assert("{\"seq\":"@ =~= "{"@ + json::quoted("seq"@) + ":"@);
    reveal_strlit("prev_hash");
    reveal_strlit(",\"prev_hash\":");
    json::lemma_plain_quoted("prev_hash"@);
    assert(",\"prev_hash\":"@ =~= ","@ + json::quoted("prev_hash"@) + ":"@);
    reveal_strlit("sender");
    reveal_strlit(",\"sender\":");
    json::lemma_plain_quoted("sender"@);
    assert(",\"sender\":"@ =~= ","@ + json::quoted("sender"@) + ":"@);
    reveal_strlit("recipient");
    reveal_strlit(",\"recipient\":");
    json::lemma_plain_quoted("recipient"@);
    assert(",\"recipient\":"@ =~= ","@ + json::quoted("recipient"@) + ":"@);
    reveal_strlit("amount");
    reveal_strlit(",\"amount\":");
    json::lemma_plain_quoted("amount"@);
    assert(",\"amount\":"@ =~= ","@ + json::quoted("amount"@) + ":"@);
    reveal_strlit("asset");
    reveal_strlit(",\"asset\":");
    json::lemma_plain_quoted("asset"@);
    assert(",\"asset\":"@ =~= ","@ + json::quoted("asset"@) + ":"@);
    reveal_strlit("timestamp");
    reveal_strlit(",\"timestamp\":");
    json::lemma_plain_quoted("timestamp"@);
    assert(",\"timestamp\":"@ =~= ","@ + json::quoted("timestamp"@) + ":"@);
    reveal_strlit("program_cid");
    reveal_strlit(",\"program_cid\":");
    json::lemma_plain_quoted("program_cid"@);
    assert(",\"program_cid\":"@ =~= ","@ + json::quoted("program_cid"@) + ":"@);
    reveal_strlit("user_sig");
    reveal_strlit(",\"user_sig\":");
    json::lemma_plain_quoted("user_sig"@);
    assert(",\"user_sig\":"@ =~= ","@ + json::quoted("user_sig"@) + ":"@);
}

/// The text of a transaction is the JSON object of its fields.
pub proof fn law_transaction_is_json_object(tx: Transaction)
    ensures
        tx.json() == json::json_text(json::JsonModel::Object(transaction_fields(tx))),
{
    lemma_field_labels();
    let fields = transaction_fields(tx);
    json::lemma_opened_first(fields, "{\"seq\":"@);
    json::lemma_opened_next(fields, 1, ",\"prev_hash\":"@);
    json::lemma_opened_next(fields, 2, ",\"sender\":"@);
    json::lemma_opened_next(fields, 3, ",\"recipient\":"@);
    json::lemma_opened_next(fields, 4, ",\"amount\":"@);
    json::lemma_opened_next(fields, 5, ",\"asset\":"@);
    json::lemma_opened_next(fields, 6, ",\"timestamp\":"@);
    json::lemma_opened_next(fields, 7, ",\"program_cid\":"@);
    json::lemma_opened_next(fields, 8, ",\"user_sig\":"@);
    json::lemma_object_closed(fields);
}

/// What is signed determines the transaction, field by field; the amount by its text.
pub proof fn law_signed_bytes_determine_fields(a: Transaction, b: Transaction)
    requires
        encode_utf8(a.json()) == encode_utf8(b.json()),
        json::has_numeral(a.amount.bits()),
        json::has_numeral(b.amount.bits()),
    ensures
        a.seq == b.seq,
        a.prev_hash@ == b.prev_hash@,
        a.sender@ == b.sender@,
        a.recipient@ == b.recipient@,
        json::float_text(a.amount.bits()) == json::float_text(b.amount.bits()),
        a.asset@ == b.asset@,
        a.timestamp == b.timestamp,
        a.program_cid@ == b.program_cid@,
        a.user_sig@ == b.user_sig@,
{
    text::lemma_utf8_injective(a.json(), b.json());
    lemma_json_determines(a, b);
}

/// A request to several programs asks each of them the same: for every program there is a request
/// that differs in the program alone.
pub proof fn law_same_request_for_every_program(
    multi: MultiAttestationRequest,
    request: AttestationRequest,
    k: int,
)
    ensures
        multi.is_individual(request, k) <==> request.program_cid@ == multi.program_cids@[k]@
            && request.requester@ == multi.requester@ && request.args@ == multi.args@
            && request.request_id@ == multi.request_id@,
{
}

/// A copy of a key share holds all that the key share holds.
pub proof fn law_copied_share(a: KeyShare, b: KeyShare)
    requires
        same_share(a, b),
    ensures
        a.index == b.index,
        a.secret.value() == b.secret.value(),
        a.group_public_key@ == b.group_public_key@,
        a.verification_shares@ == b.verification_shares@,
{
}

} // verus!
