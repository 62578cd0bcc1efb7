//! Attestation receipts: signed proof that an attestation took place.

use crate::frost;
use crate::frost::{verify_bytes, ThresholdSignature};
use crate::hashing;
use crate::hashing::{hex_decode, hex_encode, sha256_digest};
use crate::json;
use crate::json::{push_quoted, JsonNumber};
use crate::order;
use crate::point;
use crate::point::EdwardsPoint;
use crate::scalar;
use crate::text;
use crate::text::{append_bytes, push_decimal};
use vstd::bytes::*;
use vstd::prelude::*;
use vstd::string::*;
use vstd::utf8::*;

verus! {

/// An attestation receipt with the signatures collected so far.
#[derive(Clone, Debug)]
pub struct AttestationReceipt {
    /// The content id of the program that was executed.
    pub program_cid: String,
    /// The SHA-256 digest of the arguments, in hexadecimal.
    pub args_hash: String,
    /// The SHA-256 digest of the result, in hexadecimal.
    pub result_hash: String,
    /// The Unix time of the attestation.
    pub timestamp: u64,
    /// The nodes' signatures: the node's index and the signature in hexadecimal.
    pub node_signatures: Vec<(u32, String)>,
}

/// The text of one node's signature: an array of the index and the signature.
pub open spec fn signature_text(signature: (u32, String)) -> Seq<char> {
    "["@ + text::decimal(signature.0 as nat) + ","@ + json::quoted(signature.1@) + "]"@
}

/// The texts of signatures with commas between them.
pub open spec fn signatures_text(signatures: Seq<(u32, String)>) -> Seq<char>
    decreases signatures.len(),
{
    if signatures.len() == 0 {
        Seq::empty()
    } else if signatures.len() == 1 {
        signature_text(signatures[0])
    } else {
        signatures_text(signatures.drop_last()) + ","@ + signature_text(signatures.last())
    }
}

/// A node's signature is the hexadecimal text of a signature.
pub open spec fn holds_signature(signature: (u32, String)) -> bool {
    hashing::is_hex_text(signature.1@) && frost::encodes_signature(
        hashing::hex_bytes(signature.1@),
    )
}

/// A node's signature is the hexadecimal text of one that is valid for the message under the key.
pub open spec fn signs(signature: (u32, String), key: point::Element, message: Seq<u8>) -> bool {
    hashing::is_hex_text(signature.1@) && frost::accepts_bytes(
        hashing::hex_bytes(signature.1@),
        key,
        message,
    )
}

/// Signatures that are valid under some key can be: what one check refuses, the other does.
pub proof fn law_valid_signatures_are_signatures(
    signature: (u32, String),
    key: point::Element,
    message: Seq<u8>,
)
    requires
        signs(signature, key, message),
    ensures
        holds_signature(signature),
{
}

impl AttestationReceipt {
    /// The bytes that are signed.
    pub open spec fn signed(self) -> Seq<u8> {
        encode_utf8("CraftSEC-Receipt-v1"@) + encode_utf8(self.program_cid@) + encode_utf8(
            self.args_hash@,
        ) + encode_utf8(self.result_hash@) + spec_u64_to_le_bytes(self.timestamp)
    }

    /// The hashes are as long as hexadecimal SHA-256 digests are.
    pub open spec fn has_digests(self) -> bool {
        &&& encode_utf8(self.args_hash@).len() == 64
        &&& encode_utf8(self.result_hash@).len() == 64
    }

    /// The receipt as a JSON object.
    pub open spec fn json(self) -> Seq<char> {
        "{\"program_cid\":"@ + json::quoted(self.program_cid@) + ",\"args_hash\":"@ + json::quoted(
            self.args_hash@,
        ) + ",\"result_hash\":"@ + json::quoted(self.result_hash@) + ",\"timestamp\":"@
            + text::decimal(self.timestamp as nat) + ",\"node_signatures\":["@ + signatures_text(
            self.node_signatures@,
        ) + "]}"@
    }

    /// A receipt without signatures.
    pub fn new(program_cid: String, args: &[u8], result: &[u8], timestamp: u64) -> (r:
        AttestationReceipt)
        ensures
            r.program_cid@ == program_cid@,
            r.args_hash@ == hashing::hex_text(hashing::sha256(args@)),
            r.result_hash@ == hashing::hex_text(hashing::sha256(result@)),
            r.timestamp == timestamp,
            r.node_signatures@.len() == 0,
            r.has_digests(),
    {
        let args_digest = sha256_digest(args);
        let result_digest = sha256_digest(result);
        let args_hash = hex_encode(&args_digest);
        let result_hash = hex_encode(&result_digest);
        proof {
            hashing::lemma_hex_encoding(args_digest@);
            hashing::lemma_hex_encoding(result_digest@);
        }
        AttestationReceipt {
            program_cid,
            args_hash,
            result_hash,
            timestamp,
            node_signatures: Vec::new(),
        }
    }

    /// The bytes that are signed.
    pub fn signing_bytes(&self) -> (r: Vec<u8>)
        ensures
            r@ == self.signed(),
            r@ == encode_utf8("CraftSEC-Receipt-v1"@) + encode_utf8(self.program_cid@)
                + encode_utf8(self.args_hash@) + encode_utf8(self.result_hash@)
                + spec_u64_to_le_bytes(self.timestamp),
    {
        let mut data: Vec<u8> = Vec::new();
        append_bytes(&mut data, "CraftSEC-Receipt-v1".as_bytes());
        append_bytes(&mut data, self.program_cid.as_str().as_bytes());
        append_bytes(&mut data, self.args_hash.as_str().as_bytes());
        append_bytes(&mut data, self.result_hash.as_str().as_bytes());
        let timestamp_bytes = u64_to_le_bytes(self.timestamp);
        append_bytes(&mut data, timestamp_bytes.as_slice());
        assert(data@ =~= self.signed());
        data
    }

    /// Adds a node's signature.
    pub fn add_signature(&mut self, node_index: u32, signature_hex: String)
        ensures
            final(self).node_signatures@ == old(self).node_signatures@.push(
                (node_index, signature_hex),
            ),
            final(self).program_cid == old(self).program_cid,
            final(self).args_hash == old(self).args_hash,
            final(self).result_hash == old(self).result_hash,
            final(self).timestamp == old(self).timestamp,
            final(self).signed() == old(self).signed(),
    {
        self.node_signatures.push((node_index, signature_hex));
    }

    /// Whether the signatures can be valid under some group's public key: there is at least one, and
    /// each is the hexadecimal text of a signature.
    pub fn verify_signatures(&self) -> (r: bool)
        ensures
            r == (self.node_signatures@.len() > 0 && forall|k: int|
                0 <= k < self.node_signatures@.len() ==> holds_signature(
                    #[trigger] self.node_signatures@[k],
                )),
    {
        let mut k: usize = 0;
        while k < self.node_signatures.len()
            invariant
                k <= self.node_signatures@.len(),
                forall|i: int|
                    0 <= i < k ==> holds_signature(#[trigger] self.node_signatures@[i]),
            decreases self.node_signatures@.len() - k,
        {
            let readable = match hex_decode(self.node_signatures[k].1.as_str()) {
                Some(bytes) => ThresholdSignature::from_slice(bytes.as_slice()).is_some(),
                None => false,
            };
            if !readable {
                assert(!holds_signature(self.node_signatures@[k as int]));
                return false;
            }
            k = k + 1;
        }
        self.node_signatures.len() > 0
    }

    /// Verifies the signatures under a group's public key: there is at least one, and each is valid
    /// for the receipt's signed bytes.
    pub fn verify_signatures_under(&self, group_public_key: &EdwardsPoint) -> (r: bool)
        ensures
            r == (self.node_signatures@.len() > 0 && forall|k: int|
                0 <= k < self.node_signatures@.len() ==> signs(
                    #[trigger] self.node_signatures@[k],
                    group_public_key@,
                    self.signed(),
                )),
    {
        let message = self.signing_bytes();
        let mut k: usize = 0;
        while k < self.node_signatures.len()
            invariant
                k <= self.node_signatures@.len(),
                message@ == self.signed(),
                forall|i: int|
                    0 <= i < k ==> signs(
                        #[trigger] self.node_signatures@[i],
                        group_public_key@,
                        self.signed(),
                    ),
            decreases self.node_signatures@.len() - k,
        {
            let valid = match hex_decode(self.node_signatures[k].1.as_str()) {
                Some(bytes) => verify_bytes(
                    bytes.as_slice(),
                    group_public_key,
                    message.as_slice(),
                ),
                None => false,
            };
            if !valid {
                assert(!signs(
                    self.node_signatures@[k as int],
                    group_public_key@,
                    self.signed(),
                ));
                return false;
            }
            k = k + 1;
        }
        self.node_signatures.len() > 0
    }

    /// The receipt as a JSON object, in text.
    pub fn to_json(&self) -> (r: String)
        ensures
            r@ == self.json(),
    {
        let mut r = "{\"program_cid\":".to_owned();
        push_quoted(&mut r, self.program_cid.as_str());
        r.append(",\"args_hash\":");
        push_quoted(&mut r, self.args_hash.as_str());
        r.append(",\"result_hash\":");
        push_quoted(&mut r, self.result_hash.as_str());
        r.append(",\"timestamp\":");
        push_decimal(&mut r, self.timestamp);
        r.append(",\"node_signatures\":[");
        let ghost head = r@;
        let mut k: usize = 0;
        let ghost all = self.node_signatures@;
        assert(r@ =~= head + signatures_text(all.take(0)));
        while k < self.node_signatures.len()
            invariant
                k <= self.node_signatures@.len(),
                all == self.node_signatures@,
                r@ == head + signatures_text(all.take(k as int)),
            decreases self.node_signatures@.len() - k,
        {
            if k > 0 {
                r.append(",");
            }
            r.append("[");
            push_decimal(&mut r, self.node_signatures[k].0 as u64);
            r.append(",");
            push_quoted(&mut r, self.node_signatures[k].1.as_str());
            r.append("]");
            proof {
                let t = all.take(k + 1);
                assert(t.drop_last() =~= all.take(k as int));
                assert(t.last() == all[k as int]);
                assert(r@ =~= head + signatures_text(t));
            }
            k = k + 1;
        }
        assert(all.take(k as int) =~= all);
        r.append("]}");
        r
    }
}

/// Tampering is detected: receipts with hashes of the length of digests that have the same
/// signed bytes agree in the program, in both hashes and in the time.
pub proof fn law_receipt_tamper_evident(a: AttestationReceipt, b: AttestationReceipt)
    requires
        a.has_digests(),
        b.has_digests(),
        a.signed() == b.signed(),
    ensures
        a.program_cid@ == b.program_cid@,
        a.args_hash@ == b.args_hash@,
        a.result_hash@ == b.result_hash@,
        a.timestamp == b.timestamp,
{
    lemma_auto_spec_u64_to_from_le_bytes();
    let p = encode_utf8("CraftSEC-Receipt-v1"@);
    let w = a.signed();
    let v = b.signed();
    let x = encode_utf8(a.program_cid@);
    let y = encode_utf8(b.program_cid@);
    assert(spec_u64_to_le_bytes(a.timestamp).len() == 8);
    assert(spec_u64_to_le_bytes(b.timestamp).len() == 8);
    assert(w.len() == p.len() + x.len() + 128 + 8);
    assert(v.len() == p.len() + y.len() + 128 + 8);
    let s = (p.len() + x.len()) as int;
    assert(x =~= w.subrange(p.len() as int, s));
    assert(y =~= v.subrange(p.len() as int, s));
    assert(encode_utf8(a.args_hash@) =~= w.subrange(s, s + 64));
    assert(encode_utf8(b.args_hash@) =~= v.subrange(s, s + 64));
    assert(encode_utf8(a.result_hash@) =~= w.subrange(s + 64, s + 128));
    assert(encode_utf8(b.result_hash@) =~= v.subrange(s + 64, s + 128));
    assert(spec_u64_to_le_bytes(a.timestamp) =~= w.skip(s + 128));
    assert(spec_u64_to_le_bytes(b.timestamp) =~= v.skip(s + 128));
    text::lemma_utf8_injective(a.program_cid@, b.program_cid@);
    text::lemma_utf8_injective(a.args_hash@, b.args_hash@);
    text::lemma_utf8_injective(a.result_hash@, b.result_hash@);
}

/// One node's signature as a JSON value: an array of the index and the signature.
pub open spec fn signature_model(signature: (u32, String)) -> json::JsonModel {
    json::JsonModel::List(
        seq![
            json::JsonModel::Number(JsonNumber::PosInt(signature.0 as u64)),
            json::JsonModel::Text(signature.1@),
        ],
    )
}

/// Signatures as JSON values.
pub open spec fn signatures_model(signatures: Seq<(u32, String)>) -> Seq<json::JsonModel> {
    Seq::new(signatures.len(), |k: int| signature_model(signatures[k]))
}

proof fn lemma_signature_text(signature: (u32, String))
    ensures
        json::json_text(signature_model(signature)) == signature_text(signature),
{
    let index = json::JsonModel::Number(JsonNumber::PosInt(signature.0 as u64));
    let hex = json::JsonModel::Text(signature.1@);
    let items = seq![index, hex];
    assert(items.subrange(0, 1) =~= seq![index]);
    assert(json::list_text(seq![index]) == json::json_text(index));
    assert(json::list_text(items) == json::list_text(seq![index]) + ","@ + json::json_text(hex));
    assert(json::json_text(index) == text::decimal(signature.0 as nat));
    assert(json::json_text(signature_model(signature)) =~= signature_text(signature));
}

proof fn lemma_signatures_text(signatures: Seq<(u32, String)>)
    ensures
        json::list_text(signatures_model(signatures)) == signatures_text(signatures),
    decreases signatures.len(),
{
    let items = signatures_model(signatures);
    if signatures.len() > 0 {
        lemma_signature_text(signatures.last());
        if signatures.len() > 1 {
            lemma_signatures_text(signatures.drop_last());
            assert(items.subrange(0, items.len() - 1) =~= signatures_model(
                signatures.drop_last(),
            ));
        }
    }
}

/// The fields of a receipt, in order, with their JSON values.
pub open spec fn receipt_fields(receipt: AttestationReceipt) -> Seq<(Seq<char>, json::JsonModel)> {
    seq![
        ("program_cid"@, json::JsonModel::Text(receipt.program_cid@)),
        ("args_hash"@, json::JsonModel::Text(receipt.args_hash@)),
        ("result_hash"@, json::JsonModel::Text(receipt.result_hash@)),
        ("timestamp"@, json::JsonModel::Number(JsonNumber::PosInt(receipt.timestamp))),
        ("node_signatures"@, json::JsonModel::List(signatures_model(receipt.node_signatures@))),
    ]
}

/// What stands in front of a field's value in the text of an object.
proof fn lemma_field_labels()
    ensures
        "{\"program_cid\":"@ == "{"@ + json::quoted("program_cid"@) + ":"@,
        ",\"args_hash\":"@ == ","@ + json::quoted("args_hash"@) + ":"@,
        ",\"result_hash\":"@ == ","@ + json::quoted("result_hash"@) + ":"@,
        ",\"timestamp\":"@ == ","@ + json::quoted("timestamp"@) + ":"@,
        ",\"node_signatures\":"@ == ","@ + json::quoted("node_signatures"@) + ":"@,
        ",\"node_signatures\":["@ == ",\"node_signatures\":"@ + "["@,
        "]}"@ == "]"@ + "}"@,
{
    reveal_strlit("{");
    reveal_strlit(",");
    reveal_strlit(":");
    reveal_strlit("[");
    reveal_strlit("]");
    reveal_strlit("}");
    reveal_strlit("]}");
    reveal_strlit(",\"node_signatures\":[");
    reveal_strlit("program_cid");
    reveal_strlit("{\"program_cid\":");
    json::lemma_plain_quoted("program_cid"@);
    assert("{\"program_cid\":"@ =~= "{"@ + json::quoted("program_cid"@) + ":"@);
    reveal_strlit("args_hash");
    reveal_strlit(",\"args_hash\":");
    json::lemma_plain_quoted("args_hash"@);
    assert(",\"args_hash\":"@ =~= ","@ + json::quoted("args_hash"@) + ":"@);
    reveal_strlit("result_hash");
    reveal_strlit(",\"result_hash\":");
    json::lemma_plain_quoted("result_hash"@);
    assert(",\"result_hash\":"@ =~= ","@ + json::quoted("result_hash"@) + ":"@);
    reveal_strlit("timestamp");
    reveal_strlit(",\"timestamp\":");
    json::lemma_plain_quoted("timestamp"@);
    assert(",\"timestamp\":"@ =~= ","@ + json::quoted("timestamp"@) + ":"@);
    reveal_strlit("node_signatures");
    reveal_strlit(",\"node_signatures\":");
    json::lemma_plain_quoted("node_signatures"@);
    assert(",\"node_signatures\":"@ =~= ","@ + json::quoted("node_signatures"@) + ":"@);
    assert(",\"node_signatures\":["@ =~= ",\"node_signatures\":"@ + "["@);
    assert("]}"@ =~= "]"@ + "}"@);
}

/// The text of a receipt is the JSON object of its fields.
pub proof fn law_receipt_is_json_object(receipt: AttestationReceipt)
    ensures
        receipt.json() == json::json_text(json::JsonModel::Object(receipt_fields(receipt))),
{
    lemma_field_labels();
    lemma_signatures_text(receipt.node_signatures@);
    let fields = receipt_fields(receipt);
    json::lemma_opened_first(fields, "{\"program_cid\":"@);
    json::lemma_opened_next(fields, 1, ",\"args_hash\":"@);
    json::lemma_opened_next(fields, 2, ",\"result_hash\":"@);
    json::lemma_opened_next(fields, 3, ",\"timestamp\":"@);
    json::lemma_opened_next(fields, 4, ",\"node_signatures\":"@);
    json::lemma_object_closed(fields);
    let start = json::opened(fields, 4);
    let signatures = signatures_text(receipt.node_signatures@);
    let labelled = start + ",\"node_signatures\":"@;
    text::lemma_joined(start, ",\"node_signatures\":"@, "["@);
    text::lemma_joined(labelled, "["@, signatures);
    text::lemma_joined(labelled, "["@ + signatures, "]"@);
    text::lemma_joined(labelled + ("["@ + signatures), "]"@, "}"@);
}

/// Which texts are signatures: the hexadecimal text of bytes is one just if the bytes encode a
/// signature, and it is valid just if they are.
pub proof fn law_signature_texts(
    signature: (u32, String),
    bytes: Seq<u8>,
    key: point::Element,
    message: Seq<u8>,
)
    requires
        signature.1@ == hashing::hex_text(bytes),
    ensures
        holds_signature(signature) <==> bytes.len() == 64 && point::decoded(bytes.take(32)) is Some
            && scalar::little_endian(bytes.skip(32)) < order::group_order(),
        signs(signature, key, message) <==> frost::accepts_bytes(bytes, key, message),
{
    hashing::law_hex_round_trip(bytes);
}

proof fn lemma_signatures_from_first(signatures: Seq<(u32, String)>)
    requires
        signatures.len() > 0,
    ensures
        signatures_text(signatures) == (if signatures.len() == 1 {
            signature_text(signatures[0])
        } else {
            signature_text(signatures[0]) + (","@ + signatures_text(signatures.drop_first()))
        }),
    decreases signatures.len(),
{
    if signatures.len() == 2 {
        let t = signatures.drop_first();
        assert(signatures.drop_last() =~= seq![signatures[0]]);
        assert(signatures_text(seq![signatures[0]]) == signature_text(signatures[0]));
        assert(signatures_text(t) == signature_text(signatures[1]));
        text::lemma_joined(signature_text(signatures[0]), ","@, signature_text(signatures[1]));
    } else if signatures.len() > 2 {
        let r = signatures.drop_last();
        let t = signatures.drop_first();
        lemma_signatures_from_first(r);
        assert(r.drop_first() =~= t.drop_last());
        let head = signature_text(signatures[0]);
        let middle = signatures_text(t.drop_last());
        let last = signature_text(signatures.last());
        assert(signatures_text(t) == middle + ","@ + last);
        assert(head + (","@ + middle) + ","@ + last =~= head + (","@ + (middle + ","@ + last)));
    }
}

proof fn lemma_signature_parts(x: (u32, String), rest: Seq<char>)
    ensures
        signature_text(x) + rest == "["@ + (text::decimal(x.0 as nat) + (","@ + (json::quoted(x.1@)
            + ("]"@ + rest)))),
{
    let d = text::decimal(x.0 as nat);
    let q = json::quoted(x.1@);
    text::lemma_joined("["@ + d + ","@ + q, "]"@, rest);
    text::lemma_joined("["@ + d + ","@, q, "]"@ + rest);
    text::lemma_joined("["@ + d, ","@, q + ("]"@ + rest));
    text::lemma_joined("["@, d, ","@ + (q + ("]"@ + rest)));
}

/// A signature is determined by a text that it starts.
proof fn lemma_signature_prefix(x: (u32, String), s: Seq<char>, y: (u32, String), t: Seq<char>)
    requires
        signature_text(x) + s == signature_text(y) + t,
    ensures
        x.0 == y.0,
        x.1@ == y.1@,
        s == t,
{
    reveal_strlit(",");
    lemma_signature_parts(x, s);
    lemma_signature_parts(y, t);
    let p = json::quoted(x.1@) + ("]"@ + s);
    let q = json::quoted(y.1@) + ("]"@ + t);
    text::lemma_same_start(
        "["@,
        text::decimal(x.0 as nat) + (","@ + p),
        text::decimal(y.0 as nat) + (","@ + q),
    );
    text::lemma_decimal_prefix(x.0 as nat, ","@ + p, y.0 as nat, ","@ + q);
    text::lemma_same_start(","@, p, q);
    json::lemma_quoted_prefix(x.1@, "]"@ + s, y.1@, "]"@ + t);
    text::lemma_same_start("]"@, s, t);
}

/// What follows the first of some signatures in the text that ends with the list's end.
spec fn after_first(signatures: Seq<(u32, String)>) -> Seq<char> {
    if signatures.len() == 1 {
        "]}"@
    } else {
        ","@ + (signatures_text(signatures.drop_first()) + "]}"@)
    }
}

proof fn lemma_after_first(signatures: Seq<(u32, String)>)
    requires
        signatures.len() > 0,
    ensures
        signatures_text(signatures) + "]}"@ == signature_text(signatures[0]) + after_first(
            signatures,
        ),
        (signatures_text(signatures) + "]}"@)[0] == '[',
        after_first(signatures)[0] == (if signatures.len() == 1 {
            ']'
        } else {
            ','
        }),
{
    reveal_strlit("]}");
    reveal_strlit("[");
    reveal_strlit(",");
    lemma_signatures_from_first(signatures);
    let head = signature_text(signatures[0]);
    if signatures.len() > 1 {
        let rest = signatures_text(signatures.drop_first());
        text::lemma_joined(head, ","@ + rest, "]}"@);
        text::lemma_joined(","@, rest, "]}"@);
    }
    lemma_signature_parts(signatures[0], after_first(signatures));
}

/// The texts of signatures, followed by the end of the list, determine them.
proof fn lemma_signatures_determined(a: Seq<(u32, String)>, b: Seq<(u32, String)>)
    requires
        signatures_text(a) + "]}"@ == signatures_text(b) + "]}"@,
    ensures
        a.len() == b.len(),
        forall|k: int|
            0 <= k < a.len() ==> (#[trigger] a[k]).0 == b[k].0 && a[k].1@ == b[k].1@,
    decreases a.len(),
{
    reveal_strlit("]}");
    if a.len() > 0 {
        lemma_after_first(a);
    } else {
        assert((signatures_text(a) + "]}"@)[0] == ']');
    }
    if b.len() > 0 {
        lemma_after_first(b);
    } else {
        assert((signatures_text(b) + "]}"@)[0] == ']');
    }
    if a.len() > 0 {
        lemma_signature_prefix(a[0], after_first(a), b[0], after_first(b));
        if a.len() > 1 {
            let c = a.drop_first();
            let d = b.drop_first();
            text::lemma_same_start(
                ","@,
                signatures_text(c) + "]}"@,
                signatures_text(d) + "]}"@,
            );
            lemma_signatures_determined(c, d);
            assert forall|k: int| 0 <= k < a.len() implies (#[trigger] a[k]).0 == b[k].0
                && a[k].1@ == b[k].1@ by {
                if k > 0 {
                    assert(c[k - 1].0 == d[k - 1].0);
                }
            }
        }
    }
}

spec fn from_signatures(r: AttestationReceipt) -> Seq<char> {
    signatures_text(r.node_signatures@) + "]}"@
}

spec fn from_timestamp(r: AttestationReceipt) -> Seq<char> {
    text::decimal(r.timestamp as nat) + (",\"node_signatures\":["@ + from_signatures(r))
}

spec fn from_result_hash(r: AttestationReceipt) -> Seq<char> {
    json::quoted(r.result_hash@) + (",\"timestamp\":"@ + from_timestamp(r))
}

spec fn from_args_hash(r: AttestationReceipt) -> Seq<char> {
    json::quoted(r.args_hash@) + (",\"result_hash\":"@ + from_result_hash(r))
}

spec fn from_program_cid(r: AttestationReceipt) -> Seq<char> {
    json::quoted(r.program_cid@) + (",\"args_hash\":"@ + from_args_hash(r))
}

/// The JSON object in parts, each of which starts at a field's value.
proof fn lemma_receipt_parts(r: AttestationReceipt)
    ensures
        r.json() == "{\"program_cid\":"@ + from_program_cid(r),
{
    let l0 = "{\"program_cid\":"@;
    let v0 = json::quoted(r.program_cid@);
    let k1 = ",\"args_hash\":"@;
    let v1 = json::quoted(r.args_hash@);
    let k2 = ",\"result_hash\":"@;
    let v2 = json::quoted(r.result_hash@);
    let k3 = ",\"timestamp\":"@;
    let v3 = text::decimal(r.timestamp as nat);
    let k4 = ",\"node_signatures\":["@;
    let v4 = signatures_text(r.node_signatures@);
    let l1 = l0 + v0 + k1;
    let l2 = l1 + v1 + k2;
    let l3 = l2 + v2 + k3;
    let l4 = l3 + v3 + k4;
    text::lemma_joined(l4, v4, "]}"@);
    text::lemma_joined(l3 + v3, k4, from_signatures(r));
    text::lemma_joined(l3, v3, k4 + from_signatures(r));
    text::lemma_joined(l2 + v2, k3, from_timestamp(r));
    text::lemma_joined(l2, v2, k3 + from_timestamp(r));
    text::lemma_joined(l1 + v1, k2, from_result_hash(r));
    text::lemma_joined(l1, v1, k2 + from_result_hash(r));
    text::lemma_joined(l0 + v0, k1, from_args_hash(r));
    text::lemma_joined(l0, v0, k1 + from_args_hash(r));
}

/// The JSON text of a receipt determines it, with all its signatures in order.
pub proof fn law_receipt_json_determines(a: AttestationReceipt, b: AttestationReceipt)
    requires
        a.json() == b.json(),
    ensures
        a.program_cid@ == b.program_cid@,
        a.args_hash@ == b.args_hash@,
        a.result_hash@ == b.result_hash@,
        a.timestamp == b.timestamp,
        a.node_signatures@.len() == b.node_signatures@.len(),
        forall|k: int|
            0 <= k < a.node_signatures@.len() ==> (#[trigger] a.node_signatures@[k]).0
                == b.node_signatures@[k].0 && a.node_signatures@[k].1@ == b.node_signatures@[k].1@,
{
    lemma_receipt_parts(a);
    lemma_receipt_parts(b);
    reveal_strlit(",\"node_signatures\":[");
    text::lemma_same_start("{\"program_cid\":"@, from_program_cid(a), from_program_cid(b));
    json::lemma_quoted_prefix(
        a.program_cid@,
        ",\"args_hash\":"@ + from_args_hash(a),
        b.program_cid@,
        ",\"args_hash\":"@ + from_args_hash(b),
    );
    text::lemma_same_start(",\"args_hash\":"@, from_args_hash(a), from_args_hash(b));
    json::lemma_quoted_prefix(
        a.args_hash@,
        ",\"result_hash\":"@ + from_result_hash(a),
        b.args_hash@,
        ",\"result_hash\":"@ + from_result_hash(b),
    );
    text::lemma_same_start(",\"result_hash\":"@, from_result_hash(a), from_result_hash(b));
    json::lemma_quoted_prefix(
        a.result_hash@,
        ",\"timestamp\":"@ + from_timestamp(a),
        b.result_hash@,
        ",\"timestamp\":"@ + from_timestamp(b),
    );
    text::lemma_same_start(",\"timestamp\":"@, from_timestamp(a), from_timestamp(b));
    text::lemma_decimal_prefix(
        a.timestamp as nat,
        ",\"node_signatures\":["@ + from_signatures(a),
        b.timestamp as nat,
        ",\"node_signatures\":["@ + from_signatures(b),
    );
    text::lemma_same_start(
        ",\"node_signatures\":["@,
        from_signatures(a),
        from_signatures(b),
    );
    lemma_signatures_determined(a.node_signatures@, b.node_signatures@);
}

} // verus!
