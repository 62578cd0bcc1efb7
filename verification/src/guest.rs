//! The transfer validator as a guest program: what it asks the host's database and what it
//! answers.

use crate::float;
use crate::float::Float;
use crate::json;
use crate::json::{push_quoted, Json, JsonNumber};
use crate::model;
use crate::model::{AttestationResult, Transaction};
use crate::text::joined;
use crate::wasm_executor;
use crate::wasm_executor::Verdict;
use vstd::prelude::*;
use vstd::string::*;

verus! {

/// The arguments of a transfer.
#[derive(Clone, Debug)]
pub struct TransferArgs {
    /// Who is paid.
    pub recipient: String,
    /// How much is paid.
    pub amount: Float,
    /// The transaction's number.
    pub seq: u64,
    /// The hash of the previous transaction.
    pub prev_hash: String,
    /// When it is paid.
    pub timestamp: u64,
    /// What is paid.
    pub asset: String,
    /// The user's signature.
    pub user_sig: String,
}

/// The transaction's number where a request tells none.
pub fn default_seq() -> (r: u64)
    ensures
        r == 1,
{
    1
}

/// The hash of the previous transaction where a request tells none.
pub fn default_prev_hash() -> (r: String)
    ensures
        r@ == "0000"@,
{
    "0000".to_owned()
}

/// What is paid where a request does not tell.
pub fn default_asset() -> (r: String)
    ensures
        r@ == "USDC"@,
{
    "USDC".to_owned()
}

/// The user's signature where a request tells none.
pub fn default_user_sig() -> (r: String)
    ensures
        r@ == "placeholder"@,
{
    "placeholder".to_owned()
}

/// A transfer request as the program is handed it.
#[derive(Clone, Debug)]
pub struct TransferRequest {
    /// Who pays.
    pub requester: String,
    /// The content id of the program.
    pub program_cid: String,
    /// The arguments.
    pub args: TransferArgs,
}

/// The answer that rejects a request.
pub open spec fn invalid_text(reason: Seq<char>) -> Seq<char> {
    "{\"status\":\"invalid\",\"reason\":"@ + json::quoted(reason) + "}"@
}

/// The answer that accepts a request and makes a transaction of it.
pub open spec fn valid_text(tx: Transaction) -> Seq<char> {
    "{\"status\":\"valid\",\"transaction\":"@ + tx.json() + "}"@
}

/// The parameters of a query for one account.
pub open spec fn account_params(did: Seq<char>) -> Seq<char> {
    "["@ + json::quoted(did) + "]"@
}

/// The answer that rejects a request.
pub fn invalid(reason: &str) -> (r: String)
    ensures
        r@ == invalid_text(reason@),
{
    let mut r = "{\"status\":\"invalid\",\"reason\":".to_owned();
    push_quoted(&mut r, reason);
    r.append("}");
    r
}

/// The answer to a request that cannot be read, and why.
pub fn unreadable(cause: &str) -> (r: String)
    ensures
        r@ == invalid_text("parse error: "@ + cause@),
{
    let reason = joined("parse error: ", cause);
    invalid(reason.as_str())
}

/// The answer that accepts a request and makes a transaction of it.
pub fn valid(tx: &Transaction) -> (r: String)
    ensures
        r@ == valid_text(*tx),
{
    let mut r = "{\"status\":\"valid\",\"transaction\":".to_owned();
    let t = tx.to_json();
    r.append(t.as_str());
    r.append("}");
    r
}

/// A query that the host is asked to run.
#[derive(Debug)]
pub struct HostQuery {
    /// The name of the database.
    pub database: String,
    /// The query.
    pub sql: String,
    /// The parameters, as a JSON array.
    pub params: String,
}

/// A query of the accounts for one of them.
pub open spec fn asks(query: HostQuery, sql: Seq<char>, did: Seq<char>) -> bool {
    &&& query.database@ == "balances"@
    &&& query.sql@ == sql
    &&& query.params@ == account_params(did)
}

fn account_query(sql: &str, did: &str) -> (r: HostQuery)
    ensures
        asks(r, sql@, did@),
{
    let mut params = "[".to_owned();
    push_quoted(&mut params, did);
    params.append("]");
    HostQuery { database: "balances".to_owned(), sql: sql.to_owned(), params }
}

/// What the program does next.
#[derive(Debug)]
pub enum GuestAction {
    /// Ask for the balance of an account.
    QueryBalance(HostQuery),
    /// Ask whether an account exists.
    QueryRecipient(HostQuery),
    /// Answer the request.
    Answer(String),
}

/// The rows that a text stands for, if it is that of a JSON array of arrays.
pub open spec fn table_rows(text: Seq<char>) -> Option<Seq<Seq<json::JsonModel>>> {
    match json::parsed(text) {
        Ok(json::JsonModel::List(items)) => if forall|i: int|
            0 <= i < items.len() ==> #[trigger] items[i] is List {
            Some(Seq::new(items.len(), |i: int| items[i]->List_0))
        } else {
            None
        },
        _ => None,
    }
}

/// What rows stand for.
pub open spec fn rows_model(rows: Seq<Vec<Json>>) -> Seq<Seq<json::JsonModel>> {
    Seq::new(rows.len(), |i: int| json::list_model(rows[i]@))
}

/// The rows that a text stands for, if it is that of a JSON array of arrays.
pub fn read_table(text: &str) -> (r: Option<Vec<Vec<Json>>>)
    ensures
        match r {
            Some(rows) => table_rows(text@) == Some(rows_model(rows@)),
            None => table_rows(text@) is None,
        },
{
    match Json::parse(text) {
        Ok(Json::List(items)) => {
            let ghost models = json::list_model(items@);
            proof {
                json::lemma_list_model(items@);
            }
            let mut rows: Vec<Vec<Json>> = Vec::new();
            let mut k: usize = 0;
            while k < items.len()
                invariant
                    k <= items@.len(),
                    rows@.len() == k,
                    models.len() == items@.len(),
                    forall|i: int| 0 <= i < items@.len() ==> #[trigger] models[i] == items@[i]@,
                    forall|i: int| 0 <= i < k ==> #[trigger] models[i] is List,
                    forall|i: int|
                        0 <= i < k ==> json::list_model((#[trigger] rows@[i])@)
                            == models[i]->List_0,
                    json::parsed(text@) == Ok::<json::JsonModel, Seq<char>>(
                        json::JsonModel::List(models),
                    ),
                decreases items@.len() - k,
            {
                assert(models[k as int] == items@[k as int]@);
                match items[k].clone() {
                    Json::List(row) => rows.push(row),
                    _ => {
                        return None;
                    },
                }
                k = k + 1;
            }
            assert(rows_model(rows@) =~= Seq::new(models.len(), |i: int| models[i]->List_0));
            Some(rows)
        },
        _ => None,
    }
}

/// The bits of the balance that a table shows: the first column of the first row if it is a
/// number, and zero otherwise.
pub open spec fn shown_balance(rows: Option<Vec<Vec<Json>>>) -> u64 {
    match rows {
        Some(table) => if table@.len() > 0 {
            match table@[0]@[0]@.float_bits() {
                Some(bits) => bits,
                None => 0,
            }
        } else {
            0
        },
        None => 0,
    }
}

impl TransferRequest {
    /// The transaction that the transfer makes.
    pub open spec fn makes(self, tx: Transaction) -> bool {
        &&& tx.seq == self.args.seq
        &&& tx.prev_hash@ == self.args.prev_hash@
        &&& tx.sender@ == self.requester@
        &&& tx.recipient@ == self.args.recipient@
        &&& tx.amount == self.args.amount
        &&& tx.asset@ == self.args.asset@
        &&& tx.timestamp == self.args.timestamp
        &&& tx.program_cid@ == self.program_cid@
        &&& tx.user_sig@ == self.args.user_sig@
    }

    /// The transaction that the transfer makes.
    pub fn transaction(&self) -> (r: Transaction)
        ensures
            self.makes(r),
    {
        Transaction {
            seq: self.args.seq,
            prev_hash: self.args.prev_hash.clone(),
            sender: self.requester.clone(),
            recipient: self.args.recipient.clone(),
            amount: self.args.amount,
            asset: self.args.asset.clone(),
            timestamp: self.args.timestamp,
            program_cid: self.program_cid.clone(),
            user_sig: self.args.user_sig.clone(),
        }
    }

    /// The first step: the amount must be positive, and the requester's balance is asked for.
    pub fn begin(&self) -> (r: GuestAction)
        ensures
            if self.args.amount.value() <= 0 {
                r matches GuestAction::Answer(s) && s@ == invalid_text("amount must be positive"@)
            } else {
                r matches GuestAction::QueryBalance(query) && asks(
                    query,
                    "SELECT balance FROM accounts WHERE did = ?"@,
                    self.requester@,
                )
            },
    {
        if self.args.amount.not_positive() {
            GuestAction::Answer(invalid("amount must be positive"))
        } else {
            GuestAction::QueryBalance(
                account_query(
                    "SELECT balance FROM accounts WHERE did = ?",
                    self.requester.as_str(),
                ),
            )
        }
    }

    /// The second step, with the rows that tell the balance or without any that could be read: the
    /// amount must be within the balance, and the recipient is asked for.
    pub fn with_balance(&self, rows: &Option<Vec<Vec<Json>>>) -> (r: GuestAction)
        requires
            *rows matches Some(table) ==> (table@.len() > 0 ==> table@[0]@.len() > 0),
        ensures
            r is QueryRecipient && self.args.amount.value() > 0 ==> (*rows matches Some(table)
                && table@.len() > 0 && (table@[0]@[0]@.float_bits() matches Some(balance)
                && self.args.amount.value() <= float::bits_value(balance))),
            if self.args.amount.value() > float::bits_value(shown_balance(*rows)) {
                r matches GuestAction::Answer(s) && s@ == invalid_text("insufficient balance"@)
            } else {
                r matches GuestAction::QueryRecipient(query) && asks(
                    query,
                    "SELECT 1 FROM accounts WHERE did = ?"@,
                    self.args.recipient@,
                )
            },
    {
        let mut balance = Float::from_bits(0).unwrap();
        if let Some(table) = rows {
            if table.len() > 0 {
                if let Some(f) = table[0][0].as_float() {
                    balance = f;
                }
            }
        }
        if self.args.amount.at_most(&balance) {
            GuestAction::QueryRecipient(
                account_query(
                    "SELECT 1 FROM accounts WHERE did = ?",
                    self.args.recipient.as_str(),
                ),
            )
        } else {
            GuestAction::Answer(invalid("insufficient balance"))
        }
    }

    /// The last step, with the rows that show the recipient or without any that could be read: the
    /// recipient must exist.
    pub fn with_recipient(&self, rows: &Option<Vec<Vec<Json>>>) -> (r: String)
        ensures
            if *rows matches Some(table) && table@.len() > 0 {
                exists|tx: Transaction| self.makes(tx) && r@ == #[trigger] valid_text(tx)
            } else {
                r@ == invalid_text("recipient does not exist"@)
            },
    {
        let exists_recipient = match rows {
            Some(table) => table.len() > 0,
            None => false,
        };
        if exists_recipient {
            let tx = self.transaction();
            valid(&tx)
        } else {
            invalid("recipient does not exist")
        }
    }
}

/// The answer that rejects a request, as the JSON that its text shows.
pub open spec fn rejection(reason: Seq<char>) -> json::JsonModel {
    json::JsonModel::Object(
        seq![
            ("status"@, json::JsonModel::Text("invalid"@)),
            ("reason"@, json::JsonModel::Text(reason)),
        ],
    )
}

/// The answer that accepts a request, as the JSON that its text shows.
pub open spec fn acceptance(tx: Transaction) -> json::JsonModel {
    json::JsonModel::Object(
        seq![
            ("status"@, json::JsonModel::Text("valid"@)),
            ("transaction"@, json::JsonModel::Object(model::transaction_fields(tx))),
        ],
    )
}

/// A rejection is understood: the answer's text is that of a JSON object that the host, having
/// read it, takes for the rejection of the request for the same reason.
pub proof fn law_rejection_understood(reason: String)
    ensures
        json::json_text(rejection(reason@)) == invalid_text(reason@),
        wasm_executor::is_verdict(
            json::canonical(rejection(reason@)),
            Verdict::Final(Ok(AttestationResult::Invalid(reason))),
        ),
{
    reveal_strlit("{");
    reveal_strlit(",");
    reveal_strlit(":");
    reveal_strlit("status");
    reveal_strlit("reason");
    reveal_strlit("invalid");
    reveal_strlit("valid");
    reveal_strlit("{\"status\":\"invalid\",\"reason\":");
    json::lemma_plain_quoted("status"@);
    json::lemma_plain_quoted("reason"@);
    json::lemma_plain_quoted("invalid"@);
    let entries = seq![
        ("status"@, json::JsonModel::Text("invalid"@)),
        ("reason"@, json::JsonModel::Text(reason@)),
    ];
    let first = "{"@ + json::quoted("status"@) + ":"@;
    let second = ","@ + json::quoted("reason"@) + ":"@;
    json::lemma_opened_first(entries, first);
    json::lemma_opened_next(entries, 1, second);
    json::lemma_object_closed(entries);
    assert(first + json::quoted("invalid"@) + second
        =~= "{\"status\":\"invalid\",\"reason\":"@);
    assert("status"@.len() == 6 && "reason"@.len() == 6 && "status"@[0] != "reason"@[0]);
    json::lemma_canonical_field(entries, 0);
    json::lemma_canonical_field(entries, 1);
    assert("invalid"@.len() != "valid"@.len());
}

/// An acceptance is understood: the answer's text is that of a JSON object that the host, having
/// read it, takes for the acceptance of the request with the transaction that the object holds.
pub proof fn law_acceptance_understood(tx: Transaction, transaction: Json)
    requires
        transaction@ == json::canonical(json::JsonModel::Object(model::transaction_fields(tx))),
    ensures
        json::json_text(acceptance(tx)) == valid_text(tx),
        wasm_executor::is_verdict(
            json::canonical(acceptance(tx)),
            Verdict::Accepted(transaction),
        ),
{
    reveal_strlit("{");
    reveal_strlit(",");
    reveal_strlit(":");
    reveal_strlit("status");
    reveal_strlit("transaction");
    reveal_strlit("valid");
    reveal_strlit("{\"status\":\"valid\",\"transaction\":");
    json::lemma_plain_quoted("status"@);
    json::lemma_plain_quoted("transaction"@);
    json::lemma_plain_quoted("valid"@);
    model::law_transaction_is_json_object(tx);
    let entries = seq![
        ("status"@, json::JsonModel::Text("valid"@)),
        ("transaction"@, json::JsonModel::Object(model::transaction_fields(tx))),
    ];
    let first = "{"@ + json::quoted("status"@) + ":"@;
    let second = ","@ + json::quoted("transaction"@) + ":"@;
    json::lemma_opened_first(entries, first);
    json::lemma_opened_next(entries, 1, second);
    json::lemma_object_closed(entries);
    assert(first + json::quoted("valid"@) + second
        =~= "{\"status\":\"valid\",\"transaction\":"@);
    assert("status"@.len() != "transaction"@.len());
    json::lemma_canonical_field(entries, 0);
    json::lemma_canonical_field(entries, 1);
}

/// The balance that counts is the number in the first column of the first row: an account without
/// a row, or one whose balance is no number, has nothing.
pub proof fn law_balance_that_counts(rows: Option<Vec<Vec<Json>>>)
    requires
        rows matches Some(table) ==> (table@.len() > 0 ==> table@[0]@.len() > 0),
    ensures
        rows is None ==> shown_balance(rows) == 0,
        rows matches Some(table) ==> {
            &&& table@.len() == 0 ==> shown_balance(rows) == 0
            &&& table@.len() > 0 && !(table@[0]@[0]@ is Number) ==> shown_balance(rows) == 0
            &&& table@.len() > 0 ==> (table@[0]@[0]@ matches json::JsonModel::Number(
                JsonNumber::Float(f),
            ) ==> shown_balance(rows) == f.bits())
            &&& table@.len() > 0 ==> (table@[0]@[0]@ matches json::JsonModel::Number(
                JsonNumber::PosInt(n),
            ) ==> shown_balance(rows) == float::nearest(n as int))
            &&& table@.len() > 0 ==> (table@[0]@[0]@ matches json::JsonModel::Number(
                JsonNumber::NegInt(n),
            ) ==> shown_balance(rows) == float::nearest(n as int))
        },
{
}

/// The transaction that a transfer makes is the one that was asked for, field by field.
pub proof fn law_transfer_as_asked(request: TransferRequest, tx: Transaction)
    requires
        request.makes(tx),
    ensures
        tx.seq == request.args.seq,
        tx.prev_hash@ == request.args.prev_hash@,
        tx.sender@ == request.requester@,
        tx.recipient@ == request.args.recipient@,
        tx.amount == request.args.amount,
        tx.asset@ == request.args.asset@,
        tx.timestamp == request.args.timestamp,
        tx.program_cid@ == request.program_cid@,
        tx.user_sig@ == request.args.user_sig@,
{
}

/// A query for one account asks for that account in the database of balances: its parameters are
/// the JSON array of the account's name.
pub proof fn law_query_for_account(query: HostQuery, sql: Seq<char>, did: Seq<char>)
    requires
        asks(query, sql, did),
    ensures
        query.database@ == "balances"@,
        query.sql@ == sql,
        query.params@ == json::json_text(
            json::JsonModel::List(seq![json::JsonModel::Text(did)]),
        ),
{
    let item = json::JsonModel::Text(did);
    json::law_array_text(item, seq![item], seq![item]);
}

/// The rows that a text stands for are the arrays that the array in it holds, in order, and there
/// are none if it holds anything else.
pub proof fn law_rows_of_text(text: Seq<char>, items: Seq<json::JsonModel>)
    ensures
        json::parsed(text) == Ok::<json::JsonModel, Seq<char>>(json::JsonModel::List(items)) && (
        forall|i: int| 0 <= i < items.len() ==> #[trigger] items[i] is List) ==> (table_rows(text)
            matches Some(rows) && rows.len() == items.len() && forall|i: int|
            0 <= i < items.len() ==> items[i] == json::JsonModel::List(#[trigger] rows[i])),
        json::parsed(text) == Ok::<json::JsonModel, Seq<char>>(json::JsonModel::List(items)) && (
        exists|i: int| 0 <= i < items.len() && !(#[trigger] items[i] is List)) ==> table_rows(text)
            is None,
        !(json::parsed(text) matches Ok(json::JsonModel::List(_))) ==> table_rows(text) is None,
{
}

/// Rows stand for what their columns stand for, each in its place.
pub proof fn law_rows_stand_for_columns(rows: Seq<Vec<Json>>, i: int, j: int)
    requires
        0 <= i < rows.len(),
        0 <= j < rows[i]@.len(),
    ensures
        rows_model(rows).len() == rows.len(),
        rows_model(rows)[i].len() == rows[i]@.len(),
        rows_model(rows)[i][j] == rows[i]@[j]@,
{
    json::lemma_list_model(rows[i]@);
}

} // verus!
