//! The host's side of WASM programs and the transfer validator as a guest program, run in the
//! host's process.

use craftsec::entries::comes_before;
use craftsec::error::{CraftSecError, Result};
use craftsec::feldman::run_dkg;
use craftsec::float::Float;
use craftsec::frost::{aggregate, verify};
use craftsec::guest::{
    default_asset, default_prev_hash, default_seq, default_user_sig, invalid, read_table,
    unreadable, GuestAction, TransferArgs, TransferRequest,
};
use craftsec::json::{Json, JsonNumber};
use craftsec::executor::ProgramExecutor;
use craftsec::model::{AttestationRequest, AttestationResult, ThresholdConfig, Transaction};
use craftsec::node::CraftSecNode;
use craftsec::sql::names_pragma;
use craftsec::wasm_executor::{
    acceptance, bind_param, column_json, log_level, pack, query_answer, read_answer, read_params,
    read_range, request_bytes, unpack, verdict, write_range, Action, Databases, Event, Execution,
    Failure, SqlDatabase, SqlValue, Stage, Verdict, WasmProgramRegistry,
};
use rand::rngs::OsRng;
use rand::RngCore;
use std::cell::RefCell;
use wasmtime::{Caller, Config, Engine, Linker, Module, Store, Val};

fn block() -> [u8; 64] {
    let mut b = [0u8; 64];
    OsRng.fill_bytes(&mut b);
    b
}

fn num(x: f64) -> Json {
    Json::Number(JsonNumber::Float(Float::from_bits(x.to_bits()).unwrap()))
}

fn whole(n: u64) -> Json {
    Json::Number(JsonNumber::PosInt(n))
}

fn text(s: &str) -> Json {
    Json::Text(s.to_string())
}

fn object(entries: Vec<(&str, Json)>) -> Json {
    Json::Object(entries.into_iter().map(|(k, v)| (k.to_string(), v)).collect())
}

fn parse(text: &str) -> Json {
    Json::parse(text).unwrap()
}

fn string_or(json: &Json, key: &str, default: &str) -> String {
    json.string_field(key).unwrap_or(default).to_string()
}

/// The transfer validator on a request's bytes.
fn run_guest(input: &[u8], databases: &mut Databases) -> String {
    let request = match Json::parse(std::str::from_utf8(input).unwrap_or("")) {
        Ok(request) => request,
        Err(e) => return unreadable(&e),
    };
    let args = request.get("args").unwrap();
    let recipient = match args.string_field("recipient") {
        Some(s) => s.to_string(),
        None => return unreadable("missing field `recipient`"),
    };
    let transfer = TransferRequest {
        requester: string_or(&request, "requester", ""),
        program_cid: string_or(&request, "program_cid", ""),
        args: TransferArgs {
            recipient,
            amount: args.float_field("amount").unwrap(),
            seq: args.unsigned_field("seq").unwrap_or_else(default_seq),
            prev_hash: string_or(args, "prev_hash", &default_prev_hash()),
            timestamp: args.unsigned_field("timestamp").unwrap_or(0),
            asset: string_or(args, "asset", &default_asset()),
            user_sig: string_or(args, "user_sig", &default_user_sig()),
        },
    };
    let mut action = transfer.begin();
    loop {
        action = match action {
            GuestAction::QueryBalance(q) => {
                let answer = databases.query(&q.database, &q.sql, &q.params);
                transfer.with_balance(&read_table(&answer))
            }
            GuestAction::QueryRecipient(q) => {
                let answer = databases.query(&q.database, &q.sql, &q.params);
                GuestAction::Answer(transfer.with_recipient(&read_table(&answer)))
            }
            GuestAction::Answer(s) => return s,
        };
    }
}

fn transaction_of(json: &Json) -> std::result::Result<Transaction, String> {
    let amount = json.float_field("amount").ok_or("missing field `amount`")?;
    Ok(Transaction {
        seq: json.unsigned_field("seq").ok_or("missing field `seq`")?,
        prev_hash: string_or(json, "prev_hash", ""),
        sender: string_or(json, "sender", ""),
        recipient: string_or(json, "recipient", ""),
        amount,
        asset: string_or(json, "asset", ""),
        timestamp: json.unsigned_field("timestamp").ok_or("missing field `timestamp`")?,
        program_cid: string_or(json, "program_cid", ""),
        user_sig: string_or(json, "user_sig", ""),
    })
}

/// A registry that runs the guest program in the host's process.
struct Registry {
    databases: RefCell<Databases>,
}

impl ProgramExecutor for Registry {
    fn execute(&self, request: &AttestationRequest) -> Result<AttestationResult> {
        let mut memory = vec![0u8; 4096];
        let known = request.program_cid == "Qm_transfer";
        let (mut execution, mut action) = Execution::start(request, known);
        loop {
            let event = match action {
                Action::Instantiate => Event::Instantiated,
                Action::Allocate(len) => {
                    assert_eq!(len, execution.input.len());
                    Event::Allocated(16)
                }
                Action::Write(ptr) => {
                    let (start, end) =
                        write_range(memory.len(), ptr, execution.input.len()).unwrap();
                    memory[start..end].copy_from_slice(&execution.input);
                    Event::Written
                }
                Action::Call(ptr, len) => {
                    let (start, end) = read_range(memory.len(), ptr, len as u32).unwrap();
                    let answer = run_guest(&memory[start..end], &mut self.databases.borrow_mut());
                    memory[2048..2048 + answer.len()].copy_from_slice(answer.as_bytes());
                    Event::Returned(pack(2048, answer.len() as u32))
                }
                Action::Read(ptr, len) => {
                    let (start, end) = read_range(memory.len(), ptr, len).unwrap();
                    Event::Answered(memory[start..end].to_vec())
                }
                Action::Accept(transaction) => Event::Accepted(transaction_of(&transaction)),
                Action::Finish(result) => return result,
            };
            action = execution.step(event);
        }
    }
}

fn make_registry() -> Registry {
    let mut databases = Databases::new();
    databases
        .setup(
            "balances",
            "
        CREATE TABLE accounts (did TEXT PRIMARY KEY, balance REAL);
        INSERT INTO accounts VALUES ('did:alice', 1000.0);
        INSERT INTO accounts VALUES ('did:bob', 500.0);
        INSERT INTO accounts VALUES ('did:charlie', 0.0);
    ",
        )
        .unwrap();
    Registry { databases: RefCell::new(databases) }
}

fn request(args: Json, request_id: &str) -> AttestationRequest {
    AttestationRequest {
        program_cid: "Qm_transfer".into(),
        requester: "did:alice".into(),
        args,
        request_id: request_id.into(),
    }
}

fn full_args() -> Json {
    object(vec![
        ("recipient", text("did:bob")),
        ("amount", num(50.0)),
        ("seq", whole(1)),
        ("prev_hash", text("0000")),
        ("timestamp", whole(1000)),
    ])
}

#[test]
fn wasm_valid_transfer() {
    let result = make_registry().execute(&request(full_args(), "req-1")).unwrap();
    match result {
        AttestationResult::Valid(tx) => {
            assert_eq!(tx.sender, "did:alice");
            assert_eq!(tx.recipient, "did:bob");
            assert_eq!(f64::from_bits(tx.amount.to_bits()), 50.0);
        }
        AttestationResult::Invalid(reason) => panic!("expected valid, got invalid: {reason}"),
    }
}

#[test]
fn wasm_insufficient_balance() {
    let args = object(vec![("recipient", text("did:bob")), ("amount", num(5000.0))]);
    let result = make_registry().execute(&request(args, "req-2")).unwrap();
    assert!(matches!(result, AttestationResult::Invalid(ref r) if r.contains("insufficient")));
}

#[test]
fn wasm_negative_amount() {
    let args = object(vec![("recipient", text("did:bob")), ("amount", num(-10.0))]);
    let result = make_registry().execute(&request(args, "req-3")).unwrap();
    assert!(matches!(result, AttestationResult::Invalid(ref r) if r.contains("positive")));
}

#[test]
fn wasm_recipient_not_found() {
    let args = object(vec![("recipient", text("did:nonexistent")), ("amount", num(10.0))]);
    let result = make_registry().execute(&request(args, "req-4")).unwrap();
    assert!(matches!(result, AttestationResult::Invalid(ref r) if r.contains("recipient")));
}

#[test]
fn wasm_full_attestation_flow_2_of_3() {
    let config = ThresholdConfig::new(2, 3).unwrap();
    let blocks: Vec<[u8; 64]> = (0..6).map(|_| block()).collect();
    let key_shares = run_dkg(&config, &blocks).unwrap();
    let gpk = key_shares[0].group_public_key;

    let nodes: Vec<_> = key_shares
        .into_iter()
        .map(|ks| CraftSecNode::new(ks, make_registry()))
        .collect();

    let req = request(full_args(), "req-5");

    let signers = &[0usize, 1];
    let mut responses = Vec::new();
    for &i in signers {
        let resp = nodes[i].process_request(&req, &block(), &block()).unwrap();
        assert!(matches!(resp.result, AttestationResult::Valid(_)));
        responses.push(resp);
    }

    let tx = match &responses[0].result {
        AttestationResult::Valid(tx) => tx,
        _ => unreachable!(),
    };
    let message = tx.signing_bytes();

    let commitments: Vec<_> = responses.iter().map(|r| r.commitment.clone().unwrap()).collect();

    let mut partials = Vec::new();
    for (idx, &i) in signers.iter().enumerate() {
        let nonce = responses[idx].nonce.as_ref().unwrap();
        let sig = nodes[i].sign(nonce, &message, &commitments).unwrap();
        partials.push(sig.partial);
    }

    let threshold_sig = aggregate(&message, &commitments, &partials);
    verify(&threshold_sig, &gpk, &message).unwrap();
}

#[test]
fn unknown_program_is_refused() {
    let mut req = request(full_args(), "r");
    req.program_cid = "Qm_other".into();
    let e = make_registry().execute(&req).unwrap_err();
    assert!(matches!(e, CraftSecError::ProgramError(ref m) if m == "unknown program CID: Qm_other"));
}

#[test]
fn the_program_is_handed_sorted_json() {
    let req = request(object(vec![("amount", whole(50))]), "r");
    assert_eq!(
        request_bytes(&req),
        b"{\"args\":{\"amount\":50},\"program_cid\":\"Qm_transfer\",\"requester\":\"did:alice\"}"
    );
}

#[test]
fn objects_are_written_in_the_order_of_their_keys() {
    let args = object(vec![
        ("b", whole(1)),
        ("aa", Json::Null),
        ("\u{e4}", object(vec![("z", whole(2)), ("y", whole(3))])),
        ("a", whole(4)),
        ("b", whole(5)),
    ]);
    assert_eq!(args.to_text(), "{\"a\":4,\"aa\":null,\"b\":5,\"\u{e4}\":{\"y\":3,\"z\":2}}");
    assert_eq!(parse(&args.to_text()).to_text(), args.to_text());
    assert_eq!(args.unsigned_field("b"), Some(5));
    assert!(args.get("c").is_none());
    let bytes = request_bytes(&request(args, "r"));
    assert!(bytes.starts_with(b"{\"args\":{\"a\":4,\"aa\":null,\"b\":5,"));
    assert!(comes_before("a", "aa"));
    assert!(comes_before("aa", "b"));
    assert!(comes_before("z", "\u{e4}"));
    assert!(!comes_before("b", "b"));
    assert!(!comes_before("b", "aa"));
    assert!(comes_before("", "a"));
    assert!(!comes_before("", ""));
}

#[test]
fn pragmas_are_told_apart() {
    for sql in [
        "PRAGMA cache_size",
        "\t\n\x0c\r ;pragma x",
        "-- a comment\nPragma x",
        "/* a * comment */pragma x",
        "/**/explain pragma x",
        "EXPLAIN/* */QUERY -- \n PLAN PRAGMA x",
    ] {
        assert!(names_pragma(sql));
    }
    for sql in [
        "",
        "SELECT 1",
        "-- pragma",
        "/* pragma x",
        "SELECT 1; PRAGMA x",
        "SELECT name FROM pragma_table_info('t')",
        "EXPLAIN SELECT 'pragma'",
        "prag",
    ] {
        assert!(!names_pragma(sql));
    }
    let mut db = SqlDatabase::new().unwrap();
    assert_eq!(db.query("/* one */ SELECT 1 -- end", "[]"), "[[1]]");
}

#[test]
fn places_are_packed() {
    assert_eq!(pack(0x1234, 0x56), 0x0000_1234_0000_0056);
    assert_eq!(unpack(pack(u32::MAX, 7)), (u32::MAX, 7));
    assert_eq!(unpack(0xffff_ffff_ffff_fffe), (0xffff_ffff, 0xffff_fffe));
}

#[test]
fn ranges_of_memory() {
    assert_eq!(read_range(100, 90, 10), Some((90, 100)));
    assert_eq!(read_range(100, 90, 11), None);
    assert_eq!(read_range(usize::MAX, u32::MAX, 1), None);
    assert_eq!(write_range(100, 100, 0), Some((100, 100)));
    assert_eq!(write_range(100, 90, 11), None);
    assert_eq!(write_range(100, 90, usize::MAX), None);
}

#[test]
fn names_of_log_levels() {
    let names: Vec<&str> = (0..5).map(log_level).collect();
    assert_eq!(names, vec!["DEBUG", "INFO", "WARN", "ERROR", "?"]);
}

#[test]
fn parameters_of_queries() {
    assert!(matches!(bind_param(&Json::Null), SqlValue::Null));
    assert!(matches!(bind_param(&Json::Bool(true)), SqlValue::Integer(1)));
    assert!(matches!(bind_param(&Json::Bool(false)), SqlValue::Integer(0)));
    assert!(matches!(bind_param(&whole(5)), SqlValue::Integer(5)));
    assert!(matches!(bind_param(&Json::Number(JsonNumber::NegInt(-5))), SqlValue::Integer(-5)));
    let big = bind_param(&whole(u64::MAX));
    assert!(matches!(big, SqlValue::Real(bits) if f64::from_bits(bits) == u64::MAX as f64));
    assert!(matches!(bind_param(&num(1.5)), SqlValue::Real(bits) if bits == 1.5f64.to_bits()));
    assert!(matches!(bind_param(&text("x")), SqlValue::Text(ref s) if s == "x"));
    let list = Json::List(vec![whole(1), text("a")]);
    assert!(matches!(bind_param(&list), SqlValue::Text(ref s) if s == "[1,\"a\"]"));
}

#[test]
fn columns_in_json() {
    assert_eq!(column_json(&SqlValue::Null).to_text(), "null");
    assert_eq!(column_json(&SqlValue::Integer(-3)).to_text(), "-3");
    assert_eq!(column_json(&SqlValue::Integer(3)).to_text(), "3");
    assert_eq!(column_json(&SqlValue::Real(0.5f64.to_bits())).to_text(), "0.5");
    assert_eq!(column_json(&SqlValue::Real(f64::INFINITY.to_bits())).to_text(), "null");
    assert_eq!(column_json(&SqlValue::Text("t".into())).to_text(), "\"t\"");
    assert_eq!(column_json(&SqlValue::Blob(vec![0xab, 1])).to_text(), "\"ab01\"");
    assert_eq!(query_answer(&None), "[]");
    assert_eq!(
        query_answer(&Some(vec![
            Some(vec![SqlValue::Integer(1), SqlValue::Null]),
            Some(vec![])
        ])),
        "[[1,null],[]]"
    );
    assert_eq!(query_answer(&Some(vec![Some(vec![SqlValue::Integer(1)]), None])), "[]");
}

#[test]
fn databases_answer_queries() {
    let mut db = SqlDatabase::new().unwrap();
    db.execute("CREATE TABLE t (i INTEGER, r REAL, s TEXT, b BLOB, n INTEGER)").unwrap();
    db.execute("INSERT INTO t VALUES (-7, 2.5, 'x', x'00ff', NULL)").unwrap();
    assert!(db.execute("nonsense").is_err());
    assert_eq!(db.query("SELECT * FROM t", "[]"), "[[-7,2.5,\"x\",\"00ff\",null]]");
    assert_eq!(db.query("SELECT i FROM t WHERE r = ?", "[2.5]"), "[[-7]]");
    assert_eq!(db.query("SELECT i FROM t WHERE i = ? AND s = ?", "[-7, \"x\"]"), "[[-7]]");
    assert_eq!(db.query("SELECT i FROM t WHERE s = ?", "[\"y\"]"), "[]");
    assert_eq!(db.query("SELECT i FROM missing", "[]"), "[]");
    assert_eq!(db.query("SELECT i FROM t WHERE i = ?", "[]"), "[]");
    // Parameters that cannot be read are none.
    assert_eq!(db.query("SELECT i FROM t", "nonsense"), "[[-7]]");
    assert_eq!(db.query("SELECT i FROM t", "{}"), "[[-7]]");
    // Text that is not UTF-8.
    assert_eq!(db.query("SELECT CAST(x'ff' AS TEXT)", "[]"), "[]");
    assert_eq!(db.query("SELECT CAST(x'c3a4' AS TEXT)", "[]"), "[[\"\u{e4}\"]]");
}

#[test]
fn parameters_are_read() {
    let params = read_params("[1, -2, 0.5, true, null, \"s\", [1], {\"b\":1,\"a\":2}]");
    assert_eq!(params.len(), 8);
    assert!(matches!(params[0], SqlValue::Integer(1)));
    assert!(matches!(params[1], SqlValue::Integer(-2)));
    assert!(matches!(params[2], SqlValue::Real(bits) if bits == 0.5f64.to_bits()));
    assert!(matches!(params[3], SqlValue::Integer(1)));
    assert!(matches!(params[4], SqlValue::Null));
    assert!(matches!(params[5], SqlValue::Text(ref s) if s == "s"));
    assert!(matches!(params[6], SqlValue::Text(ref s) if s == "[1]"));
    assert!(matches!(params[7], SqlValue::Text(ref s) if s == "{\"a\":2,\"b\":1}"));
    assert!(read_params("").is_empty());
    assert!(read_params("7").is_empty());
}

#[test]
fn databases_by_name() {
    let mut databases = Databases::new();
    assert_eq!(databases.query("a", "SELECT 1", "[]"), "[]");
    databases.setup("a", "CREATE TABLE t (i INTEGER)").unwrap();
    databases.setup("a", "INSERT INTO t VALUES (1)").unwrap();
    assert_eq!(databases.query("a", "SELECT i FROM t", "[]"), "[[1]]");
    assert_eq!(databases.query("b", "SELECT 1", "[]"), "[]");
    let e = databases.setup("a", "nonsense").unwrap_err();
    assert!(matches!(e, CraftSecError::ProgramError(ref m) if m.starts_with("SQL setup error: ")));
    databases.setup("b", "CREATE TABLE u (i INTEGER)").unwrap();
    assert_eq!(databases.query("b", "SELECT i FROM t", "[]"), "[]");
    assert_eq!(databases.query("a", "SELECT i FROM t", "[]"), "[[1]]");
}

#[test]
fn json_is_read() {
    let json = parse(" { \"b\" : [1, -2, 2.5, true, null], \"a\" : \"x\\n\" } ");
    assert_eq!(json.to_text(), "{\"a\":\"x\\n\",\"b\":[1,-2,2.5,true,null]}");
    assert_eq!(json.string_field("a"), Some("x\n"));
    assert!(matches!(parse("-0"), Json::Number(JsonNumber::Float(_))));
    assert!(matches!(
        parse("18446744073709551615"),
        Json::Number(JsonNumber::PosInt(u64::MAX))
    ));
    assert!(matches!(
        parse("-9223372036854775808"),
        Json::Number(JsonNumber::NegInt(i64::MIN))
    ));
    let e = Json::parse("[1,").unwrap_err();
    assert_eq!(e, serde_json::from_str::<serde_json::Value>("[1,").unwrap_err().to_string());
}

#[test]
fn answers_are_read() {
    assert_eq!(read_answer(b"{\"status\":1}").unwrap().to_text(), "{\"status\":1}");
    let e = read_answer(&[0x7b, 0xff]).unwrap_err();
    assert!(matches!(
        e,
        CraftSecError::ProgramError(ref m)
            if m == "invalid UTF-8: invalid utf-8 sequence of 1 bytes from index 1"
    ));
    let e = read_answer(b"{").unwrap_err();
    assert!(matches!(
        e,
        CraftSecError::ProgramError(ref m)
            if m == "invalid JSON: EOF while parsing an object at line 1 column 1"
    ));
}

#[test]
fn tables_are_read() {
    let rows = read_table("[[1,\"a\"],[]]").unwrap();
    assert_eq!(rows.len(), 2);
    assert_eq!(rows[0][1].as_str(), Some("a"));
    assert!(rows[1].is_empty());
    for other in ["", "{}", "[1]", "[[1],2]"] {
        assert!(read_table(other).is_none());
    }
}

#[test]
fn verdicts() {
    let accepted = verdict(&parse("{\"status\":\"valid\",\"transaction\":{\"seq\":1}}"));
    assert!(matches!(accepted, Verdict::Accepted(ref tx) if tx.to_text() == "{\"seq\":1}"));
    let bare = verdict(&parse("{\"status\":\"valid\"}"));
    assert!(matches!(bare, Verdict::Accepted(Json::Null)));
    let rejected = verdict(&parse(&invalid("because \"x\"")));
    assert!(matches!(
        rejected,
        Verdict::Final(Ok(AttestationResult::Invalid(ref r))) if r == "because \"x\""
    ));
    assert!(matches!(
        verdict(&parse("{\"status\":\"invalid\"}")),
        Verdict::Final(Ok(AttestationResult::Invalid(ref r))) if r == "unknown"
    ));
    for other in ["{}", "{\"status\":\"odd\"}", "{\"status\":1}", "[]"] {
        assert!(matches!(
            verdict(&parse(other)),
            Verdict::Final(Err(CraftSecError::ProgramError(ref m)))
                if m == "invalid result status"
        ));
    }
    let tx = transaction_of(&parse("{\"seq\":1,\"amount\":2.0,\"timestamp\":3}"));
    assert!(matches!(acceptance(tx), Ok(AttestationResult::Valid(ref tx)) if tx.seq == 1));
    assert!(matches!(
        acceptance(Err("bad".into())),
        Err(CraftSecError::ProgramError(ref m)) if m == "invalid transaction: bad"
    ));
}

fn reading() -> Execution {
    let (mut execution, _) = Execution::start(&request(full_args(), "r"), true);
    execution.step(Event::Instantiated);
    execution.step(Event::Allocated(8));
    execution.step(Event::Written);
    execution.step(Event::Returned(pack(64, 2)));
    execution
}

#[test]
fn an_execution_goes_through_its_stages() {
    let (mut execution, action) = Execution::start(&request(full_args(), "r"), true);
    let len = execution.input.len();
    assert!(matches!(action, Action::Instantiate));
    assert!(matches!(execution.step(Event::Instantiated), Action::Allocate(n) if n == len));
    assert!(matches!(execution.step(Event::Allocated(8)), Action::Write(8)));
    assert!(matches!(execution.step(Event::Written), Action::Call(8, n) if n == len));
    assert!(matches!(execution.step(Event::Returned(pack(64, 2))), Action::Read(64, 2)));
    let answer = b"{\"status\":\"valid\",\"transaction\":{}}".to_vec();
    assert!(matches!(execution.step(Event::Answered(answer)), Action::Accept(Json::Object(_))));
    assert!(matches!(execution.stage, Stage::Accepting));
    assert!(matches!(
        execution.step(Event::Accepted(Err("missing".into()))),
        Action::Finish(Err(CraftSecError::ProgramError(ref m)))
            if m == "invalid transaction: missing"
    ));
    assert!(matches!(execution.stage, Stage::Done));

    let mut rejected = reading();
    assert!(matches!(
        rejected.step(Event::Answered(invalid("no").into_bytes())),
        Action::Finish(Ok(AttestationResult::Invalid(ref r))) if r == "no"
    ));
    assert!(matches!(rejected.stage, Stage::Done));

    let mut garbled = reading();
    assert!(matches!(
        garbled.step(Event::Answered(vec![0xff])),
        Action::Finish(Err(CraftSecError::ProgramError(_)))
    ));
    assert!(matches!(garbled.stage, Stage::Done));
}

#[test]
fn failures_end_the_execution() {
    let cases = vec![
        (Failure::Compilation("e".into()), "failed to compile WASM: e"),
        (Failure::Linking("e".into()), "linker: e"),
        (Failure::Instantiation("e".into()), "instantiation failed: e"),
        (Failure::NoAllocator, "no guest_alloc export"),
        (Failure::Allocation("e".into()), "guest_alloc failed: e"),
        (Failure::NoMemory, "no memory export"),
        (Failure::NoEntryPoint, "no 'attest' export"),
        (Failure::Execution("e".into()), "WASM execution failed: e"),
        (Failure::NotText("e".into()), "invalid UTF-8: e"),
        (Failure::NotJson("e".into()), "invalid JSON: e"),
    ];
    for (failure, message) in cases {
        let (mut execution, _) = Execution::start(&request(full_args(), "r"), true);
        match execution.step(Event::Failed(failure)) {
            Action::Finish(Err(CraftSecError::ProgramError(m))) => assert_eq!(m, message),
            other => panic!("{:?}", other),
        }
        assert!(matches!(execution.stage, Stage::Done));
    }
}

#[test]
fn guest_answers() {
    assert_eq!(invalid("no"), "{\"status\":\"invalid\",\"reason\":\"no\"}");
    assert_eq!(
        unreadable("eof"),
        "{\"status\":\"invalid\",\"reason\":\"parse error: eof\"}"
    );
}

#[test]
fn databases_on_connections() {
    let conn = rusqlite::Connection::open_in_memory();
    let mut db = SqlDatabase::on(conn).unwrap();
    assert_eq!(db.query("SELECT 1", "[]"), "[[1]]");
    assert!(SqlDatabase::on(Err(rusqlite::Error::InvalidQuery)).is_none());
    let mut fresh = SqlDatabase::new().unwrap();
    assert_eq!(fresh.query("SELECT count(*) FROM sqlite_master", "[]"), "[[0]]");
}

#[test]
fn programs_only_read() {
    let mut databases = Databases::new();
    databases.setup("a", "CREATE TABLE t (i INTEGER); INSERT INTO t VALUES (1)").unwrap();
    for sql in [
        "BEGIN",
        "SAVEPOINT s",
        "ATTACH ':memory:' AS other",
        "PRAGMA query_only = 1",
        "PRAGMA cache_size",
        " ;-- first\n/* then */ explain  query plan pragma query_only = 1",
        "DELETE FROM t",
        "INSERT INTO t VALUES (2) RETURNING i",
        "UPDATE t SET i = 3",
        "DROP TABLE t",
    ] {
        assert_eq!(databases.query("a", sql, "[]"), "[]");
    }
    assert_eq!(databases.query("a", "SELECT i FROM t", "[]"), "[[1]]");
    databases.setup("a", "INSERT INTO t VALUES (2)").unwrap();
    for sql in ["ROLLBACK", "ROLLBACK TO s", "RELEASE s", "COMMIT"] {
        assert_eq!(databases.query("a", sql, "[]"), "[]");
    }
    assert_eq!(databases.query("a", "SELECT i FROM t", "[]"), "[[1],[2]]");
    assert_eq!(databases.query("a", "SELECT name FROM pragma_database_list", "[]"), "[[\"main\"]]");
}

#[test]
fn databases_are_set_up_on_what_was_opened() {
    let mut databases = Databases::new();
    let e = databases.setup_on("a", None, "CREATE TABLE t (i INTEGER)").unwrap_err();
    assert!(matches!(
        e,
        CraftSecError::ProgramError(ref m) if m == "SQL setup error: no database"
    ));
    assert_eq!(databases.query("a", "SELECT 1", "[]"), "[]");
    let mut opened = SqlDatabase::new().unwrap();
    opened.execute("CREATE TABLE t (i INTEGER)").unwrap();
    databases.setup_on("a", Some(opened), "INSERT INTO t VALUES (7)").unwrap();
    assert_eq!(databases.query("a", "SELECT i FROM t", "[]"), "[[7]]");
    // A name that is taken keeps its database.
    databases.setup_on("a", SqlDatabase::new(), "INSERT INTO t VALUES (8)").unwrap();
    databases.setup_on("a", None, "INSERT INTO t VALUES (9)").unwrap();
    assert_eq!(databases.query("a", "SELECT i FROM t", "[]"), "[[7],[8],[9]]");

    let mut registry = WasmProgramRegistry::new();
    assert!(registry.setup_database_on("a", None, "SELECT 1").is_err());
    assert_eq!(registry.query_database("a", "SELECT 1", "[]"), "[]");
    let opened = SqlDatabase::new();
    registry.setup_database_on("a", opened, "CREATE TABLE u (i INTEGER)").unwrap();
    assert_eq!(registry.query_database("a", "SELECT count(*) FROM u", "[]"), "[[0]]");
}

#[test]
fn programs_are_registered() {
    let mut registry = WasmProgramRegistry::new();
    let req = request(full_args(), "r");
    assert!(matches!(registry.start(&req).1, Action::Finish(Err(_))));
    let e = registry.register_wasm("Qm_transfer".into(), b"nonsense").unwrap_err();
    assert!(matches!(
        e,
        CraftSecError::ProgramError(ref m) if m.starts_with("failed to compile WASM: ")
    ));
    assert!(registry.module("Qm_transfer").is_none());
    registry.register_wasm("Qm_transfer".into(), b"\0asm\x01\0\0\0").unwrap();
    assert!(registry.module("Qm_transfer").is_some());
    assert!(matches!(registry.start(&req).1, Action::Instantiate));
    let e = registry.register_compiled("Qm_b".into(), Err("bad".into())).unwrap_err();
    assert!(matches!(
        e,
        CraftSecError::ProgramError(ref m) if m == "failed to compile WASM: bad"
    ));
    registry.setup_database("a", "CREATE TABLE t (i INTEGER)").unwrap();
    registry.setup_database("a", "INSERT INTO t VALUES (5)").unwrap();
    assert_eq!(registry.query_database("a", "SELECT i FROM t", "[]"), "[[5]]");
    assert_eq!(registry.query_database("b", "SELECT i FROM t", "[]"), "[]");
    assert!(registry.setup_database("a", "nonsense").is_err());
}

#[test]
fn programs_do_not_see_request_ids() {
    let (a, _) = Execution::start(&request(full_args(), "one"), true);
    let (b, _) = Execution::start(&request(full_args(), "two"), true);
    assert_eq!(a.input, b.input);
}

fn guest_text(caller: &mut Caller<'_, WasmProgramRegistry>, ptr: u32, len: u32) -> String {
    let memory = caller.get_export("memory").unwrap().into_memory().unwrap();
    let data = memory.data(&*caller);
    let (start, end) = read_range(data.len(), ptr, len).unwrap();
    String::from_utf8(data[start..end].to_vec()).unwrap()
}

fn host_sql_query(
    mut caller: Caller<'_, WasmProgramRegistry>,
    db_ptr: u32,
    db_len: u32,
    sql_ptr: u32,
    sql_len: u32,
    params_ptr: u32,
    params_len: u32,
) -> u64 {
    let name = guest_text(&mut caller, db_ptr, db_len);
    let sql = guest_text(&mut caller, sql_ptr, sql_len);
    let params = guest_text(&mut caller, params_ptr, params_len);
    let answer = caller.data_mut().query_database(&name, &sql, &params).into_bytes();
    let guest_alloc = caller.get_export("guest_alloc").unwrap().into_func().unwrap();
    let mut place = vec![Val::I32(0)];
    guest_alloc.call(&mut caller, &[Val::I32(answer.len() as i32)], &mut place).unwrap();
    let ptr = place[0].unwrap_i32() as u32;
    let memory = caller.get_export("memory").unwrap().into_memory().unwrap();
    let data = memory.data_mut(&mut caller);
    let (start, end) = write_range(data.len(), ptr, answer.len()).unwrap();
    data[start..end].copy_from_slice(&answer);
    pack(ptr, answer.len() as u32)
}

/// Runs the program that a request names; returns the registry, the bytes of the answer and the
/// result.
fn run_program(
    registry: WasmProgramRegistry,
    req: &AttestationRequest,
) -> (WasmProgramRegistry, Vec<u8>, Result<AttestationResult>) {
    let (mut execution, mut action) = registry.start(req);
    let module = registry.module(&req.program_cid).unwrap().clone();
    let mut store = Store::new(module.engine(), registry);
    let mut linker = Linker::new(module.engine());
    linker.func_wrap("env", "host_sql_query", host_sql_query).unwrap();
    let mut instance = None;
    let mut answer = Vec::new();
    loop {
        let event = match (action, instance) {
            (Action::Finish(result), _) => return (store.into_data(), answer, result),
            (Action::Instantiate, _) => {
                instance = Some(linker.instantiate(&mut store, &module).unwrap());
                Event::Instantiated
            }
            (Action::Allocate(len), Some(instance)) => {
                match instance.get_func(&mut store, "guest_alloc") {
                    Some(guest_alloc) => {
                        let mut place = vec![Val::I32(0)];
                        guest_alloc
                            .call(&mut store, &[Val::I32(len as i32)], &mut place)
                            .unwrap();
                        Event::Allocated(place[0].unwrap_i32() as u32)
                    }
                    None => Event::Failed(Failure::NoAllocator),
                }
            }
            (Action::Write(ptr), Some(instance)) => {
                let memory = instance.get_memory(&mut store, "memory").unwrap();
                let data = memory.data_mut(&mut store);
                let (start, end) = write_range(data.len(), ptr, execution.input.len()).unwrap();
                data[start..end].copy_from_slice(&execution.input);
                Event::Written
            }
            (Action::Call(ptr, len), Some(instance)) => {
                let attest = instance.get_func(&mut store, "attest").unwrap();
                let mut place = vec![Val::I64(0)];
                let args = [Val::I32(ptr as i32), Val::I32(len as i32)];
                match attest.call(&mut store, &args, &mut place) {
                    Ok(()) => Event::Returned(place[0].unwrap_i64() as u64),
                    Err(e) => Event::Failed(Failure::Execution(e.to_string())),
                }
            }
            (Action::Read(ptr, len), Some(instance)) => {
                let memory = instance.get_memory(&mut store, "memory").unwrap();
                let data = memory.data(&store);
                let (start, end) = read_range(data.len(), ptr, len).unwrap();
                answer = data[start..end].to_vec();
                Event::Answered(answer.clone())
            }
            (Action::Accept(transaction), _) => Event::Accepted(transaction_of(&transaction)),
            (other, _) => panic!("{:?}", other),
        };
        action = execution.step(event);
    }
}

/// A program whose answer is the request itself.
const ECHO: &[u8] = b"\0asm\x01\0\0\0\
\x01\x0c\x02\x60\x01\x7f\x01\x7f\x60\x02\x7f\x7f\x01\x7e\
\x03\x03\x02\x00\x01\
\x05\x03\x01\x00\x01\
\x07\x21\x03\x06memory\x02\x00\x0bguest_alloc\x00\x00\x06attest\x00\x01\
\x0a\x13\x02\x04\x00\x41\x10\x0b\
\x0c\x00\x20\x00\xad\x42\x20\x86\x20\x01\xad\x84\x0b";

/// A program that accepts a request if its query finds rows and if it was not called before.
const ASKING: &str = r#"(module
  (import "env" "host_sql_query"
    (func $query (param i32 i32 i32 i32 i32 i32) (result i64)))
  (memory (export "memory") 1)
  (global $top (mut i32) (i32.const 4096))
  (global $calls (mut i32) (i32.const 0))
  (data (i32.const 0) "balances")
  (data (i32.const 64) "SELECT balance FROM accounts WHERE did = 'did:alice'")
  (data (i32.const 192) "[]")
  (data (i32.const 512)
    "{\"status\":\"valid\",\"transaction\":{\"seq\":3,\"amount\":2.5,\"timestamp\":4}}")
  (data (i32.const 1024) "{\"status\":\"invalid\",\"reason\":\"nobody\"}")
  (func (export "guest_alloc") (param $len i32) (result i32)
    (global.get $top)
    (global.set $top (i32.add (global.get $top) (local.get $len))))
  (func (export "attest") (param i32 i32) (result i64)
    (local $rows i64)
    (global.set $calls (i32.add (global.get $calls) (i32.const 1)))
    (if (i32.gt_u (global.get $calls) (i32.const 1)) (then (unreachable)))
    (local.set $rows (call $query
      (i32.const 0) (i32.const 8)
      (i32.const 64) (i32.const 52)
      (i32.const 192) (i32.const 2)))
    (if (result i64)
      (i64.gt_u (i64.and (local.get $rows) (i64.const 0xffffffff)) (i64.const 2))
      (then (i64.or (i64.shl (i64.const 512) (i64.const 32)) (i64.const 69)))
      (else (i64.or (i64.shl (i64.const 1024) (i64.const 32)) (i64.const 38))))))"#;

/// A program compiled for an engine that reserves no more memory than is used.
fn compiled(code: &[u8]) -> std::result::Result<Module, String> {
    let mut config = Config::new();
    config.static_memory_maximum_size(0);
    config.dynamic_memory_reserved_for_growth(0);
    config.memory_guard_size(0);
    let engine = Engine::new(&config).unwrap();
    Module::new(&engine, code).map_err(|e| e.to_string())
}

#[test]
fn a_program_is_handed_the_request() {
    let mut registry = WasmProgramRegistry::new();
    registry.register_wasm("Qm_transfer".into(), ECHO).unwrap();
    registry.register_compiled("Qm_transfer".into(), compiled(ECHO)).unwrap();
    let req = request(full_args(), "r");
    let (_, answer, result) = run_program(registry, &req);
    assert_eq!(answer, request_bytes(&req));
    let e = result.unwrap_err();
    assert!(matches!(e, CraftSecError::ProgramError(ref m) if m == "invalid result status"));
}

#[test]
fn a_program_answers_for_itself() {
    let mut registry = WasmProgramRegistry::new();
    registry.register_wasm("Qm_transfer".into(), ASKING.as_bytes()).unwrap();
    registry.register_compiled("Qm_transfer".into(), compiled(ASKING.as_bytes())).unwrap();
    registry.register_wasm("Qm_bare".into(), b"\0asm\x01\0\0\0").unwrap();
    let req = request(full_args(), "r");
    let (mut registry, _, result) = run_program(registry, &req);
    assert!(matches!(result, Ok(AttestationResult::Invalid(ref r)) if r == "nobody"));
    registry
        .setup_database(
            "balances",
            "CREATE TABLE accounts (did TEXT PRIMARY KEY, balance REAL);
             INSERT INTO accounts VALUES ('did:alice', 1.0)",
        )
        .unwrap();
    // Nothing is kept from one call to the next.
    let (registry, _, result) = run_program(registry, &req);
    assert!(matches!(result, Ok(AttestationResult::Valid(ref tx)) if tx.seq == 3));
    let (registry, _, result) = run_program(registry, &req);
    assert!(matches!(result, Ok(AttestationResult::Valid(ref tx)) if tx.timestamp == 4));
    let mut bare = request(full_args(), "r");
    bare.program_cid = "Qm_bare".into();
    let (_, _, result) = run_program(registry, &bare);
    let e = result.unwrap_err();
    assert!(matches!(e, CraftSecError::ProgramError(ref m) if m == "no guest_alloc export"));
}
