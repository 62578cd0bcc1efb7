//! Program executors: the registry of validators and the transfer validator.

use crate::error::{CraftSecError, Result};
use crate::float;
use crate::float::Float;
use crate::model::{AttestationRequest, AttestationResult, Transaction};
use crate::text::joined;
use vstd::arithmetic::power2::*;
use vstd::hash_map::StringHashMap;
use vstd::prelude::*;
use vstd::string::*;

verus! {

/// A backend that executes programs.
pub trait ProgramExecutor {
    /// What the program that a request names says of the request.
    fn execute(&self, request: &AttestationRequest) -> Result<AttestationResult>;
}

/// A validator of any kind.
pub type ValidatorFn = Box<dyn Fn(&AttestationRequest) -> Result<AttestationResult> + Send + Sync>;

/// The validator can be asked about every request.
pub open spec fn accepts_requests<F: Fn(&AttestationRequest) -> Result<AttestationResult>>(
    f: F,
) -> bool {
    forall|request: &AttestationRequest| #[trigger] call_requires(f, (request,))
}

/// A registry of validators by the content ids of their programs.
#[verifier::reject_recursive_types(F)]
pub struct ProgramRegistry<
    F: Fn(&AttestationRequest) -> Result<AttestationResult> = ValidatorFn,
> {
    programs: StringHashMap<F>,
}

impl<F: Fn(&AttestationRequest) -> Result<AttestationResult>> ProgramRegistry<F> {
    /// The validators.
    pub closed spec fn programs(self) -> Map<Seq<char>, F> {
        self.programs@
    }

    /// Every validator can be asked about every request.
    #[verifier::type_invariant]
    pub closed spec fn valid(self) -> bool {
        forall|cid: Seq<char>|
            self.programs@.dom().contains(cid) ==> accepts_requests(
                #[trigger] self.programs@[cid],
            )
    }

    /// The empty registry.
    pub fn new() -> (r: ProgramRegistry<F>)
        ensures
            r.programs() == Map::<Seq<char>, F>::empty(),
    {
        ProgramRegistry { programs: StringHashMap::new() }
    }

    /// Registers the validator of a program.
    pub fn register(&mut self, cid: String, validator: F)
        requires
            accepts_requests(validator),
        ensures
            final(self).programs() == old(self).programs().insert(cid@, validator),
    {
        proof {
            use_type_invariant(&*self);
        }
        let mut programs: StringHashMap<F> = StringHashMap::new();
        std::mem::swap(&mut programs, &mut self.programs);
        programs.insert(cid, validator);
        self.programs = programs;
    }

    /// Executes the program that a request names.
    pub fn execute(&self, request: &AttestationRequest) -> (r: Result<AttestationResult>)
        ensures
            self.programs().dom().contains(request.program_cid@) ==> call_ensures(
                self.programs()[request.program_cid@],
                (request,),
                r,
            ),
            !self.programs().dom().contains(request.program_cid@) ==> (r matches Err(e)
                && e matches CraftSecError::ProgramError(m) && m@ == "unknown program CID: "@
                + request.program_cid@),
    {
        proof {
            use_type_invariant(self);
        }
        match self.programs.get(request.program_cid.as_str()) {
            Some(validator) => validator(request),
            None => Err(
                CraftSecError::ProgramError(
                    joined("unknown program CID: ", request.program_cid.as_str()),
                ),
            ),
        }
    }
}

impl<F: Fn(&AttestationRequest) -> Result<AttestationResult>> Default for ProgramRegistry<F> {
    fn default() -> (r: ProgramRegistry<F>)
        ensures
            r.programs() == Map::<Seq<char>, F>::empty(),
    {
        ProgramRegistry::new()
    }
}

impl<F: Fn(&AttestationRequest) -> Result<AttestationResult>> ProgramExecutor for ProgramRegistry<
    F,
> {
    fn execute(&self, request: &AttestationRequest) -> (r: Result<AttestationResult>)
        ensures
            self.programs().dom().contains(request.program_cid@) ==> call_ensures(
                self.programs()[request.program_cid@],
                (request,),
                r,
            ),
            !self.programs().dom().contains(request.program_cid@) ==> (r matches Err(e)
                && e matches CraftSecError::ProgramError(m) && m@ == "unknown program CID: "@
                + request.program_cid@),
    {
        ProgramRegistry::execute(self, request)
    }
}

/// The bits of the floating-point number 1000, the balance of accounts that tell none.
pub const DEFAULT_BALANCE: u64 = 0x408f_4000_0000_0000;

/// The default balance is 1000.
pub proof fn lemma_default_balance()
    ensures
        float::is_finite(DEFAULT_BALANCE),
        float::bits_value(DEFAULT_BALANCE) == 1000 * pow2(1075),
{
    lemma_pow2_adds(43, 1032);
    lemma2_to64();
    assert(pow2(43) == 0x800_0000_0000) by {
        lemma2_to64_rest();
    }
    let p = pow2(1032) as int;
    assert((0x10_0000_0000_0000 + 0xf_4000_0000_0000int) * p == 1000 * (0x800_0000_0000int * p))
        by (nonlinear_arith);
}

/// What a field says, or a default.
pub open spec fn or_text(field: Option<Seq<char>>, default: Seq<char>) -> Seq<char> {
    match field {
        Some(s) => s,
        None => default,
    }
}

/// What a field says, or a default.
pub open spec fn or_number(field: Option<u64>, default: u64) -> u64 {
    match field {
        Some(n) => n,
        None => default,
    }
}

/// The transaction that a valid transfer request makes.
pub open spec fn is_transfer(
    tx: Transaction,
    request: AttestationRequest,
    recipient: Seq<char>,
    amount: u64,
) -> bool {
    let args = request.args@;
    &&& tx.seq == or_number(args.unsigned_field("seq"@), 1)
    &&& tx.prev_hash@ == or_text(args.string_field("prev_hash"@), "0000"@)
    &&& tx.sender@ == request.requester@
    &&& tx.recipient@ == recipient
    &&& tx.amount.bits() == amount
    &&& tx.asset@ == or_text(args.string_field("asset"@), "USDC"@)
    &&& tx.timestamp == or_number(args.unsigned_field("timestamp"@), 0)
    &&& tx.program_cid@ == request.program_cid@
    &&& tx.user_sig@ == or_text(args.string_field("user_sig"@), "placeholder"@)
}

/// What the transfer validator says of a request: the recipient and the amount must be given, the
/// amount must be positive and within the balance.
pub open spec fn is_transfer_verdict(
    request: AttestationRequest,
    r: Result<AttestationResult>,
) -> bool {
    let args = request.args@;
    let balance = or_number(args.float_field("balance"@), DEFAULT_BALANCE);
    match (args.string_field("recipient"@), args.float_field("amount"@)) {
        (None, _) => r matches Err(CraftSecError::ProgramError(m)) && m@ == "missing recipient"@,
        (Some(_), None) => r matches Err(CraftSecError::ProgramError(m)) && m@
            == "missing amount"@,
        (Some(recipient), Some(amount)) => if float::bits_value(amount) <= 0 {
            r matches Ok(AttestationResult::Invalid(m)) && m@ == "amount must be positive"@
        } else if float::bits_value(amount) > float::bits_value(balance) {
            r matches Ok(AttestationResult::Invalid(m)) && m@ == "insufficient balance"@
        } else {
            r matches Ok(AttestationResult::Valid(tx)) && is_transfer(
                tx,
                request,
                recipient,
                amount,
            )
        },
    }
}

fn text_or(field: Option<&str>, default: &str) -> (r: String)
    ensures
        r@ == (match field {
            Some(s) => s@,
            None => default@,
        }),
{
    match field {
        Some(s) => s.to_owned(),
        None => default.to_owned(),
    }
}

fn number_or(field: Option<u64>, default: u64) -> (r: u64)
    ensures
        r == or_number(field, default),
{
    match field {
        Some(n) => n,
        None => default,
    }
}

/// Validates a transfer.
pub fn transfer_validator(request: &AttestationRequest) -> (r: Result<AttestationResult>)
    ensures
        is_transfer_verdict(*request, r),
        r matches Ok(AttestationResult::Valid(tx)) ==> 0 < tx.amount.value() && tx.amount.value()
            <= (match request.args@.float_field("balance"@) {
            Some(balance) => float::bits_value(balance),
            None => 1000int * pow2(1075),
        }),
{
    proof {
        lemma_default_balance();
    }
    let args = &request.args;
    let recipient = match args.string_field("recipient") {
        Some(s) => s,
        None => {
            return Err(CraftSecError::ProgramError("missing recipient".to_owned()));
        },
    };
    let amount = match args.float_field("amount") {
        Some(f) => f,
        None => {
            return Err(CraftSecError::ProgramError("missing amount".to_owned()));
        },
    };
    if amount.not_positive() {
        return Ok(AttestationResult::Invalid("amount must be positive".to_owned()));
    }
    let balance = match args.float_field("balance") {
        Some(f) => f,
        None => Float::from_bits(DEFAULT_BALANCE).unwrap(),
    };
    if !amount.at_most(&balance) {
        return Ok(AttestationResult::Invalid("insufficient balance".to_owned()));
    }
    Ok(
        AttestationResult::Valid(
            Transaction {
                seq: number_or(args.unsigned_field("seq"), 1),
                prev_hash: text_or(args.string_field("prev_hash"), "0000"),
                sender: request.requester.clone(),
                recipient: recipient.to_owned(),
                amount,
                asset: text_or(args.string_field("asset"), "USDC"),
                timestamp: number_or(args.unsigned_field("timestamp"), 0),
                program_cid: request.program_cid.clone(),
                user_sig: text_or(args.string_field("user_sig"), "placeholder"),
            },
        ),
    )
}

/// Every accepted transfer is covered and is the one that was asked for: the amount is positive and
/// within the balance that the request tells, or within 1000 if it tells none, and what the
/// transaction says is what the request says.
pub proof fn law_accepted_transfers_covered(request: AttestationRequest, tx: Transaction)
    requires
        is_transfer_verdict(request, Ok(AttestationResult::Valid(tx))),
    ensures
        0 < tx.amount.value(),
        request.args@.float_field("balance"@) matches Some(balance) ==> tx.amount.value()
            <= float::bits_value(balance),
        request.args@.float_field("balance"@) is None ==> tx.amount.value() <= 1000 * pow2(1075),
        request.args@.float_field("amount"@) == Some(tx.amount.bits()),
        request.args@.string_field("recipient"@) == Some(tx.recipient@),
        tx.sender@ == request.requester@,
        tx.program_cid@ == request.program_cid@,
        request.args@.unsigned_field("seq"@) matches Some(seq) ==> tx.seq == seq,
        request.args@.unsigned_field("seq"@) is None ==> tx.seq == 1,
        request.args@.unsigned_field("timestamp"@) matches Some(timestamp) ==> tx.timestamp
            == timestamp,
        request.args@.unsigned_field("timestamp"@) is None ==> tx.timestamp == 0,
        request.args@.string_field("prev_hash"@) matches Some(hash) ==> tx.prev_hash@ == hash,
        request.args@.string_field("prev_hash"@) is None ==> tx.prev_hash@ == "0000"@,
        request.args@.string_field("asset"@) matches Some(asset) ==> tx.asset@ == asset,
        request.args@.string_field("asset"@) is None ==> tx.asset@ == "USDC"@,
        request.args@.string_field("user_sig"@) matches Some(sig) ==> tx.user_sig@ == sig,
        request.args@.string_field("user_sig"@) is None ==> tx.user_sig@ == "placeholder"@,
{
    lemma_default_balance();
}

/// Which transfers are accepted: those whose recipient and amount are given and whose amount is
/// positive and covered. Of the others those without a recipient or an amount fail, and the rest
/// are rejected.
pub proof fn law_covered_transfers_accepted(
    request: AttestationRequest,
    r: Result<AttestationResult>,
)
    requires
        is_transfer_verdict(request, r),
    ensures
        r is Err <==> request.args@.string_field("recipient"@) is None
            || request.args@.float_field("amount"@) is None,
        (r matches Ok(AttestationResult::Valid(_))) <==> request.args@.string_field("recipient"@)
            is Some && (request.args@.float_field("amount"@) matches Some(amount) && 0
            < float::bits_value(amount) && float::bits_value(amount) <= (
        match request.args@.float_field("balance"@) {
            Some(balance) => float::bits_value(balance),
            None => 1000int * pow2(1075),
        })),
{
    lemma_default_balance();
}

} // verus!
