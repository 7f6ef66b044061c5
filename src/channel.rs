//! The channel type script: classifies what a transaction does to the channel cell and
//! checks it against the rules.
use vstd::prelude::*;
use crate::balances::{ck_get, equal_in_sum, fully_represented, locked_ckbytes, lemma_find_asset_range, lemma_locked_bound, sudt_get, tokens_paid};
use crate::bytes::read_le;
use crate::codec::{parse_constants, parse_status, parse_witness, write_params, write_state, constants_at, status_at, witness_at};
use crate::crypto::{blake2b256, blake2b_256, verify_signature};
use crate::error::Error;
use crate::model::{Script, ScriptModel, ChannelToken, ChannelParameters, ChannelConstants, ConstantsModel, Balances, BalancesModel, ChannelState, ChannelStatus, ChannelWitness, wf_params, wf_state, wf_constants, wf_status, ser_params};
use crate::rules::{thread_token_outcome, channel_id_outcome, lock_script_outcome, different_payment_outcome, no_funds_outcome, start_state_outcome, funded_status_outcome, not_disputed_outcome, disputed_outcome, funded_outcome, not_funded_outcome, equal_id_outcome, version_outcome, sum_outcome, not_final_outcome, final_outcome, progression_outcome, continues_outcome, equal_state_outcome, state_digest, sigs_outcome, max_timestamp, time_lock_outcome, sudt_amount_of, pfls_lock, fund_step, fund_scan, funding_outcome, pay_step, pay_scan, payout_outcome, start_outcome, progress_outcome, close_outcome, decodes_constants, decoded_constants, decodes_status, decoded_status, decodes_witness, decoded_witness};
use crate::tx::{Transaction, TxModel, OutputCell, OutputModel, bytes_eq, script_eq, out_point_eq};

verus! {

/// Whether two states are the same.
pub fn state_eq(a: &ChannelState, b: &ChannelState) -> (r: bool)
    ensures
        r == (a@ == b@),
{
    bytes_eq(a.channel_id.as_slice(), b.channel_id.as_slice()) && a.version == b.version
        && a.balances.equal(&b.balances) && a.is_final == b.is_final
}

/// The thread token's out point is consumed by some input.
pub fn verify_thread_token_integrity(thread_token: &ChannelToken, tx: &Transaction) -> (r: Result<
    (),
    Error,
>)
    ensures
        r == thread_token_outcome(thread_token@, tx@),
{
    let mut i: usize = 0;
    while i < tx.inputs.len()
        invariant
            i <= tx.inputs@.len(),
            forall|j: int|
                0 <= j < i ==> #[trigger] tx@.inputs[j].previous_output != thread_token@,
        decreases tx.inputs@.len() - i,
    {
        assert(tx@.inputs[i as int] == tx.inputs@[i as int]@);
        if out_point_eq(&tx.inputs[i].previous_output, &thread_token.out_point) {
            assert(tx@.inputs[i as int].previous_output == thread_token@);
            return Ok(());
        }
        i = i + 1;
    }
    Err(Error::InvalidThreadToken)
}

/// The channel id is the hash of the channel parameters.
pub fn verify_channel_id_integrity(channel_id: &[u8], params: &ChannelParameters) -> (r: Result<
    (),
    Error,
>)
    requires
        wf_params(params@),
    ensures
        r == channel_id_outcome(channel_id@, params@),
{
    let bytes = write_params(params);
    let digest = blake2b256(bytes.as_slice());
    if !bytes_eq(digest.as_slice(), channel_id) {
        return Err(Error::InvalidChannelId);
    }
    Ok(())
}

/// The channel cell is locked by the channel lock script named in the constants, with no
/// arguments.
pub fn verify_valid_lock_script(lock_script: &Script, channel_constants: &ChannelConstants) -> (r: Result<
    (),
    Error,
>)
    ensures
        r == lock_script_outcome(lock_script@, channel_constants@),
{
    if !bytes_eq(lock_script.code_hash.as_slice(), channel_constants.pcls_code_hash.as_slice()) {
        return Err(Error::InvalidPCLSCodeHash);
    }
    if lock_script.hash_type != channel_constants.pcls_hash_type {
        return Err(Error::InvalidPCLSHashType);
    }
    if lock_script.args.len() != 0 {
        return Err(Error::PCLSWithArgs);
    }
    Ok(())
}

/// The two parties are paid to different addresses.
pub fn verify_different_payment_addresses(channel_constants: &ChannelConstants) -> (r: Result<
    (),
    Error,
>)
    ensures
        r == different_payment_outcome(channel_constants@),
{
    if bytes_eq(
        channel_constants.params.party_a.payment_script_hash.as_slice(),
        channel_constants.params.party_b.payment_script_hash.as_slice(),
    ) {
        return Err(Error::SamePaymentAddress);
    }
    Ok(())
}

/// No input is locked by the funds lock script.
pub fn verify_no_funds_in_inputs(channel_constants: &ChannelConstants, tx: &Transaction) -> (r: Result<
    (),
    Error,
>)
    ensures
        r == no_funds_outcome(channel_constants@, tx@),
{
    let mut i: usize = 0;
    while i < tx.inputs.len()
        invariant
            i <= tx.inputs@.len(),
            forall|j: int|
                0 <= j < i ==> #[trigger] tx@.inputs[j].lock.code_hash
                    != channel_constants@.pfls_code_hash,
        decreases tx.inputs@.len() - i,
    {
        assert(tx@.inputs[i as int] == tx.inputs@[i as int]@);
        if bytes_eq(
            tx.inputs[i].lock.code_hash.as_slice(),
            channel_constants.pfls_code_hash.as_slice(),
        ) {
            assert(tx@.inputs[i as int].lock.code_hash == channel_constants@.pfls_code_hash);
            return Err(Error::FundsInInputs);
        }
        i = i + 1;
    }
    Ok(())
}

/// A starting state has version 0, is not final, and gives each party nothing or at least
/// the funds lock's minimum capacity.
pub fn verify_state_valid_as_start(state: &ChannelState, pfls_min_capacity: u64) -> (r: Result<
    (),
    Error,
>)
    ensures
        r == start_state_outcome(state@, pfls_min_capacity),
{
    if state.version != 0 {
        return Err(Error::StartWithNonZeroVersion);
    }
    if state.is_final {
        return Err(Error::StartWithFinalizedState);
    }
    let balance_a = state.balances.ckbytes.nth0;
    let balance_b = state.balances.ckbytes.nth1;
    if balance_a < pfls_min_capacity && balance_a != 0 {
        return Err(Error::BalanceBelowPFLSMinCapacity);
    }
    if balance_b < pfls_min_capacity && balance_b != 0 {
        return Err(Error::BalanceBelowPFLSMinCapacity);
    }
    Ok(())
}

/// The funded bit is right: on start, set exactly when party B owes nothing; otherwise set.
pub fn verify_funded_status(status: &ChannelStatus, is_start: bool) -> (r: Result<(), Error>)
    ensures
        r == funded_status_outcome(status@, is_start),
{
    if !is_start {
        if !status.funded {
            return Err(Error::FundedBitStatusNotCorrect);
        }
        return Ok(());
    }
    if status.state.balances.ckbytes.nth1 != 0 {
        if status.funded {
            return Err(Error::FundedBitStatusNotCorrect);
        }
        return Ok(());
    }
    if status.state.balances.sudts.entries.len() != 0 {
        if status.funded {
            return Err(Error::FundedBitStatusNotCorrect);
        }
        return Ok(());
    }
    if !status.funded {
        return Err(Error::FundedBitStatusNotCorrect);
    }
    Ok(())
}

pub fn verify_status_not_disputed(status: &ChannelStatus) -> (r: Result<(), Error>)
    ensures
        r == not_disputed_outcome(status@),
{
    if status.disputed {
        return Err(Error::StatusDisputed);
    }
    Ok(())
}

pub fn verify_status_disputed(status: &ChannelStatus) -> (r: Result<(), Error>)
    ensures
        r == disputed_outcome(status@),
{
    if !status.disputed {
        return Err(Error::StatusNotDisputed);
    }
    Ok(())
}

pub fn verify_status_funded(status: &ChannelStatus) -> (r: Result<(), Error>)
    ensures
        r == funded_outcome(status@),
{
    if !status.funded {
        return Err(Error::ChannelNotFunded);
    }
    Ok(())
}

pub fn verify_status_not_funded(status: &ChannelStatus) -> (r: Result<(), Error>)
    ensures
        r == not_funded_outcome(status@),
{
    if status.funded {
        return Err(Error::StateIsFunded);
    }
    Ok(())
}

pub fn verify_equal_channel_id(old_state: &ChannelState, new_state: &ChannelState) -> (r: Result<
    (),
    Error,
>)
    ensures
        r == equal_id_outcome(old_state@, new_state@),
{
    if !bytes_eq(old_state.channel_id.as_slice(), new_state.channel_id.as_slice()) {
        return Err(Error::ChannelIdMismatch);
    }
    Ok(())
}

/// The new version is higher, or the initial state is being registered.
pub fn verify_increasing_version_number(old_status: &ChannelStatus, new_state: &ChannelState) -> (r: Result<
    (),
    Error,
>)
    ensures
        r == version_outcome(old_status@, new_state@),
{
    if !old_status.disputed && old_status.state.version == 0 && new_state.version == 0 {
        return Ok(());
    }
    if old_status.state.version < new_state.version {
        return Ok(());
    }
    Err(Error::VersionNumberNotIncreasing)
}

pub fn verify_equal_sum_of_balances(old_balances: &Balances, new_balances: &Balances) -> (r: Result<
    (),
    Error,
>)
    ensures
        r == sum_outcome(old_balances@, new_balances@),
{
    match old_balances.equal_in_sum(new_balances) {
        Ok(true) => Ok(()),
        _ => Err(Error::SumOfBalancesNotEqual),
    }
}

pub fn verify_state_not_finalized(state: &ChannelState) -> (r: Result<(), Error>)
    ensures
        r == not_final_outcome(state@),
{
    if state.is_final {
        return Err(Error::StateIsFinal);
    }
    Ok(())
}

pub fn verify_state_finalized(state: &ChannelState) -> (r: Result<(), Error>)
    ensures
        r == final_outcome(state@),
{
    if !state.is_final {
        return Err(Error::StateNotFinal);
    }
    Ok(())
}

/// A dispute's new state: same channel, higher version (or the initial registration), same
/// totals, and the old state not final.
pub fn verify_channel_state_progression(old_status: &ChannelStatus, new_state: &ChannelState) -> (r: Result<
    (),
    Error,
>)
    ensures
        r == progression_outcome(old_status@, new_state@),
{
    verify_equal_channel_id(&old_status.state, new_state)?;
    verify_increasing_version_number(old_status, new_state)?;
    verify_equal_sum_of_balances(&old_status.state.balances, &new_state.balances)?;
    verify_state_not_finalized(&old_status.state)?;
    Ok(())
}

/// The channel cell keeps its lock script.
pub fn verify_channel_continues_locked(input_lock: &Script, output_lock: &Script) -> (r: Result<
    (),
    Error,
>)
    ensures
        r == continues_outcome(input_lock@, output_lock@),
{
    if !script_eq(input_lock, output_lock) {
        return Err(Error::ChannelDoesNotContinue);
    }
    Ok(())
}

pub fn verify_equal_channel_state(old_state: &ChannelState, new_state: &ChannelState) -> (r: Result<
    (),
    Error,
>)
    ensures
        r == equal_state_outcome(old_state@, new_state@),
{
    if state_eq(old_state, new_state) {
        return Ok(());
    }
    Err(Error::ChannelStateNotEqual)
}

/// Both parties signed the state: each signature verifies on Blake2b-256 of its bytes.
pub fn verify_valid_state_sigs(
    sig_a: &[u8],
    sig_b: &[u8],
    state: &ChannelState,
    pub_key_a: &[u8],
    pub_key_b: &[u8],
) -> (r: Result<(), Error>)
    requires
        wf_state(state@),
    ensures
        r == sigs_outcome(sig_a@, sig_b@, state@, pub_key_a@, pub_key_b@),
{
    let bytes = write_state(state);
    let msg_hash = blake2b256(bytes.as_slice());
    verify_signature(msg_hash.as_slice(), sig_a, pub_key_a)?;
    verify_signature(msg_hash.as_slice(), sig_b, pub_key_b)?;
    Ok(())
}

/// The latest timestamp among the header dependencies, or 0.
pub fn find_closest_current_time(timestamps: &[u64]) -> (r: u64)
    ensures
        r == max_timestamp(timestamps@),
{
    let mut latest: u64 = 0;
    let mut i: usize = 0;
    while i < timestamps.len()
        invariant
            i <= timestamps@.len(),
            latest == max_timestamp(timestamps@.take(i as int)),
        decreases timestamps@.len() - i,
    {
        assert(timestamps@.take(i + 1).drop_last() =~= timestamps@.take(i as int));
        if timestamps[i] > latest {
            latest = timestamps[i];
        }
        i = i + 1;
    }
    assert(timestamps@.take(i as int) =~= timestamps@);
    latest
}

/// The challenge duration has passed since the channel cell was created.
pub fn verify_time_lock_expired(opened: Option<u64>, time_lock: u64, tx: &Transaction) -> (r: Result<
    (),
    Error,
>)
    ensures
        r == time_lock_outcome(opened, time_lock, tx@.header_dep_timestamps),
{
    let old_timestamp = match opened {
        Some(t) => t,
        None => {
            return Err(Error::ItemMissing);
        },
    };
    let current_time = find_closest_current_time(tx.header_dep_timestamps.as_slice());
    if old_timestamp as u128 + time_lock as u128 > current_time as u128 {
        return Err(Error::TimeLockNotExpired);
    }
    Ok(())
}

/// `x`, capped at the largest `u128`.
pub open spec fn saturated(x: int) -> int {
    if x > u128::MAX {
        u128::MAX as int
    } else {
        x
    }
}

/// `a + b`, capped at the largest `u128`.
pub fn saturating_add(a: u128, b: u128) -> (r: u128)
    ensures
        r == saturated(a + b),
{
    if u128::MAX - a < b {
        u128::MAX
    } else {
        a + b
    }
}

pub proof fn lemma_fund_scan_bounds(outs: Seq<OutputModel>, c: ConstantsModel, h: Seq<u8>, b: BalancesModel)
    ensures
        fund_scan(outs, c, h, b).tokens.len() == b.sudts.len(),
        forall|k: int|
            0 <= k < b.sudts.len() ==> #[trigger] fund_scan(outs, c, h, b).tokens[k] >= 0,
        0 <= fund_scan(outs, c, h, b).capacity <= outs.len() * 0xffff_ffff_ffff_ffff,
    decreases outs.len(),
{
    if outs.len() > 0 {
        lemma_fund_scan_bounds(outs.drop_last(), c, h, b);
        lemma_find_asset_range(b.sudts, outs.last().type_script->0);
    }
}

pub proof fn lemma_pay_scan_bounds(outs: Seq<OutputModel>, ha: Seq<u8>, hb: Seq<u8>, b: BalancesModel)
    ensures
        pay_scan(outs, ha, hb, b).tokens_a.len() == b.sudts.len(),
        pay_scan(outs, ha, hb, b).tokens_b.len() == b.sudts.len(),
        forall|k: int|
            0 <= k < b.sudts.len() ==> #[trigger] pay_scan(outs, ha, hb, b).tokens_a[k] >= 0,
        forall|k: int|
            0 <= k < b.sudts.len() ==> #[trigger] pay_scan(outs, ha, hb, b).tokens_b[k] >= 0,
        0 <= pay_scan(outs, ha, hb, b).cap_a <= outs.len() * 0xffff_ffff_ffff_ffff,
        0 <= pay_scan(outs, ha, hb, b).cap_b <= outs.len() * 0xffff_ffff_ffff_ffff,
    decreases outs.len(),
{
    if outs.len() > 0 {
        lemma_pay_scan_bounds(outs.drop_last(), ha, hb, b);
        lemma_find_asset_range(b.sudts, outs.last().type_script->0);
    }
}

/// The token index and amount that output `output` (with type script `type_script`) carries.
pub fn get_sudt_amout(balances: &Balances, output: &OutputCell, type_script: &Script) -> (r: Result<
    (usize, u128),
    Error,
>)
    ensures
        match sudt_amount_of(balances@, output@, type_script@) {
            Ok(ka) => r is Ok && r->Ok_0.0 == ka.0 && r->Ok_0.1 == ka.1,
            Err(e) => r == Err::<(usize, u128), Error>(e),
        },
{
    let (sudt_idx, _) = balances.sudts.get_distribution(type_script)?;
    if output.data.len() < 16 {
        return Err(Error::InvalidSUDTDataLength);
    }
    let amount = read_le(output.data.as_slice(), 0, 16);
    Ok((sudt_idx, amount))
}

pub proof fn lemma_fund_err_persists(
    outs: Seq<OutputModel>,
    c: ConstantsModel,
    h: Seq<u8>,
    b: BalancesModel,
    j: int,
    k: int,
)
    requires
        0 <= j <= k <= outs.len(),
        fund_scan(outs.take(j), c, h, b).err is Some,
    ensures
        fund_scan(outs.take(k), c, h, b).err == fund_scan(outs.take(j), c, h, b).err,
        k == outs.len() ==> fund_scan(outs, c, h, b).err == fund_scan(outs.take(j), c, h, b).err,
    decreases k - j,
{
    if j < k {
        lemma_fund_err_persists(outs, c, h, b, j, k - 1);
        assert(outs.take(k).drop_last() =~= outs.take(k - 1));
    }
    if k == outs.len() {
        assert(outs.take(k) =~= outs);
    }
}

pub proof fn lemma_pay_err_persists(
    outs: Seq<OutputModel>,
    ha: Seq<u8>,
    hb: Seq<u8>,
    b: BalancesModel,
    j: int,
    k: int,
)
    requires
        0 <= j <= k <= outs.len(),
        pay_scan(outs.take(j), ha, hb, b).err is Some,
    ensures
        pay_scan(outs.take(k), ha, hb, b).err == pay_scan(outs.take(j), ha, hb, b).err,
        k == outs.len() ==> pay_scan(outs, ha, hb, b).err == pay_scan(outs.take(j), ha, hb, b).err,
    decreases k - j,
{
    if j < k {
        lemma_pay_err_persists(outs, ha, hb, b, j, k - 1);
        assert(outs.take(k).drop_last() =~= outs.take(k - 1));
    }
    if k == outs.len() {
        assert(outs.take(k) =~= outs);
    }
}

/// Party `idx` locks exactly its native share plus the token cells' capacity to this
/// channel's funds lock, and at least its amount of every token.
pub fn verify_funding_in_outputs(
    idx: usize,
    initial_balance: &Balances,
    channel_constants: &ChannelConstants,
    script_hash: &[u8],
    tx: &Transaction,
) -> (r: Result<(), Error>)
    ensures
        r == funding_outcome(
            idx as int,
            initial_balance@,
            channel_constants@,
            script_hash@,
            tx@.outputs,
        ),
{
    let ghost b = initial_balance@;
    let ghost c = channel_constants@;
    let ghost outs = tx@.outputs;
    let n = initial_balance.sudts.entries.len();
    let locked = initial_balance.sudts.get_locked_ckbytes();
    let own = initial_balance.ckbytes.get(idx)?;
    proof {
        assert(b.sudts.len() == n);
        lemma_locked_bound(b.sudts);
        assert(b.sudts.len() * 0xffff_ffff_ffff_ffff <= 0xffff_ffff_ffff_ffff * 0xffff_ffff_ffff_ffff)
            by (nonlinear_arith)
            requires
                b.sudts.len() <= 0xffff_ffff_ffff_ffff,
        ;
    }
    let to_fund: u128 = own as u128 + locked;
    if to_fund == 0 {
        return Ok(());
    }
    let mut tokens: Vec<u128> = Vec::new();
    while tokens.len() < n
        invariant
            tokens@.len() <= n,
            forall|k: int| 0 <= k < tokens@.len() ==> #[trigger] tokens@[k] == 0,
        decreases n - tokens@.len(),
    {
        tokens.push(0);
    }
    let mut capacity: u128 = 0;
    let mut j: usize = 0;
    proof {
        assert(outs.take(0) =~= Seq::<OutputModel>::empty());
    }
    while j < tx.outputs.len()
        invariant
            b == initial_balance@,
            c == channel_constants@,
            outs == tx@.outputs,
            outs.len() == tx.outputs@.len(),
            n == b.sudts.len(),
            idx < 2,
            to_fund == ck_get(b.ckbytes, idx as int) + locked_ckbytes(b.sudts),
            to_fund != 0,
            j <= outs.len(),
            fund_scan(outs.take(j as int), c, script_hash@, b).err is None,
            capacity == fund_scan(outs.take(j as int), c, script_hash@, b).capacity,
            tokens@.len() == n,
            forall|k: int|
                0 <= k < n ==> #[trigger] tokens@[k] == saturated(
                    fund_scan(outs.take(j as int), c, script_hash@, b).tokens[k],
                ),
        decreases outs.len() - j,
    {
        let ghost prev = fund_scan(outs.take(j as int), c, script_hash@, b);
        proof {
            assert(outs.take(j + 1).drop_last() =~= outs.take(j as int));
            assert(outs.take(j + 1).last() == outs[j as int]);
            assert(fund_scan(outs.take(j + 1), c, script_hash@, b) == fund_step(
                prev,
                outs[j as int],
                c,
                script_hash@,
                b,
            ));
            assert(outs[j as int] == tx.outputs@[j as int]@);
            lemma_fund_scan_bounds(outs.take(j as int), c, script_hash@, b);
            assert(j * 0xffff_ffff_ffff_ffff <= 0xffff_ffff_ffff_ffff * 0xffff_ffff_ffff_ffff)
                by (nonlinear_arith)
                requires
                    j <= 0xffff_ffff_ffff_ffff,
            ;
        }
        let output = &tx.outputs[j];
        if bytes_eq(
            output.lock.code_hash.as_slice(),
            channel_constants.pfls_code_hash.as_slice(),
        ) && output.lock.hash_type == channel_constants.pfls_hash_type {
            if !bytes_eq(output.lock.args.as_slice(), script_hash) {
                proof {
                    lemma_fund_err_persists(outs, c, script_hash@, b, j + 1, outs.len() as int);
                }
                return Err(Error::InvalidPFLSInOutputs);
            }
            match &output.type_script {
                None => {
                    capacity = capacity + output.capacity as u128;
                },
                Some(t) => {
                    let (k, amount) = match get_sudt_amout(initial_balance, output, t) {
                        Ok(x) => x,
                        Err(e) => {
                            proof {
                                lemma_fund_err_persists(
                                    outs,
                                    c,
                                    script_hash@,
                                    b,
                                    j + 1,
                                    outs.len() as int,
                                );
                            }
                            return Err(e);
                        },
                    };
                    proof {
                        lemma_find_asset_range(b.sudts, t@);
                    }
                    capacity = capacity + output.capacity as u128;
                    let cur = tokens[k];
                    tokens.set(k, saturating_add(cur, amount));
                },
            }
        }
        j = j + 1;
        proof {
            let next = fund_scan(outs.take(j as int), c, script_hash@, b);
            assert forall|k: int| 0 <= k < n implies #[trigger] tokens@[k] == saturated(
                next.tokens[k],
            ) by {}
        }
    }
    proof {
        assert(outs.take(j as int) =~= outs);
    }
    if capacity != to_fund {
        return Err(Error::OwnFundingNotInOutputs);
    }
    let full = initial_balance.sudts.fully_represented(idx, tokens.as_slice());
    proof {
        let s = fund_scan(outs, c, script_hash@, b);
        lemma_fund_scan_bounds(outs, c, script_hash@, b);
        let m = tokens@.map_values(|v: u128| v as int);
        assert(fully_represented(b.sudts, idx as int, m) == fully_represented(
            b.sudts,
            idx as int,
            s.tokens,
        )) by {
            assert forall|k: int| 0 <= k < b.sudts.len() implies (m[k] >= crate::balances::sudt_get(
                #[trigger] b.sudts[k].distribution,
                idx as int,
            )) == (s.tokens[k] >= crate::balances::sudt_get(b.sudts[k].distribution, idx as int)) by {
                assert(m[k] == tokens@[k]);
            }
        }
    }
    match full {
        Ok(true) => Ok(()),
        _ => Err(Error::OwnFundingNotInOutputs),
    }
}

/// Every party is paid what `final_balance` (plus the channel cell's capacity for party A,
/// plus the token cells' capacity) says, except native amounts below its minimum payment.
pub fn verify_all_payed(
    final_balance: &Balances,
    channel_capacity: u64,
    channel_constants: &ChannelConstants,
    tx: &Transaction,
    is_abort: bool,
) -> (r: Result<(), Error>)
    ensures
        r == payout_outcome(final_balance@, channel_capacity, channel_constants@, tx@.outputs, is_abort),
{
    let ghost b = final_balance@;
    let ghost c = channel_constants@;
    let ghost outs = tx@.outputs;
    let ghost ha = c.params.party_a.payment_script_hash;
    let ghost hb = c.params.party_b.payment_script_hash;
    let n = final_balance.sudts.entries.len();
    let minimum_payment_a = channel_constants.params.party_a.payment_min_capacity;
    let minimum_payment_b = channel_constants.params.party_b.payment_min_capacity;
    let reimburse_a = final_balance.sudts.get_locked_ckbytes();
    let reimburse_b: u128 = if is_abort {
        0
    } else {
        reimburse_a
    };
    proof {
        assert(b.sudts.len() == n);
        lemma_locked_bound(b.sudts);
        assert(b.sudts.len() * 0xffff_ffff_ffff_ffff <= 0xffff_ffff_ffff_ffff * 0xffff_ffff_ffff_ffff)
            by (nonlinear_arith)
            requires
                b.sudts.len() <= 0xffff_ffff_ffff_ffff,
        ;
    }
    let ckbytes_balance_a: u128 = final_balance.ckbytes.nth0 as u128 + channel_capacity as u128
        + reimburse_a;
    let ckbytes_balance_b: u128 = final_balance.ckbytes.nth1 as u128 + reimburse_b;
    let hash_a = channel_constants.params.party_a.payment_script_hash.as_slice();
    let hash_b = channel_constants.params.party_b.payment_script_hash.as_slice();
    let mut udt_a: Vec<u128> = Vec::new();
    let mut udt_b: Vec<u128> = Vec::new();
    while udt_a.len() < n
        invariant
            udt_a@.len() == udt_b@.len(),
            udt_a@.len() <= n,
            forall|k: int| 0 <= k < udt_a@.len() ==> #[trigger] udt_a@[k] == 0,
            forall|k: int| 0 <= k < udt_b@.len() ==> #[trigger] udt_b@[k] == 0,
        decreases n - udt_a@.len(),
    {
        udt_a.push(0);
        udt_b.push(0);
    }
    let mut cap_a: u128 = 0;
    let mut cap_b: u128 = 0;
    let mut j: usize = 0;
    proof {
        assert(outs.take(0) =~= Seq::<OutputModel>::empty());
    }
    while j < tx.outputs.len()
        invariant
            b == final_balance@,
            c == channel_constants@,
            outs == tx@.outputs,
            ha == hash_a@,
            hb == hash_b@,
            ha == c.params.party_a.payment_script_hash,
            hb == c.params.party_b.payment_script_hash,
            outs.len() == tx.outputs@.len(),
            n == b.sudts.len(),
            j <= outs.len(),
            pay_scan(outs.take(j as int), ha, hb, b).err is None,
            cap_a == pay_scan(outs.take(j as int), ha, hb, b).cap_a,
            cap_b == pay_scan(outs.take(j as int), ha, hb, b).cap_b,
            udt_a@.len() == n,
            udt_b@.len() == n,
            forall|k: int|
                0 <= k < n ==> #[trigger] udt_a@[k] == saturated(
                    pay_scan(outs.take(j as int), ha, hb, b).tokens_a[k],
                ),
            forall|k: int|
                0 <= k < n ==> #[trigger] udt_b@[k] == saturated(
                    pay_scan(outs.take(j as int), ha, hb, b).tokens_b[k],
                ),
        decreases outs.len() - j,
    {
        proof {
            assert(outs.take(j + 1).drop_last() =~= outs.take(j as int));
            assert(outs.take(j + 1).last() == outs[j as int]);
            assert(pay_scan(outs.take(j + 1), ha, hb, b) == pay_step(
                pay_scan(outs.take(j as int), ha, hb, b),
                outs[j as int],
                ha,
                hb,
                b,
            ));
            assert(outs[j as int] == tx.outputs@[j as int]@);
            lemma_pay_scan_bounds(outs.take(j as int), ha, hb, b);
            assert(j * 0xffff_ffff_ffff_ffff <= 0xffff_ffff_ffff_ffff * 0xffff_ffff_ffff_ffff)
                by (nonlinear_arith)
                requires
                    j <= 0xffff_ffff_ffff_ffff,
            ;
        }
        let output = &tx.outputs[j];
        let to_a = bytes_eq(output.lock_hash.as_slice(), hash_a);
        let to_b = bytes_eq(output.lock_hash.as_slice(), hash_b);
        if to_a || to_b {
            match &output.type_script {
                None => {},
                Some(t) => {
                    let (k, amount) = match get_sudt_amout(final_balance, output, t) {
                        Ok(x) => x,
                        Err(e) => {
                            proof {
                                let prev = pay_scan(outs.take(j as int), ha, hb, b);
                                assert(prev.err is None);
                                assert(outs[j as int].lock_hash == ha || outs[j as int].lock_hash
                                    == hb);
                                assert(outs[j as int].type_script == Some(t@));
                                assert(sudt_amount_of(b, outs[j as int], t@) == Err::<
                                    (int, int),
                                    Error,
                                >(e));
                                assert(pay_scan(outs.take(j + 1), ha, hb, b).err == Some(e));
                                lemma_pay_err_persists(outs, ha, hb, b, j + 1, outs.len() as int);
                                assert(pay_scan(outs, ha, hb, b).err == Some(e));
                                assert(payout_outcome(b, channel_capacity, c, outs, is_abort) == Err::<
                                    (),
                                    Error,
                                >(e));
                            }
                            return Err(e);
                        },
                    };
                    proof {
                        lemma_find_asset_range(b.sudts, t@);
                    }
                    if to_a {
                        let cur = udt_a[k];
                        udt_a.set(k, saturating_add(cur, amount));
                    }
                    if to_b {
                        let cur = udt_b[k];
                        udt_b.set(k, saturating_add(cur, amount));
                    }
                },
            }
            if to_a {
                cap_a = cap_a + output.capacity as u128;
            }
            if to_b {
                cap_b = cap_b + output.capacity as u128;
            }
        }
        j = j + 1;
        proof {
            let next = pay_scan(outs.take(j as int), ha, hb, b);
            assert forall|k: int| 0 <= k < n implies #[trigger] udt_a@[k] == saturated(
                next.tokens_a[k],
            ) by {}
            assert forall|k: int| 0 <= k < n implies #[trigger] udt_b@[k] == saturated(
                next.tokens_b[k],
            ) by {}
        }
    }
    proof {
        assert(outs.take(j as int) =~= outs);
    }
    if (ckbytes_balance_a > cap_a && ckbytes_balance_a >= minimum_payment_a as u128) || (
    ckbytes_balance_b > cap_b && ckbytes_balance_b >= minimum_payment_b as u128) {
        return Err(Error::NotAllPayed);
    }
    let paid_a = final_balance.sudts.paid_in_tokens(0, udt_a.as_slice(), minimum_payment_a);
    let paid_b = final_balance.sudts.paid_in_tokens(1, udt_b.as_slice(), minimum_payment_b);
    proof {
        let s = pay_scan(outs, ha, hb, b);
        lemma_pay_scan_bounds(outs, ha, hb, b);
        let ma = udt_a@.map_values(|v: u128| v as int);
        let mb = udt_b@.map_values(|v: u128| v as int);
        let min_a = c.params.party_a.payment_min_capacity;
        let min_b = c.params.party_b.payment_min_capacity;
        assert(tokens_paid(b.sudts, 0, ma, min_a) == tokens_paid(b.sudts, 0, s.tokens_a, min_a)) by {
            assert forall|k: int| 0 <= k < b.sudts.len() implies (ma[k] >= sudt_get(
                #[trigger] b.sudts[k].distribution,
                0,
            ) || sudt_get(b.sudts[k].distribution, 0) < min_a) == (s.tokens_a[k] >= sudt_get(
                b.sudts[k].distribution,
                0,
            ) || sudt_get(b.sudts[k].distribution, 0) < min_a) by {
                assert(ma[k] == udt_a@[k]);
            }
        }
        assert(tokens_paid(b.sudts, 1, mb, min_b) == tokens_paid(b.sudts, 1, s.tokens_b, min_b)) by {
            assert forall|k: int| 0 <= k < b.sudts.len() implies (mb[k] >= sudt_get(
                #[trigger] b.sudts[k].distribution,
                1,
            ) || sudt_get(b.sudts[k].distribution, 1) < min_b) == (s.tokens_b[k] >= sudt_get(
                b.sudts[k].distribution,
                1,
            ) || sudt_get(b.sudts[k].distribution, 1) < min_b) by {
                assert(mb[k] == udt_b@[k]);
            }
        }
    }
    if !paid_a || !paid_b {
        return Err(Error::NotAllPayed);
    }
    Ok(())
}

/// Checks a transaction that starts the channel: the channel cell holding `new_status` is
/// created, locked by `output_lock`.
pub fn check_valid_start(
    new_status: &ChannelStatus,
    channel_constants: &ChannelConstants,
    output_lock: &Script,
    script_hash: &[u8],
    tx: &Transaction,
) -> (r: Result<(), Error>)
    requires
        wf_constants(channel_constants@),
    ensures
        r == start_outcome(new_status@, channel_constants@, output_lock@, script_hash@, tx@),
{
    verify_thread_token_integrity(&channel_constants.thread_token, tx)?;
    verify_channel_id_integrity(new_status.state.channel_id.as_slice(), &channel_constants.params)?;
    verify_valid_lock_script(output_lock, channel_constants)?;
    verify_different_payment_addresses(channel_constants)?;
    verify_no_funds_in_inputs(channel_constants, tx)?;
    verify_state_valid_as_start(&new_status.state, channel_constants.pfls_min_capacity)?;
    verify_funding_in_outputs(0, &new_status.state.balances, channel_constants, script_hash, tx)?;
    verify_funded_status(new_status, true)?;
    verify_status_not_disputed(new_status)?;
    Ok(())
}

/// Checks a transaction that consumes the channel cell holding `old_status` and recreates it
/// holding `new_status`: a funding or a dispute, as the witness says.
pub fn check_valid_progress(
    old_status: &ChannelStatus,
    new_status: &ChannelStatus,
    witness: &ChannelWitness,
    channel_constants: &ChannelConstants,
    input_lock: &Script,
    output_lock: &Script,
    script_hash: &[u8],
    tx: &Transaction,
) -> (r: Result<(), Error>)
    requires
        wf_status(new_status@),
    ensures
        r == progress_outcome(
            old_status@,
            new_status@,
            witness@,
            channel_constants@,
            input_lock@,
            output_lock@,
            script_hash@,
            tx@,
        ),
{
    verify_equal_channel_id(&old_status.state, &new_status.state)?;
    verify_no_funds_in_inputs(channel_constants, tx)?;
    verify_channel_continues_locked(input_lock, output_lock)?;
    match witness {
        ChannelWitness::Fund => {
            verify_equal_channel_state(&old_status.state, &new_status.state)?;
            verify_increasing_version_number(old_status, &new_status.state)?;
            verify_status_not_funded(old_status)?;
            verify_funding_in_outputs(
                1,
                &old_status.state.balances,
                channel_constants,
                script_hash,
                tx,
            )?;
            verify_status_not_disputed(new_status)?;
            verify_funded_status(new_status, false)?;
            Ok(())
        },
        ChannelWitness::Dispute { sig_a, sig_b } => {
            verify_channel_state_progression(old_status, &new_status.state)?;
            verify_status_funded(old_status)?;
            verify_status_disputed(new_status)?;
            verify_funded_status(new_status, false)?;
            verify_valid_state_sigs(
                sig_a.as_slice(),
                sig_b.as_slice(),
                &new_status.state,
                channel_constants.params.party_a.pub_key.as_slice(),
                channel_constants.params.party_b.pub_key.as_slice(),
            )?;
            Ok(())
        },
        ChannelWitness::Close { .. } => Err(Error::ChannelCloseWithChannelOutput),
        ChannelWitness::ForceClose => Err(Error::ChannelForceCloseWithChannelOutput),
        ChannelWitness::Abort => Err(Error::ChannelAbortWithChannelOutput),
    }
}

/// Checks a transaction that consumes the channel cell holding `old_status` without
/// recreating it: an abort, a force close or a close, as the witness says.
/// `opened` is the timestamp of the block that created the channel cell, when known.
pub fn check_valid_close(
    old_status: &ChannelStatus,
    channel_witness: &ChannelWitness,
    channel_constants: &ChannelConstants,
    channel_capacity: u64,
    opened: Option<u64>,
    tx: &Transaction,
) -> (r: Result<(), Error>)
    requires
        crate::model::wf_witness(channel_witness@),
    ensures
        r == close_outcome(
            old_status@,
            channel_witness@,
            channel_constants@,
            channel_capacity,
            opened,
            tx@,
        ),
{
    match channel_witness {
        ChannelWitness::Abort => {
            verify_status_not_funded(old_status)?;
            let cleared_balances = old_status.state.balances.clear_index(1)?;
            verify_all_payed(&cleared_balances, channel_capacity, channel_constants, tx, true)?;
            Ok(())
        },
        ChannelWitness::ForceClose => {
            verify_status_funded(old_status)?;
            verify_time_lock_expired(
                opened,
                channel_constants.params.challenge_duration,
                tx,
            )?;
            verify_status_disputed(old_status)?;
            verify_all_payed(&old_status.state.balances, channel_capacity, channel_constants, tx, false)?;
            Ok(())
        },
        ChannelWitness::Close { state, sig_a, sig_b } => {
            verify_equal_channel_id(&old_status.state, state)?;
            verify_status_funded(old_status)?;
            verify_state_finalized(state)?;
            verify_valid_state_sigs(
                sig_a.as_slice(),
                sig_b.as_slice(),
                state,
                channel_constants.params.party_a.pub_key.as_slice(),
                channel_constants.params.party_b.pub_key.as_slice(),
            )?;
            verify_all_payed(&state.balances, channel_capacity, channel_constants, tx, false)?;
            Ok(())
        },
        ChannelWitness::Fund => Err(Error::ChannelFundWithoutChannelOutput),
        ChannelWitness::Dispute { .. } => Err(Error::ChannelDisputeWithoutChannelOutput),
    }
}

/// The channel cell of this script's group, as an input or as an output.
pub struct GroupCell {
    pub lock: Script,
    pub capacity: u64,
    pub data: Vec<u8>,
}

pub ghost struct GroupCellModel {
    pub lock: ScriptModel,
    pub capacity: u64,
    pub data: Seq<u8>,
}

impl View for GroupCell {
    type V = GroupCellModel;

    open spec fn view(&self) -> GroupCellModel {
        GroupCellModel { lock: self.lock@, capacity: self.capacity, data: self.data@ }
    }
}

/// What the channel type script reads of its own invocation.
pub struct TypeScriptContext {
    /// Hash of this type script.
    pub script_hash: Vec<u8>,
    /// Arguments of this type script: the serialized channel constants.
    pub args: Vec<u8>,
    /// Number of cells with this type script among the inputs and among the outputs.
    pub group_input_count: usize,
    pub group_output_count: usize,
    /// The first such input and output, if any.
    pub group_input: Option<GroupCell>,
    pub group_output: Option<GroupCell>,
    /// The witness that the consuming transaction supplies for the group, if any.
    pub witness: Option<Vec<u8>>,
    /// Timestamp of the block that created the consumed channel cell, when its header is
    /// among the header dependencies.
    pub group_input_timestamp: Option<u64>,
}

pub ghost struct ContextModel {
    pub script_hash: Seq<u8>,
    pub args: Seq<u8>,
    pub group_input_count: nat,
    pub group_output_count: nat,
    pub group_input: Option<GroupCellModel>,
    pub group_output: Option<GroupCellModel>,
    pub witness: Option<Seq<u8>>,
    pub group_input_timestamp: Option<u64>,
}

impl View for TypeScriptContext {
    type V = ContextModel;

    open spec fn view(&self) -> ContextModel {
        ContextModel {
            script_hash: self.script_hash@,
            args: self.args@,
            group_input_count: self.group_input_count as nat,
            group_output_count: self.group_output_count as nat,
            group_input: match self.group_input {
                Some(g) => Some(g@),
                None => None,
            },
            group_output: match self.group_output {
                Some(g) => Some(g@),
                None => None,
            },
            witness: match self.witness {
                Some(w) => Some(w@),
                None => None,
            },
            group_input_timestamp: self.group_input_timestamp,
        }
    }
}

/// What a transaction does to the channel cell.
pub enum ChannelAction {
    /// The channel cell is consumed and recreated.
    Progress { old_status: ChannelStatus, new_status: ChannelStatus },
    /// A new channel cell is created.
    Start { new_status: ChannelStatus },
    /// The channel cell is consumed.
    Close { old_status: ChannelStatus },
}

/// The cell data holds a status, when there is a cell.
pub open spec fn cell_decodes(g: Option<GroupCellModel>) -> bool {
    match g {
        Some(c) => decodes_status(c.data),
        None => true,
    }
}

/// The outcome of the channel type script, or `None` where a record does not decode (the
/// script then fails with a format error).
pub open spec fn type_script_outcome(ctx: ContextModel, tx: TxModel) -> Option<Result<(), Error>> {
    if ctx.args.len() == 0 {
        Some(Err(Error::NoArgs))
    } else if ctx.group_input_count > 1 || ctx.group_output_count > 1 {
        Some(Err(Error::MoreThanOneChannel))
    } else if !decodes_constants(ctx.args) {
        None
    } else {
        let c = decoded_constants(ctx.args);
        if c.params.app is Some {
            Some(Err(Error::AppChannelsNotSupported))
        } else if !c.params.is_ledger_channel {
            Some(Err(Error::NonLedgerChannelsNotSupported))
        } else if c.params.is_virtual_channel {
            Some(Err(Error::VirtualChannelsNotSupported))
        } else if !cell_decodes(ctx.group_input) || !cell_decodes(ctx.group_output) {
            None
        } else {
            match (ctx.group_input, ctx.group_output) {
                (None, None) => Some(Err(Error::UnableToLoadAnyChannelStatus)),
                (None, Some(o)) => Some(
                    start_outcome(decoded_status(o.data), c, o.lock, ctx.script_hash, tx),
                ),
                (Some(i), out) => match ctx.witness {
                    None => Some(Err(Error::NoWitness)),
                    Some(w) => if !decodes_witness(w) {
                        None
                    } else {
                        match out {
                            Some(o) => Some(
                                progress_outcome(
                                    decoded_status(i.data),
                                    decoded_status(o.data),
                                    decoded_witness(w),
                                    c,
                                    i.lock,
                                    o.lock,
                                    ctx.script_hash,
                                    tx,
                                ),
                            ),
                            None => Some(
                                close_outcome(
                                    decoded_status(i.data),
                                    decoded_witness(w),
                                    c,
                                    i.capacity,
                                    ctx.group_input_timestamp,
                                    tx,
                                ),
                            ),
                        }
                    },
                },
            }
        }
    }
}

/// At most one channel cell among the group's inputs and among its outputs.
pub fn verify_max_one_channel(ctx: &TypeScriptContext) -> (r: Result<(), Error>)
    ensures
        r is Ok <==> ctx.group_input_count <= 1 && ctx.group_output_count <= 1,
        r is Err ==> r->Err_0 == Error::MoreThanOneChannel,
{
    if ctx.group_input_count > 1 || ctx.group_output_count > 1 {
        return Err(Error::MoreThanOneChannel);
    }
    Ok(())
}

/// Only ledger channels without an app, not virtual, are supported.
pub fn verify_channel_params_compatibility(params: &ChannelParameters) -> (r: Result<(), Error>)
    ensures
        r == (if params@.app is Some {
            Err(Error::AppChannelsNotSupported)
        } else if !params@.is_ledger_channel {
            Err(Error::NonLedgerChannelsNotSupported)
        } else if params@.is_virtual_channel {
            Err(Error::VirtualChannelsNotSupported)
        } else {
            Ok(())
        }),
{
    if params.app.is_some() {
        return Err(Error::AppChannelsNotSupported);
    }
    if !params.is_ledger_channel {
        return Err(Error::NonLedgerChannelsNotSupported);
    }
    if params.is_virtual_channel {
        return Err(Error::VirtualChannelsNotSupported);
    }
    Ok(())
}

/// Reads the status held by a channel cell, if there is one.
fn load_status(cell: &Option<GroupCell>) -> (r: Result<Option<ChannelStatus>, Error>)
    ensures
        r is Ok <==> cell_decodes(
            match cell {
                Some(g) => Some(g@),
                None => None,
            },
        ),
        r is Ok ==> (r->Ok_0 is Some <==> cell is Some),
        r is Ok && cell is Some ==> r->Ok_0->0@ == decoded_status(cell->0.data@) && wf_status(
            r->Ok_0->0@,
        ),
        r is Err ==> r->Err_0.is_format_error(),
{
    match cell {
        None => Ok(None),
        Some(g) => {
            let d = g.data.as_slice();
            proof {
                assert(g.data@.subrange(0, g.data@.len() as int) =~= g.data@);
            }
            match parse_status(d, 0, d.len()) {
                Ok(s) => {
                    proof {
                        assert(status_at(g.data@, 0, g.data@.len() as int, s@));
                        assert(decodes_status(g.data@));
                        let t = decoded_status(g.data@);
                        assert(status_at(g.data@, 0, g.data@.len() as int, t));
                    }
                    Ok(Some(s))
                },
                Err(e) => Err(e),
            }
        },
    }
}

/// Determines from the group's cells whether the channel starts, progresses or closes.
pub fn get_channel_action(ctx: &TypeScriptContext) -> (r: Result<ChannelAction, Error>)
    ensures
        !cell_decodes(ctx@.group_input) || !cell_decodes(ctx@.group_output) ==> r is Err
            && r->Err_0.is_format_error(),
        cell_decodes(ctx@.group_input) && cell_decodes(ctx@.group_output) ==> match (
            ctx@.group_input,
            ctx@.group_output,
        ) {
            (None, None) => r == Err::<ChannelAction, Error>(Error::UnableToLoadAnyChannelStatus),
            (None, Some(o)) => r is Ok && r->Ok_0 is Start && r->Ok_0->Start_new_status@
                == decoded_status(o.data),
            (Some(i), Some(o)) => r is Ok && r->Ok_0 is Progress
                && r->Ok_0->Progress_old_status@ == decoded_status(i.data)
                && r->Ok_0->Progress_new_status@ == decoded_status(o.data),
            (Some(i), None) => r is Ok && r->Ok_0 is Close && r->Ok_0->Close_old_status@
                == decoded_status(i.data),
        },
        r is Ok ==> match r->Ok_0 {
            ChannelAction::Start { new_status } => wf_status(new_status@),
            ChannelAction::Progress { old_status, new_status } => wf_status(old_status@)
                && wf_status(new_status@),
            ChannelAction::Close { old_status } => wf_status(old_status@),
        },
{
    let input_status = load_status(&ctx.group_input)?;
    let output_status = load_status(&ctx.group_output)?;
    match (input_status, output_status) {
        (Some(old_status), Some(new_status)) => Ok(ChannelAction::Progress { old_status, new_status }),
        (Some(old_status), None) => Ok(ChannelAction::Close { old_status }),
        (None, Some(new_status)) => Ok(ChannelAction::Start { new_status }),
        (None, None) => Err(Error::UnableToLoadAnyChannelStatus),
    }
}

/// Reads the witness of the group.
pub fn load_witness(ctx: &TypeScriptContext) -> (r: Result<ChannelWitness, Error>)
    ensures
        ctx.witness is None ==> r == Err::<ChannelWitness, Error>(Error::NoWitness),
        ctx.witness is Some ==> (r is Ok <==> decodes_witness(ctx.witness->0@)),
        ctx.witness is Some && r is Ok ==> r->Ok_0@ == decoded_witness(ctx.witness->0@)
            && crate::model::wf_witness(r->Ok_0@),
        ctx.witness is Some && r is Err ==> r->Err_0.is_format_error(),
{
    match &ctx.witness {
        None => Err(Error::NoWitness),
        Some(w) => {
            proof {
                assert(w@.subrange(0, w@.len() as int) =~= w@);
            }
            match parse_witness(w.as_slice(), 0, w.len()) {
                Ok(x) => {
                    proof {
                        assert(witness_at(w@, 0, w@.len() as int, x@));
                        let t = decoded_witness(w@);
                        assert(witness_at(w@, 0, w@.len() as int, t));
                    }
                    Ok(x)
                },
                Err(e) => Err(e),
            }
        },
    }
}

/// The channel type script: validates what the transaction does to the channel cell.
pub fn verify_channel_type(ctx: &TypeScriptContext, tx: &Transaction) -> (r: Result<(), Error>)
    ensures
        type_script_outcome(ctx@, tx@) is Some ==> r == type_script_outcome(ctx@, tx@)->0,
        type_script_outcome(ctx@, tx@) is None ==> r is Err && r->Err_0.is_format_error(),
{
    if ctx.args.len() == 0 {
        return Err(Error::NoArgs);
    }
    verify_max_one_channel(ctx)?;
    proof {
        assert(ctx.args@.subrange(0, ctx.args@.len() as int) =~= ctx.args@);
    }
    let channel_constants = match parse_constants(ctx.args.as_slice(), 0, ctx.args.len()) {
        Ok(c) => c,
        Err(e) => {
            return Err(e);
        },
    };
    proof {
        assert(constants_at(ctx.args@, 0, ctx.args@.len() as int, channel_constants@));
        let t = decoded_constants(ctx.args@);
        assert(constants_at(ctx.args@, 0, ctx.args@.len() as int, t));
    }
    verify_channel_params_compatibility(&channel_constants.params)?;
    let action = get_channel_action(ctx)?;
    match action {
        ChannelAction::Start { new_status } => {
            let output_lock = match &ctx.group_output {
                Some(g) => &g.lock,
                None => {
                    return Err(Error::ItemMissing);
                },
            };
            check_valid_start(
                &new_status,
                &channel_constants,
                output_lock,
                ctx.script_hash.as_slice(),
                tx,
            )
        },
        ChannelAction::Progress { old_status, new_status } => {
            let channel_witness = load_witness(ctx)?;
            let (input_lock, output_lock) = match (&ctx.group_input, &ctx.group_output) {
                (Some(i), Some(o)) => (&i.lock, &o.lock),
                _ => {
                    return Err(Error::ItemMissing);
                },
            };
            check_valid_progress(
                &old_status,
                &new_status,
                &channel_witness,
                &channel_constants,
                input_lock,
                output_lock,
                ctx.script_hash.as_slice(),
                tx,
            )
        },
        ChannelAction::Close { old_status } => {
            let channel_witness = load_witness(ctx)?;
            let channel_capacity = match &ctx.group_input {
                Some(i) => i.capacity,
                None => {
                    return Err(Error::ItemMissing);
                },
            };
            check_valid_close(
                &old_status,
                &channel_witness,
                &channel_constants,
                channel_capacity,
                ctx.group_input_timestamp,
                tx,
            )
        },
    }
}

impl ChannelParameters {
    /// The channel id: Blake2b-256 of the serialized parameters.
    pub fn channel_id(&self) -> (r: Vec<u8>)
        requires
            wf_params(self@),
        ensures
            r@ == blake2b_256(ser_params(self@)),
            r@.len() == 32,
    {
        let bytes = write_params(self);
        blake2b256(bytes.as_slice())
    }
}

impl ChannelState {
    /// The digest that both parties sign: Blake2b-256 of the serialized state.
    pub fn digest(&self) -> (r: Vec<u8>)
        requires
            wf_state(self@),
        ensures
            r@ == state_digest(self@),
            r@.len() == 32,
    {
        let bytes = write_state(self);
        blake2b256(bytes.as_slice())
    }
}

} // verus!
