//! The rules of the channel type script, stated over the records' views. Each check is a
//! result: `Ok(())`, or the error that the first failing condition raises.
use vstd::prelude::*;
use crate::balances::{ck_get, cleared, equal_in_sum, find_asset, fully_represented, locked_ckbytes, tokens_paid};
use crate::bytes::le_value;
use crate::codec::{constants_at, status_at, witness_at};
use crate::crypto::{blake2b_256, ecdsa_accepts};
use crate::error::Error;
use crate::model::{ser_params, ser_state, BalancesModel, ConstantsModel, OutPointModel, ParamsModel, ScriptModel, StateModel, StatusModel, WitnessModel};
use crate::tx::{OutputModel, TxModel};

verus! {

/// `a`, then `b` if `a` succeeded.
pub open spec fn and_then(a: Result<(), Error>, b: Result<(), Error>) -> Result<(), Error> {
    if a is Err {
        a
    } else {
        b
    }
}

/// Succeeds when `c` holds, else fails with `e`.
pub open spec fn check(c: bool, e: Error) -> Result<(), Error> {
    if c {
        Ok(())
    } else {
        Err(e)
    }
}

pub open spec fn thread_token_consumed(token: OutPointModel, tx: TxModel) -> bool {
    exists|i: int| 0 <= i < tx.inputs.len() && #[trigger] tx.inputs[i].previous_output == token
}

pub open spec fn thread_token_outcome(token: OutPointModel, tx: TxModel) -> Result<(), Error> {
    check(thread_token_consumed(token, tx), Error::InvalidThreadToken)
}

pub open spec fn channel_id_outcome(id: Seq<u8>, params: ParamsModel) -> Result<(), Error> {
    check(blake2b_256(ser_params(params)) == id, Error::InvalidChannelId)
}

pub open spec fn lock_script_outcome(lock: ScriptModel, c: ConstantsModel) -> Result<(), Error> {
    and_then(
        check(lock.code_hash == c.pcls_code_hash, Error::InvalidPCLSCodeHash),
        and_then(
            check(lock.hash_type == c.pcls_hash_type, Error::InvalidPCLSHashType),
            check(lock.args.len() == 0, Error::PCLSWithArgs),
        ),
    )
}

pub open spec fn different_payment_outcome(c: ConstantsModel) -> Result<(), Error> {
    check(
        c.params.party_a.payment_script_hash != c.params.party_b.payment_script_hash,
        Error::SamePaymentAddress,
    )
}

pub open spec fn funds_in_inputs(c: ConstantsModel, tx: TxModel) -> bool {
    exists|i: int| 0 <= i < tx.inputs.len() && #[trigger] tx.inputs[i].lock.code_hash == c.pfls_code_hash
}

pub open spec fn no_funds_outcome(c: ConstantsModel, tx: TxModel) -> Result<(), Error> {
    check(!funds_in_inputs(c, tx), Error::FundsInInputs)
}

pub open spec fn start_state_outcome(s: StateModel, min_capacity: u64) -> Result<(), Error> {
    let a = s.balances.ckbytes.nth0;
    let b = s.balances.ckbytes.nth1;
    and_then(
        check(s.version == 0, Error::StartWithNonZeroVersion),
        and_then(
            check(!s.is_final, Error::StartWithFinalizedState),
            and_then(
                check(!(a < min_capacity && a != 0), Error::BalanceBelowPFLSMinCapacity),
                check(!(b < min_capacity && b != 0), Error::BalanceBelowPFLSMinCapacity),
            ),
        ),
    )
}

/// On start the funded bit says whether party B owes nothing; on funding it must be set.
pub open spec fn funded_status_outcome(st: StatusModel, is_start: bool) -> Result<(), Error> {
    if !is_start {
        check(st.funded, Error::FundedBitStatusNotCorrect)
    } else if st.state.balances.ckbytes.nth1 != 0 || st.state.balances.sudts.len() != 0 {
        check(!st.funded, Error::FundedBitStatusNotCorrect)
    } else {
        check(st.funded, Error::FundedBitStatusNotCorrect)
    }
}

pub open spec fn not_disputed_outcome(st: StatusModel) -> Result<(), Error> {
    check(!st.disputed, Error::StatusDisputed)
}

pub open spec fn disputed_outcome(st: StatusModel) -> Result<(), Error> {
    check(st.disputed, Error::StatusNotDisputed)
}

pub open spec fn funded_outcome(st: StatusModel) -> Result<(), Error> {
    check(st.funded, Error::ChannelNotFunded)
}

pub open spec fn not_funded_outcome(st: StatusModel) -> Result<(), Error> {
    check(!st.funded, Error::StateIsFunded)
}

pub open spec fn equal_id_outcome(a: StateModel, b: StateModel) -> Result<(), Error> {
    check(a.channel_id == b.channel_id, Error::ChannelIdMismatch)
}

/// A progress must raise the version, except that the initial state (version 0) may be
/// registered once while the channel is not disputed.
pub open spec fn version_increases(old: StatusModel, new: StateModel) -> bool {
    ||| (!old.disputed && old.state.version == 0 && new.version == 0)
    ||| old.state.version < new.version
}

pub open spec fn version_outcome(old: StatusModel, new: StateModel) -> Result<(), Error> {
    check(version_increases(old, new), Error::VersionNumberNotIncreasing)
}

pub open spec fn sum_outcome(a: BalancesModel, b: BalancesModel) -> Result<(), Error> {
    check(equal_in_sum(a, b), Error::SumOfBalancesNotEqual)
}

pub open spec fn not_final_outcome(s: StateModel) -> Result<(), Error> {
    check(!s.is_final, Error::StateIsFinal)
}

pub open spec fn final_outcome(s: StateModel) -> Result<(), Error> {
    check(s.is_final, Error::StateNotFinal)
}

pub open spec fn progression_outcome(old: StatusModel, new: StateModel) -> Result<(), Error> {
    and_then(
        equal_id_outcome(old.state, new),
        and_then(
            version_outcome(old, new),
            and_then(sum_outcome(old.state.balances, new.balances), not_final_outcome(old.state)),
        ),
    )
}

pub open spec fn continues_outcome(input_lock: ScriptModel, output_lock: ScriptModel) -> Result<
    (),
    Error,
> {
    check(input_lock == output_lock, Error::ChannelDoesNotContinue)
}

pub open spec fn equal_state_outcome(a: StateModel, b: StateModel) -> Result<(), Error> {
    check(a == b, Error::ChannelStateNotEqual)
}

/// The digest that the parties sign: Blake2b-256 of the state's canonical bytes.
pub open spec fn state_digest(s: StateModel) -> Seq<u8> {
    blake2b_256(ser_state(s))
}

pub open spec fn sigs_outcome(
    sig_a: Seq<u8>,
    sig_b: Seq<u8>,
    s: StateModel,
    key_a: Seq<u8>,
    key_b: Seq<u8>,
) -> Result<(), Error> {
    and_then(
        check(ecdsa_accepts(state_digest(s), sig_a, key_a), Error::SignatureVerificationError),
        check(ecdsa_accepts(state_digest(s), sig_b, key_b), Error::SignatureVerificationError),
    )
}

/// The latest of the timestamps, or 0.
pub open spec fn max_timestamp(ts: Seq<u64>) -> int
    decreases ts.len(),
{
    if ts.len() == 0 {
        0
    } else {
        let m = max_timestamp(ts.drop_last());
        if ts.last() > m {
            ts.last() as int
        } else {
            m
        }
    }
}

pub open spec fn time_lock_outcome(opened: Option<u64>, duration: u64, deps: Seq<u64>) -> Result<
    (),
    Error,
> {
    match opened {
        None => Err(Error::ItemMissing),
        Some(t) => check(t + duration <= max_timestamp(deps), Error::TimeLockNotExpired),
    }
}

/// What reading the token amount of output `o` with type script `t` gives: the index of the
/// token in the channel's list and the amount in the first 16 bytes of the cell data.
pub open spec fn sudt_amount_of(b: BalancesModel, o: OutputModel, t: ScriptModel) -> Result<
    (int, int),
    Error,
> {
    if find_asset(b.sudts, t) < 0 {
        Err(Error::InvalidSUDT)
    } else if o.data.len() < 16 {
        Err(Error::InvalidSUDTDataLength)
    } else {
        Ok((find_asset(b.sudts, t), le_value(o.data.subrange(0, 16)) as int))
    }
}

/// An output locked by the funds lock script of this channel.
pub open spec fn pfls_lock(o: OutputModel, c: ConstantsModel) -> bool {
    o.lock.code_hash == c.pfls_code_hash && o.lock.hash_type == c.pfls_hash_type
}

/// What the outputs read so far bring to a party's funding.
pub ghost struct FundScan {
    pub err: Option<Error>,
    pub capacity: int,
    pub tokens: Seq<int>,
}

pub open spec fn fund_step(
    acc: FundScan,
    o: OutputModel,
    c: ConstantsModel,
    h: Seq<u8>,
    b: BalancesModel,
) -> FundScan {
    if acc.err is Some || !pfls_lock(o, c) {
        acc
    } else if o.lock.args != h {
        FundScan {
            err: Some(Error::InvalidPFLSInOutputs),
            capacity: acc.capacity,
            tokens: acc.tokens,
        }
    } else {
        match o.type_script {
            None => FundScan { err: None, capacity: acc.capacity + o.capacity, tokens: acc.tokens },
            Some(t) => match sudt_amount_of(b, o, t) {
                Err(e) => FundScan { err: Some(e), capacity: acc.capacity, tokens: acc.tokens },
                Ok(ka) => FundScan {
                    err: None,
                    capacity: acc.capacity + o.capacity,
                    tokens: acc.tokens.update(ka.0, acc.tokens[ka.0] + ka.1),
                },
            },
        }
    }
}

pub open spec fn fund_scan(outs: Seq<OutputModel>, c: ConstantsModel, h: Seq<u8>, b: BalancesModel) -> FundScan
    decreases outs.len(),
{
    if outs.len() == 0 {
        FundScan { err: None, capacity: 0, tokens: Seq::new(b.sudts.len(), |k: int| 0) }
    } else {
        fund_step(fund_scan(outs.drop_last(), c, h, b), outs.last(), c, h, b)
    }
}

/// Party `idx` has locked exactly its share to this channel's funds lock, with every token.
pub open spec fn funding_outcome(
    idx: int,
    b: BalancesModel,
    c: ConstantsModel,
    h: Seq<u8>,
    outs: Seq<OutputModel>,
) -> Result<(), Error> {
    if idx < 0 || idx >= 2 {
        Err(Error::IndexOutOfBound)
    } else if ck_get(b.ckbytes, idx) + locked_ckbytes(b.sudts) == 0 {
        Ok(())
    } else {
        let s = fund_scan(outs, c, h, b);
        if s.err is Some {
            Err(s.err->0)
        } else if s.capacity != ck_get(b.ckbytes, idx) + locked_ckbytes(b.sudts) {
            Err(Error::OwnFundingNotInOutputs)
        } else if !fully_represented(b.sudts, idx, s.tokens) {
            Err(Error::OwnFundingNotInOutputs)
        } else {
            Ok(())
        }
    }
}

/// What the outputs read so far pay to each party.
pub ghost struct PayScan {
    pub err: Option<Error>,
    pub cap_a: int,
    pub cap_b: int,
    pub tokens_a: Seq<int>,
    pub tokens_b: Seq<int>,
}

pub open spec fn pay_step(
    acc: PayScan,
    o: OutputModel,
    hash_a: Seq<u8>,
    hash_b: Seq<u8>,
    b: BalancesModel,
) -> PayScan {
    let to_a = o.lock_hash == hash_a;
    let to_b = o.lock_hash == hash_b;
    let cap_a = acc.cap_a + if to_a {
        o.capacity as int
    } else {
        0
    };
    let cap_b = acc.cap_b + if to_b {
        o.capacity as int
    } else {
        0
    };
    if acc.err is Some || !(to_a || to_b) {
        acc
    } else {
        match o.type_script {
            None => PayScan {
                err: None,
                cap_a,
                cap_b,
                tokens_a: acc.tokens_a,
                tokens_b: acc.tokens_b,
            },
            Some(t) => match sudt_amount_of(b, o, t) {
                Err(e) => PayScan {
                    err: Some(e),
                    cap_a: acc.cap_a,
                    cap_b: acc.cap_b,
                    tokens_a: acc.tokens_a,
                    tokens_b: acc.tokens_b,
                },
                Ok(ka) => PayScan {
                    err: None,
                    cap_a,
                    cap_b,
                    tokens_a: if to_a {
                        acc.tokens_a.update(ka.0, acc.tokens_a[ka.0] + ka.1)
                    } else {
                        acc.tokens_a
                    },
                    tokens_b: if to_b {
                        acc.tokens_b.update(ka.0, acc.tokens_b[ka.0] + ka.1)
                    } else {
                        acc.tokens_b
                    },
                },
            },
        }
    }
}

pub open spec fn pay_scan(outs: Seq<OutputModel>, hash_a: Seq<u8>, hash_b: Seq<u8>, b: BalancesModel) -> PayScan
    decreases outs.len(),
{
    if outs.len() == 0 {
        PayScan {
            err: None,
            cap_a: 0,
            cap_b: 0,
            tokens_a: Seq::new(b.sudts.len(), |k: int| 0),
            tokens_b: Seq::new(b.sudts.len(), |k: int| 0),
        }
    } else {
        pay_step(pay_scan(outs.drop_last(), hash_a, hash_b, b), outs.last(), hash_a, hash_b, b)
    }
}

/// Native units owed to party A: its balance, the channel cell's capacity, and the capacity
/// of the token cells.
pub open spec fn required_a(b: BalancesModel, channel_capacity: u64) -> int {
    b.ckbytes.nth0 + channel_capacity + locked_ckbytes(b.sudts)
}

/// Native units owed to party B: its balance, and the capacity of the token cells unless the
/// channel is aborted.
pub open spec fn required_b(b: BalancesModel, is_abort: bool) -> int {
    b.ckbytes.nth1 + if is_abort {
        0
    } else {
        locked_ckbytes(b.sudts)
    }
}

/// A party is paid enough native units when paid at least what it is owed, or when what it is
/// owed is below its minimum payment (and may be forfeited).
pub open spec fn ckbytes_paid(required: int, paid: int, min_payment: u64) -> bool {
    paid >= required || required < min_payment
}

pub open spec fn payout_outcome(
    b: BalancesModel,
    channel_capacity: u64,
    c: ConstantsModel,
    outs: Seq<OutputModel>,
    is_abort: bool,
) -> Result<(), Error> {
    let pa = c.params.party_a;
    let pb = c.params.party_b;
    let s = pay_scan(outs, pa.payment_script_hash, pb.payment_script_hash, b);
    if s.err is Some {
        Err(s.err->0)
    } else if !ckbytes_paid(required_a(b, channel_capacity), s.cap_a, pa.payment_min_capacity)
        || !ckbytes_paid(required_b(b, is_abort), s.cap_b, pb.payment_min_capacity) {
        Err(Error::NotAllPayed)
    } else if !tokens_paid(b.sudts, 0, s.tokens_a, pa.payment_min_capacity) {
        Err(Error::NotAllPayed)
    } else if !tokens_paid(b.sudts, 1, s.tokens_b, pb.payment_min_capacity) {
        Err(Error::NotAllPayed)
    } else {
        Ok(())
    }
}

/// The rules of a start: the new channel cell holds `st`, locked by `output_lock`.
pub open spec fn start_outcome(
    st: StatusModel,
    c: ConstantsModel,
    output_lock: ScriptModel,
    script_hash: Seq<u8>,
    tx: TxModel,
) -> Result<(), Error> {
    and_then(
        thread_token_outcome(c.thread_token, tx),
        and_then(
            channel_id_outcome(st.state.channel_id, c.params),
            and_then(
                lock_script_outcome(output_lock, c),
                and_then(
                    different_payment_outcome(c),
                    and_then(
                        no_funds_outcome(c, tx),
                        and_then(
                            start_state_outcome(st.state, c.pfls_min_capacity),
                            and_then(
                                funding_outcome(0, st.state.balances, c, script_hash, tx.outputs),
                                and_then(funded_status_outcome(st, true), not_disputed_outcome(st)),
                            ),
                        ),
                    ),
                ),
            ),
        ),
    )
}

/// The rules of a progress from `old` to `new`, by funding or by dispute.
pub open spec fn progress_outcome(
    old: StatusModel,
    new: StatusModel,
    w: WitnessModel,
    c: ConstantsModel,
    input_lock: ScriptModel,
    output_lock: ScriptModel,
    script_hash: Seq<u8>,
    tx: TxModel,
) -> Result<(), Error> {
    and_then(
        equal_id_outcome(old.state, new.state),
        and_then(
            no_funds_outcome(c, tx),
            and_then(
                continues_outcome(input_lock, output_lock),
                match w {
                    WitnessModel::Fund => and_then(
                        equal_state_outcome(old.state, new.state),
                        and_then(
                            version_outcome(old, new.state),
                            and_then(
                            not_funded_outcome(old),
                            and_then(
                                funding_outcome(1, old.state.balances, c, script_hash, tx.outputs),
                                and_then(not_disputed_outcome(new), funded_status_outcome(new, false)),
                            ),
                        ),
                        ),
                    ),
                    WitnessModel::Dispute { sig_a, sig_b } => and_then(
                        progression_outcome(old, new.state),
                        and_then(
                            funded_outcome(old),
                            and_then(
                                disputed_outcome(new),
                                and_then(
                                    funded_status_outcome(new, false),
                                    sigs_outcome(
                                        sig_a,
                                        sig_b,
                                        new.state,
                                        c.params.party_a.pub_key,
                                        c.params.party_b.pub_key,
                                    ),
                                ),
                            ),
                        ),
                    ),
                    WitnessModel::Close { .. } => Err(Error::ChannelCloseWithChannelOutput),
                    WitnessModel::ForceClose => Err(Error::ChannelForceCloseWithChannelOutput),
                    WitnessModel::Abort => Err(Error::ChannelAbortWithChannelOutput),
                },
            ),
        ),
    )
}

/// The rules of a close of the channel cell that holds `old`.
pub open spec fn close_outcome(
    old: StatusModel,
    w: WitnessModel,
    c: ConstantsModel,
    channel_capacity: u64,
    opened: Option<u64>,
    tx: TxModel,
) -> Result<(), Error> {
    match w {
        WitnessModel::Abort => and_then(
            not_funded_outcome(old),
            payout_outcome(cleared(old.state.balances, 1), channel_capacity, c, tx.outputs, true),
        ),
        WitnessModel::ForceClose => and_then(
            funded_outcome(old),
            and_then(
                time_lock_outcome(opened, c.params.challenge_duration, tx.header_dep_timestamps),
                and_then(
                    disputed_outcome(old),
                    payout_outcome(old.state.balances, channel_capacity, c, tx.outputs, false),
                ),
            ),
        ),
        WitnessModel::Close { state, sig_a, sig_b } => and_then(
            equal_id_outcome(old.state, state),
            and_then(
                funded_outcome(old),
                and_then(
                    final_outcome(state),
                    and_then(
                        sigs_outcome(
                            sig_a,
                            sig_b,
                            state,
                            c.params.party_a.pub_key,
                            c.params.party_b.pub_key,
                        ),
                        payout_outcome(state.balances, channel_capacity, c, tx.outputs, false),
                    ),
                ),
            ),
        ),
        WitnessModel::Fund => Err(Error::ChannelFundWithoutChannelOutput),
        WitnessModel::Dispute { .. } => Err(Error::ChannelDisputeWithoutChannelOutput),
    }
}

/// The bytes `b` hold channel constants.
pub open spec fn decodes_constants(b: Seq<u8>) -> bool {
    exists|c: ConstantsModel| #[trigger] constants_at(b, 0, b.len() as int, c)
}

pub open spec fn decoded_constants(b: Seq<u8>) -> ConstantsModel {
    choose|c: ConstantsModel| #[trigger] constants_at(b, 0, b.len() as int, c)
}

/// The bytes `b` hold a channel status.
pub open spec fn decodes_status(b: Seq<u8>) -> bool {
    exists|s: StatusModel| #[trigger] status_at(b, 0, b.len() as int, s)
}

pub open spec fn decoded_status(b: Seq<u8>) -> StatusModel {
    choose|s: StatusModel| #[trigger] status_at(b, 0, b.len() as int, s)
}

/// The bytes `b` hold a witness.
pub open spec fn decodes_witness(b: Seq<u8>) -> bool {
    exists|w: WitnessModel| #[trigger] witness_at(b, 0, b.len() as int, w)
}

pub open spec fn decoded_witness(b: Seq<u8>) -> WitnessModel {
    choose|w: WitnessModel| #[trigger] witness_at(b, 0, b.len() as int, w)
}

} // verus!
