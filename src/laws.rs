//! Properties of the channel rules, proved from their statements.
use vstd::prelude::*;
use crate::balances::{ck_get, cleared, equal_in_sum, find_asset, lemma_find_asset_range, locked_ckbytes, sudt_get, tokens_paid};
use crate::bytes::le_value;
use crate::channel::{lemma_fund_scan_bounds, lemma_pay_scan_bounds};
use crate::codec::{constants_at, state_at, status_at, witness_at};
use crate::crypto::{blake2b_256, ecdsa_accepts};
use crate::error::Error;
use crate::model::{BalancesModel, ser_constants, ser_params, ser_state, ser_status, ser_witness, wf_constants, wf_state, wf_status, wf_witness, ConstantsModel, ScriptModel, StateModel, StatusModel, WitnessModel};
use crate::channel::{type_script_outcome, ContextModel};
use crate::rules::{fund_scan, funding_outcome, pfls_lock, close_outcome, ckbytes_paid, decoded_constants, decoded_status, decoded_witness, max_timestamp, pay_scan, progress_outcome, required_a, required_b, start_outcome, state_digest, thread_token_consumed, version_increases};
use crate::tx::{OutputModel, TxModel};

verus! {

/// An accepted progress keeps the channel id and the total of every asset, in the same
/// asset order, and raises the version unless it registers the initial state of an
/// undisputed channel; a funded channel stays funded.
pub proof fn lemma_progress_keeps_channel(
    old: StatusModel,
    new: StatusModel,
    w: WitnessModel,
    c: ConstantsModel,
    input_lock: ScriptModel,
    output_lock: ScriptModel,
    script_hash: Seq<u8>,
    tx: TxModel,
)
    requires
        progress_outcome(old, new, w, c, input_lock, output_lock, script_hash, tx) is Ok,
    ensures
        new.state.channel_id == old.state.channel_id,
        equal_in_sum(old.state.balances, new.state.balances),
        version_increases(old, new.state),
        old.funded ==> new.funded,
{
}

/// A progress whose version does not rise is rejected, unless it registers the initial
/// state (both versions 0) of an undisputed channel.
pub proof fn lemma_stale_progress_rejected(
    old: StatusModel,
    new: StatusModel,
    w: WitnessModel,
    c: ConstantsModel,
    input_lock: ScriptModel,
    output_lock: ScriptModel,
    script_hash: Seq<u8>,
    tx: TxModel,
)
    requires
        new.state.version <= old.state.version,
        !(!old.disputed && old.state.version == 0 && new.state.version == 0),
    ensures
        progress_outcome(
            old,
            new,
            w,
            c,
            input_lock,
            output_lock,
            script_hash,
            tx,
        ) is Err,
{
}

/// The balances that a close, force close or abort pays out: an abort returns only what
/// party A has funded.
pub open spec fn payout_balances(old: StatusModel, w: WitnessModel) -> BalancesModel {
    match w {
        WitnessModel::Close { state, .. } => state.balances,
        WitnessModel::Abort => cleared(old.state.balances, 1),
        _ => old.state.balances,
    }
}

/// The amount of token `t` that the outputs locked by `h` carry, read from the first 16
/// bytes of their data.
pub open spec fn token_sum(outs: Seq<OutputModel>, h: Seq<u8>, t: ScriptModel) -> int
    decreases outs.len(),
{
    if outs.len() == 0 {
        0
    } else {
        token_sum(outs.drop_last(), h, t) + if outs.last().lock_hash == h && outs.last().type_script
            == Some(t) {
            le_value(outs.last().data.subrange(0, 16)) as int
        } else {
            0
        }
    }
}

/// When reading the outputs raised no error, the token totals of the payout scan are the
/// per-type sums over the outputs paid to each party (for each token listed first under
/// its type script).
pub proof fn lemma_pay_scan_token_totals(
    outs: Seq<OutputModel>,
    ha: Seq<u8>,
    hb: Seq<u8>,
    b: BalancesModel,
    k: int,
)
    requires
        0 <= k < b.sudts.len(),
        find_asset(b.sudts, b.sudts[k].asset.type_script) == k,
        pay_scan(outs, ha, hb, b).err is None,
    ensures
        pay_scan(outs, ha, hb, b).tokens_a[k] == token_sum(outs, ha, b.sudts[k].asset.type_script),
        pay_scan(outs, ha, hb, b).tokens_b[k] == token_sum(outs, hb, b.sudts[k].asset.type_script),
    decreases outs.len(),
{
    if outs.len() > 0 {
        let p = outs.drop_last();
        let o = outs.last();
        if pay_scan(p, ha, hb, b).err is Some {
            assert(pay_scan(outs, ha, hb, b).err is Some);
        }
        lemma_pay_scan_token_totals(p, ha, hb, b, k);
        lemma_pay_scan_bounds(p, ha, hb, b);
        match o.type_script {
            Some(t) => {
                lemma_find_asset_range(b.sudts, t);
            },
            None => {},
        }
    }
}

/// The outputs locked by this channel's funds lock with arguments `h`.
pub open spec fn funds_output(o: OutputModel, c: ConstantsModel, h: Seq<u8>) -> bool {
    pfls_lock(o, c) && o.lock.args == h
}

/// Total capacity of this channel's funding outputs.
pub open spec fn funding_capacity(outs: Seq<OutputModel>, c: ConstantsModel, h: Seq<u8>) -> int
    decreases outs.len(),
{
    if outs.len() == 0 {
        0
    } else {
        funding_capacity(outs.drop_last(), c, h) + if funds_output(outs.last(), c, h) {
            outs.last().capacity as int
        } else {
            0
        }
    }
}

/// Amount of token `t` that this channel's funding outputs carry.
pub open spec fn funding_tokens(outs: Seq<OutputModel>, c: ConstantsModel, h: Seq<u8>, t: ScriptModel) -> int
    decreases outs.len(),
{
    if outs.len() == 0 {
        0
    } else {
        funding_tokens(outs.drop_last(), c, h, t) + if funds_output(outs.last(), c, h)
            && outs.last().type_script == Some(t) {
            le_value(outs.last().data.subrange(0, 16)) as int
        } else {
            0
        }
    }
}

/// When reading the outputs raised no error, the funding scan's totals are the capacity of
/// the funding outputs and, per token listed first under its type script, their amount of it.
pub proof fn lemma_fund_scan_totals(
    outs: Seq<OutputModel>,
    c: ConstantsModel,
    h: Seq<u8>,
    b: BalancesModel,
    k: int,
)
    requires
        0 <= k < b.sudts.len(),
        find_asset(b.sudts, b.sudts[k].asset.type_script) == k,
        fund_scan(outs, c, h, b).err is None,
    ensures
        fund_scan(outs, c, h, b).capacity == funding_capacity(outs, c, h),
        fund_scan(outs, c, h, b).tokens[k] == funding_tokens(outs, c, h, b.sudts[k].asset.type_script),
    decreases outs.len(),
{
    if outs.len() > 0 {
        let p = outs.drop_last();
        let o = outs.last();
        if fund_scan(p, c, h, b).err is Some {
            assert(fund_scan(outs, c, h, b).err is Some);
        }
        lemma_fund_scan_totals(p, c, h, b, k);
        lemma_fund_scan_bounds(p, c, h, b);
        match o.type_script {
            Some(t) => {
                lemma_find_asset_range(b.sudts, t);
            },
            None => {},
        }
    }
}

/// An accepted funding by party `idx` locks to this channel's funds lock exactly the party's
/// native share plus the capacity of the token cells, and at least its amount of every token.
pub proof fn lemma_funding_locks_share(
    idx: int,
    b: BalancesModel,
    c: ConstantsModel,
    h: Seq<u8>,
    outs: Seq<OutputModel>,
)
    requires
        funding_outcome(idx, b, c, h, outs) is Ok,
        ck_get(b.ckbytes, idx) + locked_ckbytes(b.sudts) != 0,
    ensures
        funding_capacity(outs, c, h) == ck_get(b.ckbytes, idx) + locked_ckbytes(b.sudts),
        forall|k: int|
            0 <= k < b.sudts.len() && find_asset(b.sudts, b.sudts[k].asset.type_script) == k
                ==> funding_tokens(outs, c, h, #[trigger] b.sudts[k].asset.type_script) >= sudt_get(
                b.sudts[k].distribution,
                idx,
            ),
{
    let s = fund_scan(outs, c, h, b);
    assert(s.err is None);
    assert forall|k: int|
        0 <= k < b.sudts.len() && find_asset(b.sudts, b.sudts[k].asset.type_script) == k implies funding_tokens(
        outs,
        c,
        h,
        #[trigger] b.sudts[k].asset.type_script,
    ) >= sudt_get(b.sudts[k].distribution, idx) by {
        lemma_fund_scan_totals(outs, c, h, b, k);
    }
    lemma_fund_scan_capacity(outs, c, h, b);
}

/// With no tokens listed, the funding scan's capacity is that of the funding outputs.
pub proof fn lemma_fund_scan_capacity(outs: Seq<OutputModel>, c: ConstantsModel, h: Seq<u8>, b: BalancesModel)
    requires
        fund_scan(outs, c, h, b).err is None,
    ensures
        fund_scan(outs, c, h, b).capacity == funding_capacity(outs, c, h),
    decreases outs.len(),
{
    if outs.len() > 0 {
        let p = outs.drop_last();
        if fund_scan(p, c, h, b).err is Some {
            assert(fund_scan(outs, c, h, b).err is Some);
        }
        lemma_fund_scan_capacity(p, c, h, b);
    }
}

/// An accepted close, force close or abort pays each party at least what it is owed in
/// native units and in every token, except amounts below the party's minimum payment.
pub proof fn lemma_close_pays_everyone(
    old: StatusModel,
    w: WitnessModel,
    c: ConstantsModel,
    channel_capacity: u64,
    opened: Option<u64>,
    tx: TxModel,
)
    requires
        close_outcome(old, w, c, channel_capacity, opened, tx) is Ok,
    ensures
        ({
            let b = payout_balances(old, w);
            let s = pay_scan(
                tx.outputs,
                c.params.party_a.payment_script_hash,
                c.params.party_b.payment_script_hash,
                b,
            );
            &&& ckbytes_paid(
                required_a(b, channel_capacity),
                s.cap_a,
                c.params.party_a.payment_min_capacity,
            )
            &&& ckbytes_paid(
                required_b(b, w is Abort),
                s.cap_b,
                c.params.party_b.payment_min_capacity,
            )
            &&& forall|k: int|
                0 <= k < b.sudts.len() ==> (s.tokens_a[k] >= sudt_get(
                    #[trigger] b.sudts[k].distribution,
                    0,
                ) || sudt_get(b.sudts[k].distribution, 0) < c.params.party_a.payment_min_capacity)
                    && (s.tokens_b[k] >= sudt_get(b.sudts[k].distribution, 1) || sudt_get(
                    b.sudts[k].distribution,
                    1,
                ) < c.params.party_b.payment_min_capacity)
            &&& forall|k: int|
                0 <= k < b.sudts.len() && find_asset(b.sudts, b.sudts[k].asset.type_script) == k
                    ==> (token_sum(
                    tx.outputs,
                    c.params.party_a.payment_script_hash,
                    #[trigger] b.sudts[k].asset.type_script,
                ) >= sudt_get(b.sudts[k].distribution, 0) || sudt_get(b.sudts[k].distribution, 0)
                    < c.params.party_a.payment_min_capacity) && (token_sum(
                    tx.outputs,
                    c.params.party_b.payment_script_hash,
                    b.sudts[k].asset.type_script,
                ) >= sudt_get(b.sudts[k].distribution, 1) || sudt_get(b.sudts[k].distribution, 1)
                    < c.params.party_b.payment_min_capacity)
        }),
{
    let b = payout_balances(old, w);
    let s = pay_scan(
        tx.outputs,
        c.params.party_a.payment_script_hash,
        c.params.party_b.payment_script_hash,
        b,
    );
    assert(tokens_paid(b.sudts, 0, s.tokens_a, c.params.party_a.payment_min_capacity));
    assert(tokens_paid(b.sudts, 1, s.tokens_b, c.params.party_b.payment_min_capacity));
    assert forall|k: int|
        0 <= k < b.sudts.len() && find_asset(b.sudts, b.sudts[k].asset.type_script) == k implies (
    token_sum(
        tx.outputs,
        c.params.party_a.payment_script_hash,
        #[trigger] b.sudts[k].asset.type_script,
    ) >= sudt_get(b.sudts[k].distribution, 0) || sudt_get(b.sudts[k].distribution, 0)
        < c.params.party_a.payment_min_capacity) && (token_sum(
        tx.outputs,
        c.params.party_b.payment_script_hash,
        b.sudts[k].asset.type_script,
    ) >= sudt_get(b.sudts[k].distribution, 1) || sudt_get(b.sudts[k].distribution, 1)
        < c.params.party_b.payment_min_capacity) by {
        lemma_pay_scan_token_totals(
            tx.outputs,
            c.params.party_a.payment_script_hash,
            c.params.party_b.payment_script_hash,
            b,
            k,
        );
    }
}

/// An accepted start carries the hash of the channel parameters as its channel id and
/// consumes the thread token's out point.
pub proof fn lemma_start_identifies_channel(
    st: StatusModel,
    c: ConstantsModel,
    output_lock: ScriptModel,
    script_hash: Seq<u8>,
    tx: TxModel,
)
    requires
        start_outcome(st, c, output_lock, script_hash, tx) is Ok,
    ensures
        st.state.channel_id == blake2b_256(ser_params(c.params)),
        thread_token_consumed(c.thread_token, tx),
{
}

/// A start that does not consume the thread token's out point is rejected.
pub proof fn lemma_start_without_token_rejected(
    st: StatusModel,
    c: ConstantsModel,
    output_lock: ScriptModel,
    script_hash: Seq<u8>,
    tx: TxModel,
)
    requires
        !thread_token_consumed(c.thread_token, tx),
    ensures
        start_outcome(st, c, output_lock, script_hash, tx) == Err::<(), Error>(
            Error::InvalidThreadToken,
        ),
{
}

/// A close whose two signatures do not both verify on the digest of its state is rejected.
pub proof fn lemma_unsigned_close_rejected(
    old: StatusModel,
    state: StateModel,
    sig_a: Seq<u8>,
    sig_b: Seq<u8>,
    c: ConstantsModel,
    channel_capacity: u64,
    opened: Option<u64>,
    tx: TxModel,
)
    requires
        !(ecdsa_accepts(blake2b_256(ser_state(state)), sig_a, c.params.party_a.pub_key)
            && ecdsa_accepts(blake2b_256(ser_state(state)), sig_b, c.params.party_b.pub_key)),
    ensures
        close_outcome(
            old,
            WitnessModel::Close { state, sig_a, sig_b },
            c,
            channel_capacity,
            opened,
            tx,
        ) is Err,
{
}

/// A force close before the challenge duration has passed since the channel cell was
/// created (as the latest header dependency tells time) is rejected.
pub proof fn lemma_early_force_close_rejected(
    old: StatusModel,
    c: ConstantsModel,
    channel_capacity: u64,
    opened: u64,
    tx: TxModel,
)
    requires
        opened + c.params.challenge_duration > max_timestamp(tx.header_dep_timestamps),
    ensures
        close_outcome(old, WitnessModel::ForceClose, c, channel_capacity, Some(opened), tx) is Err,
{
}

/// An abort of a funded channel is rejected.
pub proof fn lemma_funded_abort_rejected(
    old: StatusModel,
    c: ConstantsModel,
    channel_capacity: u64,
    opened: Option<u64>,
    tx: TxModel,
)
    requires
        old.funded,
    ensures
        close_outcome(old, WitnessModel::Abort, c, channel_capacity, opened, tx) == Err::<
            (),
            Error,
        >(Error::StateIsFunded),
{
}

/// The signatures on a state are checked against Blake2b-256 of its canonical bytes.
pub proof fn lemma_digest_is_hash_of_bytes(s: StateModel)
    ensures
        state_digest(s) == blake2b_256(ser_state(s)),
{
}

/// The bytes written for a state read back as that state.
pub proof fn lemma_state_round_trip(s: StateModel)
    requires
        wf_state(s),
    ensures
        state_at(ser_state(s), 0, ser_state(s).len() as int, s),
{
    assert(ser_state(s).subrange(0, ser_state(s).len() as int) =~= ser_state(s));
}

/// The bytes written for a status read back as that status.
pub proof fn lemma_status_round_trip(s: StatusModel)
    requires
        wf_status(s),
    ensures
        status_at(ser_status(s), 0, ser_status(s).len() as int, s),
{
    assert(ser_status(s).subrange(0, ser_status(s).len() as int) =~= ser_status(s));
}

/// The bytes written for channel constants read back as those constants.
pub proof fn lemma_constants_round_trip(c: ConstantsModel)
    requires
        wf_constants(c),
    ensures
        constants_at(ser_constants(c), 0, ser_constants(c).len() as int, c),
{
    assert(ser_constants(c).subrange(0, ser_constants(c).len() as int) =~= ser_constants(c));
}

/// The bytes written for a witness read back as that witness.
pub proof fn lemma_witness_round_trip(w: WitnessModel)
    requires
        wf_witness(w),
    ensures
        witness_at(ser_witness(w), 0, ser_witness(w).len() as int, w),
{
    assert(ser_witness(w).subrange(0, ser_witness(w).len() as int) =~= ser_witness(w));
}

/// When the type script accepts a transaction that creates the channel cell, the new
/// state's channel id is the hash of the parameters in the script's arguments, and the
/// thread token named there is consumed.
pub proof fn lemma_accepted_start_identifies_channel(ctx: ContextModel, tx: TxModel)
    requires
        ctx.group_input is None,
        type_script_outcome(ctx, tx) == Some(Ok::<(), Error>(())),
    ensures
        ctx.group_output is Some,
        decoded_status(ctx.group_output->0.data).state.channel_id == blake2b_256(
            ser_params(decoded_constants(ctx.args).params),
        ),
        thread_token_consumed(decoded_constants(ctx.args).thread_token, tx),
{
}

/// When the type script accepts a transaction that consumes and recreates the channel
/// cell, the channel id and every asset's total stay; a dispute also raises the version
/// unless it registers the initial state.
pub proof fn lemma_accepted_progress_keeps_channel(ctx: ContextModel, tx: TxModel)
    requires
        ctx.group_input is Some,
        ctx.group_output is Some,
        type_script_outcome(ctx, tx) == Some(Ok::<(), Error>(())),
    ensures
        ({
            let old = decoded_status(ctx.group_input->0.data);
            let new = decoded_status(ctx.group_output->0.data);
            &&& new.state.channel_id == old.state.channel_id
            &&& equal_in_sum(old.state.balances, new.state.balances)
            &&& version_increases(old, new.state)
            &&& old.funded ==> new.funded
        }),
{
    let c = decoded_constants(ctx.args);
    let i = ctx.group_input->0;
    let o = ctx.group_output->0;
    lemma_progress_keeps_channel(
        decoded_status(i.data),
        decoded_status(o.data),
        decoded_witness(ctx.witness->0),
        c,
        i.lock,
        o.lock,
        ctx.script_hash,
        tx,
    );
}

} // verus!
