use k256::ecdsa::signature::hazmat::PrehashSigner;
use k256::ecdsa::{Signature, SigningKey};
use perun_ckb::channel::{verify_channel_type, GroupCell, TypeScriptContext};
use perun_ckb::error::Error;
use perun_ckb::model::{
    Balances, CKByteDistribution, ChannelConstants, ChannelParameters, ChannelState,
    ChannelStatus, ChannelToken, ChannelWitness, OutPoint, Participant, SUDTAllocation, SUDTAsset,
    SUDTBalances, SUDTDistribution, Script,
};
use perun_ckb::tx::{InputCell, OutputCell, Transaction};

const PCTS_HASH: [u8; 32] = [0x99; 32];
const PFLS_CODE: [u8; 32] = [0xF1; 32];
const PCLS_CODE: [u8; 32] = [0xC1; 32];
const PAY_A: [u8; 32] = [0xA1; 32];
const PAY_B: [u8; 32] = [0xB1; 32];
const UNLOCK_A: [u8; 32] = [0xA2; 32];
const UNLOCK_B: [u8; 32] = [0xB2; 32];
const CHANNEL_CAPACITY: u64 = 1000;

fn key(seed: u8) -> SigningKey {
    SigningKey::from_bytes(&[seed; 32].into()).unwrap()
}

fn pub_key(seed: u8) -> Vec<u8> {
    key(seed).verifying_key().to_encoded_point(true).as_bytes().to_vec()
}

fn sign(seed: u8, digest: &[u8]) -> Vec<u8> {
    let sig: Signature = key(seed).sign_prehash(digest).unwrap();
    sig.to_der().as_bytes().to_vec()
}

fn script(code: [u8; 32], args: Vec<u8>) -> Script {
    Script { code_hash: code.to_vec(), hash_type: 1, args }
}

fn token_script() -> Script {
    script([0x70; 32], vec![0x01, 0x02])
}

fn params(min_b: u64, challenge_duration: u64) -> ChannelParameters {
    ChannelParameters {
        party_a: Participant {
            pub_key: pub_key(1),
            payment_script_hash: PAY_A.to_vec(),
            payment_min_capacity: 1,
            unlock_script_hash: UNLOCK_A.to_vec(),
        },
        party_b: Participant {
            pub_key: pub_key(2),
            payment_script_hash: PAY_B.to_vec(),
            payment_min_capacity: min_b,
            unlock_script_hash: UNLOCK_B.to_vec(),
        },
        nonce: vec![0x42; 32],
        challenge_duration,
        app: None,
        is_ledger_channel: true,
        is_virtual_channel: false,
    }
}

fn thread_token() -> OutPoint {
    OutPoint { tx_hash: vec![0x77; 32], index: 3 }
}

fn constants(p: ChannelParameters) -> ChannelConstants {
    ChannelConstants {
        params: p,
        pfls_code_hash: PFLS_CODE.to_vec(),
        pfls_hash_type: 1,
        pfls_min_capacity: 10,
        pcls_code_hash: PCLS_CODE.to_vec(),
        pcls_hash_type: 1,
        thread_token: ChannelToken { out_point: thread_token() },
    }
}

fn balances(a: u64, b: u64, sudts: Vec<(u64, u128, u128)>) -> Balances {
    Balances {
        ckbytes: CKByteDistribution { nth0: a, nth1: b },
        sudts: SUDTAllocation {
            entries: sudts
                .into_iter()
                .map(|(cap, x, y)| SUDTBalances {
                    asset: SUDTAsset { type_script: token_script(), max_capacity: cap },
                    distribution: SUDTDistribution { nth0: x, nth1: y },
                })
                .collect(),
        },
    }
}

fn state(c: &ChannelConstants, version: u64, bal: Balances, is_final: bool) -> ChannelState {
    ChannelState { channel_id: c.params.channel_id(), version, balances: bal, is_final }
}

fn status(st: ChannelState, funded: bool, disputed: bool) -> ChannelStatus {
    ChannelStatus { state: st, funded, disputed }
}

fn pcls() -> Script {
    script(PCLS_CODE, vec![])
}

fn cell(st: &ChannelStatus) -> GroupCell {
    GroupCell { lock: pcls(), capacity: CHANNEL_CAPACITY, data: st.to_bytes() }
}

fn input(tx_hash: u8, lock_hash: [u8; 32]) -> InputCell {
    InputCell {
        previous_output: OutPoint { tx_hash: vec![tx_hash; 32], index: 0 },
        lock: script([0x55; 32], vec![]),
        lock_hash: lock_hash.to_vec(),
        type_hash: None,
    }
}

fn token_input() -> InputCell {
    InputCell {
        previous_output: thread_token(),
        lock: script([0x55; 32], vec![]),
        lock_hash: UNLOCK_A.to_vec(),
        type_hash: None,
    }
}

fn pfls_output(capacity: u64, tokens: Option<u128>) -> OutputCell {
    OutputCell {
        lock: script(PFLS_CODE, PCTS_HASH.to_vec()),
        lock_hash: vec![0x33; 32],
        type_script: tokens.map(|_| token_script()),
        capacity,
        data: tokens.map(|t| t.to_le_bytes().to_vec()).unwrap_or_default(),
    }
}

fn channel_output() -> OutputCell {
    OutputCell {
        lock: pcls(),
        lock_hash: vec![0x44; 32],
        type_script: Some(script([0x98; 32], vec![])),
        capacity: CHANNEL_CAPACITY,
        data: vec![],
    }
}

fn payment(to: [u8; 32], capacity: u64, tokens: Option<u128>) -> OutputCell {
    OutputCell {
        lock: script([0x66; 32], vec![]),
        lock_hash: to.to_vec(),
        type_script: tokens.map(|_| token_script()),
        capacity,
        data: tokens.map(|t| t.to_le_bytes().to_vec()).unwrap_or_default(),
    }
}

fn tx(inputs: Vec<InputCell>, outputs: Vec<OutputCell>, headers: Vec<u64>) -> Transaction {
    Transaction { inputs, outputs, header_dep_timestamps: headers }
}

fn ctx(
    c: &ChannelConstants,
    old: Option<&ChannelStatus>,
    new: Option<&ChannelStatus>,
    witness: Option<&ChannelWitness>,
    opened: Option<u64>,
) -> TypeScriptContext {
    TypeScriptContext {
        script_hash: PCTS_HASH.to_vec(),
        args: c.to_bytes(),
        group_input_count: old.is_some() as usize,
        group_output_count: new.is_some() as usize,
        group_input: old.map(cell),
        group_output: new.map(cell),
        witness: witness.map(|w| w.to_bytes()),
        group_input_timestamp: opened,
    }
}

fn close_witness(st: ChannelState) -> ChannelWitness {
    let digest = st.digest();
    ChannelWitness::Close { sig_a: sign(1, &digest), sig_b: sign(2, &digest), state: st }
}

fn dispute_witness(st: &ChannelState) -> ChannelWitness {
    let digest = st.digest();
    ChannelWitness::Dispute { sig_a: sign(1, &digest), sig_b: sign(2, &digest) }
}

#[test]
fn open_fund_close_happy_path() {
    let c = constants(params(1, 10_000));
    let initial = status(state(&c, 0, balances(100, 50, vec![]), false), false, false);
    let start_tx = tx(
        vec![token_input()],
        vec![channel_output(), pfls_output(100, None)],
        vec![],
    );
    assert_eq!(verify_channel_type(&ctx(&c, None, Some(&initial), None, None), &start_tx), Ok(()));

    let funded = status(state(&c, 0, balances(100, 50, vec![]), false), true, false);
    let fund_tx = tx(
        vec![input(0x10, UNLOCK_B)],
        vec![channel_output(), pfls_output(50, None)],
        vec![],
    );
    let fund = ChannelWitness::Fund;
    assert_eq!(
        verify_channel_type(&ctx(&c, Some(&initial), Some(&funded), Some(&fund), None), &fund_tx),
        Ok(())
    );

    let close = close_witness(state(&c, 3, balances(80, 70, vec![]), true));
    let close_tx = tx(
        vec![input(0x11, UNLOCK_A)],
        vec![payment(PAY_A, 80 + CHANNEL_CAPACITY, None), payment(PAY_B, 70, None)],
        vec![],
    );
    assert_eq!(
        verify_channel_type(&ctx(&c, Some(&funded), None, Some(&close), None), &close_tx),
        Ok(())
    );
}

#[test]
fn dispute_then_force_close() {
    let c = constants(params(1, 10_000));
    let funded = status(state(&c, 0, balances(100, 50, vec![]), false), true, false);
    let disputed_state = state(&c, 5, balances(60, 90, vec![]), false);
    let dispute = dispute_witness(&disputed_state);
    let disputed = status(disputed_state, true, true);
    let dispute_tx = tx(vec![input(0x12, UNLOCK_A)], vec![channel_output()], vec![]);
    assert_eq!(
        verify_channel_type(&ctx(&c, Some(&funded), Some(&disputed), Some(&dispute), None), &dispute_tx),
        Ok(())
    );

    let opened = 1_000_000u64;
    let outputs = vec![payment(PAY_A, 60 + CHANNEL_CAPACITY, None), payment(PAY_B, 90, None)];
    let late = tx(vec![input(0x13, UNLOCK_A)], outputs, vec![opened + 10_001]);
    let force = ChannelWitness::ForceClose;
    assert_eq!(
        verify_channel_type(&ctx(&c, Some(&disputed), None, Some(&force), Some(opened)), &late),
        Ok(())
    );
    let outputs = vec![payment(PAY_A, 60 + CHANNEL_CAPACITY, None), payment(PAY_B, 90, None)];
    let early = tx(vec![input(0x13, UNLOCK_A)], outputs, vec![opened + 9_999]);
    assert_eq!(
        verify_channel_type(&ctx(&c, Some(&disputed), None, Some(&force), Some(opened)), &early),
        Err(Error::TimeLockNotExpired)
    );
}

#[test]
fn abort_before_full_funding() {
    let c = constants(params(1, 10_000));
    let unfunded = status(state(&c, 0, balances(100, 50, vec![]), false), false, false);
    let abort = ChannelWitness::Abort;
    let run = |outputs: Vec<OutputCell>| {
        let t = tx(vec![input(0x14, UNLOCK_A)], outputs, vec![]);
        verify_channel_type(&ctx(&c, Some(&unfunded), None, Some(&abort), None), &t)
    };
    assert_eq!(run(vec![payment(PAY_A, 100 + CHANNEL_CAPACITY, None)]), Ok(()));
    assert_eq!(
        run(vec![payment(PAY_A, 100 + CHANNEL_CAPACITY, None), payment(PAY_B, 7, None)]),
        Ok(())
    );
    assert_eq!(
        run(vec![payment(PAY_A, 99 + CHANNEL_CAPACITY, None)]),
        Err(Error::NotAllPayed)
    );
}

#[test]
fn stale_final_state_close_is_accepted() {
    let c = constants(params(1, 10_000));
    let disputed = status(state(&c, 9, balances(60, 90, vec![]), false), true, true);
    let close = close_witness(state(&c, 7, balances(80, 70, vec![]), true));
    let close_tx = tx(
        vec![input(0x15, UNLOCK_B)],
        vec![payment(PAY_A, 80 + CHANNEL_CAPACITY, None), payment(PAY_B, 70, None)],
        vec![],
    );
    assert_eq!(
        verify_channel_type(&ctx(&c, Some(&disputed), None, Some(&close), None), &close_tx),
        Ok(())
    );
}

#[test]
fn dual_asset_funding_and_close() {
    let c = constants(params(1, 10_000));
    let bal = || balances(100, 50, vec![(200, 10, 20)]);
    let initial = status(state(&c, 0, bal(), false), false, false);
    let start_tx = tx(
        vec![token_input()],
        vec![channel_output(), pfls_output(100, None), pfls_output(200, Some(10))],
        vec![],
    );
    assert_eq!(verify_channel_type(&ctx(&c, None, Some(&initial), None, None), &start_tx), Ok(()));

    let funded = status(state(&c, 0, bal(), false), true, false);
    let fund_tx = tx(
        vec![input(0x16, UNLOCK_B)],
        vec![channel_output(), pfls_output(50, None), pfls_output(200, Some(20))],
        vec![],
    );
    let fund = ChannelWitness::Fund;
    assert_eq!(
        verify_channel_type(&ctx(&c, Some(&initial), Some(&funded), Some(&fund), None), &fund_tx),
        Ok(())
    );
    let short_fund_tx = tx(
        vec![input(0x16, UNLOCK_B)],
        vec![channel_output(), pfls_output(50, None), pfls_output(200, Some(19))],
        vec![],
    );
    assert_eq!(
        verify_channel_type(&ctx(&c, Some(&initial), Some(&funded), Some(&fund), None), &short_fund_tx),
        Err(Error::OwnFundingNotInOutputs)
    );

    let close = close_witness(state(&c, 1, bal(), true));
    let close_tx = tx(
        vec![input(0x17, UNLOCK_A)],
        vec![
            payment(PAY_A, 200, Some(10)),
            payment(PAY_A, 100 + CHANNEL_CAPACITY, None),
            payment(PAY_B, 200, Some(20)),
            payment(PAY_B, 50, None),
        ],
        vec![],
    );
    assert_eq!(
        verify_channel_type(&ctx(&c, Some(&funded), None, Some(&close), None), &close_tx),
        Ok(())
    );
    let short_close_tx = tx(
        vec![input(0x17, UNLOCK_A)],
        vec![
            payment(PAY_A, 200, Some(10)),
            payment(PAY_A, 100 + CHANNEL_CAPACITY, None),
            payment(PAY_B, 200, Some(19)),
            payment(PAY_B, 50, None),
        ],
        vec![],
    );
    assert_eq!(
        verify_channel_type(&ctx(&c, Some(&funded), None, Some(&close), None), &short_close_tx),
        Err(Error::NotAllPayed)
    );
}

#[test]
fn dust_balance_may_be_forfeited() {
    let c = constants(params(6100_0000, 10_000));
    let funded = status(state(&c, 0, balances(100, 5000_0000, vec![]), false), true, false);
    let close = close_witness(state(&c, 2, balances(100, 5000_0000, vec![]), true));
    let close_tx = tx(
        vec![input(0x18, UNLOCK_A)],
        vec![payment(PAY_A, 100 + CHANNEL_CAPACITY, None)],
        vec![],
    );
    assert_eq!(
        verify_channel_type(&ctx(&c, Some(&funded), None, Some(&close), None), &close_tx),
        Ok(())
    );
}

#[test]
fn dispute_must_raise_version() {
    let c = constants(params(1, 10_000));
    let old = status(state(&c, 4, balances(100, 50, vec![]), false), true, true);
    let new_state = state(&c, 4, balances(90, 60, vec![]), false);
    let dispute = dispute_witness(&new_state);
    let new = status(new_state, true, true);
    let t = tx(vec![input(0x19, UNLOCK_A)], vec![channel_output()], vec![]);
    assert_eq!(
        verify_channel_type(&ctx(&c, Some(&old), Some(&new), Some(&dispute), None), &t),
        Err(Error::VersionNumberNotIncreasing)
    );
}

#[test]
fn dispute_may_register_initial_state() {
    let c = constants(params(1, 10_000));
    let old = status(state(&c, 0, balances(100, 50, vec![]), false), true, false);
    let new_state = state(&c, 0, balances(100, 50, vec![]), false);
    let dispute = dispute_witness(&new_state);
    let new = status(new_state, true, true);
    let t = tx(vec![input(0x19, UNLOCK_A)], vec![channel_output()], vec![]);
    assert_eq!(
        verify_channel_type(&ctx(&c, Some(&old), Some(&new), Some(&dispute), None), &t),
        Ok(())
    );
}

#[test]
fn dispute_must_keep_totals() {
    let c = constants(params(1, 10_000));
    let old = status(state(&c, 1, balances(100, 50, vec![]), false), true, false);
    let new_state = state(&c, 2, balances(100, 51, vec![]), false);
    let dispute = dispute_witness(&new_state);
    let new = status(new_state, true, true);
    let t = tx(vec![input(0x1a, UNLOCK_A)], vec![channel_output()], vec![]);
    assert_eq!(
        verify_channel_type(&ctx(&c, Some(&old), Some(&new), Some(&dispute), None), &t),
        Err(Error::SumOfBalancesNotEqual)
    );
}

#[test]
fn close_needs_both_signatures() {
    let c = constants(params(1, 10_000));
    let funded = status(state(&c, 0, balances(100, 50, vec![]), false), true, false);
    let st = state(&c, 3, balances(80, 70, vec![]), true);
    let digest = st.digest();
    let close = ChannelWitness::Close { sig_a: sign(1, &digest), sig_b: sign(3, &digest), state: st };
    let close_tx = tx(
        vec![input(0x1b, UNLOCK_A)],
        vec![payment(PAY_A, 80 + CHANNEL_CAPACITY, None), payment(PAY_B, 70, None)],
        vec![],
    );
    assert_eq!(
        verify_channel_type(&ctx(&c, Some(&funded), None, Some(&close), None), &close_tx),
        Err(Error::SignatureVerificationError)
    );
}

#[test]
fn close_needs_final_state() {
    let c = constants(params(1, 10_000));
    let funded = status(state(&c, 0, balances(100, 50, vec![]), false), true, false);
    let close = close_witness(state(&c, 3, balances(80, 70, vec![]), false));
    let close_tx = tx(
        vec![input(0x1b, UNLOCK_A)],
        vec![payment(PAY_A, 80 + CHANNEL_CAPACITY, None), payment(PAY_B, 70, None)],
        vec![],
    );
    assert_eq!(
        verify_channel_type(&ctx(&c, Some(&funded), None, Some(&close), None), &close_tx),
        Err(Error::StateNotFinal)
    );
}

#[test]
fn abort_of_funded_channel_rejected() {
    let c = constants(params(1, 10_000));
    let funded = status(state(&c, 0, balances(100, 50, vec![]), false), true, false);
    let abort = ChannelWitness::Abort;
    let t = tx(
        vec![input(0x1c, UNLOCK_A)],
        vec![payment(PAY_A, 100 + CHANNEL_CAPACITY, None), payment(PAY_B, 50, None)],
        vec![],
    );
    assert_eq!(
        verify_channel_type(&ctx(&c, Some(&funded), None, Some(&abort), None), &t),
        Err(Error::StateIsFunded)
    );
}

#[test]
fn force_close_needs_dispute_and_header() {
    let c = constants(params(1, 10_000));
    let funded = status(state(&c, 0, balances(100, 50, vec![]), false), true, false);
    let force = ChannelWitness::ForceClose;
    let outputs = || vec![payment(PAY_A, 100 + CHANNEL_CAPACITY, None), payment(PAY_B, 50, None)];
    let t = tx(vec![input(0x1d, UNLOCK_A)], outputs(), vec![50_000]);
    assert_eq!(
        verify_channel_type(&ctx(&c, Some(&funded), None, Some(&force), Some(1)), &t),
        Err(Error::StatusNotDisputed)
    );
    let t = tx(vec![input(0x1d, UNLOCK_A)], outputs(), vec![50_000]);
    assert_eq!(
        verify_channel_type(&ctx(&c, Some(&funded), None, Some(&force), None), &t),
        Err(Error::ItemMissing)
    );
}

#[test]
fn start_without_thread_token_rejected() {
    let c = constants(params(1, 10_000));
    let initial = status(state(&c, 0, balances(100, 50, vec![]), false), false, false);
    let t = tx(
        vec![input(0x20, UNLOCK_A)],
        vec![channel_output(), pfls_output(100, None)],
        vec![],
    );
    assert_eq!(
        verify_channel_type(&ctx(&c, None, Some(&initial), None, None), &t),
        Err(Error::InvalidThreadToken)
    );
}

#[test]
fn start_with_wrong_channel_id_rejected() {
    let c = constants(params(1, 10_000));
    let mut st = state(&c, 0, balances(100, 50, vec![]), false);
    st.channel_id[0] ^= 1;
    let initial = status(st, false, false);
    let t = tx(vec![token_input()], vec![channel_output(), pfls_output(100, None)], vec![]);
    assert_eq!(
        verify_channel_type(&ctx(&c, None, Some(&initial), None, None), &t),
        Err(Error::InvalidChannelId)
    );
}

#[test]
fn start_funded_bit_must_match() {
    let c = constants(params(1, 10_000));
    let only_a = status(state(&c, 0, balances(100, 0, vec![]), false), true, false);
    let t = tx(vec![token_input()], vec![channel_output(), pfls_output(100, None)], vec![]);
    assert_eq!(verify_channel_type(&ctx(&c, None, Some(&only_a), None, None), &t), Ok(()));
    let wrong = status(state(&c, 0, balances(100, 50, vec![]), false), true, false);
    let t = tx(vec![token_input()], vec![channel_output(), pfls_output(100, None)], vec![]);
    assert_eq!(
        verify_channel_type(&ctx(&c, None, Some(&wrong), None, None), &t),
        Err(Error::FundedBitStatusNotCorrect)
    );
}

#[test]
fn start_rejects_funds_in_inputs_and_wrong_pfls_args() {
    let c = constants(params(1, 10_000));
    let initial = status(state(&c, 0, balances(100, 50, vec![]), false), false, false);
    let mut funds = input(0x21, UNLOCK_A);
    funds.lock = script(PFLS_CODE, PCTS_HASH.to_vec());
    let t = tx(
        vec![token_input(), funds],
        vec![channel_output(), pfls_output(100, None)],
        vec![],
    );
    assert_eq!(
        verify_channel_type(&ctx(&c, None, Some(&initial), None, None), &t),
        Err(Error::FundsInInputs)
    );
    let mut wrong = pfls_output(100, None);
    wrong.lock.args = vec![0x98; 32];
    let t = tx(vec![token_input()], vec![channel_output(), wrong], vec![]);
    assert_eq!(
        verify_channel_type(&ctx(&c, None, Some(&initial), None, None), &t),
        Err(Error::InvalidPFLSInOutputs)
    );
}

#[test]
fn unknown_token_in_payment_rejected() {
    let c = constants(params(1, 10_000));
    let funded = status(state(&c, 0, balances(100, 50, vec![]), false), true, false);
    let close = close_witness(state(&c, 3, balances(80, 70, vec![]), true));
    let close_tx = tx(
        vec![input(0x22, UNLOCK_A)],
        vec![payment(PAY_A, 80 + CHANNEL_CAPACITY, Some(5)), payment(PAY_B, 70, None)],
        vec![],
    );
    assert_eq!(
        verify_channel_type(&ctx(&c, Some(&funded), None, Some(&close), None), &close_tx),
        Err(Error::InvalidSUDT)
    );
}

#[test]
fn wrong_witness_for_action_rejected() {
    let c = constants(params(1, 10_000));
    let funded = status(state(&c, 0, balances(100, 50, vec![]), false), true, false);
    let t = tx(vec![input(0x23, UNLOCK_A)], vec![], vec![]);
    let fund = ChannelWitness::Fund;
    assert_eq!(
        verify_channel_type(&ctx(&c, Some(&funded), None, Some(&fund), None), &t),
        Err(Error::ChannelFundWithoutChannelOutput)
    );
    let abort = ChannelWitness::Abort;
    let t = tx(vec![input(0x23, UNLOCK_A)], vec![channel_output()], vec![]);
    assert_eq!(
        verify_channel_type(&ctx(&c, Some(&funded), Some(&funded), Some(&abort), None), &t),
        Err(Error::ChannelAbortWithChannelOutput)
    );
    let t = tx(vec![input(0x23, UNLOCK_A)], vec![], vec![]);
    assert_eq!(
        verify_channel_type(&ctx(&c, Some(&funded), None, None, None), &t),
        Err(Error::NoWitness)
    );
}

#[test]
fn type_script_shape_errors() {
    let c = constants(params(1, 10_000));
    let t = tx(vec![], vec![], vec![]);
    let mut cx = ctx(&c, None, None, None, None);
    assert_eq!(verify_channel_type(&cx, &t), Err(Error::UnableToLoadAnyChannelStatus));
    cx.group_input_count = 2;
    assert_eq!(verify_channel_type(&cx, &t), Err(Error::MoreThanOneChannel));
    cx.args = vec![];
    assert_eq!(verify_channel_type(&cx, &t), Err(Error::NoArgs));
    let mut p = params(1, 10_000);
    p.is_virtual_channel = true;
    let cx = ctx(&constants(p), None, None, None, None);
    assert_eq!(verify_channel_type(&cx, &t), Err(Error::VirtualChannelsNotSupported));
    let mut p = params(1, 10_000);
    p.app = Some(vec![1, 2, 3]);
    let cx = ctx(&constants(p), None, None, None, None);
    assert_eq!(verify_channel_type(&cx, &t), Err(Error::AppChannelsNotSupported));
}

#[test]
fn dispute_with_tokens_keeps_per_asset_totals() {
    let c = constants(params(1, 10_000));
    let old = status(state(&c, 1, balances(100, 50, vec![(200, 10, 20)]), false), true, false);
    let moved = state(&c, 2, balances(120, 30, vec![(200, 25, 5)]), false);
    let dispute = dispute_witness(&moved);
    let new = status(moved, true, true);
    let t = tx(vec![input(0x24, UNLOCK_B)], vec![channel_output()], vec![]);
    assert_eq!(
        verify_channel_type(&ctx(&c, Some(&old), Some(&new), Some(&dispute), None), &t),
        Ok(())
    );
    let minted = state(&c, 2, balances(120, 30, vec![(200, 25, 6)]), false);
    let dispute = dispute_witness(&minted);
    let new = status(minted, true, true);
    assert_eq!(
        verify_channel_type(&ctx(&c, Some(&old), Some(&new), Some(&dispute), None), &t),
        Err(Error::SumOfBalancesNotEqual)
    );
}

#[test]
fn fund_after_dispute_rejected() {
    let c = constants(params(1, 10_000));
    let old = status(state(&c, 5, balances(100, 50, vec![]), false), false, true);
    let new = status(state(&c, 5, balances(100, 50, vec![]), false), true, false);
    let fund = ChannelWitness::Fund;
    let t = tx(
        vec![input(0x25, UNLOCK_B)],
        vec![channel_output(), pfls_output(50, None)],
        vec![],
    );
    assert_eq!(
        verify_channel_type(&ctx(&c, Some(&old), Some(&new), Some(&fund), None), &t),
        Err(Error::VersionNumberNotIncreasing)
    );
}

#[test]
fn dispute_cannot_clear_funded_bit() {
    let c = constants(params(1, 10_000));
    let old = status(state(&c, 0, balances(100, 50, vec![]), false), true, false);
    let newer = state(&c, 5, balances(60, 90, vec![]), false);
    let dispute = dispute_witness(&newer);
    let new = status(newer, false, true);
    let t = tx(vec![input(0x26, UNLOCK_A)], vec![channel_output()], vec![]);
    assert_eq!(
        verify_channel_type(&ctx(&c, Some(&old), Some(&new), Some(&dispute), None), &t),
        Err(Error::FundedBitStatusNotCorrect)
    );
}

#[test]
fn funds_lock_args_of_wrong_length_rejected() {
    let c = constants(params(1, 10_000));
    let initial = status(state(&c, 0, balances(100, 50, vec![]), false), false, false);
    let mut short = pfls_output(100, None);
    short.lock.args = vec![0x99; 31];
    let t = tx(vec![token_input()], vec![channel_output(), short], vec![]);
    assert_eq!(
        verify_channel_type(&ctx(&c, None, Some(&initial), None, None), &t),
        Err(Error::InvalidPFLSInOutputs)
    );
}

#[test]
fn token_dust_may_be_forfeited() {
    let bal = || balances(100, 50, vec![(200, 10, 20)]);
    let run = |min_b: u64| {
        let c = constants(params(min_b, 10_000));
        let funded = status(state(&c, 0, bal(), false), true, false);
        let close = close_witness(state(&c, 1, bal(), true));
        let close_tx = tx(
            vec![input(0x27, UNLOCK_A)],
            vec![
                payment(PAY_A, 200, Some(10)),
                payment(PAY_A, 100 + CHANNEL_CAPACITY, None),
                payment(PAY_B, 250, None),
            ],
            vec![],
        );
        verify_channel_type(&ctx(&c, Some(&funded), None, Some(&close), None), &close_tx)
    };
    assert_eq!(run(100), Ok(()));
    assert_eq!(run(1), Err(Error::NotAllPayed));
}
