use perun_ckb::balances::clone_script;
use perun_ckb::builder::geq_components;
use perun_ckb::crypto::{blake2b256, verify_signature};
use perun_ckb::error::Error;
use perun_ckb::locks::{verify_channel_lock, verify_funds_lock, verify_is_participant, verify_pcts_in_inputs};
use perun_ckb::model::{
    Balances, CKByteDistribution, ChannelConstants, ChannelParameters, ChannelState,
    ChannelStatus, ChannelToken, ChannelWitness, OutPoint, Participant, SUDTAllocation, SUDTAsset,
    SUDTBalances, SUDTDistribution, Script,
};
use perun_ckb::tx::{InputCell, Transaction};

fn script(code: u8, args: Vec<u8>) -> Script {
    Script { code_hash: vec![code; 32], hash_type: 0, args }
}

fn participant(seed: u8) -> Participant {
    Participant {
        pub_key: vec![2; 33],
        payment_script_hash: vec![seed; 32],
        payment_min_capacity: 61,
        unlock_script_hash: vec![seed + 1; 32],
    }
}

fn constants() -> ChannelConstants {
    ChannelConstants {
        params: ChannelParameters {
            party_a: participant(0x10),
            party_b: participant(0x20),
            nonce: vec![9; 32],
            challenge_duration: 600,
            app: None,
            is_ledger_channel: true,
            is_virtual_channel: false,
        },
        pfls_code_hash: vec![0xF1; 32],
        pfls_hash_type: 1,
        pfls_min_capacity: 100,
        pcls_code_hash: vec![0xC1; 32],
        pcls_hash_type: 2,
        thread_token: ChannelToken { out_point: OutPoint { tx_hash: vec![7; 32], index: 1 } },
    }
}

fn sample_state() -> ChannelState {
    ChannelState {
        channel_id: vec![5; 32],
        version: 0x0102_0304_0506_0708,
        balances: Balances {
            ckbytes: CKByteDistribution { nth0: 100, nth1: 50 },
            sudts: SUDTAllocation {
                entries: vec![
                    SUDTBalances {
                        asset: SUDTAsset { type_script: script(0x70, vec![1]), max_capacity: 200 },
                        distribution: SUDTDistribution { nth0: 10, nth1: 20 },
                    },
                    SUDTBalances {
                        asset: SUDTAsset { type_script: script(0x71, vec![]), max_capacity: 300 },
                        distribution: SUDTDistribution { nth0: u128::MAX, nth1: 0 },
                    },
                ],
            },
        },
        is_final: true,
    }
}

fn input(lock_hash: u8, type_hash: Option<u8>) -> InputCell {
    InputCell {
        previous_output: OutPoint { tx_hash: vec![1; 32], index: 0 },
        lock: script(0x55, vec![]),
        lock_hash: vec![lock_hash; 32],
        type_hash: type_hash.map(|h| vec![h; 32]),
    }
}

fn tx(inputs: Vec<InputCell>) -> Transaction {
    Transaction { inputs, outputs: vec![], header_dep_timestamps: vec![] }
}

#[test]
fn error_codes_count_from_one() {
    assert_eq!(Error::IndexOutOfBound.code(), 1);
    assert_eq!(Error::TotalSizeNotMatch.code(), 5);
    assert_eq!(Error::SignatureVerificationError.code(), 10);
    assert_eq!(Error::NoArgs.code(), 11);
    assert_eq!(Error::InvalidSUDTDataLength.code(), 63);
}

#[test]
fn state_round_trip() {
    let s = sample_state();
    let bytes = s.to_bytes();
    let back = ChannelState::from_slice(&bytes).unwrap();
    assert_eq!(back.to_bytes(), bytes);
    assert_eq!(back.version, s.version);
    assert!(back.balances.equal(&s.balances));
    assert_eq!(back.channel_id, s.channel_id);
    assert!(back.is_final);
}

#[test]
fn status_constants_witness_round_trip() {
    let st = ChannelStatus { state: sample_state(), funded: true, disputed: false };
    let bytes = st.to_bytes();
    let back = ChannelStatus::from_slice(&bytes).unwrap();
    assert!(back.funded && !back.disputed);
    assert_eq!(back.to_bytes(), bytes);

    let c = constants();
    let bytes = c.to_bytes();
    let back = ChannelConstants::from_slice(&bytes).unwrap();
    assert_eq!(back.to_bytes(), bytes);
    assert_eq!(back.params.challenge_duration, 600);
    assert_eq!(back.thread_token.out_point.index, 1);

    let w = ChannelWitness::Close { state: sample_state(), sig_a: vec![1, 2, 3], sig_b: vec![] };
    let bytes = w.to_bytes();
    match ChannelWitness::from_slice(&bytes).unwrap() {
        ChannelWitness::Close { state, sig_a, sig_b } => {
            assert_eq!(sig_a, vec![1, 2, 3]);
            assert!(sig_b.is_empty());
            assert_eq!(state.version, 0x0102_0304_0506_0708);
        }
        _ => panic!("wrong variant"),
    }
    for w in [ChannelWitness::Fund, ChannelWitness::ForceClose, ChannelWitness::Abort] {
        let bytes = w.to_bytes();
        assert_eq!(bytes.len(), 8);
        assert_eq!(ChannelWitness::from_slice(&bytes).unwrap().to_bytes(), bytes);
    }
}

#[test]
fn serialized_layout_is_length_prefixed() {
    let s = script(0xAB, vec![7, 8]);
    let bytes = s.to_bytes();
    // header: total size and three offsets, then 32 + 1 + (4 + 2) bytes of fields
    assert_eq!(bytes.len(), 16 + 32 + 1 + 6);
    assert_eq!(&bytes[0..4], &(55u32.to_le_bytes()));
    assert_eq!(&bytes[4..8], &(16u32.to_le_bytes()));
    assert_eq!(&bytes[8..12], &(48u32.to_le_bytes()));
    assert_eq!(&bytes[12..16], &(49u32.to_le_bytes()));
    assert_eq!(&bytes[49..55], &[2, 0, 0, 0, 7, 8]);
    let empty = SUDTAllocation { entries: vec![] };
    let st = ChannelState {
        channel_id: vec![0; 32],
        version: 1,
        balances: Balances { ckbytes: CKByteDistribution { nth0: 1, nth1: 2 }, sudts: empty },
        is_final: false,
    };
    let bytes = st.to_bytes();
    // the final flag is the variant `False` (1) of an empty table
    assert_eq!(&bytes[bytes.len() - 8..], &[1, 0, 0, 0, 4, 0, 0, 0]);
}

#[test]
fn malformed_records_rejected() {
    assert_eq!(ChannelState::from_slice(&[1, 2]).err(), Some(Error::HeaderIsBroken));
    let mut bytes = sample_state().to_bytes();
    bytes[0] ^= 1;
    assert_eq!(ChannelState::from_slice(&bytes).err(), Some(Error::TotalSizeNotMatch));
    let mut bytes = sample_state().to_bytes();
    bytes.push(0);
    assert_eq!(ChannelState::from_slice(&bytes).err(), Some(Error::TotalSizeNotMatch));
    let bytes = script(1, vec![]).to_bytes();
    assert_eq!(ChannelState::from_slice(&bytes).err(), Some(Error::FieldCountNotMatch));
    let mut w = ChannelWitness::Fund.to_bytes();
    w[0] = 5;
    assert_eq!(ChannelWitness::from_slice(&w).err(), Some(Error::UnknownItem));
    let mut bytes = sample_state().to_bytes();
    bytes[4] = 3;
    assert_eq!(ChannelState::from_slice(&bytes).err(), Some(Error::OffsetsNotMatch));
}

#[test]
fn blake2b256_known_digest() {
    let d = blake2b256(&[]);
    assert_eq!(d.len(), 32);
    assert_eq!(
        d[..8],
        [0x0e, 0x57, 0x51, 0xc0, 0x26, 0xe5, 0x43, 0xb2]
    );
    assert_ne!(blake2b256(b"abc"), b"abc".to_vec());
}

#[test]
fn signature_check_rejects_garbage() {
    let digest = blake2b256(b"state");
    assert_eq!(
        verify_signature(&digest, &[0x30, 0x00], &[2; 33]),
        Err(Error::SignatureVerificationError)
    );
}

#[test]
fn channel_lock_accepts_only_participants() {
    let c = constants();
    let args = c.to_bytes();
    let a = tx(vec![input(0x11, None)]);
    assert_eq!(verify_channel_lock(&[], Some(&args), &a), Ok(()));
    let b = tx(vec![input(0x99, None), input(0x21, None)]);
    assert_eq!(verify_channel_lock(&[], Some(&args), &b), Ok(()));
    let none = tx(vec![input(0x99, None), input(0x10, None)]);
    assert_eq!(verify_channel_lock(&[], Some(&args), &none), Err(Error::NotParticipant));
    assert_eq!(verify_channel_lock(&[1], Some(&args), &a), Err(Error::PCLSWithArgs));
    assert_eq!(verify_channel_lock(&[], None, &a), Err(Error::ItemMissing));
    assert_eq!(verify_channel_lock(&[], Some(&vec![0, 1]), &a), Err(Error::HeaderIsBroken));
    assert!(verify_is_participant(&[0x11; 32], &[0x21; 32], &a));
    assert!(!verify_is_participant(&[0x12; 32], &[0x22; 32], &a));
}

#[test]
fn funds_lock_needs_channel_input() {
    let with = tx(vec![input(0x11, Some(0x33)), input(0x12, Some(0x44))]);
    let without = tx(vec![input(0x11, Some(0x33)), input(0x12, None)]);
    assert_eq!(verify_funds_lock(&[0x44; 32], &with), Ok(()));
    assert_eq!(verify_funds_lock(&[0x44; 32], &without), Err(Error::PCTSNotFound));
    assert_eq!(verify_funds_lock(&[], &with), Err(Error::NoArgs));
    assert_eq!(verify_funds_lock(&[0x44; 31], &with), Err(Error::TotalSizeNotMatch));
    assert_eq!(verify_pcts_in_inputs(&[0x33; 32], &without), Ok(()));
}

#[test]
fn distributions_and_balances() {
    let d = CKByteDistribution::from_array([u64::MAX, 5]);
    assert_eq!(d.sum(), u64::MAX as u128 + 5);
    assert_eq!(d.get(1), Ok(5));
    assert_eq!(d.get(2), Err(Error::IndexOutOfBound));
    assert_eq!(d.clear_index(0).unwrap().to_array(), [0, 5]);
    let s = SUDTDistribution::from_array([3, 4]);
    assert_eq!(s.sum(), 7);
    assert!(s.equal_sum(&SUDTDistribution { nth0: 6, nth1: 1 }));
    assert!(!s.equal_sum(&SUDTDistribution { nth0: 6, nth1: 2 }));
    assert_eq!(s.clear_index(1).unwrap().to_array(), [3, 0]);

    let b = sample_state().balances;
    assert_eq!(b.sudts.get_locked_ckbytes(), 500);
    assert_eq!(b.sudts.get_distribution(&script(0x71, vec![])).unwrap().0, 1);
    assert_eq!(
        b.sudts.get_distribution(&script(0x72, vec![])).err(),
        Some(Error::InvalidSUDT)
    );
    assert_eq!(b.sudts.fully_represented(0, &[10, u128::MAX]), Ok(true));
    assert_eq!(b.sudts.fully_represented(1, &[19, 0]), Ok(false));
    let cleared = b.clear_index(1).unwrap();
    assert_eq!(cleared.zero_at_index(1), Ok(true));
    assert_eq!(b.zero_at_index(1), Ok(false));
    assert_eq!(cleared.equal_at_index(&b, 0), Ok(true));
    assert_eq!(cleared.equal_at_index(&b, 1), Ok(false));
    assert_eq!(b.equal_in_sum(&b), Ok(true));
    assert_eq!(cleared.equal_in_sum(&b), Ok(false));
    assert!(!cleared.equal(&b));
    let copy = clone_script(&script(3, vec![4]));
    assert_eq!(copy.args, vec![4]);
}

#[test]
fn close_outputs_carry_each_party_share() {
    let st = ChannelStatus { state: sample_state(), funded: false, disputed: false }.mk_funded();
    assert!(st.funded);
    let locks = vec![script(0xAA, vec![]), script(0xBB, vec![])];
    let cells = st.mk_close_outputs(&locks);
    // two native cells, then two cells per token
    assert_eq!(cells.len(), 6);
    assert_eq!(cells[0].capacity, 100);
    assert_eq!(cells[1].capacity, 50);
    assert_eq!(cells[1].lock.code_hash, vec![0xBB; 32]);
    assert_eq!(cells[2].capacity, 200);
    assert_eq!(cells[2].data, 10u128.to_le_bytes().to_vec());
    assert_eq!(cells[3].data, 20u128.to_le_bytes().to_vec());
    assert!(cells[4].type_script.is_some());
    assert!(cells[5].type_script.is_none() && cells[5].data.is_empty());
    let keys = constants().params.mk_party_pubkeys();
    assert_eq!(keys.len(), 2);
    assert!(geq_components(
        &CKByteDistribution { nth0: 3, nth1: 4 },
        &CKByteDistribution { nth0: 3, nth1: 2 }
    ));
    assert!(!geq_components(
        &CKByteDistribution { nth0: 2, nth1: 4 },
        &CKByteDistribution { nth0: 3, nth1: 2 }
    ));
}
