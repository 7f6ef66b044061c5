//! The channel's records, their mathematical views, and the bytes each one serializes to.
use vstd::prelude::*;
use crate::bytes::{le_bytes, word};
use crate::layout::{table_bytes, table_fits};

verus! {

/// A script reference: code hash, hash type and arguments.
pub struct Script {
    pub code_hash: Vec<u8>,
    pub hash_type: u8,
    pub args: Vec<u8>,
}

pub ghost struct ScriptModel {
    pub code_hash: Seq<u8>,
    pub hash_type: u8,
    pub args: Seq<u8>,
}

impl View for Script {
    type V = ScriptModel;

    open spec fn view(&self) -> ScriptModel {
        ScriptModel { code_hash: self.code_hash@, hash_type: self.hash_type, args: self.args@ }
    }
}

/// A reference to a ledger output: transaction hash and output index.
pub struct OutPoint {
    pub tx_hash: Vec<u8>,
    pub index: u32,
}

pub ghost struct OutPointModel {
    pub tx_hash: Seq<u8>,
    pub index: u32,
}

impl View for OutPoint {
    type V = OutPointModel;

    open spec fn view(&self) -> OutPointModel {
        OutPointModel { tx_hash: self.tx_hash@, index: self.index }
    }
}

/// The one-shot token whose out point the channel's start consumes.
pub struct ChannelToken {
    pub out_point: OutPoint,
}

impl View for ChannelToken {
    type V = OutPointModel;

    open spec fn view(&self) -> OutPointModel {
        self.out_point@
    }
}

/// One channel party.
pub struct Participant {
    /// SEC1-compressed secp256k1 public key (33 bytes).
    pub pub_key: Vec<u8>,
    pub payment_script_hash: Vec<u8>,
    pub payment_min_capacity: u64,
    pub unlock_script_hash: Vec<u8>,
}

pub ghost struct ParticipantModel {
    pub pub_key: Seq<u8>,
    pub payment_script_hash: Seq<u8>,
    pub payment_min_capacity: u64,
    pub unlock_script_hash: Seq<u8>,
}

impl View for Participant {
    type V = ParticipantModel;

    open spec fn view(&self) -> ParticipantModel {
        ParticipantModel {
            pub_key: self.pub_key@,
            payment_script_hash: self.payment_script_hash@,
            payment_min_capacity: self.payment_min_capacity,
            unlock_script_hash: self.unlock_script_hash@,
        }
    }
}

/// The immutable parameters of a channel; their hash is the channel id.
pub struct ChannelParameters {
    pub party_a: Participant,
    pub party_b: Participant,
    pub nonce: Vec<u8>,
    pub challenge_duration: u64,
    pub app: Option<Vec<u8>>,
    pub is_ledger_channel: bool,
    pub is_virtual_channel: bool,
}

pub ghost struct ParamsModel {
    pub party_a: ParticipantModel,
    pub party_b: ParticipantModel,
    pub nonce: Seq<u8>,
    pub challenge_duration: u64,
    pub app: Option<Seq<u8>>,
    pub is_ledger_channel: bool,
    pub is_virtual_channel: bool,
}

pub open spec fn opt_view(o: Option<Vec<u8>>) -> Option<Seq<u8>> {
    match o {
        Some(v) => Some(v@),
        None => None,
    }
}

impl View for ChannelParameters {
    type V = ParamsModel;

    open spec fn view(&self) -> ParamsModel {
        ParamsModel {
            party_a: self.party_a@,
            party_b: self.party_b@,
            nonce: self.nonce@,
            challenge_duration: self.challenge_duration,
            app: opt_view(self.app),
            is_ledger_channel: self.is_ledger_channel,
            is_virtual_channel: self.is_virtual_channel,
        }
    }
}

/// The constants of a channel, held in the arguments of its type script.
pub struct ChannelConstants {
    pub params: ChannelParameters,
    pub pfls_code_hash: Vec<u8>,
    pub pfls_hash_type: u8,
    pub pfls_min_capacity: u64,
    pub pcls_code_hash: Vec<u8>,
    pub pcls_hash_type: u8,
    pub thread_token: ChannelToken,
}

pub ghost struct ConstantsModel {
    pub params: ParamsModel,
    pub pfls_code_hash: Seq<u8>,
    pub pfls_hash_type: u8,
    pub pfls_min_capacity: u64,
    pub pcls_code_hash: Seq<u8>,
    pub pcls_hash_type: u8,
    pub thread_token: OutPointModel,
}

impl View for ChannelConstants {
    type V = ConstantsModel;

    open spec fn view(&self) -> ConstantsModel {
        ConstantsModel {
            params: self.params@,
            pfls_code_hash: self.pfls_code_hash@,
            pfls_hash_type: self.pfls_hash_type,
            pfls_min_capacity: self.pfls_min_capacity,
            pcls_code_hash: self.pcls_code_hash@,
            pcls_hash_type: self.pcls_hash_type,
            thread_token: self.thread_token@,
        }
    }
}

/// Native-asset amounts of the two parties.
#[derive(Clone, Copy, Debug, PartialEq, Eq, Structural)]
pub struct CKByteDistribution {
    pub nth0: u64,
    pub nth1: u64,
}

/// Token amounts of the two parties.
#[derive(Clone, Copy, Debug, PartialEq, Eq, Structural)]
pub struct SUDTDistribution {
    pub nth0: u128,
    pub nth1: u128,
}

/// A fungible token: its type script and the capacity of a cell that carries it.
pub struct SUDTAsset {
    pub type_script: Script,
    pub max_capacity: u64,
}

pub ghost struct AssetModel {
    pub type_script: ScriptModel,
    pub max_capacity: u64,
}

impl View for SUDTAsset {
    type V = AssetModel;

    open spec fn view(&self) -> AssetModel {
        AssetModel { type_script: self.type_script@, max_capacity: self.max_capacity }
    }
}

/// One token with its distribution.
pub struct SUDTBalances {
    pub asset: SUDTAsset,
    pub distribution: SUDTDistribution,
}

pub ghost struct SudtModel {
    pub asset: AssetModel,
    pub distribution: SUDTDistribution,
}

impl View for SUDTBalances {
    type V = SudtModel;

    open spec fn view(&self) -> SudtModel {
        SudtModel { asset: self.asset@, distribution: self.distribution }
    }
}

/// The tokens of a channel, in their canonical order.
pub struct SUDTAllocation {
    pub entries: Vec<SUDTBalances>,
}

impl View for SUDTAllocation {
    type V = Seq<SudtModel>;

    open spec fn view(&self) -> Seq<SudtModel> {
        self.entries@.map_values(|e: SUDTBalances| e@)
    }
}

/// Balances of the two parties, native and per token.
pub struct Balances {
    pub ckbytes: CKByteDistribution,
    pub sudts: SUDTAllocation,
}

pub ghost struct BalancesModel {
    pub ckbytes: CKByteDistribution,
    pub sudts: Seq<SudtModel>,
}

impl View for Balances {
    type V = BalancesModel;

    open spec fn view(&self) -> BalancesModel {
        BalancesModel { ckbytes: self.ckbytes, sudts: self.sudts@ }
    }
}

/// A state of the channel, as the parties sign it.
pub struct ChannelState {
    pub channel_id: Vec<u8>,
    pub version: u64,
    pub balances: Balances,
    pub is_final: bool,
}

pub ghost struct StateModel {
    pub channel_id: Seq<u8>,
    pub version: u64,
    pub balances: BalancesModel,
    pub is_final: bool,
}

impl View for ChannelState {
    type V = StateModel;

    open spec fn view(&self) -> StateModel {
        StateModel {
            channel_id: self.channel_id@,
            version: self.version,
            balances: self.balances@,
            is_final: self.is_final,
        }
    }
}

/// What the channel cell holds.
pub struct ChannelStatus {
    pub state: ChannelState,
    pub funded: bool,
    pub disputed: bool,
}

pub ghost struct StatusModel {
    pub state: StateModel,
    pub funded: bool,
    pub disputed: bool,
}

impl View for ChannelStatus {
    type V = StatusModel;

    open spec fn view(&self) -> StatusModel {
        StatusModel { state: self.state@, funded: self.funded, disputed: self.disputed }
    }
}

/// What a transaction that consumes the channel cell says it does.
pub enum ChannelWitness {
    Fund,
    Dispute { sig_a: Vec<u8>, sig_b: Vec<u8> },
    Close { state: ChannelState, sig_a: Vec<u8>, sig_b: Vec<u8> },
    ForceClose,
    Abort,
}

pub ghost enum WitnessModel {
    Fund,
    Dispute { sig_a: Seq<u8>, sig_b: Seq<u8> },
    Close { state: StateModel, sig_a: Seq<u8>, sig_b: Seq<u8> },
    ForceClose,
    Abort,
}

impl View for ChannelWitness {
    type V = WitnessModel;

    open spec fn view(&self) -> WitnessModel {
        match self {
            ChannelWitness::Fund => WitnessModel::Fund,
            ChannelWitness::Dispute { sig_a, sig_b } => WitnessModel::Dispute {
                sig_a: sig_a@,
                sig_b: sig_b@,
            },
            ChannelWitness::Close { state, sig_a, sig_b } => WitnessModel::Close {
                state: state@,
                sig_a: sig_a@,
                sig_b: sig_b@,
            },
            ChannelWitness::ForceClose => WitnessModel::ForceClose,
            ChannelWitness::Abort => WitnessModel::Abort,
        }
    }
}

// ---- serialized forms ----

pub open spec fn u32_bytes(x: u32) -> Seq<u8> {
    le_bytes(x as nat, 4)
}

pub open spec fn u64_bytes(x: u64) -> Seq<u8> {
    le_bytes(x as nat, 8)
}

pub open spec fn u128_bytes(x: u128) -> Seq<u8> {
    le_bytes(x as nat, 16)
}

/// A byte string with its length in front.
pub open spec fn bytes_field(s: Seq<u8>) -> Seq<u8> {
    word(s.len()) + s
}

pub open spec fn bytes_fits(s: Seq<u8>) -> bool {
    s.len() + 4 < 0x1_0000_0000
}

/// A boolean: the variant `True` (0) or `False` (1), each an empty table.
pub open spec fn bool_bytes(b: bool) -> Seq<u8> {
    word(if b { 0 } else { 1 }) + word(4)
}

/// An optional byte string: nothing when absent.
pub open spec fn opt_bytes(o: Option<Seq<u8>>) -> Seq<u8> {
    match o {
        Some(s) => bytes_field(s),
        None => seq![],
    }
}

pub open spec fn opt_fits(o: Option<Seq<u8>>) -> bool {
    match o {
        Some(s) => bytes_fits(s),
        None => true,
    }
}

pub open spec fn script_fields(s: ScriptModel) -> Seq<Seq<u8>> {
    seq![s.code_hash, seq![s.hash_type], bytes_field(s.args)]
}

pub open spec fn ser_script(s: ScriptModel) -> Seq<u8> {
    table_bytes(script_fields(s))
}

pub open spec fn wf_script(s: ScriptModel) -> bool {
    &&& s.code_hash.len() == 32
    &&& bytes_fits(s.args)
    &&& table_fits(script_fields(s))
}

pub open spec fn ser_out_point(o: OutPointModel) -> Seq<u8> {
    o.tx_hash + u32_bytes(o.index)
}

pub open spec fn wf_out_point(o: OutPointModel) -> bool {
    o.tx_hash.len() == 32
}

pub open spec fn participant_fields(p: ParticipantModel) -> Seq<Seq<u8>> {
    seq![
        p.pub_key,
        p.payment_script_hash,
        u64_bytes(p.payment_min_capacity),
        p.unlock_script_hash,
    ]
}

pub open spec fn ser_participant(p: ParticipantModel) -> Seq<u8> {
    table_bytes(participant_fields(p))
}

pub open spec fn wf_participant(p: ParticipantModel) -> bool {
    &&& p.pub_key.len() == 33
    &&& p.payment_script_hash.len() == 32
    &&& p.unlock_script_hash.len() == 32
    &&& table_fits(participant_fields(p))
}

pub open spec fn params_fields(p: ParamsModel) -> Seq<Seq<u8>> {
    seq![
        ser_participant(p.party_a),
        ser_participant(p.party_b),
        p.nonce,
        u64_bytes(p.challenge_duration),
        opt_bytes(p.app),
        bool_bytes(p.is_ledger_channel),
        bool_bytes(p.is_virtual_channel),
    ]
}

pub open spec fn ser_params(p: ParamsModel) -> Seq<u8> {
    table_bytes(params_fields(p))
}

pub open spec fn wf_params(p: ParamsModel) -> bool {
    &&& wf_participant(p.party_a)
    &&& wf_participant(p.party_b)
    &&& p.nonce.len() == 32
    &&& opt_fits(p.app)
    &&& table_fits(params_fields(p))
}

pub open spec fn constants_fields(c: ConstantsModel) -> Seq<Seq<u8>> {
    seq![
        ser_params(c.params),
        c.pfls_code_hash,
        seq![c.pfls_hash_type],
        u64_bytes(c.pfls_min_capacity),
        c.pcls_code_hash,
        seq![c.pcls_hash_type],
        ser_out_point(c.thread_token),
    ]
}

pub open spec fn ser_constants(c: ConstantsModel) -> Seq<u8> {
    table_bytes(constants_fields(c))
}

pub open spec fn wf_constants(c: ConstantsModel) -> bool {
    &&& wf_params(c.params)
    &&& c.pfls_code_hash.len() == 32
    &&& c.pcls_code_hash.len() == 32
    &&& wf_out_point(c.thread_token)
    &&& table_fits(constants_fields(c))
}

pub open spec fn ser_ckbytes(d: CKByteDistribution) -> Seq<u8> {
    u64_bytes(d.nth0) + u64_bytes(d.nth1)
}

pub open spec fn ser_sudt_distribution(d: SUDTDistribution) -> Seq<u8> {
    u128_bytes(d.nth0) + u128_bytes(d.nth1)
}

pub open spec fn asset_fields(a: AssetModel) -> Seq<Seq<u8>> {
    seq![ser_script(a.type_script), u64_bytes(a.max_capacity)]
}

pub open spec fn ser_asset(a: AssetModel) -> Seq<u8> {
    table_bytes(asset_fields(a))
}

pub open spec fn wf_asset(a: AssetModel) -> bool {
    &&& wf_script(a.type_script)
    &&& table_fits(asset_fields(a))
}

pub open spec fn sudt_fields(s: SudtModel) -> Seq<Seq<u8>> {
    seq![ser_asset(s.asset), ser_sudt_distribution(s.distribution)]
}

pub open spec fn ser_sudt(s: SudtModel) -> Seq<u8> {
    table_bytes(sudt_fields(s))
}

pub open spec fn wf_sudt(s: SudtModel) -> bool {
    &&& wf_asset(s.asset)
    &&& table_fits(sudt_fields(s))
}

pub open spec fn allocation_items(es: Seq<SudtModel>) -> Seq<Seq<u8>> {
    Seq::new(es.len(), |i: int| ser_sudt(es[i]))
}

pub open spec fn ser_allocation(es: Seq<SudtModel>) -> Seq<u8> {
    table_bytes(allocation_items(es))
}

pub open spec fn wf_allocation(es: Seq<SudtModel>) -> bool {
    &&& forall|i: int| 0 <= i < es.len() ==> wf_sudt(#[trigger] es[i])
    &&& table_fits(allocation_items(es))
}

pub open spec fn balances_fields(b: BalancesModel) -> Seq<Seq<u8>> {
    seq![ser_ckbytes(b.ckbytes), ser_allocation(b.sudts)]
}

pub open spec fn ser_balances(b: BalancesModel) -> Seq<u8> {
    table_bytes(balances_fields(b))
}

pub open spec fn wf_balances(b: BalancesModel) -> bool {
    &&& wf_allocation(b.sudts)
    &&& table_fits(balances_fields(b))
}

pub open spec fn state_fields(s: StateModel) -> Seq<Seq<u8>> {
    seq![s.channel_id, u64_bytes(s.version), ser_balances(s.balances), bool_bytes(s.is_final)]
}

/// The canonical bytes of a state: what is hashed and signed.
pub open spec fn ser_state(s: StateModel) -> Seq<u8> {
    table_bytes(state_fields(s))
}

pub open spec fn wf_state(s: StateModel) -> bool {
    &&& s.channel_id.len() == 32
    &&& wf_balances(s.balances)
    &&& table_fits(state_fields(s))
}

pub open spec fn status_fields(s: StatusModel) -> Seq<Seq<u8>> {
    seq![ser_state(s.state), bool_bytes(s.funded), bool_bytes(s.disputed)]
}

pub open spec fn ser_status(s: StatusModel) -> Seq<u8> {
    table_bytes(status_fields(s))
}

pub open spec fn wf_status(s: StatusModel) -> bool {
    &&& wf_state(s.state)
    &&& table_fits(status_fields(s))
}

/// The variant number and the fields of each witness variant.
pub open spec fn witness_tag(w: WitnessModel) -> nat {
    match w {
        WitnessModel::Fund => 0,
        WitnessModel::Dispute { .. } => 1,
        WitnessModel::Close { .. } => 2,
        WitnessModel::ForceClose => 3,
        WitnessModel::Abort => 4,
    }
}

pub open spec fn witness_fields(w: WitnessModel) -> Seq<Seq<u8>> {
    match w {
        WitnessModel::Dispute { sig_a, sig_b } => seq![bytes_field(sig_a), bytes_field(sig_b)],
        WitnessModel::Close { state, sig_a, sig_b } => seq![
            ser_state(state),
            bytes_field(sig_a),
            bytes_field(sig_b),
        ],
        _ => seq![],
    }
}

pub open spec fn ser_witness(w: WitnessModel) -> Seq<u8> {
    word(witness_tag(w)) + table_bytes(witness_fields(w))
}

pub open spec fn wf_witness(w: WitnessModel) -> bool {
    &&& match w {
        WitnessModel::Dispute { sig_a, sig_b } => bytes_fits(sig_a) && bytes_fits(sig_b),
        WitnessModel::Close { state, sig_a, sig_b } => wf_state(state) && bytes_fits(sig_a)
            && bytes_fits(sig_b),
        _ => true,
    }
    &&& table_fits(witness_fields(w))
}

} // verus!
