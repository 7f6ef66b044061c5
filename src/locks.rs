//! The two lock scripts: the channel lock (only a participant may drive the channel)
//! and the funds lock (funds move only together with the channel cell).
use vstd::prelude::*;
use crate::codec::{parse_constants, constants_at};
use crate::error::Error;
use crate::model::ConstantsModel;
use crate::tx::{Transaction, TxModel, bytes_eq};

verus! {

/// Some input of `tx` is locked by one of the two given lock hashes.
pub open spec fn participant_present(tx: TxModel, hash_a: Seq<u8>, hash_b: Seq<u8>) -> bool {
    exists|i: int|
        0 <= i < tx.inputs.len() && (#[trigger] tx.inputs[i].lock_hash == hash_a
            || tx.inputs[i].lock_hash == hash_b)
}

/// Whether some input of the transaction is locked by one of the two unlock script hashes.
pub fn verify_is_participant(
    unlock_script_hash_a: &[u8],
    unlock_script_hash_b: &[u8],
    tx: &Transaction,
) -> (r: bool)
    ensures
        r == participant_present(tx@, unlock_script_hash_a@, unlock_script_hash_b@),
{
    let mut i: usize = 0;
    while i < tx.inputs.len()
        invariant
            i <= tx.inputs@.len(),
            forall|j: int|
                0 <= j < i ==> !(#[trigger] tx@.inputs[j].lock_hash == unlock_script_hash_a@
                    || tx@.inputs[j].lock_hash == unlock_script_hash_b@),
        decreases tx.inputs@.len() - i,
    {
        let h = tx.inputs[i].lock_hash.as_slice();
        if bytes_eq(h, unlock_script_hash_a) || bytes_eq(h, unlock_script_hash_b) {
            assert(tx@.inputs[i as int] == tx.inputs@[i as int]@);
            assert(tx@.inputs[i as int].lock_hash == unlock_script_hash_a@
                || tx@.inputs[i as int].lock_hash == unlock_script_hash_b@);
            return true;
        }
        assert(tx@.inputs[i as int] == tx.inputs@[i as int]@);
        i = i + 1;
    }
    false
}

/// The channel lock accepts: it has no arguments, the channel cell's type script holds
/// channel constants, and a participant's unlock script locks some input.
pub open spec fn channel_lock_accepts(args: Seq<u8>, type_args: Option<Seq<u8>>, tx: TxModel) -> bool {
    &&& args.len() == 0
    &&& type_args is Some
    &&& exists|c: ConstantsModel|
        #[trigger] constants_at(type_args->0, 0, type_args->0.len() as int, c) && participant_present(
            tx,
            c.params.party_a.unlock_script_hash,
            c.params.party_b.unlock_script_hash,
        )
}

/// The channel lock script. `args` are its own arguments; `type_args` are the arguments of
/// the type script of the channel cell it guards, if that cell has one.
pub fn verify_channel_lock(args: &[u8], type_args: Option<&Vec<u8>>, tx: &Transaction) -> (r: Result<
    (),
    Error,
>)
    ensures
        r is Ok <==> channel_lock_accepts(
            args@,
            match type_args {
                Some(a) => Some(a@),
                None => None,
            },
            tx@,
        ),
        args@.len() != 0 ==> r == Err::<(), Error>(Error::PCLSWithArgs),
        args@.len() == 0 && type_args is None ==> r == Err::<(), Error>(Error::ItemMissing),
        r is Err && args@.len() == 0 && type_args is Some ==> r->Err_0 == Error::NotParticipant
            || r->Err_0.is_format_error(),
{
    if args.len() != 0 {
        return Err(Error::PCLSWithArgs);
    }
    let ta = match type_args {
        Some(a) => a,
        None => {
            return Err(Error::ItemMissing);
        },
    };
    let constants = match parse_constants(ta.as_slice(), 0, ta.len()) {
        Ok(c) => c,
        Err(e) => {
            proof {
                assert(ta@.subrange(0, ta@.len() as int) =~= ta@);
            }
            return Err(e);
        },
    };
    proof {
        assert(ta@.subrange(0, ta@.len() as int) =~= ta@);
        assert(constants_at(ta@, 0, ta@.len() as int, constants@));
        assert forall|c: ConstantsModel| #[trigger] constants_at(ta@, 0, ta@.len() as int, c) implies c
            == constants@ by {}
    }
    let a = constants.params.party_a.unlock_script_hash.as_slice();
    let b = constants.params.party_b.unlock_script_hash.as_slice();
    if !verify_is_participant(a, b, tx) {
        return Err(Error::NotParticipant);
    }
    proof {
        assert(participant_present(
            tx@,
            constants@.params.party_a.unlock_script_hash,
            constants@.params.party_b.unlock_script_hash,
        ));
        let c = constants@;
        assert(constants_at(ta@, 0, ta@.len() as int, c) && participant_present(
            tx@,
            c.params.party_a.unlock_script_hash,
            c.params.party_b.unlock_script_hash,
        ));
        let o: Option<Seq<u8>> = Some(ta@);
        assert(o->0 == ta@);
        assert(channel_lock_accepts(args@, o, tx@));
    }
    Ok(())
}

/// Some input of `tx` carries a type script with the given hash.
pub open spec fn pcts_present(tx: TxModel, pcts_script_hash: Seq<u8>) -> bool {
    exists|i: int|
        0 <= i < tx.inputs.len() && #[trigger] tx.inputs[i].type_hash == Some(pcts_script_hash)
}

/// Succeeds when some input carries the channel type script with the given hash.
pub fn verify_pcts_in_inputs(pcts_script_hash: &[u8], tx: &Transaction) -> (r: Result<(), Error>)
    ensures
        r is Ok <==> pcts_present(tx@, pcts_script_hash@),
        r is Err ==> r->Err_0 == Error::PCTSNotFound,
{
    let mut i: usize = 0;
    while i < tx.inputs.len()
        invariant
            i <= tx.inputs@.len(),
            forall|j: int|
                0 <= j < i ==> #[trigger] tx@.inputs[j].type_hash != Some(pcts_script_hash@),
        decreases tx.inputs@.len() - i,
    {
        assert(tx@.inputs[i as int] == tx.inputs@[i as int]@);
        match &tx.inputs[i].type_hash {
            Some(h) => {
                if bytes_eq(h.as_slice(), pcts_script_hash) {
                    assert(tx@.inputs[i as int].type_hash == Some(pcts_script_hash@));
                    return Ok(());
                }
            },
            None => {},
        }
        i = i + 1;
    }
    Err(Error::PCTSNotFound)
}

/// The funds lock script: its arguments are the 32-byte hash of the channel type script,
/// and a cell it locks may be spent only beside an input that carries that script.
pub fn verify_funds_lock(args: &[u8], tx: &Transaction) -> (r: Result<(), Error>)
    ensures
        r is Ok <==> args@.len() == 32 && pcts_present(tx@, args@),
        args@.len() == 0 ==> r == Err::<(), Error>(Error::NoArgs),
        args@.len() != 0 && args@.len() != 32 ==> r == Err::<(), Error>(Error::TotalSizeNotMatch),
        args@.len() == 32 && r is Err ==> r->Err_0 == Error::PCTSNotFound,
{
    if args.len() == 0 {
        return Err(Error::NoArgs);
    }
    if args.len() != 32 {
        return Err(Error::TotalSizeNotMatch);
    }
    verify_pcts_in_inputs(args, tx)
}

} // verus!
