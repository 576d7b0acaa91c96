//! Laws that relate several operations of the registry, proved from the
//! contracts stated in [`crate::registry`].

use vstd::prelude::*;

use crate::registry::{
    held_by, kitty_of, lemma_remove_dna_contains, lookup_kitty, register_ok, spec_gender_of,
    transfer_ok, wf, PalletView,
};
use crate::types::Gender;

verus! {

/// Uniqueness-count law: a chain of successful registrations raises the
/// running count by exactly the number of registrations, so `n`
/// registrations starting from a fresh state end with count `n`.
pub proof fn lemma_count_after_registrations(
    states: Seq<PalletView>,
    whos: Seq<u64>,
    dnas: Seq<Seq<u8>>,
    prices: Seq<u32>,
)
    requires
        states.len() >= 1,
        whos.len() == states.len() - 1,
        dnas.len() == states.len() - 1,
        prices.len() == states.len() - 1,
        forall|k: int|
            0 <= k < states.len() - 1 ==> register_ok(
                #[trigger] states[k],
                states[k + 1],
                whos[k],
                dnas[k],
                prices[k],
            ),
    ensures
        states.last().total == states[0].total + states.len() - 1,
    decreases states.len(),
{
    if states.len() > 1 {
        let n = states.len() - 1;
        assert forall|k: int| 0 <= k < n - 1 implies register_ok(
            #[trigger] states.drop_last()[k],
            states.drop_last()[k + 1],
            whos.drop_last()[k],
            dnas.drop_last()[k],
            prices.drop_last()[k],
        ) by {
            assert(register_ok(states[k], states[k + 1], whos[k], dnas[k], prices[k]));
        }
        lemma_count_after_registrations(
            states.drop_last(),
            whos.drop_last(),
            dnas.drop_last(),
            prices.drop_last(),
        );
        assert(register_ok(states[n - 1], states[n], whos[n - 1], dnas[n - 1], prices[n - 1]));
    }
}

/// Derivation determinism law: the derived gender is a function of the
/// identifier alone, so deriving it twice from the same identifier gives
/// the same gender; identifiers of odd byte length always yield Female and
/// identifiers of even byte length always yield Male.
pub proof fn lemma_gender_derivation(dna: Seq<u8>)
    ensures
        spec_gender_of(dna) == spec_gender_of(dna),
        dna.len() % 2 != 0 ==> spec_gender_of(dna) == Gender::Female,
        dna.len() % 2 == 0 ==> spec_gender_of(dna) == Gender::Male,
{
}

/// Transfer-moves law: after a successful transfer of `dna` from `who` to
/// a different `receiver`, `who` no longer holds `dna`, `receiver` holds
/// it, and the record's owner is `receiver`. The identifier is moved,
/// never duplicated.
pub proof fn lemma_transfer_moves(
    pre: PalletView,
    post: PalletView,
    who: u64,
    dna: Seq<u8>,
    receiver: u64,
)
    requires
        transfer_ok(pre, post, who, dna, receiver),
        who != receiver,
    ensures
        !held_by(post, who).contains(dna),
        held_by(post, receiver).contains(dna),
        kitty_of(post, dna) is Some,
        kitty_of(post, dna)->Some_0.owner == receiver,
{
    lemma_remove_dna_contains(held_by(pre, who), dna, dna);
    let r = held_by(post, receiver);
    assert(r[r.len() - 1] == dna);
    assert(r.contains(dna));
}

/// From a well-formed state, an identifier held by any account is always
/// registered: the defensive `NoKitty` failure of a transfer cannot occur
/// once the state invariant holds.
pub proof fn lemma_held_is_registered(v: PalletView, who: u64, dna: Seq<u8>)
    requires
        wf(v),
        held_by(v, who).contains(dna),
    ensures
        kitty_of(v, dna) is Some,
{
    let k = choose|k: int| 0 <= k < held_by(v, who).len() && held_by(v, who)[k] == dna;
    assert(lookup_kitty(v.kitties, held_by(v, who)[k]) is Some);
}

} // verus!
