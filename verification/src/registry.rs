//! The registry and ownership index: the pallet state, its well-formedness
//! invariant, the two state transitions `create_kitty` and `transfer_kitty`,
//! gender derivation, and the read-only queries.

use vstd::prelude::*;

use crate::types::{Error, Event, EventView, Gender, Kitty, KittyView, OwnerEntry, OwnerEntryView,
    dnas_view};

verus! {

/// The gender derived from an identifier: an identifier of odd byte length
/// yields Female, one of even byte length yields Male.
pub open spec fn spec_gender_of(dna: Seq<u8>) -> Gender {
    if dna.len() % 2 != 0 {
        Gender::Female
    } else {
        Gender::Male
    }
}

/// The first record in `s` registered under `dna`, if any.
pub open spec fn lookup_kitty(s: Seq<KittyView>, dna: Seq<u8>) -> Option<KittyView>
    decreases s.len(),
{
    if s.len() == 0 {
        None
    } else if s[0].dna == dna {
        Some(s[0])
    } else {
        lookup_kitty(s.drop_first(), dna)
    }
}

/// The held identifiers of the first index entry for `account`, if any.
pub open spec fn lookup_owner(s: Seq<OwnerEntryView>, account: u64) -> Option<Seq<Seq<u8>>>
    decreases s.len(),
{
    if s.len() == 0 {
        None
    } else if s[0].account == account {
        Some(s[0].dnas)
    } else {
        lookup_owner(s.drop_first(), account)
    }
}

/// The record registered under `dna`, if any.
pub open spec fn kitty_of(v: PalletView, dna: Seq<u8>) -> Option<KittyView> {
    lookup_kitty(v.kitties, dna)
}

/// The identifiers `account` currently holds, in insertion order; empty
/// when the account has no index entry.
pub open spec fn held_by(v: PalletView, account: u64) -> Seq<Seq<u8>> {
    match lookup_owner(v.owners, account) {
        Some(dnas) => dnas,
        None => Seq::empty(),
    }
}

/// `s` with every occurrence of `dna` removed, the order of the rest kept.
pub open spec fn remove_dna(s: Seq<Seq<u8>>, dna: Seq<u8>) -> Seq<Seq<u8>>
    decreases s.len(),
{
    if s.len() == 0 {
        Seq::empty()
    } else {
        let rest = remove_dna(s.drop_last(), dna);
        if s.last() == dna {
            rest
        } else {
            rest.push(s.last())
        }
    }
}

/// Identifiers are unique across the record store.
pub open spec fn uniq_kitties(s: Seq<KittyView>) -> bool {
    forall|i: int, j: int|
        0 <= i < j < s.len() ==> (#[trigger] s[i]).dna != (#[trigger] s[j]).dna
}

/// Accounts are unique across the ownership index.
pub open spec fn uniq_owners(s: Seq<OwnerEntryView>) -> bool {
    forall|i: int, j: int|
        0 <= i < j < s.len() ==> (#[trigger] s[i]).account != (#[trigger] s[j]).account
}

/// Well-formedness of the pallet state: record identifiers are unique,
/// index accounts are unique, and every held identifier is registered.
pub open spec fn wf(v: PalletView) -> bool {
    &&& uniq_kitties(v.kitties)
    &&& uniq_owners(v.owners)
    &&& forall|a: u64, j: int|
        0 <= j < held_by(v, a).len() ==> lookup_kitty(v.kitties, #[trigger] held_by(v, a)[j]) is Some
}

/// The effect of successfully registering `dna` for `who` at `price`:
/// the count rises by one, the record appears (overwriting any record
/// previously under `dna`), `dna` is appended to `who`'s held identifiers,
/// everything else is untouched, and a registration event is logged.
pub open spec fn register_ok(
    pre: PalletView,
    post: PalletView,
    who: u64,
    dna: Seq<u8>,
    price: u32,
) -> bool {
    &&& post.total == pre.total + 1
    &&& kitty_of(post, dna) == Some(
        KittyView { dna, owner: who, price, gender: spec_gender_of(dna) },
    )
    &&& forall|d: Seq<u8>| d != dna ==> kitty_of(post, d) == kitty_of(pre, d)
    &&& held_by(post, who) == held_by(pre, who).push(dna)
    &&& forall|a: u64| a != who ==> held_by(post, a) == held_by(pre, a)
    &&& post.events == pre.events.push(EventView::KittyGenerated { dna, owner: who })
}

/// The effect of successfully transferring `dna` from `who` to `receiver`:
/// `dna` leaves `who`'s held identifiers and is appended to `receiver`'s,
/// the record's owner becomes `receiver` with the rest of the record kept,
/// everything else is untouched, and a transfer event is logged. A
/// self-transfer moves the identifier to the end of the sender's own list.
pub open spec fn transfer_ok(
    pre: PalletView,
    post: PalletView,
    who: u64,
    dna: Seq<u8>,
    receiver: u64,
) -> bool {
    let moved = kitty_of(pre, dna)->Some_0;
    let sender_left = remove_dna(held_by(pre, who), dna);
    &&& post.total == pre.total
    &&& kitty_of(post, dna) == Some(
        KittyView { dna: moved.dna, owner: receiver, price: moved.price, gender: moved.gender },
    )
    &&& forall|d: Seq<u8>| d != dna ==> kitty_of(post, d) == kitty_of(pre, d)
    &&& who != receiver ==> held_by(post, who) == sender_left
    &&& held_by(post, receiver) == (if who == receiver {
        sender_left
    } else {
        held_by(pre, receiver)
    }).push(dna)
    &&& forall|a: u64| a != who && a != receiver ==> held_by(post, a) == held_by(pre, a)
    &&& post.events == pre.events.push(
        EventView::KittyTransferedTo { from: who, to: receiver, dna },
    )
}

proof fn lemma_lookup_kitty_at(s: Seq<KittyView>, dna: Seq<u8>, i: int)
    requires
        0 <= i < s.len(),
        s[i].dna == dna,
        forall|j: int| 0 <= j < i ==> s[j].dna != dna,
    ensures
        lookup_kitty(s, dna) == Some(s[i]),
    decreases i,
{
    if i > 0 {
        lemma_lookup_kitty_at(s.drop_first(), dna, i - 1);
    }
}

proof fn lemma_lookup_kitty_none(s: Seq<KittyView>, dna: Seq<u8>)
    requires
        forall|j: int| 0 <= j < s.len() ==> s[j].dna != dna,
    ensures
        lookup_kitty(s, dna) is None,
    decreases s.len(),
{
    if s.len() > 0 {
        lemma_lookup_kitty_none(s.drop_first(), dna);
    }
}

proof fn lemma_lookup_kitty_update_other(s: Seq<KittyView>, i: int, kv: KittyView, d: Seq<u8>)
    requires
        0 <= i < s.len(),
        s[i].dna == kv.dna,
        d != kv.dna,
    ensures
        lookup_kitty(s.update(i, kv), d) == lookup_kitty(s, d),
    decreases i,
{
    let s2 = s.update(i, kv);
    if i == 0 {
        assert(s2.drop_first() =~= s.drop_first());
    } else {
        if s[0].dna != d {
            assert(s2.drop_first() =~= s.drop_first().update(i - 1, kv));
            lemma_lookup_kitty_update_other(s.drop_first(), i - 1, kv, d);
        }
    }
}

proof fn lemma_lookup_kitty_push_other(s: Seq<KittyView>, kv: KittyView, d: Seq<u8>)
    requires
        d != kv.dna,
    ensures
        lookup_kitty(s.push(kv), d) == lookup_kitty(s, d),
    decreases s.len(),
{
    let s2 = s.push(kv);
    if s.len() == 0 {
        assert(s2[0] == kv);
        assert(s2.drop_first() =~= Seq::<KittyView>::empty());
        assert(lookup_kitty(s2, d) is None);
    } else {
        assert(s2[0] == s[0]);
        if s[0].dna != d {
            assert(s2.drop_first() =~= s.drop_first().push(kv));
            lemma_lookup_kitty_push_other(s.drop_first(), kv, d);
        }
    }
}

proof fn lemma_lookup_owner_at(s: Seq<OwnerEntryView>, account: u64, i: int)
    requires
        0 <= i < s.len(),
        s[i].account == account,
        forall|j: int| 0 <= j < i ==> s[j].account != account,
    ensures
        lookup_owner(s, account) == Some(s[i].dnas),
    decreases i,
{
    if i > 0 {
        lemma_lookup_owner_at(s.drop_first(), account, i - 1);
    }
}

proof fn lemma_lookup_owner_none(s: Seq<OwnerEntryView>, account: u64)
    requires
        forall|j: int| 0 <= j < s.len() ==> s[j].account != account,
    ensures
        lookup_owner(s, account) is None,
    decreases s.len(),
{
    if s.len() > 0 {
        lemma_lookup_owner_none(s.drop_first(), account);
    }
}

proof fn lemma_lookup_owner_update_other(s: Seq<OwnerEntryView>, i: int, e: OwnerEntryView, a: u64)
    requires
        0 <= i < s.len(),
        s[i].account == e.account,
        a != e.account,
    ensures
        lookup_owner(s.update(i, e), a) == lookup_owner(s, a),
    decreases i,
{
    let s2 = s.update(i, e);
    if i == 0 {
        assert(s2.drop_first() =~= s.drop_first());
    } else {
        if s[0].account != a {
            assert(s2.drop_first() =~= s.drop_first().update(i - 1, e));
            lemma_lookup_owner_update_other(s.drop_first(), i - 1, e, a);
        }
    }
}

proof fn lemma_lookup_owner_push_other(s: Seq<OwnerEntryView>, e: OwnerEntryView, a: u64)
    requires
        a != e.account,
    ensures
        lookup_owner(s.push(e), a) == lookup_owner(s, a),
    decreases s.len(),
{
    let s2 = s.push(e);
    if s.len() == 0 {
        assert(s2[0] == e);
        assert(s2.drop_first() =~= Seq::<OwnerEntryView>::empty());
        assert(lookup_owner(s2, a) is None);
    } else {
        assert(s2[0] == s[0]);
        if s[0].account != a {
            assert(s2.drop_first() =~= s.drop_first().push(e));
            lemma_lookup_owner_push_other(s.drop_first(), e, a);
        }
    }
}

/// Membership after removal-by-value: exactly the other identifiers that
/// were present before remain present.
pub proof fn lemma_remove_dna_contains(s: Seq<Seq<u8>>, dna: Seq<u8>, d: Seq<u8>)
    ensures
        remove_dna(s, dna).contains(d) <==> (s.contains(d) && d != dna),
    decreases s.len(),
{
    if s.len() == 0 {
        assert(!s.contains(d));
    } else {
        lemma_remove_dna_contains(s.drop_last(), dna, d);
        let rest = remove_dna(s.drop_last(), dna);
        assert(s.contains(d) <==> (s.drop_last().contains(d) || s.last() == d)) by {
            if s.contains(d) {
                let k = choose|k: int| 0 <= k < s.len() && s[k] == d;
                if k < s.len() - 1 {
                    assert(s.drop_last()[k] == d);
                }
            }
            if s.drop_last().contains(d) {
                let k = choose|k: int| 0 <= k < s.drop_last().len() && s.drop_last()[k] == d;
                assert(s[k] == d);
            }
            if s.last() == d {
                assert(s[s.len() - 1] == d);
            }
        }
        if s.last() != dna {
            assert(rest.push(s.last()).contains(d) <==> (rest.contains(d) || s.last() == d)) by {
                let p = rest.push(s.last());
                if p.contains(d) {
                    let k = choose|k: int| 0 <= k < p.len() && p[k] == d;
                    if k < rest.len() {
                        assert(rest[k] == d);
                    }
                }
                if rest.contains(d) {
                    let k = choose|k: int| 0 <= k < rest.len() && rest[k] == d;
                    assert(p[k] == d);
                }
                assert(p[p.len() - 1] == s.last());
            }
        }
    }
}

/// The whole pallet state: the running count of registered creatures, the
/// record store, the ownership index, and the log of emitted events.
pub struct Pallet {
    total: u32,
    kitties: Vec<Kitty>,
    owners: Vec<OwnerEntry>,
    events: Vec<Event>,
}

/// The mathematical value of the pallet state.
#[verifier::ext_equal]
pub ghost struct PalletView {
    pub total: u32,
    pub kitties: Seq<KittyView>,
    pub owners: Seq<OwnerEntryView>,
    pub events: Seq<EventView>,
}

/// The record views a vector of records stands for.
pub open spec fn kitties_view(s: Seq<Kitty>) -> Seq<KittyView> {
    Seq::new(s.len(), |i: int| s[i]@)
}

/// The entry views a vector of index entries stands for.
pub open spec fn owners_view(s: Seq<OwnerEntry>) -> Seq<OwnerEntryView> {
    Seq::new(s.len(), |i: int| s[i]@)
}

/// The event views a vector of events stands for.
pub open spec fn events_view(s: Seq<Event>) -> Seq<EventView> {
    Seq::new(s.len(), |i: int| s[i]@)
}

impl View for Pallet {
    type V = PalletView;

    closed spec fn view(&self) -> PalletView {
        PalletView {
            total: self.total,
            kitties: kitties_view(self.kitties@),
            owners: owners_view(self.owners@),
            events: events_view(self.events@),
        }
    }
}

/// Byte-for-byte equality of two identifiers.
fn bytes_eq(a: &Vec<u8>, b: &Vec<u8>) -> (r: bool)
    ensures
        r == (a@ == b@),
{
    if a.len() != b.len() {
        return false;
    }
    let mut i: usize = 0;
    while i < a.len()
        invariant
            a@.len() == b@.len(),
            i <= a@.len(),
            forall|j: int| 0 <= j < i ==> a@[j] == b@[j],
        decreases a@.len() - i,
    {
        if a[i] != b[i] {
            return false;
        }
        i += 1;
    }
    proof {
        assert(a@ =~= b@);
    }
    true
}

/// An owned copy of a byte identifier.
fn clone_dna(dna: &Vec<u8>) -> (r: Vec<u8>)
    ensures
        r@ == dna@,
{
    let r = dna.clone();
    proof {
        assert forall|i: int| 0 <= i < dna@.len() implies r@[i] == dna@[i] by {
            assert(cloned::<u8>(dna@[i], r@[i]));
        }
        assert(r@ =~= dna@);
    }
    r
}

/// The position of the first record registered under `dna`, if any.
fn find_kitty(kitties: &Vec<Kitty>, dna: &Vec<u8>) -> (r: Option<usize>)
    ensures
        match r {
            Some(i) => i < kitties@.len() && kitties@[i as int]@.dna == dna@ && forall|j: int|
                0 <= j < i ==> kitties@[j]@.dna != dna@,
            None => forall|j: int| 0 <= j < kitties@.len() ==> kitties@[j]@.dna != dna@,
        },
{
    let mut i: usize = 0;
    while i < kitties.len()
        invariant
            i <= kitties@.len(),
            forall|j: int| 0 <= j < i ==> kitties@[j]@.dna != dna@,
        decreases kitties@.len() - i,
    {
        if bytes_eq(&kitties[i].dna, dna) {
            return Some(i);
        }
        i += 1;
    }
    None
}

/// The position of the first index entry for `account`, if any.
fn find_owner(owners: &Vec<OwnerEntry>, account: u64) -> (r: Option<usize>)
    ensures
        match r {
            Some(i) => i < owners@.len() && owners@[i as int]@.account == account && forall|j: int|
                0 <= j < i ==> owners@[j]@.account != account,
            None => forall|j: int| 0 <= j < owners@.len() ==> owners@[j]@.account != account,
        },
{
    let mut i: usize = 0;
    while i < owners.len()
        invariant
            i <= owners@.len(),
            forall|j: int| 0 <= j < i ==> owners@[j]@.account != account,
        decreases owners@.len() - i,
    {
        if owners[i].account == account {
            return Some(i);
        }
        i += 1;
    }
    None
}

/// Inserts `kitty` into the record store, overwriting any record already
/// registered under the same identifier.
fn insert_kitty(kitties: &mut Vec<Kitty>, kitty: Kitty)
    ensures
        ({
            let pre = kitties_view(old(kitties)@);
            let post = kitties_view(final(kitties)@);
            let kv = kitty@;
            &&& lookup_kitty(post, kv.dna) == Some(kv)
            &&& forall|d: Seq<u8>| d != kv.dna ==> lookup_kitty(post, d) == lookup_kitty(pre, d)
            &&& uniq_kitties(pre) ==> uniq_kitties(post)
        }),
{
    let ghost pre = kitties_view(kitties@);
    let ghost kv = kitty@;
    match find_kitty(kitties, &kitty.dna) {
        Some(i) => {
            kitties.set(i, kitty);
            proof {
                let post = kitties_view(kitties@);
                assert(post =~= pre.update(i as int, kv));
                lemma_lookup_kitty_at(post, kv.dna, i as int);
                assert forall|d: Seq<u8>| d != kv.dna implies lookup_kitty(post, d)
                    == lookup_kitty(pre, d) by {
                    lemma_lookup_kitty_update_other(pre, i as int, kv, d);
                }
                if uniq_kitties(pre) {
                    assert forall|x: int, y: int| 0 <= x < y < post.len() implies (#[trigger] post[x]).dna
                        != (#[trigger] post[y]).dna by {
                        assert(pre[x].dna == post[x].dna);
                        assert(pre[y].dna == post[y].dna);
                    }
                }
            }
        },
        None => {
            kitties.push(kitty);
            proof {
                let post = kitties_view(kitties@);
                assert(post =~= pre.push(kv));
                lemma_lookup_kitty_at(post, kv.dna, pre.len() as int);
                assert forall|d: Seq<u8>| d != kv.dna implies lookup_kitty(post, d)
                    == lookup_kitty(pre, d) by {
                    lemma_lookup_kitty_push_other(pre, kv, d);
                }
                if uniq_kitties(pre) {
                    assert forall|x: int, y: int| 0 <= x < y < post.len() implies (#[trigger] post[x]).dna
                        != (#[trigger] post[y]).dna by {
                        if y < pre.len() {
                            assert(pre[x].dna != pre[y].dna);
                        } else {
                            assert(pre[x].dna != kv.dna);
                        }
                    }
                }
            }
        },
    }
}

/// Rewrites the owner of the record at position `i`, which must be the
/// first record under its identifier; the rest of the record is kept.
fn set_kitty_owner(kitties: &mut Vec<Kitty>, i: usize, to: u64)
    requires
        i < old(kitties)@.len(),
        forall|j: int| 0 <= j < i ==> old(kitties)@[j]@.dna != old(kitties)@[i as int]@.dna,
    ensures
        ({
            let pre = kitties_view(old(kitties)@);
            let post = kitties_view(final(kitties)@);
            let d0 = pre[i as int].dna;
            &&& lookup_kitty(pre, d0) == Some(pre[i as int])
            &&& lookup_kitty(post, d0) == Some(
                KittyView {
                    dna: d0,
                    owner: to,
                    price: pre[i as int].price,
                    gender: pre[i as int].gender,
                },
            )
            &&& forall|d: Seq<u8>| d != d0 ==> lookup_kitty(post, d) == lookup_kitty(pre, d)
            &&& uniq_kitties(pre) ==> uniq_kitties(post)
            &&& forall|d: Seq<u8>| lookup_kitty(post, d) is Some <==> lookup_kitty(pre, d) is Some
        }),
{
    let ghost pre = kitties_view(kitties@);
    let new_kitty = Kitty {
        dna: clone_dna(&kitties[i].dna),
        owner: to,
        price: kitties[i].price,
        gender: kitties[i].gender,
    };
    let ghost kv = new_kitty@;
    kitties.set(i, new_kitty);
    proof {
        let post = kitties_view(kitties@);
        let d0 = pre[i as int].dna;
        assert(post =~= pre.update(i as int, kv));
        lemma_lookup_kitty_at(pre, d0, i as int);
        lemma_lookup_kitty_at(post, d0, i as int);
        assert(post[i as int] =~= KittyView {
            dna: d0,
            owner: to,
            price: pre[i as int].price,
            gender: pre[i as int].gender,
        });
        assert forall|d: Seq<u8>| d != d0 implies lookup_kitty(post, d) == lookup_kitty(pre, d) by {
            lemma_lookup_kitty_update_other(pre, i as int, kv, d);
        }
        if uniq_kitties(pre) {
            assert forall|x: int, y: int| 0 <= x < y < post.len() implies (#[trigger] post[x]).dna
                != (#[trigger] post[y]).dna by {
                assert(pre[x].dna == post[x].dna);
                assert(pre[y].dna == post[y].dna);
            }
        }
    }
}

/// A copy of `v` with every occurrence of `dna` removed, order kept.
fn filter_out(v: &Vec<Vec<u8>>, dna: &Vec<u8>) -> (r: Vec<Vec<u8>>)
    ensures
        dnas_view(r@) == remove_dna(dnas_view(v@), dna@),
{
    let mut r: Vec<Vec<u8>> = Vec::new();
    let mut i: usize = 0;
    proof {
        assert(dnas_view(r@) =~= remove_dna(dnas_view(v@).take(0), dna@));
    }
    while i < v.len()
        invariant
            i <= v@.len(),
            dnas_view(r@) == remove_dna(dnas_view(v@).take(i as int), dna@),
        decreases v@.len() - i,
    {
        let ghost r0 = dnas_view(r@);
        let keep = !bytes_eq(&v[i], dna);
        if keep {
            r.push(clone_dna(&v[i]));
        }
        i += 1;
        proof {
            let t1 = dnas_view(v@).take(i as int);
            assert(t1.drop_last() =~= dnas_view(v@).take(i - 1));
            assert(t1.last() == v@[i - 1]@);
            if keep {
                assert(dnas_view(r@) =~= r0.push(v@[i - 1]@));
            } else {
                assert(dnas_view(r@) =~= r0);
            }
        }
    }
    proof {
        assert(dnas_view(v@).take(v@.len() as int) =~= dnas_view(v@));
    }
    r
}

/// Whether `dna` occurs among the byte identifiers of `v`.
fn contains_dna(v: &Vec<Vec<u8>>, dna: &Vec<u8>) -> (r: bool)
    ensures
        r == dnas_view(v@).contains(dna@),
{
    let mut i: usize = 0;
    while i < v.len()
        invariant
            i <= v@.len(),
            forall|j: int| 0 <= j < i ==> v@[j]@ != dna@,
        decreases v@.len() - i,
    {
        if bytes_eq(&v[i], dna) {
            proof {
                assert(dnas_view(v@)[i as int] == dna@);
            }
            return true;
        }
        i += 1;
    }
    proof {
        if dnas_view(v@).contains(dna@) {
            let k = choose|k: int| 0 <= k < dnas_view(v@).len() && dnas_view(v@)[k] == dna@;
            assert(v@[k]@ != dna@);
        }
    }
    false
}

/// Whether `account` currently holds `dna` per the ownership index.
fn owner_holds(owners: &Vec<OwnerEntry>, account: u64, dna: &Vec<u8>) -> (r: bool)
    ensures
        r == ({
            let held = match lookup_owner(owners_view(owners@), account) {
                Some(h) => h,
                None => Seq::<Seq<u8>>::empty(),
            };
            held.contains(dna@)
        }),
{
    match find_owner(owners, account) {
        Some(i) => {
            proof {
                lemma_lookup_owner_at(owners_view(owners@), account, i as int);
            }
            contains_dna(&owners[i].dnas, dna)
        },
        None => {
            proof {
                lemma_lookup_owner_none(owners_view(owners@), account);
            }
            false
        },
    }
}

/// Appends `dna` to `account`'s held identifiers, creating the index entry
/// on first use.
fn owner_append(owners: &mut Vec<OwnerEntry>, account: u64, dna: Vec<u8>)
    ensures
        ({
            let pre = owners_view(old(owners)@);
            let post = owners_view(final(owners)@);
            let held_pre = match lookup_owner(pre, account) {
                Some(h) => h,
                None => Seq::empty(),
            };
            &&& lookup_owner(post, account) == Some(held_pre.push(dna@))
            &&& forall|a: u64| a != account ==> lookup_owner(post, a) == lookup_owner(pre, a)
            &&& uniq_owners(pre) ==> uniq_owners(post)
        }),
{
    let ghost pre = owners_view(owners@);
    match find_owner(owners, account) {
        Some(i) => {
            let mut entry = owners.remove(i);
            let ghost e0 = entry@;
            let ghost dv = dna@;
            entry.dnas.push(dna);
            let ghost e1 = entry@;
            proof {
                assert(e1.dnas =~= e0.dnas.push(dv));
            }
            owners.insert(i, entry);
            proof {
                let post = owners_view(owners@);
                assert(post =~= pre.update(i as int, e1));
                lemma_lookup_owner_at(pre, account, i as int);
                lemma_lookup_owner_at(post, account, i as int);
                assert forall|a: u64| a != account implies lookup_owner(post, a)
                    == lookup_owner(pre, a) by {
                    lemma_lookup_owner_update_other(pre, i as int, e1, a);
                }
                if uniq_owners(pre) {
                    assert forall|x: int, y: int| 0 <= x < y < post.len() implies (#[trigger] post[x]).account
                        != (#[trigger] post[y]).account by {
                        assert(pre[x].account == post[x].account);
                        assert(pre[y].account == post[y].account);
                    }
                }
            }
        },
        None => {
            let ghost dv = dna@;
            let entry = OwnerEntry { account, dnas: vec![dna] };
            let ghost e1 = entry@;
            owners.push(entry);
            proof {
                let post = owners_view(owners@);
                assert(e1.dnas =~= Seq::<Seq<u8>>::empty().push(dv));
                assert(post =~= pre.push(e1));
                lemma_lookup_owner_none(pre, account);
                lemma_lookup_owner_at(post, account, pre.len() as int);
                assert forall|a: u64| a != account implies lookup_owner(post, a)
                    == lookup_owner(pre, a) by {
                    lemma_lookup_owner_push_other(pre, e1, a);
                }
                if uniq_owners(pre) {
                    assert forall|x: int, y: int| 0 <= x < y < post.len() implies (#[trigger] post[x]).account
                        != (#[trigger] post[y]).account by {
                        if y < pre.len() {
                            assert(pre[x].account != pre[y].account);
                        } else {
                            assert(pre[x].account != account);
                        }
                    }
                }
            }
        },
    }
}

/// Removes every occurrence of `dna` from `account`'s held identifiers;
/// an absent index entry stays absent.
fn owner_remove_dna(owners: &mut Vec<OwnerEntry>, account: u64, dna: &Vec<u8>)
    ensures
        ({
            let pre = owners_view(old(owners)@);
            let post = owners_view(final(owners)@);
            &&& lookup_owner(post, account) == match lookup_owner(pre, account) {
                Some(h) => Some(remove_dna(h, dna@)),
                None => None::<Seq<Seq<u8>>>,
            }
            &&& forall|a: u64| a != account ==> lookup_owner(post, a) == lookup_owner(pre, a)
            &&& uniq_owners(pre) ==> uniq_owners(post)
        }),
{
    let ghost pre = owners_view(owners@);
    match find_owner(owners, account) {
        Some(i) => {
            let mut entry = owners.remove(i);
            let ghost e0 = entry@;
            let filtered = filter_out(&entry.dnas, dna);
            entry.dnas = filtered;
            let ghost e1 = entry@;
            owners.insert(i, entry);
            proof {
                let post = owners_view(owners@);
                assert(post =~= pre.update(i as int, e1));
                lemma_lookup_owner_at(pre, account, i as int);
                lemma_lookup_owner_at(post, account, i as int);
                assert forall|a: u64| a != account implies lookup_owner(post, a)
                    == lookup_owner(pre, a) by {
                    lemma_lookup_owner_update_other(pre, i as int, e1, a);
                }
                if uniq_owners(pre) {
                    assert forall|x: int, y: int| 0 <= x < y < post.len() implies (#[trigger] post[x]).account
                        != (#[trigger] post[y]).account by {
                        assert(pre[x].account == post[x].account);
                        assert(pre[y].account == post[y].account);
                    }
                }
            }
        },
        None => {
            proof {
                lemma_lookup_owner_none(pre, account);
            }
        },
    }
}

impl Pallet {
    /// A fresh pallet: no records, no held identifiers, count zero, no
    /// events emitted yet. The state invariant holds from the start.
    pub fn new() -> (p: Pallet)
        ensures
            p@.total == 0,
            p@.kitties == Seq::<KittyView>::empty(),
            p@.owners == Seq::<OwnerEntryView>::empty(),
            p@.events == Seq::<EventView>::empty(),
            wf(p@),
    {
        let p = Pallet { total: 0, kitties: Vec::new(), owners: Vec::new(), events: Vec::new() };
        proof {
            assert(p@.kitties =~= Seq::<KittyView>::empty());
            assert(p@.owners =~= Seq::<OwnerEntryView>::empty());
            assert(p@.events =~= Seq::<EventView>::empty());
        }
        p
    }

    /// Derives the gender of a creature from its identifier. The rule is
    /// arbitrary but deterministic: an identifier of odd byte length
    /// yields Female, one of even byte length yields Male. It never fails.
    pub fn gen_gender(dna: Vec<u8>) -> (r: Result<Gender, Error>)
        ensures
            r == Ok::<Gender, Error>(spec_gender_of(dna@)),
    {
        let mut gen = Gender::Male;
        if dna.len() % 2 != 0 {
            gen = Gender::Female;
        }
        Ok(gen)
    }

    /// Registers a new creature under `dna` for the caller `who` at the
    /// given strictly positive price. A zero price is rejected with
    /// `InvalidPrice`, a full counter with `StorageOverflow`, and a
    /// rejected call leaves the state untouched. On success the record is
    /// inserted (overwriting any record already under `dna`, whose former
    /// owner keeps a stale index entry), the count rises by one, `dna` is
    /// appended to `who`'s held identifiers, and a registration event is
    /// emitted.
    pub fn create_kitty(&mut self, who: u64, dna: Vec<u8>, price: u32) -> (r: Result<(), Error>)
        ensures
            price == 0 ==> r == Err::<(), Error>(Error::InvalidPrice) && final(self)@ == old(
                self,
            )@,
            price != 0 && old(self)@.total == u32::MAX ==> r == Err::<(), Error>(
                Error::StorageOverflow,
            ) && final(self)@ == old(self)@,
            price != 0 && old(self)@.total < u32::MAX ==> r == Ok::<(), Error>(())
                && register_ok(old(self)@, final(self)@, who, dna@, price),
            wf(old(self)@) ==> wf(final(self)@),
    {
        if price == 0 {
            return Err(Error::InvalidPrice);
        }
        if self.total == u32::MAX {
            return Err(Error::StorageOverflow);
        }
        let ghost pre = self@;
        let ghost dv = dna@;
        let gender = match Self::gen_gender(clone_dna(&dna)) {
            Ok(g) => g,
            Err(e) => {
                return Err(e);
            },
        };
        self.total = self.total + 1;
        let kitty = Kitty { dna: clone_dna(&dna), owner: who, price, gender };
        let ghost kv = kitty@;
        insert_kitty(&mut self.kitties, kitty);
        owner_append(&mut self.owners, who, clone_dna(&dna));
        self.events.push(Event::KittyGenerated { dna, owner: who });
        proof {
            let post = self@;
            let ev = EventView::KittyGenerated { dna: dv, owner: who };
            assert(post.events =~= pre.events.push(ev));
            assert(kv =~= KittyView { dna: dv, owner: who, price, gender: spec_gender_of(dv) });
            assert(register_ok(pre, post, who, dv, price));
            if wf(pre) {
                assert forall|a: u64, j: int| 0 <= j < held_by(post, a).len() implies lookup_kitty(
                    post.kitties,
                    #[trigger] held_by(post, a)[j],
                ) is Some by {
                    let d = held_by(post, a)[j];
                    if a == who {
                        if j < held_by(pre, who).len() {
                            assert(d == held_by(pre, who)[j]);
                            assert(lookup_kitty(pre.kitties, d) is Some);
                        } else {
                            assert(d == dv);
                        }
                    } else {
                        assert(d == held_by(pre, a)[j]);
                        assert(lookup_kitty(pre.kitties, d) is Some);
                    }
                }
                assert(wf(post));
            }
        }
        Ok(())
    }

    /// Transfers the creature registered under `dna` from `who` to
    /// `receiver`. Fails with `KittyNotOwned` when `who` does not hold
    /// `dna` per the ownership index (the only ownership check performed),
    /// and with `NoKitty` when no record is registered under `dna`; either
    /// failure leaves the state untouched. On success every occurrence of
    /// `dna` leaves `who`'s held identifiers, `dna` is appended to
    /// `receiver`'s, the record's owner becomes `receiver`, and a transfer
    /// event is emitted. A self-transfer is permitted and moves the
    /// identifier to the end of the sender's own list.
    pub fn transfer_kitty(&mut self, who: u64, dna: Vec<u8>, receiver: u64) -> (r: Result<
        (),
        Error,
    >)
        ensures
            !held_by(old(self)@, who).contains(dna@) ==> r == Err::<(), Error>(
                Error::KittyNotOwned,
            ) && final(self)@ == old(self)@,
            held_by(old(self)@, who).contains(dna@) && kitty_of(old(self)@, dna@) is None ==> r
                == Err::<(), Error>(Error::NoKitty) && final(self)@ == old(self)@,
            held_by(old(self)@, who).contains(dna@) && kitty_of(old(self)@, dna@) is Some ==> r
                == Ok::<(), Error>(()) && transfer_ok(old(self)@, final(self)@, who, dna@, receiver),
            wf(old(self)@) ==> wf(final(self)@),
    {
        let ghost pre = self@;
        let ghost dv = dna@;
        if !owner_holds(&self.owners, who, &dna) {
            return Err(Error::KittyNotOwned);
        }
        let ki = match find_kitty(&self.kitties, &dna) {
            Some(i) => i,
            None => {
                proof {
                    lemma_lookup_kitty_none(pre.kitties, dv);
                }
                return Err(Error::NoKitty);
            },
        };
        proof {
            lemma_lookup_kitty_at(pre.kitties, dv, ki as int);
        }
        owner_remove_dna(&mut self.owners, who, &dna);
        owner_append(&mut self.owners, receiver, clone_dna(&dna));
        set_kitty_owner(&mut self.kitties, ki, receiver);
        self.events.push(Event::KittyTransferedTo { from: who, to: receiver, dna });
        proof {
            let post = self@;
            let ev = EventView::KittyTransferedTo { from: who, to: receiver, dna: dv };
            assert(post.events =~= pre.events.push(ev));
            let moved = kitty_of(pre, dv)->Some_0;
            assert(kitty_of(post, dv) == Some(
                KittyView {
                    dna: moved.dna,
                    owner: receiver,
                    price: moved.price,
                    gender: moved.gender,
                },
            ));
            assert(transfer_ok(pre, post, who, dv, receiver));
            if wf(pre) {
                let sender_left = remove_dna(held_by(pre, who), dv);
                assert forall|a: u64, j: int| 0 <= j < held_by(post, a).len() implies lookup_kitty(
                    post.kitties,
                    #[trigger] held_by(post, a)[j],
                ) is Some by {
                    let d = held_by(post, a)[j];
                    if lookup_kitty(pre.kitties, d) is Some {
                        assert(lookup_kitty(post.kitties, d) is Some);
                    } else {
                        // every identifier held after the transfer was held
                        // before it, or is the transferred one
                        if a == receiver {
                            if j == held_by(post, a).len() - 1 && d == dv {
                                assert(lookup_kitty(pre.kitties, dv) is Some);
                            } else {
                                let base = if who == receiver {
                                    sender_left
                                } else {
                                    held_by(pre, receiver)
                                };
                                assert(d == base[j]);
                                if who == receiver {
                                    assert(sender_left.contains(d));
                                    lemma_remove_dna_contains(held_by(pre, who), dv, d);
                                    let k = choose|k: int|
                                        0 <= k < held_by(pre, who).len() && held_by(pre, who)[k]
                                            == d;
                                    assert(lookup_kitty(pre.kitties, held_by(pre, who)[k])
                                        is Some);
                                } else {
                                    assert(lookup_kitty(pre.kitties, held_by(pre, receiver)[j])
                                        is Some);
                                }
                            }
                        } else if a == who {
                            assert(held_by(post, a) == sender_left);
                            assert(sender_left.contains(d));
                            lemma_remove_dna_contains(held_by(pre, who), dv, d);
                            let k = choose|k: int|
                                0 <= k < held_by(pre, who).len() && held_by(pre, who)[k] == d;
                            assert(lookup_kitty(pre.kitties, held_by(pre, who)[k]) is Some);
                        } else {
                            assert(d == held_by(pre, a)[j]);
                            assert(lookup_kitty(pre.kitties, held_by(pre, a)[j]) is Some);
                        }
                    }
                }
                assert(wf(post));
            }
        }
        Ok(())
    }

    /// The running count of registered creatures.
    pub fn total_kitties(&self) -> (r: u32)
        ensures
            r == self@.total,
    {
        self.total
    }

    /// The record registered under `dna`, if any.
    pub fn kitties(&self, dna: &Vec<u8>) -> (r: Option<&Kitty>)
        ensures
            match r {
                Some(k) => kitty_of(self@, dna@) == Some(k@),
                None => kitty_of(self@, dna@) is None,
            },
    {
        match find_kitty(&self.kitties, dna) {
            Some(i) => {
                proof {
                    lemma_lookup_kitty_at(self@.kitties, dna@, i as int);
                }
                Some(&self.kitties[i])
            },
            None => {
                proof {
                    lemma_lookup_kitty_none(self@.kitties, dna@);
                }
                None
            },
        }
    }

    /// The identifiers `account` holds, if it has an index entry.
    pub fn owner(&self, account: u64) -> (r: Option<&Vec<Vec<u8>>>)
        ensures
            match r {
                Some(ds) => lookup_owner(self@.owners, account) == Some(dnas_view(ds@)),
                None => lookup_owner(self@.owners, account) is None,
            },
    {
        match find_owner(&self.owners, account) {
            Some(i) => {
                proof {
                    lemma_lookup_owner_at(self@.owners, account, i as int);
                }
                Some(&self.owners[i].dnas)
            },
            None => {
                proof {
                    lemma_lookup_owner_none(self@.owners, account);
                }
                None
            },
        }
    }

    /// The events emitted so far, oldest first.
    pub fn events(&self) -> (r: &Vec<Event>)
        ensures
            events_view(r@) == self@.events,
    {
        &self.events
    }
}

} // verus!
