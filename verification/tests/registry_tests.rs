use kitties::{Error, Event, Gender, Pallet};

#[test]
fn create_kitty() {
    let mut p = Pallet::new();
    assert!(p.create_kitty(1, b"Mickey Mouse".to_vec(), 10u32).is_ok());
    assert!(p.create_kitty(1, b"Tom Hank".to_vec(), 20u32).is_ok());
    assert_eq!(p.total_kitties(), 2);
    assert_eq!(
        p.events().last().unwrap(),
        &Event::KittyGenerated { dna: b"Tom Hank".to_vec(), owner: 1 }
    );
}

#[test]
fn first_registration() {
    let mut p = Pallet::new();
    assert!(p.create_kitty(1, b"Mickey Mouse".to_vec(), 10).is_ok());
    assert_eq!(p.total_kitties(), 1);
    let record = p.kitties(&b"Mickey Mouse".to_vec()).unwrap();
    assert_eq!(record.owner, 1);
    assert_eq!(record.price, 10);
    assert_eq!(
        record.gender,
        Pallet::gen_gender(b"Mickey Mouse".to_vec()).unwrap()
    );
    assert_eq!(p.owner(1).unwrap(), &vec![b"Mickey Mouse".to_vec()]);
}

#[test]
fn transfer_moves_ownership() {
    let mut p = Pallet::new();
    assert!(p.create_kitty(1, b"Mickey Mouse".to_vec(), 10).is_ok());
    assert!(p.transfer_kitty(1, b"Mickey Mouse".to_vec(), 2).is_ok());
    assert!(!p.owner(1).unwrap().contains(&b"Mickey Mouse".to_vec()));
    assert!(p.owner(2).unwrap().contains(&b"Mickey Mouse".to_vec()));
    assert_eq!(p.kitties(&b"Mickey Mouse".to_vec()).unwrap().owner, 2);
    assert_eq!(
        p.events().last().unwrap(),
        &Event::KittyTransferedTo { from: 1, to: 2, dna: b"Mickey Mouse".to_vec() }
    );
}

#[test]
fn transfer_by_non_holder_fails() {
    let mut p = Pallet::new();
    assert!(p.create_kitty(1, b"Mickey Mouse".to_vec(), 10).is_ok());
    let before_events = p.events().len();
    assert_eq!(
        p.transfer_kitty(3, b"Mickey Mouse".to_vec(), 2),
        Err(Error::KittyNotOwned)
    );
    assert_eq!(p.total_kitties(), 1);
    assert_eq!(p.kitties(&b"Mickey Mouse".to_vec()).unwrap().owner, 1);
    assert_eq!(p.owner(1).unwrap(), &vec![b"Mickey Mouse".to_vec()]);
    assert!(p.owner(3).is_none());
    assert_eq!(p.events().len(), before_events);
}

#[test]
fn duplicate_identifier_overwrites_and_orphans() {
    let mut p = Pallet::new();
    assert!(p.create_kitty(1, b"".to_vec(), 5).is_ok());
    assert!(p.create_kitty(2, b"".to_vec(), 7).is_ok());
    assert_eq!(p.total_kitties(), 2);
    let record = p.kitties(&b"".to_vec()).unwrap();
    assert_eq!(record.owner, 2);
    assert_eq!(record.price, 7);
    // the first caller's index entry is left dangling
    assert!(p.owner(1).unwrap().contains(&b"".to_vec()));
    assert!(p.owner(2).unwrap().contains(&b"".to_vec()));
}

#[test]
fn zero_price_is_rejected_without_mutation() {
    let mut p = Pallet::new();
    assert_eq!(p.create_kitty(1, b"Mickey Mouse".to_vec(), 0), Err(Error::InvalidPrice));
    assert_eq!(p.total_kitties(), 0);
    assert!(p.kitties(&b"Mickey Mouse".to_vec()).is_none());
    assert!(p.owner(1).is_none());
    assert!(p.events().is_empty());
}

#[test]
fn gender_follows_length_parity() {
    assert_eq!(Pallet::gen_gender(b"abc".to_vec()).unwrap(), Gender::Female);
    assert_eq!(Pallet::gen_gender(b"abcd".to_vec()).unwrap(), Gender::Male);
    assert_eq!(Pallet::gen_gender(b"".to_vec()).unwrap(), Gender::Male);
    assert_eq!(
        Pallet::gen_gender(b"Mickey Mouse".to_vec()).unwrap(),
        Pallet::gen_gender(b"Mickey Mouse".to_vec()).unwrap()
    );
}

#[test]
fn self_transfer_moves_identifier_to_end() {
    let mut p = Pallet::new();
    assert!(p.create_kitty(1, b"a".to_vec(), 1).is_ok());
    assert!(p.create_kitty(1, b"bc".to_vec(), 2).is_ok());
    assert!(p.transfer_kitty(1, b"a".to_vec(), 1).is_ok());
    assert_eq!(p.owner(1).unwrap(), &vec![b"bc".to_vec(), b"a".to_vec()]);
    assert_eq!(p.kitties(&b"a".to_vec()).unwrap().owner, 1);
    assert_eq!(p.total_kitties(), 2);
}

#[test]
fn events_are_logged_in_order() {
    let mut p = Pallet::new();
    assert!(p.create_kitty(1, b"a".to_vec(), 1).is_ok());
    assert!(p.create_kitty(2, b"bc".to_vec(), 2).is_ok());
    assert!(p.transfer_kitty(1, b"a".to_vec(), 2).is_ok());
    assert_eq!(
        p.events(),
        &vec![
            Event::KittyGenerated { dna: b"a".to_vec(), owner: 1 },
            Event::KittyGenerated { dna: b"bc".to_vec(), owner: 2 },
            Event::KittyTransferedTo { from: 1, to: 2, dna: b"a".to_vec() },
        ]
    );
}

#[test]
fn count_rises_once_per_registration() {
    let mut p = Pallet::new();
    assert_eq!(p.total_kitties(), 0);
    assert!(p.create_kitty(1, b"a".to_vec(), 1).is_ok());
    assert!(p.create_kitty(2, b"bb".to_vec(), 2).is_ok());
    assert!(p.create_kitty(3, b"ccc".to_vec(), 3).is_ok());
    assert_eq!(p.total_kitties(), 3);
}

#[test]
fn gender_default_is_male() {
    assert_eq!(Gender::default(), Gender::Male);
}

#[test]
fn error_messages() {
    assert_eq!(Error::InvalidPrice.print(), "Invalid Price");
    assert_eq!(Error::StorageOverflow.print(), "Storage Overflow");
    assert_eq!(Error::KittyNotOwned.print(), "Invalid Error");
    assert_eq!(Error::NoKitty.print(), "Invalid Error");
    assert_eq!(Error::InvalidAccount.print(), "Invalid Error");
}

#[test]
fn missing_lookups_return_none() {
    let p = Pallet::new();
    assert!(p.kitties(&b"nobody".to_vec()).is_none());
    assert!(p.owner(42).is_none());
    assert!(p.events().is_empty());
}
