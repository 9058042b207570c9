use relayer_game::kitty::{mix_dna, Error, Module};

fn hash(fill: u8) -> [u8; 32] {
    [fill; 32]
}

#[test]
fn created_kitty_is_of_generation_zero() {
    let mut ledger = Module::new();
    assert_eq!(ledger.kitties(&hash(1)), None);
    assert_eq!(ledger.create_kitty(7, hash(1)), Ok(()));
    let kitty = ledger.kitties(&hash(1)).unwrap();
    assert_eq!(kitty.id(), hash(1));
    assert_eq!(kitty.dna(), hash(1));
    assert_eq!(kitty.price(), 0);
    assert_eq!(kitty.gen(), 0);
    assert_eq!(ledger.owner_of(&hash(1)), Some(7));
    assert_eq!(ledger.kitty_of_owner(7), vec![hash(1)]);
    assert!(ledger.kitty_of_owner(8).is_empty());
}

#[test]
fn identity_is_unique_at_creation() {
    let mut ledger = Module::new();
    assert_eq!(ledger.create_kitty(7, hash(1)), Ok(()));
    assert_eq!(ledger.create_kitty(8, hash(1)), Err(Error::CreatedKittyExist));
    assert_eq!(ledger.owner_of(&hash(1)), Some(7));
    assert!(ledger.kitty_of_owner(8).is_empty());
    assert_eq!(ledger.kitty_of_owner(7), vec![hash(1)]);
}

#[test]
fn genes_mix_by_the_parity_of_the_entropy() {
    let mut r = [0u8; 32];
    for i in 0..32 {
        r[i] = i as u8;
    }
    let child = mix_dna(&hash(0xaa), &hash(0xbb), &r);
    for i in 0..32 {
        assert_eq!(child[i], if i % 2 == 0 { 0xbb } else { 0xaa });
    }
    assert_eq!(mix_dna(&hash(1), &hash(2), &hash(3)), hash(1));
    assert_eq!(mix_dna(&hash(1), &hash(2), &hash(4)), hash(2));
}

#[test]
fn breeding_needs_both_parents_owned() {
    let mut ledger = Module::new();
    assert_eq!(ledger.create_kitty(7, hash(1)), Ok(()));
    assert_eq!(ledger.create_kitty(8, hash(2)), Ok(()));
    assert_eq!(ledger.breed_kitty(7, hash(1), hash(2), hash(3)), Err(Error::KittyNotExist));
    assert_eq!(ledger.breed_kitty(7, hash(2), hash(1), hash(3)), Err(Error::KittyNotExist));
    assert_eq!(ledger.breed_kitty(7, hash(1), hash(9), hash(3)), Err(Error::KittyNotExist));
    assert_eq!(ledger.kitties(&hash(3)), None);
    assert_eq!(ledger.kitty_of_owner(7), vec![hash(1)]);
}

#[test]
fn child_is_one_generation_after_the_older_parent() {
    let mut ledger = Module::new();
    assert_eq!(ledger.create_kitty(7, hash(1)), Ok(()));
    assert_eq!(ledger.create_kitty(7, hash(2)), Ok(()));
    assert_eq!(ledger.breed_kitty(7, hash(1), hash(2), hash(3)), Ok(()));
    let child = ledger.kitties(&hash(3)).unwrap();
    assert_eq!(child.id(), hash(3));
    assert_eq!(child.dna(), hash(1));
    assert_eq!(child.gen(), 1);
    assert_eq!(child.price(), 0);
    assert_eq!(ledger.breed_kitty(7, hash(3), hash(2), hash(4)), Ok(()));
    let grandchild = ledger.kitties(&hash(4)).unwrap();
    assert_eq!(grandchild.dna(), hash(2));
    assert_eq!(grandchild.gen(), 2);
    assert_eq!(ledger.owner_of(&hash(4)), Some(7));
    assert_eq!(ledger.kitty_of_owner(7), vec![hash(1), hash(2), hash(3), hash(4)]);
}

#[test]
fn child_takes_the_place_of_a_kitty_with_its_identity() {
    let mut ledger = Module::new();
    assert_eq!(ledger.create_kitty(7, hash(1)), Ok(()));
    assert_eq!(ledger.create_kitty(7, hash(2)), Ok(()));
    assert_eq!(ledger.create_kitty(8, hash(5)), Ok(()));
    assert_eq!(ledger.breed_kitty(7, hash(1), hash(2), hash(5)), Ok(()));
    assert_eq!(ledger.owner_of(&hash(5)), Some(7));
    assert_eq!(ledger.kitties(&hash(5)).unwrap().gen(), 1);
    assert_eq!(ledger.kitty_of_owner(8), vec![hash(5)]);
    assert_eq!(ledger.kitty_of_owner(7), vec![hash(1), hash(2), hash(5)]);
}
