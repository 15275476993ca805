use roulette_table::identity::{id_hash, new_player_id};
use roulette_table::wheel::{pocket_of, spin, NUMBER_OF_OPTIONS};

#[test]
fn id_hash_is_the_digest_of_the_hyphenated_text() {
    // SHA-256 of "00000000-0000-0000-0000-000000000001"
    assert_eq!(id_hash(1), "7ac1b8d7010bb6cd3a3e84e7f90136b880bbc899e428ece49333372911ab9052");
    // SHA-256 of "a1a2a3a4-b1b2-c1c2-d1d2-d3d4d5d6d7d8"
    assert_eq!(
        id_hash(0xa1a2a3a4b1b2c1c2d1d2d3d4d5d6d7d8),
        "622f95399b47734234893234bf33d14129a152ae4cecccec572c62e497db1fdb"
    );
}

#[test]
fn id_hash_tells_players_apart_and_is_stable() {
    assert_eq!(id_hash(2), "90d5b0a26955772ebda61cd86cef90ec4f0a4efd29b8a7099df640bc94a8cc0a");
    assert_eq!(id_hash(2), id_hash(2));
    assert_ne!(id_hash(1), id_hash(2));
}

#[test]
fn id_hash_does_not_show_the_identifier() {
    let hash = id_hash(0xa1a2a3a4b1b2c1c2d1d2d3d4d5d6d7d8);
    assert_eq!(hash.len(), 64);
    assert!(!hash.contains("a1a2a3a4"));
    assert!(hash.chars().all(|c| c.is_ascii_hexdigit()));
}

#[test]
fn fresh_identifiers_are_random_uuids() {
    for _ in 0..32 {
        let id = new_player_id();
        assert_eq!((id >> 76) & 0xf, 4);
        assert_eq!((id >> 62) & 0x3, 2);
        assert_eq!(
            id & 0x0000_0000_0000_f000_c000_0000_0000_0000,
            0x0000_0000_0000_4000_8000_0000_0000_0000
        );
    }
    assert_ne!(new_player_id(), new_player_id());
}

#[test]
fn the_wheel_has_thirty_seven_pockets() {
    assert_eq!(NUMBER_OF_OPTIONS, 37);
    assert_eq!(pocket_of(0), 0);
    assert_eq!(pocket_of(36), 36);
    assert_eq!(pocket_of(37), 0);
    assert_eq!(pocket_of(1000), 1);
    assert_eq!(pocket_of(u32::MAX), 6);
}

#[test]
fn a_spin_lands_in_a_pocket() {
    for _ in 0..1000 {
        assert!(spin() <= 36);
    }
}
