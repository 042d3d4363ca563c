use sherlock::errors::ChainError;
use sherlock::types::{Prevout, PrevoutMap};

fn prevout(txid: u8, vout: u32, value_sats: u64) -> Prevout {
    Prevout { txid: [txid; 32], vout, value_sats, script_pubkey: vec![0x51] }
}

#[test]
fn prevout_map_finds_what_it_was_built_from() {
    let map = PrevoutMap::from_vec(vec![prevout(1, 0, 10), prevout(1, 1, 20), prevout(2, 0, 30)])
        .unwrap();
    assert_eq!(map.get(&[1; 32], 0).unwrap().value_sats, 10);
    assert_eq!(map.get(&[1; 32], 1).unwrap().value_sats, 20);
    assert_eq!(map.get(&[2; 32], 0).unwrap().value_sats, 30);
    assert!(map.get(&[2; 32], 1).is_none());
    assert!(map.get(&[3; 32], 0).is_none());
    assert!(PrevoutMap::empty().get(&[1; 32], 0).is_none());
}

#[test]
fn prevout_map_rejects_a_repeated_outpoint() {
    let res = PrevoutMap::from_vec(vec![prevout(1, 0, 10), prevout(1, 0, 20)]);
    assert!(matches!(res, Err(ChainError::InvalidField { field: "prevouts", .. })));
}
