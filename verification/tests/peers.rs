use locutus_p2p::peer::PeerId;
use locutus_p2p::peer_table::PeerTable;

fn peer(bytes: &[u8]) -> PeerId {
    PeerId { bytes: bytes.to_vec() }
}

#[test]
fn peers_are_told_apart_by_their_bytes() {
    assert!(peer(&[1, 2]).same_as(&peer(&[1, 2])));
    assert!(!peer(&[1, 2]).same_as(&peer(&[1, 3])));
    assert!(!peer(&[1, 2]).same_as(&peer(&[1])));
    assert!(peer(&[]).same_as(&peer(&[])));
    assert_eq!(peer(&[5]).clone(), peer(&[5]));
}

#[test]
fn table_holds_one_value_per_peer() {
    let mut table = PeerTable::new();
    table.insert(peer(&[1]), 10);
    table.insert(peer(&[2]), 20);
    table.insert(peer(&[1]), 11);
    assert_eq!(table.get(&peer(&[1])), Some(&11));
    assert_eq!(table.get(&peer(&[2])), Some(&20));
    assert_eq!(table.get(&peer(&[3])), None);
    assert_eq!(table.remove(&peer(&[1])), Some(11));
    assert_eq!(table.remove(&peer(&[1])), None);
    assert!(!table.contains_key(&peer(&[1])));
    assert!(table.contains_key(&peer(&[2])));
}

#[test]
fn lists_grow_at_their_end() {
    let mut table: PeerTable<Vec<u8>> = PeerTable::new();
    table.append(peer(&[1]), 1);
    table.append(peer(&[2]), 2);
    table.append(peer(&[1]), 3);
    assert_eq!(table.get(&peer(&[1])), Some(&vec![1, 3]));
    assert_eq!(table.get(&peer(&[2])), Some(&vec![2]));
}
