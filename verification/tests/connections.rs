use ic_kit::connections::get_current_block_id;
use ic_kit::{ConnectionId, WsConnections};
use sha2::{Digest, Sha256};

fn digest(bytes: &[u8]) -> Vec<u8> {
    Sha256::digest(bytes).to_vec()
}

fn hex(bytes: &[u8]) -> String {
    bytes.iter().map(|b| format!("{:02x}", b)).collect()
}

#[test]
fn block_id_is_the_start_of_the_period() {
    assert_eq!(get_current_block_id(0), 0);
    assert_eq!(get_current_block_id(2_999_999), 0);
    assert_eq!(get_current_block_id(3_000_000), 3);
    assert_eq!(get_current_block_id(5_999_999), 3);
    assert_eq!(get_current_block_id(6_000_000), 6);
    assert_eq!(get_current_block_id(u64::MAX), 18446744073708);
    assert_eq!(get_current_block_id(u64::MAX) % 3, 0);
}

#[test]
fn connection_id_holds_its_number() {
    assert_eq!(ConnectionId::new(7).get(), 7);
    assert!(ConnectionId::new(1) < ConnectionId::new(2));
    assert_eq!(ConnectionId::new(3), ConnectionId::new(3));
}

#[test]
fn digest_of_no_blocks_is_the_digest_of_nothing() {
    let ws = WsConnections::new();
    assert_eq!(
        hex(ws.root_hash()),
        "e3b0c44298fc1c149afbf4c8996fb92427ae41e4649b934ca495991b7852b855"
    );
    assert_eq!(ws.block_ids(), Vec::<u64>::new());
}

#[test]
fn messages_go_to_their_connections_in_order() {
    let mut ws = WsConnections::new();
    ws.send_raw(
        3,
        vec![
            (ConnectionId::new(1), vec![10]),
            (ConnectionId::new(2), vec![20, 21]),
            (ConnectionId::new(1), vec![11]),
        ],
    );
    assert_eq!(ws.block_ids(), vec![3]);
    assert_eq!(ws.messages(3, ConnectionId::new(1)), vec![vec![10], vec![11]]);
    assert_eq!(ws.messages(3, ConnectionId::new(2)), vec![vec![20, 21]]);
    assert_eq!(ws.messages(3, ConnectionId::new(3)), Vec::<Vec<u8>>::new());
    assert_eq!(ws.messages(6, ConnectionId::new(1)), Vec::<Vec<u8>>::new());

    // The same block again: the messages are added to it.
    ws.send_raw(3, vec![(ConnectionId::new(2), vec![])]);
    assert_eq!(ws.block_ids(), vec![3]);
    assert_eq!(ws.messages(3, ConnectionId::new(2)), vec![vec![20, 21], vec![]]);

    // Another block: a new one behind it.
    ws.send_raw(6, vec![(ConnectionId::new(1), vec![12])]);
    assert_eq!(ws.block_ids(), vec![3, 6]);
    assert_eq!(ws.messages(6, ConnectionId::new(1)), vec![vec![12]]);
    assert_eq!(ws.messages(3, ConnectionId::new(1)), vec![vec![10], vec![11]]);
}

#[test]
fn digest_frames_the_blocks() {
    let mut ws = WsConnections::new();
    ws.send_raw(
        9,
        vec![(ConnectionId::new(1), vec![0xaa]), (ConnectionId::new(258), vec![0xbb, 0xcc])],
    );
    let mut streams: Vec<u8> = Vec::new();
    // connection 1: one message of one byte
    streams.extend_from_slice(&1u64.to_be_bytes());
    streams.extend_from_slice(&1u64.to_be_bytes());
    streams.extend_from_slice(&1u64.to_be_bytes());
    streams.push(0xaa);
    // connection 258: one message of two bytes
    streams.extend_from_slice(&[0, 0, 0, 0, 0, 0, 1, 2]);
    streams.extend_from_slice(&1u64.to_be_bytes());
    streams.extend_from_slice(&2u64.to_be_bytes());
    streams.extend_from_slice(&[0xbb, 0xcc]);
    let mut blocks: Vec<u8> = Vec::new();
    blocks.extend_from_slice(&9u64.to_be_bytes());
    blocks.extend_from_slice(&digest(&streams));
    assert_eq!(ws.root_hash(), &digest(&blocks));

    // An empty block behind it.
    ws.send_raw(12, vec![]);
    blocks.extend_from_slice(&12u64.to_be_bytes());
    blocks.extend_from_slice(&digest(&[]));
    assert_eq!(ws.root_hash(), &digest(&blocks));
}

#[test]
fn digest_changes_with_every_message() {
    let mut ws = WsConnections::new();
    let empty = ws.root_hash().clone();
    ws.send_raw(3, vec![]);
    let opened = ws.root_hash().clone();
    assert_ne!(empty, opened);
    ws.send_raw(3, vec![(ConnectionId::new(1), vec![1])]);
    let one = ws.root_hash().clone();
    assert_ne!(opened, one);
    ws.send_raw(3, vec![(ConnectionId::new(1), vec![1])]);
    assert_ne!(&one, ws.root_hash());
    assert_eq!(ws.root_hash().len(), 32);
}

#[test]
fn only_the_last_32_blocks_are_kept() {
    let mut ws = WsConnections::new();
    for i in 0..32u64 {
        ws.send_raw(3 * i, vec![(ConnectionId::new(i), vec![i as u8])]);
    }
    assert_eq!(ws.block_ids().len(), 32);
    assert_eq!(ws.block_ids()[0], 0);
    assert_eq!(ws.block_ids()[31], 93);
    assert_eq!(ws.messages(0, ConnectionId::new(0)), vec![vec![0]]);

    ws.send_raw(96, vec![(ConnectionId::new(32), vec![32])]);
    let ids = ws.block_ids();
    assert_eq!(ids.len(), 32);
    assert_eq!(ids[0], 3);
    assert_eq!(ids[31], 96);
    // The oldest block went with its messages.
    assert_eq!(ws.messages(0, ConnectionId::new(0)), Vec::<Vec<u8>>::new());
    assert_eq!(ws.messages(3, ConnectionId::new(1)), vec![vec![1]]);
    assert_eq!(ws.messages(96, ConnectionId::new(32)), vec![vec![32]]);

    for i in 33..100u64 {
        ws.send_raw(3 * i, vec![]);
        assert_eq!(ws.block_ids().len(), 32);
    }
    assert_eq!(ws.block_ids()[0], 3 * 68);
}

#[test]
fn closed_connections_lose_their_messages_in_every_block() {
    let mut ws = WsConnections::new();
    ws.send_raw(
        3,
        vec![
            (ConnectionId::new(1), vec![1]),
            (ConnectionId::new(2), vec![2]),
            (ConnectionId::new(3), vec![3]),
        ],
    );
    ws.send_raw(6, vec![(ConnectionId::new(2), vec![22]), (ConnectionId::new(1), vec![11])]);
    let before = ws.root_hash().clone();

    ws.close_connections(vec![ConnectionId::new(2), ConnectionId::new(9)]);
    assert_eq!(ws.block_ids(), vec![3, 6]);
    assert_eq!(ws.messages(3, ConnectionId::new(2)), Vec::<Vec<u8>>::new());
    assert_eq!(ws.messages(6, ConnectionId::new(2)), Vec::<Vec<u8>>::new());
    assert_eq!(ws.messages(3, ConnectionId::new(1)), vec![vec![1]]);
    assert_eq!(ws.messages(3, ConnectionId::new(3)), vec![vec![3]]);
    assert_eq!(ws.messages(6, ConnectionId::new(1)), vec![vec![11]]);
    assert_ne!(&before, ws.root_hash());

    // The digest is the one of connections that never had those messages.
    let mut fresh = WsConnections::new();
    fresh.send_raw(3, vec![(ConnectionId::new(1), vec![1]), (ConnectionId::new(3), vec![3])]);
    fresh.send_raw(6, vec![(ConnectionId::new(1), vec![11])]);
    assert_eq!(fresh.root_hash(), ws.root_hash());

    // Closing nothing changes nothing.
    let kept = ws.root_hash().clone();
    ws.close_connections(vec![]);
    assert_eq!(&kept, ws.root_hash());
}
