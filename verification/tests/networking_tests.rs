use cubiq::networking::{
    handle_event, topic_for, CubiqBehaviourEvent, MdnsUpdate, NetworkMessage, PeerDirectory,
};

#[test]
fn topics_match_channels() {
    assert_eq!(topic_for(&NetworkMessage::ProofAnnouncement("zk://h/p".to_string())), "cubiq-proofs");
    assert_eq!(topic_for(&NetworkMessage::Finalization("0xabc".to_string())), "cubiq-finalization");
    let vote = NetworkMessage::Vote(cubiq::ledger::Vote {
        block_hash: "h".to_string(),
        voter_id: "v".to_string(),
        stake: 1,
        timestamp: 0,
        signature: String::new(),
    });
    assert_eq!(topic_for(&vote), "cubiq-votes");
    let proposal = NetworkMessage::BlockProposal(cubiq::engine::BlockProposal {
        block_hash: "h".to_string(),
        state_root: "r".to_string(),
        zkurl: "zk://a/b".to_string(),
        transactions: vec![],
        proposer_id: "p".to_string(),
        timestamp: 0,
    });
    assert_eq!(topic_for(&proposal), "cubiq-blocks");
}

#[test]
fn discovery_tracks_last_seen() {
    let mut dir = PeerDirectory::new();
    let discovered = CubiqBehaviourEvent::Mdns(MdnsUpdate::Discovered(vec![
        "peer1".to_string(),
        "peer2".to_string(),
    ]));
    assert!(handle_event(&mut dir, discovered, 100).is_none());
    assert_eq!(dir.last_seen("peer1"), Some(100));
    assert_eq!(dir.last_seen("peer2"), Some(100));
    assert_eq!(dir.last_seen("peer3"), None);

    let again = CubiqBehaviourEvent::Mdns(MdnsUpdate::Discovered(vec!["peer1".to_string()]));
    handle_event(&mut dir, again, 200);
    assert_eq!(dir.last_seen("peer1"), Some(200));
    assert_eq!(dir.peers.len(), 2);

    let expired = CubiqBehaviourEvent::Mdns(MdnsUpdate::Expired(vec!["peer2".to_string()]));
    handle_event(&mut dir, expired, 300);
    assert_eq!(dir.last_seen("peer2"), None);
    assert_eq!(dir.peers.len(), 1);
}

#[test]
fn gossip_messages_are_forwarded() {
    let mut dir = PeerDirectory::new();
    let event = CubiqBehaviourEvent::Gossipsub(
        "peerX".to_string(),
        NetworkMessage::Finalization("0xdead".to_string()),
    );
    let out = handle_event(&mut dir, event, 1);
    match out {
        Some(NetworkMessage::Finalization(h)) => assert_eq!(h, "0xdead"),
        _ => panic!("gossip message must be handed on"),
    }
    assert_eq!(dir.peers.len(), 0);
}

#[test]
fn identify_changes_nothing() {
    let mut dir = PeerDirectory::new();
    let event = CubiqBehaviourEvent::Identify("/cubiq/1.0.0".to_string());
    assert!(handle_event(&mut dir, event, 1).is_none());
    assert_eq!(dir.peers.len(), 0);
}
