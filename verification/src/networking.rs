//! The node's side of the gossip transport: message kinds, their topics,
//! the closed union of behaviour events, and the peer directory.
//!
//! The transport itself (peer discovery, wire authentication, delivery) is
//! an external collaborator; it hands events in as plain values and takes
//! messages out. Every decision — which topic a message belongs on, what a
//! discovery update does to the peer directory, what is forwarded to the
//! consensus layer — is made and proved here.

use vstd::prelude::*;
use crate::strutil::str_eq;
use crate::engine::BlockProposal;
use crate::ledger::Vote;

verus! {

/// Network messages passed between nodes, one logical channel each.
#[derive(Debug)]
pub enum NetworkMessage {
    /// A block proposal to be decided.
    BlockProposal(BlockProposal),
    /// A validator's vote.
    Vote(Vote),
    /// zkURL text announcing where a proof can be fetched.
    ProofAnnouncement(String),
    /// The hash of a block that reached finality.
    Finalization(String),
}

/// The gossip topic each message kind is published on.
pub fn topic_for(m: &NetworkMessage) -> (r: &'static str)
    ensures
        m is BlockProposal ==> r@ == "cubiq-blocks"@,
        m is Vote ==> r@ == "cubiq-votes"@,
        m is ProofAnnouncement ==> r@ == "cubiq-proofs"@,
        m is Finalization ==> r@ == "cubiq-finalization"@,
{
    match m {
        NetworkMessage::BlockProposal(_) => "cubiq-blocks",
        NetworkMessage::Vote(_) => "cubiq-votes",
        NetworkMessage::ProofAnnouncement(_) => "cubiq-proofs",
        NetworkMessage::Finalization(_) => "cubiq-finalization",
    }
}

/// A local-discovery update: peers that appeared or expired.
#[derive(Debug)]
pub enum MdnsUpdate {
    /// Peers seen on the local network now.
    Discovered(Vec<String>),
    /// Peers not seen for too long.
    Expired(Vec<String>),
}

/// The behaviour events of the transport, as one closed tagged union of
/// plain values.
#[derive(Debug)]
pub enum CubiqBehaviourEvent {
    /// A gossip message arrived: source peer and the decoded message.
    Gossipsub(String, NetworkMessage),
    /// A local-discovery update.
    Mdns(MdnsUpdate),
    /// A peer identified itself with its agent string.
    Identify(String),
}

/// Index of the entry for a peer id at or after `from`.
pub open spec fn spec_find_peer(peers: Seq<(String, u64)>, id: Seq<char>, from: int) -> Option<int>
    decreases peers.len() - from,
{
    if from < 0 || from >= peers.len() {
        Option::None
    } else if peers[from].0@ == id {
        Option::Some(from)
    } else {
        spec_find_peer(peers, id, from + 1)
    }
}

/// The peer entries after one peer is seen now: its entry is refreshed, or
/// appended when none exists.
pub open spec fn spec_mark_seen(peers: Seq<(String, u64)>, id: String, now: u64) -> Seq<
    (String, u64),
> {
    match spec_find_peer(peers, id@, 0) {
        Option::Some(i) => peers.update(i, (id, now)),
        Option::None => peers.push((id, now)),
    }
}

/// The peer entries after one peer expires: its entry is removed, or
/// nothing changes when none exists.
pub open spec fn spec_remove_peer(peers: Seq<(String, u64)>, id: Seq<char>) -> Seq<(String, u64)> {
    match spec_find_peer(peers, id, 0) {
        Option::Some(i) => peers.remove(i),
        Option::None => peers,
    }
}

/// The peer entries after every peer in `list` is seen now, in order.
pub open spec fn spec_mark_all(peers: Seq<(String, u64)>, list: Seq<String>, now: u64) -> Seq<
    (String, u64),
>
    decreases list.len(),
{
    if list.len() == 0 {
        peers
    } else {
        spec_mark_seen(spec_mark_all(peers, list.drop_last(), now), list.last(), now)
    }
}

/// The peer entries after every peer in `list` expires, in order.
pub open spec fn spec_remove_all(peers: Seq<(String, u64)>, list: Seq<String>) -> Seq<
    (String, u64),
>
    decreases list.len(),
{
    if list.len() == 0 {
        peers
    } else {
        spec_remove_peer(spec_remove_all(peers, list.drop_last()), list.last()@)
    }
}

proof fn lemma_find_peer_none_from(peers: Seq<(String, u64)>, id: Seq<char>, from: int)
    requires
        0 <= from,
        spec_find_peer(peers, id, from) is None,
    ensures
        forall|i: int| from <= i < peers.len() ==> (#[trigger] peers[i]).0@ != id,
    decreases peers.len() - from,
{
    if from < peers.len() {
        lemma_find_peer_none_from(peers, id, from + 1);
    }
}

proof fn lemma_find_peer_some_from(peers: Seq<(String, u64)>, id: Seq<char>, from: int, k: int)
    requires
        0 <= from,
        spec_find_peer(peers, id, from) == Option::Some(k),
    ensures
        from <= k < peers.len(),
        peers[k].0@ == id,
    decreases peers.len() - from,
{
    if from < peers.len() && peers[from].0@ != id {
        lemma_find_peer_some_from(peers, id, from + 1, k);
    }
}

/// The peers last seen on the local network, each with the time it was
/// last seen; one entry per peer id.
#[derive(Debug)]
pub struct PeerDirectory {
    /// Peer id and last-seen time, unique by peer id.
    pub peers: Vec<(String, u64)>,
}

impl PeerDirectory {
    /// Well-formedness: one entry per peer id.
    pub open spec fn wf(&self) -> bool {
        forall|i: int, j: int|
            0 <= i < j < self.peers@.len() ==> (#[trigger] self.peers@[i]).0@ != (
            #[trigger] self.peers@[j]).0@
    }

    /// An empty directory.
    pub fn new() -> (r: PeerDirectory)
        ensures
            r.wf(),
            r.peers@ == Seq::<(String, u64)>::empty(),
    {
        let r = PeerDirectory { peers: Vec::new() };
        proof {
            assert(r.peers@ =~= Seq::<(String, u64)>::empty());
        }
        r
    }

    /// Index of the entry for `peer_id`, if any.
    fn find_index(&self, peer_id: &str) -> (r: Option<usize>)
        ensures
            (match r {
                Option::Some(i) => spec_find_peer(self.peers@, peer_id@, 0) == Option::Some(
                    i as int,
                ) && i < self.peers@.len(),
                Option::None => spec_find_peer(self.peers@, peer_id@, 0) is None,
            }),
    {
        let n = self.peers.len();
        let mut i: usize = 0;
        while i < n
            invariant
                0 <= i <= n,
                n == self.peers@.len(),
                spec_find_peer(self.peers@, peer_id@, 0) == spec_find_peer(
                    self.peers@,
                    peer_id@,
                    i as int,
                ),
            decreases n - i,
        {
            if str_eq(self.peers[i].0.as_str(), peer_id) {
                return Option::Some(i);
            }
            i = i + 1;
        }
        Option::None
    }

    /// When `peer_id` was last seen, if it is present.
    pub fn last_seen(&self, peer_id: &str) -> (r: Option<u64>)
        ensures
            (match spec_find_peer(self.peers@, peer_id@, 0) {
                Option::Some(i) => r == Option::Some(self.peers@[i].1),
                Option::None => r is None,
            }),
    {
        match self.find_index(peer_id) {
            Option::Some(i) => Option::Some(self.peers[i].1),
            Option::None => Option::None,
        }
    }

    /// Records that `peer_id` was seen at `now`, exactly `spec_mark_seen`.
    pub fn mark_seen(&mut self, peer_id: String, now: u64)
        requires
            old(self).wf(),
        ensures
            final(self).wf(),
            final(self).peers@ == spec_mark_seen(old(self).peers@, peer_id, now),
    {
        let ghost peers0 = self.peers@;
        match self.find_index(peer_id.as_str()) {
            Option::Some(i) => {
                proof {
                    lemma_find_peer_some_from(peers0, peer_id@, 0, i as int);
                }
                self.peers.set(i, (peer_id, now));
            },
            Option::None => {
                proof {
                    lemma_find_peer_none_from(peers0, peer_id@, 0);
                }
                self.peers.push((peer_id, now));
            },
        }
    }

    /// Removes the entry for `peer_id`, exactly `spec_remove_peer`.
    pub fn remove_peer(&mut self, peer_id: &str)
        requires
            old(self).wf(),
        ensures
            final(self).wf(),
            final(self).peers@ == spec_remove_peer(old(self).peers@, peer_id@),
    {
        let ghost peers0 = self.peers@;
        match self.find_index(peer_id) {
            Option::Some(i) => {
                let _ = self.peers.remove(i);
                proof {
                    assert forall|a: int, b: int|
                        0 <= a < b < self.peers@.len() implies (#[trigger] self.peers@[a]).0@ != (
                    #[trigger] self.peers@[b]).0@ by {
                        assert(self.peers@[a] == if a < i as int {
                            peers0[a]
                        } else {
                            peers0[a + 1]
                        });
                        assert(self.peers@[b] == if b < i as int {
                            peers0[b]
                        } else {
                            peers0[b + 1]
                        });
                    }
                }
            },
            Option::None => {},
        }
    }
}

/// Applies one behaviour event: a gossip message is handed on to the
/// consensus layer, a discovery update refreshes or removes peer entries,
/// and an identify event changes nothing.
pub fn handle_event(dir: &mut PeerDirectory, event: CubiqBehaviourEvent, now: u64) -> (r: Option<
    NetworkMessage,
>)
    requires
        old(dir).wf(),
    ensures
        final(dir).wf(),
        (match event {
            CubiqBehaviourEvent::Gossipsub(_, msg) => r == Option::Some(msg) && final(dir).peers@
                == old(dir).peers@,
            CubiqBehaviourEvent::Mdns(MdnsUpdate::Discovered(list)) => r is None
                && final(dir).peers@ == spec_mark_all(old(dir).peers@, list@, now),
            CubiqBehaviourEvent::Mdns(MdnsUpdate::Expired(list)) => r is None && final(dir).peers@
                == spec_remove_all(old(dir).peers@, list@),
            CubiqBehaviourEvent::Identify(_) => r is None && final(dir).peers@ == old(dir).peers@,
        }),
{
    match event {
        CubiqBehaviourEvent::Gossipsub(_, msg) => Option::Some(msg),
        CubiqBehaviourEvent::Mdns(MdnsUpdate::Discovered(list)) => {
            let ghost peers0 = dir.peers@;
            let n = list.len();
            let mut i: usize = 0;
            while i < n
                invariant
                    0 <= i <= n,
                    n == list@.len(),
                    dir.wf(),
                    dir.peers@ == spec_mark_all(peers0, list@.take(i as int), now),
                decreases n - i,
            {
                proof {
                    assert(list@.take(i as int + 1).drop_last() =~= list@.take(i as int));
                    assert(list@.take(i as int + 1).last() == list@[i as int]);
                }
                dir.mark_seen(list[i].clone(), now);
                i = i + 1;
            }
            proof {
                assert(list@.take(n as int) =~= list@);
            }
            Option::None
        },
        CubiqBehaviourEvent::Mdns(MdnsUpdate::Expired(list)) => {
            let ghost peers0 = dir.peers@;
            let n = list.len();
            let mut i: usize = 0;
            while i < n
                invariant
                    0 <= i <= n,
                    n == list@.len(),
                    dir.wf(),
                    dir.peers@ == spec_remove_all(peers0, list@.take(i as int)),
                decreases n - i,
            {
                proof {
                    assert(list@.take(i as int + 1).drop_last() =~= list@.take(i as int));
                    assert(list@.take(i as int + 1).last() == list@[i as int]);
                }
                dir.remove_peer(list[i].as_str());
                i = i + 1;
            }
            proof {
                assert(list@.take(n as int) =~= list@);
            }
            Option::None
        },
        CubiqBehaviourEvent::Identify(_) => Option::None,
    }
}

} // verus!
