use vstd::prelude::*;

verus! {

use crate::datatype::PayloadTag;
use crate::datatype::PayloadView;
use crate::datatype::PeerView;
use crate::datatype::RemoteClipboard;
use crate::datatype::UniclipPayload;

// ---------------------------------------------------------------------------
// The process-wide mesh state: the known peer addresses, the handles given
// out to connections, and the correlator's table of pending responses. One
// value of this is built at startup and shared, under a lock, by every
// connection's loop.
// ---------------------------------------------------------------------------

/// A pending response: which connection it arrived on, what shape it has,
/// and the payload itself, waiting for the caller that asked for it.
pub struct CorrelationEntry {
    pub index: usize,
    pub tag: PayloadTag,
    pub data: UniclipPayload,
}

/// Abstract value of a correlation entry.
pub struct EntryView {
    pub index: usize,
    pub tag: PayloadTag,
    pub data: PayloadView,
}

impl View for CorrelationEntry {
    type V = EntryView;

    open spec fn view(&self) -> EntryView {
        EntryView { index: self.index, tag: self.tag, data: self.data@ }
    }
}

pub open spec fn entry_matches(e: EntryView, index: usize, tag: PayloadTag) -> bool {
    e.index == index && e.tag == tag
}

/// Where the first entry for `(index, tag)` sits in the table, if any.
pub open spec fn first_match(mq: Seq<EntryView>, index: usize, tag: PayloadTag) -> Option<int>
    decreases mq.len(),
{
    if mq.len() == 0 {
        None
    } else if entry_matches(mq[0], index, tag) {
        Some(0int)
    } else {
        match first_match(mq.drop_first(), index, tag) {
            Some(i) => Some(i + 1),
            None => None,
        }
    }
}

proof fn lemma_first_match_found(mq: Seq<EntryView>, index: usize, tag: PayloadTag, i: int)
    requires
        0 <= i < mq.len(),
        entry_matches(mq[i], index, tag),
        forall|j: int| 0 <= j < i ==> !entry_matches(#[trigger] mq[j], index, tag),
    ensures
        first_match(mq, index, tag) == Some(i),
    decreases mq.len(),
{
    if i > 0 {
        lemma_first_match_found(mq.drop_first(), index, tag, i - 1);
    }
}

proof fn lemma_first_match_none(mq: Seq<EntryView>, index: usize, tag: PayloadTag)
    requires
        forall|j: int| 0 <= j < mq.len() ==> !entry_matches(#[trigger] mq[j], index, tag),
    ensures
        first_match(mq, index, tag) is None,
    decreases mq.len(),
{
    if mq.len() > 0 {
        lemma_first_match_none(mq.drop_first(), index, tag);
    }
}

/// The process-wide mesh state as one owned value: peer set, connection
/// handle counter, and correlation table. Built once at startup and
/// shared, under a lock, by every component that needs it.
pub struct MeshState {
    /// The port the local listener advertises.
    pub local_port: u16,
    /// Every peer address this node has learned of.
    pub peers: Vec<RemoteClipboard>,
    /// The next connection handle; handles are given out once and never
    /// reused, so entries stay unambiguous for a connection's lifetime.
    pub next_handle: usize,
    /// Pending responses, each waiting for its caller.
    pub mq: Vec<CorrelationEntry>,
}

impl MeshState {
    pub open spec fn peers_view(&self) -> Seq<PeerView> {
        self.peers@.map_values(|p: RemoteClipboard| p@)
    }

    pub open spec fn mq_view(&self) -> Seq<EntryView> {
        self.mq@.map_values(|e: CorrelationEntry| e@)
    }
}

/// Build the one mesh state of the process, knowing nothing but the local
/// listener port yet.
pub fn init(local_port: u16) -> (s: MeshState)
    ensures
        s.local_port == local_port,
        s.peers_view() == Seq::<PeerView>::empty(),
        s.next_handle == 0,
        s.mq_view() == Seq::<EntryView>::empty(),
{
    let s = MeshState { local_port, peers: Vec::new(), next_handle: 0, mq: Vec::new() };
    proof {
        assert(s.peers_view() =~= Seq::<PeerView>::empty());
        assert(s.mq_view() =~= Seq::<EntryView>::empty());
    }
    s
}

impl MeshState {
    /// File a response under its connection and shape, behind the others.
    pub fn insert(&mut self, index: usize, tag: PayloadTag, data: UniclipPayload)
        ensures
            final(self).mq_view() == old(self).mq_view().push(
                EntryView { index, tag, data: data@ },
            ),
            final(self).peers_view() == old(self).peers_view(),
            final(self).local_port == old(self).local_port,
            final(self).next_handle == old(self).next_handle,
    {
        let ghost oldview = self.mq_view();
        let ghost e = EntryView { index, tag, data: data@ };
        self.mq.push(CorrelationEntry { index, tag, data });
        proof {
            assert(self.mq_view() =~= oldview.push(e));
        }
    }

    /// One scan of the correlator: take out and return the first pending
    /// response for this connection and shape, leaving the others in
    /// order; nothing, if none is waiting yet. The caller polls this
    /// until a response arrives.
    pub fn acquire(&mut self, index: usize, tag: PayloadTag) -> (r: Option<UniclipPayload>)
        ensures
            final(self).peers_view() == old(self).peers_view(),
            final(self).local_port == old(self).local_port,
            final(self).next_handle == old(self).next_handle,
            match first_match(old(self).mq_view(), index, tag) {
                Some(i) => {
                    &&& r is Some
                    &&& r->0@ == old(self).mq_view()[i].data
                    &&& final(self).mq_view() == old(self).mq_view().remove(i)
                },
                None => r is None && final(self).mq_view() == old(self).mq_view(),
            },
    {
        let ghost oldview = self.mq_view();
        let n = self.mq.len();
        let mut i: usize = 0;
        while i < n
            invariant
                n == self.mq@.len(),
                i <= n,
                oldview == self.mq_view(),
                oldview == old(self).mq_view(),
                self.local_port == old(self).local_port,
                self.peers_view() == old(self).peers_view(),
                self.next_handle == old(self).next_handle,
                forall|j: int| 0 <= j < i ==> !entry_matches(#[trigger] oldview[j], index, tag),
            decreases n - i,
        {
            if self.mq[i].index == index && tag_eq(self.mq[i].tag, tag) {
                proof {
                    assert(oldview[i as int] == self.mq@[i as int]@);
                    assert(entry_matches(oldview[i as int], index, tag));
                    lemma_first_match_found(oldview, index, tag, i as int);
                }
                let ghost prev = self.mq@;
                let e = self.mq.remove(i);
                proof {
                    assert(e@ == oldview[i as int]);
                    assert(self.mq@ == prev.remove(i as int));
                    assert forall|j: int| 0 <= j < self.mq@.len() implies #[trigger] self.mq_view()[
                        j
                    ] == oldview.remove(i as int)[j] by {
                        assert(self.mq_view()[j] == self.mq@[j]@);
                        if j < i {
                            assert(self.mq@[j] == prev[j]);
                        } else {
                            assert(self.mq@[j] == prev[j + 1]);
                        }
                    }
                    assert(self.mq_view() =~= oldview.remove(i as int));
                }
                return Some(e.data);
            }
            proof {
                assert(oldview[i as int] == self.mq@[i as int]@);
            }
            i = i + 1;
        }
        proof {
            lemma_first_match_none(oldview, index, tag);
        }
        None
    }

    /// Hand out the next connection handle; handles count up and are
    /// never reused.
    pub fn add_handler(&mut self) -> (h: usize)
        requires
            old(self).next_handle < usize::MAX,
        ensures
            h == old(self).next_handle,
            final(self).next_handle == old(self).next_handle + 1,
            final(self).peers_view() == old(self).peers_view(),
            final(self).mq_view() == old(self).mq_view(),
            final(self).local_port == old(self).local_port,
    {
        let h = self.next_handle;
        self.next_handle = self.next_handle + 1;
        h
    }

    /// Whether this peer address is already known.
    pub fn contains_peer(&self, p: &RemoteClipboard) -> (r: bool)
        ensures
            r == self.peers_view().contains(p@),
    {
        let n = self.peers.len();
        let mut i: usize = 0;
        while i < n
            invariant
                n == self.peers@.len(),
                i <= n,
                forall|j: int| 0 <= j < i ==> self.peers_view()[j] != p@,
            decreases n - i,
        {
            if &self.peers[i] == p {
                proof {
                    assert(self.peers_view()[i as int] == p@);
                }
                return true;
            }
            i = i + 1;
        }
        proof {
            assert(forall|j: int| 0 <= j < self.peers_view().len() ==> self.peers_view()[j] != p@);
        }
        false
    }

    /// Record a peer address alone, for a connection that already has
    /// its handle.
    pub fn record_peer(&mut self, remote: RemoteClipboard)
        ensures
            final(self).peers_view() == old(self).peers_view().push(remote@),
            final(self).mq_view() == old(self).mq_view(),
            final(self).local_port == old(self).local_port,
            final(self).next_handle == old(self).next_handle,
    {
        let ghost oldpeers = self.peers_view();
        let ghost pv = remote@;
        self.peers.push(remote);
        proof {
            assert(self.peers_view() =~= oldpeers.push(pv));
        }
    }

    /// Record a newly learned peer and give its connection a handle.
    pub fn add_peer(&mut self, remote: RemoteClipboard) -> (h: usize)
        requires
            old(self).next_handle < usize::MAX,
        ensures
            h == old(self).next_handle,
            final(self).next_handle == old(self).next_handle + 1,
            final(self).peers_view() == old(self).peers_view().push(remote@),
            final(self).mq_view() == old(self).mq_view(),
            final(self).local_port == old(self).local_port,
    {
        let ghost oldpeers = self.peers_view();
        let ghost pv = remote@;
        self.peers.push(remote);
        proof {
            assert(self.peers_view() =~= oldpeers.push(pv));
        }
        self.add_handler()
    }
}

/// Tag equality, spelled out so its meaning in contracts is the derived
/// structural one.
pub fn tag_eq(a: PayloadTag, b: PayloadTag) -> (r: bool)
    ensures
        r == (a == b),
{
    a == b
}


// ---------------------------------------------------------------------------
// The gossip merge: what a received peer list does to the known peer set.
// Peers are taken in order, each added only if not yet known — also not
// known from an earlier entry of the same list.
// ---------------------------------------------------------------------------

pub open spec fn merge_step(cur: Seq<PeerView>, p: PeerView) -> Seq<PeerView> {
    if cur.contains(p) {
        cur
    } else {
        cur.push(p)
    }
}

/// The peer set after absorbing a received list into `cur`.
pub open spec fn merge_peers(cur: Seq<PeerView>, list: Seq<PeerView>) -> Seq<PeerView>
    decreases list.len(),
{
    if list.len() == 0 {
        cur
    } else {
        merge_peers(merge_step(cur, list[0]), list.drop_first())
    }
}

/// The genuinely new peers of a received list, in list order: those to
/// which a connection must now be dialed.
pub open spec fn new_peers(cur: Seq<PeerView>, list: Seq<PeerView>) -> Seq<PeerView>
    decreases list.len(),
{
    if list.len() == 0 {
        Seq::empty()
    } else if cur.contains(list[0]) {
        new_peers(cur, list.drop_first())
    } else {
        seq![list[0]] + new_peers(cur.push(list[0]), list.drop_first())
    }
}

/// Absorbing a list loses no peer that was already known.
pub proof fn lemma_merge_keeps_known(cur: Seq<PeerView>, list: Seq<PeerView>, p: PeerView)
    requires
        cur.contains(p),
    ensures
        merge_peers(cur, list).contains(p),
    decreases list.len(),
{
    if list.len() > 0 {
        let cur2 = merge_step(cur, list[0]);
        if !cur.contains(list[0]) {
            let i = choose|i: int| 0 <= i < cur.len() && cur[i] == p;
            assert(cur2[i] == p);
        }
        lemma_merge_keeps_known(cur2, list.drop_first(), p);
    }
}

/// Absorbing a list leaves every listed peer known: this is what makes
/// the flood-fill join converge on mesh membership.
pub proof fn lemma_merge_absorbs_list(cur: Seq<PeerView>, list: Seq<PeerView>, p: PeerView)
    requires
        list.contains(p),
    ensures
        merge_peers(cur, list).contains(p),
    decreases list.len(),
{
    let cur2 = merge_step(cur, list[0]);
    if p == list[0] {
        if cur.contains(p) {
        } else {
            assert(cur2[cur.len() as int] == p);
        }
        assert(cur2.contains(p));
        lemma_merge_keeps_known(cur2, list.drop_first(), p);
    } else {
        let i = choose|i: int| 0 <= i < list.len() && list[i] == p;
        assert(list.drop_first()[i - 1] == p);
        assert(list.drop_first().contains(p));
        lemma_merge_absorbs_list(cur2, list.drop_first(), p);
    }
}

/// No two entries denote the same peer.
pub open spec fn no_dup_peers(s: Seq<PeerView>) -> bool {
    forall|i: int, j: int| 0 <= i < j < s.len() ==> s[i] != s[j]
}

/// Absorbing a list never duplicates an address: the peer set stays
/// deduplicated by equality.
pub proof fn lemma_merge_keeps_no_dup(cur: Seq<PeerView>, list: Seq<PeerView>)
    requires
        no_dup_peers(cur),
    ensures
        no_dup_peers(merge_peers(cur, list)),
    decreases list.len(),
{
    if list.len() > 0 {
        let cur2 = merge_step(cur, list[0]);
        assert(no_dup_peers(cur2)) by {
            if !cur.contains(list[0]) {
                assert forall|i: int, j: int| 0 <= i < j < cur2.len() implies cur2[i] != cur2[
                    j
                ] by {
                    if j == cur.len() {
                        assert(cur2[j] == list[0]);
                        assert(cur2[i] == cur[i]);
                        if cur[i] == list[0] {
                            assert(cur.contains(list[0]));
                        }
                    }
                }
            }
        }
        lemma_merge_keeps_no_dup(cur2, list.drop_first());
    }
}

impl MeshState {
    /// Absorb a received peer list: record each address not yet known,
    /// give its future connection a handle, and return the new peers in
    /// list order, each with its handle, for the caller to dial.
    pub fn absorb_peer_list(&mut self, list: &Vec<RemoteClipboard>) -> (added: Vec<
        (usize, RemoteClipboard),
    >)
        requires
            old(self).next_handle + list@.len() <= usize::MAX,
        ensures
            final(self).peers_view() == merge_peers(
                old(self).peers_view(),
                list@.map_values(|p: RemoteClipboard| p@),
            ),
            final(self).mq_view() == old(self).mq_view(),
            final(self).local_port == old(self).local_port,
            added@.len() == new_peers(
                old(self).peers_view(),
                list@.map_values(|p: RemoteClipboard| p@),
            ).len(),
            final(self).next_handle == old(self).next_handle + added@.len(),
            forall|j: int| 0 <= j < added@.len() ==> (#[trigger] added@[j]).1@ == new_peers(
                old(self).peers_view(),
                list@.map_values(|p: RemoteClipboard| p@),
            )[j] && added@[j].0 == old(self).next_handle + j,
    {
        let ghost lv = list@.map_values(|p: RemoteClipboard| p@);
        let ghost oldpeers = old(self).peers_view();
        let mut added: Vec<(usize, RemoteClipboard)> = Vec::new();
        let n = list.len();
        let mut i: usize = 0;
        proof {
            assert(lv.skip(0) =~= lv);
            assert(added@.map_values(|e: (usize, RemoteClipboard)| e.1@) =~= Seq::<
                PeerView,
            >::empty());
            assert(Seq::<PeerView>::empty() + new_peers(self.peers_view(), lv) =~= new_peers(
                self.peers_view(),
                lv,
            ));
        }
        while i < n
            invariant
                n == list@.len(),
                i <= n,
                lv == list@.map_values(|p: RemoteClipboard| p@),
                old(self).next_handle + n <= usize::MAX,
                self.local_port == old(self).local_port,
                self.mq_view() == old(self).mq_view(),
                self.next_handle == old(self).next_handle + added@.len(),
                added@.len() <= i,
                merge_peers(oldpeers, lv) == merge_peers(self.peers_view(), lv.skip(i as int)),
                new_peers(oldpeers, lv) =~= added@.map_values(
                    |e: (usize, RemoteClipboard)| e.1@,
                ) + new_peers(self.peers_view(), lv.skip(i as int)),
                forall|j: int| 0 <= j < added@.len() ==> (#[trigger] added@[j]).1@ == new_peers(
                    oldpeers,
                    lv,
                )[j] && added@[j].0 == old(self).next_handle + j,
            decreases n - i,
        {
            let ghost cur = self.peers_view();
            proof {
                assert(lv.skip(i as int)[0] == lv[i as int]);
                assert(lv[i as int] == list@[i as int]@);
                assert(lv.skip(i as int).drop_first() =~= lv.skip(i as int + 1));
            }
            let p = &list[i];
            if !self.contains_peer(p) {
                let ghost addedv0 = added@.map_values(|e: (usize, RemoteClipboard)| e.1@);
                let copy = p.dup();
                let h = self.add_peer(copy);
                added.push((h, p.dup()));
                proof {
                    assert(added@.map_values(|e: (usize, RemoteClipboard)| e.1@) =~= addedv0.push(
                        p@,
                    ));
                    assert(new_peers(cur, lv.skip(i as int)) == seq![lv[i as int]] + new_peers(
                        cur.push(lv[i as int]),
                        lv.skip(i as int + 1),
                    ));
                    assert(addedv0 + (seq![lv[i as int]] + new_peers(
                        self.peers_view(),
                        lv.skip(i as int + 1),
                    )) =~= addedv0.push(p@) + new_peers(self.peers_view(), lv.skip(i as int + 1)));
                }
            } else {
                proof {
                    assert(merge_step(cur, lv[i as int]) == cur);
                }
            }
            i = i + 1;
        }
        proof {
            assert(lv.skip(n as int) =~= Seq::<PeerView>::empty());
            assert(added@.map_values(|e: (usize, RemoteClipboard)| e.1@) + Seq::<
                PeerView,
            >::empty() =~= added@.map_values(|e: (usize, RemoteClipboard)| e.1@));
        }
        added
    }
}

} // verus!
