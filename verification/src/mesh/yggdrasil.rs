use vstd::prelude::*;
use vstd::string::*;

use crate::event_bus::EventView;
use crate::orchestration::node_manager::{
    apply_upserts, lemma_upserted_ids_registered, lemma_upserts_add_only_named,
    lemma_upserts_announce_only_new_named, lemma_upserts_idempotent, upserts_events, NodeManager,
};

verus! {

/// What the Yggdrasil admin API reports of the local node.
#[derive(Debug, Clone)]
pub struct YggdrasilSelf {
    pub address: Option<String>,
    pub coords: Option<Vec<i64>>,
    pub subnet: Option<String>,
    pub public_key: Option<String>,
}

/// What the Yggdrasil admin API reports of one peer.
#[derive(Debug, Clone)]
pub struct YggdrasilPeer {
    pub address: Option<String>,
    pub coords: Option<Vec<i64>>,
    pub public_key: Option<String>,
    pub remote: Option<bool>,
}

/// The body of the admin API's answer on its peers.
#[derive(Debug, Clone)]
pub struct YggdrasilPeersResponse {
    pub peers: Option<Vec<YggdrasilPeer>>,
}

/// `s` without the `/` characters that end it.
pub open spec fn trim_trailing_slashes(s: Seq<char>) -> Seq<char>
    decreases s.len(),
{
    if s.len() > 0 && s.last() == '/' {
        trim_trailing_slashes(s.drop_last())
    } else {
        s
    }
}

/// The URL of the endpoint `path` (such as `/api/self`) of the admin API at
/// `admin_url`: the base URL without its trailing slashes, then the path.
pub fn api_url(admin_url: &str, path: &str) -> (url: String)
    ensures
        url@ == trim_trailing_slashes(admin_url@) + path@,
{
    let n = admin_url.unicode_len();
    let mut k = n;
    assert(admin_url@.subrange(0, n as int) =~= admin_url@);
    while k > 0 && admin_url.get_char(k - 1) == '/'
        invariant
            n == admin_url@.len(),
            k <= n,
            trim_trailing_slashes(admin_url@) == trim_trailing_slashes(admin_url@.subrange(0, k as int)),
        decreases k,
    {
        assert(admin_url@.subrange(0, k as int).drop_last() =~= admin_url@.subrange(0, k - 1));
        k = k - 1;
    }
    let mut url = admin_url.substring_char(0, k).to_owned();
    url.append(path);
    url
}

/// The admin URL to use: the configured one, else `http://localhost:9001`.
pub fn admin_url_or_default(configured: Option<String>) -> (url: String)
    ensures
        match configured {
            Some(c) => url == c,
            None => url@ == "http://localhost:9001"@,
        },
{
    match configured {
        Some(c) => c,
        None => String::from_str("http://localhost:9001"),
    }
}

/// The peers of an answer; none when the answer lists none.
pub fn peers_or_empty(response: YggdrasilPeersResponse) -> (peers: Vec<YggdrasilPeer>)
    ensures
        match response.peers {
            Some(p) => peers == p,
            None => peers@.len() == 0,
        },
{
    match response.peers {
        Some(p) => p,
        None => Vec::new(),
    }
}

/// The status under which a peer is registered: `remote` for a peer that
/// the admin API marks remote, `connected` otherwise.
pub open spec fn peer_status_text(remote: Option<bool>) -> Seq<char> {
    if remote == Some(true) {
        "remote"@
    } else {
        "connected"@
    }
}

/// The status text of a peer with the given `remote` flag.
pub fn peer_status(remote: Option<bool>) -> (status: String)
    ensures
        status@ == peer_status_text(remote),
{
    match remote {
        Some(true) => String::from_str("remote"),
        _ => String::from_str("connected"),
    }
}

/// The upsert that the local node's own report asks for: its address with
/// status `online`, when the report has an address.
pub open spec fn self_updates(self_info: Option<YggdrasilSelf>) -> Seq<(Seq<char>, Seq<char>)> {
    match self_info {
        Some(info) => match info.address {
            Some(a) => seq![(a@, "online"@)],
            None => seq![],
        },
        None => seq![],
    }
}

/// The upserts that a list of peers asks for, in order: each peer with an
/// address, under its status.
pub open spec fn peer_updates(peers: Seq<YggdrasilPeer>) -> Seq<(Seq<char>, Seq<char>)>
    decreases peers.len(),
{
    if peers.len() == 0 {
        seq![]
    } else {
        let rest = peer_updates(peers.drop_last());
        match peers.last().address {
            Some(a) => rest.push((a@, peer_status_text(peers.last().remote))),
            None => rest,
        }
    }
}

/// All upserts of one synchronisation: the local node first, then the peers.
/// A report that could not be fetched contributes nothing.
pub open spec fn sync_updates(
    self_info: Option<YggdrasilSelf>,
    peers: Option<Seq<YggdrasilPeer>>,
) -> Seq<(Seq<char>, Seq<char>)> {
    self_updates(self_info) + match peers {
        Some(p) => peer_updates(p),
        None => seq![],
    }
}

/// The peers of an answer by their sequence, `None` for a failed request.
pub open spec fn peer_list(peers: Option<Vec<YggdrasilPeer>>) -> Option<Seq<YggdrasilPeer>> {
    match peers {
        Some(p) => Some(p@),
        None => None,
    }
}

/// Brings the registry in line with what the Yggdrasil admin API reported:
/// `self_info` and `peers` are the two answers, `None` where a request failed.
/// The local node is registered as `online`, then each peer with an address as
/// `remote` or `connected`.
pub fn sync_to_node_manager(
    node_manager: &mut NodeManager,
    self_info: Option<YggdrasilSelf>,
    peers: Option<Vec<YggdrasilPeer>>,
)
    ensures
        final(node_manager).event_bus().continues(&old(node_manager).event_bus()),
        final(node_manager)@ == apply_upserts(
            old(node_manager)@,
            sync_updates(self_info, peer_list(peers)),
        ),
        final(node_manager).published_events() == old(node_manager).published_events()
            + upserts_events(old(node_manager)@, sync_updates(self_info, peer_list(peers))),
        forall|id: Seq<char>|
            #[trigger] final(node_manager)@.contains_key(id) ==> {
                ||| old(node_manager)@.contains_key(id)
                ||| (self_info is Some && self_info->0.address is Some && self_info->0.address->0@ == id)
                ||| (peers is Some && exists|k: int|
                    0 <= k < peers->0@.len() && (#[trigger] peers->0@[k].address) is Some
                        && peers->0@[k].address->0@ == id)
            },
{
    proof {
        lemma_sync_registers_only_reported(node_manager@, self_info, peer_list(peers));
    }
    let ghost m0 = node_manager@;
    let ghost e0 = node_manager.published_events();
    let ghost su = self_updates(self_info);
    let mut registered_self = false;
    if let Some(info) = &self_info {
        if let Some(addr) = &info.address {
            node_manager.register_or_update_node(addr.clone(), String::from_str("online"));
            registered_self = true;
            assert(su =~= seq![(addr@, "online"@)]);
            assert(su.drop_last() =~= Seq::<(Seq<char>, Seq<char>)>::empty());
            assert(apply_upserts(m0, su.drop_last()) == m0);
            assert(upserts_events(m0, su.drop_last()) =~= Seq::<EventView>::empty());
            assert(node_manager@ == apply_upserts(m0, su));
            assert(node_manager.published_events() =~= e0 + upserts_events(m0, su));
        }
    }
    if !registered_self {
        assert(su =~= Seq::<(Seq<char>, Seq<char>)>::empty());
    }
    assert(node_manager@ == apply_upserts(m0, su));
    assert(node_manager.published_events() =~= e0 + upserts_events(m0, su));
    match peers {
        Some(list) => {
            let n = list.len();
            let mut i: usize = 0;
            assert(su + peer_updates(list@.take(0)) =~= su);
            while i < n
                invariant
                    n == list@.len(),
                    i <= n,
                    node_manager.event_bus().continues(&old(node_manager).event_bus()),
                    node_manager@ == apply_upserts(m0, su + peer_updates(list@.take(i as int))),
                    node_manager.published_events() == e0 + upserts_events(
                        m0,
                        su + peer_updates(list@.take(i as int)),
                    ),
                decreases n - i,
            {
                let ghost before = su + peer_updates(list@.take(i as int));
                assert(list@.take(i + 1).drop_last() =~= list@.take(i as int));
                let peer = &list[i];
                if let Some(addr) = &peer.address {
                    let status = peer_status(peer.remote);
                    node_manager.register_or_update_node(addr.clone(), status);
                    let ghost after = su + peer_updates(list@.take(i + 1));
                    assert(after =~= before.push((addr@, peer_status_text(peer.remote))));
                    assert(after.drop_last() =~= before);
                    assert(node_manager.published_events() =~= e0 + upserts_events(m0, after));
                } else {
                    assert(su + peer_updates(list@.take(i + 1)) =~= before);
                }
                i = i + 1;
            }
            assert(list@.take(n as int) =~= list@);
        },
        None => {
            assert(su + Seq::<(Seq<char>, Seq<char>)>::empty() =~= su);
        },
    }
}

/// Trailing slashes do not change the URL of an endpoint: a base URL with an
/// extra `/` gives the same URLs, and trimming twice is trimming once.
pub proof fn lemma_trailing_slash_ignored(s: Seq<char>)
    ensures
        trim_trailing_slashes(s.push('/')) == trim_trailing_slashes(s),
        trim_trailing_slashes(trim_trailing_slashes(s)) == trim_trailing_slashes(s),
    decreases s.len(),
{
    assert(s.push('/').drop_last() =~= s);
    if s.len() > 0 && s.last() == '/' {
        lemma_trailing_slash_ignored(s.drop_last());
    }
}

/// Each peer that has an address gives an upsert of that address.
pub proof fn lemma_peer_updates_cover(peers: Seq<YggdrasilPeer>)
    ensures
        forall|k: int|
            0 <= k < peers.len() && (#[trigger] peers[k].address) is Some ==> exists|i: int|
                0 <= i < peer_updates(peers).len() && peer_updates(peers)[i].0
                    == peers[k].address->0@,
    decreases peers.len(),
{
    if peers.len() > 0 {
        let front = peers.drop_last();
        lemma_peer_updates_cover(front);
        let rest = peer_updates(front);
        assert forall|k: int|
            0 <= k < peers.len() && (#[trigger] peers[k].address) is Some implies exists|i: int|
                0 <= i < peer_updates(peers).len() && peer_updates(peers)[i].0
                    == peers[k].address->0@ by {
            if k < front.len() {
                assert(front[k] == peers[k]);
                let i = choose|i: int| 0 <= i < rest.len() && rest[i].0 == front[k].address->0@;
                assert(peer_updates(peers)[i] == rest[i]);
            } else {
                assert(peer_updates(peers)[rest.len() as int].0 == peers[k].address->0@);
            }
        }
    }
}

/// After a synchronisation the local node's address and every peer address
/// that the admin API reported are registered.
pub proof fn lemma_sync_registers_reported_nodes(
    m: Map<Seq<char>, Seq<char>>,
    self_info: Option<YggdrasilSelf>,
    peers: Seq<YggdrasilPeer>,
)
    ensures
        self_info matches Some(info) ==> (info.address matches Some(a) ==> apply_upserts(
            m,
            sync_updates(self_info, Some(peers)),
        ).contains_key(a@)),
        forall|k: int|
            0 <= k < peers.len() && (#[trigger] peers[k].address) is Some ==> apply_upserts(
                m,
                sync_updates(self_info, Some(peers)),
            ).contains_key(peers[k].address->0@),
{
    let ups = sync_updates(self_info, Some(peers));
    let su = self_updates(self_info);
    lemma_upserted_ids_registered(m, ups);
    if let Some(info) = self_info {
        if let Some(a) = info.address {
            assert(su =~= seq![(a@, "online"@)]);
            assert(ups[0] == su[0]);
            assert(apply_upserts(m, ups).contains_key(ups[0].0));
        }
    }
    lemma_peer_updates_cover(peers);
    assert forall|k: int|
        0 <= k < peers.len() && (#[trigger] peers[k].address) is Some implies apply_upserts(
            m,
            ups,
        ).contains_key(peers[k].address->0@) by {
        let i = choose|i: int|
            0 <= i < peer_updates(peers).len() && peer_updates(peers)[i].0 == peers[k].address->0@;
        assert(ups[su.len() + i] == peer_updates(peers)[i]);
    }
}

/// Synchronising twice with the same reports is synchronising once: the
/// second time changes no status and publishes no event.
pub proof fn lemma_sync_idempotent(
    m: Map<Seq<char>, Seq<char>>,
    self_info: Option<YggdrasilSelf>,
    peers: Option<Seq<YggdrasilPeer>>,
)
    ensures
        apply_upserts(apply_upserts(m, sync_updates(self_info, peers)), sync_updates(self_info, peers))
            == apply_upserts(m, sync_updates(self_info, peers)),
        upserts_events(apply_upserts(m, sync_updates(self_info, peers)), sync_updates(self_info, peers))
            =~= Seq::<EventView>::empty(),
{
    lemma_upserts_idempotent(m, sync_updates(self_info, peers));
}

/// Every upsert that a list of peers asks for is a peer's address, with the
/// status that the peer's `remote` flag gives.
pub proof fn lemma_peer_updates_are_peer_addresses(peers: Seq<YggdrasilPeer>)
    ensures
        forall|i: int|
            0 <= i < peer_updates(peers).len() ==> exists|k: int|
                0 <= k < peers.len() && (#[trigger] peers[k].address) is Some
                    && peers[k].address->0@ == #[trigger] peer_updates(peers)[i].0
                    && peer_updates(peers)[i].1 == peer_status_text(peers[k].remote),
    decreases peers.len(),
{
    if peers.len() > 0 {
        let front = peers.drop_last();
        lemma_peer_updates_are_peer_addresses(front);
        let ups = peer_updates(peers);
        let prev = peer_updates(front);
        assert forall|i: int| 0 <= i < ups.len() implies exists|k: int|
            0 <= k < peers.len() && (#[trigger] peers[k].address) is Some
                && peers[k].address->0@ == #[trigger] ups[i].0
                && ups[i].1 == peer_status_text(peers[k].remote) by {
            if i < prev.len() {
                assert(ups[i] == prev[i]);
                let k = choose|k: int|
                    0 <= k < front.len() && (#[trigger] front[k].address) is Some
                        && front[k].address->0@ == #[trigger] prev[i].0
                        && prev[i].1 == peer_status_text(front[k].remote);
                assert(peers[k] == front[k]);
            } else {
                assert(peers[peers.len() - 1] == peers.last());
            }
        }
    }
}

/// A synchronisation registers nothing but what the admin API reported:
/// every identifier registered afterwards was registered before, is the
/// local node's address, or is the address of a reported peer; and every
/// event it publishes is `NodeJoined` for such a reported address that was
/// not registered before.
pub proof fn lemma_sync_registers_only_reported(
    m: Map<Seq<char>, Seq<char>>,
    self_info: Option<YggdrasilSelf>,
    peers: Option<Seq<YggdrasilPeer>>,
)
    ensures
        forall|id: Seq<char>|
            #[trigger] apply_upserts(m, sync_updates(self_info, peers)).contains_key(id) ==> {
                ||| m.contains_key(id)
                ||| (self_info is Some && self_info->0.address is Some && self_info->0.address->0@ == id)
                ||| (peers is Some && exists|k: int|
                    0 <= k < peers->0.len() && (#[trigger] peers->0[k].address) is Some
                        && peers->0[k].address->0@ == id)
            },
        forall|j: int|
            0 <= j < upserts_events(m, sync_updates(self_info, peers)).len() ==> {
                let id = upserts_events(m, sync_updates(self_info, peers))[j]->NodeJoined_node_id;
                &&& #[trigger] upserts_events(m, sync_updates(self_info, peers))[j] is NodeJoined
                &&& !m.contains_key(id)
                &&& {
                    ||| (self_info is Some && self_info->0.address is Some && self_info->0.address->0@ == id)
                    ||| (peers is Some && exists|k: int|
                        0 <= k < peers->0.len() && (#[trigger] peers->0[k].address) is Some
                            && peers->0[k].address->0@ == id)
                }
            },
{
    let su = self_updates(self_info);
    let pu = match peers {
        Some(p) => peer_updates(p),
        None => seq![],
    };
    let ups = sync_updates(self_info, peers);
    assert(ups == su + pu);
    lemma_upserts_add_only_named(m, ups);
    lemma_upserts_announce_only_new_named(m, ups);
    if let Some(p) = peers {
        lemma_peer_updates_are_peer_addresses(p);
    }
    assert forall|i: int| 0 <= i < ups.len() implies {
        let id = #[trigger] ups[i].0;
        ||| (self_info is Some && self_info->0.address is Some && self_info->0.address->0@ == id)
        ||| (peers is Some && exists|k: int|
            0 <= k < peers->0.len() && (#[trigger] peers->0[k].address) is Some
                && peers->0[k].address->0@ == id)
    } by {
        if i < su.len() {
            assert(ups[i] == su[i]);
        } else {
            assert(ups[i] == pu[i - su.len()]);
        }
    }
}

} // verus!
