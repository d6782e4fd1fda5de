//! Discovered peers and the deduplicated set that discovery retains.
//!
//! A peer's identity is the pair `(ip, port)` alone: two records that agree
//! on it are the same peer, whatever their metadata, and the registry keeps
//! the record seen last. A `Peer` is a transient snapshot of a discovery
//! event, not a handle.

use vstd::prelude::*;

verus! {

/// The four octets of an IPv4 address.
#[derive(Clone, Copy, Debug, PartialEq, Eq, Structural)]
pub struct Ipv4Octets {
    pub a: u8,
    pub b: u8,
    pub c: u8,
    pub d: u8,
}

/// A network address as discovery reports it; only IPv4 records are
/// retained by the registry's callers.
#[derive(Clone, Copy, Debug, PartialEq, Eq, Structural)]
pub enum IpAddress {
    V4(Ipv4Octets),
    V6(u128),
}

/// A discovered remote node's network identity and metadata.
#[derive(Clone, Debug)]
pub struct Peer {
    pub name: String,
    pub ip: IpAddress,
    pub port: u16,
    pub hostname: String,
    pub service_type: String,
    pub os: String,
    pub id: String,
}

impl Peer {
    /// The descriptor this node pushes to a peer over assisted discovery
    /// when it can browse but is not itself discoverable: the shape of an
    /// advertised record, named after the host.
    pub fn self_descriptor(
        hostname: String,
        os_type: String,
        service_type: String,
        port: u16,
        ip: IpAddress,
        instance_id: String,
    ) -> (r: Peer)
        ensures
            r.name@ == hostname@,
            r.hostname@ == hostname@,
            r.os@ == os_type@,
            r.service_type@ == service_type@,
            r.port == port,
            r.ip == ip,
            r.id@ == instance_id@,
    {
        let name = hostname.clone();
        Peer { name, ip, port, hostname, service_type, os: os_type, id: instance_id }
    }

    /// A field-wise copy of the record.
    pub fn duplicate(&self) -> (r: Peer)
        ensures
            r == *self,
    {
        Peer {
            name: self.name.clone(),
            ip: self.ip,
            port: self.port,
            hostname: self.hostname.clone(),
            service_type: self.service_type.clone(),
            os: self.os.clone(),
            id: self.id.clone(),
        }
    }
}

/// Peer identity: the pair `(ip, port)` alone.
pub open spec fn same_endpoint(x: Peer, y: Peer) -> bool {
    x.ip == y.ip && x.port == y.port
}

impl PartialEq for Peer {
    /// Peers compare by `(ip, port)` alone, the identity that
    /// deduplication uses.
    fn eq(&self, other: &Peer) -> (r: bool) {
        self.ip == other.ip && self.port == other.port
    }
}

impl vstd::std_specs::cmp::PartialEqSpecImpl for Peer {
    open spec fn obeys_eq_spec() -> bool {
        true
    }

    open spec fn eq_spec(&self, other: &Peer) -> bool {
        same_endpoint(*self, *other)
    }
}

/// Whether some retained peer already occupies the endpoint of `p`.
pub open spec fn has_endpoint(peers: Seq<Peer>, p: Peer) -> bool {
    exists|i: int| 0 <= i < peers.len() && same_endpoint(#[trigger] peers[i], p)
}

/// The index of the retained peer at the endpoint of `p`; unique under
/// [`wf_peers`].
pub open spec fn endpoint_index(peers: Seq<Peer>, p: Peer) -> int {
    choose|i: int| 0 <= i < peers.len() && same_endpoint(#[trigger] peers[i], p)
}

/// No two retained entries share `(ip, port)`.
pub open spec fn wf_peers(peers: Seq<Peer>) -> bool {
    forall|i: int, j: int|
        0 <= i < j < peers.len() ==> !same_endpoint(#[trigger] peers[i], #[trigger] peers[j])
}

/// The registry after observing `p`: a record at a new endpoint is
/// appended, a record at a known endpoint overwrites the metadata kept
/// for it.
pub open spec fn absorb_step(peers: Seq<Peer>, p: Peer) -> Seq<Peer> {
    if has_endpoint(peers, p) {
        peers.update(endpoint_index(peers, p), p)
    } else {
        peers.push(p)
    }
}

/// Under [`wf_peers`] the endpoint of a retained peer names exactly one
/// entry.
pub proof fn lemma_endpoint_index_unique(peers: Seq<Peer>, p: Peer, i: int)
    requires
        wf_peers(peers),
        0 <= i < peers.len(),
        same_endpoint(peers[i], p),
    ensures
        has_endpoint(peers, p),
        endpoint_index(peers, p) == i,
{
    assert(has_endpoint(peers, p));
    let c = endpoint_index(peers, p);
    if c < i {
        assert(!same_endpoint(peers[c], peers[i]));
    } else if c > i {
        assert(!same_endpoint(peers[i], peers[c]));
    }
}

/// The deduplicated set of peers that discovery retains.
pub struct PeerRegistry {
    peers: Vec<Peer>,
}

impl View for PeerRegistry {
    type V = Seq<Peer>;

    closed spec fn view(&self) -> Seq<Peer> {
        self.peers@
    }
}

impl PeerRegistry {
    /// No two retained entries share `(ip, port)`.
    pub open spec fn wf(&self) -> bool {
        wf_peers(self@)
    }

    /// An empty registry.
    pub fn new() -> (r: PeerRegistry)
        ensures
            r.wf(),
            r@ == Seq::<Peer>::empty(),
    {
        PeerRegistry { peers: Vec::new() }
    }

    /// The index of the entry at the endpoint of `p`, if one is retained.
    fn find(&self, p: &Peer) -> (r: Option<usize>)
        requires
            self.wf(),
        ensures
            match r {
                Some(i) => has_endpoint(self@, *p) && endpoint_index(self@, *p) == i && i
                    < self@.len(),
                None => !has_endpoint(self@, *p),
            },
    {
        let n = self.peers.len();
        let mut k: usize = 0;
        while k < n
            invariant
                0 <= k <= n,
                n == self@.len(),
                self.wf(),
                self@ == self.peers@,
                forall|j: int| 0 <= j < k ==> !same_endpoint(#[trigger] self@[j], *p),
            decreases n - k,
        {
            let candidate = &self.peers[k];
            if candidate.ip == p.ip && candidate.port == p.port {
                proof {
                    lemma_endpoint_index_unique(self@, *p, k as int);
                }
                return Some(k);
            }
            k = k + 1;
        }
        None
    }

    /// Observe `p`: retain it, keeping the endpoint unique. The result says
    /// whether the endpoint was newly observed; a known endpoint only has
    /// its metadata overwritten by the later record.
    pub fn insert_peer(&mut self, p: Peer) -> (fresh: bool)
        requires
            old(self).wf(),
        ensures
            final(self).wf(),
            final(self)@ == absorb_step(old(self)@, p),
            fresh == !has_endpoint(old(self)@, p),
    {
        let found = self.find(&p);
        match found {
            Some(i) => {
                let ghost q = p;
                let _ = self.peers.remove(i);
                self.peers.insert(i, p);
                proof {
                    assert(self@ =~= absorb_step(old(self)@, q));
                    assert(forall|x: int, y: int|
                        0 <= x < y < self@.len() ==> !same_endpoint(
                            #[trigger] self@[x],
                            #[trigger] self@[y],
                        )) by {
                        assert(forall|x: int|
                            0 <= x < self@.len() && x != i ==> #[trigger] self@[x] == old(
                                self,
                            )@[x]);
                        assert(same_endpoint(self@[i as int], old(self)@[i as int]));
                    }
                }
                false
            },
            None => {
                let ghost q = p;
                self.peers.push(p);
                proof {
                    assert(self@ =~= absorb_step(old(self)@, q));
                    assert(forall|x: int|
                        0 <= x < self@.len() - 1 ==> #[trigger] self@[x] == old(self)@[x]);
                }
                true
            },
        }
    }

    /// How many peers are retained.
    pub fn len(&self) -> (r: usize)
        ensures
            r == self@.len(),
    {
        self.peers.len()
    }

    /// Hand the retained peers out, in the order first observed.
    pub fn into_peers(self) -> (r: Vec<Peer>)
        ensures
            r@ == self@,
    {
        self.peers
    }
}

/// No two retained entries of a well-formed registry share `(ip, port)`:
/// the deduplication invariant that every registry operation preserves.
pub proof fn lemma_no_duplicate_endpoints(peers: Seq<Peer>)
    requires
        wf_peers(peers),
    ensures
        forall|i: int, j: int|
            0 <= i < peers.len() && 0 <= j < peers.len() && i != j ==> !(
            (#[trigger] peers[i]).ip == (#[trigger] peers[j]).ip && peers[i].port
                == peers[j].port),
{
    assert forall|i: int, j: int|
        0 <= i < peers.len() && 0 <= j < peers.len() && i != j implies !(
    (#[trigger] peers[i]).ip == (#[trigger] peers[j]).ip && peers[i].port == peers[j].port) by {
        if i < j {
            assert(!same_endpoint(peers[i], peers[j]));
        } else {
            assert(!same_endpoint(peers[j], peers[i]));
        }
    }
}

} // verus!
