//! Peer discovery: the advertiser's run state with its idempotent start
//! and stop, the TXT metadata advertised under the fixed service type,
//! the folding of resolved browse events into peers, and the passive
//! listener that reports each endpoint once and survives transient
//! receive errors up to a fixed threshold.

use vstd::prelude::*;

use vstd::string::StringExecFns;

use crate::peers::IpAddress;
use crate::peers::Peer;
use crate::peers::PeerRegistry;
use crate::peers::absorb_step;
use crate::peers::has_endpoint;
use crate::peers::wf_peers;

verus! {

/// The multicast service type this node advertises and browses for.
pub fn discovery_service_type() -> (r: String)
    ensures
        r@ == "_localdrop._tcp"@,
{
    "_localdrop._tcp".to_owned()
}

/// Relies on `uuid::Uuid::new_v4` and its `Display` form: a fresh random
/// version-4 UUID rendered as the 36-character hyphenated string. Nothing
/// further can be promised of a random value.
#[verifier::external_body]
pub fn new_random_id() -> (r: String)
    ensures
        r@.len() == 36,
{
    uuid::Uuid::new_v4().to_string()
}

/// The run state of the advertiser worker. Start and stop are idempotent;
/// only a stopped advertiser starts a new worker, and stopping reports
/// whether there is a worker to join.
pub struct Advertiser {
    running: bool,
}

impl Advertiser {
    /// Whether a worker is advertising.
    pub closed spec fn is_running(&self) -> bool {
        self.running
    }

    /// A stopped advertiser.
    pub fn new() -> (r: Advertiser)
        ensures
            !r.is_running(),
    {
        Advertiser { running: false }
    }

    /// Whether a worker is advertising.
    pub fn running(&self) -> (r: bool)
        ensures
            r == self.is_running(),
    {
        self.running
    }

    /// Request the advertiser to run. Returns whether a worker must be
    /// started: `false` means one is already running and the call is a
    /// no-op.
    pub fn start_mdns_responder(&mut self) -> (started: bool)
        ensures
            final(self).is_running(),
            started == !old(self).is_running(),
    {
        let started = !self.running;
        self.running = true;
        started
    }

    /// Request the advertiser to stop. Returns whether a worker was
    /// running and must now be joined; stopping a stopped advertiser is a
    /// no-op.
    pub fn stop_mdns_responder(&mut self) -> (was_running: bool)
        ensures
            !final(self).is_running(),
            was_running == old(self).is_running(),
    {
        let was_running = self.running;
        self.running = false;
        was_running
    }

    /// Stop, then start: afterwards the advertiser runs, and the result
    /// says whether an old worker must be joined before the new one is
    /// started.
    pub fn restart_mdns_responder(&mut self) -> (join_old: bool)
        ensures
            final(self).is_running(),
            join_old == old(self).is_running(),
    {
        let join_old = self.stop_mdns_responder();
        let _ = self.start_mdns_responder();
        join_old
    }

    /// The worker records an announcement failure: the advertiser falls
    /// back to stopped so a later start may retry.
    pub fn mark_failed(&mut self)
        ensures
            !final(self).is_running(),
    {
        self.running = false;
    }
}

/// The advertised TXT metadata: protocol version, host OS, hostname, CPU
/// architecture, and the process-lifetime-stable instance id.
pub fn build_txt_records(os_type: &str, hostname: &str, arch: &str, instance_id: &str) -> (r: Vec<
    String,
>)
    ensures
        r@.len() == 5,
        r@[0]@ == "version=1.0"@,
        r@[1]@ == "os="@ + os_type@,
        r@[2]@ == "hostname="@ + hostname@,
        r@[3]@ == "arch="@ + arch@,
        r@[4]@ == "id="@ + instance_id@,
{
    let mut r: Vec<String> = Vec::new();
    r.push("version=1.0".to_owned());
    r.push("os=".to_owned().concat(os_type));
    r.push("hostname=".to_owned().concat(hostname));
    r.push("arch=".to_owned().concat(arch));
    r.push("id=".to_owned().concat(instance_id));
    r
}

/// The view of an optional metadata value.
pub open spec fn opt_view(o: Option<String>) -> Option<Seq<char>> {
    match o {
        Some(s) => Some(s@),
        None => None,
    }
}

/// A missing metadata value is reported as `unknown`.
pub open spec fn default_unknown(o: Option<Seq<char>>) -> Seq<char> {
    match o {
        Some(s) => s,
        None => "unknown"@,
    }
}

/// The metadata value, or `unknown` when the record lacks it.
pub fn unwrap_or_unknown(o: &Option<String>) -> (r: String)
    ensures
        r@ == default_unknown(opt_view(*o)),
{
    match o {
        Some(s) => s.clone(),
        None => "unknown".to_owned(),
    }
}

/// One resolved browse event, as plain values: the service identity and
/// the metadata read from its TXT records.
pub struct ResolvedService {
    pub fullname: String,
    pub service_type: String,
    pub port: u16,
    pub addresses: Vec<IpAddress>,
    pub os: Option<String>,
    pub hostname: Option<String>,
    pub id: Option<String>,
}

/// The IPv4 addresses among `addrs`, in order; the others are dropped.
pub open spec fn v4_list(addrs: Seq<IpAddress>) -> Seq<IpAddress>
    decreases addrs.len(),
{
    if addrs.len() == 0 {
        Seq::empty()
    } else {
        v4_list(addrs.drop_last()) + if addrs.last() is V4 {
            seq![addrs.last()]
        } else {
            Seq::empty()
        }
    }
}

/// The peers one resolved event yields: one record per IPv4 address, all
/// carrying the event's identity and metadata, with missing metadata
/// defaulted to `unknown`. Records with no IPv4 address yield nothing.
pub fn peers_from_resolved(svc: &ResolvedService) -> (r: Vec<Peer>)
    ensures
        r@.len() == v4_list(svc.addresses@).len(),
        forall|k: int|
            0 <= k < r@.len() ==> {
                &&& (#[trigger] r@[k]).ip == v4_list(svc.addresses@)[k]
                &&& r@[k].port == svc.port
                &&& r@[k].name@ == svc.fullname@
                &&& r@[k].service_type@ == svc.service_type@
                &&& r@[k].os@ == default_unknown(opt_view(svc.os))
                &&& r@[k].hostname@ == default_unknown(opt_view(svc.hostname))
                &&& r@[k].id@ == default_unknown(opt_view(svc.id))
            },
{
    let os = unwrap_or_unknown(&svc.os);
    let hostname = unwrap_or_unknown(&svc.hostname);
    let id = unwrap_or_unknown(&svc.id);
    let n = svc.addresses.len();
    let mut r: Vec<Peer> = Vec::new();
    let mut k: usize = 0;
    while k < n
        invariant
            0 <= k <= n,
            n == svc.addresses@.len(),
            os@ == default_unknown(opt_view(svc.os)),
            hostname@ == default_unknown(opt_view(svc.hostname)),
            id@ == default_unknown(opt_view(svc.id)),
            r@.len() == v4_list(svc.addresses@.take(k as int)).len(),
            forall|j: int|
                0 <= j < r@.len() ==> {
                    &&& (#[trigger] r@[j]).ip == v4_list(svc.addresses@.take(k as int))[j]
                    &&& r@[j].port == svc.port
                    &&& r@[j].name@ == svc.fullname@
                    &&& r@[j].service_type@ == svc.service_type@
                    &&& r@[j].os@ == default_unknown(opt_view(svc.os))
                    &&& r@[j].hostname@ == default_unknown(opt_view(svc.hostname))
                    &&& r@[j].id@ == default_unknown(opt_view(svc.id))
                },
        decreases n - k,
    {
        let addr = svc.addresses[k];
        proof {
            assert(svc.addresses@.take(k + 1 as int).drop_last() =~= svc.addresses@.take(
                k as int,
            ));
            assert(svc.addresses@.take(k + 1 as int).last() == svc.addresses@[k as int]);
        }
        match addr {
            IpAddress::V4(_) => {
                let p = Peer {
                    name: svc.fullname.clone(),
                    ip: addr,
                    port: svc.port,
                    hostname: hostname.clone(),
                    service_type: svc.service_type.clone(),
                    os: os.clone(),
                    id: id.clone(),
                };
                r.push(p);
            },
            IpAddress::V6(_) => {},
        }
        k = k + 1;
    }
    proof {
        assert(svc.addresses@.take(n as int) =~= svc.addresses@);
    }
    r
}

/// What the passive listener does after one receive error.
#[derive(Clone, Copy, Debug, PartialEq, Eq)]
pub enum ListenerDirective {
    /// Back off briefly and keep listening.
    Backoff,
    /// The error threshold is reached: the listener terminates and is not
    /// restarted automatically.
    Stop,
}

/// How many consecutive receive errors the passive listener tolerates
/// before it fail-stops.
pub const MAX_CONSECUTIVE_ERRORS: u64 = 5;

/// Folding newly resolved peers into the set already seen: each is
/// retained in order, and exactly those whose endpoint was not yet seen
/// at their turn are reported.
pub open spec fn absorb_all(reg: Seq<Peer>, cands: Seq<Peer>) -> (Seq<Peer>, Seq<Peer>)
    decreases cands.len(),
{
    if cands.len() == 0 {
        (reg, Seq::empty())
    } else {
        let prior = absorb_all(reg, cands.drop_last());
        let p = cands.last();
        (
            absorb_step(prior.0, p),
            prior.1 + if has_endpoint(prior.0, p) {
                Seq::empty()
            } else {
                seq![p]
            },
        )
    }
}

/// The passive listener's state: the peers already reported and the count
/// of consecutive receive errors.
pub struct PassiveListener {
    seen: PeerRegistry,
    consecutive_errors: u64,
}

impl PassiveListener {
    /// The peers already seen.
    pub closed spec fn seen_peers(&self) -> Seq<Peer> {
        self.seen@
    }

    /// The current run of consecutive receive errors.
    pub closed spec fn error_count(&self) -> u64 {
        self.consecutive_errors
    }

    /// The dedup invariant of the seen set.
    pub open spec fn wf(&self) -> bool {
        wf_peers(self.seen_peers())
    }

    /// A fresh listener: nothing seen, no errors.
    pub fn new() -> (r: PassiveListener)
        ensures
            r.wf(),
            r.seen_peers() == Seq::<Peer>::empty(),
            r.error_count() == 0,
    {
        PassiveListener { seen: PeerRegistry::new(), consecutive_errors: 0 }
    }

    /// Absorb the peers of one resolved event and return exactly the
    /// newly observed ones, in order, for the caller to report. Any error
    /// run ends.
    pub fn on_peers_resolved(&mut self, cands: Vec<Peer>) -> (fresh: Vec<Peer>)
        requires
            old(self).wf(),
        ensures
            final(self).wf(),
            final(self).error_count() == 0,
            final(self).seen_peers() == absorb_all(old(self).seen_peers(), cands@).0,
            fresh@ == absorb_all(old(self).seen_peers(), cands@).1,
    {
        self.consecutive_errors = 0;
        let n = cands.len();
        let mut fresh: Vec<Peer> = Vec::new();
        let mut k: usize = 0;
        while k < n
            invariant
                0 <= k <= n,
                n == cands@.len(),
                self.wf(),
                self.seen_peers() == absorb_all(old(self).seen_peers(), cands@.take(k as int)).0,
                fresh@ == absorb_all(old(self).seen_peers(), cands@.take(k as int)).1,
                self.error_count() == 0,
            decreases n - k,
        {
            let p = cands[k].duplicate();
            proof {
                assert(cands@.take(k + 1 as int).drop_last() =~= cands@.take(k as int));
                assert(cands@.take(k + 1 as int).last() == cands@[k as int]);
                assert(p.ip == cands@[k as int].ip && p.port == cands@[k as int].port);
            }
            let is_new = self.seen.insert_peer(p);
            if is_new {
                fresh.push(cands[k].duplicate());
                proof {
                    assert(fresh@ =~= absorb_all(old(self).seen_peers(), cands@.take(
                        k + 1 as int,
                    )).1);
                }
            } else {
                proof {
                    assert(fresh@ =~= absorb_all(old(self).seen_peers(), cands@.take(
                        k + 1 as int,
                    )).1);
                }
            }
            k = k + 1;
        }
        proof {
            assert(cands@.take(n as int) =~= cands@);
        }
        fresh
    }

    /// A received event that resolves nothing still ends any error run.
    pub fn on_other_event(&mut self)
        requires
            old(self).wf(),
        ensures
            final(self).wf(),
            final(self).error_count() == 0,
            final(self).seen_peers() == old(self).seen_peers(),
    {
        self.consecutive_errors = 0;
    }

    /// One receive error: tolerated with a short backoff until the fixed
    /// threshold of consecutive errors is reached, at which point the
    /// listener fail-stops.
    pub fn on_error(&mut self) -> (d: ListenerDirective)
        requires
            old(self).wf(),
        ensures
            final(self).wf(),
            final(self).seen_peers() == old(self).seen_peers(),
            final(self).error_count() == if old(self).error_count() < MAX_CONSECUTIVE_ERRORS {
                old(self).error_count() + 1
            } else {
                old(self).error_count() as int
            },
            d == (if final(self).error_count() >= MAX_CONSECUTIVE_ERRORS {
                ListenerDirective::Stop
            } else {
                ListenerDirective::Backoff
            }),
    {
        if self.consecutive_errors < MAX_CONSECUTIVE_ERRORS {
            self.consecutive_errors = self.consecutive_errors + 1;
        }
        if self.consecutive_errors >= MAX_CONSECUTIVE_ERRORS {
            ListenerDirective::Stop
        } else {
            ListenerDirective::Backoff
        }
    }
}

/// A peer is reported at most once by the passive listener: once its
/// endpoint is among the seen peers, absorbing further records at that
/// endpoint reports nothing new for it.
pub proof fn lemma_reported_once(reg: Seq<Peer>, p: Peer, q: Peer)
    requires
        wf_peers(reg),
        crate::peers::same_endpoint(p, q),
        has_endpoint(reg, p),
    ensures
        absorb_all(reg, seq![q]).1 == Seq::<Peer>::empty(),
        has_endpoint(absorb_all(reg, seq![q]).0, p),
{
    let single = seq![q];
    assert(single.drop_last() =~= Seq::<Peer>::empty());
    assert(absorb_all(reg, single.drop_last()).0 == reg);
    assert(has_endpoint(reg, q));
    let i = crate::peers::endpoint_index(reg, q);
    assert(crate::peers::same_endpoint(absorb_step(reg, q)[i], q));
    assert(has_endpoint(absorb_step(reg, q), p));
}

} // verus!
