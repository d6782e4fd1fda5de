//! Liveness monitor: the registry of tracked devices, the edge-triggered
//! online/offline transition applied after each heartbeat probe, and the
//! responder's reply rule for the plain-TCP ping/pong protocol.
//!
//! The registry owns one entry per tracked address. A probe's transport work
//! (resolve, connect, write `ping`, read a line) happens outside the library;
//! its outcome is handed to [`DeviceRegistry::record_probe`], which performs
//! the only mutation of `is_online` and decides whether a notification is
//! owed. Notifications are emitted exactly on the edges: one `device-online`
//! per offline-to-online flip, one `device-offline` per online-to-offline
//! flip, and nothing on a repeated outcome.

use vstd::prelude::*;

use crate::text::frame_begins_with;
use crate::text::frame_has_keyword;

verus! {

/// Notification owed to the UI collaborator after a probe.
#[derive(Clone, Copy, Debug, PartialEq, Eq)]
pub enum LivenessEvent {
    DeviceOnline,
    DeviceOffline,
}

/// One tracked address: its liveness flag and, while the device answers,
/// a cached transport handle reused by the next probe.
pub struct TrackedDevice<C> {
    pub ip: String,
    pub is_online: bool,
    pub connection: Option<C>,
}

/// Mathematical image of one tracked device.
pub struct DeviceModel<C> {
    pub ip: Seq<char>,
    pub online: bool,
    pub conn: Option<C>,
}

impl<C> View for TrackedDevice<C> {
    type V = DeviceModel<C>;

    open spec fn view(&self) -> DeviceModel<C> {
        DeviceModel { ip: self.ip@, online: self.is_online, conn: self.connection }
    }
}

/// Whether some tracked entry has the address `ip`.
pub open spec fn has_ip<C>(devs: Seq<DeviceModel<C>>, ip: Seq<char>) -> bool {
    exists|i: int| 0 <= i < devs.len() && (#[trigger] devs[i].ip) == ip
}

/// The index of the entry for `ip`; meaningful only under [`wf_devices`],
/// which makes it unique.
pub open spec fn ip_index<C>(devs: Seq<DeviceModel<C>>, ip: Seq<char>) -> int {
    choose|i: int| 0 <= i < devs.len() && (#[trigger] devs[i].ip) == ip
}

/// No two entries track the same address.
pub open spec fn wf_devices<C>(devs: Seq<DeviceModel<C>>) -> bool {
    forall|i: int, j: int|
        0 <= i < j < devs.len() ==> (#[trigger] devs[i].ip) != (#[trigger] devs[j].ip)
}

/// The registry after tracking `ip`: an existing entry is reset to
/// offline with no cached connection, a new address is appended.
pub open spec fn track_step<C>(devs: Seq<DeviceModel<C>>, ip: Seq<char>) -> Seq<DeviceModel<C>> {
    if has_ip(devs, ip) {
        devs.update(ip_index(devs, ip), DeviceModel { ip, online: false, conn: None })
    } else {
        devs.push(DeviceModel { ip, online: false, conn: None })
    }
}

/// The registry after untracking `ip`.
pub open spec fn untrack_step<C>(devs: Seq<DeviceModel<C>>, ip: Seq<char>) -> Seq<DeviceModel<C>> {
    if has_ip(devs, ip) {
        devs.remove(ip_index(devs, ip))
    } else {
        devs
    }
}

/// The registry and the owed notification after a probe of `ip` ends with
/// `success` (a `pong` came back) or failure (anything else). On success
/// the transport handle `conn` is cached; on failure the cache is cleared.
/// The notification exists exactly when the liveness flag flips. An address
/// untracked mid-cycle is skipped without effect.
pub open spec fn probe_step<C>(
    devs: Seq<DeviceModel<C>>,
    ip: Seq<char>,
    success: bool,
    conn: Option<C>,
) -> (Seq<DeviceModel<C>>, Option<LivenessEvent>) {
    if !has_ip(devs, ip) {
        (devs, None)
    } else {
        let i = ip_index(devs, ip);
        let was_online = devs[i].online;
        let ev = if success && !was_online {
            Some(LivenessEvent::DeviceOnline)
        } else if !success && was_online {
            Some(LivenessEvent::DeviceOffline)
        } else {
            None
        };
        (
            devs.update(
                i,
                DeviceModel {
                    ip,
                    online: success,
                    conn: if success {
                        conn
                    } else {
                        None
                    },
                },
            ),
            ev,
        )
    }
}

/// The registry after borrowing the cached connection of `ip` for a probe,
/// together with the handle taken out.
pub open spec fn borrow_step<C>(devs: Seq<DeviceModel<C>>, ip: Seq<char>) -> (
    Seq<DeviceModel<C>>,
    Option<C>,
) {
    if !has_ip(devs, ip) {
        (devs, None)
    } else {
        let i = ip_index(devs, ip);
        (devs.update(i, DeviceModel { ip, online: devs[i].online, conn: None }), devs[i].conn)
    }
}

/// Under [`wf_devices`], the entry index for an address is unique, so
/// [`ip_index`] names exactly the entry that carries it.
pub proof fn lemma_ip_index_unique<C>(devs: Seq<DeviceModel<C>>, ip: Seq<char>, i: int)
    requires
        wf_devices(devs),
        0 <= i < devs.len(),
        devs[i].ip == ip,
    ensures
        has_ip(devs, ip),
        ip_index(devs, ip) == i,
{
    assert(has_ip(devs, ip));
    let c = ip_index(devs, ip);
    if c < i {
        assert(devs[c].ip != devs[i].ip);
    } else if c > i {
        assert(devs[i].ip != devs[c].ip);
    }
}

/// The registry of tracked devices. Exclusively owns every entry; the
/// heartbeat cycle is its only mutator.
pub struct DeviceRegistry<C> {
    devices: Vec<TrackedDevice<C>>,
}

impl<C> View for DeviceRegistry<C> {
    type V = Seq<DeviceModel<C>>;

    closed spec fn view(&self) -> Seq<DeviceModel<C>> {
        self.devices@.map_values(|d: TrackedDevice<C>| d@)
    }
}

impl<C> DeviceRegistry<C> {
    /// No two entries share an address.
    pub open spec fn wf(&self) -> bool {
        wf_devices(self@)
    }

    /// A registry that tracks nothing.
    pub fn new() -> (r: DeviceRegistry<C>)
        ensures
            r.wf(),
            r@ == Seq::<DeviceModel<C>>::empty(),
    {
        let r = DeviceRegistry { devices: Vec::new() };
        proof {
            assert(r@ =~= Seq::<DeviceModel<C>>::empty());
        }
        r
    }

    /// The index of the entry for `ip`, if the address is tracked.
    fn find(&self, ip: &String) -> (r: Option<usize>)
        requires
            self.wf(),
        ensures
            match r {
                Some(i) => has_ip(self@, ip@) && ip_index(self@, ip@) == i && i < self@.len(),
                None => !has_ip(self@, ip@),
            },
    {
        let n = self.devices.len();
        let mut k: usize = 0;
        while k < n
            invariant
                0 <= k <= n,
                n == self@.len(),
                self.wf(),
                self@ == self.devices@.map_values(|d: TrackedDevice<C>| d@),
                forall|j: int| 0 <= j < k ==> (#[trigger] self@[j].ip) != ip@,
            decreases n - k,
        {
            if self.devices[k].ip == *ip {
                proof {
                    lemma_ip_index_unique(self@, ip@, k as int);
                }
                return Some(k);
            }
            k = k + 1;
        }
        None
    }

    /// Begin tracking `ip`. Idempotent: re-tracking an address resets its
    /// entry to offline with no cached connection.
    pub fn add_device(&mut self, ip: String)
        requires
            old(self).wf(),
        ensures
            final(self).wf(),
            final(self)@ == track_step(old(self)@, ip@),
    {
        let found = self.find(&ip);
        match found {
            Some(i) => {
                let d = self.devices.remove(i);
                let nd = TrackedDevice { ip, is_online: false, connection: None };
                self.devices.insert(i, nd);
                proof {
                    assert(self@ =~= track_step(old(self)@, nd.ip@));
                    assert(forall|a: int, b: int|
                        0 <= a < b < self@.len() ==> (#[trigger] self@[a].ip) != (
                        #[trigger] self@[b].ip)) by {
                        assert(forall|a: int|
                            0 <= a < self@.len() && a != i ==> (#[trigger] self@[a].ip) == old(
                                self,
                            )@[a].ip);
                    }
                }
            },
            None => {
                let nd = TrackedDevice { ip, is_online: false, connection: None };
                self.devices.push(nd);
                proof {
                    assert(self@ =~= track_step(old(self)@, nd.ip@));
                    assert(forall|a: int|
                        0 <= a < self@.len() - 1 ==> (#[trigger] self@[a].ip) == old(
                            self,
                        )@[a].ip);
                }
            },
        }
    }

    /// Stop tracking `ip`, discarding its state and any cached connection.
    /// A no-op when the address is not tracked.
    pub fn remove_device(&mut self, ip: &String)
        requires
            old(self).wf(),
        ensures
            final(self).wf(),
            final(self)@ == untrack_step(old(self)@, ip@),
    {
        let found = self.find(ip);
        match found {
            Some(i) => {
                let _ = self.devices.remove(i);
                proof {
                    assert(self@ =~= untrack_step(old(self)@, ip@));
                    assert(forall|a: int, b: int|
                        0 <= a < b < self@.len() ==> (#[trigger] self@[a].ip) != (
                        #[trigger] self@[b].ip)) by {
                        assert(forall|a: int|
                            0 <= a < self@.len() ==> (#[trigger] self@[a].ip) == if a < i {
                                old(self)@[a].ip
                            } else {
                                old(self)@[a + 1].ip
                            });
                    }
                }
            },
            None => {},
        }
    }

    /// The tracked addresses, as a snapshot for one heartbeat cycle.
    pub fn device_ips(&self) -> (r: Vec<String>)
        ensures
            r@.len() == self@.len(),
            forall|i: int| 0 <= i < r@.len() ==> (#[trigger] r@[i]@) == self@[i].ip,
    {
        let n = self.devices.len();
        let mut r: Vec<String> = Vec::new();
        let mut k: usize = 0;
        while k < n
            invariant
                0 <= k <= n,
                n == self@.len(),
                self@ == self.devices@.map_values(|d: TrackedDevice<C>| d@),
                r@.len() == k,
                forall|i: int| 0 <= i < k ==> (#[trigger] r@[i]@) == self@[i].ip,
            decreases n - k,
        {
            r.push(self.devices[k].ip.clone());
            k = k + 1;
        }
        r
    }

    /// Borrow the cached connection of `ip` for the probe that is about to
    /// run; the entry keeps no stale handle meanwhile.
    pub fn take_connection(&mut self, ip: &String) -> (r: Option<C>)
        requires
            old(self).wf(),
        ensures
            final(self).wf(),
            final(self)@ == borrow_step(old(self)@, ip@).0,
            r == borrow_step(old(self)@, ip@).1,
    {
        let found = self.find(ip);
        match found {
            Some(i) => {
                let d = self.devices.remove(i);
                let conn = d.connection;
                let nd = TrackedDevice { ip: d.ip, is_online: d.is_online, connection: None };
                self.devices.insert(i, nd);
                proof {
                    assert(self@ =~= borrow_step(old(self)@, ip@).0);
                    assert(forall|a: int, b: int|
                        0 <= a < b < self@.len() ==> (#[trigger] self@[a].ip) != (
                        #[trigger] self@[b].ip)) by {
                        assert(forall|a: int|
                            0 <= a < self@.len() ==> (#[trigger] self@[a].ip) == old(
                                self,
                            )@[a].ip);
                    }
                }
                conn
            },
            None => None,
        }
    }

    /// Apply the outcome of one probe of `ip` and return the notification
    /// owed, if the liveness flag flipped. `success` means a `pong`-prefixed
    /// line came back over a healthy connection, which is then cached for
    /// the next cycle; any failure clears the cache so the next cycle
    /// reconnects. An address untracked mid-cycle is skipped.
    pub fn record_probe(&mut self, ip: &String, success: bool, conn: Option<C>) -> (ev: Option<
        LivenessEvent,
    >)
        requires
            old(self).wf(),
        ensures
            final(self).wf(),
            final(self)@ == probe_step(old(self)@, ip@, success, conn).0,
            ev == probe_step(old(self)@, ip@, success, conn).1,
    {
        let found = self.find(ip);
        match found {
            Some(i) => {
                let d = self.devices.remove(i);
                let was_online = d.is_online;
                let nd = TrackedDevice {
                    ip: d.ip,
                    is_online: success,
                    connection: if success {
                        conn
                    } else {
                        None
                    },
                };
                self.devices.insert(i, nd);
                let ev = if success && !was_online {
                    Some(LivenessEvent::DeviceOnline)
                } else if !success && was_online {
                    Some(LivenessEvent::DeviceOffline)
                } else {
                    None
                };
                proof {
                    assert(self@ =~= probe_step(old(self)@, ip@, success, conn).0);
                    assert(forall|a: int, b: int|
                        0 <= a < b < self@.len() ==> (#[trigger] self@[a].ip) != (
                        #[trigger] self@[b].ip)) by {
                        assert(forall|a: int|
                            0 <= a < self@.len() ==> (#[trigger] self@[a].ip) == old(
                                self,
                            )@[a].ip);
                    }
                }
                ev
            },
            None => None,
        }
    }

    /// Whether `ip` is tracked and currently marked online.
    pub fn is_device_online(&self, ip: &String) -> (r: bool)
        requires
            self.wf(),
        ensures
            r == (has_ip(self@, ip@) && self@[ip_index(self@, ip@)].online),
    {
        let found = self.find(ip);
        match found {
            Some(i) => self.devices[i].is_online,
            None => false,
        }
    }
}

/// A device goes online only through a successful round, and exactly one
/// `device-online` notification is owed per offline-to-online edge: the
/// first successful probe of an offline device emits it, and a further
/// success in any later cycle emits nothing.
pub proof fn lemma_online_edge_once<C>(
    devs: Seq<DeviceModel<C>>,
    ip: Seq<char>,
    c1: Option<C>,
    c2: Option<C>,
)
    requires
        wf_devices(devs),
        has_ip(devs, ip),
        !devs[ip_index(devs, ip)].online,
    ensures
        probe_step(devs, ip, true, c1).1 == Some(LivenessEvent::DeviceOnline),
        probe_step(devs, ip, false, c1).0[ip_index(devs, ip)].online == false,
        probe_step(probe_step(devs, ip, true, c1).0, ip, true, c2).1 == None::<LivenessEvent>,
{
    let i = ip_index(devs, ip);
    let after = probe_step(devs, ip, true, c1).0;
    assert(after[i].ip == ip);
    lemma_ip_index_unique(after, ip, i);
}

/// After any probe of a tracked address, the device is marked online
/// exactly when that probe succeeded: no device goes online without a
/// successful ping/pong round, and none stays online past a failed one.
pub proof fn lemma_online_iff_success<C>(
    devs: Seq<DeviceModel<C>>,
    ip: Seq<char>,
    success: bool,
    conn: Option<C>,
)
    requires
        wf_devices(devs),
        has_ip(devs, ip),
    ensures
        probe_step(devs, ip, success, conn).0[ip_index(devs, ip)].online == success,
{
}

/// Exactly one `device-offline` notification is owed per online-to-offline
/// edge: the first failed probe of an online device emits it, and a second
/// identical failure emits nothing. A device that was already offline stays
/// offline silently, failed probes notwithstanding.
pub proof fn lemma_offline_edge_once<C>(devs: Seq<DeviceModel<C>>, ip: Seq<char>)
    requires
        wf_devices(devs),
        has_ip(devs, ip),
    ensures
        devs[ip_index(devs, ip)].online ==> probe_step(devs, ip, false, None).1 == Some(
            LivenessEvent::DeviceOffline,
        ),
        !devs[ip_index(devs, ip)].online ==> probe_step(devs, ip, false, None).1
            == None::<LivenessEvent>,
        probe_step(probe_step(devs, ip, false, None).0, ip, false, None).1
            == None::<LivenessEvent>,
{
    let i = ip_index(devs, ip);
    let after = probe_step(devs, ip, false, None::<C>).0;
    assert(after[i].ip == ip);
    lemma_ip_index_unique(after, ip, i);
}

/// The reply the heartbeat responder owes for one received line: exactly
/// `pong\n` when the line, after leading whitespace, begins with `ping`;
/// no reply otherwise.
pub open spec fn ping_keyword() -> Seq<u8> {
    seq![112u8, 105u8, 110u8, 103u8]
}

/// The `pong` keyword that a probe looks for in the responder's line.
pub open spec fn pong_keyword() -> Seq<u8> {
    seq![112u8, 111u8, 110u8, 103u8]
}

/// The exact bytes of the responder's reply: `pong\n`.
pub open spec fn pong_reply() -> Seq<u8> {
    seq![112u8, 111u8, 110u8, 103u8, 10u8]
}

/// Decide the responder's reply for one newline-delimited frame: exactly
/// `pong\n` for a `ping`-prefixed frame, silence for anything else.
pub fn responder_reply(line: &[u8]) -> (r: Option<Vec<u8>>)
    ensures
        match r {
            Some(v) => frame_has_keyword(line@, ping_keyword()) && v@ == pong_reply(),
            None => !frame_has_keyword(line@, ping_keyword()),
        },
{
    let kw: Vec<u8> = vec![112u8, 105u8, 110u8, 103u8];
    proof {
        assert(kw@ =~= ping_keyword());
    }
    if frame_begins_with(line, kw.as_slice()) {
        let reply: Vec<u8> = vec![112u8, 111u8, 110u8, 103u8, 10u8];
        proof {
            assert(reply@ =~= pong_reply());
        }
        Some(reply)
    } else {
        None
    }
}

/// Classify the line a probe read back: success exactly when it is
/// `pong`-prefixed after leading whitespace.
pub fn is_pong_line(line: &[u8]) -> (r: bool)
    ensures
        r == frame_has_keyword(line@, pong_keyword()),
{
    let kw: Vec<u8> = vec![112u8, 111u8, 110u8, 103u8];
    proof {
        assert(kw@ =~= pong_keyword());
    }
    frame_begins_with(line, kw.as_slice())
}

} // verus!
