//! Serial devices over time: probing them, reopening lost ones, and letting go of
//! descriptors that became invalid.
use vstd::prelude::*;
use crate::fdset::selectable;
use crate::kill::survives;
use crate::port::{PortClass, PortId, PortView, RawFd, NO_FD, SCRIPT_READ_WRITE};
use crate::state::{
    script_ref_ok, ProxyState, ProxyView, SERIAL_LIVENESS_INTERVAL, SERIAL_RECONNECT_INTERVAL,
};
use crate::table::rising;

verus! {

/// The point in time `at` is given and not after `now`.
pub open spec fn reached(at: Option<u64>, now: u64) -> bool {
    match at {
        Some(at) => at <= now,
        None => false,
    }
}

/// The port is a lost serial device that is to be reopened at the time `now`.
pub open spec fn reconnect_due(p: PortView, now: u64) -> bool {
    p.is_serial_remote() && p.sock < 0 && reached(p.serial_reconnect_at, now)
}

/// The port is an open serial device that is to be probed at the time `now`.
pub open spec fn check_due(p: PortView, now: u64) -> bool {
    p.is_serial_remote() && p.sock >= 0 && reached(p.serial_check_at, now)
}

/// The descriptor of the port is one of `bad`.
pub open spec fn is_invalid(p: PortView, bad: Seq<RawFd>) -> bool {
    p.sock >= 0 && bad.contains(p.sock)
}

/// `ids` are the ports with an invalid descriptor, in rising order.
pub open spec fn lists_invalid(s: ProxyView, bad: Seq<RawFd>, ids: Seq<PortId>) -> bool {
    &&& rising(ids)
    &&& forall|id: PortId|
        #![trigger ids.contains(id)]
        ids.contains(id) <==> s.has(id) && is_invalid(s.ports[id], bad)
}

/// The ports with an invalid descriptor, in rising order.
pub open spec fn invalid_ids(s: ProxyView, bad: Seq<RawFd>) -> Seq<PortId> {
    choose|ids: Seq<PortId>| lists_invalid(s, bad, ids)
}

proof fn lemma_rising_unique(a: Seq<PortId>, b: Seq<PortId>)
    requires
        rising(a),
        rising(b),
        forall|x: PortId| a.contains(x) <==> b.contains(x),
    ensures
        a == b,
    decreases a.len(),
{
    if a.len() == 0 {
        if b.len() > 0 {
            assert(b.contains(b[0]));
            assert(a.contains(b[0]));
        }
        assert(a =~= b);
    } else {
        assert(a.contains(a.last()));
        assert(b.contains(a.last()));
        assert(b.len() > 0);
        assert(b.contains(b.last()));
        assert(a.contains(b.last()));
        let i = choose|i: int| 0 <= i < a.len() && a[i] == b.last();
        let j = choose|j: int| 0 <= j < b.len() && b[j] == a.last();
        assert(a.last() == b.last()) by {
            if i < a.len() - 1 && j < b.len() - 1 {
                assert(a[i] < a[a.len() - 1]);
                assert(b[j] < b[b.len() - 1]);
            }
        }
        let a1 = a.drop_last();
        let b1 = b.drop_last();
        assert forall|x: PortId| a1.contains(x) <==> b1.contains(x) by {
            if a1.contains(x) {
                let k = choose|k: int| 0 <= k < a1.len() && a1[k] == x;
                assert(a[k] == x && a[k] < a[a.len() - 1]);
                assert(a.contains(x));
                let m = choose|m: int| 0 <= m < b.len() && b[m] == x;
                assert(b1[m] == x);
            }
            if b1.contains(x) {
                let k = choose|k: int| 0 <= k < b1.len() && b1[k] == x;
                assert(b[k] == x && b[k] < b[b.len() - 1]);
                assert(b.contains(x));
                let m = choose|m: int| 0 <= m < a.len() && a[m] == x;
                assert(a1[m] == x);
            }
        }
        lemma_rising_unique(a1, b1);
        assert(a =~= a1.push(a.last()));
        assert(b =~= b1.push(b.last()));
    }
}

impl ProxyView {
    /// The state after the serial device of the port `id` was opened again at the time `now`
    /// on `sock`, as `path`.
    pub open spec fn serial_reopened(
        self,
        id: PortId,
        sock: RawFd,
        path: Seq<char>,
        now: u64,
    ) -> ProxyView {
        let p = self.ports[id];
        let s = self.with_port(
            id,
            PortView {
                name: path,
                sock,
                peer: None,
                serial_reconnect_at: None,
                serial_check_at: Some((now + SERIAL_LIVENESS_INTERVAL) as u64),
                tx_buf: Seq::empty(),
                connecting: false,
                mode: if p.script_ref is Some {
                    SCRIPT_READ_WRITE
                } else {
                    p.mode
                },
                ..p
            },
        );
        let s1 = match p.script_ref {
            Some(sr) => if s.has(sr) {
                s.remote_end(sr, id)
            } else {
                s
            },
            None => s,
        };
        ProxyView { rds: s1.rds.insert(sock), ..s1 }.refreshed().dirty()
    }

    /// The state after an attempt to reopen the serial device of the port `id`: `opened` is
    /// the descriptor and the path that it was opened as.
    pub open spec fn serial_retried(
        self,
        id: PortId,
        opened: Option<(RawFd, Seq<char>)>,
        now: u64,
    ) -> ProxyView {
        let p = self.ports[id];
        if !self.has(id) || !p.is_serial_remote() || p.sock >= 0 {
            self
        } else {
            match opened {
                Some((sock, path)) => self.serial_reopened(id, sock, path, now),
                None => self.with_port(
                    id,
                    PortView {
                        serial_reconnect_at: Some((now + SERIAL_RECONNECT_INTERVAL) as u64),
                        ..p
                    },
                ),
            }
        }
    }

    /// The state after the serial device of the port `id` was probed at the time `now`.
    pub open spec fn serial_checked(self, id: PortId, alive: bool, now: u64) -> ProxyView {
        if !self.has(id) {
            self
        } else if alive {
            self.with_port(
                id,
                PortView {
                    serial_check_at: Some((now + SERIAL_LIVENESS_INTERVAL) as u64),
                    ..self.ports[id]
                },
            )
        } else {
            self.serial_lost(id, now)
        }
    }

    /// The state after the port `id` let go of its descriptor, which became invalid. Serial
    /// devices are to be reopened, connections end, other ports stay without a descriptor.
    pub open spec fn invalid_dropped(self, id: PortId, now: u64) -> ProxyView {
        let p = self.ports[id];
        if !self.has(id) {
            self
        } else if p.is_serial_remote() {
            self.serial_lost(id, now)
        } else if p.cls == PortClass::Connection || p.cls == PortClass::ScriptClient {
            self.killed(id, now)
        } else {
            self.unwatched(p.sock).closing(p.sock).with_port(
                id,
                PortView { sock: NO_FD, peer: None, tx_buf: Seq::empty(), connecting: false, ..p },
            ).dirty()
        }
    }

    /// The state after each of `ids` let go of its descriptor, in order.
    pub open spec fn all_dropped(self, ids: Seq<PortId>, now: u64) -> ProxyView
        decreases ids.len(),
    {
        if ids.len() == 0 {
            self
        } else {
            self.all_dropped(ids.drop_last(), now).invalid_dropped(ids.last(), now)
        }
    }

    /// The state after the ports let go of the descriptors `bad` at the time `now`.
    pub open spec fn cleaned(self, bad: Seq<RawFd>, now: u64) -> ProxyView {
        let ids = invalid_ids(self, bad);
        if ids.len() > 0 {
            self.all_dropped(ids, now).refreshed()
        } else {
            self
        }
    }
}

fn has_reached(at: Option<u64>, now: u64) -> (r: bool)
    ensures
        r == reached(at, now),
{
    match at {
        Some(at) => at <= now,
        None => false,
    }
}

fn fd_in(v: &Vec<RawFd>, fd: RawFd) -> (r: bool)
    ensures
        r == v@.contains(fd),
{
    let mut i: usize = 0;
    while i < v.len()
        invariant
            i <= v@.len(),
            forall|k: int| 0 <= k < i ==> v@[k] != fd,
        decreases v@.len() - i,
    {
        if v[i] == fd {
            return true;
        }
        i = i + 1;
    }
    false
}

proof fn lemma_push_contains(s: Seq<PortId>, x: PortId)
    ensures
        forall|y: PortId| s.push(x).contains(y) <==> s.contains(y) || y == x,
{
    let t = s.push(x);
    assert forall|y: PortId| t.contains(y) <==> s.contains(y) || y == x by {
        if s.contains(y) {
            let i = choose|i: int| 0 <= i < s.len() && s[i] == y;
            assert(t[i] == y);
        }
        assert(t[s.len() as int] == x);
        if t.contains(y) && y != x {
            let i = choose|i: int| 0 <= i < t.len() && t[i] == y;
            assert(s[i] == y);
        }
    }
}

/// `r` are those of the first `k` of `ids` that `due` picks.
spec fn picks(r: Seq<PortId>, ids: Seq<PortId>, k: int, due: spec_fn(PortId) -> bool) -> bool {
    forall|id: PortId|
        #![trigger r.contains(id)]
        r.contains(id) <==> ids.take(k).contains(id) && due(id)
}

proof fn lemma_picks_next(
    r: Seq<PortId>,
    next: Seq<PortId>,
    ids: Seq<PortId>,
    k: int,
    due: spec_fn(PortId) -> bool,
)
    requires
        0 <= k < ids.len(),
        picks(r, ids, k, due),
        next == if due(ids[k]) {
            r.push(ids[k])
        } else {
            r
        },
    ensures
        picks(next, ids, k + 1, due),
{
    assert(ids.take(k + 1) =~= ids.take(k).push(ids[k]));
    lemma_push_contains(ids.take(k), ids[k]);
    lemma_push_contains(r, ids[k]);
    assert forall|id: PortId|
        #![trigger next.contains(id)]
        next.contains(id) <==> ids.take(k + 1).contains(id) && due(id) by {
        assert(r.contains(id) <==> ids.take(k).contains(id) && due(id));
    }
}

impl ProxyState {
    /// The lost serial devices that are to be reopened at the time `now`, in rising order.
    pub fn due_serial_reconnects(&self, now: u64) -> (r: Vec<PortId>)
        requires
            self.wf(),
        ensures
            rising(r@),
            forall|id: PortId|
                #![trigger r@.contains(id)]
                r@.contains(id) <==> self@.has(id) && reconnect_due(self@.ports[id], now),
    {
        let ids = self.ports.ids();
        let mut r: Vec<PortId> = Vec::new();
        let ghost due = |id: PortId| reconnect_due(self@.ports[id], now);
        let mut k: usize = 0;
        while k < ids.len()
            invariant
                k <= ids@.len(),
                rising(ids@),
                forall|id: PortId| ids@.contains(id) <==> self@.has(id),
                rising(r@),
                forall|i: int, j: int| 0 <= i < r@.len() && k <= j < ids@.len() ==> r@[i] < ids@[j],
                due == (|id: PortId| reconnect_due(self@.ports[id], now)),
                picks(r@, ids@, k as int, due),
            decreases ids@.len() - k,
        {
            proof {
                assert(ids@.contains(ids@[k as int]));
            }
            let ghost before = r@;
            if let Some(p) = self.ports.get(ids[k]) {
                if p.is_serial_remote() && p.sock < 0 && has_reached(p.serial_reconnect_at, now) {
                    r.push(ids[k]);
                }
            }
            proof {
                lemma_picks_next(before, r@, ids@, k as int, due);
            }
            k = k + 1;
        }
        proof {
            assert(ids@.take(ids@.len() as int) =~= ids@);
        }
        r
    }

    /// The open serial devices that are to be probed at the time `now`, in rising order.
    pub fn due_serial_checks(&self, now: u64) -> (r: Vec<PortId>)
        requires
            self.wf(),
        ensures
            rising(r@),
            forall|id: PortId|
                #![trigger r@.contains(id)]
                r@.contains(id) <==> self@.has(id) && check_due(self@.ports[id], now),
    {
        let ids = self.ports.ids();
        let mut r: Vec<PortId> = Vec::new();
        let ghost due = |id: PortId| check_due(self@.ports[id], now);
        let mut k: usize = 0;
        while k < ids.len()
            invariant
                k <= ids@.len(),
                rising(ids@),
                forall|id: PortId| ids@.contains(id) <==> self@.has(id),
                rising(r@),
                forall|i: int, j: int| 0 <= i < r@.len() && k <= j < ids@.len() ==> r@[i] < ids@[j],
                due == (|id: PortId| check_due(self@.ports[id], now)),
                picks(r@, ids@, k as int, due),
            decreases ids@.len() - k,
        {
            proof {
                assert(ids@.contains(ids@[k as int]));
            }
            let ghost before = r@;
            if let Some(p) = self.ports.get(ids[k]) {
                if p.is_serial_remote() && p.sock >= 0 && has_reached(p.serial_check_at, now) {
                    r.push(ids[k]);
                }
            }
            proof {
                lemma_picks_next(before, r@, ids@, k as int, due);
            }
            k = k + 1;
        }
        proof {
            assert(ids@.take(ids@.len() as int) =~= ids@);
        }
        r
    }

    /// The ports whose descriptor is one of `bad`, in rising order.
    fn invalid_ports(&self, bad: &Vec<RawFd>) -> (r: Vec<PortId>)
        requires
            self.wf(),
        ensures
            lists_invalid(self@, bad@, r@),
    {
        let ids = self.ports.ids();
        let mut r: Vec<PortId> = Vec::new();
        let ghost due = |id: PortId| is_invalid(self@.ports[id], bad@);
        let mut k: usize = 0;
        while k < ids.len()
            invariant
                k <= ids@.len(),
                rising(ids@),
                forall|id: PortId| ids@.contains(id) <==> self@.has(id),
                rising(r@),
                forall|i: int, j: int| 0 <= i < r@.len() && k <= j < ids@.len() ==> r@[i] < ids@[j],
                due == (|id: PortId| is_invalid(self@.ports[id], bad@)),
                picks(r@, ids@, k as int, due),
            decreases ids@.len() - k,
        {
            proof {
                assert(ids@.contains(ids@[k as int]));
            }
            let ghost before = r@;
            if let Some(p) = self.ports.get(ids[k]) {
                if p.sock >= 0 && fd_in(bad, p.sock) {
                    r.push(ids[k]);
                }
            }
            proof {
                lemma_picks_next(before, r@, ids@, k as int, due);
            }
            k = k + 1;
        }
        proof {
            assert(ids@.take(ids@.len() as int) =~= ids@);
        }
        r
    }

    /// What is tried to reopen the serial device of the port `id`: the path that it was
    /// configured with, and its rate. `None` where it is not a lost serial device.
    pub fn reconnect_request(&self, id: PortId) -> (r: Option<(String, Option<u32>)>)
        ensures
            match r {
                Some((path, baud)) => {
                    let p = self@.ports[id];
                    &&& self@.has(id) && p.is_serial_remote() && p.sock < 0
                    &&& path@ == match p.serial_config_path {
                        Some(configured) => configured,
                        None => p.name,
                    }
                    &&& baud == p.serial_baud
                },
                None => !(self@.has(id) && self@.ports[id].is_serial_remote()
                    && self@.ports[id].sock < 0),
            },
    {
        match self.ports.get(id) {
            Some(p) => {
                if !p.is_serial_remote() || p.sock >= 0 {
                    return None;
                }
                let path = match &p.serial_config_path {
                    Some(path) => path.as_str().to_owned(),
                    None => p.name.as_str().to_owned(),
                };
                Some((path, p.serial_baud))
            },
            None => None,
        }
    }

    fn reopen_serial(&mut self, id: PortId, sock: RawFd, path: String, now: u64)
        requires
            old(self).wf(),
            old(self)@.has(id),
            selectable(sock),
            now + SERIAL_LIVENESS_INTERVAL <= u64::MAX,
        ensures
            final(self).wf(),
            final(self)@ == old(self)@.serial_reopened(id, sock, path@, now),
    {
        let script_ref = match self.ports.get(id) {
            Some(p) => p.script_ref,
            None => None,
        };
        self.set_reopened(id, sock, path, script_ref.is_some(), now);
        if let Some(sr) = script_ref {
            self.script_in_use_by(sr, id);
        }
        self.master_rds.insert(sock);
        self.refresh_nsockhandle();
        self.status_dirty = true;
    }

    fn set_reopened(&mut self, id: PortId, sock: RawFd, path: String, scripted: bool, now: u64)
        requires
            old(self).wf(),
            old(self)@.has(id),
            selectable(sock),
            now + SERIAL_LIVENESS_INTERVAL <= u64::MAX,
        ensures
            final(self).wf(),
            final(self)@ == old(self)@.with_port(
                id,
                PortView {
                    name: path@,
                    sock,
                    peer: None,
                    serial_reconnect_at: None,
                    serial_check_at: Some((now + SERIAL_LIVENESS_INTERVAL) as u64),
                    tx_buf: Seq::empty(),
                    connecting: false,
                    mode: if scripted {
                        SCRIPT_READ_WRITE
                    } else {
                        old(self)@.ports[id].mode
                    },
                    ..old(self)@.ports[id]
                },
            ),
    {
        if let Some(p) = self.ports.get_mut(id) {
            p.name = path;
            p.sock = sock;
            p.peer = None;
            p.serial_reconnect_at = None;
            p.serial_check_at = Some(now + SERIAL_LIVENESS_INTERVAL);
            p.tx_buf = Vec::new();
            p.connecting = false;
            if scripted {
                p.mode = SCRIPT_READ_WRITE;
            }
        }
    }

    fn script_in_use_by(&mut self, sr: PortId, id: PortId)
        requires
            old(self).wf(),
        ensures
            final(self).wf(),
            final(self)@ == if old(self)@.has(sr) {
                old(self)@.remote_end(sr, id)
            } else {
                old(self)@
            },
    {
        if let Some(sp) = self.ports.get_mut(sr) {
            sp.rscript = Some(id);
            sp.script_in_use = true;
        }
    }

    /// Takes what came of an attempt at the time `now` to reopen the serial device of the
    /// port `id`: the descriptor and the path that it was opened as, if it was.
    pub fn retry_serial_reconnect(&mut self, id: PortId, opened: Option<(RawFd, String)>, now: u64)
        requires
            old(self).wf(),
            opened matches Some((sock, path)) ==> selectable(sock),
            now + SERIAL_LIVENESS_INTERVAL <= u64::MAX,
            now + SERIAL_RECONNECT_INTERVAL <= u64::MAX,
        ensures
            final(self).wf(),
            final(self)@ == old(self)@.serial_retried(
                id,
                match opened {
                    Some((sock, path)) => Some((sock, path@)),
                    None => None,
                },
                now,
            ),
    {
        let lost = match self.ports.get(id) {
            Some(p) => p.is_serial_remote() && p.sock < 0,
            None => false,
        };
        if !lost {
            return;
        }
        match opened {
            Some((sock, path)) => {
                self.reopen_serial(id, sock, path, now);
            },
            None => {
                if let Some(p) = self.ports.get_mut(id) {
                    p.serial_reconnect_at = Some(now + SERIAL_RECONNECT_INTERVAL);
                }
            },
        }
    }

    /// Takes whether the serial device of the port `id` answered a probe at the time `now`.
    pub fn serial_checked(&mut self, id: PortId, alive: bool, now: u64)
        requires
            old(self).wf(),
            now + SERIAL_LIVENESS_INTERVAL <= u64::MAX,
            now + SERIAL_RECONNECT_INTERVAL <= u64::MAX,
        ensures
            final(self).wf(),
            final(self)@ == old(self)@.serial_checked(id, alive, now),
    {
        if alive {
            if let Some(p) = self.ports.get_mut(id) {
                p.serial_check_at = Some(now + SERIAL_LIVENESS_INTERVAL);
            }
        } else {
            self.mark_serial_disconnected(id, now);
        }
    }

    fn drop_invalid(&mut self, id: PortId, now: u64)
        requires
            old(self).wf(),
            now + SERIAL_RECONNECT_INTERVAL <= u64::MAX,
        ensures
            final(self).wf(),
            final(self)@ == old(self)@.invalid_dropped(id, now),
    {
        let (cls, serial, sock) = match self.ports.get(id) {
            Some(p) => (p.cls, p.is_serial_remote(), p.sock),
            None => {
                return;
            },
        };
        if serial {
            self.mark_serial_disconnected(id, now);
        } else if cls == PortClass::Connection || cls == PortClass::ScriptClient {
            self.killport(id, now);
        } else {
            self.unwatch(sock);
            self.close_fd(sock);
            if let Some(p) = self.ports.get_mut(id) {
                p.sock = NO_FD;
                p.peer = None;
                p.tx_buf = Vec::new();
                p.connecting = false;
            }
            self.status_dirty = true;
        }
    }

    /// Lets the ports let go of the descriptors `bad`, which became invalid. The result is
    /// the number of ports that had one.
    pub fn cleanup_invalid_fds(&mut self, bad: &Vec<RawFd>, now: u64) -> (r: usize)
        requires
            old(self).wf(),
            now + SERIAL_RECONNECT_INTERVAL <= u64::MAX,
        ensures
            final(self).wf(),
            final(self)@ == old(self)@.cleaned(bad@, now),
            r == invalid_ids(old(self)@, bad@).len(),
            lists_invalid(old(self)@, bad@, invalid_ids(old(self)@, bad@)),
    {
        let ids = self.invalid_ports(bad);
        proof {
            let chosen = invalid_ids(self@, bad@);
            assert(lists_invalid(self@, bad@, ids@));
            assert(lists_invalid(self@, bad@, chosen));
            assert forall|x: PortId| ids@.contains(x) <==> chosen.contains(x) by {
            }
            lemma_rising_unique(ids@, chosen);
        }
        let mut k: usize = 0;
        while k < ids.len()
            invariant
                k <= ids@.len(),
                self.wf(),
                now + SERIAL_RECONNECT_INTERVAL <= u64::MAX,
                self@ == old(self)@.all_dropped(ids@.take(k as int), now),
            decreases ids@.len() - k,
        {
            proof {
                assert(ids@.take(k + 1).drop_last() =~= ids@.take(k as int));
            }
            self.drop_invalid(ids[k], now);
            k = k + 1;
        }
        proof {
            assert(ids@.take(ids@.len() as int) =~= ids@);
        }
        if ids.len() > 0 {
            self.refresh_nsockhandle();
        }
        ids.len()
    }
}

/// A serial device that is lost and opened again, possibly under another path, is as it was:
/// the same clients are attached to it, its script port is in use on it, with the same
/// clients, and it is waited on. No other port changes.
pub proof fn lemma_serial_recovers(
    s: ProxyView,
    id: PortId,
    lost_at: u64,
    sock: RawFd,
    path: Seq<char>,
    now: u64,
)
    requires
        s.wf(),
        s.has(id),
        s.ports[id].is_serial_remote(),
    ensures
        ({
            let p = s.ports[id];
            let lost = s.serial_lost(id, lost_at);
            let back = lost.serial_retried(id, Some((sock, path)), now);
            let q = back.ports[id];
            &&& back.ports.dom() == s.ports.dom()
            &&& q.clients == p.clients
            &&& q.script_ref == p.script_ref
            &&& q.sock == sock && q.name == path && q.serial_reconnect_at is None
            &&& back.rds.contains(sock)
            &&& forall|x: PortId|
                x != id && s.has(x) && p.script_ref != Some(x) ==> #[trigger] back.ports[x]
                    == s.ports[x]
            &&& p.script_ref matches Some(sr) ==> {
                &&& q.mode == SCRIPT_READ_WRITE
                &&& back.ports[sr] == (PortView {
                    rscript: Some(id),
                    script_in_use: true,
                    ..s.ports[sr]
                })
            }
        }),
{
    let p = s.ports[id];
    assert(script_ref_ok(s.ports, p.script_ref));
    let lost = s.serial_lost(id, lost_at);
    assert(lost.ports.dom() =~= s.ports.dom());
    assert(lost.ports[id].sock == NO_FD);
    let back = lost.serial_retried(id, Some((sock, path)), now);
    assert(back == lost.serial_reopened(id, sock, path, now));
    assert(back.ports.dom() =~= s.ports.dom());
}

/// From `s` to `t` no descriptor came to be waited on, and a port that is gone or has
/// another descriptor left none behind that is waited on.
pub open spec fn lets_go(s: ProxyView, t: ProxyView) -> bool {
    &&& t.rds.subset_of(s.rds)
    &&& t.wds.subset_of(s.wds)
    &&& forall|x: PortId| #[trigger]
        s.has(x) && s.ports[x].sock >= 0 ==> {
            let fd = s.ports[x].sock;
            (t.has(x) && t.ports[x].sock == fd) || (!t.rds.contains(fd) && !t.wds.contains(fd))
        }
}

proof fn lemma_lets_go_trans(a: ProxyView, b: ProxyView, c: ProxyView)
    requires
        lets_go(a, b),
        lets_go(b, c),
    ensures
        lets_go(a, c),
{
    assert forall|x: PortId| #[trigger] a.has(x) && a.ports[x].sock >= 0 implies ({
        let fd = a.ports[x].sock;
        (c.has(x) && c.ports[x].sock == fd) || (!c.rds.contains(fd) && !c.wds.contains(fd))
    }) by {
    }
}

proof fn lemma_killed_lets_go(s: ProxyView, id: PortId, now: u64)
    requires
        s.ports.dom().finite(),
        s.has(id) ==> !s.ports[id].is_persistent_remote(),
    ensures
        lets_go(s, s.killed(id, now)),
    decreases s.ports.dom().len(),
{
    if s.has(id) {
        let p = s.ports[id];
        if p.cls != PortClass::Local && p.cls != PortClass::Script {
            let r = s.connection_removed(id);
            crate::kill::lemma_connection_removed_dom(s, id);
            assert(lets_go(s, r)) by {
                assert forall|x: PortId| #[trigger] s.has(x) && s.ports[x].sock >= 0 implies ({
                    let fd = s.ports[x].sock;
                    (r.has(x) && r.ports[x].sock == fd) || (!r.rds.contains(fd)
                        && !r.wds.contains(fd))
                }) by {
                    if x != id {
                        assert(r.ports.dom().contains(x));
                    }
                }
            }
            if let Some(peer) = p.peer {
                if r.dies_with_peer(peer) {
                    lemma_killed_lets_go(r, peer, now);
                    lemma_lets_go_trans(s, r, r.killed(peer, now));
                    lemma_lets_go_trans(s, r.killed(peer, now), s.killed(id, now));
                } else {
                    lemma_lets_go_trans(s, r, s.killed(id, now));
                }
            } else {
                lemma_lets_go_trans(s, r, s.killed(id, now));
            }
        }
    }
}

proof fn lemma_dropped_lets_go(s: ProxyView, id: PortId, now: u64)
    requires
        s.ports.dom().finite(),
    ensures
        lets_go(s, s.invalid_dropped(id, now)),
        s.invalid_dropped(id, now).ports.dom().finite(),
        s.has(id) && s.ports[id].sock >= 0 ==> {
            let t = s.invalid_dropped(id, now);
            !t.rds.contains(s.ports[id].sock) && !t.wds.contains(s.ports[id].sock)
        },
{
    if s.has(id) {
        let p = s.ports[id];
        let t = s.invalid_dropped(id, now);
        if p.is_serial_remote() {
            assert forall|x: PortId| #[trigger] s.has(x) && s.ports[x].sock >= 0 implies ({
                let fd = s.ports[x].sock;
                (t.has(x) && t.ports[x].sock == fd) || (!t.rds.contains(fd) && !t.wds.contains(
                    fd,
                ))
            }) by {
                assert(t.ports.dom().contains(x));
            }
        } else if p.cls == PortClass::Connection || p.cls == PortClass::ScriptClient {
            lemma_killed_lets_go(s, id, now);
            crate::kill::lemma_killed_connection_is_gone(s, id, now);
            crate::kill::lemma_kill_keeps_listeners_and_remotes(s, id, now);
            assert(t.ports.dom().subset_of(s.ports.dom())) by {
                assert forall|x: PortId| t.ports.dom().contains(x) implies s.ports.dom().contains(
                    x,
                ) by {
                    assert(t.has(x));
                }
            }
            vstd::set_lib::lemma_set_subset_finite(s.ports.dom(), t.ports.dom());
        } else {
            assert forall|x: PortId| #[trigger] s.has(x) && s.ports[x].sock >= 0 implies ({
                let fd = s.ports[x].sock;
                (t.has(x) && t.ports[x].sock == fd) || (!t.rds.contains(fd) && !t.wds.contains(
                    fd,
                ))
            }) by {
                assert(t.ports.dom().contains(x));
            }
        }
    }
}

proof fn lemma_all_dropped_let_go(s: ProxyView, ids: Seq<PortId>, now: u64)
    requires
        s.ports.dom().finite(),
        forall|i: int| 0 <= i < ids.len() ==> s.has(#[trigger] ids[i]) && s.ports[ids[i]].sock >= 0,
    ensures
        lets_go(s, s.all_dropped(ids, now)),
        s.all_dropped(ids, now).ports.dom().finite(),
        forall|i: int|
            0 <= i < ids.len() ==> {
                let fd = s.ports[#[trigger] ids[i]].sock;
                let t = s.all_dropped(ids, now);
                !t.rds.contains(fd) && !t.wds.contains(fd)
            },
    decreases ids.len(),
{
    if ids.len() > 0 {
        let rest = ids.drop_last();
        let mid = s.all_dropped(rest, now);
        let t = s.all_dropped(ids, now);
        lemma_all_dropped_let_go(s, rest, now);
        lemma_dropped_lets_go(mid, ids.last(), now);
        lemma_lets_go_trans(s, mid, t);
        assert forall|i: int| 0 <= i < ids.len() implies ({
            let fd = s.ports[#[trigger] ids[i]].sock;
            !t.rds.contains(fd) && !t.wds.contains(fd)
        }) by {
            assert(s.has(ids[i]));
            if i < rest.len() {
                assert(rest[i] == ids[i]);
            }
        }
    }
}

/// The ports below `n` with an invalid descriptor, in rising order.
spec fn invalid_below(s: ProxyView, bad: Seq<RawFd>, n: int) -> Seq<PortId>
    decreases n,
{
    if n <= 0 {
        Seq::empty()
    } else {
        let id = (n - 1) as PortId;
        let rest = invalid_below(s, bad, n - 1);
        if s.has(id) && is_invalid(s.ports[id], bad) {
            rest.push(id)
        } else {
            rest
        }
    }
}

proof fn lemma_invalid_below(s: ProxyView, bad: Seq<RawFd>, n: int)
    requires
        0 <= n <= usize::MAX,
    ensures
        rising(invalid_below(s, bad, n)),
        forall|id: PortId|
            #![trigger invalid_below(s, bad, n).contains(id)]
            invalid_below(s, bad, n).contains(id) <==> id < n && s.has(id) && is_invalid(
                s.ports[id],
                bad,
            ),
    decreases n,
{
    if n > 0 {
        let id = (n - 1) as PortId;
        let rest = invalid_below(s, bad, n - 1);
        lemma_invalid_below(s, bad, n - 1);
        lemma_push_contains(rest, id);
        assert forall|i: int| 0 <= i < rest.len() implies #[trigger] rest[i] < id by {
            assert(rest.contains(rest[i]));
        }
        let all = invalid_below(s, bad, n);
        assert forall|x: PortId|
            #![trigger all.contains(x)]
            all.contains(x) <==> x < n && s.has(x) && is_invalid(s.ports[x], bad) by {
            assert(rest.contains(x) <==> x < n - 1 && s.has(x) && is_invalid(s.ports[x], bad));
            assert(rest.push(id).contains(x) <==> rest.contains(x) || x == id);
        }
    }
}

/// The ports with an invalid descriptor can be listed.
pub proof fn lemma_invalid_ids(s: ProxyView, bad: Seq<RawFd>)
    requires
        s.wf(),
    ensures
        lists_invalid(s, bad, invalid_ids(s, bad)),
{
    lemma_invalid_below(s, bad, s.next_id as int);
    let ids = invalid_below(s, bad, s.next_id as int);
    assert forall|id: PortId|
        #![trigger ids.contains(id)]
        ids.contains(id) <==> s.has(id) && is_invalid(s.ports[id], bad) by {
        if s.has(id) {
            assert(id < s.next_id);
        }
    }
    assert(lists_invalid(s, bad, ids));
}

/// Cleaning up leaves nothing invalid behind: a descriptor that became invalid is not waited
/// on any more, for reading or for writing.
pub proof fn lemma_cleanup_unwatches_invalid(s: ProxyView, bad: Seq<RawFd>, now: u64, id: PortId)
    requires
        s.wf(),
        s.has(id),
        is_invalid(s.ports[id], bad),
    ensures
        !s.cleaned(bad, now).rds.contains(s.ports[id].sock),
        !s.cleaned(bad, now).wds.contains(s.ports[id].sock),
{
    let ids = invalid_ids(s, bad);
    lemma_invalid_ids(s, bad);
    assert(ids.contains(id));
    assert forall|i: int| 0 <= i < ids.len() implies s.has(#[trigger] ids[i])
        && s.ports[ids[i]].sock >= 0 by {
        assert(ids.contains(ids[i]));
    }
    lemma_all_dropped_let_go(s, ids, now);
    let i = choose|i: int| 0 <= i < ids.len() && ids[i] == id;
    assert(s.ports[ids[i]].sock == s.ports[id].sock);
}

/// From `s` to `t` ports at most went, lost their descriptors, or are to be reopened behind
/// the time `now`; ports that outlive connections stayed.
spec fn only_drops(s: ProxyView, t: ProxyView, now: u64) -> bool {
    &&& forall|x: PortId| #[trigger]
        t.has(x) ==> {
            let p = s.ports[x];
            let q = t.ports[x];
            &&& s.has(x)
            &&& q.cls == p.cls && q.port_type == p.port_type
            &&& q.sock == p.sock || q.sock == NO_FD
            &&& q.serial_reconnect_at == p.serial_reconnect_at || q.serial_reconnect_at == Some(
                (now + SERIAL_RECONNECT_INTERVAL) as u64,
            )
        }
    &&& forall|x: PortId| s.has(x) && survives(s.ports[x]) ==> #[trigger] t.has(x)
}

proof fn lemma_only_drops_trans(a: ProxyView, b: ProxyView, c: ProxyView, now: u64)
    requires
        only_drops(a, b, now),
        only_drops(b, c, now),
    ensures
        only_drops(a, c, now),
{
    assert forall|x: PortId| #[trigger] c.has(x) implies ({
        let p = a.ports[x];
        let q = c.ports[x];
        &&& a.has(x)
        &&& q.cls == p.cls && q.port_type == p.port_type
        &&& q.sock == p.sock || q.sock == NO_FD
        &&& q.serial_reconnect_at == p.serial_reconnect_at || q.serial_reconnect_at == Some(
            (now + SERIAL_RECONNECT_INTERVAL) as u64,
        )
    }) by {
        assert(b.has(x));
    }
    assert forall|x: PortId| a.has(x) && survives(a.ports[x]) implies #[trigger] c.has(x) by {
        assert(b.has(x));
    }
}

proof fn lemma_killed_only_drops(s: ProxyView, id: PortId, now: u64)
    requires
        s.ports.dom().finite(),
        s.has(id) ==> !s.ports[id].is_persistent_remote(),
    ensures
        only_drops(s, s.killed(id, now), now),
    decreases s.ports.dom().len(),
{
    if s.has(id) {
        let p = s.ports[id];
        if p.cls != PortClass::Local && p.cls != PortClass::Script {
            let r = s.connection_removed(id);
            crate::kill::lemma_connection_removed_dom(s, id);
            let k = s.killed(id, now);
            assert(only_drops(s, r, now)) by {
                assert forall|x: PortId| s.has(x) && survives(s.ports[x]) implies #[trigger] r.has(
                    x,
                ) by {
                    assert(r.ports.dom().contains(x));
                }
            }
            if let Some(peer) = p.peer {
                if r.dies_with_peer(peer) {
                    lemma_killed_only_drops(r, peer, now);
                    lemma_only_drops_trans(s, r, r.killed(peer, now), now);
                    lemma_only_drops_trans(s, r.killed(peer, now), k, now);
                } else {
                    lemma_only_drops_trans(s, r, k, now);
                }
            } else {
                lemma_only_drops_trans(s, r, k, now);
            }
        }
    }
}

/// The port `id` let go of its descriptor from `s` to `t`: a connection is gone, any other
/// port has none, and a serial device is to be reopened.
pub open spec fn let_go(s: ProxyView, t: ProxyView, id: PortId, now: u64) -> bool {
    let p = s.ports[id];
    &&& p.cls == PortClass::Connection || p.cls == PortClass::ScriptClient ==> !t.has(id)
    &&& survives(p) ==> t.has(id)
    &&& t.has(id) ==> t.ports[id].sock == NO_FD
    &&& p.is_serial_remote() ==> t.ports[id].serial_reconnect_at == Some(
        (now + SERIAL_RECONNECT_INTERVAL) as u64,
    )
}

proof fn lemma_dropped_let_go(s: ProxyView, id: PortId, now: u64)
    requires
        s.ports.dom().finite(),
    ensures
        only_drops(s, s.invalid_dropped(id, now), now),
        s.has(id) ==> let_go(s, s.invalid_dropped(id, now), id, now),
{
    if s.has(id) {
        let p = s.ports[id];
        let t = s.invalid_dropped(id, now);
        if p.cls == PortClass::Connection || p.cls == PortClass::ScriptClient {
            lemma_killed_only_drops(s, id, now);
            crate::kill::lemma_killed_connection_is_gone(s, id, now);
        } else {
            assert forall|x: PortId| #[trigger] t.has(x) <==> s.has(x) by {
                assert(t.ports.dom().contains(x) <==> s.ports.dom().contains(x));
            }
        }
    }
}

proof fn lemma_all_dropped_went(s: ProxyView, ids: Seq<PortId>, now: u64)
    requires
        s.ports.dom().finite(),
        forall|i: int| 0 <= i < ids.len() ==> s.has(#[trigger] ids[i]) && s.ports[ids[i]].sock >= 0,
    ensures
        only_drops(s, s.all_dropped(ids, now), now),
        forall|i: int|
            0 <= i < ids.len() ==> let_go(s, s.all_dropped(ids, now), #[trigger] ids[i], now),
    decreases ids.len(),
{
    if ids.len() > 0 {
        let rest = ids.drop_last();
        let last = ids.last();
        let mid = s.all_dropped(rest, now);
        let t = s.all_dropped(ids, now);
        assert forall|i: int| 0 <= i < rest.len() implies s.has(#[trigger] rest[i])
            && s.ports[rest[i]].sock >= 0 by {
            assert(rest[i] == ids[i]);
        }
        lemma_all_dropped_went(s, rest, now);
        lemma_all_dropped_let_go(s, rest, now);
        lemma_dropped_let_go(mid, last, now);
        lemma_only_drops_trans(s, mid, t, now);
        assert forall|i: int| 0 <= i < ids.len() implies let_go(s, t, #[trigger] ids[i], now) by {
            let id = ids[i];
            assert(s.has(id));
            if i < rest.len() {
                assert(rest[i] == id);
                assert(let_go(s, mid, id, now));
                if t.has(id) {
                    assert(mid.has(id));
                }
            } else {
                assert(id == last);
                if mid.has(id) {
                    assert(let_go(mid, t, id, now));
                } else {
                    assert(!survives(s.ports[id]));
                    assert(t == mid);
                }
            }
        }
    }
}

/// Cleaning up settles every port with an invalid descriptor: a connection is gone, any other
/// port stays without a descriptor or is gone, one that outlives connections stays, and a
/// serial device is to be reopened.
pub proof fn lemma_cleanup_settles_ports(s: ProxyView, bad: Seq<RawFd>, now: u64, id: PortId)
    requires
        s.wf(),
        s.has(id),
        is_invalid(s.ports[id], bad),
    ensures
        let_go(s, s.cleaned(bad, now), id, now),
{
    let ids = invalid_ids(s, bad);
    lemma_invalid_ids(s, bad);
    assert(ids.contains(id));
    assert forall|i: int| 0 <= i < ids.len() implies s.has(#[trigger] ids[i])
        && s.ports[ids[i]].sock >= 0 by {
        assert(ids.contains(ids[i]));
    }
    lemma_all_dropped_went(s, ids, now);
    let i = choose|i: int| 0 <= i < ids.len() && ids[i] == id;
    assert(let_go(s, s.all_dropped(ids, now), ids[i], now));
}

} // verus!
