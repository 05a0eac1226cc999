//! System telemetry shown while no helper runs: TCP connections and the
//! process tree, computed from a process snapshot and a TCP table that the
//! runtime reads from the operating system.
use vstd::prelude::*;

use crate::compile::clone_opt_string;
use crate::text::{concat, decimal, decimal_string};

verus! {

/// One TCP connection as shown to the user.
#[derive(Debug, PartialEq, Eq)]
pub struct AppProxyConnection {
    pub pid: u32,
    pub process_name: String,
    pub local_ip: String,
    pub local_port: u16,
    pub remote_ip: String,
    pub remote_port: u16,
    pub state: String,
    pub dest: Option<String>,
    pub hijacked: bool,
    pub pid_alive: bool,
    pub proxy_status: Option<String>,
}

/// Details of one process.
#[derive(Debug, PartialEq, Eq)]
pub struct AppProxyProcessDetail {
    pub pid: u32,
    pub name: String,
    pub parent_pid: Option<u32>,
    pub hijacked: bool,
    pub hijack_source: Option<String>,
    pub cmdline: Option<String>,
    pub image_path: Option<String>,
}

/// One process of the snapshot.
#[derive(Debug, PartialEq, Eq)]
pub struct RawProcessInfo {
    pub pid: u32,
    pub parent_pid: u32,
    pub name: String,
    pub image_path: Option<String>,
}

impl Clone for RawProcessInfo {
    fn clone(&self) -> (r: Self)
        ensures
            r == *self,
    {
        RawProcessInfo {
            pid: self.pid,
            parent_pid: self.parent_pid,
            name: self.name.clone(),
            image_path: clone_opt_string(&self.image_path),
        }
    }
}

pub open spec fn distinct_pids(s: Seq<RawProcessInfo>) -> bool {
    forall|i: int, j: int| 0 <= i < j < s.len() ==> (#[trigger] s[i]).pid != (#[trigger] s[j]).pid
}

/// The processes of a snapshot, one entry per pid (a later report of a
/// pid replaces the earlier one).
#[derive(Debug)]
pub struct ProcessSnapshot {
    entries: Vec<RawProcessInfo>,
}

impl ProcessSnapshot {
    pub closed spec fn spec_entries(self) -> Seq<RawProcessInfo> {
        self.entries@
    }

    pub open spec fn wf(self) -> bool {
        distinct_pids(self.spec_entries())
    }

    /// Whether a process with `pid` was seen.
    pub open spec fn has(self, pid: u32) -> bool {
        exists|i: int| 0 <= i < self.spec_entries().len() && (#[trigger] self.spec_entries()[i]).pid == pid
    }

    pub fn new() -> (r: Self)
        ensures
            r.wf(),
            r.spec_entries().len() == 0,
    {
        ProcessSnapshot { entries: Vec::new() }
    }

    /// Records a process; a process of the same pid is replaced in place.
    pub fn insert(&mut self, info: RawProcessInfo)
        requires
            old(self).wf(),
        ensures
            final(self).wf(),
            exists|k: int|
                0 <= k < final(self).spec_entries().len() && final(self).spec_entries()[k] == info,
            forall|p: u32| #[trigger] final(self).has(p) <==> (old(self).has(p) || p == info.pid),
            forall|i: int|
                0 <= i < old(self).spec_entries().len() && (#[trigger] old(self).spec_entries()[i]).pid
                    != info.pid ==> final(self).spec_entries()[i] == old(self).spec_entries()[i],
            final(self).spec_entries().len() == old(self).spec_entries().len() + if old(self).has(info.pid) {
                0int
            } else {
                1int
            },
    {
        let ghost old_e = self.entries@;
        match self.find(info.pid) {
            Some(k) => {
                self.entries.set(k, info);
                proof {
                    assert forall|p: u32| #[trigger] self.has(p) <==> (exists|i: int| 0 <= i < old_e.len() && (#[trigger] old_e[i]).pid == p) || p == self.entries@[k as int].pid by {
                        if self.has(p) {
                            let i = choose|i: int| 0 <= i < self.entries@.len() && (#[trigger] self.entries@[i]).pid == p;
                            if i != k {
                                assert(old_e[i] == self.entries@[i]);
                            }
                        }
                        if exists|i: int| 0 <= i < old_e.len() && (#[trigger] old_e[i]).pid == p {
                            let i = choose|i: int| 0 <= i < old_e.len() && (#[trigger] old_e[i]).pid == p;
                            if i != k {
                                assert(self.entries@[i] == old_e[i]);
                            } else {
                                assert(self.entries@[k as int].pid == p);
                            }
                        }
                    }
                }
            },
            None => {
                self.entries.push(info);
                proof {
                    let n = self.entries@.len() - 1;
                    assert forall|p: u32| #[trigger] self.has(p) <==> (exists|i: int| 0 <= i < old_e.len() && (#[trigger] old_e[i]).pid == p) || p == self.entries@[n].pid by {
                        if self.has(p) {
                            let i = choose|i: int| 0 <= i < self.entries@.len() && (#[trigger] self.entries@[i]).pid == p;
                            if i < n {
                                assert(old_e[i] == self.entries@[i]);
                            }
                        }
                        if exists|i: int| 0 <= i < old_e.len() && (#[trigger] old_e[i]).pid == p {
                            let i = choose|i: int| 0 <= i < old_e.len() && (#[trigger] old_e[i]).pid == p;
                            assert(self.entries@[i] == old_e[i]);
                        }
                    }
                }
            },
        }
    }

    /// The position of the process with `pid`.
    pub fn find(&self, pid: u32) -> (r: Option<usize>)
        ensures
            match r {
                Some(k) => k < self.spec_entries().len() && self.spec_entries()[k as int].pid == pid,
                None => !self.has(pid),
            },
    {
        let mut i: usize = 0;
        while i < self.entries.len()
            invariant
                i <= self.entries.len(),
                forall|j: int| 0 <= j < i ==> (#[trigger] self.entries@[j]).pid != pid,
            decreases self.entries.len() - i,
        {
            if self.entries[i].pid == pid {
                return Some(i);
            }
            i = i + 1;
        }
        None
    }

    /// The process with `pid`, if seen.
    pub fn get(&self, pid: u32) -> (r: Option<&RawProcessInfo>)
        requires
            self.wf(),
        ensures
            match r {
                Some(p) => self.has(pid) && p.pid == pid && exists|k: int|
                    0 <= k < self.spec_entries().len() && self.spec_entries()[k] == *p,
                None => !self.has(pid),
            },
    {
        match self.find(pid) {
            Some(k) => Some(&self.entries[k]),
            None => None,
        }
    }

    /// The process at position `i`.
    pub fn entry(&self, i: usize) -> (r: &RawProcessInfo)
        requires
            i < self.spec_entries().len(),
        ensures
            *r == self.spec_entries()[i as int],
    {
        &self.entries[i]
    }

    pub fn len(&self) -> (r: usize)
        ensures
            r == self.spec_entries().len(),
    {
        self.entries.len()
    }
}

/// Name of a MIB TCP state code.
pub open spec fn tcp_state_name(state: u32) -> Seq<char> {
    if state == 1 { "CLOSED"@ }
    else if state == 2 { "LISTEN"@ }
    else if state == 3 { "SYN_SENT"@ }
    else if state == 4 { "SYN_RCVD"@ }
    else if state == 5 { "ESTABLISHED"@ }
    else if state == 6 { "FIN_WAIT1"@ }
    else if state == 7 { "FIN_WAIT2"@ }
    else if state == 8 { "CLOSE_WAIT"@ }
    else if state == 9 { "CLOSING"@ }
    else if state == 10 { "LAST_ACK"@ }
    else if state == 11 { "TIME_WAIT"@ }
    else if state == 12 { "DELETE_TCB"@ }
    else { "UNKNOWN"@ }
}

/// The name of a MIB TCP state code.
pub fn tcp_state_to_str(state: u32) -> (r: &'static str)
    ensures
        r@ == tcp_state_name(state),
{
    if state == 1 { "CLOSED" }
    else if state == 2 { "LISTEN" }
    else if state == 3 { "SYN_SENT" }
    else if state == 4 { "SYN_RCVD" }
    else if state == 5 { "ESTABLISHED" }
    else if state == 6 { "FIN_WAIT1" }
    else if state == 7 { "FIN_WAIT2" }
    else if state == 8 { "CLOSE_WAIT" }
    else if state == 9 { "CLOSING" }
    else if state == 10 { "LAST_ACK" }
    else if state == 11 { "TIME_WAIT" }
    else if state == 12 { "DELETE_TCB" }
    else { "UNKNOWN" }
}

/// The state names follow the `MIB_TCP_STATE` numbering, from `CLOSED`
/// (1) to `DELETE_TCB` (12); every other code reads `UNKNOWN`, and no two
/// known states share a name.
pub proof fn lemma_tcp_state_table()
    ensures
        tcp_state_name(1) == "CLOSED"@,
        tcp_state_name(2) == "LISTEN"@,
        tcp_state_name(3) == "SYN_SENT"@,
        tcp_state_name(4) == "SYN_RCVD"@,
        tcp_state_name(5) == "ESTABLISHED"@,
        tcp_state_name(6) == "FIN_WAIT1"@,
        tcp_state_name(7) == "FIN_WAIT2"@,
        tcp_state_name(8) == "CLOSE_WAIT"@,
        tcp_state_name(9) == "CLOSING"@,
        tcp_state_name(10) == "LAST_ACK"@,
        tcp_state_name(11) == "TIME_WAIT"@,
        tcp_state_name(12) == "DELETE_TCB"@,
        forall|s: u32| (s == 0 || s > 12) ==> #[trigger] tcp_state_name(s) == "UNKNOWN"@,
        forall|a: u32, b: u32|
            1 <= a <= 12 && 1 <= b <= 12 && a != b ==> #[trigger] tcp_state_name(a) != #[trigger] tcp_state_name(b),
{
    reveal_strlit("CLOSED");
    reveal_strlit("LISTEN");
    reveal_strlit("SYN_SENT");
    reveal_strlit("SYN_RCVD");
    reveal_strlit("ESTABLISHED");
    reveal_strlit("FIN_WAIT1");
    reveal_strlit("FIN_WAIT2");
    reveal_strlit("CLOSE_WAIT");
    reveal_strlit("CLOSING");
    reveal_strlit("LAST_ACK");
    reveal_strlit("TIME_WAIT");
    reveal_strlit("DELETE_TCB");
    assert forall|a: u32, b: u32|
        1 <= a <= 12 && 1 <= b <= 12 && a != b implies #[trigger] tcp_state_name(a) != #[trigger] tcp_state_name(b) by {
        let x = tcp_state_name(a);
        let y = tcp_state_name(b);
        if x == y {
            assert(x.len() == y.len());
            assert(x[0] == y[0]);
            assert(x[4] == y[4]);
            assert(x[x.len() - 1] == y[y.len() - 1]);
        }
    }
}

/// Dotted-decimal text of an IPv4 address.
pub open spec fn ipv4_text(a: u8, b: u8, c: u8, d: u8) -> Seq<char> {
    decimal(a as nat) + "."@ + decimal(b as nat) + "."@ + decimal(c as nat) + "."@ + decimal(d as nat)
}

/// Dotted-decimal text of an IPv4 address given in network byte order.
pub fn ipv4_string(octets: &[u8; 4]) -> (r: String)
    ensures
        r@ == ipv4_text(octets@[0], octets@[1], octets@[2], octets@[3]),
{
    let s = decimal_string(octets[0] as u64);
    let s = concat(&s, ".");
    let s = concat(&s, decimal_string(octets[1] as u64).as_str());
    let s = concat(&s, ".");
    let s = concat(&s, decimal_string(octets[2] as u64).as_str());
    let s = concat(&s, ".");
    concat(&s, decimal_string(octets[3] as u64).as_str())
}

/// A port given as two bytes in network byte order.
pub fn port_from_network(bytes: &[u8; 2]) -> (r: u16)
    ensures
        r == bytes@[0] * 256 + bytes@[1],
{
    (bytes[0] as u16) * 256 + (bytes[1] as u16)
}

/// One row of the IPv4 TCP table: owning pid, state code, and addresses
/// and ports as stored, in network byte order.
#[derive(Debug, Clone, Copy)]
pub struct TcpRow {
    pub pid: u32,
    pub state: u32,
    pub local_addr: [u8; 4],
    pub local_port: [u8; 2],
    pub remote_addr: [u8; 4],
    pub remote_port: [u8; 2],
}

/// The name shown for a pid: the snapshot's name, else the idle process,
/// `System`, or `PID <pid>`.
pub open spec fn shown_process_name(snapshot: ProcessSnapshot, pid: u32, name: Seq<char>) -> bool {
    if snapshot.has(pid) {
        exists|k: int|
            0 <= k < snapshot.spec_entries().len() && (#[trigger] snapshot.spec_entries()[k]).pid == pid
                && snapshot.spec_entries()[k].name@ == name
    } else if pid == 0 {
        name == "System Idle Process"@
    } else if pid == 4 {
        name == "System"@
    } else {
        name == "PID "@ + decimal(pid as nat)
    }
}

/// `PID <pid>`.
pub fn pid_label(pid: u32) -> (r: String)
    ensures
        r@ == "PID "@ + decimal(pid as nat),
{
    concat(&String::from_str("PID "), decimal_string(pid as u64).as_str())
}

fn process_name_for(snapshot: &ProcessSnapshot, pid: u32) -> (r: String)
    requires
        snapshot.wf(),
    ensures
        shown_process_name(*snapshot, pid, r@),
{
    match snapshot.get(pid) {
        Some(p) => p.name.clone(),
        None => {
            if pid == 0 {
                String::from_str("System Idle Process")
            } else if pid == 4 {
                String::from_str("System")
            } else {
                pid_label(pid)
            }
        },
    }
}

/// How one TCP row is shown: never intercepted, always `DIRECT`.
pub open spec fn connection_ok(c: AppProxyConnection, row: TcpRow, snapshot: ProcessSnapshot) -> bool {
    let remote = ipv4_text(row.remote_addr@[0], row.remote_addr@[1], row.remote_addr@[2], row.remote_addr@[3]);
    let rport = (row.remote_port@[0] * 256 + row.remote_port@[1]) as u16;
    &&& c.pid == row.pid
    &&& shown_process_name(snapshot, row.pid, c.process_name@)
    &&& c.local_ip@ == ipv4_text(row.local_addr@[0], row.local_addr@[1], row.local_addr@[2], row.local_addr@[3])
    &&& c.local_port == row.local_port@[0] * 256 + row.local_port@[1]
    &&& c.remote_ip@ == remote
    &&& c.remote_port == rport
    &&& c.state@ == tcp_state_name(row.state)
    &&& c.dest matches Some(d) && d@ == remote + ":"@ + decimal(rport as nat)
    &&& !c.hijacked
    &&& c.pid_alive == (snapshot.has(row.pid) || row.pid == 0 || row.pid == 4)
    &&& c.proxy_status matches Some(p) && p@ == "DIRECT"@
}

/// The system's TCP connections, one per row of the table, each marked as
/// not intercepted and `DIRECT`.
pub fn get_system_tcp_connections(snapshot: &ProcessSnapshot, rows: &Vec<TcpRow>) -> (r: Vec<AppProxyConnection>)
    requires
        snapshot.wf(),
    ensures
        r@.len() == rows@.len(),
        forall|i: int| 0 <= i < rows@.len() ==> connection_ok(#[trigger] r@[i], rows@[i], *snapshot),
{
    let mut out: Vec<AppProxyConnection> = Vec::new();
    let mut i: usize = 0;
    while i < rows.len()
        invariant
            i <= rows.len(),
            snapshot.wf(),
            out@.len() == i,
            forall|j: int| 0 <= j < i ==> connection_ok(#[trigger] out@[j], rows@[j], *snapshot),
        decreases rows.len() - i,
    {
        let row = rows[i];
        let pid = row.pid;
        let local_ip = ipv4_string(&row.local_addr);
        let local_port = port_from_network(&row.local_port);
        let remote_ip = ipv4_string(&row.remote_addr);
        let remote_port = port_from_network(&row.remote_port);
        let dest = concat(&concat(&remote_ip, ":"), decimal_string(remote_port as u64).as_str());
        let alive = snapshot.find(pid).is_some() || pid == 0 || pid == 4;
        let c = AppProxyConnection {
            pid,
            process_name: process_name_for(snapshot, pid),
            local_ip,
            local_port,
            remote_ip,
            remote_port,
            state: String::from_str(tcp_state_to_str(row.state)),
            dest: Some(dest),
            hijacked: false,
            pid_alive: alive,
            proxy_status: Some(String::from_str("DIRECT")),
        };
        out.push(c);
        i = i + 1;
    }
    out
}

/// Whether the image path of `pid` can be queried (not for the idle and
/// System processes).
pub fn image_path_queryable(pid: u32) -> (r: bool)
    ensures
        r == (pid != 0 && pid != 4),
{
    pid != 0 && pid != 4
}

/// Whether a detail query for `pid` needs the image path read from the
/// operating system (the snapshot has none for it).
pub fn detail_needs_image_query(snapshot: &ProcessSnapshot, pid: u32) -> (r: bool)
    requires
        snapshot.wf(),
    ensures
        r == !exists|k: int|
            0 <= k < snapshot.spec_entries().len() && (#[trigger] snapshot.spec_entries()[k]).pid == pid
                && snapshot.spec_entries()[k].image_path is Some,
{
    match snapshot.get(pid) {
        Some(p) => {
            proof {
                assert forall|k: int| 0 <= k < snapshot.spec_entries().len() && (#[trigger] snapshot.spec_entries()[k]).pid == pid
                    implies snapshot.spec_entries()[k] == *p by {
                    let m = choose|m: int| 0 <= m < snapshot.spec_entries().len() && snapshot.spec_entries()[m] == *p;
                    if m != k {
                        if m < k {
                            assert(snapshot.spec_entries()[m].pid != snapshot.spec_entries()[k].pid);
                        } else {
                            assert(snapshot.spec_entries()[k].pid != snapshot.spec_entries()[m].pid);
                        }
                    }
                }
            }
            p.image_path.is_none()
        },
        None => true,
    }
}

/// Details of `pid`: from the snapshot when it has the process, otherwise
/// `PID <pid>` with no parent; the image path from the snapshot, else
/// `queried_image_path` (read from the system when the snapshot had none).
pub fn get_system_process_detail(snapshot: &ProcessSnapshot, pid: u32, queried_image_path: Option<String>) -> (r:
    AppProxyProcessDetail)
    requires
        snapshot.wf(),
    ensures
        r.pid == pid,
        !r.hijacked,
        r.hijack_source is None,
        r.cmdline is None,
        snapshot.has(pid) ==> exists|k: int|
            0 <= k < snapshot.spec_entries().len() && (#[trigger] snapshot.spec_entries()[k]).pid == pid
                && r.name == snapshot.spec_entries()[k].name && r.parent_pid == Some(
                snapshot.spec_entries()[k].parent_pid,
            ) && r.image_path == (match snapshot.spec_entries()[k].image_path {
                Some(p) => Some(p),
                None => queried_image_path,
            }),
        !snapshot.has(pid) ==> r.name@ == "PID "@ + decimal(pid as nat) && r.parent_pid is None
            && r.image_path == queried_image_path,
{
    match snapshot.get(pid) {
        Some(p) => {
            let image = match &p.image_path {
                Some(x) => Some(x.clone()),
                None => queried_image_path,
            };
            AppProxyProcessDetail {
                pid,
                name: p.name.clone(),
                parent_pid: Some(p.parent_pid),
                hijacked: false,
                hijack_source: None,
                cmdline: None,
                image_path: image,
            }
        },
        None => AppProxyProcessDetail {
            pid,
            name: pid_label(pid),
            parent_pid: None,
            hijacked: false,
            hijack_source: None,
            cmdline: None,
            image_path: queried_image_path,
        },
    }
}

} // verus!
