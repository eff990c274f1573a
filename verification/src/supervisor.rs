//! The supervised tier: what it needs, which sockets it lets through, and how a
//! run is admitted and accounted for.
//!
//! Its defining property is *fail-closed admission*: a run is admitted only when
//! *every* component is there, and is otherwise *refused*, never downgraded to a
//! weaker tier. A half-present stack is a refusal, not a "best-effort pass".
use vstd::prelude::*;
use vstd::string::*;

use crate::{seqs, text};

verus! {

/// One component of the supervised stack and whether the host provides it.
#[derive(Debug, Clone)]
pub struct ComponentStatus {
    pub name: &'static str,
    pub ok: bool,
    pub detail: Option<String>,
}

/// Host readiness for the supervised tier. `usable` is true only when every
/// required component is `ok`.
#[derive(Debug, Clone)]
pub struct SupervisorCaps {
    pub usable: bool,
    pub components: Vec<ComponentStatus>,
}

/// What a component's status says.
pub struct ComponentView {
    pub name: Seq<char>,
    pub ok: bool,
    pub detail: Option<Seq<char>>,
}

impl View for ComponentStatus {
    type V = ComponentView;

    open spec fn view(&self) -> ComponentView {
        ComponentView { name: self.name@, ok: self.ok, detail: text::maybe(self.detail) }
    }
}

impl ComponentView {
    /// What is missing where this is.
    pub open spec fn complaint(self) -> Seq<char> {
        match self.detail {
            Some(d) => self.name + ": "@ + d,
            None => self.name,
        }
    }
}

/// What these statuses say.
pub open spec fn component_views(list: Seq<ComponentStatus>) -> Seq<ComponentView> {
    list.map_values(|c: ComponentStatus| c@)
}

/// The contents of strings.
pub open spec fn texts(list: Seq<String>) -> Seq<Seq<char>> {
    list.map_values(|s: String| s@)
}

/// Everything is there.
pub open spec fn all_ok(list: Seq<ComponentView>) -> bool {
    forall|i: int| 0 <= i < list.len() ==> (#[trigger] list[i]).ok
}

/// What is missing, component by component.
pub open spec fn complaints(list: Seq<ComponentView>) -> Seq<Seq<char>> {
    list.filter_map(
        |c: ComponentView|
            if c.ok {
                None
            } else {
                Some(c.complaint())
            },
    )
}

impl SupervisorCaps {
    /// The claim is what the components say.
    pub open spec fn wf(self) -> bool {
        self.usable == all_ok(component_views(self.components@))
    }

    /// Human-readable list of what's missing.
    pub fn missing(&self) -> (r: Vec<String>)
        ensures
            texts(r@) == complaints(component_views(self.components@)),
    {
        let ghost all = component_views(self.components@);
        let ghost f = |c: ComponentView|
            if c.ok {
                None
            } else {
                Some(c.complaint())
            };
        let mut out: Vec<String> = Vec::new();
        let mut i: usize = 0;
        assert(texts(out@) =~= all.take(0).filter_map(f)) by {
            reveal(Seq::filter_map);
        }
        while i < self.components.len()
            invariant
                0 <= i <= self.components@.len(),
                all == component_views(self.components@),
                f == (|c: ComponentView|
                    if c.ok {
                        None
                    } else {
                        Some(c.complaint())
                    }),
                texts(out@) == all.take(i as int).filter_map(f),
            decreases self.components@.len() - i,
        {
            proof {
                seqs::lemma_filter_map_step(all, f, i as int);
            }
            let c = &self.components[i];
            assert(all[i as int] == c@);
            if !c.ok {
                let mut what: String = c.name.to_owned();
                if let Some(d) = &c.detail {
                    what.append(": ");
                    what.append(d.as_str());
                }
                let ghost before = out@;
                let ghost said = what@;
                out.push(what);
                assert(texts(out@) =~= texts(before).push(said));
            }
            i = i + 1;
        }
        assert(all.take(all.len() as int) == all);
        out
    }
}

/// What was found out about a Linux host. Anything that could not be positively
/// confirmed is `false`.
#[derive(Debug, Clone)]
pub struct Host {
    /// An unprivileged user namespace can be made.
    pub userns: bool,
    /// A network namespace can be made inside it.
    pub netns: bool,
    /// The `nft` binary is there.
    pub nft: bool,
    /// The kernel hands out seccomp listeners.
    pub notify: bool,
    /// The version of the Landlock interface, if there is one.
    pub landlock_abi: Option<u32>,
    pub seccomp: bool,
    /// A delegated cgroup is there, and if not, why.
    pub cgroup: bool,
    pub cgroup_detail: Option<String>,
}

/// A component's status: what is wrong is said only where something is.
pub open spec fn component(name: Seq<char>, ok: bool, detail: Seq<char>) -> ComponentView {
    ComponentView {
        name,
        ok,
        detail: if ok {
            None
        } else {
            Some(detail)
        },
    }
}

fn status(name: &'static str, ok: bool, detail: &str) -> (r: ComponentStatus)
    ensures
        r@ == component(name@, ok, detail@),
{
    ComponentStatus {
        name,
        ok,
        detail: if ok {
            None
        } else {
            Some(detail.to_owned())
        },
    }
}

/// The components of the Linux stack on this host.
pub open spec fn linux_components(host: Host) -> Seq<ComponentView> {
    seq![
        component(
            "user-namespace"@,
            host.userns,
            "unprivileged userns unavailable (AppArmor/WSL2)"@,
        ),
        component("network-namespace"@, host.userns && host.netns, "cannot unshare NEWNET"@),
        component("nftables"@, host.nft, "`nft` binary not found on PATH"@),
        component(
            "seccomp-user-notif"@,
            host.notify,
            "kernel lacks SECCOMP_FILTER_FLAG_NEW_LISTENER"@,
        ),
        component("landlock"@, host.landlock_abi is Some, "Landlock LSM unavailable"@),
        component("seccomp-bpf"@, host.seccomp, "seccomp-bpf unavailable"@),
        component(
            "cgroup-v2-delegation"@,
            host.cgroup,
            match host.cgroup_detail {
                Some(d) => d@,
                None => "no delegated cgroup"@,
            },
        ),
        component("no-new-privs+cap-drop"@, true, ""@),
    ]
}

fn concluded(components: Vec<ComponentStatus>) -> (r: SupervisorCaps)
    ensures
        r.components == components,
        r.wf(),
{
    let ghost all = component_views(components@);
    let mut usable: bool = true;
    let mut i: usize = 0;
    while i < components.len()
        invariant
            0 <= i <= components@.len(),
            all == component_views(components@),
            usable == all_ok(all.take(i as int)),
        decreases components@.len() - i,
    {
        assert(all[i as int] == components@[i as int]@);
        assert(all_ok(all.take(i + 1)) == (all_ok(all.take(i as int)) && all[i as int].ok)) by {
            assert forall|j: int| 0 <= j < i && all_ok(all.take(i + 1)) implies (#[trigger] all.take(
                i as int,
            )[j]).ok by {
                assert(all.take(i + 1)[j].ok);
            }
            if all_ok(all.take(i + 1)) {
                assert(all.take(i + 1)[i as int].ok);
            }
            assert forall|j: int|
                0 <= j < i + 1 && all_ok(all.take(i as int)) && all[i as int].ok implies (
            #[trigger] all.take(i + 1)[j]).ok by {
                if j < i {
                    assert(all.take(i as int)[j].ok);
                }
            }
        }
        usable = usable && components[i].ok;
        i = i + 1;
    }
    assert(all.take(all.len() as int) == all);
    SupervisorCaps { usable, components }
}

/// Probe every component of the supervised stack, from what was found out about
/// the host.
pub fn probe(host: &Host) -> (r: SupervisorCaps)
    ensures
        r.wf(),
        component_views(r.components@) == linux_components(*host),
{
    let mut list: Vec<ComponentStatus> = Vec::new();
    list.push(
        status("user-namespace", host.userns, "unprivileged userns unavailable (AppArmor/WSL2)"),
    );
    list.push(status("network-namespace", host.userns && host.netns, "cannot unshare NEWNET"));
    list.push(status("nftables", host.nft, "`nft` binary not found on PATH"));
    list.push(
        status(
            "seccomp-user-notif",
            host.notify,
            "kernel lacks SECCOMP_FILTER_FLAG_NEW_LISTENER",
        ),
    );
    list.push(status("landlock", host.landlock_abi.is_some(), "Landlock LSM unavailable"));
    list.push(status("seccomp-bpf", host.seccomp, "seccomp-bpf unavailable"));
    list.push(
        status(
            "cgroup-v2-delegation",
            host.cgroup,
            match &host.cgroup_detail {
                Some(d) => d.as_str(),
                None => "no delegated cgroup",
            },
        ),
    );
    // Always achievable on Linux.
    list.push(status("no-new-privs+cap-drop", true, ""));
    assert(component_views(list@) =~= linux_components(*host));
    concluded(list)
}

/// What was found out about a macOS host.
#[derive(Debug, Clone)]
pub struct MacHost {
    /// Seatbelt can confine a process, and what is said of it.
    pub seatbelt: bool,
    pub seatbelt_detail: Option<String>,
    /// Why no port could be bound on loopback, if none could.
    pub loopback_error: Option<String>,
}

/// The components of the macOS stack on this host.
pub open spec fn mac_components(host: MacHost) -> Seq<ComponentView> {
    seq![
        ComponentView {
            name: "seatbelt"@,
            ok: host.seatbelt,
            detail: text::maybe(host.seatbelt_detail),
        },
        ComponentView {
            name: "loopback-egress-proxy"@,
            ok: host.loopback_error is None,
            detail: match host.loopback_error {
                Some(e) => Some("cannot bind 127.0.0.1 for the allowlist proxy: "@ + e@),
                None => None,
            },
        },
        component(
            "seatbelt-network-gate"@,
            host.seatbelt,
            "needs Seatbelt to pin the box to the proxy port"@,
        ),
        ComponentView {
            name: "syscall-filter"@,
            ok: true,
            detail: Some(
                "not applicable on macOS: Darwin has no seccomp; containment here is Seatbelt's filesystem/network policy"@,
            ),
        },
    ]
}

/// Probe the macOS stack, from what was found out about the host.
///
/// The syscall filter is stated, never silently taken for granted: this tier
/// does not filter syscalls there, and does not claim to.
pub fn probe_macos(host: &MacHost) -> (r: SupervisorCaps)
    ensures
        r.wf(),
        component_views(r.components@) == mac_components(*host),
{
    let mut list: Vec<ComponentStatus> = Vec::new();
    list.push(
        ComponentStatus {
            name: "seatbelt",
            ok: host.seatbelt,
            detail: text::copy_maybe(&host.seatbelt_detail),
        },
    );
    list.push(
        ComponentStatus {
            name: "loopback-egress-proxy",
            ok: host.loopback_error.is_none(),
            detail: match &host.loopback_error {
                Some(e) => {
                    let mut said: String = "cannot bind 127.0.0.1 for the allowlist proxy: ".to_owned();
                    said.append(e.as_str());
                    Some(said)
                },
                None => None,
            },
        },
    );
    list.push(
        status(
            "seatbelt-network-gate",
            host.seatbelt,
            "needs Seatbelt to pin the box to the proxy port",
        ),
    );
    list.push(
        ComponentStatus {
            name: "syscall-filter",
            ok: true,
            detail: Some(
                "not applicable on macOS: Darwin has no seccomp; containment here is Seatbelt's filesystem/network policy".to_owned(),
            ),
        },
    );
    assert(component_views(list@) =~= mac_components(*host));
    concluded(list)
}

/// A platform that has no such stack.
pub fn probe_elsewhere() -> (r: SupervisorCaps)
    ensures
        r.wf(),
        component_views(r.components@) == seq![
            component("platform"@, false, "isolation=supervised needs Linux or macOS"@),
        ],
{
    let mut list: Vec<ComponentStatus> = Vec::new();
    list.push(status("platform", false, "isolation=supervised needs Linux or macOS"));
    assert(component_views(list@) =~= seq![
        component("platform"@, false, "isolation=supervised needs Linux or macOS"@),
    ]);
    concluded(list)
}

/// A claim that cannot be used says what is missing, and one that can is
/// missing nothing.
pub proof fn law_a_refusal_is_explained(caps: SupervisorCaps)
    requires
        caps.wf(),
    ensures
        caps.usable <==> complaints(component_views(caps.components@)).len() == 0,
{
    lemma_complaints(component_views(caps.components@));
}

proof fn lemma_complaints(list: Seq<ComponentView>)
    ensures
        all_ok(list) <==> complaints(list).len() == 0,
    decreases list.len(),
{
    let f = |c: ComponentView|
        if c.ok {
            None
        } else {
            Some(c.complaint())
        };
    reveal(Seq::filter_map);
    if list.len() > 0 {
        let front = list.drop_last();
        lemma_complaints(front);
        seqs::lemma_filter_map_step(list, f, list.len() - 1);
        assert(list.take(list.len() as int) == list);
        assert(list.take(list.len() - 1) == front);
        if all_ok(list) {
            assert forall|i: int| 0 <= i < front.len() implies (#[trigger] front[i]).ok by {
                assert(list[i].ok);
            }
            assert(list.last().ok);
        }
        if all_ok(front) && list.last().ok {
            assert forall|i: int| 0 <= i < list.len() implies (#[trigger] list[i]).ok by {
                if i < front.len() {
                    assert(front[i].ok);
                }
            }
        }
    }
}

/// What the supervisor does with an intercepted syscall.
#[derive(Debug, Clone, Copy, PartialEq, Eq, Structural)]
pub enum Decision {
    /// Let the kernel run the original syscall unmediated: the real guard is
    /// the enforcement layer, and the packet still meets it.
    Continue,
    /// Refuse with this error number.
    Deny(i32),
}

pub const AF_UNIX: i32 = 1;

pub const AF_INET: i32 = 2;

pub const AF_INET6: i32 = 10;

pub const SOCK_STREAM: i32 = 1;

pub const SOCK_DGRAM: i32 = 2;

pub const IPPROTO_TCP: i32 = 6;

pub const IPPROTO_UDP: i32 = 17;

/// The error number of an operation that is not permitted.
pub const NOT_PERMITTED: i32 = 1;

/// `libc::EPERM`, the error number of an operation that is not permitted, which
/// is 1.
#[verifier::external_body]
fn eperm() -> (r: i32)
    ensures
        r == NOT_PERMITTED,
{
    libc::EPERM
}

/// An ordinary internet socket: TCP or UDP, over IPv4 or IPv6, named as such or
/// left to the kernel's choice for its type.
pub open spec fn is_boring(domain: i32, sock_type: i32, protocol: i32) -> bool {
    let base_type = sock_type & 0xf;
    &&& (domain == AF_INET || domain == AF_INET6)
    &&& {
        ||| base_type == SOCK_STREAM && (protocol == 0 || protocol == IPPROTO_TCP)
        ||| base_type == SOCK_DGRAM && (protocol == 0 || protocol == IPPROTO_UDP)
    }
}

/// What is done about a socket.
pub open spec fn socket_verdict(
    domain: i32,
    sock_type: i32,
    protocol: i32,
    unix_granted: bool,
) -> Decision {
    if (domain == AF_UNIX && unix_granted) || is_boring(domain, sock_type, protocol) {
        Decision::Continue
    } else {
        Decision::Deny(NOT_PERMITTED)
    }
}

/// Coarse *default-deny* gate on `socket(domain, type, protocol)`: only a
/// "boring" inet TCP/UDP socket, or an explicitly granted `AF_UNIX`, is allowed
/// to continue. Everything else is denied, and any *unknown* family, type or
/// protocol with it.
pub fn decide_socket(domain: i32, sock_type: i32, protocol: i32, unix_granted: bool) -> (r:
    Decision)
    ensures
        r == socket_verdict(domain, sock_type, protocol, unix_granted),
{
    // Strip SOCK_NONBLOCK/SOCK_CLOEXEC to get the base type.
    let base_type: i32 = sock_type & 0xf;
    // AF_UNIX only by explicit grant (SCM_RIGHTS authority passing).
    if domain == AF_UNIX {
        return if unix_granted {
            Decision::Continue
        } else {
            Decision::Deny(eperm())
        };
    }
    // The one allowed shape: inet TCP or UDP. An unknown protocol is neither.
    let tcp: bool = base_type == SOCK_STREAM && (protocol == 0 || protocol == IPPROTO_TCP);
    let udp: bool = base_type == SOCK_DGRAM && (protocol == 0 || protocol == IPPROTO_UDP);
    let boring_inet: bool = (domain == AF_INET || domain == AF_INET6) && (tcp || udp);
    if boring_inet {
        Decision::Continue
    } else {
        Decision::Deny(eperm())
    }
}

/// What is done about a pair of sockets.
pub open spec fn pair_verdict(
    domain: i32,
    sock_type: i32,
    protocol: i32,
    unix_granted: bool,
) -> Decision {
    if domain == AF_UNIX {
        Decision::Continue
    } else {
        socket_verdict(domain, sock_type, protocol, unix_granted)
    }
}

/// Gate on `socketpair(domain, type, protocol)`. An `AF_UNIX` pair has no
/// address, cannot connect anywhere, and both ends are born inside the sandbox;
/// most runtimes make one at startup. Every other shape falls through to the
/// default-deny gate.
pub fn decide_socketpair(domain: i32, sock_type: i32, protocol: i32, unix_granted: bool) -> (r:
    Decision)
    ensures
        r == pair_verdict(domain, sock_type, protocol, unix_granted),
{
    if domain == AF_UNIX {
        return Decision::Continue;
    }
    decide_socket(domain, sock_type, protocol, unix_granted)
}

/// The other way round: an ordinary program gets its sockets. TCP
/// and UDP sockets, over IPv4 (2) and IPv6 (10), whether the protocol is named
/// (6, 17) or left to the kernel, and whatever flags come with the type, continue;
/// so do unix sockets (1) that were granted. Everything else is answered with
/// error 1.
pub proof fn law_an_ordinary_socket_is_let_through(
    domain: i32,
    sock_type: i32,
    protocol: i32,
    unix_granted: bool,
)
    ensures
        socket_verdict(domain, sock_type, protocol, unix_granted) == (if (domain == 1
            && unix_granted) || ((domain == 2 || domain == 10) && ((sock_type & 0xf == 1 && (protocol
            == 0 || protocol == 6)) || (sock_type & 0xf == 2 && (protocol == 0 || protocol
            == 17)))) {
            Decision::Continue
        } else {
            Decision::Deny(1)
        }),
        pair_verdict(domain, sock_type, protocol, unix_granted) == (if domain == 1 {
            Decision::Continue
        } else {
            socket_verdict(domain, sock_type, protocol, unix_granted)
        }),
        forall|flags: i32|
            (flags & 0xf) == 0 ==> socket_verdict(
                domain,
                sock_type | #[trigger] (flags & !0xf),
                protocol,
                unix_granted,
            ) == socket_verdict(domain, sock_type, protocol, unix_granted),
{
    assert forall|flags: i32| (flags & 0xf) == 0 implies socket_verdict(
        domain,
        sock_type | #[trigger] (flags & !0xf),
        protocol,
        unix_granted,
    ) == socket_verdict(domain, sock_type, protocol, unix_granted) by {
        assert((sock_type | (flags & !0xfi32)) & 0xfi32 == sock_type & 0xfi32) by (bit_vector);
    }
}

/// Nothing but an ordinary internet socket, or a unix one that was granted, is
/// ever let through: not raw, not packet, not an unknown family, type or
/// protocol.
pub proof fn law_the_socket_gate_is_default_deny(
    domain: i32,
    sock_type: i32,
    protocol: i32,
    unix_granted: bool,
)
    requires
        socket_verdict(domain, sock_type, protocol, unix_granted) == Decision::Continue,
    ensures
        domain == AF_UNIX || domain == AF_INET || domain == AF_INET6,
        domain == AF_UNIX ==> unix_granted,
        domain != AF_UNIX ==> sock_type & 0xf == SOCK_STREAM || sock_type & 0xf == SOCK_DGRAM,
        domain != AF_UNIX ==> protocol == 0 || protocol == (if sock_type & 0xf == SOCK_STREAM {
            IPPROTO_TCP
        } else {
            IPPROTO_UDP
        }),
{
}

/// The contents of strings, with this between them.
pub open spec fn joined(list: Seq<Seq<char>>, between: Seq<char>) -> Seq<char>
    decreases list.len(),
{
    if list.len() == 0 {
        Seq::empty()
    } else if list.len() == 1 {
        list[0]
    } else {
        joined(list.drop_last(), between) + between + list.last()
    }
}

fn join_texts(list: &Vec<String>, between: &str) -> (r: String)
    ensures
        r@ == joined(texts(list@), between@),
{
    let ghost all = texts(list@);
    let mut out: String = String::new();
    let mut i: usize = 0;
    while i < list.len()
        invariant
            0 <= i <= list@.len(),
            all == texts(list@),
            out@ == joined(all.take(i as int), between@),
        decreases list@.len() - i,
    {
        assert(all.take(i + 1).drop_last() == all.take(i as int));
        if i > 0 {
            out.append(between);
            out.append(list[i].as_str());
        } else {
            out = list[i].clone();
        }
        i = i + 1;
    }
    assert(all.take(all.len() as int) == all);
    out
}

/// Why a run is not admitted: the stack is not complete, or there is no uplink
/// for what the run may reach.
pub open spec fn admission_refusal(
    caps: SupervisorCaps,
    wants_egress: bool,
    has_uplink: bool,
) -> Option<Seq<char>> {
    if !caps.usable {
        Some(
            "isolation=supervised cannot run — the mediation stack is not fully present (fail-closed). Missing: "@
                + joined(complaints(component_views(caps.components@)), ", "@) + "."@,
        )
    } else if wants_egress && !has_uplink {
        Some(
            "isolation=supervised net.egress requires `slirp4netns` on PATH (it provides the network-namespace uplink) — install it, or drop net.egress for an airtight net.mode=deny run (fail-closed)."@,
        )
    } else {
        None
    }
}

/// The egress uplink: a run that may reach something needs one.
pub fn egress_preflight(wants_egress: bool, has_uplink: bool) -> (r: Result<(), String>)
    ensures
        r is Err <==> wants_egress && !has_uplink,
        r matches Err(why) ==> why@
            == "isolation=supervised net.egress requires `slirp4netns` on PATH (it provides the network-namespace uplink) — install it, or drop net.egress for an airtight net.mode=deny run (fail-closed)."@,
{
    if wants_egress && !has_uplink {
        return Err(
            "isolation=supervised net.egress requires `slirp4netns` on PATH (it provides the network-namespace uplink) — install it, or drop net.egress for an airtight net.mode=deny run (fail-closed).".to_owned(),
        );
    }
    Ok(())
}

/// Shared fail-closed admission for both supervised entry points: the full
/// mediation stack must be there, and, when the run may reach something, its
/// uplink as well.
pub fn preflight(caps: &SupervisorCaps, wants_egress: bool, has_uplink: bool) -> (r: Result<
    (),
    String,
>)
    ensures
        match r {
            Ok(_) => admission_refusal(*caps, wants_egress, has_uplink) is None,
            Err(why) => admission_refusal(*caps, wants_egress, has_uplink) == Some(why@),
        },
{
    if !caps.usable {
        let missing = caps.missing();
        let mut why: String =
            "isolation=supervised cannot run — the mediation stack is not fully present (fail-closed). Missing: ".to_owned();
        why.append(join_texts(&missing, ", ").as_str());
        why.append(".");
        return Err(why);
    }
    egress_preflight(wants_egress, has_uplink)
}

/// What a run's network guard let through and what it did not.
#[derive(Debug, Clone, PartialEq, Eq)]
pub struct EgressSummary {
    pub allowed: u64,
    pub denied: u64,
    /// The hosts that were asked for, where the guard sees names.
    pub hosts: Vec<String>,
    /// There were more hosts than are listed.
    pub hosts_truncated: bool,
    /// Where the guard's log is, if it keeps one.
    pub log: Option<String>,
}

/// What an [`EgressSummary`] says.
pub struct EgressView {
    pub allowed: u64,
    pub denied: u64,
    pub hosts: Seq<Seq<char>>,
    pub hosts_truncated: bool,
    pub log: Option<Seq<char>>,
}

impl View for EgressSummary {
    type V = EgressView;

    open spec fn view(&self) -> EgressView {
        EgressView {
            allowed: self.allowed,
            denied: self.denied,
            hosts: texts(self.hosts@),
            hosts_truncated: self.hosts_truncated,
            log: text::maybe(self.log),
        }
    }
}

/// What an optional [`EgressSummary`] says.
pub open spec fn summary_view(summary: Option<EgressSummary>) -> Option<EgressView> {
    match summary {
        Some(s) => Some(s@),
        None => None,
    }
}

/// What a run came to.
#[derive(Debug, Clone)]
pub struct ExecOutcome {
    pub stdout: Vec<u8>,
    pub stderr: Vec<u8>,
    pub exit_code: Option<i32>,
    pub timed_out: bool,
    pub wall_ms: u128,
    pub cpu_ms: u128,
    pub max_rss_kb: Option<i64>,
    pub egress: Option<EgressSummary>,
}

/// What an [`ExecOutcome`] says.
pub struct OutcomeView {
    pub stdout: Seq<u8>,
    pub stderr: Seq<u8>,
    pub exit_code: Option<i32>,
    pub timed_out: bool,
    pub wall_ms: u128,
    pub cpu_ms: u128,
    pub max_rss_kb: Option<i64>,
    pub egress: Option<EgressView>,
}

impl View for ExecOutcome {
    type V = OutcomeView;

    open spec fn view(&self) -> OutcomeView {
        OutcomeView {
            stdout: self.stdout@,
            stderr: self.stderr@,
            exit_code: self.exit_code,
            timed_out: self.timed_out,
            wall_ms: self.wall_ms,
            cpu_ms: self.cpu_ms,
            max_rss_kb: self.max_rss_kb,
            egress: summary_view(self.egress),
        }
    }
}

impl OutcomeView {
    /// Nothing of the run's output was captured.
    pub open spec fn captured_nothing(self) -> bool {
        self.stdout.len() == 0 && self.stderr.len() == 0
    }

    /// The outcome of an interactive session, whose output was the terminal's
    /// from the start.
    pub open spec fn uncaptured(self) -> OutcomeView {
        OutcomeView { stdout: Seq::empty(), stderr: Seq::empty(), ..self }
    }
}

/// Run a command under the supervised tier: admitted or refused first
/// (fail-closed), then executed by `execute`.
pub fn run<F: FnOnce() -> Result<ExecOutcome, String>>(
    caps: &SupervisorCaps,
    wants_egress: bool,
    has_uplink: bool,
    execute: F,
) -> (r: Result<ExecOutcome, String>)
    requires
        admission_refusal(*caps, wants_egress, has_uplink) is None ==> call_requires(execute, ()),
    ensures
        match admission_refusal(*caps, wants_egress, has_uplink) {
            Some(why) => r matches Err(e) && e@ == why,
            None => call_ensures(execute, (), r),
        },
{
    match preflight(caps, wants_egress, has_uplink) {
        Ok(_) => execute(),
        Err(why) => Err(why),
    }
}

/// The exit code of a session that has none of its own: it was interrupted.
pub const INTERRUPTED: i32 = 130;

/// The interactive path at the supervised tier: an interactive confined
/// session, returning the child's exit code. The same fail-closed gating as
/// [`run`].
pub fn run_interactive<F: FnOnce() -> Result<ExecOutcome, String>>(
    caps: &SupervisorCaps,
    wants_egress: bool,
    has_uplink: bool,
    execute: F,
) -> (r: Result<i32, String>)
    requires
        admission_refusal(*caps, wants_egress, has_uplink) is None ==> call_requires(execute, ()),
    ensures
        match admission_refusal(*caps, wants_egress, has_uplink) {
            Some(why) => r matches Err(e) && e@ == why,
            None => exists|done: Result<ExecOutcome, String>|
                #![trigger call_ensures(execute, (), done)]
                call_ensures(execute, (), done) && match done {
                    Ok(outcome) => r == Ok::<i32, String>(
                        match outcome.exit_code {
                            Some(code) => code,
                            None => INTERRUPTED,
                        },
                    ),
                    Err(e) => r == Err::<i32, String>(e),
                },
        },
{
    match preflight(caps, wants_egress, has_uplink) {
        Ok(_) => {
            let done = execute();
            match done {
                Ok(outcome) => Ok(
                    match outcome.exit_code {
                        Some(code) => code,
                        None => INTERRUPTED,
                    },
                ),
                Err(e) => Err(e),
            }
        },
        Err(why) => Err(why),
    }
}

/// What a run's own cgroup counted.
#[derive(Debug, Clone, Copy, PartialEq, Eq, Structural)]
pub struct Usage {
    pub mem_peak_bytes: Option<u64>,
    pub cpu_usec: Option<u64>,
}

/// What a run came to, put together.
pub open spec fn accounted(
    waited: OutcomeView,
    interactive: bool,
    usage: Option<Usage>,
    allowed: u64,
    denied: u64,
) -> OutcomeView {
    let kept = if interactive {
        waited.uncaptured()
    } else {
        waited
    };
    OutcomeView {
        cpu_ms: match usage {
            Some(Usage { cpu_usec: Some(usec), .. }) => (usec / 1000) as u128,
            _ => waited.cpu_ms,
        },
        max_rss_kb: match usage {
            Some(Usage { mem_peak_bytes: Some(bytes), .. }) => Some((bytes / 1024) as i64),
            _ => waited.max_rss_kb,
        },
        egress: Some(
            EgressView {
                allowed,
                denied,
                hosts: Seq::empty(),
                hosts_truncated: false,
                log: None,
            },
        ),
        ..kept
    }
}

/// Put together what a run came to: the cgroup's own accounting is preferred
/// where it is there, and the verdicts of the socket gate are the run's
/// network evidence. The output of an interactive session is its terminal's,
/// and none of it is handed on.
pub fn account(
    waited: ExecOutcome,
    interactive: bool,
    usage: Option<Usage>,
    allowed: u64,
    denied: u64,
) -> (r: ExecOutcome)
    ensures
        r@ == accounted(waited@, interactive, usage, allowed, denied),
{
    let mut outcome = waited;
    if interactive {
        outcome.stdout = Vec::new();
        outcome.stderr = Vec::new();
    }
    if let Some(u) = usage {
        if let Some(bytes) = u.mem_peak_bytes {
            outcome.max_rss_kb = Some((bytes / 1024) as i64);
        }
        if let Some(usec) = u.cpu_usec {
            outcome.cpu_ms = (usec / 1000) as u128;
        }
    }
    let hosts: Vec<String> = Vec::new();
    assert(texts(hosts@) == Seq::<Seq<char>>::empty());
    outcome.egress = Some(
        EgressSummary { allowed, denied, hosts, hosts_truncated: false, log: None },
    );
    proof {
        let want = accounted(waited@, interactive, usage, allowed, denied);
        assert(outcome@.stdout =~= want.stdout);
        assert(outcome@.stderr =~= want.stderr);
    }
    outcome
}

/// The wall-clock limit of a run: an interactive session has none, being
/// bounded by the operator and not by a timer.
pub fn deadline(interactive: bool, wall_seconds: u64) -> (r: Option<u64>)
    ensures
        r == (if interactive {
            None
        } else {
            Some(wall_seconds)
        }),
{
    if interactive {
        None
    } else {
        Some(wall_seconds)
    }
}

/// The agent that a box runs, by where it keeps its credential.
#[derive(Debug, Clone)]
pub struct AgentRuntime {
    /// Its directory in a home.
    pub directory: String,
    /// The file in that directory.
    pub credential: String,
}

impl AgentRuntime {
    /// The agent whose home is `.codex`.
    pub fn codex() -> (r: AgentRuntime)
        ensures
            r.directory@ == ".codex"@,
            r.credential@ == "auth.json"@,
    {
        AgentRuntime { directory: ".codex".to_owned(), credential: "auth.json".to_owned() }
    }

    /// An agent that keeps its credential in `.credentials.json`, in this
    /// directory.
    pub fn with_credentials_in(directory: &str) -> (r: AgentRuntime)
        ensures
            r.directory@ == directory@,
            r.credential@ == ".credentials.json"@,
    {
        AgentRuntime {
            directory: directory.to_owned(),
            credential: ".credentials.json".to_owned(),
        }
    }
}

/// A directory of a box's own that stands in for one of the home directory.
#[derive(Debug, Clone)]
pub struct HomeBind {
    pub backing: String,
    pub target: String,
}

/// The parts of a path, without those that lead nowhere.
pub open spec fn path_parts(path: Seq<char>) -> Seq<Seq<char>> {
    seqs::split(path, '/').filter(|p: Seq<char>| p.len() > 0 && p != seq!['.'])
}

/// The last part of a path is this.
pub open spec fn is_named(path: Seq<char>, name: Seq<char>) -> bool {
    path_parts(path).len() > 0 && path_parts(path).last() == name
}

/// A file in a directory.
pub open spec fn in_directory(directory: Seq<char>, file: Seq<char>) -> Seq<char> {
    if directory.len() == 0 || directory.last() == '/' {
        directory + file
    } else {
        directory + "/"@ + file
    }
}

/// The credential files of a box's own copies.
pub open spec fn scrubbed(rt: AgentRuntime, binds: Seq<HomeBind>) -> Seq<Seq<char>>
    decreases binds.len(),
{
    if binds.len() == 0 {
        Seq::empty()
    } else {
        let front = scrubbed(rt, binds.drop_last());
        if is_named(binds.last().target@, rt.directory@) {
            front.push(in_directory(binds.last().backing@, rt.credential@))
        } else {
            front
        }
    }
}

fn named(path: &str, name: &str) -> (r: bool)
    ensures
        r == is_named(path@, name@),
{
    let chars = text::chars_of(path);
    let parts = seqs::split_at_each(chars.as_slice(), '/');
    let ghost all = seqs::split(path@, '/');
    let ghost keep = |p: Seq<char>| p.len() > 0 && p != seq!['.'];
    let mut i: usize = parts.len();
    assert(all.take(all.len() as int) == all);
    while i > 0
        invariant
            0 <= i <= parts@.len(),
            all == seqs::views(parts@),
            all == seqs::split(path@, '/'),
            keep == (|p: Seq<char>| p.len() > 0 && p != seq!['.']),
            path_parts(path@) == all.take(i as int).filter(keep),
        decreases i,
    {
        let part = parts[i - 1];
        assert(all[i - 1] == part@);
        proof {
            seqs::lemma_filter_step(all, keep, i - 1);
        }
        assert((part@ == seq!['.']) == (part@.len() == 1 && part@[0] == '.')) by {
            if part@.len() == 1 && part@[0] == '.' {
                assert(part@ =~= seq!['.']);
            }
        }
        if part.len() > 0 && !(part.len() == 1 && part[0] == '.') {
            return text::is_text(part, name);
        }
        i = i - 1;
    }
    assert(all.take(0) =~= Seq::empty());
    assert(path_parts(path@).len() == 0) by {
        reveal(Seq::filter);
    }
    false
}

/// The credential files to remove from the box's own copies of the home
/// directory. A bind is matched by the name of its *target*; the path is under
/// the box's own `backing`, never the real home.
pub fn cred_scrub_paths(rt: &AgentRuntime, home_binds: &Vec<HomeBind>) -> (r: Vec<String>)
    ensures
        texts(r@) == scrubbed(*rt, home_binds@),
{
    let mut out: Vec<String> = Vec::new();
    let mut i: usize = 0;
    assert(texts(out@) =~= Seq::empty());
    while i < home_binds.len()
        invariant
            0 <= i <= home_binds@.len(),
            texts(out@) == scrubbed(*rt, home_binds@.take(i as int)),
        decreases home_binds@.len() - i,
    {
        assert(home_binds@.take(i + 1).drop_last() == home_binds@.take(i as int));
        let b = &home_binds[i];
        if named(b.target.as_str(), rt.directory.as_str()) {
            let backing = text::chars_of(b.backing.as_str());
            let n: usize = backing.len();
            let mut path: String = b.backing.clone();
            if n > 0 && backing[n - 1] != '/' {
                path.append("/");
            }
            path.append(rt.credential.as_str());
            let ghost before = out@;
            let ghost what = path@;
            out.push(path);
            assert(texts(out@) =~= texts(before).push(what));
        }
        i = i + 1;
    }
    assert(home_binds@.take(home_binds@.len() as int) == home_binds@);
    out
}

/// Only a box's own copy is ever named, under a bind of that box.
pub proof fn law_only_a_backing_copy_is_scrubbed(rt: AgentRuntime, binds: Seq<HomeBind>, i: int)
    requires
        0 <= i < scrubbed(rt, binds).len(),
    ensures
        exists|k: int|
            0 <= k < binds.len() && is_named((#[trigger] binds[k]).target@, rt.directory@)
                && scrubbed(rt, binds)[i] == in_directory(
                binds[k].backing@,
                rt.credential@,
            ),
    decreases binds.len(),
{
    let front = binds.drop_last();
    if i < scrubbed(rt, front).len() {
        law_only_a_backing_copy_is_scrubbed(rt, front, i);
        let k = choose|k: int|
            0 <= k < front.len() && is_named((#[trigger] front[k]).target@, rt.directory@)
                && scrubbed(rt, front)[i] == in_directory(
                front[k].backing@,
                rt.credential@,
            );
        assert(binds[k] == front[k]);
    } else {
        assert(binds[binds.len() - 1] == binds.last());
    }
}

/// A directory by another spelling: the same parts, from the root.
pub open spec fn same_place(a: Seq<char>, b: Seq<char>) -> bool {
    a.len() > 0 && b.len() > 0 && a[0] == '/' && b[0] == '/' && path_parts(a) == path_parts(b)
}

/// The directories where network tools commonly live but a search path may omit
/// them.
pub open spec fn tool_dirs() -> Seq<Seq<char>> {
    seq!["/usr/sbin"@, "/sbin"@, "/usr/bin"@, "/bin"@]
}

/// A directory that is among these.
pub open spec fn is_among(list: Seq<Seq<char>>, dir: Seq<char>) -> bool {
    exists|i: int| 0 <= i < list.len() && same_place(#[trigger] list[i], dir)
}

/// A list with a directory behind it, unless it is there already.
pub open spec fn with_dir(list: Seq<Seq<char>>, dir: Seq<char>) -> Seq<Seq<char>> {
    if is_among(list, dir) {
        list
    } else {
        list.push(dir)
    }
}

fn parts_of(path: &[char]) -> (r: Vec<&[char]>)
    ensures
        seqs::views(r@) == path_parts(path@),
{
    let pieces = seqs::split_at_each(path, '/');
    let ghost all = seqs::split(path@, '/');
    let ghost keep = |p: Seq<char>| p.len() > 0 && p != seq!['.'];
    let mut out: Vec<&[char]> = Vec::new();
    let mut i: usize = 0;
    assert(seqs::views(out@) =~= all.take(0).filter(keep)) by {
        reveal(Seq::filter);
    }
    while i < pieces.len()
        invariant
            0 <= i <= pieces@.len(),
            all == seqs::views(pieces@),
            all == seqs::split(path@, '/'),
            keep == (|p: Seq<char>| p.len() > 0 && p != seq!['.']),
            seqs::views(out@) == all.take(i as int).filter(keep),
        decreases pieces@.len() - i,
    {
        let part = pieces[i];
        assert(all[i as int] == part@);
        proof {
            seqs::lemma_filter_step(all, keep, i as int);
        }
        assert((part@ == seq!['.']) == (part@.len() == 1 && part@[0] == '.')) by {
            if part@.len() == 1 && part@[0] == '.' {
                assert(part@ =~= seq!['.']);
            }
        }
        if part.len() > 0 && !(part.len() == 1 && part[0] == '.') {
            let ghost before = out@;
            out.push(part);
            assert(seqs::views(out@) =~= seqs::views(before).push(part@));
        }
        i = i + 1;
    }
    assert(all.take(all.len() as int) == all);
    out
}

fn is_same_place(a: &str, b: &str) -> (r: bool)
    ensures
        r == same_place(a@, b@),
{
    let first = text::chars_of(a);
    let second = text::chars_of(b);
    if first.len() == 0 || second.len() == 0 || first[0] != '/' || second[0] != '/' {
        return false;
    }
    let x = parts_of(first.as_slice());
    let y = parts_of(second.as_slice());
    let ghost xs = path_parts(a@);
    let ghost ys = path_parts(b@);
    assert(xs.len() == x@.len() && ys.len() == y@.len());
    if x.len() != y.len() {
        return false;
    }
    let mut i: usize = 0;
    while i < x.len()
        invariant
            0 <= i <= x@.len(),
            x@.len() == y@.len(),
            xs == seqs::views(x@),
            ys == seqs::views(y@),
            xs == path_parts(a@),
            ys == path_parts(b@),
            forall|j: int| 0 <= j < i ==> xs[j] == ys[j],
        decreases x@.len() - i,
    {
        assert(xs[i as int] == x@[i as int]@ && ys[i as int] == y@[i as int]@);
        if !seqs::same(x[i], y[i]) {
            return false;
        }
        i = i + 1;
    }
    assert(xs =~= ys);
    true
}

fn add_dir(dirs: &mut Vec<String>, dir: &str)
    ensures
        texts(final(dirs)@) == with_dir(texts(old(dirs)@), dir@),
{
    let ghost all = texts(dirs@);
    let mut i: usize = 0;
    while i < dirs.len()
        invariant
            0 <= i <= dirs@.len(),
            *dirs == *old(dirs),
            all == texts(dirs@),
            forall|j: int| 0 <= j < i ==> !same_place(#[trigger] all[j], dir@),
        decreases dirs@.len() - i,
    {
        assert(all[i as int] == dirs@[i as int]@);
        if is_same_place(dirs[i].as_str(), dir) {
            assert(is_among(all, dir@));
            return;
        }
        i = i + 1;
    }
    dirs.push(dir.to_owned());
    assert(texts(dirs@) =~= all.push(dir@));
}

/// Where an executable is looked for, in this order: the search path, and the
/// directories where network tools commonly live.
pub fn find_bin(path: Vec<String>) -> (r: Vec<String>)
    ensures
        texts(r@) == with_dir(
            with_dir(
                with_dir(with_dir(texts(path@), tool_dirs()[0]), tool_dirs()[1]),
                tool_dirs()[2],
            ),
            tool_dirs()[3],
        ),
{
    let mut dirs = path;
    add_dir(&mut dirs, "/usr/sbin");
    add_dir(&mut dirs, "/sbin");
    add_dir(&mut dirs, "/usr/bin");
    add_dir(&mut dirs, "/bin");
    dirs
}

/// Variables with their values.
pub open spec fn variables(list: Seq<(String, String)>) -> Seq<(Seq<char>, Seq<char>)> {
    list.map_values(|p: (String, String)| (p.0@, p.1@))
}

fn put_variable(env: &mut Vec<(String, String)>, name: &str, value: &str)
    ensures
        variables(final(env)@) == variables(old(env)@).push((name@, value@)),
{
    env.push((name.to_owned(), value.to_owned()));
    assert(variables(env@) =~= variables(old(env)@).push((name@, value@)));
}

/// Where the allowlist proxy is.
pub open spec fn proxy_url(host: Seq<char>, port: u16) -> Seq<char> {
    "http://"@ + host + ":"@ + text::decimal(port as nat)
}

/// The variables that point a box at its proxy, `own` being the name that
/// nothing else sets. The proxy itself is on loopback, which is not reached
/// through it.
pub open spec fn proxy_variables(host: Seq<char>, port: u16, own: Seq<char>) -> Seq<
    (Seq<char>, Seq<char>),
> {
    let url = proxy_url(host, port);
    seq![
        ("HTTP_PROXY"@, url),
        ("HTTPS_PROXY"@, url),
        ("http_proxy"@, url),
        ("https_proxy"@, url),
        ("ALL_PROXY"@, url),
        (own, url),
        ("NO_PROXY"@, "localhost,127.0.0.1"@),
        ("no_proxy"@, "localhost,127.0.0.1"@),
    ]
}

/// A box's environment, with its proxy in it.
pub fn proxied_env(env: Vec<(String, String)>, host: &str, port: u16, own: &str) -> (r: Vec<
    (String, String),
>)
    ensures
        variables(r@) == variables(env@) + proxy_variables(host@, port, own@),
{
    let ghost before = variables(env@);
    let mut env = env;
    let mut url: String = "http://".to_owned();
    url.append(host);
    url.append(":");
    text::push_decimal(&mut url, port as u64);
    let url = url.as_str();
    put_variable(&mut env, "HTTP_PROXY", url);
    put_variable(&mut env, "HTTPS_PROXY", url);
    put_variable(&mut env, "http_proxy", url);
    put_variable(&mut env, "https_proxy", url);
    put_variable(&mut env, "ALL_PROXY", url);
    put_variable(&mut env, own, url);
    put_variable(&mut env, "NO_PROXY", "localhost,127.0.0.1");
    put_variable(&mut env, "no_proxy", "localhost,127.0.0.1");
    assert(variables(env@) =~= before + proxy_variables(host@, port, own@));
    env
}

} // verus!
