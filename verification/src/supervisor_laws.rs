//! What holds of the supervised tier: what it lets through, what it demands of a
//! host, and what it hands to a box.
use vstd::prelude::*;
use vstd::string::*;

use crate::seqs;
use crate::supervisor::{
    self, AgentRuntime, ComponentStatus, ComponentView, Decision, ExecOutcome, HomeBind, Host,
    MacHost, SupervisorCaps, Usage,
};
use crate::text;

verus! {

/// An ordinary socket: TCP or UDP, over IPv4 or IPv6, with the protocol named or
/// left to the kernel, whatever flags stand above the type's four bits.
pub open spec fn is_ordinary(domain: i32, sock_type: i32, protocol: i32) -> bool {
    &&& domain == 2 || domain == 10
    &&& {
        ||| sock_type & 0xf == 1 && (protocol == 0 || protocol == 6)
        ||| sock_type & 0xf == 2 && (protocol == 0 || protocol == 17)
    }
}

/// A socket is let through exactly if it is an ordinary one, or a unix one that
/// was granted; every other is answered with error 1.
pub proof fn law_a_socket_is_let_through_or_not(
    domain: i32,
    sock_type: i32,
    protocol: i32,
    unix_granted: bool,
    r: Decision,
)
    requires
        call_ensures(supervisor::decide_socket, (domain, sock_type, protocol, unix_granted), r),
    ensures
        is_ordinary(domain, sock_type, protocol) ==> r == Decision::Continue,
        domain == 1 && unix_granted ==> r == Decision::Continue,
        !is_ordinary(domain, sock_type, protocol) && !(domain == 1 && unix_granted) ==> r
            == Decision::Deny(1),
{
}

/// The flags of a type, close-on-exec and non-blocking among them, decide
/// nothing.
pub proof fn law_the_flags_of_a_socket_decide_nothing(
    domain: i32,
    sock_type: i32,
    flags: i32,
    protocol: i32,
    unix_granted: bool,
    with: Decision,
    without: Decision,
)
    requires
        flags & 0xf == 0,
        call_ensures(
            supervisor::decide_socket,
            (domain, sock_type | flags, protocol, unix_granted),
            with,
        ),
        call_ensures(supervisor::decide_socket, (domain, sock_type, protocol, unix_granted), without),
    ensures
        with == without,
{
    assert((sock_type | flags) & 0xfi32 == sock_type & 0xfi32) by (bit_vector)
        requires
            flags & 0xfi32 == 0,
    ;
}

/// A pair of unix sockets is always let through, and any other pair as one such
/// socket is.
pub proof fn law_a_pair_of_sockets_is_let_through_or_not(
    domain: i32,
    sock_type: i32,
    protocol: i32,
    unix_granted: bool,
    r: Decision,
)
    requires
        call_ensures(supervisor::decide_socketpair, (domain, sock_type, protocol, unix_granted), r),
    ensures
        domain == 1 || is_ordinary(domain, sock_type, protocol) ==> r == Decision::Continue,
        domain != 1 && !is_ordinary(domain, sock_type, protocol) ==> r == Decision::Deny(1),
{
}

/// One component of a stack: its name, whether it is there, and what is said of
/// it.
pub open spec fn is_component(
    c: ComponentStatus,
    name: Seq<char>,
    ok: bool,
    detail: Option<Seq<char>>,
) -> bool {
    c.name@ == name && c.ok == ok && text::maybe(c.detail) == detail
}

/// What is said of a component that is missing, and nothing of one that is there.
pub open spec fn if_missing(ok: bool, detail: Seq<char>) -> Option<Seq<char>> {
    if ok {
        None
    } else {
        Some(detail)
    }
}

proof fn lemma_component(list: Seq<ComponentStatus>, i: int)
    requires
        0 <= i < list.len(),
    ensures
        supervisor::component_views(list)[i] == list[i]@,
        supervisor::component_views(list)[i].name == list[i].name@,
        supervisor::component_views(list)[i].ok == list[i].ok,
        supervisor::component_views(list)[i].detail == text::maybe(list[i].detail),
{
}

/// On Linux the stack can be used exactly where every part of it is there: the
/// namespaces, the packet filter, both kinds of system call filter, the file
/// system guard and the resource limits. Each part is reported under its own
/// name.
pub proof fn law_the_linux_stack_is_whole_or_refused(host: Host, r: SupervisorCaps)
    requires
        call_ensures(supervisor::probe, (&host,), r),
    ensures
        r.usable <==> host.userns && host.netns && host.nft && host.notify
            && host.landlock_abi is Some && host.seccomp && host.cgroup,
        r.components@.len() == 8,
        is_component(
            r.components@[0],
            "user-namespace"@,
            host.userns,
            if_missing(host.userns, "unprivileged userns unavailable (AppArmor/WSL2)"@),
        ),
        is_component(
            r.components@[1],
            "network-namespace"@,
            host.userns && host.netns,
            if_missing(host.userns && host.netns, "cannot unshare NEWNET"@),
        ),
        is_component(
            r.components@[2],
            "nftables"@,
            host.nft,
            if_missing(host.nft, "`nft` binary not found on PATH"@),
        ),
        is_component(
            r.components@[3],
            "seccomp-user-notif"@,
            host.notify,
            if_missing(host.notify, "kernel lacks SECCOMP_FILTER_FLAG_NEW_LISTENER"@),
        ),
        is_component(
            r.components@[4],
            "landlock"@,
            host.landlock_abi is Some,
            if_missing(host.landlock_abi is Some, "Landlock LSM unavailable"@),
        ),
        is_component(
            r.components@[5],
            "seccomp-bpf"@,
            host.seccomp,
            if_missing(host.seccomp, "seccomp-bpf unavailable"@),
        ),
        is_component(
            r.components@[6],
            "cgroup-v2-delegation"@,
            host.cgroup,
            if_missing(
                host.cgroup,
                if host.cgroup_detail is Some {
                    host.cgroup_detail->Some_0@
                } else {
                    "no delegated cgroup"@
                },
            ),
        ),
        is_component(r.components@[7], "no-new-privs+cap-drop"@, true, None),
{
    let list = r.components@;
    let views = supervisor::component_views(list);
    assert(views.len() == list.len());
    lemma_component(list, 0);
    lemma_component(list, 1);
    lemma_component(list, 2);
    lemma_component(list, 3);
    lemma_component(list, 4);
    lemma_component(list, 5);
    lemma_component(list, 6);
    lemma_component(list, 7);
    if supervisor::all_ok(views) {
        assert(views[0].ok && views[1].ok && views[2].ok && views[3].ok && views[4].ok
            && views[5].ok && views[6].ok && views[7].ok);
    }
}

/// On macOS it can be used exactly where Seatbelt can confine and a port of
/// loopback can be bound; that system calls are not filtered is said.
pub proof fn law_the_mac_stack_is_whole_or_refused(host: MacHost, r: SupervisorCaps)
    requires
        call_ensures(supervisor::probe_macos, (&host,), r),
    ensures
        r.usable <==> host.seatbelt && host.loopback_error is None,
        r.components@.len() == 4,
        is_component(
            r.components@[0],
            "seatbelt"@,
            host.seatbelt,
            text::maybe(host.seatbelt_detail),
        ),
        is_component(
            r.components@[1],
            "loopback-egress-proxy"@,
            host.loopback_error is None,
            if host.loopback_error is Some {
                Some(
                    "cannot bind 127.0.0.1 for the allowlist proxy: "@
                        + host.loopback_error->Some_0@,
                )
            } else {
                None
            },
        ),
        is_component(
            r.components@[2],
            "seatbelt-network-gate"@,
            host.seatbelt,
            if_missing(host.seatbelt, "needs Seatbelt to pin the box to the proxy port"@),
        ),
        r.components@[3].name@ == "syscall-filter"@,
        r.components@[3].ok,
        r.components@[3].detail is Some,
{
    let list = r.components@;
    let views = supervisor::component_views(list);
    assert(views.len() == list.len());
    lemma_component(list, 0);
    lemma_component(list, 1);
    lemma_component(list, 2);
    lemma_component(list, 3);
    if supervisor::all_ok(views) {
        assert(views[0].ok && views[1].ok && views[2].ok && views[3].ok);
    }
}

/// Anywhere else it cannot be used.
pub proof fn law_there_is_no_stack_elsewhere(r: SupervisorCaps)
    requires
        call_ensures(supervisor::probe_elsewhere, (), r),
    ensures
        !r.usable,
        r.components@.len() == 1,
        is_component(
            r.components@[0],
            "platform"@,
            false,
            Some("isolation=supervised needs Linux or macOS"@),
        ),
{
    let views = supervisor::component_views(r.components@);
    assert(views.len() == r.components@.len());
    lemma_component(r.components@, 0);
    assert(!views[0].ok);
}

/// What is missing is every component that is not there, in order, by its name
/// and what is said of it.
pub proof fn law_everything_missing_is_named(caps: SupervisorCaps, r: Vec<String>)
    requires
        call_ensures(SupervisorCaps::missing, (&caps,), r),
    ensures
        supervisor::texts(r@) == caps.components@.filter(|c: ComponentStatus| !c.ok).map_values(
            |c: ComponentStatus| lacking(c),
        ),
{
    lemma_missing(caps.components@);
}

/// A component that is not there, in words.
pub open spec fn lacking(c: ComponentStatus) -> Seq<char> {
    if c.detail is Some {
        c.name@ + ": "@ + c.detail->Some_0@
    } else {
        c.name@
    }
}

proof fn lemma_missing(list: Seq<ComponentStatus>)
    ensures
        supervisor::complaints(supervisor::component_views(list)) == list.filter(
            |c: ComponentStatus| !c.ok,
        ).map_values(|c: ComponentStatus| lacking(c)),
    decreases list.len(),
{
    let f = |c: ComponentView|
        if c.ok {
            None
        } else {
            Some(c.complaint())
        };
    let gone = |c: ComponentStatus| !c.ok;
    let say = |c: ComponentStatus| lacking(c);
    let views = supervisor::component_views(list);
    reveal(Seq::filter);
    reveal(Seq::filter_map);
    if list.len() == 0 {
        assert(views =~= Seq::empty());
        assert(list.filter(gone).map_values(say) =~= Seq::empty());
        assert(views.filter_map(f) =~= Seq::empty());
    } else {
        let front = list.drop_last();
        let c = list.last();
        lemma_missing(front);
        assert(views.drop_last() =~= supervisor::component_views(front));
        assert(views.last() == c@);
        if gone(c) {
            assert(list.filter(gone) == front.filter(gone).push(c));
            assert(list.filter(gone).map_values(say) =~= front.filter(gone).map_values(say).push(
                say(c),
            ));
            assert(c@.complaint() == lacking(c));
            assert(views.filter_map(f) =~= views.drop_last().filter_map(f).push(c@.complaint()));
        } else {
            assert(list.filter(gone) == front.filter(gone));
            assert(views.filter_map(f) =~= views.drop_last().filter_map(f));
        }
    }
}

/// A run is let in exactly if the stack is whole, and it has an uplink if it
/// wants to reach something.
pub proof fn law_a_run_is_let_in_only_by_a_whole_stack(
    caps: SupervisorCaps,
    wants_egress: bool,
    has_uplink: bool,
    r: Result<(), String>,
)
    requires
        call_ensures(supervisor::preflight, (&caps, wants_egress, has_uplink), r),
    ensures
        r is Ok <==> caps.usable && (wants_egress ==> has_uplink),
        r matches Err(why) ==> !caps.usable ==> why@
            == "isolation=supervised cannot run — the mediation stack is not fully present (fail-closed). Missing: "@
            + seqs::join(
            caps.components@.filter(|c: ComponentStatus| !c.ok).map_values(
                |c: ComponentStatus| lacking(c),
            ),
            ", "@,
        ) + "."@,
        r matches Err(why) ==> caps.usable ==> why@
            == "isolation=supervised net.egress requires `slirp4netns` on PATH (it provides the network-namespace uplink) — install it, or drop net.egress for an airtight net.mode=deny run (fail-closed)."@,
{
    lemma_missing(caps.components@);
    lemma_joined(
        supervisor::complaints(supervisor::component_views(caps.components@)),
        ", "@,
    );
}

proof fn lemma_joined(list: Seq<Seq<char>>, between: Seq<char>)
    ensures
        supervisor::joined(list, between) == seqs::join(list, between),
    decreases list.len(),
{
    if list.len() > 1 {
        lemma_joined(list.drop_last(), between);
    }
}

/// The uplink alone: only a run that wants to reach something needs one.
pub proof fn law_only_egress_needs_an_uplink(
    wants_egress: bool,
    has_uplink: bool,
    r: Result<(), String>,
)
    requires
        call_ensures(supervisor::egress_preflight, (wants_egress, has_uplink), r),
    ensures
        r is Ok <==> (wants_egress ==> has_uplink),
{
}

/// What a run that is let in comes to is what it came to, and one that is not
/// let in is an error whatever it would have come to.
pub proof fn law_a_refused_run_is_an_error<F: FnOnce() -> Result<ExecOutcome, String>>(
    caps: SupervisorCaps,
    wants_egress: bool,
    has_uplink: bool,
    execute: F,
    r: Result<ExecOutcome, String>,
)
    requires
        call_ensures(supervisor::run::<F>, (&caps, wants_egress, has_uplink, execute), r),
    ensures
        !caps.usable || (wants_egress && !has_uplink) ==> r is Err,
        caps.usable && (wants_egress ==> has_uplink) ==> call_ensures(execute, (), r),
{
}

/// An interactive run gives the code that its session ended with, 130 where it
/// has none, and is refused like any other.
pub proof fn law_an_interactive_run_gives_its_code<F: FnOnce() -> Result<ExecOutcome, String>>(
    caps: SupervisorCaps,
    wants_egress: bool,
    has_uplink: bool,
    execute: F,
    r: Result<i32, String>,
)
    requires
        call_ensures(
            supervisor::run_interactive::<F>,
            (&caps, wants_egress, has_uplink, execute),
            r,
        ),
    ensures
        !caps.usable || (wants_egress && !has_uplink) ==> r is Err,
        caps.usable && (wants_egress ==> has_uplink) ==> exists|done: Result<ExecOutcome, String>|
            #[trigger] call_ensures(execute, (), done) && match r {
                Ok(code) => done matches Ok(o) && (o.exit_code == Some(code) || (o.exit_code is None
                    && code == 130)),
                Err(e) => done == Err::<ExecOutcome, String>(e),
            },
{
    if caps.usable && (wants_egress ==> has_uplink) {
        let done = choose|done: Result<ExecOutcome, String>|
            #![trigger call_ensures(execute, (), done)]
            call_ensures(execute, (), done) && match done {
                Ok(outcome) => r == Ok::<i32, String>(
                    match outcome.exit_code {
                        Some(code) => code,
                        None => supervisor::INTERRUPTED,
                    },
                ),
                Err(e) => r == Err::<i32, String>(e),
            };
        assert(call_ensures(execute, (), done));
    }
}

/// What a run came to is what was waited for: only its output is left out where
/// it was a terminal's, its memory and its time are the group's where those were
/// counted, and the verdicts on its sockets are its account of the network.
pub proof fn law_a_run_comes_to_what_was_waited_for(
    waited: ExecOutcome,
    interactive: bool,
    usage: Option<Usage>,
    allowed: u64,
    denied: u64,
    r: ExecOutcome,
)
    requires
        call_ensures(supervisor::account, (waited, interactive, usage, allowed, denied), r),
    ensures
        r.exit_code == waited.exit_code,
        r.timed_out == waited.timed_out,
        r.wall_ms == waited.wall_ms,
        interactive ==> r.stdout@.len() == 0 && r.stderr@.len() == 0,
        !interactive ==> r.stdout@ == waited.stdout@ && r.stderr@ == waited.stderr@,
        usage is None ==> r.cpu_ms == waited.cpu_ms && r.max_rss_kb == waited.max_rss_kb,
        usage matches Some(u) ==> match u.cpu_usec {
            Some(usec) => r.cpu_ms * 1000 <= usec < r.cpu_ms * 1000 + 1000,
            None => r.cpu_ms == waited.cpu_ms,
        },
        usage matches Some(u) ==> match u.mem_peak_bytes {
            Some(bytes) => r.max_rss_kb matches Some(kb) && kb * 1024 <= bytes < kb * 1024 + 1024,
            None => r.max_rss_kb == waited.max_rss_kb,
        },
        r.egress matches Some(e) && e.allowed == allowed && e.denied == denied && e.hosts@.len()
            == 0 && !e.hosts_truncated && e.log is None,
{
    assert(r@.stdout == r.stdout@ && r@.stderr == r.stderr@);
    let e = r@.egress->Some_0;
    assert(e.hosts.len() == r.egress->Some_0.hosts@.len());
    assert(text::maybe(r.egress->Some_0.log) is None);
}

/// Only an interactive session has no time limit.
pub proof fn law_only_a_session_has_no_limit(interactive: bool, seconds: u64, r: Option<u64>)
    requires
        call_ensures(supervisor::deadline, (interactive, seconds), r),
    ensures
        r is None <==> interactive,
        r matches Some(n) ==> n == seconds,
{
}

/// The files to scrub are the credential in each copy of the agent's own
/// directory, one for each such copy, in order, and no other.
pub proof fn law_every_copy_of_the_credential_is_scrubbed(
    rt: AgentRuntime,
    binds: Vec<HomeBind>,
    r: Vec<String>,
)
    requires
        call_ensures(supervisor::cred_scrub_paths, (&rt, &binds), r),
    ensures
        supervisor::texts(r@) == binds@.filter(
            |b: HomeBind| supervisor::is_named(b.target@, rt.directory@),
        ).map_values(|b: HomeBind| file_under(b.backing@, rt.credential@)),
{
    lemma_scrubbed(rt, binds@);
}

/// A file under a directory: with one slash between them, unless the directory
/// brings it.
pub open spec fn file_under(directory: Seq<char>, file: Seq<char>) -> Seq<char> {
    if directory.len() > 0 && directory.last() != '/' {
        directory + seq!['/'] + file
    } else {
        directory + file
    }
}

proof fn lemma_scrubbed(rt: AgentRuntime, binds: Seq<HomeBind>)
    ensures
        supervisor::scrubbed(rt, binds) == binds.filter(
            |b: HomeBind| supervisor::is_named(b.target@, rt.directory@),
        ).map_values(|b: HomeBind| file_under(b.backing@, rt.credential@)),
    decreases binds.len(),
{
    let ours = |b: HomeBind| supervisor::is_named(b.target@, rt.directory@);
    let file = |b: HomeBind| file_under(b.backing@, rt.credential@);
    reveal(Seq::filter);
    if binds.len() == 0 {
        assert(binds.filter(ours).map_values(file) =~= Seq::empty());
    } else {
        let front = binds.drop_last();
        let b = binds.last();
        lemma_scrubbed(rt, front);
        reveal_strlit("/");
        assert("/"@ =~= seq!['/']);
        if ours(b) {
            assert(binds.filter(ours) == front.filter(ours).push(b));
            assert(binds.filter(ours).map_values(file) =~= front.filter(ours).map_values(
                file,
            ).push(file(b)));
        } else {
            assert(binds.filter(ours) == front.filter(ours));
        }
    }
}

/// A directory is told by its last part, whatever stands before it and however
/// many slashes stand behind it.
pub proof fn law_a_directory_is_told_by_its_last_part(before: Seq<char>, name: Seq<char>)
    requires
        name.len() > 0,
        name != seq!['.'],
        seqs::lacks(name, '/'),
    ensures
        supervisor::is_named(name, name),
        supervisor::is_named(before + seq!['/'] + name, name),
        supervisor::is_named(before + seq!['/'] + name + seq!['/'], name),
        forall|other: Seq<char>|
            other != name ==> !#[trigger] supervisor::is_named(before + seq!['/'] + name, other),
{
    let keep = |p: Seq<char>| p.len() > 0 && p != seq!['.'];
    let none = Seq::<char>::empty();
    let front = seqs::split(before, '/');
    seqs::lemma_split_whole(name, '/');
    seqs::lemma_split_whole(none, '/');
    seqs::lemma_split_at(before, '/', name);
    seqs::lemma_split_at(before + seq!['/'] + name, '/', none);
    assert(before + seq!['/'] + name + seq!['/'] + none =~= before + seq!['/'] + name + seq!['/']);
    assert(front + seq![name] =~= front.push(name));
    assert(front.push(name) + seq![none] =~= front.push(name).push(none));
    front.lemma_filter_push(name, keep);
    front.push(name).lemma_filter_push(none, keep);
    let empty = Seq::<Seq<char>>::empty();
    empty.lemma_filter_push(name, keep);
    assert(empty.push(name) =~= seq![name]);
}

/// Tools are looked for where the search path says, and then in the four places
/// where they commonly are, in order, each of them once.
pub proof fn law_the_search_path_comes_first(path: Vec<String>, r: Vec<String>)
    requires
        call_ensures(supervisor::find_bin, (path,), r),
    ensures
        supervisor::texts(path@).is_prefix_of(supervisor::texts(r@)),
        supervisor::is_among(supervisor::texts(r@), "/usr/sbin"@),
        supervisor::is_among(supervisor::texts(r@), "/sbin"@),
        supervisor::is_among(supervisor::texts(r@), "/usr/bin"@),
        supervisor::is_among(supervisor::texts(r@), "/bin"@),
        supervisor::texts(r@).skip(path@.len() as int) == seq![
            "/usr/sbin"@,
            "/sbin"@,
            "/usr/bin"@,
            "/bin"@,
        ].filter(|d: Seq<char>| !supervisor::is_among(supervisor::texts(path@), d)),
{
    let start = supervisor::texts(path@);
    let a = "/usr/sbin"@;
    let b = "/sbin"@;
    let c = "/usr/bin"@;
    let d = "/bin"@;
    let new = |d: Seq<char>| !supervisor::is_among(start, d);
    lemma_places();
    let s1 = supervisor::with_dir(start, a);
    let s2 = supervisor::with_dir(s1, b);
    let s3 = supervisor::with_dir(s2, c);
    let s4 = supervisor::with_dir(s3, d);
    let none = Seq::<Seq<char>>::empty();
    none.lemma_filter_push(a, new);
    none.push(a).lemma_filter_push(b, new);
    none.push(a).push(b).lemma_filter_push(c, new);
    none.push(a).push(b).push(c).lemma_filter_push(d, new);
    assert(none.push(a).push(b).push(c).push(d) =~= seq![a, b, c, d]);
    assert(none.filter(new) =~= none) by {
        reveal(Seq::filter);
    }
    let f1 = none.push(a).filter(new);
    let f2 = none.push(a).push(b).filter(new);
    let f3 = none.push(a).push(b).push(c).filter(new);
    let f4 = none.push(a).push(b).push(c).push(d).filter(new);
    lemma_one_more(start, none, a);
    assert(start + none =~= start);
    assert(s1 =~= start + f1);
    lemma_one_more(start, f1, b);
    assert(s2 =~= start + f2);
    lemma_one_more(start, f2, c);
    assert(s3 =~= start + f3);
    lemma_one_more(start, f3, d);
    assert(s4 =~= start + f4);
    assert(s4.skip(start.len() as int) =~= f4);
    assert(start.len() == path@.len());
    lemma_stays(start, a);
    lemma_stays(s1, b);
    lemma_stays(s2, c);
    lemma_stays(s3, d);
}

/// What is among a list stays among a longer one.
proof fn lemma_stays(list: Seq<Seq<char>>, dir: Seq<char>)
    requires
        dir.len() > 0,
        dir[0] == '/',
    ensures
        supervisor::is_among(supervisor::with_dir(list, dir), dir),
        forall|x: Seq<char>|
            supervisor::is_among(list, x) ==> #[trigger] supervisor::is_among(
                supervisor::with_dir(list, dir),
                x,
            ),
{
    let after = supervisor::with_dir(list, dir);
    if !supervisor::is_among(list, dir) {
        assert(after[list.len() as int] == dir);
        assert(supervisor::same_place(after[list.len() as int], dir));
    }
    assert forall|x: Seq<char>| supervisor::is_among(list, x) implies #[trigger] supervisor::is_among(
        after,
        x,
    ) by {
        let i = choose|i: int| 0 <= i < list.len() && supervisor::same_place(#[trigger] list[i], x);
        assert(supervisor::same_place(after[i], x));
    }
}

/// One of the four places is added unless the search path has it: none of the
/// others stands for it.
proof fn lemma_one_more(start: Seq<Seq<char>>, more: Seq<Seq<char>>, dir: Seq<char>)
    requires
        forall|i: int| 0 <= i < more.len() ==> !supervisor::same_place(#[trigger] more[i], dir),
    ensures
        supervisor::with_dir(start + more, dir) == (if supervisor::is_among(start, dir) {
            start + more
        } else {
            start + more.push(dir)
        }),
{
    let list = start + more;
    if supervisor::is_among(start, dir) {
        let i = choose|i: int|
            0 <= i < start.len() && supervisor::same_place(#[trigger] start[i], dir);
        assert(supervisor::same_place(list[i], dir));
    } else {
        assert forall|i: int| 0 <= i < list.len() implies !supervisor::same_place(
            #[trigger] list[i],
            dir,
        ) by {
            if i < start.len() {
                assert(list[i] == start[i]);
            } else {
                assert(list[i] == more[i - start.len()]);
            }
        }
        assert(list.push(dir) =~= start + more.push(dir));
    }
}

/// The four places are four.
proof fn lemma_places()
    ensures
        ({
            let a = "/usr/sbin"@;
            let b = "/sbin"@;
            let c = "/usr/bin"@;
            let d = "/bin"@;
            &&& a.len() > 0 && a[0] == '/'
            &&& b.len() > 0 && b[0] == '/'
            &&& c.len() > 0 && c[0] == '/'
            &&& d.len() > 0 && d[0] == '/'
            &&& !supervisor::same_place(a, b)
            &&& !supervisor::same_place(a, c)
            &&& !supervisor::same_place(a, d)
            &&& !supervisor::same_place(b, c)
            &&& !supervisor::same_place(b, d)
            &&& !supervisor::same_place(c, d)
        }),
{
    reveal_strlit("/usr/sbin");
    reveal_strlit("/sbin");
    reveal_strlit("/usr/bin");
    reveal_strlit("/bin");
    let usr = seq!['u', 's', 'r'];
    let sbin = seq!['s', 'b', 'i', 'n'];
    let bin = seq!['b', 'i', 'n'];
    assert("/usr/sbin"@ =~= seq!['/'] + usr + seq!['/'] + sbin);
    assert("/sbin"@ =~= seq!['/'] + sbin);
    assert("/usr/bin"@ =~= seq!['/'] + usr + seq!['/'] + bin);
    assert("/bin"@ =~= seq!['/'] + bin);
    lemma_two_parts(usr, sbin);
    lemma_two_parts(usr, bin);
    lemma_one_part(sbin);
    lemma_one_part(bin);
    assert(sbin.len() == 4 && bin.len() == 3 && usr.len() == 3);
    assert(seq![usr, sbin][1] == sbin && seq![usr, bin][1] == bin);
    assert(seq![sbin][0] == sbin && seq![bin][0] == bin);
}

proof fn lemma_one_part(a: Seq<char>)
    requires
        a.len() > 1,
        seqs::lacks(a, '/'),
    ensures
        supervisor::path_parts(seq!['/'] + a) == seq![a],
{
    let keep = |p: Seq<char>| p.len() > 0 && p != seq!['.'];
    let none = Seq::<char>::empty();
    seqs::lemma_split_whole(none, '/');
    seqs::lemma_split_whole(a, '/');
    seqs::lemma_split_at(none, '/', a);
    assert(none + seq!['/'] + a =~= seq!['/'] + a);
    let empty = Seq::<Seq<char>>::empty();
    assert(seq![none] + seq![a] =~= empty.push(none).push(a));
    empty.lemma_filter_push(none, keep);
    empty.push(none).lemma_filter_push(a, keep);
    assert(a.len() != seq!['.'].len());
    assert(empty.filter(keep) =~= empty) by {
        reveal(Seq::filter);
    }
    assert(supervisor::path_parts(seq!['/'] + a) =~= seq![a]);
}

proof fn lemma_two_parts(a: Seq<char>, b: Seq<char>)
    requires
        a.len() > 1,
        b.len() > 1,
        seqs::lacks(a, '/'),
        seqs::lacks(b, '/'),
    ensures
        supervisor::path_parts(seq!['/'] + a + seq!['/'] + b) == seq![a, b],
{
    let keep = |p: Seq<char>| p.len() > 0 && p != seq!['.'];
    lemma_one_part(a);
    seqs::lemma_split_whole(b, '/');
    seqs::lemma_split_at(seq!['/'] + a, '/', b);
    let front = seqs::split(seq!['/'] + a, '/');
    assert(front + seq![b] =~= front.push(b));
    front.lemma_filter_push(b, keep);
    assert(b.len() != seq!['.'].len());
    assert(supervisor::path_parts(seq!['/'] + a + seq!['/'] + b) =~= seq![a, b]);
}

/// A box keeps its environment and is pointed at its proxy, under every name by
/// which a program looks for one, and is told that loopback is not behind it.
pub proof fn law_a_box_is_pointed_at_its_proxy(
    env: Vec<(String, String)>,
    host: &str,
    port: u16,
    own: &str,
    r: Vec<(String, String)>,
)
    requires
        call_ensures(supervisor::proxied_env, (env, host, port, own), r),
    ensures
        ({
            let after = supervisor::variables(r@);
            let n = env@.len() as int;
            let url = "http://"@ + host@ + ":"@ + text::decimal(port as nat);
            &&& after.len() == n + 8
            &&& after.take(n) == supervisor::variables(env@)
            &&& after[n] == ("HTTP_PROXY"@, url)
            &&& after[n + 1] == ("HTTPS_PROXY"@, url)
            &&& after[n + 2] == ("http_proxy"@, url)
            &&& after[n + 3] == ("https_proxy"@, url)
            &&& after[n + 4] == ("ALL_PROXY"@, url)
            &&& after[n + 5] == (own@, url)
            &&& after[n + 6] == ("NO_PROXY"@, "localhost,127.0.0.1"@)
            &&& after[n + 7] == ("no_proxy"@, "localhost,127.0.0.1"@)
        }),
{
    let after = supervisor::variables(r@);
    let n = env@.len() as int;
    assert(supervisor::variables(env@).len() == n);
    assert(after.take(n) =~= supervisor::variables(env@));
}

} // verus!
