//! What a bootable image does with `EXPOSE`: a firewall that lets in nothing but
//! the exposed ports, and the service that loads it.
use vstd::prelude::*;
use crate::ast::{Directive, EntrypointInit, ExposeProtocol, Stage};
use crate::number::{decimal, write_decimal};
use crate::runtime_writer::InitSystem;
use crate::text::{concat3, contains_text, occurs_at};

verus! {

/// Why there is no runtime configuration.
#[derive(Debug)]
pub enum RuntimeConfigError {
    /// `ENTRYPOINT none`: a bootable image has to start something.
    EntrypointNone,
    /// An I/O error.
    Io(std::io::Error),
}

/// What was configured.
#[derive(Debug)]
pub struct RuntimeConfigReport {
    /// What the image starts.
    pub init_system: Option<InitSystemKind>,
    /// How many ports are exposed.
    pub exposed_ports: usize,
}

/// What a bootable image starts.
#[derive(Clone, Copy, Debug, PartialEq, Eq, Structural)]
pub enum InitSystemKind {
    /// systemd
    Systemd,
    /// OpenRC
    OpenRc,
    /// A program of its own.
    Binary,
}

/// The kind of init system that an `ENTRYPOINT` starts; none for `none`.
pub open spec fn init_kind(init: EntrypointInit) -> Option<InitSystemKind> {
    match init {
        EntrypointInit::Systemd => Some(InitSystemKind::Systemd),
        EntrypointInit::OpenRc => Some(InitSystemKind::OpenRc),
        EntrypointInit::Path(_) => Some(InitSystemKind::Binary),
        EntrypointInit::Exec(_) => Some(InitSystemKind::Binary),
        EntrypointInit::NoInit => None,
    }
}

/// The kind of init system that the first `ENTRYPOINT` from `from` on starts;
/// systemd where there is no `ENTRYPOINT`.
pub open spec fn stage_init(directives: Seq<Directive>, from: int) -> Option<InitSystemKind>
    decreases directives.len() - from,
{
    if from < 0 || from >= directives.len() {
        Some(InitSystemKind::Systemd)
    } else {
        match directives[from] {
            Directive::Entrypoint(ep) => init_kind(ep.init),
            _ => stage_init(directives, from + 1),
        }
    }
}

/// The kind of init system that a stage starts.
pub fn pick_init_system(stage: &Stage) -> (r: Result<InitSystemKind, RuntimeConfigError>)
    ensures
        match stage_init(stage.directives@, 0) {
            Some(kind) => r matches Ok(k) && k == kind,
            None => r matches Err(RuntimeConfigError::EntrypointNone),
        },
{
    let mut i: usize = 0;
    while i < stage.directives.len()
        invariant
            i <= stage.directives@.len(),
            stage_init(stage.directives@, 0) == stage_init(stage.directives@, i as int),
        decreases stage.directives.len() - i,
    {
        if let Directive::Entrypoint(ep) = &stage.directives[i] {
            return match &ep.init {
                EntrypointInit::Systemd => Ok(InitSystemKind::Systemd),
                EntrypointInit::OpenRc => Ok(InitSystemKind::OpenRc),
                EntrypointInit::Path(_) | EntrypointInit::Exec(_) => Ok(InitSystemKind::Binary),
                EntrypointInit::NoInit => Err(RuntimeConfigError::EntrypointNone),
            };
        }
        i += 1;
    }
    Ok(InitSystemKind::Systemd)
}

/// The start of the ruleset: nothing comes in but what is local or answers
/// something.
pub const RULESET_HEAD: &'static str = "# Generated by UMF builder — UMF EXPOSE directives.\n# Default-deny inbound; only explicitly-exposed ports are reachable.\ntable inet umf {\n    chain input {\n        type filter hook input priority filter; policy drop;\n        iif lo accept\n        ct state established,related accept\n        ip protocol icmp accept\n        ip6 nexthdr ipv6-icmp accept\n";

/// The end of the ruleset.
pub const RULESET_TAIL: &'static str = "    }\n}\n";

/// The rule for an exposed port.
pub open spec fn port_rule(port: u16, protocol: ExposeProtocol) -> Seq<char> {
    "        "@ + protocol.name() + " dport "@ + decimal(port as nat) + " accept\n"@
}

/// The rules for the ports that the first `n` directives expose.
pub open spec fn port_rules(directives: Seq<Directive>, n: int) -> Seq<char>
    decreases n,
{
    if n <= 0 {
        Seq::empty()
    } else {
        match directives[n - 1] {
            Directive::Expose(e) => port_rules(directives, n - 1) + port_rule(e.port, e.protocol),
            _ => port_rules(directives, n - 1),
        }
    }
}

/// How many of the first `n` directives expose a port.
pub open spec fn exposed(directives: Seq<Directive>, n: int) -> nat
    decreases n,
{
    if n <= 0 {
        0
    } else if directives[n - 1] is Expose {
        exposed(directives, n - 1) + 1
    } else {
        exposed(directives, n - 1)
    }
}

/// The ruleset of a stage.
pub open spec fn ruleset(directives: Seq<Directive>) -> Seq<char> {
    RULESET_HEAD@ + port_rules(directives, directives.len() as int) + RULESET_TAIL@
}

/// The file that the firewall service loads.
pub const LOADER: &'static str = "#!/usr/sbin/nft -f\n# Generated by UMF builder. Loads the UMF EXPOSE default-deny ruleset.\nflush ruleset\ninclude \"/etc/nftables.d/*.nft\"\n";

/// Where the ruleset is, below the root.
pub const RULESET_PATH: &'static str = "etc/nftables.d/umf-expose.nft";

/// Where the file that the firewall service loads is, below the root.
pub const LOADER_PATH: &'static str = "etc/nftables.conf";

/// A firewall in the image.
#[derive(Debug)]
pub struct Firewall {
    /// What goes to [`RULESET_PATH`].
    pub ruleset: String,
    /// What goes to [`LOADER_PATH`].
    pub loader: String,
    /// The service to enable, and the init system to enable it in.
    pub service: Option<(InitSystem, String)>,
}

/// The name of the firewall service.
pub open spec fn firewall_unit(init: InitSystem) -> Seq<char> {
    match init {
        InitSystem::Systemd => "nftables.service"@,
        InitSystem::OpenRc => "nftables"@,
    }
}

/// The init system with services.
pub open spec fn service_manager(kind: InitSystemKind) -> Option<InitSystem> {
    match kind {
        InitSystemKind::Systemd => Some(InitSystem::Systemd),
        InitSystemKind::OpenRc => Some(InitSystem::OpenRc),
        InitSystemKind::Binary => None,
    }
}

fn write_rules(directives: &Vec<Directive>) -> (r: (String, usize))
    ensures
        r.0@ == ruleset(directives@),
        r.1 == exposed(directives@, directives@.len() as int),
{
    let mut rules = String::new();
    let mut count: usize = 0;
    let mut i: usize = 0;
    while i < directives.len()
        invariant
            i <= directives@.len(),
            count <= i,
            rules@ == port_rules(directives@, i as int),
            count == exposed(directives@, i as int),
        decreases directives.len() - i,
    {
        if let Directive::Expose(e) = &directives[i] {
            let port = write_decimal(e.port as u128);
            let head = concat3("        ", e.protocol.as_str(), " dport ");
            let rule = concat3(head.as_str(), port.as_str(), " accept\n");
            rules.append(rule.as_str());
            count += 1;
        }
        i += 1;
    }
    (concat3(RULESET_HEAD, rules.as_str(), RULESET_TAIL), count)
}

/// The service that loads the firewall, for an image that starts `kind`. An
/// image that starts a program of its own has no services.
pub fn enable_service(kind: InitSystemKind) -> (r: Option<(InitSystem, String)>)
    ensures
        match service_manager(kind) {
            Some(init) => r matches Some(s) && s.0 == init && s.1@ == firewall_unit(init),
            None => r is None,
        },
{
    match kind {
        InitSystemKind::Systemd => Some(
            (InitSystem::Systemd, String::from_str("nftables.service")),
        ),
        InitSystemKind::OpenRc => Some((InitSystem::OpenRc, String::from_str("nftables"))),
        InitSystemKind::Binary => None,
    }
}

/// Is it what the runtime configuration of a stage comes to? A recipe whose
/// image starts nothing is refused. The rules are written where a port is
/// exposed, and where there is a service manager it loads them.
pub open spec fn is_runtime_config(
    r: Result<(RuntimeConfigReport, Option<Firewall>), RuntimeConfigError>,
    stage: Stage,
) -> bool {
    match stage_init(stage.directives@, 0) {
        None => r matches Err(RuntimeConfigError::EntrypointNone),
        Some(kind) => r matches Ok(x) && {
            let count = exposed(stage.directives@, stage.directives@.len() as int);
            &&& x.0.init_system == Some(kind)
            &&& x.0.exposed_ports == count
            &&& match x.1 {
                None => count == 0,
                Some(f) => {
                    &&& count > 0
                    &&& f.ruleset@ == ruleset(stage.directives@)
                    &&& f.loader@ == LOADER@
                    &&& match service_manager(kind) {
                        Some(init) => f.service matches Some(s) && s.0 == init && s.1@
                            == firewall_unit(init),
                        None => f.service is None,
                    }
                },
            }
        },
    }
}

/// What a stage configures: a firewall, where it exposes a port.
pub fn apply_runtime_config(stage: &Stage) -> (r: Result<
    (RuntimeConfigReport, Option<Firewall>),
    RuntimeConfigError,
>)
    ensures
        is_runtime_config(r, *stage),
{
    let kind = match pick_init_system(stage) {
        Ok(kind) => kind,
        Err(e) => {
            return Err(e);
        },
    };
    let (ruleset, count) = write_rules(&stage.directives);
    let report = RuntimeConfigReport { init_system: Some(kind), exposed_ports: count };
    if count == 0 {
        return Ok((report, None));
    }
    let firewall = Firewall {
        ruleset,
        loader: String::from_str(LOADER),
        service: enable_service(kind),
    };
    Ok((report, Some(firewall)))
}

proof fn lemma_contains_concat(a: Seq<char>, b: Seq<char>, t: Seq<char>)
    requires
        contains_text(a, t) || contains_text(b, t),
    ensures
        contains_text(a + b, t),
{
    if contains_text(a, t) {
        let i = choose|i: int| occurs_at(a, t, i);
        assert((a + b).subrange(i, i + t.len()) =~= a.subrange(i, i + t.len()));
        assert(occurs_at(a + b, t, i));
    } else {
        let i = choose|i: int| occurs_at(b, t, i);
        assert((a + b).subrange(a.len() + i, a.len() + i + t.len()) =~= b.subrange(i, i + t.len()));
        assert(occurs_at(a + b, t, a.len() + i));
    }
}

proof fn lemma_rule_present(directives: Seq<Directive>, n: int, i: int)
    requires
        0 <= i < n <= directives.len(),
        directives[i] is Expose,
    ensures
        contains_text(
            port_rules(directives, n),
            port_rule(directives[i]->Expose_0.port, directives[i]->Expose_0.protocol),
        ),
    decreases n,
{
    let rule = port_rule(directives[i]->Expose_0.port, directives[i]->Expose_0.protocol);
    let before = port_rules(directives, n - 1);
    if i == n - 1 {
        assert(occurs_at(rule, rule, 0)) by {
            assert(rule.subrange(0, rule.len() as int) =~= rule);
        }
        lemma_contains_concat(before, rule, rule);
    } else {
        lemma_rule_present(directives, n - 1, i);
        match directives[n - 1] {
            Directive::Expose(e) => {
                lemma_contains_concat(before, port_rule(e.port, e.protocol), rule);
            },
            _ => {},
        }
    }
}

/// Every exposed port is let in: its rule is in the ruleset.
pub proof fn lemma_exposed_port_admitted(directives: Seq<Directive>, i: int)
    requires
        0 <= i < directives.len(),
        directives[i] is Expose,
    ensures
        contains_text(
            ruleset(directives),
            port_rule(directives[i]->Expose_0.port, directives[i]->Expose_0.protocol),
        ),
{
    let rule = port_rule(directives[i]->Expose_0.port, directives[i]->Expose_0.protocol);
    let rules = port_rules(directives, directives.len() as int);
    lemma_rule_present(directives, directives.len() as int, i);
    lemma_contains_concat(RULESET_HEAD@, rules, rule);
    lemma_contains_concat(RULESET_HEAD@ + rules, RULESET_TAIL@, rule);
}

/// A ruleset drops whatever no rule lets in, whatever ports are exposed.
pub proof fn lemma_default_deny(directives: Seq<Directive>)
    ensures
        contains_text(ruleset(directives), "policy drop;"@),
{
    let rules = port_rules(directives, directives.len() as int);
    reveal_strlit("policy drop;");
    reveal_strlit(
        "# Generated by UMF builder — UMF EXPOSE directives.\n# Default-deny inbound; only explicitly-exposed ports are reachable.\ntable inet umf {\n    chain input {\n        type filter hook input priority filter; policy drop;\n        iif lo accept\n        ct state established,related accept\n        ip protocol icmp accept\n        ip6 nexthdr ipv6-icmp accept\n",
    );
    assert(RULESET_HEAD@.subrange(204, 216) =~= "policy drop;"@);
    assert(occurs_at(RULESET_HEAD@, "policy drop;"@, 204));
    lemma_contains_concat(RULESET_HEAD@, rules, "policy drop;"@);
    lemma_contains_concat(RULESET_HEAD@ + rules, RULESET_TAIL@, "policy drop;"@);
}

} // verus!
