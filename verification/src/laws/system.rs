//! The system of an image: its firewall, its kernel, and which image of an index is
//! taken.
use vstd::prelude::*;
use crate::architecture::Architecture;
use crate::ast::{Directive, ExposeProtocol, Stage};
use crate::kernel::{
    detect_kernel_layout, first_matching, first_paired, has_modules, has_release, images,
    is_image_name, is_paired, release_names, suffix_of, KernelLayout, KernelLayoutError, ReleaseDir,
};
use crate::l0::{KindView, L0Kind, Payload};
use crate::manifest::{ImageIndex, IndexEntry};
use crate::number::decimal;
use crate::order::{lemma_path_order, lemma_text_order, path_le, text_le};
use crate::path::{file_name, is_name, join_path, lemma_split_concat, names};
use crate::platform::{is_for, is_plain, select_for_arch};
use crate::runtime_config::{
    apply_runtime_config, exposed, pick_init_system, port_rule, port_rules, ruleset, stage_init,
    Firewall, InitSystemKind, RuntimeConfigError, RuntimeConfigReport, RULESET_HEAD, RULESET_TAIL,
};
use crate::runtime_writer::{write_enable_link, EnableLink, InitSystem};
use crate::text::{contains_text, split, texts};
use super::aid::{lemma_occurs, lemma_occurs_within};

verus! {

/// The rule that lets a port in.
pub open spec fn opening(port: u16, protocol: ExposeProtocol) -> Seq<char> {
    (match protocol {
        ExposeProtocol::Tcp => "tcp dport "@,
        ExposeProtocol::Udp => "udp dport "@,
    }) + decimal(port as nat) + " accept\n"@
}

proof fn lemma_rule(port: u16, protocol: ExposeProtocol)
    ensures
        port_rule(port, protocol) == "        "@ + opening(port, protocol),
{
    reveal_strlit("tcp");
    reveal_strlit("udp");
    reveal_strlit(" dport ");
    reveal_strlit("tcp dport ");
    reveal_strlit("udp dport ");
    assert("tcp"@ + " dport "@ =~= "tcp dport "@);
    assert("udp"@ + " dport "@ =~= "udp dport "@);
    let n = decimal(port as nat);
    let e = " accept\n"@;
    let s = "        "@;
    assert(s + "tcp"@ + " dport "@ + n + e =~= s + ("tcp"@ + " dport "@ + n + e));
    assert(s + "udp"@ + " dport "@ + n + e =~= s + ("udp"@ + " dport "@ + n + e));
}

proof fn lemma_exposed_counted(ds: Seq<Directive>, n: int, i: int)
    requires
        0 <= i < n <= ds.len(),
        ds[i] is Expose,
    ensures
        exposed(ds, n) > 0,
        contains_text(
            port_rules(ds, n),
            opening(ds[i]->Expose_0.port, ds[i]->Expose_0.protocol),
        ),
    decreases n,
{
    let t = opening(ds[i]->Expose_0.port, ds[i]->Expose_0.protocol);
    let before = port_rules(ds, n - 1);
    let none = Seq::<char>::empty();
    if i == n - 1 {
        lemma_rule(ds[i]->Expose_0.port, ds[i]->Expose_0.protocol);
        lemma_occurs(before + "        "@, t, none);
        assert(port_rules(ds, n) =~= before + "        "@ + t + none);
    } else {
        lemma_exposed_counted(ds, n - 1, i);
        if let Directive::Expose(e) = ds[n - 1] {
            let rule = port_rule(e.port, e.protocol);
            lemma_occurs_within(none, before, rule, t);
            assert(port_rules(ds, n) =~= none + before + rule);
        }
    }
}

/// Every port that is exposed is let in by the firewall, by its number and its
/// protocol, and what no rule lets in is dropped. An image that exposes nothing has
/// no firewall.
pub proof fn lemma_firewall_opens(
    stage: &Stage,
    r: Result<(RuntimeConfigReport, Option<Firewall>), RuntimeConfigError>,
    i: int,
)
    requires
        call_ensures(apply_runtime_config, (stage,), r),
        r is Ok,
        0 <= i < stage.directives@.len(),
        stage.directives@[i] is Expose,
    ensures
        r->Ok_0.1 matches Some(f) && contains_text(
            f.ruleset@,
            opening(
                stage.directives@[i]->Expose_0.port,
                stage.directives@[i]->Expose_0.protocol,
            ),
        ) && contains_text(f.ruleset@, "policy drop;"@),
{
    let ds = stage.directives@;
    let n = ds.len() as int;
    lemma_exposed_counted(ds, n, i);
    lemma_occurs_within(
        RULESET_HEAD@,
        port_rules(ds, n),
        RULESET_TAIL@,
        opening(ds[i]->Expose_0.port, ds[i]->Expose_0.protocol),
    );
    crate::runtime_config::lemma_default_deny(ds);
}

proof fn lemma_rules_prefix(a: Seq<Directive>, b: Seq<Directive>, n: int)
    requires
        0 <= n <= a.len(),
        n <= b.len(),
        forall|i: int| 0 <= i < n ==> a[i] == b[i],
    ensures
        port_rules(a, n) == port_rules(b, n),
        exposed(a, n) == exposed(b, n),
    decreases n,
{
    if n > 0 {
        lemma_rules_prefix(a, b, n - 1);
        assert(a[n - 1] == b[n - 1]);
    }
}

/// One more `EXPOSE` puts one rule into the firewall, for its port, and another
/// directive puts none in: nothing is let in that is not exposed.
pub proof fn lemma_firewall_grows(
    shorter: &Stage,
    r: Result<(RuntimeConfigReport, Option<Firewall>), RuntimeConfigError>,
    longer: &Stage,
    q: Result<(RuntimeConfigReport, Option<Firewall>), RuntimeConfigError>,
    d: Directive,
)
    requires
        call_ensures(apply_runtime_config, (shorter,), r),
        call_ensures(apply_runtime_config, (longer,), q),
        longer.directives@ == shorter.directives@.push(d),
        r matches Ok(x) && x.1 is Some,
        q is Ok,
    ensures
        ({
            let f = r->Ok_0.1->0;
            let g = q->Ok_0.1->0;
            &&& q->Ok_0.1 is Some
            &&& !(d is Expose) ==> g.ruleset@ == f.ruleset@ && q->Ok_0.0.exposed_ports
                == r->Ok_0.0.exposed_ports
            &&& d is Expose ==> q->Ok_0.0.exposed_ports == r->Ok_0.0.exposed_ports + 1
                && exists|before: Seq<char>, after: Seq<char>|
                f.ruleset@ == #[trigger] (before + after) && g.ruleset@ == before + "        "@
                    + opening(d->Expose_0.port, d->Expose_0.protocol) + after
        }),
{
    let a = shorter.directives@;
    let b = longer.directives@;
    let n = a.len() as int;
    lemma_rules_prefix(a, b, n);
    assert(b[n] == d);
    if let Directive::Expose(e) = d {
        lemma_rule(e.port, e.protocol);
        let before = RULESET_HEAD@ + port_rules(a, n);
        assert(ruleset(b) =~= before + "        "@ + opening(e.port, e.protocol) + RULESET_TAIL@);
        assert(ruleset(a) == before + RULESET_TAIL@);
    }
}

proof fn lemma_init_at(ds: Seq<Directive>, from: int, i: int)
    requires
        0 <= from <= ds.len(),
    ensures
        from <= i < ds.len() && ds[i] is Entrypoint && (forall|j: int|
            from <= j < i ==> !(#[trigger] ds[j] is Entrypoint)) ==> stage_init(ds, from)
            == crate::runtime_config::init_kind(ds[i]->Entrypoint_0.init),
        (forall|j: int| from <= j < ds.len() ==> !(#[trigger] ds[j] is Entrypoint)) ==> stage_init(
            ds,
            from,
        ) == Some(InitSystemKind::Systemd),
    decreases ds.len() - from,
{
    if from < ds.len() {
        lemma_init_at(ds, from + 1, i);
    }
}

/// What starts an image is an init system or a program, by its `ENTRYPOINT`, and
/// systemd without one. An image that starts nothing is refused.
pub proof fn lemma_init_system(
    stage: &Stage,
    r: Result<InitSystemKind, RuntimeConfigError>,
    i: int,
)
    requires
        call_ensures(pick_init_system, (stage,), r),
    ensures
        ({
            let ds = stage.directives@;
            let first = 0 <= i < ds.len() && ds[i] is Entrypoint && (forall|j: int|
                0 <= j < i ==> !(#[trigger] ds[j] is Entrypoint));
            let init = ds[i]->Entrypoint_0.init;
            &&& first && init is Systemd ==> (r matches Ok(k) && k == InitSystemKind::Systemd)
            &&& first && init is OpenRc ==> (r matches Ok(k) && k == InitSystemKind::OpenRc)
            &&& first && (init is Path || init is Exec) ==> (r matches Ok(k) && k
                == InitSystemKind::Binary)
            &&& first && init is NoInit ==> (r matches Err(RuntimeConfigError::EntrypointNone))
            &&& (forall|j: int| 0 <= j < ds.len() ==> !(#[trigger] ds[j] is Entrypoint)) ==> (
            r matches Ok(k) && k == InitSystemKind::Systemd)
        }),
{
    lemma_init_at(stage.directives@, 0, i);
}

/// The firewall is loaded by the service of the init system; a program that starts
/// by itself has none.
pub proof fn lemma_firewall_service(
    stage: &Stage,
    r: Result<(RuntimeConfigReport, Option<Firewall>), RuntimeConfigError>,
    k: Result<InitSystemKind, RuntimeConfigError>,
)
    requires
        call_ensures(apply_runtime_config, (stage,), r),
        call_ensures(pick_init_system, (stage,), k),
    ensures
        r is Ok <==> k is Ok,
        r matches Ok(x) ==> x.0.init_system == Some(k->Ok_0) && (x.1 matches Some(f) ==> (k->Ok_0
            == InitSystemKind::Systemd ==> (f.service matches Some(s) && s.0 == InitSystem::Systemd
            && s.1@ == "nftables.service"@)) && (k->Ok_0 == InitSystemKind::OpenRc ==> (
        f.service matches Some(s) && s.0 == InitSystem::OpenRc && s.1@ == "nftables"@)) && (k->Ok_0
            == InitSystemKind::Binary ==> f.service is None)),
{
}

/// A service is enabled by a link to it in the directory that its init system
/// starts services from.
pub proof fn lemma_enable_link(
    root: &str,
    init: InitSystem,
    unit: &str,
    is_there: bool,
    r: EnableLink,
)
    requires
        call_ensures(write_enable_link, (root, init, unit, is_there), r),
        root@.len() > 0,
        root@.last() != '/',
        unit@.len() > 0,
        unit@[0] != '/',
    ensures
        init == InitSystem::Systemd ==> r.link@ == root@
            + "/etc/systemd/system/multi-user.target.wants/"@ + unit@ && r.target@
            == "/usr/lib/systemd/system/"@ + unit@,
        init == InitSystem::OpenRc ==> r.link@ == root@ + "/etc/runlevels/default/"@ + unit@
            && r.target@ == "/etc/init.d/"@ + unit@,
        r.replaces == is_there,
{
    reveal_strlit("etc/systemd/system/multi-user.target.wants");
    reveal_strlit("/etc/systemd/system/multi-user.target.wants/");
    reveal_strlit("etc/runlevels/default");
    reveal_strlit("/etc/runlevels/default/");
    let s = root@ + seq!['/'] + "etc/systemd/system/multi-user.target.wants"@;
    let o = root@ + seq!['/'] + "etc/runlevels/default"@;
    assert(s.last() == 's');
    assert(o.last() == 't');
    assert(s + seq!['/'] + unit@ =~= root@ + "/etc/systemd/system/multi-user.target.wants/"@
        + unit@);
    assert(o + seq!['/'] + unit@ =~= root@ + "/etc/runlevels/default/"@ + unit@);
}

/// A kernel build can start an image of its kind only, and what is only a payload
/// can start no container.
pub proof fn lemma_valid_from(kind: &L0Kind, bootable: bool, r: bool)
    requires
        call_ensures(L0Kind::is_valid_from, (kind, bootable), r),
    ensures
        bootable ==> r == (kind@ == KindView::Payload(Payload::Kernel)),
        !bootable && (kind@ is Payload || kind@ is Unknown) ==> !r,
        !bootable && (kind@ is Scratch || kind@ is Container || kind@ is Bootable) ==> r,
{
}

/// Is the entry a Linux image for the architecture, by the names that images use?
pub open spec fn fits(e: IndexEntry, architecture: Architecture) -> bool {
    e.platform matches Some(p) && p.os@ == "linux"@ && p.architecture@ == match architecture {
        Architecture::X86_64 => "amd64"@,
        Architecture::Aarch64 => "arm64"@,
    }
}

/// Is the entry for every variant of its architecture?
pub open spec fn is_for_all_variants(e: IndexEntry) -> bool {
    e.platform matches Some(p) && (p.variant is None || p.variant->0@.len() == 0)
}

/// Of an index the first Linux image for the architecture is taken, one without a
/// variant before the others; where there is any, one is taken.
pub proof fn lemma_index_choice(
    index: &ImageIndex,
    architecture: Architecture,
    r: Option<&IndexEntry>,
    i: int,
)
    requires
        call_ensures(select_for_arch, (index, architecture), r),
    ensures
        0 <= i < index.manifests@.len() && fits(index.manifests@[i], architecture) ==> r is Some,
        (forall|j: int|
            0 <= j < index.manifests@.len() ==> !fits(#[trigger] index.manifests@[j], architecture))
            ==> r is None,
        0 <= i < index.manifests@.len() && fits(index.manifests@[i], architecture)
            && is_for_all_variants(index.manifests@[i]) && (forall|j: int|
            0 <= j < i ==> !(fits(#[trigger] index.manifests@[j], architecture)
                && is_for_all_variants(index.manifests@[j]))) ==> r->0@ == index.manifests@[i]@,
        0 <= i < index.manifests@.len() && fits(index.manifests@[i], architecture) && (forall|j: int|
            0 <= j < i ==> !fits(#[trigger] index.manifests@[j], architecture)) && (forall|j: int|
            0 <= j < index.manifests@.len() ==> !(fits(
                #[trigger] index.manifests@[j],
                architecture,
            ) && is_for_all_variants(index.manifests@[j]))) ==> r->0@ == index.manifests@[i]@,
{
    let v = index@;
    assert forall|j: int| 0 <= j < v.len() implies is_for(#[trigger] v[j], architecture) == fits(
        index.manifests@[j],
        architecture,
    ) && is_plain(v[j]) == is_for_all_variants(index.manifests@[j]) by {
        assert(v[j] == index.manifests@[j]@);
    }
    lemma_first_for(v, architecture, true, 0, i);
    lemma_first_for(v, architecture, false, 0, i);
    let m = index.manifests@;
    let p = crate::platform::first_for(v, architecture, true, 0);
    let q = crate::platform::first_for(v, architecture, false, 0);
    if 0 <= i < m.len() {
        assert(v[i] == m[i]@);
        assert(is_for(v[i], architecture) == fits(m[i], architecture));
    }
    if let Some(k) = p {
        assert(v[k] == m[k]@);
        assert(fits(m[k], architecture) && is_for_all_variants(m[k]));
        if 0 <= i < m.len() && i < k {
            assert(!(is_for(v[i], architecture) && is_plain(v[i])));
        }
    }
    if let Some(k) = q {
        assert(v[k] == m[k]@);
        assert(fits(m[k], architecture));
    }
}

proof fn lemma_first_for(
    index: Seq<crate::manifest::EntryView>,
    architecture: Architecture,
    plain: bool,
    from: int,
    i: int,
)
    requires
        0 <= from <= index.len(),
    ensures
        ({
            let found = crate::platform::first_for(index, architecture, plain, from);
            &&& found matches Some(k) ==> from <= k < index.len() && is_for(
                index[k],
                architecture,
            ) && (plain ==> is_plain(index[k])) && forall|j: int|
                from <= j < k ==> !(is_for(#[trigger] index[j], architecture) && (plain
                    ==> is_plain(index[j])))
            &&& found is None ==> forall|j: int|
                from <= j < index.len() ==> !(is_for(#[trigger] index[j], architecture) && (plain
                    ==> is_plain(index[j])))
        }),
    decreases index.len() - from,
{
    if from < index.len() && !(is_for(index[from], architecture) && (plain ==> is_plain(
        index[from],
    ))) {
        lemma_first_for(index, architecture, plain, from + 1, i);
    }
}

/// Is `l` made of a kernel image in the boot directory and of a directory with
/// modules?
pub open spec fn is_made_of(
    l: KernelLayout,
    staging: Seq<char>,
    file: Seq<char>,
    release: Seq<char>,
) -> bool {
    &&& l.vmlinuz@ == staging + "/boot/"@ + file
    &&& l.modules@ == staging + "/lib/modules/"@ + release
    &&& l.release@ == release
}

#[verifier::rlimit(40)]
proof fn lemma_image_paths(staging: Seq<char>, files: Seq<Seq<char>>)
    requires
        staging.len() > 0,
        staging.last() != '/',
        forall|i: int| 0 <= i < files.len() ==> is_name(#[trigger] files[i]) && files[i][0] != '/',
    ensures
        forall|p: Seq<char>| #[trigger]
            images(staging, files).contains(p) <==> exists|i: int|
                0 <= i < files.len() && "vmlinuz"@.is_prefix_of(#[trigger] files[i]) && p == staging
                    + "/boot/"@ + files[i],
{
    broadcast use vstd::seq_lib::group_to_multiset_ensures;

    reveal_strlit("boot");
    reveal_strlit("/boot/");
    let keep = is_image_name();
    let kept = files.filter(keep);
    let place = |name: Seq<char>| join_path(join_path(staging, "boot"@), name);
    let placed = kept.map_values(place);
    let sorted = images(staging, files);
    lemma_path_order();
    placed.lemma_sort_by_ensures(path_le());
    let boot = staging + seq!['/'] + "boot"@;
    assert(boot.last() == 't');
    assert forall|p: Seq<char>| #[trigger] sorted.contains(p) <==> exists|i: int|
        0 <= i < files.len() && "vmlinuz"@.is_prefix_of(#[trigger] files[i]) && p == staging
            + "/boot/"@ + files[i] by {
        assert(sorted.contains(p) == (sorted.to_multiset().count(p) > 0));
        assert(placed.contains(p) == (placed.to_multiset().count(p) > 0));
        if placed.contains(p) {
            let k = placed.index_of(p);
            files.lemma_filter_pred(keep, k);
            files.lemma_filter_contains_rev(keep, kept[k]);
            let i = files.index_of(kept[k]);
            assert(files[i] == kept[k]);
            assert(p =~= staging + "/boot/"@ + files[i]);
        }
        if exists|i: int|
            0 <= i < files.len() && "vmlinuz"@.is_prefix_of(#[trigger] files[i]) && p == staging
                + "/boot/"@ + files[i] {
            let i = choose|i: int|
                0 <= i < files.len() && "vmlinuz"@.is_prefix_of(#[trigger] files[i]) && p == staging
                    + "/boot/"@ + files[i];
            files.lemma_filter_contains(keep, i);
            let k = kept.index_of(files[i]);
            assert(kept[k] == files[i]);
            assert(placed[k] =~= p);
        }
    }
}

proof fn lemma_suffix_of(staging: Seq<char>, file: Seq<char>)
    requires
        file.len() > 0,
        !file.contains('/'),
        "vmlinuz"@.is_prefix_of(file),
    ensures
        suffix_of(staging + "/boot/"@ + file) == (if "vmlinuz-"@.is_prefix_of(file) {
            Some(file.skip(8))
        } else {
            None
        }),
{
    reveal_strlit("/boot/");
    reveal_strlit("vmlinuz");
    reveal_strlit("vmlinuz-");
    let dir = staging + seq!['/', 'b', 'o', 'o', 't'];
    assert(staging + "/boot/"@ + file =~= dir + seq!['/'] + file);
    assert("vmlinuz"@ == file.subrange(0, 7));
    assert(file[0] == 'v') by {
        assert("vmlinuz"@[0] == file.subrange(0, 7)[0]);
    }
    let keep = |p: Seq<char>| is_name(p);
    lemma_split_concat(dir, file);
    crate::path::lemma_single_name(file);
    Seq::filter_distributes_over_add(split(dir, '/'), split(file, '/'), keep);
    assert(names(dir + seq!['/'] + file) =~= names(dir) + seq![file]);
    assert(file_name(dir + seq!['/'] + file) == Some(file));
}

proof fn lemma_paired(images: Seq<Seq<char>>, dirs: Seq<ReleaseDir>)
    ensures
        first_paired(images, dirs) matches Some(p) ==> images.contains(p) && is_paired(p, dirs),
        first_paired(images, dirs) is None ==> forall|i: int|
            0 <= i < images.len() ==> !is_paired(#[trigger] images[i], dirs),
    decreases images.len(),
{
    if images.len() > 0 && !is_paired(images[0], dirs) {
        let rest = images.skip(1);
        lemma_paired(rest, dirs);
        if let Some(p) = first_paired(rest, dirs) {
            let k = rest.index_of(p);
            assert(rest[k] == images[k + 1]);
        } else {
            assert forall|i: int| 0 <= i < images.len() implies !is_paired(
                #[trigger] images[i],
                dirs,
            ) by {
                if i > 0 {
                    assert(rest[i - 1] == images[i]);
                }
            }
        }
    }
}

/// The kernel that is found is an image in the boot directory with the modules of
/// its own release beside it, wherever there is such a pair. Without module
/// directories, and without images, there is no kernel.
#[verifier::rlimit(40)]
pub proof fn lemma_kernel_found(
    staging: &str,
    dirs: &Vec<ReleaseDir>,
    boot_files: &Vec<String>,
    r: Result<KernelLayout, KernelLayoutError>,
    i: int,
    j: int,
)
    requires
        call_ensures(detect_kernel_layout, (staging, dirs, boot_files), r),
        staging@.len() > 0,
        staging@.last() != '/',
        forall|k: int|
            0 <= k < boot_files@.len() ==> (#[trigger] boot_files@[k])@.len() > 0
                && boot_files@[k]@ != seq!['.'] && !boot_files@[k]@.contains('/'),
        forall|k: int|
            0 <= k < dirs@.len() ==> (#[trigger] dirs@[k]).name@.len() > 0 && dirs@[k].name@[0]
                != '/',
        0 <= i < boot_files@.len(),
        0 <= j < dirs@.len(),
        boot_files@[i]@ == "vmlinuz-"@ + dirs@[j].name@,
        dirs@[j].non_empty,
    ensures
        r matches Ok(l) && exists|a: int, b: int|
            0 <= a < boot_files@.len() && 0 <= b < dirs@.len() && (#[trigger] boot_files@[a])@
                == "vmlinuz-"@ + (#[trigger] dirs@[b]).name@ && dirs@[b].non_empty && is_made_of(
                l,
                staging@,
                boot_files@[a]@,
                dirs@[b].name@,
            ),
{
    let files = texts(boot_files@);
    let found = images(staging@, files);
    reveal_strlit("vmlinuz-");
    reveal_strlit("vmlinuz");
    assert forall|k: int| 0 <= k < files.len() implies is_name(#[trigger] files[k]) && files[k][0]
        != '/' by {
        assert(boot_files@[k]@.len() > 0);
        assert(files[k].contains(files[k][0]));
    }
    lemma_image_paths(staging@, files);
    lemma_paired(found, dirs@);
    let own = boot_files@[i]@;
    assert(files[i] == own);
    assert("vmlinuz"@ =~= own.subrange(0, 7));
    assert("vmlinuz-"@ =~= own.subrange(0, 8));
    let p = staging@ + "/boot/"@ + own;
    assert(found.contains(p));
    lemma_suffix_of(staging@, own);
    assert(own.skip(8) =~= dirs@[j].name@);
    assert(has_modules(dirs@, dirs@[j].name@));
    let k = found.index_of(p);
    assert(is_paired(found[k], dirs@));
    let image = first_paired(found, dirs@)->0;
    assert(found.contains(image));
    let a = choose|a: int|
        0 <= a < files.len() && "vmlinuz"@.is_prefix_of(#[trigger] files[a]) && image == staging@
            + "/boot/"@ + files[a];
    assert(files[a] == boot_files@[a]@);
    lemma_suffix_of(staging@, files[a]);
    let release = suffix_of(image)->0;
    let b = choose|b: int|
        0 <= b < dirs@.len() && (#[trigger] dirs@[b]).name@ == release && dirs@[b].non_empty;
    assert("vmlinuz-"@ == files[a].subrange(0, 8));
    assert(files[a] =~= "vmlinuz-"@ + files[a].skip(8)) by {
        assert forall|x: int| 0 <= x < 8 implies files[a][x] == "vmlinuz-"@[x] by {
            assert("vmlinuz-"@[x] == files[a].subrange(0, 8)[x]);
        }
    }
    lemma_modules_path(staging@, release);
    assert(boot_files@[a]@ == "vmlinuz-"@ + dirs@[b].name@);
}

proof fn lemma_modules_path(staging: Seq<char>, release: Seq<char>)
    requires
        staging.len() > 0,
        staging.last() != '/',
        release.len() > 0,
        release[0] != '/',
    ensures
        crate::kernel::modules_path(staging, release) == staging + "/lib/modules/"@ + release,
{
    reveal_strlit("lib");
    reveal_strlit("modules");
    reveal_strlit("/lib/modules/");
    let lib = staging + seq!['/'] + "lib"@;
    assert(lib.last() == 'b');
    let modules = lib + seq!['/'] + "modules"@;
    assert(modules.last() == 's');
    assert(modules + seq!['/'] + release =~= staging + "/lib/modules/"@ + release);
}

proof fn lemma_paired_first(images: Seq<Seq<char>>, dirs: Seq<ReleaseDir>) -> (k: int)
    requires
        first_paired(images, dirs) is Some,
    ensures
        0 <= k < images.len(),
        images[k] == first_paired(images, dirs)->0,
        forall|m: int| 0 <= m < k ==> !is_paired(#[trigger] images[m], dirs),
    decreases images.len(),
{
    if is_paired(images[0], dirs) {
        0
    } else {
        let rest = images.skip(1);
        let k = lemma_paired_first(rest, dirs);
        assert forall|m: int| 0 <= m < k + 1 implies !is_paired(#[trigger] images[m], dirs) by {
            if m > 0 {
                assert(rest[m - 1] == images[m]);
            }
        }
        k + 1
    }
}

/// Of the images with their modules beside them, the first by its path is taken; and
/// where none is named after a release, the first image of all.
#[verifier::rlimit(40)]
pub proof fn lemma_kernel_first(
    staging: &str,
    dirs: &Vec<ReleaseDir>,
    boot_files: &Vec<String>,
    l: KernelLayout,
    i: int,
    j: int,
)
    requires
        call_ensures(detect_kernel_layout, (staging, dirs, boot_files), Ok(l)),
        staging@.len() > 0,
        staging@.last() != '/',
        forall|k: int|
            0 <= k < boot_files@.len() ==> (#[trigger] boot_files@[k])@.len() > 0
                && boot_files@[k]@ != seq!['.'] && !boot_files@[k]@.contains('/'),
        0 <= i < boot_files@.len(),
    ensures
        0 <= j < dirs@.len() && names_release(boot_files@[i]@, dirs@[j].name@) && dirs@[j].non_empty
            ==> !crate::order::path_lt(staging@ + "/boot/"@ + boot_files@[i]@, l.vmlinuz@),
        "vmlinuz"@.is_prefix_of(boot_files@[i]@) && (forall|a: int, b: int|
            0 <= a < boot_files@.len() && 0 <= b < dirs@.len() ==> !#[trigger] names_release(
                boot_files@[a]@,
                dirs@[b].name@,
            )) ==> !crate::order::path_lt(staging@ + "/boot/"@ + boot_files@[i]@, l.vmlinuz@),
{
    let files = texts(boot_files@);
    let found = images(staging@, files);
    reveal_strlit("vmlinuz-");
    reveal_strlit("vmlinuz");
    assert forall|k: int| 0 <= k < files.len() implies is_name(#[trigger] files[k]) && files[k][0]
        != '/' by {
        assert(boot_files@[k]@.len() > 0);
        assert(files[k].contains(files[k][0]));
    }
    lemma_image_paths(staging@, files);
    let own = boot_files@[i]@;
    assert(files[i] == own);
    let p = staging@ + "/boot/"@ + own;
    let placed = files.filter(is_image_name()).map_values(
        |name: Seq<char>| join_path(join_path(staging@, "boot"@), name),
    );
    assert(found == placed.sort_by(path_le()));
    if 0 <= j < dirs@.len() && names_release(own, dirs@[j].name@) && dirs@[j].non_empty {
        assert("vmlinuz"@ =~= own.subrange(0, 7));
        assert(found.contains(p));
        lemma_named_image(staging@, own);
        assert(has_modules(dirs@, dirs@[j].name@));
        let m = found.index_of(p);
        assert(found[m] == p);
        assert(is_paired(found[m], dirs@));
        lemma_paired(found, dirs@);
        let k = lemma_paired_first(found, dirs@);
        assert(k <= m);
        super::texts::lemma_in_path_order(placed, k, m);
    }
    if "vmlinuz"@.is_prefix_of(own) && (forall|a: int, b: int|
        0 <= a < boot_files@.len() && 0 <= b < dirs@.len() ==> !#[trigger] names_release(
            boot_files@[a]@,
            dirs@[b].name@,
        )) {
        assert(found.contains(p));
        let m = found.index_of(p);
        assert(found[m] == p);
        lemma_paired(found, dirs@);
        if let Some(image) = first_paired(found, dirs@) {
            assert(found.contains(image));
            let a = choose|a: int|
                0 <= a < files.len() && "vmlinuz"@.is_prefix_of(#[trigger] files[a]) && image
                    == staging@ + "/boot/"@ + files[a];
            assert(files[a] == boot_files@[a]@);
            lemma_named_image(staging@, files[a]);
            let release = suffix_of(image)->0;
            let b = choose|b: int|
                0 <= b < dirs@.len() && (#[trigger] dirs@[b]).name@ == release
                    && dirs@[b].non_empty;
            assert(names_release(boot_files@[a]@, dirs@[b].name@));
        }
        super::texts::lemma_in_path_order(placed, 0, m);
    }
}

proof fn lemma_matching(images: Seq<Seq<char>>, dirs: Seq<ReleaseDir>)
    ensures
        first_matching(images, dirs) matches Some(release) ==> has_release(dirs, release)
            && exists|i: int|
            0 <= i < images.len() && suffix_of(#[trigger] images[i]) == Some(release),
        first_matching(images, dirs) is None ==> forall|i: int|
            0 <= i < images.len() ==> (suffix_of(#[trigger] images[i]) matches Some(release)
                ==> !has_release(dirs, release)),
    decreases images.len(),
{
    if images.len() > 0 {
        let rest = images.skip(1);
        if suffix_of(images[0]) is Some && has_release(dirs, suffix_of(images[0])->0) {
        } else {
            lemma_matching(rest, dirs);
            if let Some(release) = first_matching(rest, dirs) {
                let k = choose|k: int|
                    0 <= k < rest.len() && suffix_of(#[trigger] rest[k]) == Some(release);
                assert(images[k + 1] == rest[k]);
            } else {
                assert forall|i: int| 0 <= i < images.len() implies (suffix_of(
                    #[trigger] images[i],
                ) matches Some(release) ==> !has_release(dirs, release)) by {
                    if i > 0 {
                        assert(rest[i - 1] == images[i]);
                    }
                }
            }
        }
    }
}

/// Does the file's name name the release?
pub open spec fn names_release(file: Seq<char>, release: Seq<char>) -> bool {
    file == "vmlinuz-"@ + release
}

proof fn lemma_named_image(staging: Seq<char>, file: Seq<char>)
    requires
        file.len() > 0,
        !file.contains('/'),
        "vmlinuz"@.is_prefix_of(file),
    ensures
        suffix_of(staging + "/boot/"@ + file) matches Some(release) ==> names_release(file, release),
        forall|release: Seq<char>| #[trigger]
            names_release(file, release) ==> suffix_of(staging + "/boot/"@ + file) == Some(release),
{
    reveal_strlit("vmlinuz-");
    lemma_suffix_of(staging, file);
    if "vmlinuz-"@.is_prefix_of(file) {
        assert("vmlinuz-"@ == file.subrange(0, 8));
        assert(file =~= "vmlinuz-"@ + file.skip(8)) by {
            assert forall|x: int| 0 <= x < 8 implies file[x] == "vmlinuz-"@[x] by {
                assert("vmlinuz-"@[x] == file.subrange(0, 8)[x]);
            }
        }
    }
    assert forall|release: Seq<char>| #[trigger] names_release(file, release) implies suffix_of(
        staging + "/boot/"@ + file,
    ) == Some(release) by {
        assert("vmlinuz-"@ =~= file.subrange(0, 8));
        assert(file.skip(8) =~= release);
    }
}

/// Where images are named after releases, but only after releases whose directories
/// are empty, there is no kernel: the modules of such a release are told to be
/// missing.
#[verifier::rlimit(40)]
pub proof fn lemma_modules_missing(
    staging: &str,
    dirs: &Vec<ReleaseDir>,
    boot_files: &Vec<String>,
    r: Result<KernelLayout, KernelLayoutError>,
    i: int,
    j: int,
)
    requires
        call_ensures(detect_kernel_layout, (staging, dirs, boot_files), r),
        staging@.len() > 0,
        staging@.last() != '/',
        forall|k: int|
            0 <= k < boot_files@.len() ==> (#[trigger] boot_files@[k])@.len() > 0
                && boot_files@[k]@ != seq!['.'] && !boot_files@[k]@.contains('/'),
        0 <= i < boot_files@.len(),
        0 <= j < dirs@.len(),
        names_release(boot_files@[i]@, dirs@[j].name@),
        forall|a: int, b: int|
            0 <= a < boot_files@.len() && 0 <= b < dirs@.len() && #[trigger] names_release(
                boot_files@[a]@,
                dirs@[b].name@,
            ) ==> !dirs@[b].non_empty,
    ensures
        r matches Err(KernelLayoutError::NoModules { release }) && exists|a: int, b: int|
            0 <= a < boot_files@.len() && 0 <= b < dirs@.len() && #[trigger] names_release(
                boot_files@[a]@,
                dirs@[b].name@,
            ) && release@ == dirs@[b].name@,
{
    let files = texts(boot_files@);
    let found = images(staging@, files);
    reveal_strlit("vmlinuz-");
    reveal_strlit("vmlinuz");
    assert forall|k: int| 0 <= k < files.len() implies is_name(#[trigger] files[k]) && files[k][0]
        != '/' by {
        assert(boot_files@[k]@.len() > 0);
        assert(files[k].contains(files[k][0]));
    }
    lemma_image_paths(staging@, files);
    lemma_paired(found, dirs@);
    lemma_matching(found, dirs@);
    let own = boot_files@[i]@;
    assert(files[i] == own);
    assert("vmlinuz"@ =~= own.subrange(0, 7));
    let p = staging@ + "/boot/"@ + own;
    assert(found.contains(p));
    lemma_named_image(staging@, own);
    let k = found.index_of(p);
    assert(found[k] == p);
    assert(release_names(dirs@)[j] == dirs@[j].name@);
    assert(has_release(dirs@, dirs@[j].name@));
    if let Some(image) = first_paired(found, dirs@) {
        let a = choose|a: int|
            0 <= a < files.len() && "vmlinuz"@.is_prefix_of(#[trigger] files[a]) && image
                == staging@ + "/boot/"@ + files[a];
        assert(files[a] == boot_files@[a]@);
        lemma_named_image(staging@, files[a]);
        let release = suffix_of(image)->0;
        let b = choose|b: int|
            0 <= b < dirs@.len() && (#[trigger] dirs@[b]).name@ == release && dirs@[b].non_empty;
        assert(names_release(boot_files@[a]@, dirs@[b].name@));
    }
    let release = first_matching(found, dirs@)->0;
    let m = choose|m: int| 0 <= m < found.len() && suffix_of(#[trigger] found[m]) == Some(release);
    assert(found.contains(found[m]));
    let a = choose|a: int|
        0 <= a < files.len() && "vmlinuz"@.is_prefix_of(#[trigger] files[a]) && found[m] == staging@
            + "/boot/"@ + files[a];
    assert(files[a] == boot_files@[a]@);
    lemma_named_image(staging@, files[a]);
    let b = release_names(dirs@).index_of(release);
    assert(release_names(dirs@)[b] == release);
    assert(names_release(boot_files@[a]@, dirs@[b].name@));
}

/// Where no image is named after a release, the kernel is an image with the modules
/// of the first release, if those are there.
#[verifier::rlimit(40)]
pub proof fn lemma_unnamed_kernel(
    staging: &str,
    dirs: &Vec<ReleaseDir>,
    boot_files: &Vec<String>,
    r: Result<KernelLayout, KernelLayoutError>,
    i: int,
)
    requires
        call_ensures(detect_kernel_layout, (staging, dirs, boot_files), r),
        staging@.len() > 0,
        staging@.last() != '/',
        forall|k: int|
            0 <= k < boot_files@.len() ==> (#[trigger] boot_files@[k])@.len() > 0
                && boot_files@[k]@ != seq!['.'] && !boot_files@[k]@.contains('/'),
        forall|k: int|
            0 <= k < dirs@.len() ==> (#[trigger] dirs@[k]).name@.len() > 0 && dirs@[k].name@[0]
                != '/' && dirs@[k].non_empty,
        dirs@.len() > 0,
        0 <= i < boot_files@.len(),
        "vmlinuz"@.is_prefix_of(boot_files@[i]@),
        forall|a: int, b: int|
            0 <= a < boot_files@.len() && 0 <= b < dirs@.len() ==> !#[trigger] names_release(
                boot_files@[a]@,
                dirs@[b].name@,
            ),
    ensures
        r matches Ok(l) && exists|a: int, b: int|
            0 <= a < boot_files@.len() && 0 <= b < dirs@.len() && "vmlinuz"@.is_prefix_of(
                (#[trigger] boot_files@[a])@,
            ) && is_made_of(l, staging@, boot_files@[a]@, (#[trigger] dirs@[b]).name@),
        r matches Ok(l) && forall|c: int|
            0 <= c < dirs@.len() ==> !crate::order::text_lt((#[trigger] dirs@[c]).name@, l.release@),
{
    broadcast use vstd::seq_lib::group_to_multiset_ensures;

    let files = texts(boot_files@);
    let found = images(staging@, files);
    assert forall|k: int| 0 <= k < files.len() implies is_name(#[trigger] files[k]) && files[k][0]
        != '/' by {
        assert(boot_files@[k]@.len() > 0);
        assert(files[k].contains(files[k][0]));
    }
    lemma_image_paths(staging@, files);
    lemma_paired(found, dirs@);
    lemma_matching(found, dirs@);
    assert(files[i] == boot_files@[i]@);
    assert(found.contains(staging@ + "/boot/"@ + files[i]));
    assert forall|m: int| 0 <= m < found.len() implies (suffix_of(#[trigger] found[m]) matches Some(
        release,
    ) ==> !has_release(dirs@, release)) by {
        assert(found.contains(found[m]));
        let a = choose|a: int|
            0 <= a < files.len() && "vmlinuz"@.is_prefix_of(#[trigger] files[a]) && found[m]
                == staging@ + "/boot/"@ + files[a];
        assert(files[a] == boot_files@[a]@);
        lemma_named_image(staging@, files[a]);
        if let Some(release) = suffix_of(found[m]) {
            if has_release(dirs@, release) {
                let b = release_names(dirs@).index_of(release);
                assert(release_names(dirs@)[b] == release);
                assert(names_release(boot_files@[a]@, dirs@[b].name@));
            }
        }
    }
    if let Some(image) = first_paired(found, dirs@) {
        let m = found.index_of(image);
        assert(found[m] == image);
        let release = suffix_of(image)->0;
        let b = choose|b: int|
            0 <= b < dirs@.len() && (#[trigger] dirs@[b]).name@ == release && dirs@[b].non_empty;
        assert(release_names(dirs@)[b] == release);
        assert(has_release(dirs@, release));
    }
    let all = release_names(dirs@);
    let sorted = all.sort_by(crate::order::text_le());
    crate::order::lemma_text_order();
    all.lemma_sort_by_ensures(crate::order::text_le());
    vstd::seq_lib::to_multiset_len(all);
    vstd::seq_lib::to_multiset_len(sorted);
    let first = sorted[0];
    assert(sorted.contains(first));
    assert(all.to_multiset().count(first) > 0);
    assert(all.contains(first));
    let b = all.index_of(first);
    assert(all[b] == first);
    assert(dirs@[b].name@ == first);
    assert(has_modules(dirs@, first));
    assert(found.contains(found[0]));
    let a = choose|a: int|
        0 <= a < files.len() && "vmlinuz"@.is_prefix_of(#[trigger] files[a]) && found[0] == staging@
            + "/boot/"@ + files[a];
    assert(files[a] == boot_files@[a]@);
    lemma_modules_path(staging@, first);
    let l = r->Ok_0;
    assert(is_made_of(l, staging@, boot_files@[a]@, dirs@[b].name@));
    let lt = crate::order::text_lt_fn();
    assert forall|c: int| 0 <= c < dirs@.len() implies !crate::order::text_lt(
        (#[trigger] dirs@[c]).name@,
        l.release@,
    ) by {
        let x = dirs@[c].name@;
        assert(all[c] == x);
        assert(all.contains(x));
        assert(sorted.to_multiset().count(x) > 0);
        assert(sorted.contains(x));
        let k = sorted.index_of(x);
        assert(sorted[k] == x);
        if k > 0 {
            assert(crate::order::text_le()(sorted[0], sorted[k]));
        }
        assert(lt(x, first) == crate::order::text_lt(x, first));
        assert(lt(first, x) == crate::order::text_lt(first, x));
        assert(!lt(x, x));
        assert(lt(x, first) && lt(first, x) ==> lt(x, x));
    }
}

/// Without module directories there is no kernel, nor without an image.
pub proof fn lemma_no_kernel(
    staging: &str,
    dirs: &Vec<ReleaseDir>,
    boot_files: &Vec<String>,
    r: Result<KernelLayout, KernelLayoutError>,
)
    requires
        call_ensures(detect_kernel_layout, (staging, dirs, boot_files), r),
        staging@.len() > 0,
        staging@.last() != '/',
        forall|k: int|
            0 <= k < boot_files@.len() ==> (#[trigger] boot_files@[k])@.len() > 0
                && boot_files@[k]@ != seq!['.'] && !boot_files@[k]@.contains('/'),
    ensures
        dirs@.len() == 0 ==> (r matches Err(KernelLayoutError::NoModules { .. })),
        dirs@.len() > 0 && (forall|k: int|
            0 <= k < boot_files@.len() ==> !"vmlinuz"@.is_prefix_of(
                (#[trigger] boot_files@[k])@,
            )) ==> (r matches Err(KernelLayoutError::NoVmlinuz)),
        (forall|k: int| 0 <= k < dirs@.len() ==> !(#[trigger] dirs@[k]).non_empty) ==> r is Err,
{
    let files = texts(boot_files@);
    let found = images(staging@, files);
    assert forall|k: int| 0 <= k < files.len() implies is_name(#[trigger] files[k]) && files[k][0]
        != '/' by {
        assert(boot_files@[k]@.len() > 0);
        assert(files[k].contains(files[k][0]));
    }
    lemma_image_paths(staging@, files);
    if forall|k: int|
        0 <= k < boot_files@.len() ==> !"vmlinuz"@.is_prefix_of((#[trigger] boot_files@[k])@) {
        if found.len() > 0 {
            assert(found.contains(found[0]));
            let i = choose|i: int|
                0 <= i < files.len() && "vmlinuz"@.is_prefix_of(#[trigger] files[i]) && found[0]
                    == staging@ + "/boot/"@ + files[i];
            assert(files[i] == boot_files@[i]@);
        }
    }
    lemma_paired(found, dirs@);
}

} // verus!
