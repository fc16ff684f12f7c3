//! How a bootable image says to boot it: its labels.
use vstd::prelude::*;
use crate::architecture::Architecture;
use crate::arg_subst::{global_scope, resolve_global_args, subst_with, substitute};
use crate::ast::{Ast, EntrypointInit, FromSource, Stage};
use crate::boot::ROOTFS_FSTYPE;
use crate::image::{empty_config, ConfigView, ContainerView, ImageConfig};
use crate::kernel::KernelLayout;
use crate::l0::{KindView, L0Kind};
use crate::label;
use crate::path::{below, part_below};
use crate::text::{
    chars_of, concat2, concat3, replace_char, replaced, texts, trim, trimmed,
};
use crate::text_map::{lemma_text_values_insert, text_values, TextMap};
use super::validate::{
    container_only, first_container_only, last_entrypoint, last_flavor, pick_entrypoint,
    pick_flavor, validate_ast_for_vm,
};
use super::{BootableBuildError, BootableBuildOptions};

verus! {

/// Does the kernel end a word of its command line at `c`?
pub open spec fn is_ascii_space(c: char) -> bool {
    c == ' ' || c == '\t' || c == '\n' || c == '\x0C' || c == '\r'
}

/// Is there a space in the word?
pub open spec fn has_space(s: Seq<char>) -> bool {
    exists|i: int| 0 <= i < s.len() && is_ascii_space(#[trigger] s[i])
}

/// A word of the kernel's command line: in quotes where there is a space in it.
pub open spec fn cmdline_token(s: Seq<char>) -> Seq<char> {
    if has_space(s) {
        "\""@ + replace_char(s, '"', "\\\""@) + "\""@
    } else {
        s
    }
}

/// A word of the kernel's command line.
pub fn quote_cmdline_token(token: &str) -> (r: String)
    ensures
        r@ == cmdline_token(token@),
{
    let v = chars_of(token);
    let mut i: usize = 0;
    while i < v.len()
        invariant
            i <= v@.len(),
            v@ == token@,
            forall|j: int| 0 <= j < i ==> !is_ascii_space(#[trigger] v@[j]),
        decreases v.len() - i,
    {
        let c = v[i];
        if c == ' ' || c == '\t' || c == '\n' || c == '\x0C' || c == '\r' {
            assert(is_ascii_space(token@[i as int]));
            let body = replaced(token, '"', "\\\"");
            return concat3("\"", body.as_str(), "\"");
        }
        i += 1;
    }
    String::from_str(token)
}

/// The words, each behind a space.
pub open spec fn spaced_tokens(args: Seq<Seq<char>>) -> Seq<char>
    decreases args.len(),
{
    if args.len() == 0 {
        Seq::empty()
    } else {
        spaced_tokens(args.drop_last()) + " "@ + cmdline_token(args.last())
    }
}

/// The program that an image without an init system starts, and its arguments.
pub open spec fn appliance_argv(init: EntrypointInit) -> Option<Seq<Seq<char>>> {
    match init {
        EntrypointInit::Path(s) => Some(seq![s@]),
        EntrypointInit::Exec(v) => if v@.len() > 0 {
            Some(texts(v@))
        } else {
            None
        },
        _ => None,
    }
}

/// What the kernel's command line says of the program to start: the program,
/// and its arguments behind two dashes.
pub open spec fn init_fragment(argv: Seq<Seq<char>>) -> Seq<char> {
    let head = " init="@ + cmdline_token(argv[0]);
    if argv.len() > 1 {
        head + " --"@ + spaced_tokens(argv.skip(1))
    } else {
        head
    }
}

fn write_fragment(argv: &Vec<String>) -> (r: String)
    requires
        argv@.len() > 0,
    ensures
        r@ == init_fragment(texts(argv@)),
{
    let ghost all = texts(argv@);
    let mut out = concat2(" init=", quote_cmdline_token(argv[0].as_str()).as_str());
    if argv.len() > 1 {
        out.append(" --");
        let ghost head = out@;
        let ghost rest = all.skip(1);
        let mut i: usize = 1;
        proof {
            assert(rest.take(0) =~= Seq::empty());
            assert(head + spaced_tokens(rest.take(0)) =~= head);
        }
        while i < argv.len()
            invariant
                1 <= i <= argv@.len(),
                all == texts(argv@),
                rest == all.skip(1),
                out@ == head + spaced_tokens(rest.take(i as int - 1)),
            decreases argv.len() - i,
        {
            let token = quote_cmdline_token(argv[i].as_str());
            proof {
                assert(rest.take(i as int).drop_last() =~= rest.take(i as int - 1));
                assert(rest.take(i as int).last() == argv@[i as int]@);
            }
            out.append(" ");
            out.append(token.as_str());
            proof {
                assert(out@ =~= head + spaced_tokens(rest.take(i as int)));
            }
            i += 1;
        }
        assert(rest.take(i as int - 1) =~= rest);
    }
    out
}

/// What the kernel's command line says of the program to start; nothing for an
/// init system.
pub fn appliance_init_cmdline(init: &EntrypointInit) -> (r: Option<String>)
    ensures
        match appliance_argv(*init) {
            Some(argv) => r matches Some(s) && s@ == init_fragment(argv),
            None => r is None,
        },
{
    match init {
        EntrypointInit::Path(s) => {
            let mut argv: Vec<String> = Vec::new();
            argv.push(s.clone());
            assert(texts(argv@) =~= seq![s@]);
            Some(write_fragment(&argv))
        },
        EntrypointInit::Exec(v) => if v.len() > 0 {
            Some(write_fragment(v))
        } else {
            None
        },
        EntrypointInit::Systemd | EntrypointInit::OpenRc | EntrypointInit::NoInit => None,
    }
}

/// A path of the staging tree as a path of the image.
pub open spec fn image_path(abs: Seq<char>, root: Seq<char>) -> Seq<char> {
    "/"@ + (match below(abs, root) {
        Some(rel) => rel,
        None => abs,
    })
}

/// A path of the staging tree as a path of the image.
pub fn rootfs_path(abs: &str, root: &str) -> (r: String)
    ensures
        r@ == image_path(abs@, root@),
{
    match part_below(abs, root) {
        Some(rel) => concat2("/", rel.as_str()),
        None => concat2("/", abs),
    }
}

/// What the label says of the `ENTRYPOINT`.
pub open spec fn entrypoint_word(init: EntrypointInit) -> Seq<char> {
    match init {
        EntrypointInit::Systemd => "systemd"@,
        EntrypointInit::OpenRc => "openrc"@,
        EntrypointInit::Path(_) => "appliance"@,
        EntrypointInit::Exec(_) => "appliance"@,
        EntrypointInit::NoInit => "none"@,
    }
}

/// What the label says of the `ENTRYPOINT`.
pub fn entrypoint_label(init: &EntrypointInit) -> (r: String)
    ensures
        r@ == entrypoint_word(*init),
{
    match init {
        EntrypointInit::Systemd => String::from_str("systemd"),
        EntrypointInit::OpenRc => String::from_str("openrc"),
        EntrypointInit::Path(_) | EntrypointInit::Exec(_) => String::from_str("appliance"),
        EntrypointInit::NoInit => String::from_str("none"),
    }
}

/// What is put on the kernel's command line.
pub open spec fn extra_cmdline(init: EntrypointInit) -> Seq<char> {
    match appliance_argv(init) {
        Some(argv) => trim(init_fragment(argv)),
        None => Seq::empty(),
    }
}

/// The labels that say how to boot an image.
pub open spec fn boot_labels(
    init: EntrypointInit,
    release: Seq<char>,
    vmlinuz: Seq<char>,
    initramfs: Option<Seq<char>>,
    flavor: Seq<char>,
) -> Map<Seq<char>, Seq<char>> {
    let base = Map::<Seq<char>, Seq<char>>::empty().insert(
        label::ENTRYPOINT@,
        entrypoint_word(init),
    ).insert(label::KERNEL_RELEASE@, release).insert(label::KERNEL_VMLINUZ@, vmlinuz);
    let with_cmdline = if extra_cmdline(init).len() > 0 {
        base.insert(label::KERNEL_CMDLINE@, extra_cmdline(init))
    } else {
        base
    };
    let with_initramfs = match initramfs {
        Some(name) => with_cmdline.insert(label::INITRAMFS@, "/boot/"@ + name),
        None => with_cmdline,
    };
    with_initramfs.insert(label::ROOTFS_FS@, ROOTFS_FSTYPE@).insert(label::FLAVOR@, flavor)
}

fn put(labels: &mut TextMap<String>, key: &str, value: String)
    ensures
        text_values(final(labels)@) == text_values(old(labels)@).insert(key@, value@),
{
    proof {
        lemma_text_values_insert(labels@, key@, value);
    }
    labels.insert(String::from_str(key), value);
}

/// The labels that say how to boot an image. The kernel is at a path of the
/// staging tree `root`; `initramfs` is the name of the initramfs below `/boot`.
pub fn boot_manifest(
    init: &EntrypointInit,
    kernel: &KernelLayout,
    root: &str,
    initramfs: Option<&str>,
    flavor: &str,
) -> (r: TextMap<String>)
    ensures
        text_values(r@) == boot_labels(
            *init,
            kernel.release@,
            image_path(kernel.vmlinuz@, root@),
            match initramfs {
                Some(name) => Some(name@),
                None => None,
            },
            flavor@,
        ),
{
    let mut labels: TextMap<String> = TextMap::new();
    assert(text_values(labels@) =~= Map::empty());
    put(&mut labels, label::ENTRYPOINT, entrypoint_label(init));
    put(&mut labels, label::KERNEL_RELEASE, kernel.release.clone());
    put(&mut labels, label::KERNEL_VMLINUZ, rootfs_path(kernel.vmlinuz.as_str(), root));
    let cmdline = match appliance_init_cmdline(init) {
        Some(s) => trimmed(s.as_str()),
        None => String::new(),
    };
    if !cmdline.as_str().is_empty() {
        put(&mut labels, label::KERNEL_CMDLINE, cmdline);
    }
    if let Some(name) = initramfs {
        put(&mut labels, label::INITRAMFS, concat2("/boot/", name));
    }
    put(&mut labels, label::ROOTFS_FS, String::from_str(ROOTFS_FSTYPE));
    put(&mut labels, label::FLAVOR, String::from_str(flavor));
    labels
}

/// The configuration of a bootable image.
pub open spec fn bootable_config(
    architecture: Architecture,
    labels: Map<Seq<char>, Seq<char>>,
) -> ConfigView {
    let empty = empty_config(architecture.oci_name(), KindView::Bootable);
    ConfigView { container: ContainerView { labels, ..empty.container }, ..empty }
}

/// The configuration of a bootable image.
pub fn image_config(architecture: Architecture, labels: TextMap<String>) -> (r: ImageConfig)
    ensures
        r@ == bootable_config(architecture, text_values(labels@)),
{
    let mut config = ImageConfig::empty(architecture.oci_arch_string(), L0Kind::Bootable);
    config.container.labels = labels;
    assert(config@ =~= bootable_config(architecture, text_values(labels@)));
    config
}

/// What is known of a bootable build before it starts.
#[derive(Debug)]
pub struct VmPlan {
    /// The build-global scope.
    pub globals: TextMap<String>,
    /// The reference of the kernel.
    pub from_kernel_ref: String,
    /// The boot flavor.
    pub flavor: String,
    /// Was the flavor defaulted?
    pub flavor_defaulted: bool,
    /// Does the image get an initramfs?
    pub needs_initramfs: bool,
}

/// What the image starts: what the recipe says, else systemd.
pub open spec fn started(stage: Stage) -> EntrypointInit {
    match last_entrypoint(stage.directives@, stage.directives@.len() as int) {
        Some(init) => init,
        None => EntrypointInit::Systemd,
    }
}

/// Is it what is known of a bootable build before it starts, or why the recipe
/// is refused?
pub open spec fn is_vm_plan(
    r: Result<VmPlan, BootableBuildError>,
    ast: Ast,
    build_args: Map<Seq<char>, Seq<char>>,
) -> bool {
    let stage = ast.stages@.last();
    match r {
        Ok(p) => {
            let globals = global_scope(ast, build_args);
            &&& ast.stages@.len() > 0
            &&& forall|i: int|
                0 <= i < stage.directives@.len() ==> container_only(
                    #[trigger] stage.directives@[i],
                ) is None
            &&& text_values(p.globals@) == globals
            &&& (stage.from matches FromSource::Reference(text) && p.from_kernel_ref@
                == substitute(text@, globals))
            &&& match last_flavor(stage.directives@, stage.directives@.len() as int) {
                Some(value) => p.flavor@ == value && !p.flavor_defaulted,
                None => p.flavor@ == "systemd-boot"@ && p.flavor_defaulted,
            }
            &&& p.needs_initramfs == started(stage).starts_init_system()
        },
        Err(e) => if ast.stages@.len() == 0 {
            e is EmptyAst
        } else if stage.from is Scratch {
            e is VmRequiresKernelFromRef
        } else {
            exists|i: int| #[trigger]
                first_container_only(stage.directives@, i) && (
                e matches BootableBuildError::ContainerOnlyDirective { directive } && Some(
                    directive@,
                ) == container_only(stage.directives@[i]))
        },
    }
}

/// Prepares a bootable build.
pub fn build_vm(ast: &Ast, options: &BootableBuildOptions) -> (r: Result<VmPlan, BootableBuildError>)
    ensures
        is_vm_plan(r, *ast, text_values(options.build_args@)),
{
    let stage = match validate_ast_for_vm(ast) {
        Ok(stage) => stage,
        Err(e) => {
            return Err(e);
        },
    };
    let globals = resolve_global_args(ast, &options.build_args);
    let (flavor, flavor_defaulted) = pick_flavor(stage);
    let needs_initramfs = match pick_entrypoint(stage) {
        Some(init) => init.is_init_system(),
        None => true,
    };
    let from_kernel_ref = match &stage.from {
        FromSource::Reference(text) => subst_with(&globals, text.as_str()),
        FromSource::Scratch => String::new(),
    };
    Ok(VmPlan { globals, from_kernel_ref, flavor, flavor_defaulted, needs_initramfs })
}

/// Does the position `n` of a kernel command line lie inside double quotes?
pub open spec fn inside_quotes(s: Seq<char>, n: int) -> bool
    decreases n,
{
    n > 0 && inside_quotes(s, n - 1) != (s[n - 1] == '"')
}

/// Does the kernel read `s` as one word? Only a space outside quotes ends a word.
pub open spec fn is_one_word(s: Seq<char>) -> bool {
    &&& forall|i: int| 0 <= i < s.len() && is_ascii_space(#[trigger] s[i]) ==> inside_quotes(s, i)
    &&& !inside_quotes(s, s.len() as int)
}

proof fn lemma_no_quotes(s: Seq<char>, n: int)
    requires
        0 <= n <= s.len(),
        !s.contains('"'),
    ensures
        !inside_quotes(s, n),
    decreases n,
{
    if n > 0 {
        lemma_no_quotes(s, n - 1);
        assert(s.contains(s[n - 1]));
    }
}

proof fn lemma_in_quotes(s: Seq<char>, n: int)
    requires
        1 <= n <= s.len() + 1,
        !s.contains('"'),
    ensures
        inside_quotes(seq!['"'] + s + seq!['"'], n),
    decreases n,
{
    let t = seq!['"'] + s + seq!['"'];
    if n > 1 {
        lemma_in_quotes(s, n - 1);
        assert(t[n - 1] == s[n - 2]);
        assert(s.contains(s[n - 2]));
    } else {
        assert(!inside_quotes(t, 0));
        assert(t[0] == '"');
    }
}

/// A path or an argument without double quotes stays one word for the kernel,
/// whatever spaces it holds, and the word is the text, in quotes where it needs
/// them.
pub proof fn lemma_token_one_word(s: Seq<char>)
    requires
        !s.contains('"'),
    ensures
        is_one_word(cmdline_token(s)),
        cmdline_token(s) == (if has_space(s) {
            seq!['"'] + s + seq!['"']
        } else {
            s
        }),
{
    let t = cmdline_token(s);
    if has_space(s) {
        reveal_strlit("\"");
        assert("\""@ =~= seq!['"']);
        lemma_nothing_replaced(s);
        assert forall|i: int| 0 <= i < t.len() && is_ascii_space(#[trigger] t[i]) implies inside_quotes(
            t,
            i,
        ) by {
            lemma_in_quotes(s, i);
        }
        lemma_in_quotes(s, s.len() as int + 1);
        assert(t[t.len() - 1] == '"');
    } else {
        lemma_no_quotes(s, s.len() as int);
    }
}

proof fn lemma_nothing_replaced(s: Seq<char>)
    requires
        !s.contains('"'),
    ensures
        replace_char(s, '"', "\\\""@) == s,
    decreases s.len(),
{
    if s.len() > 0 {
        assert forall|i: int| 0 <= i < s.drop_last().len() implies s.drop_last()[i] != '"' by {
            assert(s[i] == s.drop_last()[i]);
        }
        lemma_nothing_replaced(s.drop_last());
        assert(s.last() == s[s.len() - 1]);
        assert(s.drop_last() + seq![s.last()] =~= s);
    }
}

} // verus!
