//! Bootable images: what a recipe must be, how the image says how it boots, and
//! what runs in it.
use vstd::prelude::*;
use crate::architecture::Architecture;
use crate::arg_subst::{global_scope, scope_after, substitute};
use crate::ast::{Ast, Directive, EntrypointInit, FromSource, RunCommand, Stage};
use crate::boot::ROOTFS_FSTYPE;
use crate::bootable::manifest::{
    appliance_init_cmdline, boot_labels, boot_manifest, build_vm, cmdline_token, extra_cmdline,
    has_space, image_config, image_path, is_ascii_space, quote_cmdline_token, rootfs_path,
    spaced_tokens, VmPlan,
};
use crate::bootable::run::{
    check_run_step, context_behind, is_run_step, quoted_words, rendered, shell_quote, shell_quoted,
    wrap_run_command, ContextView, RunAction,
};
use crate::bootable::validate::{
    container_only, last_entrypoint, last_flavor, pick_entrypoint, pick_flavor,
    validate_ast_for_vm,
};
use crate::bootable::{BootableBuildError, BootableBuildOptions};
use crate::image::ImageConfig;
use crate::kernel::KernelLayout;
use crate::l0::KindView;
use crate::label;
use crate::path::below;
use crate::text::{join, replace_char, replaced, texts, trim};
use crate::text_map::{text_values, TextMap};
use crate::vm_runner::RunStepResult;

verus! {

/// A recipe for a bootable image starts its last stage from a kernel, and holds
/// nothing there that only a container has.
pub proof fn lemma_recipe_accepted(ast: &Ast, r: Result<&Stage, BootableBuildError>)
    requires
        call_ensures(validate_ast_for_vm, (ast,), r),
    ensures
        r is Ok <==> ast.stages@.len() > 0 && ast.stages@.last().from is Reference && forall|i: int|
            0 <= i < ast.stages@.last().directives@.len() ==> !(
            #[trigger] ast.stages@.last().directives@[i] is Cmd)
                && !(ast.stages@.last().directives@[i] is Volume)
                && !(ast.stages@.last().directives@[i] is Stopsignal),
        r matches Ok(stage) ==> *stage == ast.stages@.last(),
        ast.stages@.len() == 0 ==> (r matches Err(e) && e is EmptyAst),
{
    let ds = ast.stages@.last().directives@;
    if r is Ok {
        assert forall|i: int| 0 <= i < ds.len() implies !(#[trigger] ds[i] is Cmd) && !(ds[i]
            is Volume) && !(ds[i] is Stopsignal) by {
            assert(container_only(ds[i]) is None);
        }
    } else if ast.stages@.len() > 0 && ast.stages@.last().from is Reference {
        let i = choose|i: int| #[trigger]
            crate::bootable::validate::first_container_only(ds, i);
        assert(container_only(ds[i]) is Some);
    }
}

/// Is the word the name of the directive?
pub open spec fn is_word_for(word: Seq<char>, d: Directive) -> bool {
    ||| d is Cmd && word == "CMD"@
    ||| d is Volume && word == "VOLUME"@
    ||| d is Stopsignal && word == "STOPSIGNAL"@
}

/// A recipe that is refused for a directive is told the first such directive, by its
/// name.
pub proof fn lemma_refused_directive(ast: &Ast, e: BootableBuildError)
    requires
        call_ensures(validate_ast_for_vm, (ast,), Err(e)),
        ast.stages@.len() > 0,
        ast.stages@.last().from is Reference,
    ensures
        exists|i: int|
            0 <= i < ast.stages@.last().directives@.len() && (
            e matches BootableBuildError::ContainerOnlyDirective { directive } && is_word_for(
                directive@,
                #[trigger] ast.stages@.last().directives@[i],
            )) && forall|j: int|
                0 <= j < i ==> !(#[trigger] ast.stages@.last().directives@[j] is Cmd)
                    && !(ast.stages@.last().directives@[j] is Volume)
                    && !(ast.stages@.last().directives@[j] is Stopsignal),
{
    let ds = ast.stages@.last().directives@;
    let i = choose|i: int| #[trigger]
        crate::bootable::validate::first_container_only(ds, i) && (
        e matches BootableBuildError::ContainerOnlyDirective { directive } && Some(directive@)
            == container_only(ds[i]));
    let word = e->ContainerOnlyDirective_directive@;
    assert(is_word_for(word, ds[i]));
    assert forall|j: int| 0 <= j < i implies !(#[trigger] ds[j] is Cmd) && !(ds[j] is Volume)
        && !(ds[j] is Stopsignal) by {
        assert(container_only(ds[j]) is None);
    }
}

/// Is the directive a label that names the flavor?
pub open spec fn names_flavor(d: Directive) -> bool {
    d matches Directive::Label(l) && l.key@ == "org.imagilux.umf.flavor"@
}

proof fn lemma_flavor_at(ds: Seq<Directive>, n: int, i: int)
    requires
        0 <= n <= ds.len(),
    ensures
        0 <= i < n && names_flavor(ds[i]) && (forall|j: int|
            i < j < n ==> !names_flavor(#[trigger] ds[j])) ==> last_flavor(ds, n) == Some(
            ds[i]->Label_0.value@,
        ),
        (forall|j: int| 0 <= j < n ==> !names_flavor(#[trigger] ds[j])) ==> last_flavor(ds, n)
            is None,
    decreases n,
{
    if n > 0 {
        lemma_flavor_at(ds, n - 1, i);
    }
}

/// The flavor is that of the last label that names one, and `systemd-boot` where
/// none does.
pub proof fn lemma_flavor(stage: &Stage, r: (String, bool), i: int)
    requires
        call_ensures(pick_flavor, (stage,), r),
    ensures
        0 <= i < stage.directives@.len() && names_flavor(stage.directives@[i]) && (forall|j: int|
            i < j < stage.directives@.len() ==> !names_flavor(#[trigger] stage.directives@[j]))
            ==> r.0@ == stage.directives@[i]->Label_0.value@ && !r.1,
        (forall|j: int|
            0 <= j < stage.directives@.len() ==> !names_flavor(#[trigger] stage.directives@[j]))
            ==> r.0@ == "systemd-boot"@ && r.1,
{
    lemma_flavor_at(stage.directives@, stage.directives@.len() as int, i);
}

proof fn lemma_entrypoint_at(ds: Seq<Directive>, n: int, i: int)
    requires
        0 <= n <= ds.len(),
    ensures
        0 <= i < n && ds[i] is Entrypoint && (forall|j: int|
            i < j < n ==> !(#[trigger] ds[j] is Entrypoint)) ==> last_entrypoint(ds, n) == Some(
            ds[i]->Entrypoint_0.init,
        ),
        (forall|j: int| 0 <= j < n ==> !(#[trigger] ds[j] is Entrypoint)) ==> last_entrypoint(ds, n)
            is None,
    decreases n,
{
    if n > 0 {
        lemma_entrypoint_at(ds, n - 1, i);
    }
}

/// The last `ENTRYPOINT` counts.
pub proof fn lemma_picked_entrypoint(stage: &Stage, r: Option<&EntrypointInit>, i: int)
    requires
        call_ensures(pick_entrypoint, (stage,), r),
    ensures
        0 <= i < stage.directives@.len() && stage.directives@[i] is Entrypoint && (forall|j: int|
            i < j < stage.directives@.len() ==> !(#[trigger] stage.directives@[j] is Entrypoint))
            ==> (r matches Some(init) && *init == stage.directives@[i]->Entrypoint_0.init),
        (forall|j: int|
            0 <= j < stage.directives@.len() ==> !(#[trigger] stage.directives@[j] is Entrypoint))
            ==> r is None,
{
    lemma_entrypoint_at(stage.directives@, stage.directives@.len() as int, i);
}

/// The kernel is the reference of `FROM`, global `ARG`s replaced, and the flavor that
/// of the last stage. An initramfs is made exactly for what starts an init system, as
/// an image without `ENTRYPOINT` does.
pub proof fn lemma_vm_plan(
    ast: &Ast,
    options: &BootableBuildOptions,
    r: Result<VmPlan, BootableBuildError>,
    i: int,
    last: &Stage,
    flavor: (String, bool),
)
    requires
        call_ensures(build_vm, (ast, options), r),
        ast.stages@.len() > 0,
        *last == ast.stages@.last(),
        call_ensures(pick_flavor, (last,), flavor),
    ensures
        r matches Ok(p) ==> p.flavor@ == flavor.0@ && p.flavor_defaulted == flavor.1
            && text_values(p.globals@) == global_scope(*ast, text_values(options.build_args@)),
        ({
            let stage = ast.stages@.last();
            let ds = stage.directives@;
            &&& r matches Ok(p) ==> (stage.from matches FromSource::Reference(text)
                && p.from_kernel_ref@ == substitute(
                text@,
                global_scope(*ast, text_values(options.build_args@)),
            ))
            &&& r is Ok && (forall|j: int| 0 <= j < ds.len() ==> !(#[trigger] ds[j] is Entrypoint))
                ==> r->Ok_0.needs_initramfs
            &&& r is Ok && 0 <= i < ds.len() && ds[i] is Entrypoint && (forall|j: int|
                i < j < ds.len() ==> !(#[trigger] ds[j] is Entrypoint))
                ==> r->Ok_0.needs_initramfs == (ds[i]->Entrypoint_0.init is Systemd
                || ds[i]->Entrypoint_0.init is OpenRc)
            &&& stage.from is Scratch ==> (r matches Err(e) && e is VmRequiresKernelFromRef)
        }),
{
    let ds = ast.stages@.last().directives@;
    lemma_entrypoint_at(ds, ds.len() as int, i);
}

/// A word without a blank is written on the command line as it is; one with a
/// blank, and without quotes, in double quotes.
pub proof fn lemma_cmdline_token(token: &str, r: String)
    requires
        call_ensures(quote_cmdline_token, (token,), r),
        !token@.contains('"'),
    ensures
        token@.contains(' ') || token@.contains('\t') || token@.contains('\n') ==> r@ == seq!['"']
            + token@ + seq!['"'],
        (forall|i: int|
            0 <= i < token@.len() ==> #[trigger] token@[i] != ' ' && token@[i] != '\t' && token@[i]
                != '\n' && token@[i] != '\r' && token@[i] != '\x0C') ==> r@ == token@,
{
    reveal_strlit("\"");
    assert("\""@ =~= seq!['"']);
    lemma_no_replacement(token@, '"', "\\\""@);
    if token@.contains(' ') || token@.contains('\t') || token@.contains('\n') {
        let c = if token@.contains(' ') {
            ' '
        } else if token@.contains('\t') {
            '\t'
        } else {
            '\n'
        };
        let i = token@.index_of(c);
        assert(is_ascii_space(token@[i]));
        assert(has_space(token@));
    }
}

/// A word with a blank is quoted, and each quote in it gets a backslash before it.
pub proof fn lemma_cmdline_quotes(token: &str, r: String, with: &str, inner: String, i: int)
    requires
        call_ensures(quote_cmdline_token, (token,), r),
        with@ == seq!['\\', '"'],
        call_ensures(replaced, (token, '"', with), inner),
        0 <= i < token@.len(),
        token@[i] == ' ' || token@[i] == '\t' || token@[i] == '\n' || token@[i] == '\r'
            || token@[i] == '\x0C',
    ensures
        r@ == seq!['"'] + inner@ + seq!['"'],
{
    reveal_strlit("\"");
    reveal_strlit("\\\"");
    assert("\""@ =~= seq!['"']);
    assert("\\\""@ =~= with@);
    assert(is_ascii_space(token@[i]));
    assert(has_space(token@));
}

/// The program of an image, and each of its arguments, stands on the command line as
/// one quoted word.
#[verifier::rlimit(40)]
pub proof fn lemma_init_words(
    init: &EntrypointInit,
    r: Option<String>,
    longer: &EntrypointInit,
    q: Option<String>,
    program: &str,
    w: String,
    argument: &str,
    a: String,
)
    requires
        call_ensures(appliance_init_cmdline, (init,), r),
        call_ensures(appliance_init_cmdline, (longer,), q),
        call_ensures(quote_cmdline_token, (program,), w),
        call_ensures(quote_cmdline_token, (argument,), a),
    ensures
        *init is Path && (*init)->Path_0@ == program@ ==> (r matches Some(t) && t@ == " init="@
            + w@),
        *init is Exec && (*init)->Exec_0@.len() == 1 && (*init)->Exec_0@[0]@ == program@ ==> (
        r matches Some(t) && t@ == " init="@ + w@),
        *init is Exec && (*init)->Exec_0@.len() == 2 && (*init)->Exec_0@[0]@ == program@
            && (*init)->Exec_0@[1]@ == argument@ ==> (r matches Some(t) && t@ == " init="@ + w@
            + " -- "@ + a@),
        (*init is Exec && *longer is Exec && (*init)->Exec_0@.len() >= 2
            && (*longer)->Exec_0@.len() == (*init)->Exec_0@.len() + 1
            && (*longer)->Exec_0@.drop_last() == (*init)->Exec_0@
            && (*longer)->Exec_0@.last()@ == argument@) ==> (r matches Some(t)
            && q matches Some(u) && u@ == t@ + " "@ + a@),
{
    reveal_strlit(" --");
    reveal_strlit(" ");
    reveal_strlit(" -- ");
    assert(" --"@ + " "@ =~= " -- "@);
    if *init is Path {
        assert(seq![(*init)->Path_0@][0] == (*init)->Path_0@);
    }
    if let EntrypointInit::Exec(v) = *init {
        let argv = texts(v@);
        if v@.len() == 2 && v@[0]@ == program@ && v@[1]@ == argument@ {
            let one = argv.skip(1);
            assert(one.drop_last() =~= Seq::empty());
            assert(one.last() == argv[1]);
            assert(spaced_tokens(one.drop_last()) =~= Seq::empty());
            let head = " init="@ + w@;
            assert(head + " --"@ + (Seq::<char>::empty() + " "@ + a@) =~= head + " -- "@ + a@);
        }
        if let EntrypointInit::Exec(m) = *longer {
            let more = texts(m@);
            if v@.len() >= 2 && m@.len() == v@.len() + 1 && m@.drop_last() == v@ {
                assert(more.skip(1).drop_last() =~= argv.skip(1)) by {
                    assert forall|k: int| 0 <= k < argv.skip(1).len() implies more.skip(
                        1,
                    ).drop_last()[k] == argv.skip(1)[k] by {
                        assert(m@.drop_last()[k + 1] == v@[k + 1]);
                    }
                }
                assert(m@.drop_last()[0] == v@[0]);
                assert(more[0] == argv[0]);
                assert(more.skip(1).last() == m@.last()@);
                let head = " init="@ + cmdline_token(argv[0]);
                let t = spaced_tokens(argv.skip(1));
                if m@.last()@ == argument@ {
                    assert(head + " --"@ + (t + " "@ + a@) =~= head + " --"@ + t + " "@ + a@);
                }
            }
        }
    }
}

proof fn lemma_no_replacement(s: Seq<char>, c: char, with: Seq<char>)
    requires
        !s.contains(c),
    ensures
        replace_char(s, c, with) == s,
    decreases s.len(),
{
    if s.len() > 0 {
        assert(s.contains(s.last()));
        assert(!s.drop_last().contains(c)) by {
            if s.drop_last().contains(c) {
                let i = s.drop_last().index_of(c);
                assert(s[i] == c);
            }
        }
        lemma_no_replacement(s.drop_last(), c, with);
        assert(replace_char(s, c, with) =~= s);
    }
}

/// Is the text free of blanks?
pub open spec fn is_plain_word(s: Seq<char>) -> bool {
    forall|i: int| 0 <= i < s.len() ==> !is_ascii_space(#[trigger] s[i])
}

/// The kernel is told to start the program of the image, and what to pass to it:
/// behind ` init=` the program, and behind ` -- ` its arguments, with a blank
/// before each. An init system needs to be told nothing.
#[verifier::rlimit(40)]
pub proof fn lemma_init_cmdline(
    init: &EntrypointInit,
    r: Option<String>,
    longer: &EntrypointInit,
    q: Option<String>,
)
    requires
        call_ensures(appliance_init_cmdline, (init,), r),
        call_ensures(appliance_init_cmdline, (longer,), q),
    ensures
        *init is Systemd || *init is OpenRc || *init is NoInit ==> r is None,
        *init matches EntrypointInit::Path(s) && is_plain_word(s@) ==> (r matches Some(t) && t@
            == " init="@ + (*init)->Path_0@),
        *init matches EntrypointInit::Exec(v) && v@.len() == 1 && is_plain_word(v@[0]@) ==> (
        r matches Some(t) && t@ == " init="@ + (*init)->Exec_0@[0]@),
        *init matches EntrypointInit::Exec(v) && v@.len() == 2 && is_plain_word(v@[0]@)
            && is_plain_word(v@[1]@) ==> (r matches Some(t) && t@ == " init="@
            + (*init)->Exec_0@[0]@ + " -- "@ + (*init)->Exec_0@[1]@),
        (*init is Exec && *longer is Exec && (*init)->Exec_0@.len() >= 2
            && (*longer)->Exec_0@.len() == (*init)->Exec_0@.len() + 1
            && (*longer)->Exec_0@.drop_last() == (*init)->Exec_0@ && is_plain_word(
            (*longer)->Exec_0@.last()@,
        )) ==> (r matches Some(t) && q matches Some(u) && u@ == t@ + " "@
            + (*longer)->Exec_0@.last()@),
{
    reveal_strlit(" --");
    reveal_strlit(" ");
    reveal_strlit(" -- ");
    assert(" --"@ + " "@ =~= " -- "@);
    if let EntrypointInit::Path(s) = *init {
        assert(seq![s@][0] == s@);
        if is_plain_word(s@) {
            assert(!has_space(s@));
        }
    }
    if let EntrypointInit::Exec(v) = *init {
        let argv = texts(v@);
        if v@.len() == 2 && is_plain_word(v@[0]@) && is_plain_word(v@[1]@) {
            assert(!has_space(argv[0]) && !has_space(argv[1]));
            let one = argv.skip(1);
            assert(one.drop_last() =~= Seq::empty());
            assert(one.last() == argv[1]);
            assert(spaced_tokens(one.drop_last()) =~= Seq::empty());
            let head = " init="@ + argv[0];
            assert(head + " --"@ + (Seq::<char>::empty() + " "@ + argv[1]) =~= head + " -- "@
                + argv[1]);
        }
        if v@.len() == 1 && is_plain_word(v@[0]@) {
            assert(!has_space(argv[0]));
        }
        if let EntrypointInit::Exec(w) = *longer {
            if v@.len() >= 2 && w@.len() == v@.len() + 1 && w@.drop_last() == v@ && is_plain_word(
                w@.last()@,
            ) {
                let more = texts(w@);
                assert(more.drop_last() =~= argv) by {
                    assert forall|i: int| 0 <= i < argv.len() implies argv[i]
                        == more.drop_last()[i] by {
                        assert(w@.drop_last()[i] == w@[i]);
                    }
                }
                assert(more.skip(1).drop_last() =~= argv.skip(1));
                assert(more.skip(1).last() == w@.last()@);
                assert(more[0] == argv[0]) by {
                    assert(more.drop_last()[0] == more[0]);
                }
                assert(!has_space(w@.last()@));
                let head = " init="@ + cmdline_token(argv[0]) + " --"@;
                let t = spaced_tokens(argv.skip(1));
                assert(head + (t + " "@ + w@.last()@) =~= head + t + " "@ + w@.last()@);
            }
        }
    }
}

/// A path below the root of the image is told from the root.
pub proof fn lemma_rootfs_path(abs: &str, root: &str, r: String, rel: Seq<char>)
    requires
        call_ensures(rootfs_path, (abs, root), r),
        root@.len() > 0,
        root@.last() != '/',
        abs@ == root@ + seq!['/'] + rel,
    ensures
        r@ == seq!['/'] + rel,
{
    reveal_strlit("/");
    assert("/"@ =~= seq!['/']);
    let p = root@.push('/');
    assert(abs@ =~= p + rel);
    assert(p =~= abs@.subrange(0, p.len() as int));
    assert(abs@.skip(p.len() as int) =~= rel);
    assert(abs@.len() > root@.len());
}

proof fn lemma_label_names()
    ensures
        label::ENTRYPOINT@ == "org.imagilux.umf.entrypoint"@,
        label::KERNEL_RELEASE@ == "org.imagilux.umf.kernel.release"@,
        label::KERNEL_VMLINUZ@ == "org.imagilux.umf.kernel.vmlinuz"@,
        label::KERNEL_CMDLINE@ == "org.imagilux.umf.kernel.cmdline"@,
        label::INITRAMFS@ == "org.imagilux.umf.initramfs"@,
        label::ROOTFS_FS@ == "org.imagilux.umf.rootfs.fs"@,
        label::FLAVOR@ == "org.imagilux.umf.flavor"@,
        "org.imagilux.umf.entrypoint"@ != "org.imagilux.umf.kernel.release"@,
        "org.imagilux.umf.entrypoint"@ != "org.imagilux.umf.kernel.vmlinuz"@,
        "org.imagilux.umf.entrypoint"@ != "org.imagilux.umf.kernel.cmdline"@,
        "org.imagilux.umf.entrypoint"@ != "org.imagilux.umf.initramfs"@,
        "org.imagilux.umf.entrypoint"@ != "org.imagilux.umf.rootfs.fs"@,
        "org.imagilux.umf.entrypoint"@ != "org.imagilux.umf.flavor"@,
        "org.imagilux.umf.kernel.release"@ != "org.imagilux.umf.kernel.vmlinuz"@,
        "org.imagilux.umf.kernel.release"@ != "org.imagilux.umf.kernel.cmdline"@,
        "org.imagilux.umf.kernel.release"@ != "org.imagilux.umf.initramfs"@,
        "org.imagilux.umf.kernel.release"@ != "org.imagilux.umf.rootfs.fs"@,
        "org.imagilux.umf.kernel.release"@ != "org.imagilux.umf.flavor"@,
        "org.imagilux.umf.kernel.vmlinuz"@ != "org.imagilux.umf.kernel.cmdline"@,
        "org.imagilux.umf.kernel.vmlinuz"@ != "org.imagilux.umf.initramfs"@,
        "org.imagilux.umf.kernel.vmlinuz"@ != "org.imagilux.umf.rootfs.fs"@,
        "org.imagilux.umf.kernel.vmlinuz"@ != "org.imagilux.umf.flavor"@,
        "org.imagilux.umf.kernel.cmdline"@ != "org.imagilux.umf.initramfs"@,
        "org.imagilux.umf.kernel.cmdline"@ != "org.imagilux.umf.rootfs.fs"@,
        "org.imagilux.umf.kernel.cmdline"@ != "org.imagilux.umf.flavor"@,
        "org.imagilux.umf.initramfs"@ != "org.imagilux.umf.rootfs.fs"@,
        "org.imagilux.umf.initramfs"@ != "org.imagilux.umf.flavor"@,
        "org.imagilux.umf.rootfs.fs"@ != "org.imagilux.umf.flavor"@,
{
    reveal_strlit("org.imagilux.umf.entrypoint");
    reveal_strlit("org.imagilux.umf.kernel.release");
    reveal_strlit("org.imagilux.umf.kernel.vmlinuz");
    reveal_strlit("org.imagilux.umf.kernel.cmdline");
    reveal_strlit("org.imagilux.umf.initramfs");
    reveal_strlit("org.imagilux.umf.rootfs.fs");
    reveal_strlit("org.imagilux.umf.flavor");
    assert("org.imagilux.umf.entrypoint"@[17] != "org.imagilux.umf.kernel.release"@[17]);
    assert("org.imagilux.umf.entrypoint"@[17] != "org.imagilux.umf.kernel.vmlinuz"@[17]);
    assert("org.imagilux.umf.entrypoint"@[17] != "org.imagilux.umf.kernel.cmdline"@[17]);
    assert("org.imagilux.umf.entrypoint"@[17] != "org.imagilux.umf.initramfs"@[17]);
    assert("org.imagilux.umf.entrypoint"@[17] != "org.imagilux.umf.rootfs.fs"@[17]);
    assert("org.imagilux.umf.entrypoint"@[17] != "org.imagilux.umf.flavor"@[17]);
    assert("org.imagilux.umf.kernel.release"@[24] != "org.imagilux.umf.kernel.vmlinuz"@[24]);
    assert("org.imagilux.umf.kernel.release"@[24] != "org.imagilux.umf.kernel.cmdline"@[24]);
    assert("org.imagilux.umf.kernel.release"@[17] != "org.imagilux.umf.initramfs"@[17]);
    assert("org.imagilux.umf.kernel.release"@[17] != "org.imagilux.umf.rootfs.fs"@[17]);
    assert("org.imagilux.umf.kernel.release"@[17] != "org.imagilux.umf.flavor"@[17]);
    assert("org.imagilux.umf.kernel.vmlinuz"@[24] != "org.imagilux.umf.kernel.cmdline"@[24]);
    assert("org.imagilux.umf.kernel.vmlinuz"@[17] != "org.imagilux.umf.initramfs"@[17]);
    assert("org.imagilux.umf.kernel.vmlinuz"@[17] != "org.imagilux.umf.rootfs.fs"@[17]);
    assert("org.imagilux.umf.kernel.vmlinuz"@[17] != "org.imagilux.umf.flavor"@[17]);
    assert("org.imagilux.umf.kernel.cmdline"@[17] != "org.imagilux.umf.initramfs"@[17]);
    assert("org.imagilux.umf.kernel.cmdline"@[17] != "org.imagilux.umf.rootfs.fs"@[17]);
    assert("org.imagilux.umf.kernel.cmdline"@[17] != "org.imagilux.umf.flavor"@[17]);
    assert("org.imagilux.umf.initramfs"@[17] != "org.imagilux.umf.rootfs.fs"@[17]);
    assert("org.imagilux.umf.initramfs"@[17] != "org.imagilux.umf.flavor"@[17]);
    assert("org.imagilux.umf.rootfs.fs"@[17] != "org.imagilux.umf.flavor"@[17]);
}

#[verifier::rlimit(40)]
proof fn lemma_labels(
    init: EntrypointInit,
    release: Seq<char>,
    vmlinuz: Seq<char>,
    initramfs: Option<Seq<char>>,
    flavor: Seq<char>,
)
    ensures
        ({
            let m = boot_labels(init, release, vmlinuz, initramfs, flavor);
            &&& m.dom().contains("org.imagilux.umf.entrypoint"@)
            &&& m["org.imagilux.umf.entrypoint"@]
                == crate::bootable::manifest::entrypoint_word(init)
            &&& m.dom().contains("org.imagilux.umf.kernel.release"@)
            &&& m["org.imagilux.umf.kernel.release"@] == release
            &&& m.dom().contains("org.imagilux.umf.kernel.vmlinuz"@)
            &&& m["org.imagilux.umf.kernel.vmlinuz"@] == vmlinuz
            &&& m.dom().contains("org.imagilux.umf.rootfs.fs"@)
            &&& m["org.imagilux.umf.rootfs.fs"@] == ROOTFS_FSTYPE@
            &&& m.dom().contains("org.imagilux.umf.flavor"@)
            &&& m["org.imagilux.umf.flavor"@] == flavor
            &&& m.dom().contains("org.imagilux.umf.initramfs"@) == (initramfs is Some)
            &&& initramfs is Some ==> m["org.imagilux.umf.initramfs"@] == "/boot/"@ + initramfs->0
            &&& m.dom().contains("org.imagilux.umf.kernel.cmdline"@) == (extra_cmdline(init).len()
                > 0)
            &&& extra_cmdline(init).len() > 0 ==> m["org.imagilux.umf.kernel.cmdline"@]
                == extra_cmdline(init)
        }),
{
    lemma_label_names();
}

/// Does the map have the value at the key?
pub open spec fn says(m: Map<Seq<char>, String>, key: Seq<char>, value: Seq<char>) -> bool {
    m.dom().contains(key) && m[key]@ == value
}

/// The labels of a bootable image say what starts, which kernel boots and where it
/// lies, what the root filesystem is, which flavor it has, and, exactly where it has
/// one, where its initramfs lies.
pub proof fn lemma_boot_labels(
    init: &EntrypointInit,
    kernel: &KernelLayout,
    root: &str,
    initramfs: Option<&str>,
    flavor: &str,
    r: TextMap<String>,
    rel: Seq<char>,
)
    requires
        call_ensures(boot_manifest, (init, kernel, root, initramfs, flavor), r),
        root@.len() > 0,
        root@.last() != '/',
        kernel.vmlinuz@ == root@ + seq!['/'] + rel,
    ensures
        *init is Systemd ==> says(r@, "org.imagilux.umf.entrypoint"@, "systemd"@),
        *init is OpenRc ==> says(r@, "org.imagilux.umf.entrypoint"@, "openrc"@),
        *init is Path || *init is Exec ==> says(
            r@,
            "org.imagilux.umf.entrypoint"@,
            "appliance"@,
        ),
        says(r@, "org.imagilux.umf.kernel.release"@, kernel.release@),
        says(r@, "org.imagilux.umf.kernel.vmlinuz"@, seq!['/'] + rel),
        says(r@, "org.imagilux.umf.rootfs.fs"@, "squashfs"@),
        says(r@, "org.imagilux.umf.flavor"@, flavor@),
        initramfs matches Some(name) ==> says(
            r@,
            "org.imagilux.umf.initramfs"@,
            "/boot/"@ + initramfs->0@,
        ),
        initramfs is None ==> !r@.dom().contains("org.imagilux.umf.initramfs"@),
        *init is Systemd || *init is OpenRc || *init is NoInit ==> !r@.dom().contains(
            "org.imagilux.umf.kernel.cmdline"@,
        ),
        *init matches EntrypointInit::Path(s) && s@.len() > 0 && is_plain_word(s@)
            && !crate::text::is_space(s@.last()) ==> says(
            r@,
            "org.imagilux.umf.kernel.cmdline"@,
            "init="@ + (*init)->Path_0@,
        ),
{
    lemma_labels(
        *init,
        kernel.release@,
        seq!['/'] + rel,
        match initramfs {
            Some(name) => Some(name@),
            None => None,
        },
        flavor@,
    );
    lemma_image_path(kernel.vmlinuz@, root@, rel);
    let all = text_values(r@);
    assert(forall|k: Seq<char>| all.dom().contains(k) == r@.dom().contains(k));
    assert(forall|k: Seq<char>| r@.dom().contains(k) ==> all[k] == (#[trigger] r@[k])@);
    if let EntrypointInit::Path(s) = *init {
        if s@.len() > 0 && is_plain_word(s@) && !crate::text::is_space(s@.last()) {
            assert(!has_space(s@));
            assert(seq![s@][0] == s@);
            lemma_trimmed_init(s@);
            assert(extra_cmdline(*init) == "init="@ + s@);
        }
    }
}

proof fn lemma_trimmed_init(s: Seq<char>)
    requires
        s.len() > 0,
        !crate::text::is_space(s.last()),
    ensures
        trim(" init="@ + s) == "init="@ + s,
        ("init="@ + s).len() > 0,
{
    reveal_strlit(" init=");
    reveal_strlit("init=");
    let m = "init="@ + s;
    let none = Seq::<char>::empty();
    assert(" init="@ + s =~= seq![' '] + m + none);
    assert(m[0] == 'i');
    assert(m.last() == s.last());
    super::aid::lemma_trim(seq![' '], m, none);
}

proof fn lemma_image_path(abs: Seq<char>, root: Seq<char>, rel: Seq<char>)
    requires
        root.len() > 0,
        root.last() != '/',
        abs == root + seq!['/'] + rel,
    ensures
        image_path(abs, root) == seq!['/'] + rel,
{
    reveal_strlit("/");
    assert("/"@ =~= seq!['/']);
    let p = root.push('/');
    assert(abs =~= p + rel);
    assert(p =~= abs.subrange(0, p.len() as int));
    assert(abs.skip(p.len() as int) =~= rel);
    assert(abs.len() > root.len());
    assert(below(abs, root) == Some(rel));
}

/// A bootable image is marked as one, for its architecture, for Linux, with its
/// labels and nothing of a container.
pub proof fn lemma_bootable_config(
    architecture: Architecture,
    labels: TextMap<String>,
    r: ImageConfig,
)
    requires
        call_ensures(image_config, (architecture, labels), r),
    ensures
        r@.umf_type == KindView::Bootable,
        r@.os == "linux"@,
        architecture == Architecture::X86_64 ==> r@.architecture == "amd64"@,
        architecture == Architecture::Aarch64 ==> r@.architecture == "arm64"@,
        r@.container.labels == text_values(labels@),
        r@.container.entrypoint is None && r@.container.cmd is None,
        r@.container.env.len() == 0 && r@.history.len() == 0,
{
}

/// A text without single quotes is quoted by putting it between two.
pub proof fn lemma_plain_quote(value: &str, r: String)
    requires
        call_ensures(shell_quote, (value,), r),
        !value@.contains('\''),
    ensures
        r@ == seq!['\''] + value@ + seq!['\''],
{
    reveal_strlit("'");
    assert("'"@ =~= seq!['\'']);
    lemma_no_replacement(value@, '\'', "'\\''"@);
}

/// A quoted single quote ends the quotes, stands by itself behind a backslash, and
/// opens them again.
pub proof fn lemma_quote_of_quote(a: Seq<char>, b: Seq<char>)
    requires
        !a.contains('\''),
        !b.contains('\''),
    ensures
        shell_quoted(a + seq!['\''] + b) == seq!['\''] + a + seq!['\'', '\\', '\'', '\''] + b
            + seq!['\''],
{
    reveal_strlit("'");
    reveal_strlit("'\\''");
    assert("'"@ =~= seq!['\'']);
    let q = "'\\''"@;
    assert(q =~= seq!['\'', '\\', '\'', '\'']);
    lemma_replaced_at(a, b, '\'', q);
    lemma_no_replacement(a, '\'', q);
    lemma_no_replacement(b, '\'', q);
    assert(shell_quoted(a + seq!['\''] + b) =~= seq!['\''] + a + q + b + seq!['\'']);
}

proof fn lemma_replaced_at(a: Seq<char>, b: Seq<char>, c: char, with: Seq<char>)
    ensures
        replace_char(a + seq![c] + b, c, with) == replace_char(a, c, with) + with + replace_char(
            b,
            c,
            with,
        ),
    decreases b.len(),
{
    let s = a + seq![c] + b;
    if b.len() == 0 {
        assert(s.drop_last() =~= a);
        assert(replace_char(s, c, with) =~= replace_char(a, c, with) + with + replace_char(
            b,
            c,
            with,
        ));
    } else {
        lemma_replaced_at(a, b.drop_last(), c, with);
        assert(s.drop_last() =~= a + seq![c] + b.drop_last());
        assert(s.last() == b.last());
        assert(replace_char(s, c, with) =~= replace_char(a, c, with) + with + replace_char(
            b,
            c,
            with,
        ));
    }
}

/// The command line of a `RUN` in a guest: by the shell of the guest as it is, by
/// another shell as its last argument, behind a `cd` into the working directory,
/// and as another user behind `runuser`. What is not by the plain shell is quoted,
/// word by word.
pub proof fn lemma_wrapped_command(
    command: &str,
    shell: &Vec<String>,
    user: Option<&str>,
    dir: Option<&str>,
    r: String,
    bare: String,
)
    requires
        call_ensures(wrap_run_command, (command, shell, user, dir), r),
        call_ensures(wrap_run_command, (command, shell, None, dir), bare),
        shell@.len() == 2,
    ensures
        ({
            let snippet = match dir {
                Some(d) => "cd "@ + shell_quoted(d@) + " && "@ + command@,
                None => command@,
            };
            let by_shell = shell_quoted(shell@[0]@) + " "@ + shell_quoted(shell@[1]@) + " "@
                + shell_quoted(snippet);
            let plain = shell@[0]@ == "/bin/sh"@ && shell@[1]@ == "-c"@;
            &&& user is None && plain ==> r@ == snippet
            &&& user is None && !plain ==> r@ == by_shell
            &&& user matches Some(u) ==> r@ == "runuser -u "@ + shell_quoted(user->0@) + " -- "@
                + by_shell
        }),
{
    let argv = texts(shell@);
    let quoted = Seq::new(argv.len(), |i: int| shell_quoted(argv[i]));
    assert(quoted.drop_last() =~= seq![shell_quoted(argv[0])]);
    assert(join(quoted.drop_last(), " "@) == shell_quoted(argv[0]));
    assert(join(quoted, " "@) == shell_quoted(argv[0]) + " "@ + shell_quoted(argv[1]));
    assert(quoted_words(argv) == shell_quoted(argv[0]) + " "@ + shell_quoted(argv[1]));
    if argv[0] == "/bin/sh"@ && argv[1] == "-c"@ {
        assert(argv =~= seq!["/bin/sh"@, "-c"@]);
    } else {
        assert(argv != seq!["/bin/sh"@, "-c"@]);
    }
}

/// What a directive changes for the commands behind it: `ENV` one variable, `USER`
/// the user, `WORKDIR` the directory, `SHELL` the shell, `ARG` the scope; and only
/// that.
pub proof fn lemma_context(
    c: ContextView,
    d: Directive,
    build_args: Map<Seq<char>, Seq<char>>,
    k: Seq<char>,
)
    ensures
        ({
            let t = context_behind(c, d, build_args);
            &&& d matches Directive::Env(e) ==> t == (ContextView { env: t.env, ..c })
                && t.env.dom().contains(e.key@) && t.env[e.key@] == substitute(e.value@, c.scope)
                && (k != e.key@ ==> t.env.dom().contains(k) == c.env.dom().contains(k) && (
            c.env.dom().contains(k) ==> t.env[k] == c.env[k]))
            &&& d matches Directive::User(u) ==> t == (ContextView {
                user: Some(substitute(u.name@, c.scope)),
                ..c
            })
            &&& d matches Directive::Shell(s) ==> (s.argv@.len() > 0 ==> t == (ContextView {
                shell: texts(s.argv@),
                ..c
            })) && (s.argv@.len() == 0 ==> t == (ContextView {
                shell: seq!["/bin/sh"@, "-c"@],
                ..c
            }))
            &&& d matches Directive::Arg(a) ==> t == (ContextView {
                scope: scope_after(c.scope, a, build_args),
                ..c
            })
            &&& d matches Directive::Workdir(w) ==> t == (ContextView { workdir: t.workdir, ..c })
                && t.workdir is Some && ({
                let p = substitute(w.path@, c.scope);
                &&& p.len() > 0 && p[0] == '/' ==> t.workdir->0 == p
                &&& p.len() > 0 && p[0] != '/' && (c.workdir matches Some(x) && x.len() > 0
                    && x.last() != '/') ==> t.workdir->0 == c.workdir->0 + seq!['/'] + p
                &&& p.len() > 0 && p[0] != '/' && (c.workdir is None || c.workdir == Some(
                    seq!['/'],
                )) ==> t.workdir->0 == seq!['/'] + p
            })
            &&& d is Run || d is Add || d is Label || d is Entrypoint || d is Expose ==> t == c
        }),
{
    reveal_strlit("/");
    assert("/"@ =~= seq!['/']);
    if let Directive::Workdir(w) = d {
        let p = substitute(w.path@, c.scope);
        reveal_with_fuel(crate::text::trim_end_char, 2);
        assert("/"@.drop_last() =~= Seq::empty());
        assert(Seq::<char>::empty() + "/"@ + p =~= seq!['/'] + p);
    }
}

/// A `RUN` is executed in the guest with the environment of its context, in shell
/// form as the text with references replaced; without an emulator it is refused.
pub proof fn lemma_guest_step(
    r: Result<RunAction, BootableBuildError>,
    d: Directive,
    c: ContextView,
    has_qemu: bool,
)
    requires
        is_run_step(r, d, c, has_qemu),
        d is Run,
    ensures
        !has_qemu ==> (r matches Err(BootableBuildError::RunWithoutQemu)),
        has_qemu ==> (r matches Ok(RunAction::Execute { command, env }) && text_values(env@)
            == c.env && (d->Run_0.command is Shell && c.shell == seq!["/bin/sh"@, "-c"@] && c.user
            is None && c.workdir is None ==> command@ == substitute(
            d->Run_0.command->Shell_0@,
            c.scope,
        ))),
{
}

/// A command in exec form is its arguments, references replaced, each as one word.
pub proof fn lemma_exec_form(command: RunCommand, scope: Map<Seq<char>, Seq<char>>)
    requires
        command is Exec,
    ensures
        command->Exec_0@.len() == 1 ==> rendered(command, scope) == shell_quoted(
            substitute(command->Exec_0@[0]@, scope),
        ),
        command->Exec_0@.len() == 2 ==> rendered(command, scope) == shell_quoted(
            substitute(command->Exec_0@[0]@, scope),
        ) + " "@ + shell_quoted(substitute(command->Exec_0@[1]@, scope)),
{
    let argv = command->Exec_0@;
    let parts = Seq::new(argv.len(), |i: int| substitute(argv[i]@, scope));
    let quoted = Seq::new(parts.len(), |i: int| shell_quoted(parts[i]));
    if argv.len() == 2 {
        assert(quoted.drop_last() =~= seq![quoted[0]]);
        assert(join(quoted.drop_last(), " "@) == quoted[0]);
    }
}

/// A command that ends with anything but zero fails the build, with its output.
pub proof fn lemma_guest_failure(
    command: &str,
    result: &RunStepResult,
    r: Result<(), BootableBuildError>,
)
    requires
        call_ensures(check_run_step, (command, result), r),
    ensures
        r is Ok <==> result.exit_code == 0,
        r matches Err(e) ==> (e matches BootableBuildError::RunStepFailed {
            command: c,
            exit_code,
            serial_output,
        } && c@ == command@ && exit_code == result.exit_code && serial_output@
            == result.serial_output@),
{
}

} // verus!
