//! How a build speaks of its steps, what it fetches, and the plans of recipes with
//! one stage or more.
use vstd::prelude::*;
use crate::architecture::Architecture;
use crate::arg_subst::substitute;
use crate::ast::{Add, AddSource, Ast, Directive, EntrypointInit, ExposeProtocol, Run, RunCommand};
use crate::boot::RootfsFs;
use crate::bootable::manifest::entrypoint_label;
use crate::digest::sha256_digest;
use crate::engine_build::add::plain_copy_rejected_kind;
use crate::engine_build::directives::{
    argv_with_shell, classify_directive, describe_directive, render_command, subst_texts,
    truncate_for_prompt, StepKind,
};
use crate::engine_build::error::EngineBuildError;
use crate::engine_build::fetch::{
    is_redirection, is_success, start_fetch, FetchBody, FetchWalk, UrlParts,
};
use crate::engine_build::run::run_history_line;
use crate::engine_build::state::BuildState;
use crate::engine_build::{
    build, build_container_stages, build_single_stage, check_not_nested, BuildPlan,
    EngineBuildOptions,
};
use crate::image::LayerCompression;
use crate::initrd::{
    generate_initramfs, generate_initramfs_with_flavor, walk_ancestors, Busybox, InitramfsFlavor,
    InitrdError, InitrdReport, ModuleFile,
};
use crate::json::{Json, JsonView};
use crate::path::{has_idle_end, is_same_path, join_path, lemma_parent_of_name};
use crate::text::{replace_char, texts};
use crate::text_map::text_values;

verus! {

/// The steps that run, those that add, and the others.
pub proof fn lemma_step_kinds(d: &Directive, r: StepKind)
    requires
        call_ensures(classify_directive, (d,), r),
    ensures
        r is Run <==> *d is Run,
        r is Add <==> *d is Add,
        r is Metadata <==> !(*d is Run) && !(*d is Add),
{
}

/// A command is told as it is written, with one blank between arguments.
pub proof fn lemma_command_told(command: &RunCommand, r: String, fewer: &RunCommand, q: String)
    requires
        call_ensures(render_command, (command,), r),
        call_ensures(render_command, (fewer,), q),
        *command is Exec && command->Exec_0@.len() > 1 ==> *fewer is Exec && fewer->Exec_0@
            == command->Exec_0@.drop_last(),
    ensures
        *command matches RunCommand::Shell(s) ==> r@ == command->Shell_0@,
        *command is Exec && command->Exec_0@.len() == 1 ==> r@ == command->Exec_0@[0]@,
        *command is Exec && command->Exec_0@.len() > 1 ==> r@ == q@ + " "@
            + command->Exec_0@.last()@,
{
    if *command is Exec {
        let all = texts(command->Exec_0@);
        if all.len() > 1 {
            assert(all.drop_last() =~= texts(fewer->Exec_0@));
            assert(all.last() == command->Exec_0@.last()@);
        }
    }
}

proof fn lemma_one_line(s: Seq<char>)
    ensures
        replace_char(s, '\n', " "@).len() == s.len(),
        forall|i: int|
            0 <= i < s.len() ==> #[trigger] replace_char(s, '\n', " "@)[i] == (if s[i] == '\n' {
                ' '
            } else {
                s[i]
            }),
    decreases s.len(),
{
    reveal_strlit(" ");
    if s.len() > 0 {
        lemma_one_line(s.drop_last());
    }
}

/// What is told of a step is one line of at most the length that there is room for:
/// the whole text where it fits, and otherwise its start with an ellipsis behind.
pub proof fn lemma_shortened(s: &str, max: usize, r: String, i: int)
    requires
        call_ensures(truncate_for_prompt, (s, max), r),
        max > 0,
    ensures
        r@.len() <= max,
        s@.len() <= max ==> r@.len() == s@.len(),
        s@.len() > max ==> r@.len() == max && r@.last() == '…',
        0 <= i < s@.len() && (s@.len() <= max || i < max - 1) ==> r@[i] == (if s@[i] == '\n' {
            ' '
        } else {
            s@[i]
        }),
{
    lemma_one_line(s@);
    reveal_strlit("…");
    let all = replace_char(s@, '\n', " "@);
    assert("…"@.len() == 1);
    if all.len() > max {
        assert(r@ == all.take(max - 1) + "…"@);
        if 0 <= i < max - 1 {
            assert(r@[i] == all[i]);
        }
        assert(r@.last() == "…"@[0]);
    }
}

/// A `RUN` is told with its command, an `ADD` with its source and its destination,
/// within eighty characters.
pub proof fn lemma_step_described(
    run: &Run,
    add: &Add,
    c: String,
    text: &str,
    r: String,
    q: String,
    add_text: &str,
    ra: String,
    qa: String,
)
    requires
        call_ensures(render_command, (&run.command,), c),
        text@ == "RUN "@ + c@,
        call_ensures(describe_directive, (&Directive::Run(*run),), r),
        call_ensures(truncate_for_prompt, (text, 80), q),
        ({
            let source = match add.source {
                AddSource::Path(s) => s@,
                AddSource::Url(s) => s@,
                AddSource::Oci(s) => s@,
            };
            add_text@ == "ADD "@ + source + " "@ + add.destination@
        }),
        call_ensures(describe_directive, (&Directive::Add(*add),), ra),
        call_ensures(truncate_for_prompt, (add_text, 80), qa),
    ensures
        r@ == q@,
        ra@ == qa@,
{
}

proof fn lemma_short_word(s: Seq<char>)
    requires
        s.len() <= 80,
        forall|i: int| 0 <= i < s.len() ==> #[trigger] s[i] != '\n',
    ensures
        crate::engine_build::directives::shortened(s, 80) == s,
{
    lemma_one_line(s);
    assert(replace_char(s, '\n', " "@) =~= s);
}

/// Any other directive is told by its name.
pub proof fn lemma_step_words(d: &Directive, r: String)
    requires
        call_ensures(describe_directive, (d,), r),
    ensures
        *d is Label ==> r@ == "LABEL"@,
        *d is Env ==> r@ == "ENV"@,
        *d is Arg ==> r@ == "ARG"@,
        *d is User ==> r@ == "USER"@,
        *d is Workdir ==> r@ == "WORKDIR"@,
        *d is Entrypoint ==> r@ == "ENTRYPOINT"@,
        *d is Expose ==> r@ == "EXPOSE"@,
        *d is Shell ==> r@ == "SHELL"@,
        *d is Cmd ==> r@ == "CMD"@,
        *d is Volume ==> r@ == "VOLUME"@,
        *d is Stopsignal ==> r@ == "STOPSIGNAL"@,
{
    reveal_strlit("LABEL");
    reveal_strlit("ENV");
    reveal_strlit("ARG");
    reveal_strlit("USER");
    reveal_strlit("WORKDIR");
    reveal_strlit("ENTRYPOINT");
    reveal_strlit("EXPOSE");
    reveal_strlit("SHELL");
    reveal_strlit("CMD");
    reveal_strlit("VOLUME");
    reveal_strlit("STOPSIGNAL");
    lemma_short_word("LABEL"@);
    lemma_short_word("ENV"@);
    lemma_short_word("ARG"@);
    lemma_short_word("USER"@);
    lemma_short_word("WORKDIR"@);
    lemma_short_word("ENTRYPOINT"@);
    lemma_short_word("EXPOSE"@);
    lemma_short_word("SHELL"@);
    lemma_short_word("CMD"@);
    lemma_short_word("VOLUME"@);
    lemma_short_word("STOPSIGNAL"@);
}

/// The history line of a `RUN` is its command as it is written.
pub proof fn lemma_run_line(run: &Run, c: String, r: String)
    requires
        call_ensures(render_command, (&run.command,), c),
        call_ensures(run_history_line, (run,), r),
    ensures
        r@ == "RUN "@ + c@,
{
}

/// References are replaced in each of the texts, and none is left out.
pub proof fn lemma_each_replaced(state: &BuildState, parts: &Vec<String>, r: Vec<String>, i: int)
    requires
        call_ensures(subst_texts, (state, parts), r),
    ensures
        r@.len() == parts@.len(),
        0 <= i < parts@.len() ==> r@[i]@ == substitute(parts@[i]@, text_values(state.arg_scope@)),
{
    assert(texts(r@).len() == r@.len());
    if 0 <= i < parts@.len() {
        assert(texts(r@)[i] == r@[i]@);
    }
}

/// A command for the shell is the shell's own arguments and then the command.
pub proof fn lemma_shell_argv(state: &BuildState, command: &str, r: Vec<String>, i: int)
    requires
        call_ensures(argv_with_shell, (state, command), r),
    ensures
        state.current_shell@.len() > 0 ==> r@.len() == state.current_shell@.len() + 1,
        state.current_shell@.len() > 0 && 0 <= i < state.current_shell@.len() ==> r@[i]@
            == state.current_shell@[i]@,
        state.current_shell@.len() == 0 ==> r@.len() == 3 && r@[0]@ == "/bin/sh"@ && r@[1]@
            == "-c"@,
        r@.len() > 0 && r@.last()@ == substitute(command@, text_values(state.arg_scope@)),
{
    let all = texts(r@);
    assert(all.len() == r@.len());
    assert(all[all.len() - 1] == r@[r@.len() - 1]@);
    if state.current_shell@.len() > 0 {
        assert(texts(state.current_shell@).len() > 0);
        if 0 <= i < state.current_shell@.len() {
            assert(all[i] == r@[i]@);
            assert(texts(state.current_shell@)[i] == state.current_shell@[i]@);
        }
    } else {
        assert(all[0] == r@[0]@ && all[1] == r@[1]@);
    }
}

/// `COPY` takes paths only.
pub proof fn lemma_copy_takes_paths(source: &AddSource, r: Option<&'static str>)
    requires
        call_ensures(plain_copy_rejected_kind, (source,), r),
    ensures
        r is None <==> *source is Path,
{
}

/// A reply is a body where its status is two hundred and something, and leads
/// elsewhere where it is three hundred and something.
pub proof fn lemma_status(status: u16)
    ensures
        is_success(status) <==> status / 100 == 2,
        is_redirection(status) <==> status / 100 == 3,
{
}

/// A fetch starts at the URL, with no redirection yet.
pub proof fn lemma_fetch_starts(
    url: &str,
    parsed: Result<UrlParts, String>,
    r: Result<FetchWalk, EngineBuildError>,
)
    requires
        call_ensures(start_fetch, (url, parsed), r),
    ensures
        r is Ok <==> parsed is Ok,
        r matches Ok(w) ==> w.original@ == url@ && w.target@ == parsed->Ok_0@ && w.hops == 0,
        r matches Err(e) ==> (e matches EngineBuildError::AddUrlFetchFailed { url: u, detail } && u@
            == url@ && detail@ == parsed->Err_0@),
{
}

/// What is fetched piece by piece has the digest of the whole, and is refused over
/// eight gibibytes.
pub proof fn lemma_fetched_whole(
    body: FetchBody,
    original: &str,
    chunk: &[u8],
    r: Result<FetchBody, EngineBuildError>,
    bytes: &[u8],
    whole: String,
    digest: String,
    n: u64,
)
    requires
        call_ensures(FetchBody::on_chunk, (body, original, chunk), r),
        bytes@ == body@ + chunk@,
        call_ensures(sha256_digest, (bytes,), whole),
        r matches Ok(b) ==> call_ensures(FetchBody::finish, (b,), digest) && call_ensures(
            FetchBody::len,
            (&b,),
            n,
        ),
    ensures
        r is Ok <==> body@.len() + chunk@.len() <= 8 * 1024 * 1024 * 1024,
        r is Ok ==> digest@ == whole@ && n == body@.len() + chunk@.len(),
        r matches Err(e) ==> (e matches EngineBuildError::AddUrlFetchFailed { url, .. } && url@
            == original@),
{
}

/// Nothing is fetched before the first piece.
pub proof fn lemma_fetched_nothing(body: FetchBody, n: u64)
    requires
        call_ensures(FetchBody::new, (), body),
        call_ensures(FetchBody::len, (&body,), n),
    ensures
        n == 0,
{
}

/// A recipe with one stage is built as any other; one with more or with none is not
/// built that way.
pub proof fn lemma_single_stage(
    ast: &Ast,
    final_ref: &str,
    options: &EngineBuildOptions,
    r: Result<BuildPlan, EngineBuildError>,
    q: Result<BuildPlan, EngineBuildError>,
)
    requires
        call_ensures(build_single_stage, (ast, final_ref, options), r),
        call_ensures(build, (ast, final_ref, options), q),
    ensures
        ast.stages@.len() == 0 ==> (r matches Err(EngineBuildError::NoStages)),
        ast.stages@.len() > 1 ==> (r matches Err(EngineBuildError::MultiStageNotSupported)),
        ast.stages@.len() == 1 && r is Ok && q is Ok ==> texts(r->Ok_0.stage_refs@) == texts(
            q->Ok_0.stage_refs@,
        ) && texts(r->Ok_0.urls@) == texts(q->Ok_0.urls@) && text_values(r->Ok_0.globals@)
            == text_values(q->Ok_0.globals@),
{
    if ast.stages@.len() == 1 && r is Ok && q is Ok {
        assert(texts(q->Ok_0.stage_refs@) =~= seq![final_ref@]);
    }
}

/// Of a bootable recipe every stage but the last is built as a container, each under
/// a reference of its own; a recipe with one stage has none.
pub proof fn lemma_container_stages(
    ast: &Ast,
    options: &EngineBuildOptions,
    r: Option<BuildPlan>,
    i: int,
    j: int,
)
    requires
        call_ensures(build_container_stages, (ast, options), Ok(r)),
    ensures
        r is None <==> ast.stages@.len() <= 1,
        r matches Some(p) ==> p.stage_refs@.len() == ast.stages@.len() - 1 && (0 <= i < j
            < p.stage_refs@.len() ==> p.stage_refs@[i]@ != p.stage_refs@[j]@),
{
    if let Some(p) = r {
        assert(texts(p.stage_refs@).len() == p.stage_refs@.len());
        if 0 <= i < j < p.stage_refs@.len() {
            assert(texts(p.stage_refs@)[i] == p.stage_refs@[i]@);
            assert(texts(p.stage_refs@)[j] == p.stage_refs@[j]@);
            lemma_internal_apart(i as nat, j as nat);
        }
    }
}

proof fn lemma_internal_apart(i: nat, j: nat)
    requires
        i != j,
    ensures
        crate::engine_build::internal_ref(i as int) != crate::engine_build::internal_ref(j as int),
{
    let a = crate::number::decimal(i);
    let b = crate::number::decimal(j);
    let h = "umf-build/stage-"@;
    let e = ":internal"@;
    let x = crate::engine_build::internal_ref(i as int);
    let y = crate::engine_build::internal_ref(j as int);
    if x == y {
        assert(x.len() == h.len() + a.len() + e.len());
        assert(y.len() == h.len() + b.len() + e.len());
        assert(a =~= x.subrange(h.len() as int, (h.len() + a.len()) as int));
        assert(b =~= y.subrange(h.len() as int, (h.len() + a.len()) as int));
        crate::number::lemma_in_base_injective(i, j, 10, false);
    }
}

/// A stage before the last does not start from a kernel.
pub proof fn lemma_no_kernel_before(
    i: usize,
    from: &str,
    kernel: bool,
    r: Result<(), EngineBuildError>,
)
    requires
        call_ensures(check_not_nested, (i, from, kernel), r),
    ensures
        r is Err <==> kernel,
        r matches Err(e) ==> (e matches EngineBuildError::NestedBootableStage {
            stage_index,
            from: f,
        } && stage_index == i && f@ == from@),
{
}

/// An initramfs is for booting where nothing else is asked for.
pub proof fn lemma_boot_by_default(
    staging: &str,
    busybox: Option<&Busybox>,
    release: &str,
    modules: &Vec<ModuleFile>,
    r: Result<(Vec<u8>, InitrdReport), InitrdError>,
    q: Result<(Vec<u8>, InitrdReport), InitrdError>,
)
    requires
        call_ensures(generate_initramfs, (staging, busybox, release, modules), r),
        call_ensures(
            generate_initramfs_with_flavor,
            (staging, busybox, release, modules, InitramfsFlavor::Boot),
            q,
        ),
    ensures
        r is Ok <==> q is Ok,
        r is Ok ==> r->Ok_0.0@ == q->Ok_0.0@ && r->Ok_0.1.filename@ == q->Ok_0.1.filename@
            && r->Ok_0.1.modules_count == modules@.len() && r->Ok_0.1.compressed_size_bytes
            == r->Ok_0.0@.len(),
        busybox is None ==> (r matches Err(InitrdError::MissingBusybox(_))),
{
}

/// The directories that a path lies in are those of its own directory, and that
/// directory last; there is none where it lies in the root itself.
pub proof fn lemma_directories(
    dir: &str,
    name: Seq<char>,
    path: &str,
    root: &str,
    r: Vec<String>,
    q: Vec<String>,
    at_root: bool,
    is_root: bool,
)
    requires
        call_ensures(walk_ancestors, (path, root), r),
        call_ensures(walk_ancestors, (dir, root), q),
        call_ensures(is_same_path, (dir, root), at_root),
        call_ensures(is_same_path, (path, root), is_root),
        !is_root,
        path@ == dir@ + seq!['/'] + name,
        dir@.len() > 0,
        dir@.last() != '/',
        !has_idle_end(dir@),
        name.len() > 0,
        name != seq!['.'],
        !name.contains('/'),
    ensures
        at_root ==> r@.len() == 0,
        !at_root ==> texts(r@) == texts(q@).push(dir@),
{
    assert(name[0] != '/') by {
        if name[0] == '/' {
            assert(name.contains('/'));
        }
    }
    assert(join_path(dir@, name) == path@);
    lemma_parent_of_name(dir@, name);
    assert(texts(r@).len() == r@.len());
    if !at_root {
        assert(texts(r@) =~= texts(q@).push(dir@));
    }
}

/// What the label of a bootable image says of what it starts.
pub proof fn lemma_entrypoint_label(init: &EntrypointInit, r: String)
    requires
        call_ensures(entrypoint_label, (init,), r),
    ensures
        *init is Systemd ==> r@ == "systemd"@,
        *init is OpenRc ==> r@ == "openrc"@,
        *init is Path || *init is Exec ==> r@ == "appliance"@,
        *init is NoInit ==> r@ == "none"@,
{
}

/// The names of architectures, protocols, filesystems and kinds of layers.
pub proof fn lemma_names_known(
    arch: Architecture,
    a: &'static str,
    q: &'static str,
    p: ExposeProtocol,
    n: &'static str,
    fs: RootfsFs,
    f: &'static str,
    c: LayerCompression,
    m: &'static str,
)
    requires
        call_ensures(LayerCompression::media_type, (c,), m),
        call_ensures(Architecture::oci_arch_string, (arch,), a),
        call_ensures(Architecture::qemu_binary_name, (arch,), q),
        call_ensures(ExposeProtocol::as_str, (p,), n),
        call_ensures(RootfsFs::as_str, (fs,), f),
    ensures
        arch is X86_64 ==> a@ == "amd64"@ && q@ == "qemu-system-x86_64"@,
        arch is Aarch64 ==> a@ == "arm64"@ && q@ == "qemu-system-aarch64"@,
        c is Gzip ==> m@ == "application/vnd.oci.image.layer.v1.tar+gzip"@,
        c is Zstd ==> m@ == "application/vnd.oci.image.layer.v1.tar+zstd"@,
        p is Tcp ==> n@ == "tcp"@,
        p is Udp ==> n@ == "udp"@,
        fs is Squashfs ==> f@ == "squashfs"@,
        fs is Ext4 ==> f@ == "ext4"@,
        fs is Erofs ==> f@ == "erofs"@,
{
}

/// A member of a document is read by its kind: a text as a text, a list of texts as
/// that list.
pub proof fn lemma_members_read(
    j: &Json,
    key: &str,
    text: Option<String>,
    list: Option<Vec<String>>,
    v: Seq<Seq<char>>,
    a: Seq<JsonView>,
)
    requires
        call_ensures(Json::get_text, (j, key), text),
        call_ensures(Json::get_texts, (j, key), list),
        crate::laws::stages::is_list_of(v, a),
    ensures
        j@.member(key@) matches Some(JsonView::Text(s)) ==> (text matches Some(x) && x@
            == j@.member(key@)->0->Text_0),
        j@.member(key@) is None ==> text is None && list is None,
        j@.member(key@) == Some(JsonView::Array(a)) ==> text is None && (list matches Some(x)
            && texts(x@) == v),
{
    if j@.member(key@) == Some(JsonView::Array(a)) {
        crate::laws::stages::lemma_list_read(v, a);
    }
}

} // verus!
