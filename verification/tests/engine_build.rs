//! Container builds: their stages, and one stage step by step.
use umf_builder::architecture::Architecture;
use umf_builder::ast::{
    Add, AddSource, Arg, Ast, Directive, Entrypoint, EntrypointInit, FromSource, Label, Run,
    RunCommand, Stage, Workdir,
};
use umf_builder::engine_build::add::AddPlan;
use umf_builder::engine_build::base_image::scratch_base_image;
use umf_builder::engine_build::secrets::ResolvedSecrets;
use umf_builder::engine_build::directives::StepKind;
use umf_builder::engine_build::stage::{
    aborted, LookupOutcome, StageContext, StageWalk, StepPlan,
};
use umf_builder::engine_build::state::CachedStep;
use umf_builder::engine_build::{
    build, build_container_stages, build_single_stage, check_cross_stage_refs, check_not_nested,
    images_to_pull, internal_stage_ref, record_stage, stage_base, stage_ref, urls_to_fetch,
    EngineBuildError, EngineBuildOptions, StageBase,
};
use umf_builder::image::{LayerCompression, LayerSource};
use umf_builder::l0::L0Kind;
use umf_builder::text_map::TextMap;

const NOW: &str = "2026-01-02T03:04:05Z";

fn t(s: &str) -> String {
    s.to_string()
}

fn map(pairs: &[(&str, &str)]) -> TextMap<String> {
    let mut m = TextMap::new();
    for (k, v) in pairs {
        m.insert(k.to_string(), v.to_string());
    }
    m
}

fn stage(from: &str, name: Option<&str>, directives: Vec<Directive>) -> Stage {
    Stage { from: FromSource::Reference(t(from)), name: name.map(t), directives }
}

fn scratch(directives: Vec<Directive>) -> Stage {
    Stage { from: FromSource::Scratch, name: None, directives }
}

fn recipe(stages: Vec<Stage>) -> Ast {
    Ast { global_args: Vec::new(), stages }
}

fn run(line: &str) -> Directive {
    Directive::Run(Run { command: RunCommand::Shell(t(line)), mounts: Vec::new() })
}

fn add(source: AddSource, destination: &str, from: Option<&str>) -> Directive {
    Directive::Add(Add {
        source,
        destination: t(destination),
        from: from.map(t),
        plain_copy: false,
    })
}

fn path(s: &str) -> AddSource {
    AddSource::Path(t(s))
}

fn options() -> EngineBuildOptions {
    EngineBuildOptions::new(Architecture::X86_64)
}

fn context() -> StageContext {
    StageContext {
        secrets: ResolvedSecrets { by_id: TextMap::new() },
        produced: TextMap::new(),
        fetched: TextMap::new(),
        architecture: Architecture::X86_64,
        build_args: TextMap::new(),
    }
}

fn layer(diff_id: &str) -> LayerSource {
    LayerSource { data: b"data".to_vec(), media_type: t("media"), diff_id: t(diff_id) }
}

fn walk() -> StageWalk {
    StageWalk::start(
        scratch_base_image(Architecture::X86_64),
        LayerCompression::Gzip,
        &TextMap::new(),
    )
}

#[test]
fn build_single_stage_rejects_multi_stage_input() {
    let ast = recipe(vec![
        stage("alpine:3.21", None, vec![run("echo a")]),
        scratch(vec![run("echo b")]),
    ]);
    assert!(matches!(
        build_single_stage(&ast, "example.invalid/x:1", &options()),
        Err(EngineBuildError::MultiStageNotSupported)
    ));
}

#[test]
fn add_from_unknown_stage_is_rejected() {
    let ast = recipe(vec![stage(
        "alpine:3.21",
        None,
        vec![add(path("/a"), "/b", Some("builder"))],
    )]);
    match build(&ast, "example.invalid/x:1", &options()) {
        Err(EngineBuildError::AddFromUnknownStage { stage }) => assert_eq!(stage, "builder"),
        other => panic!("expected AddFromUnknownStage, got {other:?}"),
    }
}

#[test]
fn add_from_forward_reference_is_rejected() {
    let ast = recipe(vec![
        stage(
            "alpine:3.21",
            None,
            vec![add(path("/work/output"), "/usr/local/bin/app", Some("builder"))],
        ),
        stage("debian:bookworm", Some("builder"), vec![run("make")]),
    ]);
    match build(&ast, "example.invalid/x:1", &options()) {
        Err(EngineBuildError::AddFromForwardReference { stage }) => assert_eq!(stage, "builder"),
        other => panic!("expected AddFromForwardReference, got {other:?}"),
    }
}

#[test]
fn add_from_self_reference_is_rejected() {
    let ast = recipe(vec![stage(
        "debian:bookworm",
        Some("builder"),
        vec![add(path("/work/output"), "/usr/local/bin/app", Some("builder"))],
    )]);
    match build(&ast, "example.invalid/x:1", &options()) {
        Err(EngineBuildError::AddFromSelf { stage }) => assert_eq!(stage, "builder"),
        other => panic!("expected AddFromSelf, got {other:?}"),
    }
}

#[test]
fn a_reference_to_an_earlier_stage_is_accepted() {
    let ast = recipe(vec![
        stage("debian:bookworm", Some("builder"), vec![run("make")]),
        stage("debian:slim", None, vec![add(path("/out"), "/bin/", Some("builder"))]),
    ]);
    assert!(check_cross_stage_refs(&ast).is_ok());
    let plan = build(&ast, "example.invalid/x:1", &options()).expect("plan");
    assert_eq!(
        plan.stage_refs,
        vec!["umf-build/stage-0:internal".to_string(), "example.invalid/x:1".to_string()]
    );
    let mut produced = TextMap::new();
    record_stage(&mut produced, &ast.stages[0], &plan.stage_refs[0]);
    assert_eq!(
        produced.get("builder").map(String::as_str),
        Some("umf-build/stage-0:internal")
    );
    assert_eq!(internal_stage_ref(3), "umf-build/stage-3:internal");
    assert_eq!(stage_ref(0, 1, "r"), "r");
}

#[test]
fn a_recipe_without_stages_is_refused() {
    let ast = recipe(Vec::new());
    assert!(matches!(build(&ast, "r", &options()), Err(EngineBuildError::NoStages)));
}

#[test]
fn the_stages_before_a_bootable_one_are_containers() {
    let ast = recipe(vec![
        scratch(Vec::new()),
        stage("imagilux/kernel-linux:7.0", None, Vec::new()),
    ]);
    let plan = build_container_stages(&ast, &options()).expect("plan").expect("a stage");
    assert_eq!(plan.stage_refs, vec!["umf-build/stage-0:internal".to_string()]);
    let single = recipe(vec![stage("imagilux/kernel-linux:7.0", None, Vec::new())]);
    assert!(build_container_stages(&single, &options()).expect("plan").is_none());
    assert!(check_not_nested(0, "alpine:3", false).is_ok());
    match check_not_nested(1, "imagilux/kernel-linux:7.0", true) {
        Err(EngineBuildError::NestedBootableStage { stage_index, from }) => {
            assert_eq!(stage_index, 1);
            assert_eq!(from, "imagilux/kernel-linux:7.0");
        }
        other => panic!("expected NestedBootableStage, got {other:?}"),
    }
}

#[test]
fn every_url_is_fetched_once() {
    let url = |s: &str| AddSource::Url(t(s));
    let ast = recipe(vec![
        scratch(vec![
            Directive::Arg(Arg { name: t("V"), default: Some(t("1")) }),
            add(url("https://example.com/$V"), "/a", None),
            add(url("https://example.com/x"), "/b", None),
        ]),
        scratch(vec![add(url("https://example.com/x"), "/c", None)]),
    ]);
    let urls = urls_to_fetch(&ast.stages, 2, &map(&[]), &map(&[]));
    assert_eq!(
        urls,
        vec!["https://example.com/1".to_string(), "https://example.com/x".to_string()]
    );
}

#[test]
fn the_images_of_a_stage_are_those_it_adds() {
    let s = stage(
        "alpine:${V}",
        None,
        vec![add(AddSource::Oci(t("tools:${V}")), "/", None), add(path("a"), "/a", None)],
    );
    let globals = map(&[("V", "3")]);
    assert_eq!(images_to_pull(&s, &globals, &map(&[])), vec!["tools:3".to_string()]);
    assert!(matches!(stage_base(&s, &globals), StageBase::Image(r) if r == "alpine:3"));
    assert!(matches!(stage_base(&scratch(Vec::new()), &globals), StageBase::Scratch));
}

#[test]
fn from_scratch_builds_an_image_from_nothing() {
    let mut w = walk();
    let stage = scratch(vec![
        add(path("hello.txt"), "/hello.txt", None),
        Directive::Label(Label { key: t("org.example.k"), value: t("v") }),
        Directive::Entrypoint(Entrypoint {
            init: EntrypointInit::Exec(vec![t("/hello.txt")]),
        }),
    ]);
    while w.next(&stage).is_some() {
        w = match w.plan(&stage, &context()).expect("plan") {
            StepPlan::Metadata => w.on_metadata(&stage, &TextMap::new(), NOW),
            StepPlan::Add(AddPlan::Local { history_line, .. }) => {
                assert_eq!(history_line, "ADD hello.txt /hello.txt");
                let (next, entry) = w.on_layer(&stage, layer("sha256:add"), t("/up/0"), NOW);
                assert_eq!(entry.history_line, history_line);
                next
            }
            other => panic!("unexpected step: {other:?}"),
        };
    }
    let (config, layers) = w.finish();
    assert_eq!(layers.len(), 1, "exactly the ADD layer");
    assert_eq!(config.container.labels.get("org.example.k").map(String::as_str), Some("v"));
    assert_eq!(config.umf_type, L0Kind::Container);
    assert_eq!(config.container.entrypoint, Some(vec![t("/hello.txt")]));
    assert_eq!(config.history.len(), 3);
}

#[test]
fn add_oci_image_lays_rootfs_contents_at_destination() {
    let mut w = walk();
    let image = || AddSource::Oci(t("example.invalid/userland:1"));
    let stage = scratch(vec![add(image(), "/", None), add(image(), "/opt/base", None)]);
    for (destination, diff_id) in [("/", "sha256:a"), ("/opt/base", "sha256:b")] {
        w = match w.plan(&stage, &context()).expect("plan") {
            StepPlan::Add(AddPlan::Image { canonical, destination: to, .. }) => {
                assert_eq!(canonical, "example.invalid/userland:1");
                assert_eq!(to, destination);
                w.on_layer(&stage, layer(diff_id), t("/up"), NOW).0
            }
            other => panic!("unexpected step: {other:?}"),
        };
    }
    assert_eq!(w.finish().1.len(), 2, "one layer per ADD");
}

fn cached() -> CachedStep {
    CachedStep {
        blob_digest: t("sha256:blob"),
        diff_id: t("sha256:cached"),
        media_type: t("media"),
        history_line: t("RUN cached"),
    }
}

fn two_runs() -> Stage {
    scratch(vec![run("one"), run("two")])
}

#[test]
fn a_cached_step_is_adopted() {
    let w = walk();
    assert!(w.lookup_cache());
    match w.on_lookup(&two_runs(), Some((cached(), Some(b"blob".to_vec()))), NOW) {
        LookupOutcome::Adopted(next) => {
            assert_eq!(next.state().new_layers.len(), 1);
            assert!(next.state().adopted_from_cache);
        }
        _ => panic!("expected the step to be adopted"),
    }
}

#[test]
fn a_run_behind_an_adopted_layer_starts_the_stage_again() {
    let stage = two_runs();
    let w = match walk().on_lookup(&stage, Some((cached(), Some(b"blob".to_vec()))), NOW) {
        LookupOutcome::Adopted(next) => next,
        _ => panic!("expected the step to be adopted"),
    };
    assert!(matches!(w.on_lookup(&stage, None, NOW), LookupOutcome::RebuildWithoutCache));
    let again = StageWalk::restart(
        scratch_base_image(Architecture::X86_64),
        LayerCompression::Gzip,
        &TextMap::new(),
    );
    assert!(!again.lookup_cache());
    assert_eq!(again.step_info(&stage, 1, 1).step_index, 1);
    assert!(matches!(
        again.on_lookup(&stage, Some((cached(), Some(b"blob".to_vec()))), NOW),
        LookupOutcome::Execute(_)
    ));
}

#[test]
fn an_add_behind_an_adopted_layer_goes_on() {
    let stage = scratch(vec![run("one"), add(path("a"), "/a", None)]);
    let w = match walk().on_lookup(&stage, Some((cached(), Some(b"blob".to_vec()))), NOW) {
        LookupOutcome::Adopted(next) => next,
        _ => panic!("expected the step to be adopted"),
    };
    assert!(matches!(w.on_lookup(&stage, None, NOW), LookupOutcome::Execute(_)));
}

#[test]
fn a_cached_step_whose_blob_is_gone_is_executed() {
    assert!(matches!(
        walk().on_lookup(&two_runs(), Some((cached(), None)), NOW),
        LookupOutcome::Execute(_)
    ));
}

#[test]
fn a_rebuild_asks_for_the_same_keys() {
    let stage = two_runs();
    let key = |w: &StageWalk| match w.plan(&stage, &context()).expect("plan") {
        StepPlan::Run(plan) => plan.key,
        other => panic!("unexpected step: {other:?}"),
    };
    let first = walk();
    let key_one = key(&first);
    let (first, entry) = first.on_layer(&stage, layer("sha256:one"), t("/up"), NOW);
    assert_eq!(entry.history_line, "RUN one");
    let second = walk();
    assert_eq!(key(&second), key_one);
    let later = "2027-01-01T00:00:00Z";
    let second = match second.on_lookup(&stage, Some((entry, Some(b"data".to_vec()))), later) {
        LookupOutcome::Adopted(next) => next,
        _ => panic!("expected the step to be adopted"),
    };
    assert_eq!(key(&first), key(&second));
    assert_ne!(key(&first), key_one);
}

#[test]
fn a_workdir_makes_a_layer() {
    let w = walk();
    let stage = scratch(vec![Directive::Workdir(Workdir { path: t("/opt/app") })]);
    let w = match w.plan(&stage, &context()).expect("plan") {
        StepPlan::Workdir(plan) => {
            assert_eq!(plan.directory, "opt/app");
            w.on_workdir(&stage, layer("sha256:w"), t("/up"), NOW)
        }
        other => panic!("unexpected step: {other:?}"),
    };
    assert!(w.next(&stage).is_none());
    let (config, layers) = w.finish();
    assert_eq!(layers.len(), 1);
    assert_eq!(config.container.working_dir.as_deref(), Some("/opt/app"));
    assert_eq!(config.history[0].created_by.as_deref(), Some("WORKDIR /opt/app"));
}

#[test]
fn what_an_add_takes_is_at_hand() {
    let ast = recipe(vec![
        stage("alpine:3.21", Some("builder"), vec![run("make")]),
        scratch(vec![
            Directive::Arg(Arg { name: t("V"), default: Some(t("2")) }),
            add(AddSource::Url(t("https://example.invalid/a-${V}.bin")), "/a", None),
            add(path("/out"), "/out", Some("builder")),
        ]),
    ]);
    let plan = build(&ast, "example.invalid/x:1", &options()).expect("plan");
    assert_eq!(plan.urls, vec![t("https://example.invalid/a-2.bin")]);
    let mut context = context();
    for url in &plan.urls {
        context.fetched.insert(url.clone(), t("sha256:payload"));
    }
    record_stage(&mut context.produced, &ast.stages[0], &plan.stage_refs[0]);
    let stage = &ast.stages[1];
    let mut w = walk().on_metadata(stage, &TextMap::new(), NOW);
    match w.plan(stage, &context).expect("plan") {
        StepPlan::Add(AddPlan::Url { url, digest, .. }) => {
            assert_eq!(url, "https://example.invalid/a-2.bin");
            assert_eq!(digest, "sha256:payload");
        }
        other => panic!("unexpected step: {other:?}"),
    }
    w = w.on_layer(stage, layer("sha256:a"), t("/up"), NOW).0;
    match w.plan(stage, &context).expect("plan") {
        StepPlan::Add(AddPlan::FromStage { producer_ref, below_root, .. }) => {
            assert_eq!(producer_ref, "umf-build/stage-0:internal");
            assert_eq!(below_root, "out");
        }
        other => panic!("unexpected step: {other:?}"),
    }
}

#[test]
fn a_step_is_announced_and_may_be_stopped() {
    let info = walk().step_info(&two_runs(), 1, 3);
    assert_eq!((info.stage_index, info.stage_total), (1, 3));
    assert_eq!((info.step_index, info.step_total), (1, 2));
    assert_eq!(info.kind, StepKind::Run);
    assert_eq!(info.description, "RUN one");
    assert!(matches!(
        aborted(&info),
        EngineBuildError::BuildAborted { stage_index: 1, step_index: 1 }
    ));
}

#[test]
fn the_options_default_to_no_override() {
    let o = options();
    assert_eq!(o.architecture, Architecture::X86_64);
    assert_eq!(o.compression, LayerCompression::Gzip);
    assert!(o.secrets.is_empty());
    assert!(o.build_args.is_empty());
    assert!(o.state_root.is_none());
}
