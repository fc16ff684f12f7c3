//! A bootable build step by step. The walk says what to do next, and is told
//! what came of it.
use vstd::prelude::*;
use crate::ast::{Ast, Directive, EntrypointInit, Stage};
use crate::engine_build::scope_behind;
use crate::image::ImageConfig;
use crate::initrd::InitrdReport;
use crate::kernel::KernelLayout;
use crate::resolver::{AddProvenance, FromKernelProvenance};
use crate::runtime_config::{
    apply_runtime_config, is_runtime_config, Firewall, RuntimeConfigReport,
};
use crate::text_map::{text_values, TextMap};
use crate::vm_runner::RunStepResult;
use super::add::{adds_image, is_staging_step, StagingAdd, StagingWalk};
use super::manifest::{
    boot_labels, boot_manifest, bootable_config, build_vm, image_config, image_path, is_vm_plan,
    started, VmPlan,
};
use super::run::{check_run_step, context_behind, first_context, is_run_step, RunAction, RunContext};
use super::validate::pick_entrypoint;
use super::{BootableBuildError, BootableBuildOptions, BootableBuildOutput};

verus! {

/// How far a bootable build is.
#[derive(Clone, Copy, Debug, PartialEq, Eq, Structural)]
pub enum Phase {
    /// The kernel has to be found.
    Kernel,
    /// The directive with that index may add something.
    Add(usize),
    /// The kernel is in the staging tree.
    Layout,
    /// The runtime configuration has to be written.
    Runtime,
    /// The directive with that index may run something.
    Run(usize),
    /// The initramfs has to be made.
    Initramfs,
    /// The image has to be emitted.
    Emit,
    /// The staging tree may have to be kept.
    Persist,
    /// All is done.
    Done,
}

/// What to do next.
#[derive(Debug)]
pub enum VmAction {
    /// Find the kernel image.
    ResolveKernel(String),
    /// Carry out an `ADD`.
    Add(StagingAdd),
    /// Unpack the layers of the kernel image into the staging tree.
    UnpackKernel,
    /// Find the kernel in the staging tree.
    ReadLayout,
    /// Write the firewall, if there is one.
    Configure(Option<Firewall>),
    /// Carry out a directive of the kind that a `RUN` depends on.
    Run(RunAction),
    /// Nothing.
    Nothing,
    /// Make the initramfs.
    MakeInitramfs,
    /// Emit the staging tree as an image with that configuration.
    Emit(ImageConfig),
    /// Keep the staging tree at that path.
    Persist(String),
    /// The build is done.
    Finish,
}

/// A bootable build.
#[derive(Debug)]
pub struct VmWalk<'a> {
    /// The bootable stage.
    pub stage: &'a Stage,
    /// How to build.
    pub options: &'a BootableBuildOptions,
    /// The image of each earlier stage.
    pub produced: &'a TextMap<String>,
    /// The root of the staging tree.
    pub root: String,
    /// What was known at the start.
    pub plan: VmPlan,
    /// How far the build is.
    pub phase: Phase,
    /// The walk through the `ADD`s.
    pub adds: StagingWalk,
    /// The context of the `RUN`s.
    pub runs: RunContext,
    /// Where the kernel came from.
    pub kernel_source: Option<FromKernelProvenance>,
    /// Where the kernel is in the staging tree.
    pub kernel: Option<KernelLayout>,
    /// Where the added images came from.
    pub add_sources: Vec<AddProvenance>,
    /// What was configured.
    pub runtime: Option<RuntimeConfigReport>,
    /// What the `RUN`s gave.
    pub reports: Vec<RunStepResult>,
    /// The initramfs.
    pub initrd: Option<InitrdReport>,
}

impl Phase {
    /// The place of a phase in the build.
    pub open spec fn rank(self) -> int {
        match self {
            Phase::Kernel => 0,
            Phase::Add(_) => 1,
            Phase::Layout => 2,
            Phase::Runtime => 3,
            Phase::Run(_) => 4,
            Phase::Initramfs => 5,
            Phase::Emit => 6,
            Phase::Persist => 7,
            Phase::Done => 8,
        }
    }
}

impl VmAction {
    /// The place of an action in the build.
    pub open spec fn rank(self) -> int {
        match self {
            VmAction::ResolveKernel(_) => 0,
            VmAction::Add(_) => 1,
            VmAction::UnpackKernel => 1,
            VmAction::ReadLayout => 2,
            VmAction::Configure(_) => 3,
            VmAction::Run(_) => 4,
            VmAction::Nothing => -1,
            VmAction::MakeInitramfs => 5,
            VmAction::Emit(_) => 6,
            VmAction::Persist(_) => 7,
            VmAction::Finish => 8,
        }
    }
}

/// The name of the initramfs, if there is one.
pub open spec fn initramfs_file(initrd: Option<InitrdReport>) -> Option<Seq<char>> {
    match initrd {
        Some(report) => Some(report.filename@),
        None => None,
    }
}

/// How many of the first `n` directives add an image.
pub open spec fn image_count(directives: Seq<Directive>, n: int) -> nat
    decreases n,
{
    if n <= 0 {
        0
    } else if adds_image(directives[n - 1]) {
        image_count(directives, n - 1) + 1
    } else {
        image_count(directives, n - 1)
    }
}

/// How many of the first `n` directives are `RUN`s.
pub open spec fn run_count(directives: Seq<Directive>, n: int) -> nat
    decreases n,
{
    if n <= 0 {
        0
    } else if directives[n - 1] is Run {
        run_count(directives, n - 1) + 1
    } else {
        run_count(directives, n - 1)
    }
}

/// What an `ADD` may give, as an action.
pub open spec fn is_add_action(
    r: Result<VmAction, BootableBuildError>,
    x: Result<Option<StagingAdd>, BootableBuildError>,
) -> bool {
    match x {
        Ok(Some(a)) => r == Ok::<VmAction, BootableBuildError>(VmAction::Add(a)),
        Ok(None) => r == Ok::<VmAction, BootableBuildError>(VmAction::Nothing),
        Err(e) => r == Err::<VmAction, BootableBuildError>(e),
    }
}

/// What the runtime configuration gives, as an action.
pub open spec fn is_configure_action(
    r: Result<VmAction, BootableBuildError>,
    report: Option<RuntimeConfigReport>,
    stage: Stage,
) -> bool {
    match r {
        Ok(VmAction::Configure(firewall)) => report matches Some(x) && is_runtime_config(
            Ok((x, firewall)),
            stage,
        ),
        Err(BootableBuildError::RuntimeConfig(e)) => is_runtime_config(Err(e), stage),
        _ => false,
    }
}

impl<'a> VmWalk<'a> {
    /// What a phase rests on is there.
    pub open spec fn wf(self) -> bool {
        &&& self.phase.rank() > 0 ==> self.kernel_source is Some
        &&& self.phase.rank() > 2 ==> self.kernel is Some
        &&& self.phase.rank() > 3 ==> self.runtime is Some
        &&& self.phase.rank() > 5 ==> (self.initrd is Some) == self.plan.needs_initramfs
        &&& self.phase.rank() <= 5 ==> self.initrd is None
        &&& self.phase is Initramfs ==> self.plan.needs_initramfs
        &&& (self.phase matches Phase::Add(i) ==> i <= self.stage.directives@.len())
        &&& (self.phase matches Phase::Run(i) ==> i <= self.stage.directives@.len())
        &&& self.add_sources@.len() == self.images_asked() || self.awaits_image()
        &&& self.reports@.len() == self.runs_asked() || self.awaits_run()
        &&& forall|k: int|
            0 <= k < self.reports@.len() ==> (#[trigger] self.reports@[k]).exit_code == 0
    }

    /// How many images were asked for so far.
    pub open spec fn images_asked(self) -> nat {
        match self.phase {
            Phase::Kernel => 0,
            Phase::Add(i) => image_count(self.stage.directives@, i as int),
            _ => image_count(self.stage.directives@, self.stage.directives@.len() as int),
        }
    }

    /// How many `RUN`s were asked for so far.
    pub open spec fn runs_asked(self) -> nat {
        match self.phase {
            Phase::Run(i) => run_count(self.stage.directives@, i as int),
            _ => if self.phase.rank() < 4 {
                0
            } else {
                run_count(self.stage.directives@, self.stage.directives@.len() as int)
            },
        }
    }

    /// Was an image asked for that has not been added yet?
    pub open spec fn awaits_image(self) -> bool {
        &&& (self.phase matches Phase::Add(i) && i > 0 && adds_image(
            self.stage.directives@[i - 1],
        ))
        &&& self.add_sources@.len() + 1 == self.images_asked()
    }

    /// Was a `RUN` asked for that has not succeeded yet?
    pub open spec fn awaits_run(self) -> bool {
        &&& (self.phase matches Phase::Run(i) && i > 0 && self.stage.directives@[i - 1] is Run)
        &&& self.reports@.len() + 1 == self.runs_asked()
    }

    /// What no step changes.
    pub open spec fn same_build(self, other: Self) -> bool {
        &&& self.stage == other.stage
        &&& self.options == other.options
        &&& self.produced == other.produced
        &&& self.root == other.root
        &&& self.plan == other.plan
    }

    /// What came of the steps so far is the same.
    pub open spec fn same_results(self, other: Self) -> bool {
        &&& self.kernel_source == other.kernel_source
        &&& self.kernel == other.kernel
        &&& self.add_sources == other.add_sources
        &&& self.reports == other.reports
        &&& self.initrd == other.initrd
    }

    /// Is it what to do next, and how far the build is then?
    pub open spec fn is_next(self, after: Self, r: Result<VmAction, BootableBuildError>) -> bool {
        let directives = self.stage.directives@;
        let build_args = text_values(self.options.build_args@);
        &&& self.same_build(after)
        &&& self.same_results(after)
        &&& !(self.phase is Add) ==> self.adds == after.adds
        &&& !(self.phase is Run) ==> self.runs == after.runs
        &&& !(self.phase is Runtime) ==> self.runtime == after.runtime
        &&& match self.phase {
            Phase::Kernel => {
                &&& after.phase is Kernel
                &&& (r matches Ok(VmAction::ResolveKernel(reference)) && reference@
                    == self.plan.from_kernel_ref@)
            },
            Phase::Add(i) => if i < directives.len() {
                let d = directives[i as int];
                &&& after.phase == Phase::Add((i + 1) as usize)
                &&& text_values(after.adds.arg_scope@) == scope_behind(
                    text_values(self.adds.arg_scope@),
                    d,
                    build_args,
                )
                &&& after.adds.first_image == (self.adds.first_image && !adds_image(d))
                &&& exists|x: Result<Option<StagingAdd>, BootableBuildError>| #[trigger]
                    is_add_action(r, x) && is_staging_step(
                        x,
                        d,
                        text_values(self.adds.arg_scope@),
                        self.adds.first_image,
                        text_values(self.produced@),
                    )
            } else {
                &&& self.adds == after.adds
                &&& after.phase is Layout
                &&& r == Ok::<VmAction, BootableBuildError>(VmAction::UnpackKernel)
            },
            Phase::Layout => {
                &&& after.phase is Layout
                &&& r == Ok::<VmAction, BootableBuildError>(VmAction::ReadLayout)
            },
            Phase::Runtime => {
                &&& after.phase == (if r is Ok {
                    Phase::Run(0)
                } else {
                    Phase::Runtime
                })
                &&& is_configure_action(r, after.runtime, *self.stage)
            },
            Phase::Run(i) => if i < directives.len() {
                let d = directives[i as int];
                &&& after.phase == Phase::Run((i + 1) as usize)
                &&& after.runs@ == context_behind(self.runs@, d, build_args)
                &&& match r {
                    Ok(VmAction::Run(a)) => is_run_step(
                        Ok(a),
                        d,
                        self.runs@,
                        self.options.qemu_path is Some,
                    ),
                    Ok(_) => false,
                    Err(e) => is_run_step(Err(e), d, self.runs@, self.options.qemu_path is Some),
                }
            } else {
                &&& self.runs == after.runs
                &&& after.phase == (if self.plan.needs_initramfs {
                    Phase::Initramfs
                } else {
                    Phase::Emit
                })
                &&& r == Ok::<VmAction, BootableBuildError>(
                    if self.plan.needs_initramfs {
                        VmAction::MakeInitramfs
                    } else {
                        VmAction::Nothing
                    },
                )
            },
            Phase::Initramfs => {
                &&& after.phase is Initramfs
                &&& r == Ok::<VmAction, BootableBuildError>(VmAction::MakeInitramfs)
            },
            Phase::Emit => {
                &&& after.phase is Persist
                &&& (r matches Ok(VmAction::Emit(config)) && config@ == bootable_config(
                    self.options.architecture,
                    boot_labels(
                        started(*self.stage),
                        self.kernel->0.release@,
                        image_path(self.kernel->0.vmlinuz@, self.root@),
                        initramfs_file(self.initrd),
                        self.plan.flavor@,
                    ),
                ))
            },
            Phase::Persist => {
                &&& after.phase is Done
                &&& match self.options.staging_keep_path {
                    Some(path) => r matches Ok(VmAction::Persist(p)) && p@ == path@,
                    None => r == Ok::<VmAction, BootableBuildError>(VmAction::Finish),
                }
            },
            Phase::Done => {
                &&& after.phase is Done
                &&& r == Ok::<VmAction, BootableBuildError>(VmAction::Finish)
            },
        }
    }

    /// The build before its first step, in a staging tree at `root`.
    pub fn start(
        ast: &'a Ast,
        options: &'a BootableBuildOptions,
        produced: &'a TextMap<String>,
        root: &str,
    ) -> (r: Result<VmWalk<'a>, BootableBuildError>)
        ensures
            match r {
                Ok(w) => {
                    &&& is_vm_plan(Ok(w.plan), *ast, text_values(options.build_args@))
                    &&& w.wf()
                    &&& w.phase is Kernel
                    &&& *w.stage == ast.stages@.last()
                    &&& *w.options == *options
                    &&& *w.produced == *produced
                    &&& w.root@ == root@
                    &&& text_values(w.adds.arg_scope@) == text_values(w.plan.globals@)
                    &&& w.adds.first_image
                    &&& w.runs@ == first_context(text_values(w.plan.globals@))
                    &&& w.add_sources@.len() == 0
                    &&& w.reports@.len() == 0
                },
                Err(e) => is_vm_plan(Err(e), *ast, text_values(options.build_args@)),
            },
    {
        let plan = match build_vm(ast, options) {
            Ok(plan) => plan,
            Err(e) => {
                return Err(e);
            },
        };
        let stage = &ast.stages[ast.stages.len() - 1];
        let adds = StagingWalk::new(&plan.globals);
        let runs = RunContext::new(&plan.globals);
        Ok(
            VmWalk {
                stage,
                options,
                produced,
                root: String::from_str(root),
                plan,
                phase: Phase::Kernel,
                adds,
                runs,
                kernel_source: None,
                kernel: None,
                add_sources: Vec::new(),
                runtime: None,
                reports: Vec::new(),
                initrd: None,
            },
        )
    }

    fn boot_config(&self) -> (r: ImageConfig)
        requires
            self.kernel is Some,
        ensures
            r@ == bootable_config(
                self.options.architecture,
                boot_labels(
                    started(*self.stage),
                    self.kernel->0.release@,
                    image_path(self.kernel->0.vmlinuz@, self.root@),
                    initramfs_file(self.initrd),
                    self.plan.flavor@,
                ),
            ),
    {
        let default_init = EntrypointInit::Systemd;
        let init = match pick_entrypoint(self.stage) {
            Some(init) => init,
            None => &default_init,
        };
        let initramfs = match &self.initrd {
            Some(report) => Some(report.filename.as_str()),
            None => None,
        };
        let kernel = self.kernel.as_ref().unwrap();
        let labels = boot_manifest(
            init,
            kernel,
            self.root.as_str(),
            initramfs,
            self.plan.flavor.as_str(),
        );
        image_config(self.options.architecture, labels)
    }

    /// Says what to do next, once what came of the last action is known.
    pub fn next(&mut self) -> (r: Result<VmAction, BootableBuildError>)
        requires
            old(self).wf(),
            !old(self).awaits_image(),
            !old(self).awaits_run(),
        ensures
            final(self).wf(),
            old(self).is_next(*final(self), r),
    {
        match self.phase {
            Phase::Kernel => Ok(VmAction::ResolveKernel(self.plan.from_kernel_ref.clone())),
            Phase::Add(i) => {
                if i >= self.stage.directives.len() {
                    self.phase = Phase::Layout;
                    return Ok(VmAction::UnpackKernel);
                }
                self.phase = Phase::Add(i + 1);
                let stage = self.stage;
                let x = self.adds.step(
                    &stage.directives[i],
                    &self.options.build_args,
                    self.produced,
                );
                let ghost given = x;
                let r = match x {
                    Ok(Some(a)) => Ok(VmAction::Add(a)),
                    Ok(None) => Ok(VmAction::Nothing),
                    Err(e) => Err(e),
                };
                assert(is_add_action(r, given));
                r
            },
            Phase::Layout => Ok(VmAction::ReadLayout),
            Phase::Runtime => match apply_runtime_config(self.stage) {
                Ok((report, firewall)) => {
                    self.runtime = Some(report);
                    self.phase = Phase::Run(0);
                    Ok(VmAction::Configure(firewall))
                },
                Err(e) => Err(BootableBuildError::RuntimeConfig(e)),
            },
            Phase::Run(i) => {
                if i >= self.stage.directives.len() {
                    if self.plan.needs_initramfs {
                        self.phase = Phase::Initramfs;
                        return Ok(VmAction::MakeInitramfs);
                    }
                    self.phase = Phase::Emit;
                    return Ok(VmAction::Nothing);
                }
                self.phase = Phase::Run(i + 1);
                let stage = self.stage;
                let has_qemu: bool = self.options.qemu_path.is_some();
                match self.runs.step(&stage.directives[i], &self.options.build_args, has_qemu) {
                    Ok(a) => Ok(VmAction::Run(a)),
                    Err(e) => Err(e),
                }
            },
            Phase::Initramfs => Ok(VmAction::MakeInitramfs),
            Phase::Emit => {
                let config = self.boot_config();
                self.phase = Phase::Persist;
                Ok(VmAction::Emit(config))
            },
            Phase::Persist => {
                self.phase = Phase::Done;
                match &self.options.staging_keep_path {
                    Some(path) => Ok(VmAction::Persist(path.clone())),
                    None => Ok(VmAction::Finish),
                }
            },
            Phase::Done => Ok(VmAction::Finish),
        }
    }

    /// The kernel image was found.
    pub fn on_kernel(&mut self, provenance: FromKernelProvenance)
        requires
            old(self).wf(),
            old(self).phase is Kernel,
        ensures
            final(self).wf(),
            *final(self) == (VmWalk {
                phase: Phase::Add(0),
                kernel_source: Some(provenance),
                ..*old(self)
            }),
    {
        self.kernel_source = Some(provenance);
        self.phase = Phase::Add(0);
    }

    /// An image was added.
    pub fn on_added(&mut self, provenance: AddProvenance)
        requires
            old(self).wf(),
            old(self).awaits_image(),
        ensures
            final(self).wf(),
            !final(self).awaits_image(),
            final(self).add_sources@ == old(self).add_sources@.push(provenance),
            *final(self) == (VmWalk { add_sources: final(self).add_sources, ..*old(self) }),
    {
        self.add_sources.push(provenance);
    }

    /// The kernel was found in the staging tree.
    pub fn on_layout(&mut self, layout: KernelLayout)
        requires
            old(self).wf(),
            old(self).phase is Layout,
        ensures
            final(self).wf(),
            *final(self) == (VmWalk {
                phase: Phase::Runtime,
                kernel: Some(layout),
                ..*old(self)
            }),
    {
        self.kernel = Some(layout);
        self.phase = Phase::Runtime;
    }

    /// A command was run. One that failed ends the build.
    pub fn on_run(&mut self, command: &str, result: RunStepResult) -> (r: Result<
        (),
        BootableBuildError,
    >)
        requires
            old(self).wf(),
            old(self).awaits_run(),
        ensures
            final(self).wf(),
            match r {
                Ok(_) => {
                    &&& !final(self).awaits_run()
                    &&& result.exit_code == 0
                    &&& final(self).reports@ == old(self).reports@.push(result)
                    &&& *final(self) == (VmWalk { reports: final(self).reports, ..*old(self) })
                },
                Err(e) => {
                    &&& result.exit_code != 0
                    &&& *final(self) == *old(self)
                    &&& (e matches BootableBuildError::RunStepFailed {
                        command: c,
                        exit_code,
                        serial_output,
                    } && c@ == command@ && exit_code == result.exit_code && serial_output@
                        == result.serial_output@)
                },
            },
    {
        match check_run_step(command, &result) {
            Ok(_) => {
                self.reports.push(result);
                Ok(())
            },
            Err(e) => Err(e),
        }
    }

    /// The initramfs was made.
    pub fn on_initramfs(&mut self, report: InitrdReport)
        requires
            old(self).wf(),
            old(self).phase is Initramfs,
        ensures
            final(self).wf(),
            *final(self) == (VmWalk {
                phase: Phase::Emit,
                initrd: Some(report),
                ..*old(self)
            }),
    {
        self.initrd = Some(report);
        self.phase = Phase::Emit;
    }

    /// What was built: the image with that digest, and the staging tree if it
    /// was kept. There is a source for each image that was added and a report for
    /// each `RUN`, in source order, and every `RUN` succeeded.
    pub fn finish(self, image_digest: String, staging_path: Option<String>) -> (r: BootableBuildOutput)
        requires
            self.wf(),
            self.phase is Done,
        ensures
            r == (BootableBuildOutput {
                image_digest,
                flavor: self.plan.flavor,
                add_sources: self.add_sources,
                kernel_source: self.kernel_source->0,
                kernel_layout: self.kernel->0,
                initrd_report: self.initrd,
                runtime_config: self.runtime,
                run_step_reports: self.reports,
                staging_path,
            }),
            r.add_sources@.len() == image_count(
                self.stage.directives@,
                self.stage.directives@.len() as int,
            ),
            r.run_step_reports@.len() == run_count(
                self.stage.directives@,
                self.stage.directives@.len() as int,
            ),
            forall|k: int|
                0 <= k < r.run_step_reports@.len() ==> (#[trigger] r.run_step_reports@[k]).exit_code
                    == 0,
            r.initrd_report is Some == self.plan.needs_initramfs,
    {
        BootableBuildOutput {
            image_digest,
            flavor: self.plan.flavor,
            add_sources: self.add_sources,
            kernel_source: self.kernel_source.unwrap(),
            kernel_layout: self.kernel.unwrap(),
            initrd_report: self.initrd,
            runtime_config: self.runtime,
            run_step_reports: self.reports,
            staging_path,
        }
    }
}

/// No step leads back to an earlier phase.
pub proof fn lemma_phases_rise<'a>(
    before: VmWalk<'a>,
    after: VmWalk<'a>,
    r: Result<VmAction, BootableBuildError>,
)
    requires
        before.wf(),
        before.is_next(after, r),
    ensures
        before.phase.rank() <= after.phase.rank(),
{
}

/// The actions come in one order: the kernel is found first, every `ADD` comes
/// before the kernel is unpacked, the runtime configuration is written before
/// the first `RUN`, the initramfs is made behind the last one, and the image is
/// emitted after that. The step from `c` comes later than the one from `a`.
pub proof fn lemma_actions_in_order<'a>(
    a: VmWalk<'a>,
    b: VmWalk<'a>,
    x: VmAction,
    c: VmWalk<'a>,
    d: VmWalk<'a>,
    y: VmAction,
)
    requires
        a.wf(),
        a.is_next(b, Ok(x)),
        b.phase.rank() <= c.phase.rank(),
        c.wf(),
        c.is_next(d, Ok(y)),
        !(y is Nothing),
    ensures
        x.rank() <= y.rank(),
        x is UnpackKernel ==> !(y is Add),
{
}

} // verus!
