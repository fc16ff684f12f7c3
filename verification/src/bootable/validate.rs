//! What a bootable build reads from its recipe before it starts.
use vstd::prelude::*;
use crate::ast::{Ast, Directive, EntrypointInit, FromSource, Stage};
use crate::label;
use crate::text::same;
use super::BootableBuildError;

verus! {

/// The word for a directive that has no meaning in a bootable image.
pub open spec fn container_only(d: Directive) -> Option<Seq<char>> {
    match d {
        Directive::Cmd(_) => Some("CMD"@),
        Directive::Volume(_) => Some("VOLUME"@),
        Directive::Stopsignal(_) => Some("STOPSIGNAL"@),
        _ => None,
    }
}

/// Is the `i`th directive the first that has no meaning in a bootable image?
pub open spec fn first_container_only(directives: Seq<Directive>, i: int) -> bool {
    &&& 0 <= i < directives.len()
    &&& container_only(directives[i]) is Some
    &&& forall|j: int| 0 <= j < i ==> container_only(#[trigger] directives[j]) is None
}

/// The last stage of the recipe, which is the bootable one. It has to start from
/// an image, and must not hold a directive that only containers know.
pub fn validate_ast_for_vm(ast: &Ast) -> (r: Result<&Stage, BootableBuildError>)
    ensures
        match r {
            Ok(stage) => {
                &&& ast.stages@.len() > 0
                &&& *stage == ast.stages@.last()
                &&& stage.from is Reference
                &&& forall|i: int|
                    0 <= i < stage.directives@.len() ==> container_only(
                        #[trigger] stage.directives@[i],
                    ) is None
            },
            Err(e) => if ast.stages@.len() == 0 {
                e is EmptyAst
            } else if ast.stages@.last().from is Scratch {
                e is VmRequiresKernelFromRef
            } else {
                exists|i: int| #[trigger]
                    first_container_only(ast.stages@.last().directives@, i) && (
                    e matches BootableBuildError::ContainerOnlyDirective { directive } && Some(
                        directive@,
                    ) == container_only(ast.stages@.last().directives@[i]))
            },
        },
{
    let n: usize = ast.stages.len();
    if n == 0 {
        return Err(BootableBuildError::EmptyAst);
    }
    let stage = &ast.stages[n - 1];
    match &stage.from {
        FromSource::Reference(_) => {},
        FromSource::Scratch => {
            return Err(BootableBuildError::VmRequiresKernelFromRef);
        },
    }
    let mut i: usize = 0;
    while i < stage.directives.len()
        invariant
            i <= stage.directives@.len(),
            ast.stages@.len() > 0,
            *stage == ast.stages@.last(),
            stage.from is Reference,
            forall|j: int|
                0 <= j < i ==> container_only(#[trigger] stage.directives@[j]) is None,
        decreases stage.directives.len() - i,
    {
        let name: Option<&'static str> = match &stage.directives[i] {
            Directive::Cmd(_) => Some("CMD"),
            Directive::Volume(_) => Some("VOLUME"),
            Directive::Stopsignal(_) => Some("STOPSIGNAL"),
            _ => None,
        };
        if let Some(directive) = name {
            assert(first_container_only(stage.directives@, i as int));
            return Err(BootableBuildError::ContainerOnlyDirective { directive });
        }
        i += 1;
    }
    Ok(stage)
}

/// The value of the last flavor label among the first `n` directives.
pub open spec fn last_flavor(directives: Seq<Directive>, n: int) -> Option<Seq<char>>
    decreases n,
{
    if n <= 0 {
        None
    } else {
        match directives[n - 1] {
            Directive::Label(l) => if l.key@ == label::FLAVOR@ {
                Some(l.value@)
            } else {
                last_flavor(directives, n - 1)
            },
            _ => last_flavor(directives, n - 1),
        }
    }
}

/// The boot flavor of a stage, and whether it was defaulted: the last label
/// counts, and without one it is `systemd-boot`.
pub fn pick_flavor(stage: &Stage) -> (r: (String, bool))
    ensures
        match last_flavor(stage.directives@, stage.directives@.len() as int) {
            Some(value) => r.0@ == value && !r.1,
            None => r.0@ == "systemd-boot"@ && r.1,
        },
{
    let mut n: usize = stage.directives.len();
    while n > 0
        invariant
            n <= stage.directives@.len(),
            last_flavor(stage.directives@, stage.directives@.len() as int) == last_flavor(
                stage.directives@,
                n as int,
            ),
        decreases n,
    {
        if let Directive::Label(l) = &stage.directives[n - 1] {
            if same(l.key.as_str(), label::FLAVOR) {
                return (l.value.clone(), false);
            }
        }
        n -= 1;
    }
    (String::from_str("systemd-boot"), true)
}

/// The last `ENTRYPOINT` among the first `n` directives.
pub open spec fn last_entrypoint(directives: Seq<Directive>, n: int) -> Option<EntrypointInit>
    decreases n,
{
    if n <= 0 {
        None
    } else {
        match directives[n - 1] {
            Directive::Entrypoint(ep) => Some(ep.init),
            _ => last_entrypoint(directives, n - 1),
        }
    }
}

/// What the stage's `ENTRYPOINT` starts.
pub fn pick_entrypoint(stage: &Stage) -> (r: Option<&EntrypointInit>)
    ensures
        match r {
            Some(init) => last_entrypoint(stage.directives@, stage.directives@.len() as int)
                == Some(*init),
            None => last_entrypoint(stage.directives@, stage.directives@.len() as int) is None,
        },
{
    let mut n: usize = stage.directives.len();
    while n > 0
        invariant
            n <= stage.directives@.len(),
            last_entrypoint(stage.directives@, stage.directives@.len() as int) == last_entrypoint(
                stage.directives@,
                n as int,
            ),
        decreases n,
    {
        if let Directive::Entrypoint(ep) = &stage.directives[n - 1] {
            return Some(&ep.init);
        }
        n -= 1;
    }
    None
}

} // verus!
