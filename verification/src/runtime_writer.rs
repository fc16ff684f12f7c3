//! The link that enables a service.
use vstd::prelude::*;
use crate::path::{join_path, joined_path};
use crate::text::concat2;

verus! {

/// An init system with services.
#[derive(Clone, Copy, Debug, PartialEq, Eq, Structural)]
pub enum InitSystem {
    /// systemd
    Systemd,
    /// OpenRC
    OpenRc,
}

/// The directory of the link that enables a service, below the root.
pub open spec fn enable_dir(init: InitSystem) -> Seq<char> {
    match init {
        InitSystem::Systemd => "etc/systemd/system/multi-user.target.wants"@,
        InitSystem::OpenRc => "etc/runlevels/default"@,
    }
}

/// What the link that enables a service points to.
pub open spec fn enable_target(init: InitSystem, unit: Seq<char>) -> Seq<char> {
    match init {
        InitSystem::Systemd => "/usr/lib/systemd/system/"@ + unit,
        InitSystem::OpenRc => "/etc/init.d/"@ + unit,
    }
}

/// The directory of the link that enables a service, and what the link points
/// to. The link has the name of the unit.
pub fn enable_paths(init: InitSystem, unit: &str) -> (r: (String, String))
    ensures
        r.0@ == enable_dir(init),
        r.1@ == enable_target(init, unit@),
{
    match init {
        InitSystem::Systemd => (
            String::from_str("etc/systemd/system/multi-user.target.wants"),
            concat2("/usr/lib/systemd/system/", unit),
        ),
        InitSystem::OpenRc => (
            String::from_str("etc/runlevels/default"),
            concat2("/etc/init.d/", unit),
        ),
    }
}

/// A link to be made.
#[derive(Debug)]
pub struct EnableLink {
    /// The directory of the link, which is made where it is missing.
    pub dir: String,
    /// The link.
    pub link: String,
    /// What it points to.
    pub target: String,
    /// Is what is at the path of the link removed first?
    pub replaces: bool,
}

/// How to enable a service below `root`, given whether there is anything at the
/// path of the link, be it a link that leads nowhere. What is there is replaced,
/// so that a service can be enabled twice.
pub fn write_enable_link(root: &str, init: InitSystem, unit: &str, is_there: bool) -> (r: EnableLink)
    ensures
        r.dir@ == join_path(root@, enable_dir(init)),
        r.link@ == join_path(r.dir@, unit@),
        r.target@ == enable_target(init, unit@),
        r.replaces == is_there,
{
    let (dir_rel, target) = enable_paths(init, unit);
    let dir = joined_path(root, dir_rel.as_str());
    let link = joined_path(dir.as_str(), unit);
    EnableLink { dir, link, target, replaces: is_there }
}

} // verus!
