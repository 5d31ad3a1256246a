//! The Cargo package manager: its capability record for the engine.

use vstd::prelude::*;
use crate::descriptor::CaptureFlag;
use crate::descriptor::CaptureFlagView;
use crate::descriptor::DescriptorView;
use crate::descriptor::InstalledCheckTemplate;
use crate::descriptor::InstalledCheckTemplateView;
use crate::descriptor::ManagerDescriptor;
use crate::descriptor::PackageInstalledMethod;
use crate::render::rendered_check;
use vstd::string::StringExecFns;

verus! {

/// Rust's own package manager.
#[derive(Debug, Default, Copy, Clone, Eq, PartialEq)]
pub struct Cargo;

/// The model of Cargo's capability record: invoked as `cargo`, installs
/// under the `install` sub-command without elevated privileges, skips its
/// value-consuming flags, and captures the VCS source URL passed via
/// `--git`.
pub open spec fn cargo_descriptor_view() -> DescriptorView {
    DescriptorView {
        full_name: "Cargo Rust"@,
        commands: seq!["cargo"@],
        sub_commands: seq!["install"@],
        install_template: "cargo install --quiet"@,
        needs_root: false,
        installed_check: InstalledCheckTemplateView::ScriptPrefix(
            "cargo install --list | grep 'v[0-9]' | grep -q "@,
        ),
        value_flags: seq!["-Z"@, "--version"@, "-j"@, "--jobs"@],
        capture_flags: seq![CaptureFlagView::Single("--git"@)],
    }
}

/// Copies borrowed string slices into owned strings, element for element.
fn strings_of<'a>(v: Vec<&'a str>) -> (r: Vec<String>)
    ensures
        r.deep_view() == v.deep_view(),
{
    let mut r: Vec<String> = Vec::new();
    let mut i: usize = 0;
    while i < v.len()
        invariant
            i <= v.len(),
            r.deep_view() == v.deep_view().take(i as int),
        decreases v.len() - i,
    {
        let ghost prev = r.deep_view();
        let s = String::from_str(v[i]);
        r.push(s);
        proof {
            assert(r.deep_view() =~= prev.push(s@));
            assert(prev.push(s@) =~= v.deep_view().take(i as int + 1));
        }
        i = i + 1;
    }
    proof {
        assert(v.deep_view().take(v.len() as int) =~= v.deep_view());
    }
    r
}

impl Cargo {
    /// Cargo's human-readable name.
    pub fn full_name(self) -> (r: &'static str)
        ensures
            r@ == cargo_descriptor_view().full_name,
    {
        "Cargo Rust"
    }

    /// The executable names under which Cargo is invoked.
    pub fn commands(self) -> (r: Vec<&'static str>)
        ensures
            r.deep_view() == cargo_descriptor_view().commands,
    {
        let mut r: Vec<&'static str> = Vec::new();
        r.push("cargo");
        proof {
            assert(r.deep_view() =~= cargo_descriptor_view().commands);
        }
        r
    }

    /// The sub-commands that denote install semantics.
    pub fn sub_commands(self) -> (r: Vec<&'static str>)
        ensures
            r.deep_view() == cargo_descriptor_view().sub_commands,
    {
        let mut r: Vec<&'static str> = Vec::new();
        r.push("install");
        proof {
            assert(r.deep_view() =~= cargo_descriptor_view().sub_commands);
        }
        r
    }

    /// The install-command template; the package identifier is appended.
    pub fn install_command(self) -> (r: &'static str)
        ensures
            r@ == cargo_descriptor_view().install_template,
    {
        "cargo install --quiet"
    }

    /// Cargo never needs elevated privileges.
    pub fn needs_root(self) -> (r: bool)
        ensures
            r == cargo_descriptor_view().needs_root,
    {
        false
    }

    /// The shell check that tells whether `package` is already installed:
    /// Cargo's install listing, filtered for the package.
    pub fn is_installed(self, package: &str) -> (r: PackageInstalledMethod)
        ensures
            r@ == rendered_check(cargo_descriptor_view().installed_check, package@),
    {
        let mut s = String::from_str("cargo install --list | grep 'v[0-9]' | grep -q ");
        s.append(package);
        PackageInstalledMethod::Script(s)
    }

    /// Cargo's flags that consume the following token as their value.
    pub fn known_flags_with_values(self) -> (r: Vec<&'static str>)
        ensures
            r.deep_view() == cargo_descriptor_view().value_flags,
    {
        let mut r: Vec<&'static str> = Vec::new();
        r.push("-Z");
        r.push("--version");
        r.push("-j");
        r.push("--jobs");
        proof {
            assert(r.deep_view() =~= cargo_descriptor_view().value_flags);
        }
        r
    }

    /// Cargo's capture flags: the VCS source URL passed via `--git`.
    pub fn capture_flags(self) -> (r: Vec<CaptureFlag>)
        ensures
            r.deep_view() == cargo_descriptor_view().capture_flags,
    {
        let mut r: Vec<CaptureFlag> = Vec::new();
        r.push(CaptureFlag::Single(String::from_str("--git")));
        proof {
            assert(r.deep_view() =~= cargo_descriptor_view().capture_flags);
        }
        r
    }

    /// Cargo's full capability record, as the registry holds it.
    pub fn descriptor(self) -> (r: ManagerDescriptor)
        ensures
            r@ == cargo_descriptor_view(),
    {
        let r = ManagerDescriptor {
            full_name: String::from_str(self.full_name()),
            commands: strings_of(self.commands()),
            sub_commands: strings_of(self.sub_commands()),
            install_template: String::from_str(self.install_command()),
            needs_root: self.needs_root(),
            installed_check: InstalledCheckTemplate::ScriptPrefix(
                String::from_str("cargo install --list | grep 'v[0-9]' | grep -q "),
            ),
            value_flags: strings_of(self.known_flags_with_values()),
            capture_flags: self.capture_flags(),
        };
        proof {
            assert(r@ =~= cargo_descriptor_view());
        }
        r
    }
}

/// The descriptor registry constructed at process start. Cargo is the one
/// built-in manager; registry order decides ties between managers that
/// alias a command name.
pub fn default_registry() -> (r: Vec<ManagerDescriptor>)
    ensures
        r.deep_view() == seq![cargo_descriptor_view()],
{
    let mut r: Vec<ManagerDescriptor> = Vec::new();
    r.push(Cargo.descriptor());
    proof {
        assert(r.deep_view() =~= seq![cargo_descriptor_view()]);
    }
    r
}

} // verus!
