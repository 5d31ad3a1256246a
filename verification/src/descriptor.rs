//! The data model for package-manager descriptors: the capability record
//! that one manager supplies to the classification engine.

use vstd::prelude::*;

verus! {

/// A flag whose following value(s) the classifier extracts and returns to
/// the caller instead of treating them as package identifiers.
#[derive(Debug, PartialEq, Eq)]
pub enum CaptureFlag {
    /// Captures exactly the next token as one value.
    Single(String),
    /// Captures every following token, until the next token that is itself
    /// recognized as a flag or the line ends, as values of this flag.
    List(String),
}

/// Mathematical model of a [`CaptureFlag`].
pub enum CaptureFlagView {
    Single(Seq<char>),
    List(Seq<char>),
}

impl View for CaptureFlag {
    type V = CaptureFlagView;

    open spec fn view(&self) -> CaptureFlagView {
        match self {
            CaptureFlag::Single(name) => CaptureFlagView::Single(name@),
            CaptureFlag::List(name) => CaptureFlagView::List(name@),
        }
    }
}

impl DeepView for CaptureFlag {
    type V = CaptureFlagView;

    open spec fn deep_view(&self) -> CaptureFlagView {
        self.view()
    }
}

/// The name of a capture flag, whatever its arity.
pub open spec fn capture_name(f: CaptureFlagView) -> Seq<char> {
    match f {
        CaptureFlagView::Single(name) => name,
        CaptureFlagView::List(name) => name,
    }
}

/// How a manager's "is this package installed" question is answered:
/// either the answer is already known, or a script decides it.
#[derive(Debug, PartialEq, Eq)]
pub enum InstalledCheckTemplate {
    /// The answer is this constant.
    Literal(bool),
    /// A script template; the package identifier is appended to the prefix
    /// to obtain the script to run.
    ScriptPrefix(String),
}

/// Mathematical model of an [`InstalledCheckTemplate`].
pub enum InstalledCheckTemplateView {
    Literal(bool),
    ScriptPrefix(Seq<char>),
}

impl View for InstalledCheckTemplate {
    type V = InstalledCheckTemplateView;

    open spec fn view(&self) -> InstalledCheckTemplateView {
        match self {
            InstalledCheckTemplate::Literal(b) => InstalledCheckTemplateView::Literal(*b),
            InstalledCheckTemplate::ScriptPrefix(s) => InstalledCheckTemplateView::ScriptPrefix(s@),
        }
    }
}

/// A rendered "is this package installed" check, ready for an external
/// collaborator to execute.
#[derive(Debug, PartialEq, Eq)]
pub enum PackageInstalledMethod {
    /// The answer is this constant.
    Literal(bool),
    /// Run this script; its exit status is the answer.
    Script(String),
}

/// Mathematical model of a [`PackageInstalledMethod`].
pub enum PackageInstalledMethodView {
    Literal(bool),
    Script(Seq<char>),
}

impl View for PackageInstalledMethod {
    type V = PackageInstalledMethodView;

    open spec fn view(&self) -> PackageInstalledMethodView {
        match self {
            PackageInstalledMethod::Literal(b) => PackageInstalledMethodView::Literal(*b),
            PackageInstalledMethod::Script(s) => PackageInstalledMethodView::Script(s@),
        }
    }
}

/// The immutable capability record describing one package manager's
/// command surface. Constructed once, shared read-only by every
/// classification call.
#[derive(Debug, PartialEq, Eq)]
pub struct ManagerDescriptor {
    /// Human-readable name of the manager.
    pub full_name: String,
    /// Executable names under which the manager can be invoked (non-empty).
    pub commands: Vec<String>,
    /// Sub-commands that denote install semantics. When empty, the manager
    /// has no distinguished sub-command and the second token of a line is an
    /// ordinary argument candidate.
    pub sub_commands: Vec<String>,
    /// Install-command template; the package identifier is appended,
    /// separated by one space, to obtain the full command.
    pub install_template: String,
    /// Whether invoking the manager requires elevated privileges.
    pub needs_root: bool,
    /// How to check whether a package is already installed.
    pub installed_check: InstalledCheckTemplate,
    /// Flags that consume the following token as their value; the pair is
    /// skipped as a unit.
    pub value_flags: Vec<String>,
    /// Flags whose value(s) are captured and returned to the caller.
    pub capture_flags: Vec<CaptureFlag>,
}

/// Mathematical model of a [`ManagerDescriptor`].
#[verifier::ext_equal]
pub struct DescriptorView {
    pub full_name: Seq<char>,
    pub commands: Seq<Seq<char>>,
    pub sub_commands: Seq<Seq<char>>,
    pub install_template: Seq<char>,
    pub needs_root: bool,
    pub installed_check: InstalledCheckTemplateView,
    pub value_flags: Seq<Seq<char>>,
    pub capture_flags: Seq<CaptureFlagView>,
}

impl View for ManagerDescriptor {
    type V = DescriptorView;

    open spec fn view(&self) -> DescriptorView {
        DescriptorView {
            full_name: self.full_name@,
            commands: self.commands.deep_view(),
            sub_commands: self.sub_commands.deep_view(),
            install_template: self.install_template@,
            needs_root: self.needs_root,
            installed_check: self.installed_check@,
            value_flags: self.value_flags.deep_view(),
            capture_flags: self.capture_flags.deep_view(),
        }
    }
}

impl DeepView for ManagerDescriptor {
    type V = DescriptorView;

    open spec fn deep_view(&self) -> DescriptorView {
        self.view()
    }
}

/// Copies a vector of strings, element for element.
fn clone_strings(v: &Vec<String>) -> (r: Vec<String>)
    ensures
        r.deep_view() == v.deep_view(),
{
    let mut r: Vec<String> = Vec::new();
    let mut i: usize = 0;
    while i < v.len()
        invariant
            i <= v.len(),
            r.deep_view() == v.deep_view().take(i as int),
        decreases v.len() - i,
    {
        let ghost prev = r.deep_view();
        let s = v[i].clone();
        proof {
            assert(s@ == v.deep_view()[i as int]);
        }
        r.push(s);
        proof {
            assert(r.deep_view() =~= prev.push(s@));
            assert(prev.push(s@) =~= v.deep_view().take(i as int + 1));
        }
        i = i + 1;
    }
    proof {
        assert(v.deep_view().take(v.len() as int) =~= v.deep_view());
    }
    r
}

/// Copies a vector of capture flags, element for element.
fn clone_capture_flags(v: &Vec<CaptureFlag>) -> (r: Vec<CaptureFlag>)
    ensures
        r.deep_view() == v.deep_view(),
{
    let mut r: Vec<CaptureFlag> = Vec::new();
    let mut i: usize = 0;
    while i < v.len()
        invariant
            i <= v.len(),
            r.deep_view() == v.deep_view().take(i as int),
        decreases v.len() - i,
    {
        let ghost prev = r.deep_view();
        let f = match &v[i] {
            CaptureFlag::Single(name) => CaptureFlag::Single(name.clone()),
            CaptureFlag::List(name) => CaptureFlag::List(name.clone()),
        };
        proof {
            assert(f@ == v.deep_view()[i as int]);
        }
        r.push(f);
        proof {
            assert(r.deep_view() =~= prev.push(f@));
            assert(prev.push(f@) =~= v.deep_view().take(i as int + 1));
        }
        i = i + 1;
    }
    proof {
        assert(v.deep_view().take(v.len() as int) =~= v.deep_view());
    }
    r
}

impl ManagerDescriptor {
    /// Copies the descriptor; the copy models to the same value.
    pub fn duplicate(&self) -> (r: ManagerDescriptor)
        ensures
            r@ == self@,
    {
        let installed_check = match &self.installed_check {
            InstalledCheckTemplate::Literal(b) => InstalledCheckTemplate::Literal(*b),
            InstalledCheckTemplate::ScriptPrefix(s) => InstalledCheckTemplate::ScriptPrefix(
                s.clone(),
            ),
        };
        let r = ManagerDescriptor {
            full_name: self.full_name.clone(),
            commands: clone_strings(&self.commands),
            sub_commands: clone_strings(&self.sub_commands),
            install_template: self.install_template.clone(),
            needs_root: self.needs_root,
            installed_check,
            value_flags: clone_strings(&self.value_flags),
            capture_flags: clone_capture_flags(&self.capture_flags),
        };
        proof {
            assert(r@ =~= self@);
        }
        r
    }
}

} // verus!
