//! Deterministic renderings of a matched manager's capabilities: the
//! install command, the is-installed check, and the root requirement.

use vstd::prelude::*;
use crate::classify::ClassificationResult;
use crate::descriptor::InstalledCheckTemplate;
use crate::descriptor::InstalledCheckTemplateView;
use crate::descriptor::PackageInstalledMethod;
use crate::descriptor::PackageInstalledMethodView;
use vstd::string::StringExecFns;

verus! {

/// The install command for one package: the manager's template with the
/// package identifier substituted, separated by one space.
pub open spec fn rendered_install(template: Seq<char>, package: Seq<char>) -> Seq<char> {
    template + seq![' '] + package
}

/// The is-installed check for one package: a literal answer stays as it
/// is; a script template gets the package identifier substituted.
pub open spec fn rendered_check(
    check: InstalledCheckTemplateView,
    package: Seq<char>,
) -> PackageInstalledMethodView {
    match check {
        InstalledCheckTemplateView::Literal(b) => PackageInstalledMethodView::Literal(b),
        InstalledCheckTemplateView::ScriptPrefix(prefix) => PackageInstalledMethodView::Script(
            prefix + package,
        ),
    }
}

/// Renders the literal install command for `package` with the matched
/// manager's template.
pub fn render_install(result: &ClassificationResult, package: &str) -> (r: String)
    ensures
        r@ == rendered_install(result@.manager.install_template, package@),
{
    let mut s = result.manager.install_template.clone();
    s.append(" ");
    s.append(package);
    proof {
        reveal_strlit(" ");
        assert(" "@ =~= seq![' ']);
    }
    s
}

/// Renders the matched manager's is-installed check for `package`.
pub fn render_is_installed(result: &ClassificationResult, package: &str) -> (r:
    PackageInstalledMethod)
    ensures
        r@ == rendered_check(result@.manager.installed_check, package@),
{
    match &result.manager.installed_check {
        InstalledCheckTemplate::Literal(b) => PackageInstalledMethod::Literal(*b),
        InstalledCheckTemplate::ScriptPrefix(prefix) => {
            let mut s = prefix.clone();
            s.append(package);
            PackageInstalledMethod::Script(s)
        },
    }
}

/// Whether the matched manager requires elevated privileges.
pub fn requires_root(result: &ClassificationResult) -> (r: bool)
    ensures
        r == result@.manager.needs_root,
{
    result.manager.needs_root
}

} // verus!
