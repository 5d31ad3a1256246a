//! Classification of raw package-manager command lines.
//!
//! The engine splits a typed shell line into tokens, matches the first
//! token against a registry of package-manager descriptors, walks the
//! remaining tokens with the matched manager's flag tables, and returns
//! which packages the line installs together with any flag values the
//! descriptor asks to capture.

pub mod cargo;
pub mod classify;
pub mod descriptor;
pub mod laws;
pub mod render;
pub mod tokenize;

pub use cargo::Cargo;
pub use cargo::default_registry;
pub use classify::ClassificationResult;
pub use classify::ClassifyError;
pub use classify::CapturedValues;
pub use classify::classify;
pub use descriptor::CaptureFlag;
pub use descriptor::InstalledCheckTemplate;
pub use descriptor::ManagerDescriptor;
pub use descriptor::PackageInstalledMethod;
pub use render::render_install;
pub use render::render_is_installed;
pub use render::requires_root;
pub use tokenize::tokenize;
