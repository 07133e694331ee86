//! An explicit snapshot of the ambient state the resolver reads: environment
//! variables and the outputs of helper-tool invocations, all as plain values
//! collected by the caller.

use vstd::prelude::*;

verus! {

/// Everything the path resolver may consult, passed in rather than read
/// globally. A `None` field means the variable was unset or the invocation
/// failed; tool outputs are stored raw, exactly as captured.
pub struct Environment {
    /// The process's executable search path (colon-separated directories).
    pub path: Option<String>,
    /// The version manager's root directory.
    pub rustup_home: Option<String>,
    /// The identifier of the active toolchain.
    pub rustup_toolchain: Option<String>,
    /// The platform's shared-library search path (colon-separated).
    pub ld_library_path: Option<String>,
    /// The build tool's executable path.
    pub cargo: Option<String>,
    /// An explicit host architecture override.
    pub host: Option<String>,
    /// An explicit compiler path override.
    pub rustc: Option<String>,
    /// Raw output of asking the version manager which compiler is active.
    pub rustup_which_rustc: Option<String>,
    /// Raw output of asking the resolved compiler for its installation root.
    pub rustc_sysroot: Option<String>,
    /// Raw output of the resolved compiler's verbose version report.
    pub rustc_verbose_version: Option<String>,
}

/// The mathematical view of an [`Environment`]: each field as an optional
/// character sequence.
pub struct EnvironmentView {
    pub path: Option<Seq<char>>,
    pub rustup_home: Option<Seq<char>>,
    pub rustup_toolchain: Option<Seq<char>>,
    pub ld_library_path: Option<Seq<char>>,
    pub cargo: Option<Seq<char>>,
    pub host: Option<Seq<char>>,
    pub rustc: Option<Seq<char>>,
    pub rustup_which_rustc: Option<Seq<char>>,
    pub rustc_sysroot: Option<Seq<char>>,
    pub rustc_verbose_version: Option<Seq<char>>,
}

impl View for Environment {
    type V = EnvironmentView;

    open spec fn view(&self) -> EnvironmentView {
        EnvironmentView {
            path: self.path.deep_view(),
            rustup_home: self.rustup_home.deep_view(),
            rustup_toolchain: self.rustup_toolchain.deep_view(),
            ld_library_path: self.ld_library_path.deep_view(),
            cargo: self.cargo.deep_view(),
            host: self.host.deep_view(),
            rustc: self.rustc.deep_view(),
            rustup_which_rustc: self.rustup_which_rustc.deep_view(),
            rustc_sysroot: self.rustc_sysroot.deep_view(),
            rustc_verbose_version: self.rustc_verbose_version.deep_view(),
        }
    }
}

impl Environment {
    /// A snapshot with every source of information absent.
    pub fn empty() -> (r: Environment)
        ensures
            r@.path is None,
            r@.rustup_home is None,
            r@.rustup_toolchain is None,
            r@.ld_library_path is None,
            r@.cargo is None,
            r@.host is None,
            r@.rustc is None,
            r@.rustup_which_rustc is None,
            r@.rustc_sysroot is None,
            r@.rustc_verbose_version is None,
    {
        Environment {
            path: None,
            rustup_home: None,
            rustup_toolchain: None,
            ld_library_path: None,
            cargo: None,
            host: None,
            rustc: None,
            rustup_which_rustc: None,
            rustc_sysroot: None,
            rustc_verbose_version: None,
        }
    }
}

} // verus!
