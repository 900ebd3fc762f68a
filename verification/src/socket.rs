//! Configuration of the filesystem-backed listening endpoint: a builder that
//! stages the recognized options, validates them wholesale, and the state
//! machine that orders the build steps — stale-file cleanup, bind,
//! permissions, blocking mode — and classifies each step's failure.
//!
//! The operating-system calls themselves happen outside this crate; the
//! caller drives the machine, performs each step, and reports whether it
//! succeeded.

use vstd::prelude::*;

use vstd::string::StringExecFns;

verus! {

/// The failures socket construction and use can produce, one variant per
/// stage of the taxonomy: a bad or missing builder input, a cleanup or bind
/// failure, a permission failure, an accept failure, and a read or write
/// failure on an established connection.
#[derive(Debug, Clone, Copy, PartialEq, Eq, Structural)]
pub enum SocketError {
    Config,
    Bind,
    Permission,
    Accept,
    Io,
}

/// A validated endpoint configuration: the backing path, the blocking mode,
/// and the optional access bits to apply to the path after bind.
#[derive(Debug, Clone)]
pub struct SocketConfig {
    pub path: String,
    pub nonblocking: bool,
    pub permissions: Option<u32>,
}

/// The mathematical content of a `SocketConfig`.
#[verifier::ext_equal]
pub struct SocketConfigView {
    pub path: Seq<char>,
    pub nonblocking: bool,
    pub permissions: Option<u32>,
}

impl View for SocketConfig {
    type V = SocketConfigView;

    open spec fn view(&self) -> SocketConfigView {
        SocketConfigView {
            path: self.path@,
            nonblocking: self.nonblocking,
            permissions: self.permissions,
        }
    }
}

/// Staged options for the listening endpoint; `build` validates them
/// wholesale.
pub struct SocketBuilder {
    path: Option<String>,
    nonblocking: Option<bool>,
    permissions: Option<u32>,
}

/// The mathematical content of a `SocketBuilder`.
#[verifier::ext_equal]
pub struct SocketBuilderView {
    pub path: Option<Seq<char>>,
    pub nonblocking: Option<bool>,
    pub permissions: Option<u32>,
}

impl View for SocketBuilder {
    type V = SocketBuilderView;

    closed spec fn view(&self) -> SocketBuilderView {
        SocketBuilderView {
            path: match self.path {
                Some(p) => Some(p@),
                None => None,
            },
            nonblocking: self.nonblocking,
            permissions: self.permissions,
        }
    }
}

impl SocketBuilder {
    /// A builder with nothing staged.
    pub fn new() -> (r: SocketBuilder)
        ensures
            r@ == (SocketBuilderView { path: None, nonblocking: None, permissions: None }),
    {
        SocketBuilder { path: None, nonblocking: None, permissions: None }
    }

    /// Stages the backing path.
    pub fn with_path(self, path: &str) -> (r: SocketBuilder)
        ensures
            r@ == (SocketBuilderView { path: Some(path@), ..self@ }),
    {
        SocketBuilder { path: Some(String::from_str(path)), ..self }
    }

    /// Stages the blocking mode.
    pub fn nonblocking(self, nonblocking: bool) -> (r: SocketBuilder)
        ensures
            r@ == (SocketBuilderView { nonblocking: Some(nonblocking), ..self@ }),
    {
        SocketBuilder { nonblocking: Some(nonblocking), ..self }
    }

    /// Stages the access bits to apply to the path after bind.
    pub fn with_permissions(self, permissions: u32) -> (r: SocketBuilder)
        ensures
            r@ == (SocketBuilderView { permissions: Some(permissions), ..self@ }),
    {
        SocketBuilder { permissions: Some(permissions), ..self }
    }

    /// Validates the staged options wholesale: the path is required, the
    /// blocking mode defaults to blocking, and the access bits stay
    /// optional.
    pub fn build(self) -> (r: Result<SocketConfig, SocketError>)
        ensures
            r is Err <==> self@.path is None,
            r matches Err(e) ==> e == SocketError::Config,
            r matches Ok(cfg) ==> cfg@ == (SocketConfigView {
                path: self@.path.unwrap(),
                nonblocking: match self@.nonblocking {
                    Some(b) => b,
                    None => false,
                },
                permissions: self@.permissions,
            }),
    {
        match self.path {
            None => Err(SocketError::Config),
            Some(path) => {
                let nonblocking = match self.nonblocking {
                    Some(b) => b,
                    None => false,
                };
                Ok(SocketConfig { path, nonblocking, permissions: self.permissions })
            },
        }
    }
}

/// The steps that take a validated configuration to a live endpoint, in the
/// order the caller performs them.
#[derive(Debug, Clone, Copy, PartialEq, Eq, Structural)]
pub enum BuildStep {
    /// Remove the stale filesystem entry at the path.
    RemoveStale,
    /// Bind a fresh listening endpoint to the path.
    Bind,
    /// Apply the configured access bits to the path.
    SetPermissions,
    /// Apply the configured blocking mode to the endpoint.
    SetBlockingMode,
    /// The endpoint is ready to accept connections.
    Ready,
}

/// Where the build begins: with cleanup when a filesystem entry already
/// stands at the path, and with bind otherwise.
pub open spec fn spec_initial_step(path_exists: bool) -> BuildStep {
    if path_exists {
        BuildStep::RemoveStale
    } else {
        BuildStep::Bind
    }
}

/// Where the build begins, given whether a filesystem entry already stands
/// at the path.
pub fn initial_step(path_exists: bool) -> (s: BuildStep)
    ensures
        s == spec_initial_step(path_exists),
{
    if path_exists {
        BuildStep::RemoveStale
    } else {
        BuildStep::Bind
    }
}

/// The next step after performing `step`, or the classified error when the
/// step failed: cleanup and bind failures are bind errors, a permission
/// failure is a permission error, and a blocking-mode failure is a
/// configuration error. Permission setting is skipped when no access bits
/// were configured.
pub open spec fn spec_advance_build(
    cfg: SocketConfigView,
    step: BuildStep,
    succeeded: bool,
) -> Result<BuildStep, SocketError> {
    match step {
        BuildStep::RemoveStale => if succeeded {
            Ok(BuildStep::Bind)
        } else {
            Err(SocketError::Bind)
        },
        BuildStep::Bind => if !succeeded {
            Err(SocketError::Bind)
        } else if cfg.permissions is Some {
            Ok(BuildStep::SetPermissions)
        } else {
            Ok(BuildStep::SetBlockingMode)
        },
        BuildStep::SetPermissions => if succeeded {
            Ok(BuildStep::SetBlockingMode)
        } else {
            Err(SocketError::Permission)
        },
        BuildStep::SetBlockingMode => if succeeded {
            Ok(BuildStep::Ready)
        } else {
            Err(SocketError::Config)
        },
        BuildStep::Ready => Ok(BuildStep::Ready),
    }
}

/// Advances the build machine by one performed step.
pub fn advance_build(cfg: &SocketConfig, step: BuildStep, succeeded: bool) -> (r: Result<
    BuildStep,
    SocketError,
>)
    ensures
        r == spec_advance_build(cfg@, step, succeeded),
{
    match step {
        BuildStep::RemoveStale => if succeeded {
            Ok(BuildStep::Bind)
        } else {
            Err(SocketError::Bind)
        },
        BuildStep::Bind => if !succeeded {
            Err(SocketError::Bind)
        } else if matches!(cfg.permissions, Some(_)) {
            Ok(BuildStep::SetPermissions)
        } else {
            Ok(BuildStep::SetBlockingMode)
        },
        BuildStep::SetPermissions => if succeeded {
            Ok(BuildStep::SetBlockingMode)
        } else {
            Err(SocketError::Permission)
        },
        BuildStep::SetBlockingMode => if succeeded {
            Ok(BuildStep::Ready)
        } else {
            Err(SocketError::Config)
        },
        BuildStep::Ready => Ok(BuildStep::Ready),
    }
}

/// Chains a machine result into the next advance.
pub open spec fn spec_advance_after(
    cfg: SocketConfigView,
    r: Result<BuildStep, SocketError>,
    succeeded: bool,
) -> Result<BuildStep, SocketError> {
    match r {
        Ok(step) => spec_advance_build(cfg, step, succeeded),
        Err(e) => Err(e),
    }
}

/// The whole build, one step after the other, from the initial step to the
/// ready endpoint or the first classified failure.
pub open spec fn spec_build_run(
    cfg: SocketConfigView,
    path_exists: bool,
    remove_ok: bool,
    bind_ok: bool,
    perm_ok: bool,
    mode_ok: bool,
) -> Result<BuildStep, SocketError> {
    let s0 = spec_initial_step(path_exists);
    let r1 = if path_exists {
        spec_advance_build(cfg, s0, remove_ok)
    } else {
        Ok(s0)
    };
    let r2 = spec_advance_after(cfg, r1, bind_ok);
    let r3 = match r2 {
        Ok(BuildStep::SetPermissions) => spec_advance_after(cfg, r2, perm_ok),
        _ => r2,
    };
    spec_advance_after(cfg, r3, mode_ok)
}

/// The build's summary: which error ends it, or that it reaches the ready
/// endpoint, as a function of each step's outcome.
pub open spec fn spec_build_outcome(
    cfg: SocketConfigView,
    path_exists: bool,
    remove_ok: bool,
    bind_ok: bool,
    perm_ok: bool,
    mode_ok: bool,
) -> Result<BuildStep, SocketError> {
    if path_exists && !remove_ok {
        Err(SocketError::Bind)
    } else if !bind_ok {
        Err(SocketError::Bind)
    } else if cfg.permissions is Some && !perm_ok {
        Err(SocketError::Permission)
    } else if !mode_ok {
        Err(SocketError::Config)
    } else {
        Ok(BuildStep::Ready)
    }
}

/// Running the machine step by step agrees with the build summary.
pub proof fn lemma_build_run_outcome(
    cfg: SocketConfigView,
    path_exists: bool,
    remove_ok: bool,
    bind_ok: bool,
    perm_ok: bool,
    mode_ok: bool,
)
    ensures
        spec_build_run(cfg, path_exists, remove_ok, bind_ok, perm_ok, mode_ok)
            == spec_build_outcome(cfg, path_exists, remove_ok, bind_ok, perm_ok, mode_ok),
{
}

/// Stale-socket recovery: when a stale filesystem entry stands at the path
/// and its removal succeeds, the build runs exactly as it does at a path
/// with no entry at all — the leftover file cannot make the build fail.
pub proof fn lemma_stale_socket_recovery(
    cfg: SocketConfigView,
    remove_ok: bool,
    bind_ok: bool,
    perm_ok: bool,
    mode_ok: bool,
)
    ensures
        spec_build_run(cfg, true, true, bind_ok, perm_ok, mode_ok) == spec_build_run(
            cfg,
            false,
            remove_ok,
            bind_ok,
            perm_ok,
            mode_ok,
        ),
{
}

} // verus!
