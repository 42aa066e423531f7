//! What authorizes cleaning, as it is shown to the user.

use crate::cli::format::{
    divergence_label, divergence_words, format_count, format_paths, grouped, known_words, path_list, yes_no_unknown,
};
use crate::cli::reports::{add_paths, normalize_scan_errors, normalized, with_paths, ReportView};
use crate::daemon::cycle::errors_since;
use crate::environment::Environment;
use crate::outcome::{reason, CommandOutcome, CommandStatus, ScanErrorReport};
use crate::path::{copy_paths, path_views, PathBuf};
use crate::policy::{
    views_of_roots, ProtectedRoot, ProtectedRootKind, ProvenanceView, RootProvenance, RootView, ScopePolicy,
};
use crate::resolve::optional_path;
use crate::service::manager::{
    definition_view, installed_values, roots_of, same_roots, ManagerView, ServiceManager,
};
use crate::service::{captured, fault_message, ServiceError, ServiceFault, ServiceStatus};
use crate::store::generations::{current_generation_of, origin_is, origins_of};
use crate::store::history::{limits_coverage, scan_error_texts};
use crate::store::rows::{
    optional_text, origin_label, DiscoveryOriginKind, DiscoveryOriginRecord, ErrorModel, OriginModel,
};
use crate::store::table::{rows_view, some_row};
use crate::store::{epoch_of, Store, StoreError, StoreFault, StoreModel};
use crate::text::{lossy_chars, signed_decimal, signed_decimal_text, texts};
use crate::time::{Duration, SystemTime};
use vstd::prelude::*;
use vstd::utf8::*;

verus! {

// ---------------------------------------------------------------------- labels

/// The label of a kind of protected directory.
pub open spec fn kind_label(kind: ProtectedRootKind) -> Seq<char> {
    match kind {
        ProtectedRootKind::Cargo => "cargo"@,
        ProtectedRootKind::Rustup => "rustup"@,
        ProtectedRootKind::GoModule => "go_module"@,
        ProtectedRootKind::Bun => "bun"@,
        ProtectedRootKind::ManagedCache => "managed_cache"@,
        ProtectedRootKind::Container => "container"@,
    }
}

/// The label of a kind of protected directory.
pub fn protected_root_kind_label(kind: ProtectedRootKind) -> (label: &'static str)
    ensures
        label@ == kind_label(kind),
{
    match kind {
        ProtectedRootKind::Cargo => "cargo",
        ProtectedRootKind::Rustup => "rustup",
        ProtectedRootKind::GoModule => "go_module",
        ProtectedRootKind::Bun => "bun",
        ProtectedRootKind::ManagedCache => "managed_cache",
        ProtectedRootKind::Container => "container",
    }
}

/// The label of a provenance.
pub open spec fn provenance_label(provenance: ProvenanceView) -> Seq<char> {
    match provenance {
        ProvenanceView::Default => "default"@,
        ProvenanceView::Environment(name) => "environment:"@ + name,
        ProvenanceView::ServiceDefinition => "service_definition"@,
        ProvenanceView::StructuralRoot => "structural"@,
    }
}

/// The label of a provenance.
pub fn root_provenance_label(provenance: &RootProvenance) -> (label: String)
    ensures
        label@ == provenance_label(provenance@),
{
    match provenance {
        RootProvenance::Default => "default".to_owned(),
        RootProvenance::Environment(name) => {
            let mut label = "environment:".to_owned();
            label.append(name.as_str());
            label
        },
        RootProvenance::ServiceDefinition => "service_definition".to_owned(),
        RootProvenance::StructuralRoot => "structural".to_owned(),
    }
}

// ----------------------------------------------------------------------- roots

/// A protected directory as it is shown.
#[derive(Debug, PartialEq, Eq)]
pub struct ProtectedRootDiagnostics {
    pub path: PathBuf,
    pub kind: &'static str,
    pub provenance: String,
}

/// The contents of a shown directory.
pub struct ShownRoot {
    pub path: Seq<u8>,
    pub kind: Seq<char>,
    pub provenance: Seq<char>,
}

impl View for ProtectedRootDiagnostics {
    type V = ShownRoot;

    open spec fn view(&self) -> ShownRoot {
        ShownRoot { path: self.path@, kind: self.kind@, provenance: self.provenance@ }
    }
}

/// A protected directory as it is shown.
pub open spec fn shown_root(root: RootView) -> ShownRoot {
    ShownRoot { path: root.path, kind: kind_label(root.kind), provenance: provenance_label(root.provenance) }
}

/// Protected directories as they are shown.
pub open spec fn shown_roots(roots: Seq<RootView>) -> Seq<ShownRoot> {
    roots.map_values(|root: RootView| shown_root(root))
}

/// The protected directories as they are shown.
pub fn root_diagnostics(roots: &Vec<ProtectedRoot>) -> (shown: Vec<ProtectedRootDiagnostics>)
    ensures
        rows_view(shown@) == shown_roots(views_of_roots(roots@)),
{
    let ghost all = shown_roots(views_of_roots(roots@));
    let mut shown: Vec<ProtectedRootDiagnostics> = Vec::new();
    let mut i: usize = 0;
    while i < roots.len()
        invariant
            i <= roots.len(),
            all == shown_roots(views_of_roots(roots@)),
            rows_view(shown@) == all.take(i as int),
        decreases roots.len() - i,
    {
        let ghost before = rows_view(shown@);
        let one = ProtectedRootDiagnostics {
            path: roots[i].path.clone(),
            kind: protected_root_kind_label(roots[i].kind),
            provenance: root_provenance_label(&roots[i].provenance),
        };
        assert(views_of_roots(roots@)[i as int] == roots@[i as int]@);
        let ghost view = one@;
        assert(view == all[i as int]);
        shown.push(one);
        i += 1;
        assert(rows_view(shown@) =~= before.push(view));
        assert(all.take(i as int) =~= all.take(i - 1).push(view));
    }
    assert(all.take(i as int) =~= all);
    shown
}

// --------------------------------------------------------------------- service

/// What stands against showing the service.
#[derive(Debug, PartialEq, Eq)]
pub struct ServiceWarningDiagnostics {
    pub kind: &'static str,
    pub detail: String,
}

/// The service as it is shown.
#[derive(Debug, PartialEq, Eq)]
pub struct ServiceStateDiagnostics {
    pub installed: Option<bool>,
    pub enabled: Option<bool>,
    pub running: Option<bool>,
    pub protected_roots: Option<Vec<ProtectedRootDiagnostics>>,
    pub warning: Option<ServiceWarningDiagnostics>,
}

/// The contents of a shown service.
pub struct ShownService {
    pub installed: Option<bool>,
    pub enabled: Option<bool>,
    pub running: Option<bool>,
    pub protected_roots: Option<Seq<ShownRoot>>,
    pub warning: Option<(Seq<char>, Seq<char>)>,
}

/// The contents of directories that may be unknown.
pub open spec fn optional_roots(roots: Option<Vec<ProtectedRootDiagnostics>>) -> Option<Seq<ShownRoot>> {
    match roots {
        Some(list) => Some(rows_view(list@)),
        None => None,
    }
}

impl View for ServiceStateDiagnostics {
    type V = ShownService;

    open spec fn view(&self) -> ShownService {
        ShownService {
            installed: self.installed,
            enabled: self.enabled,
            running: self.running,
            protected_roots: optional_roots(self.protected_roots),
            warning: match self.warning {
                Some(warning) => Some((warning.kind@, warning.detail@)),
                None => None,
            },
        }
    }
}

/// A service of which nothing is known but why.
pub open spec fn unknown_service(detail: Seq<char>) -> ShownService {
    ShownService {
        installed: None,
        enabled: None,
        running: None,
        protected_roots: None,
        warning: Some(("service_probe_failed"@, detail)),
    }
}

/// A service of which the status is known.
pub open spec fn known_service(
    status: ServiceStatus,
    protected_roots: Option<Seq<ShownRoot>>,
    warning: Option<(Seq<char>, Seq<char>)>,
) -> ShownService {
    ShownService {
        installed: Some(status.installed),
        enabled: Some(status.enabled),
        running: Some(status.active),
        protected_roots,
        warning,
    }
}

/// What an error of a definition says.
pub open spec fn fault_detail(fault: ServiceFault) -> Seq<char> {
    match fault_message(fault) {
        Some(text) => text,
        None => Seq::empty(),
    }
}

/// The contents of the text of a definition that may be missing or unreadable.
pub open spec fn read_view(definition: Result<Option<String>, String>) -> Result<Option<Seq<char>>, Seq<char>> {
    match definition {
        Ok(text) => Ok(optional_text(text)),
        Err(detail) => Err(detail@),
    }
}

/// The service as it is shown, and whether its environment differs from the current
/// one.
pub open spec fn shown_service<E: Environment>(
    home_known: bool,
    manager: Option<ManagerView>,
    status: Result<ServiceStatus, Seq<char>>,
    definition: Result<Option<Seq<char>>, Seq<char>>,
    environment: &E,
) -> (ShownService, Option<bool>) {
    if !home_known {
        (unknown_service("HOME is unavailable; service definition location is unknown"@), None)
    } else {
        match (manager, status) {
            (None, _) => (unknown_service("service management is unsupported on this platform"@), None),
            (Some(_), Err(detail)) => (unknown_service(detail), None),
            (Some(m), Ok(known)) => match definition {
                Err(detail) => (
                    known_service(known, None, Some(("service_definition_unreadable"@, detail))),
                    None,
                ),
                Ok(text) => match installed_values(m, text) {
                    Err(fault) => (
                        known_service(
                            known,
                            None,
                            Some(("service_definition_unreadable"@, fault_detail(fault))),
                        ),
                        None,
                    ),
                    Ok(None) => (known_service(known, None, None), None),
                    Ok(Some(values)) => (
                        known_service(known, Some(shown_roots(roots_of(m.platform, values))), None),
                        Some(
                            !same_roots(
                                roots_of(m.platform, values),
                                roots_of(m.platform, captured(environment)),
                            ),
                        ),
                    ),
                },
            },
        }
    }
}

/// The contents of a manager that may be missing.
pub open spec fn optional_manager(manager: Option<&ServiceManager>) -> Option<ManagerView> {
    match manager {
        Some(m) => Some(m@),
        None => None,
    }
}

/// The contents of a status that may have failed.
pub open spec fn status_view(status: Result<ServiceStatus, String>) -> Result<ServiceStatus, Seq<char>> {
    match status {
        Ok(known) => Ok(known),
        Err(detail) => Err(detail@),
    }
}

fn unknown(detail: String) -> (shown: ServiceStateDiagnostics)
    ensures
        shown@ == unknown_service(detail@),
{
    ServiceStateDiagnostics {
        installed: None,
        enabled: None,
        running: None,
        protected_roots: None,
        warning: Some(ServiceWarningDiagnostics { kind: "service_probe_failed", detail }),
    }
}

fn unreadable(status: ServiceStatus, detail: String) -> (shown: ServiceStateDiagnostics)
    ensures
        shown@ == known_service(status, None, Some(("service_definition_unreadable"@, detail@))),
{
    ServiceStateDiagnostics {
        installed: Some(status.installed),
        enabled: Some(status.enabled),
        running: Some(status.active),
        protected_roots: None,
        warning: Some(ServiceWarningDiagnostics { kind: "service_definition_unreadable", detail }),
    }
}

fn error_detail(error: &ServiceError) -> (detail: String)
    ensures
        detail@ == fault_detail(error@),
{
    match error.message() {
        Some(text) => text,
        None => String::new(),
    }
}

/// The service as it is shown, and whether its environment differs from the current
/// one: from whether the home directory is known, the manager where there is one, the
/// status of the service, and the text of its definition.
pub fn service_diagnostics<E: Environment>(
    home_known: bool,
    manager: Option<&ServiceManager>,
    status: Result<ServiceStatus, String>,
    definition: Result<Option<String>, String>,
    environment: &E,
) -> (shown: (ServiceStateDiagnostics, Option<bool>))
    ensures
        (shown.0@, shown.1) == shown_service(
            home_known,
            optional_manager(manager),
            status_view(status),
            read_view(definition),
            environment,
        ),
{
    if !home_known {
        return (unknown("HOME is unavailable; service definition location is unknown".to_owned()), None);
    }
    let manager = match manager {
        None => return (unknown("service management is unsupported on this platform".to_owned()), None),
        Some(manager) => manager,
    };
    let status = match status {
        Err(detail) => return (unknown(detail), None),
        Ok(status) => status,
    };
    let text = match definition {
        Err(detail) => return (unreadable(status, detail), None),
        Ok(text) => text,
    };
    let shown_text: Option<&str> = match &text {
        Some(t) => Some(t.as_str()),
        None => None,
    };
    assert(definition_view(shown_text) == optional_text(text));
    let protected_roots = match manager.installed_protected_roots(shown_text) {
        Err(error) => return (unreadable(status, error_detail(&error)), None),
        Ok(None) => None,
        Ok(Some(roots)) => Some(root_diagnostics(&roots)),
    };
    let divergence = match manager.environment_divergence(shown_text, environment) {
        Ok(divergence) => divergence,
        Err(_) => None,
    };
    (
        ServiceStateDiagnostics {
            installed: Some(status.installed),
            enabled: Some(status.enabled),
            running: Some(status.active),
            protected_roots,
            warning: None,
        },
        divergence,
    )
}

// ------------------------------------------------------------------- authority

/// An origin that left something out, as it is shown.
#[derive(Debug, PartialEq, Eq)]
pub struct IncompleteOriginDiagnostics {
    pub kind: DiscoveryOriginKind,
    pub configured_path: PathBuf,
    pub canonical_path: Option<PathBuf>,
    pub error: Option<String>,
}

/// The contents of a shown origin.
pub struct ShownOrigin {
    pub kind: DiscoveryOriginKind,
    pub configured_path: Seq<u8>,
    pub canonical_path: Option<Seq<u8>>,
    pub error: Option<Seq<char>>,
}

impl View for IncompleteOriginDiagnostics {
    type V = ShownOrigin;

    open spec fn view(&self) -> ShownOrigin {
        ShownOrigin {
            kind: self.kind,
            configured_path: self.configured_path@,
            canonical_path: optional_path(self.canonical_path),
            error: optional_text(self.error),
        }
    }
}

/// An origin as it is shown.
pub open spec fn shown_origin(row: OriginModel) -> ShownOrigin {
    ShownOrigin {
        kind: row.kind,
        configured_path: encode_utf8(row.configured_path),
        canonical_path: match row.canonical_path {
            Some(path) => Some(encode_utf8(path)),
            None => None,
        },
        error: row.error,
    }
}

/// The origins that left something out, as they are shown.
pub open spec fn open_origins(rows: Seq<OriginModel>) -> Seq<ShownOrigin>
    decreases rows.len(),
{
    if rows.len() == 0 {
        Seq::empty()
    } else if rows.last().completed {
        open_origins(rows.drop_last())
    } else {
        open_origins(rows.drop_last()).push(shown_origin(rows.last()))
    }
}

fn incomplete_origins(origins: Vec<DiscoveryOriginRecord>, Ghost(rows): Ghost<Seq<OriginModel>>) -> (shown: Vec<
    IncompleteOriginDiagnostics,
>)
    requires
        origins@.len() == rows.len(),
        forall|i: int| 0 <= i < rows.len() ==> origin_is(#[trigger] origins@[i], rows[i]),
    ensures
        rows_view(shown@) == open_origins(rows),
{
    let ghost all = origins@;
    let mut rest = origins;
    let mut shown: Vec<IncompleteOriginDiagnostics> = Vec::new();
    let ghost mut n: int = 0;
    assert(rest@ =~= all.skip(0));
    assert(rows.take(0) =~= Seq::empty());
    assert(rows_view(shown@) =~= Seq::empty());
    while rest.len() > 0
        invariant
            0 <= n <= all.len() == rows.len(),
            rest@ == all.skip(n),
            forall|i: int| 0 <= i < rows.len() ==> origin_is(#[trigger] all[i], rows[i]),
            rows_view(shown@) == open_origins(rows.take(n)),
        decreases rest.len(),
    {
        let ghost before = rows_view(shown@);
        let origin = rest.remove(0);
        proof {
            assert(origin == all[n]);
            assert(rest@ =~= all.skip(n + 1));
            assert(rows.take(n + 1).drop_last() =~= rows.take(n));
            assert(rows.take(n + 1).last() == rows[n]);
            assert(origin_is(origin, rows[n]));
        }
        if !origin.completed {
            let one = IncompleteOriginDiagnostics {
                kind: origin.kind,
                configured_path: origin.configured_path,
                canonical_path: origin.canonical_path,
                error: origin.error,
            };
            let ghost view = one@;
            assert(view == shown_origin(rows[n]));
            shown.push(one);
            assert(rows_view(shown@) =~= before.push(view));
        }
        proof {
            n = n + 1;
        }
    }
    assert(rows.take(n) =~= rows);
    shown
}

/// Whether there is a generation that authorizes cleaning.
#[derive(Debug, Clone, Copy, PartialEq, Eq, Structural)]
pub enum GenerationState {
    /// There is one under the current policy.
    Current,
    /// There is none under the current policy, though projects are known.
    Invalid,
    /// There is none.
    Missing,
}

/// The label of a state.
pub open spec fn state_label(state: GenerationState) -> Seq<char> {
    match state {
        GenerationState::Current => "current"@,
        GenerationState::Invalid => "invalid"@,
        GenerationState::Missing => "missing"@,
    }
}

impl GenerationState {
    /// The label of the state.
    pub fn label(self) -> (label: &'static str)
        ensures
            label@ == state_label(self),
    {
        match self {
            GenerationState::Current => "current",
            GenerationState::Invalid => "invalid",
            GenerationState::Missing => "missing",
        }
    }
}

/// The state of the generations of a store under a policy.
pub open spec fn generation_state(store: StoreModel, policy_hash: Seq<char>) -> GenerationState {
    if current_generation_of(store.discovery_generations, policy_hash) is Some {
        GenerationState::Current
    } else if store.projects.len() > 0 {
        GenerationState::Invalid
    } else {
        GenerationState::Missing
    }
}

/// The current generation as it is shown.
#[derive(Debug, PartialEq, Eq)]
pub struct CurrentGenerationDiagnostics {
    pub id: i64,
    pub policy_hash: String,
    pub boot_session_id: Option<String>,
}

/// What authorizes cleaning, as it is shown.
#[derive(Debug, PartialEq, Eq)]
pub struct CleanupAuthorityDiagnostics {
    pub config_source: PathBuf,
    pub scan_dirs: Vec<PathBuf>,
    pub project_dirs: Vec<PathBuf>,
    pub policy_hash: String,
    pub generation_state: GenerationState,
    pub current_generation: Option<CurrentGenerationDiagnostics>,
    pub protected_roots: Vec<ProtectedRootDiagnostics>,
    pub incomplete_origins: Vec<IncompleteOriginDiagnostics>,
    pub service: ServiceStateDiagnostics,
    pub service_environment_divergence: Option<bool>,
    pub scan_coverage_incomplete: bool,
    pub scan_error_paths: Vec<PathBuf>,
}

/// The contents of a shown authority.
pub struct ShownAuthority {
    pub config_source: Seq<u8>,
    pub scan_dirs: Seq<Seq<u8>>,
    pub project_dirs: Seq<Seq<u8>>,
    pub policy_hash: Seq<char>,
    pub generation_state: GenerationState,
    pub current_generation: Option<(i64, Seq<char>, Option<Seq<char>>)>,
    pub protected_roots: Seq<ShownRoot>,
    pub incomplete_origins: Seq<ShownOrigin>,
    pub service: ShownService,
    pub service_environment_divergence: Option<bool>,
    pub scan_coverage_incomplete: bool,
    pub scan_error_paths: Seq<Seq<u8>>,
}

impl View for CleanupAuthorityDiagnostics {
    type V = ShownAuthority;

    open spec fn view(&self) -> ShownAuthority {
        ShownAuthority {
            config_source: self.config_source@,
            scan_dirs: path_views(self.scan_dirs@),
            project_dirs: path_views(self.project_dirs@),
            policy_hash: self.policy_hash@,
            generation_state: self.generation_state,
            current_generation: match self.current_generation {
                Some(generation) => Some(
                    (generation.id, generation.policy_hash@, optional_text(generation.boot_session_id)),
                ),
                None => None,
            },
            protected_roots: rows_view(self.protected_roots@),
            incomplete_origins: rows_view(self.incomplete_origins@),
            service: self.service@,
            service_environment_divergence: self.service_environment_divergence,
            scan_coverage_incomplete: self.scan_coverage_incomplete,
            scan_error_paths: path_views(self.scan_error_paths@),
        }
    }
}

/// What authorizes cleaning under a policy.
pub open spec fn authority_of(
    policy: &ScopePolicy,
    store: StoreModel,
    since: int,
    service: ShownService,
    divergence: Option<bool>,
) -> Result<ShownAuthority, StoreFault> {
    let current = current_generation_of(store.discovery_generations, policy.hash@);
    match epoch_of(since) {
        None => Err(StoreFault::BeforeEpoch),
        Some(secs) => Ok(
            ShownAuthority {
                config_source: policy.config_source@,
                scan_dirs: path_views(policy.canonical_scan_roots@),
                project_dirs: path_views(policy.canonical_project_paths@),
                policy_hash: policy.hash@,
                generation_state: generation_state(store, policy.hash@),
                current_generation: match current {
                    Some(row) => Some((row.id, row.policy_hash, row.boot_session_id)),
                    None => None,
                },
                protected_roots: shown_roots(views_of_roots(policy.protected_roots@)),
                incomplete_origins: match current {
                    Some(row) => open_origins(origins_of(store, row.id)),
                    None => Seq::empty(),
                },
                service,
                service_environment_divergence: divergence,
                scan_coverage_incomplete: some_row(
                    store.errors,
                    |row: ErrorModel| limits_coverage(store, secs, row),
                ),
                scan_error_paths: Seq::new(
                    scan_error_texts(store, secs).len(),
                    |i: int| encode_utf8(scan_error_texts(store, secs)[i]),
                ),
            },
        ),
    }
}

/// What authorizes cleaning under a policy, counting the errors of scans within an
/// interval.
pub fn cleanup_authority_diagnostics(
    policy: &ScopePolicy,
    store: &Store,
    now: SystemTime,
    scan_interval: Duration,
    service: ServiceStateDiagnostics,
    divergence: Option<bool>,
) -> (result: Result<CleanupAuthorityDiagnostics, StoreError>)
    ensures
        match authority_of(policy, store@, errors_since(now@, scan_interval@ as int), service@, divergence) {
            Ok(view) => result matches Ok(shown) && shown@ == view,
            Err(fault) => result matches Err(error) && error@ == fault,
        },
{
    let generation = store.current_generation(policy.hash.as_str());
    let incomplete = match &generation {
        Some(current) => incomplete_origins(
            store.discovery_origins(current.id),
            Ghost(origins_of(store@, current.id)),
        ),
        None => Vec::new(),
    };
    let state = if generation.is_some() {
        GenerationState::Current
    } else if store.project_count() > 0 {
        GenerationState::Invalid
    } else {
        GenerationState::Missing
    };
    let since = match now.checked_sub(scan_interval) {
        Some(time) => time,
        None => SystemTime::epoch(),
    };
    let scan_coverage_incomplete = match store.scan_coverage_incomplete_since(since) {
        Ok(limited) => limited,
        Err(error) => return Err(error),
    };
    let scan_error_paths = match store.scan_error_paths_since(since) {
        Ok(paths) => paths,
        Err(error) => return Err(error),
    };
    let current_generation = match generation {
        Some(current) => Some(
            CurrentGenerationDiagnostics {
                id: current.id,
                policy_hash: current.policy_hash,
                boot_session_id: current.boot_session_id,
            },
        ),
        None => None,
    };
    let shown = CleanupAuthorityDiagnostics {
        config_source: policy.config_source.clone(),
        scan_dirs: copy_paths(&policy.canonical_scan_roots),
        project_dirs: copy_paths(&policy.canonical_project_paths),
        policy_hash: policy.hash.clone(),
        generation_state: state,
        current_generation,
        protected_roots: root_diagnostics(&policy.protected_roots),
        incomplete_origins: incomplete,
        service,
        service_environment_divergence: divergence,
        scan_coverage_incomplete,
        scan_error_paths,
    };
    proof {
        let secs = epoch_of(since@)->0;
        let wanted = authority_of(policy, store@, since@, service@, divergence)->Ok_0;
        assert(shown@.scan_error_paths =~= wanted.scan_error_paths);
        if current_generation_of(store@.discovery_generations, policy.hash@) is None {
            assert(shown@.incomplete_origins =~= Seq::empty());
        }
    }
    Ok(shown)
}

// ---------------------------------------------------------------------- status

/// Whether the authority leaves something out.
pub open spec fn authority_limited(shown: ShownAuthority) -> bool {
    shown.generation_state != GenerationState::Current || shown.scan_coverage_incomplete
        || shown.incomplete_origins.len() > 0
}

/// The reasons for which an authority leaves something out.
pub open spec fn authority_reasons(shown: ShownAuthority) -> Set<Seq<char>> {
    let state = match shown.generation_state {
        GenerationState::Current => Set::empty(),
        GenerationState::Invalid => set![reason::GENERATION_INVALID@],
        GenerationState::Missing => set![reason::GENERATION_MISSING@],
    };
    let scan = if authority_limited(shown) {
        set![reason::SCAN_INCOMPLETE@]
    } else {
        Set::empty()
    };
    let origin = if shown.incomplete_origins.len() > 0 {
        set![reason::ORIGIN_INCOMPLETE@]
    } else {
        Set::empty()
    };
    state.union(scan).union(origin)
}

/// The status that an authority gives a command.
pub fn cleanup_authority_status(shown: &CleanupAuthorityDiagnostics) -> (status: CommandStatus)
    ensures
        status.spec_outcome() == (if authority_limited(shown@) {
            CommandOutcome::Incomplete
        } else {
            CommandOutcome::Complete
        }),
        status.reason_set() == authority_reasons(shown@),
{
    let mut status = CommandStatus::complete();
    match shown.generation_state {
        GenerationState::Missing => {
            status = status.merge(CommandStatus::incomplete(reason::GENERATION_MISSING)).merge_reason(
                CommandOutcome::Incomplete,
                reason::SCAN_INCOMPLETE,
            );
        },
        GenerationState::Invalid => {
            status = status.merge(CommandStatus::incomplete(reason::GENERATION_INVALID)).merge_reason(
                CommandOutcome::Incomplete,
                reason::SCAN_INCOMPLETE,
            );
        },
        GenerationState::Current => {},
    }
    assert(shown@.incomplete_origins.len() == shown.incomplete_origins@.len());
    if shown.scan_coverage_incomplete || shown.incomplete_origins.len() > 0 {
        status = status.merge_reason(CommandOutcome::Incomplete, reason::SCAN_INCOMPLETE);
    }
    if shown.incomplete_origins.len() > 0 {
        status = status.merge_reason(CommandOutcome::Incomplete, reason::ORIGIN_INCOMPLETE);
    }
    assert(status.reason_set() =~= authority_reasons(shown@));
    status
}

/// The problem of an origin that left something out.
pub open spec fn origin_problem(origin: ShownOrigin) -> ReportView {
    ReportView {
        kind: origin_label(origin.kind),
        path: match origin.canonical_path {
            Some(path) => Some(path),
            None => Some(origin.configured_path),
        },
        message: match origin.error {
            Some(error) => error,
            None => "origin incomplete"@,
        },
    }
}

/// The problems of origins that left something out.
pub open spec fn origin_problems(origins: Seq<ShownOrigin>) -> Seq<ReportView> {
    origins.map_values(|origin: ShownOrigin| origin_problem(origin))
}

/// The problem that no path is known of.
pub open spec fn pathless_problem() -> ReportView {
    ReportView { kind: "scan"@, path: None, message: "recent pathless scan or worktree discovery error"@ }
}

/// The problems of an authority.
pub open spec fn authority_problems(shown: ShownAuthority) -> Seq<ReportView> {
    let named = with_paths(origin_problems(shown.incomplete_origins), shown.scan_error_paths);
    normalized(
        if shown.scan_coverage_incomplete && named.len() == 0 {
            seq![pathless_problem()]
        } else {
            named
        },
    )
}

/// The problem of an origin that left something out.
pub fn origin_report(
    kind: DiscoveryOriginKind,
    configured_path: &PathBuf,
    canonical_path: &Option<PathBuf>,
    error: &Option<String>,
) -> (report: ScanErrorReport)
    ensures
        report@ == origin_problem(
            ShownOrigin {
                kind,
                configured_path: configured_path@,
                canonical_path: optional_path(*canonical_path),
                error: optional_text(*error),
            },
        ),
{
    ScanErrorReport {
        kind: kind.as_str().to_owned(),
        path: match canonical_path {
            Some(path) => Some(path.clone()),
            None => Some(configured_path.clone()),
        },
        message: match error {
            Some(error) => error.clone(),
            None => "origin incomplete".to_owned(),
        },
    }
}

/// The problems of an authority.
pub fn diagnostics_scan_errors(shown: &CleanupAuthorityDiagnostics) -> (reports: Vec<ScanErrorReport>)
    ensures
        rows_view(reports@) == authority_problems(shown@),
{
    let ghost origins = shown@.incomplete_origins;
    let ghost all = origin_problems(origins);
    let mut reports: Vec<ScanErrorReport> = Vec::new();
    let mut i: usize = 0;
    while i < shown.incomplete_origins.len()
        invariant
            i <= shown.incomplete_origins.len(),
            origins == rows_view(shown.incomplete_origins@),
            all == origin_problems(origins),
            rows_view(reports@) == all.take(i as int),
        decreases shown.incomplete_origins.len() - i,
    {
        let ghost before = rows_view(reports@);
        let origin = &shown.incomplete_origins[i];
        let report = origin_report(origin.kind, &origin.configured_path, &origin.canonical_path, &origin.error);
        let ghost view = report@;
        assert(origins[i as int] == origin@);
        assert(view == all[i as int]);
        reports.push(report);
        i += 1;
        assert(rows_view(reports@) =~= before.push(view));
        assert(all.take(i as int) =~= all.take(i - 1).push(view));
    }
    assert(origins.len() == shown.incomplete_origins@.len());
    assert(all.take(i as int) =~= all);
    add_paths(&mut reports, &shown.scan_error_paths);
    assert(rows_view(reports@).len() == reports@.len());
    if shown.scan_coverage_incomplete && reports.len() == 0 {
        reports.push(
            ScanErrorReport {
                kind: "scan".to_owned(),
                path: None,
                message: "recent pathless scan or worktree discovery error".to_owned(),
            },
        );
        assert(rows_view(reports@) =~= seq![pathless_problem()]);
    }
    normalize_scan_errors(&mut reports);
    reports
}

/// Cleaning is fully authorized only by a current generation that left nothing out.
pub proof fn complete_authority_is_current(shown: ShownAuthority)
    ensures
        authority_reasons(shown) == Set::<Seq<char>>::empty() <==> !authority_limited(shown),
        !authority_limited(shown) ==> shown.generation_state == GenerationState::Current
            && shown.incomplete_origins.len() == 0 && !shown.scan_coverage_incomplete,
{
    if authority_limited(shown) {
        assert(authority_reasons(shown).contains(reason::SCAN_INCOMPLETE@));
    } else {
        assert(authority_reasons(shown) =~= Set::empty());
    }
}

// ----------------------------------------------------------------------- lines

/// A line with a label and a value.
pub open spec fn row(label: Seq<char>, value: Seq<char>) -> Seq<char> {
    "  "@ + label + ": "@ + value
}

/// Pushes a line with a label and a value.
pub fn push_row(lines: &mut Vec<String>, label: &str, value: &str)
    ensures
        texts(final(lines)@) == texts(old(lines)@).push(row(label@, value@)),
{
    let ghost before = lines@;
    let mut line = "  ".to_owned();
    line.append(label);
    line.append(": ");
    line.append(value);
    lines.push(line);
    assert(texts(lines@) =~= texts(before).push(row(label@, value@)));
}

/// Pushes a line.
pub fn push_line(lines: &mut Vec<String>, line: String)
    ensures
        texts(final(lines)@) == texts(old(lines)@).push(line@),
{
    let ghost before = lines@;
    lines.push(line);
    assert(texts(lines@) =~= texts(before).push(line@));
}

/// The line of a protected directory.
pub open spec fn root_line(root: ShownRoot) -> Seq<char> {
    "    "@ + lossy_chars(root.path) + " ("@ + root.kind + ", "@ + root.provenance + ")"@
}

/// The lines of protected directories.
pub open spec fn root_lines(roots: Seq<ShownRoot>) -> Seq<Seq<char>> {
    roots.map_values(|root: ShownRoot| root_line(root))
}

fn push_roots(lines: &mut Vec<String>, roots: &Vec<ProtectedRootDiagnostics>)
    ensures
        texts(final(lines)@) == texts(old(lines)@) + root_lines(rows_view(roots@)),
{
    let ghost start = texts(lines@);
    let ghost all = root_lines(rows_view(roots@));
    let mut i: usize = 0;
    assert(start + all.take(0) =~= start);
    while i < roots.len()
        invariant
            i <= roots.len(),
            all == root_lines(rows_view(roots@)),
            texts(lines@) == start + all.take(i as int),
        decreases roots.len() - i,
    {
        let mut line = "    ".to_owned();
        line.append(roots[i].path.to_string_lossy().as_str());
        line.append(" (");
        line.append(roots[i].kind);
        line.append(", ");
        line.append(roots[i].provenance.as_str());
        line.append(")");
        assert(rows_view(roots@)[i as int] == roots@[i as int]@);
        assert(line@ == all[i as int]);
        let ghost shown = line@;
        push_line(lines, line);
        i += 1;
        assert((start + all.take(i - 1)).push(shown) =~= start + all.take(i as int));
    }
    assert(rows_view(roots@).len() == roots@.len());
    assert(all.take(i as int) =~= all);
}

/// The line of an origin that left something out.
pub open spec fn origin_line(origin: ShownOrigin) -> Seq<char> {
    "    "@ + lossy_chars(origin.configured_path) + " ("@ + origin_label(origin.kind) + ", canonical="@ + (
    match origin.canonical_path {
        Some(path) => lossy_chars(path),
        None => "<none>"@,
    }) + ", "@ + (match origin.error {
        Some(error) => error,
        None => "unknown error"@,
    }) + ")"@
}

/// The lines of origins that left something out.
pub open spec fn origin_lines(origins: Seq<ShownOrigin>) -> Seq<Seq<char>> {
    origins.map_values(|origin: ShownOrigin| origin_line(origin))
}

fn push_origins(lines: &mut Vec<String>, origins: &Vec<IncompleteOriginDiagnostics>)
    ensures
        texts(final(lines)@) == texts(old(lines)@) + origin_lines(rows_view(origins@)),
{
    let ghost start = texts(lines@);
    let ghost all = origin_lines(rows_view(origins@));
    let mut i: usize = 0;
    assert(start + all.take(0) =~= start);
    while i < origins.len()
        invariant
            i <= origins.len(),
            all == origin_lines(rows_view(origins@)),
            texts(lines@) == start + all.take(i as int),
        decreases origins.len() - i,
    {
        let origin = &origins[i];
        let canonical = match &origin.canonical_path {
            Some(path) => path.to_string_lossy(),
            None => "<none>".to_owned(),
        };
        let mut line = "    ".to_owned();
        line.append(origin.configured_path.to_string_lossy().as_str());
        line.append(" (");
        line.append(origin.kind.as_str());
        line.append(", canonical=");
        line.append(canonical.as_str());
        line.append(", ");
        match &origin.error {
            Some(error) => line.append(error.as_str()),
            None => line.append("unknown error"),
        }
        line.append(")");
        assert(rows_view(origins@)[i as int] == origins@[i as int]@);
        assert(line@ == all[i as int]);
        let ghost shown = line@;
        push_line(lines, line);
        i += 1;
        assert((start + all.take(i - 1)).push(shown) =~= start + all.take(i as int));
    }
    assert(rows_view(origins@).len() == origins@.len());
    assert(all.take(i as int) =~= all);
}

/// The lines of the directories that the service was installed with.
pub open spec fn installed_root_lines(roots: Option<Seq<ShownRoot>>) -> Seq<Seq<char>> {
    match roots {
        None => seq![row("Installed service protected roots"@, "<unknown>"@)],
        Some(list) => seq![row("Installed service protected roots"@, grouped(list.len()))] + root_lines(list),
    }
}

fn push_installed_roots(lines: &mut Vec<String>, roots: &Option<Vec<ProtectedRootDiagnostics>>)
    ensures
        texts(final(lines)@) == texts(old(lines)@) + installed_root_lines(optional_roots(*roots)),
{
    let ghost start = texts(lines@);
    match roots {
        None => {
            push_row(lines, "Installed service protected roots", "<unknown>");
            assert(texts(lines@) =~= start + installed_root_lines(None));
        },
        Some(list) => {
            push_row(lines, "Installed service protected roots", format_count(list.len()).as_str());
            push_roots(lines, list);
            assert(rows_view(list@).len() == list@.len());
            assert(texts(lines@) =~= start + installed_root_lines(Some(rows_view(list@))));
        },
    }
}

/// The lines of the directories that the service was installed with.
pub fn installed_service_roots(roots: &Option<Vec<ProtectedRootDiagnostics>>) -> (lines: Vec<String>)
    ensures
        texts(lines@) == installed_root_lines(optional_roots(*roots)),
{
    let mut lines: Vec<String> = Vec::new();
    assert(texts(lines@) =~= seq![]);
    push_installed_roots(&mut lines, roots);
    assert(seq![] + installed_root_lines(optional_roots(*roots)) =~= installed_root_lines(optional_roots(*roots)));
    lines
}

/// The generation of a shown authority.
pub open spec fn generation_words(generation: Option<(i64, Seq<char>, Option<Seq<char>>)>) -> Seq<char> {
    match generation {
        None => "<none>"@,
        Some((id, _, boot)) => "id="@ + signed_decimal(id as int) + " boot_session="@ + (match boot {
            Some(name) => name,
            None => "<unknown>"@,
        }),
    }
}

fn generation_text(generation: &Option<CurrentGenerationDiagnostics>) -> (text: String)
    ensures
        text@ == generation_words(
            match *generation {
                Some(g) => Some((g.id, g.policy_hash@, optional_text(g.boot_session_id))),
                None => None,
            },
        ),
{
    match generation {
        None => "<none>".to_owned(),
        Some(g) => {
            let mut text = "id=".to_owned();
            text.append(signed_decimal_text(g.id as i128).as_str());
            text.append(" boot_session=");
            match &g.boot_session_id {
                Some(name) => text.append(name.as_str()),
                None => text.append("<unknown>"),
            }
            text
        },
    }
}

/// What is said where the environments differ.
pub open spec fn divergence_warning() -> Seq<char> {
    "    Warning: protected-root inputs differ; run `car-go-clean service install` to recapture the current environment."@
}

/// The lines of an authority.
pub open spec fn authority_lines(shown: ShownAuthority) -> Seq<Seq<char>> {
    seq![
        row("Config source"@, lossy_chars(shown.config_source)),
        row("Canonical scan roots"@, path_list(shown.scan_dirs)),
        row("Canonical project roots"@, path_list(shown.project_dirs)),
        row("Policy hash"@, shown.policy_hash),
        row("Generation state"@, state_label(shown.generation_state)),
        row("Current generation"@, generation_words(shown.current_generation)),
        row("Protected roots"@, grouped(shown.protected_roots.len())),
    ] + root_lines(shown.protected_roots) + seq![
        row("Incomplete origins"@, grouped(shown.incomplete_origins.len())),
    ] + origin_lines(shown.incomplete_origins) + seq![
        row("Service installed"@, known_words(shown.service.installed)),
        row("Service enabled"@, known_words(shown.service.enabled)),
        row("Service running"@, known_words(shown.service.running)),
    ] + installed_root_lines(shown.service.protected_roots) + seq![
        row("Service environment divergence"@, divergence_words(shown.service_environment_divergence)),
    ] + (if shown.service_environment_divergence == Some(true) {
        seq![divergence_warning()]
    } else {
        seq![]
    }) + (match shown.service.warning {
        Some((kind, detail)) => seq![row("Service warning"@, kind), "    "@ + detail],
        None => seq![],
    })
}

/// The lines of an authority.
pub fn cleanup_authority_lines(shown: &CleanupAuthorityDiagnostics) -> (lines: Vec<String>)
    ensures
        texts(lines@) == authority_lines(shown@),
{
    let mut lines: Vec<String> = Vec::new();
    assert(texts(lines@) =~= seq![]);
    assert(shown@.protected_roots.len() == shown.protected_roots@.len());
    assert(shown@.incomplete_origins.len() == shown.incomplete_origins@.len());
    push_row(&mut lines, "Config source", shown.config_source.to_string_lossy().as_str());
    push_row(&mut lines, "Canonical scan roots", format_paths(&shown.scan_dirs).as_str());
    push_row(&mut lines, "Canonical project roots", format_paths(&shown.project_dirs).as_str());
    push_row(&mut lines, "Policy hash", shown.policy_hash.as_str());
    push_row(&mut lines, "Generation state", shown.generation_state.label());
    push_row(&mut lines, "Current generation", generation_text(&shown.current_generation).as_str());
    push_row(&mut lines, "Protected roots", format_count(shown.protected_roots.len()).as_str());
    push_roots(&mut lines, &shown.protected_roots);
    push_row(&mut lines, "Incomplete origins", format_count(shown.incomplete_origins.len()).as_str());
    push_origins(&mut lines, &shown.incomplete_origins);
    push_row(&mut lines, "Service installed", yes_no_unknown(shown.service.installed));
    push_row(&mut lines, "Service enabled", yes_no_unknown(shown.service.enabled));
    push_row(&mut lines, "Service running", yes_no_unknown(shown.service.running));
    push_installed_roots(&mut lines, &shown.service.protected_roots);
    push_row(
        &mut lines,
        "Service environment divergence",
        divergence_label(shown.service_environment_divergence),
    );
    let diverges = match shown.service_environment_divergence {
        Some(diverges) => diverges,
        None => false,
    };
    if diverges {
        push_line(
            &mut lines,
            "    Warning: protected-root inputs differ; run `car-go-clean service install` to recapture the current environment.".to_owned(),
        );
    }
    match &shown.service.warning {
        Some(warning) => {
            push_row(&mut lines, "Service warning", warning.kind);
            let mut line = "    ".to_owned();
            line.append(warning.detail.as_str());
            push_line(&mut lines, line);
        },
        None => {},
    }
    assert(texts(lines@) =~= authority_lines(shown@));
    lines
}

} // verus!
