//! Cloud build service: build pipelines, OTA update decisions, and
//! content-addressed cache keys. No network I/O happens here.

use vstd::prelude::*;
use std::collections::HashMap;
use crate::platform::PlatformId;
use crate::text::{append_decimal, decimal};

mod version;
pub mod ledger;

pub use version::{BundleVersion, build_or_zero, version_lt, version_same_rank, version_order};

verus! {

#[derive(Debug)]
pub enum CloudError {
    BuildFailed { target: BuildTarget, reason: String },
    InvalidConfig(String),
    CacheMiss(String),
    OtaRejected(String),
    VersionConflict { current: String, required: String },
    ServiceError(String),
}

pub type CloudResult<T> = Result<T, CloudError>;

// ── Build pipeline ─────────────────────────────────────────────────────

/// Platforms a build can target.
#[derive(Debug, Clone, Copy, PartialEq, Eq, Hash, Structural)]
pub enum BuildTarget {
    Ios,
    Android,
    Macos,
    Windows,
    Web,
    Linux,
}

/// The debug name of a target.
pub open spec fn target_name(t: BuildTarget) -> Seq<char> {
    match t {
        BuildTarget::Ios => "Ios"@,
        BuildTarget::Android => "Android"@,
        BuildTarget::Macos => "Macos"@,
        BuildTarget::Windows => "Windows"@,
        BuildTarget::Web => "Web"@,
        BuildTarget::Linux => "Linux"@,
    }
}

fn target_name_str(t: BuildTarget) -> (s: &'static str)
    ensures
        s@ == target_name(t),
{
    match t {
        BuildTarget::Ios => "Ios",
        BuildTarget::Android => "Android",
        BuildTarget::Macos => "Macos",
        BuildTarget::Windows => "Windows",
        BuildTarget::Web => "Web",
        BuildTarget::Linux => "Linux",
    }
}

impl BuildTarget {
    /// The platform this target renders on; Linux has none yet.
    pub fn to_platform_id(&self) -> (r: Option<PlatformId>)
        ensures
            r == match *self {
                BuildTarget::Ios => Some(PlatformId::Ios),
                BuildTarget::Android => Some(PlatformId::Android),
                BuildTarget::Macos => Some(PlatformId::Macos),
                BuildTarget::Windows => Some(PlatformId::Windows),
                BuildTarget::Web => Some(PlatformId::Web),
                BuildTarget::Linux => None::<PlatformId>,
            },
    {
        match self {
            BuildTarget::Ios => Some(PlatformId::Ios),
            BuildTarget::Android => Some(PlatformId::Android),
            BuildTarget::Macos => Some(PlatformId::Macos),
            BuildTarget::Windows => Some(PlatformId::Windows),
            BuildTarget::Web => Some(PlatformId::Web),
            BuildTarget::Linux => None,
        }
    }
}

/// Build mode.
#[derive(Debug, Clone, Copy, PartialEq, Eq, Hash, Structural)]
pub enum BuildMode {
    Debug,
    Release,
    Profile,
}

/// The debug name of a build mode.
pub open spec fn mode_name(m: BuildMode) -> Seq<char> {
    match m {
        BuildMode::Debug => "Debug"@,
        BuildMode::Release => "Release"@,
        BuildMode::Profile => "Profile"@,
    }
}

fn mode_name_str(m: BuildMode) -> (s: &'static str)
    ensures
        s@ == mode_name(m),
{
    match m {
        BuildMode::Debug => "Debug",
        BuildMode::Release => "Release",
        BuildMode::Profile => "Profile",
    }
}

/// Status of a build job.
#[derive(Debug, Clone, PartialEq, Eq)]
pub enum BuildStatus {
    Queued,
    Running,
    Succeeded,
    Failed { reason: String },
    Cancelled,
}

pub open spec fn status_is_terminal(s: BuildStatus) -> bool {
    s is Succeeded || s is Failed || s is Cancelled
}

/// `a` and `b` are the same kind of status (the failure reason aside).
pub open spec fn same_status_kind(a: BuildStatus, b: BuildStatus) -> bool {
    match (a, b) {
        (BuildStatus::Queued, BuildStatus::Queued) => true,
        (BuildStatus::Running, BuildStatus::Running) => true,
        (BuildStatus::Succeeded, BuildStatus::Succeeded) => true,
        (BuildStatus::Failed { .. }, BuildStatus::Failed { .. }) => true,
        (BuildStatus::Cancelled, BuildStatus::Cancelled) => true,
        _ => false,
    }
}

impl BuildStatus {
    /// Whether the job has finished (succeeded, failed or was cancelled).
    pub fn is_terminal(&self) -> (r: bool)
        ensures
            r == status_is_terminal(*self),
    {
        match self {
            BuildStatus::Succeeded | BuildStatus::Failed { .. } | BuildStatus::Cancelled => true,
            _ => false,
        }
    }

    pub fn is_success(&self) -> (r: bool)
        ensures
            r == (*self is Succeeded),
    {
        match self {
            BuildStatus::Succeeded => true,
            _ => false,
        }
    }

    fn same_kind(&self, other: &BuildStatus) -> (r: bool)
        ensures
            r == same_status_kind(*self, *other),
    {
        match (self, other) {
            (BuildStatus::Queued, BuildStatus::Queued) => true,
            (BuildStatus::Running, BuildStatus::Running) => true,
            (BuildStatus::Succeeded, BuildStatus::Succeeded) => true,
            (BuildStatus::Failed { .. }, BuildStatus::Failed { .. }) => true,
            (BuildStatus::Cancelled, BuildStatus::Cancelled) => true,
            _ => false,
        }
    }
}

/// Configuration for a single build job.
#[derive(Debug, Clone)]
pub struct BuildJobConfig {
    pub target: BuildTarget,
    pub mode: BuildMode,
    pub env_vars: HashMap<String, String>,
    pub features: Vec<String>,
    pub signing_profile: Option<String>,
}

/// A single build job within a pipeline. Its timing is kept by the caller.
#[derive(Debug, Clone)]
pub struct BuildJob {
    pub id: String,
    pub config: BuildJobConfig,
    pub status: BuildStatus,
    pub artifact_key: Option<String>,
    pub log_url: Option<String>,
}

impl BuildJob {
    pub fn new(id: String, config: BuildJobConfig) -> (j: Self)
        ensures
            j.id == id,
            j.config == config,
            j.status == BuildStatus::Queued,
            j.artifact_key is None,
            j.log_url is None,
    {
        BuildJob { id, config, status: BuildStatus::Queued, artifact_key: None, log_url: None }
    }
}

/// A build pipeline targeting one or more platforms.
#[derive(Debug, Clone)]
pub struct BuildPipeline {
    pub id: String,
    pub app_name: String,
    pub app_version: String,
    pub commit_sha: Option<String>,
    pub jobs: Vec<BuildJob>,
}

/// The id of the `index`-th job of pipeline `pipeline_id` for `target`.
pub open spec fn job_id(pipeline_id: Seq<char>, target: BuildTarget, index: nat) -> Seq<char> {
    pipeline_id + "-"@ + target_name(target) + "-"@ + decimal(index)
}

impl BuildPipeline {
    pub fn new(id: &str, app_name: &str, app_version: &str) -> (p: Self)
        ensures
            p.id@ == id@,
            p.app_name@ == app_name@,
            p.app_version@ == app_version@,
            p.commit_sha is None,
            p.jobs@ == Seq::<BuildJob>::empty(),
    {
        BuildPipeline {
            id: String::from_str(id),
            app_name: String::from_str(app_name),
            app_version: String::from_str(app_version),
            commit_sha: None,
            jobs: Vec::new(),
        }
    }

    /// Add a queued build job; its id names the pipeline, the target and its position.
    pub fn add_job(&mut self, config: BuildJobConfig) -> (j: &BuildJob)
        ensures
            final(self).id == old(self).id,
            final(self).app_name == old(self).app_name,
            final(self).app_version == old(self).app_version,
            final(self).commit_sha == old(self).commit_sha,
            final(self).jobs@.len() == old(self).jobs@.len() + 1,
            final(self).jobs@.drop_last() == old(self).jobs@,
            final(self).jobs@.last().id@ == job_id(
                old(self).id@,
                config.target,
                old(self).jobs@.len(),
            ),
            final(self).jobs@.last().config == config,
            final(self).jobs@.last().status == BuildStatus::Queued,
            final(self).jobs@.last().artifact_key is None,
            final(self).jobs@.last().log_url is None,
            *j == final(self).jobs@.last(),
    {
        let mut job_id = self.id.clone();
        job_id.append("-");
        job_id.append(target_name_str(config.target));
        job_id.append("-");
        append_decimal(&mut job_id, self.jobs.len() as u64);
        proof {
            reveal_strlit("-");
        }
        let job = BuildJob::new(job_id, config);
        self.jobs.push(job);
        let n = self.jobs.len();
        &self.jobs[n - 1]
    }

    /// Whether every job has finished (and there is at least one).
    pub fn is_complete(&self) -> (r: bool)
        ensures
            r == (self.jobs@.len() > 0 && forall|i: int|
                0 <= i < self.jobs@.len() ==> status_is_terminal(#[trigger] self.jobs@[i].status)),
    {
        if self.jobs.len() == 0 {
            return false;
        }
        let mut i: usize = 0;
        while i < self.jobs.len()
            invariant
                i <= self.jobs@.len(),
                forall|q: int| 0 <= q < i ==> status_is_terminal(#[trigger] self.jobs@[q].status),
            decreases self.jobs@.len() - i,
        {
            if !self.jobs[i].status.is_terminal() {
                return false;
            }
            i = i + 1;
        }
        true
    }

    /// Whether every job succeeded (and there is at least one).
    pub fn all_succeeded(&self) -> (r: bool)
        ensures
            r == (self.jobs@.len() > 0 && forall|i: int|
                0 <= i < self.jobs@.len() ==> (#[trigger] self.jobs@[i].status) is Succeeded),
    {
        if self.jobs.len() == 0 {
            return false;
        }
        let mut i: usize = 0;
        while i < self.jobs.len()
            invariant
                i <= self.jobs@.len(),
                forall|q: int| 0 <= q < i ==> (#[trigger] self.jobs@[q].status) is Succeeded,
            decreases self.jobs@.len() - i,
        {
            if !self.jobs[i].status.is_success() {
                return false;
            }
            i = i + 1;
        }
        true
    }

    /// The jobs whose status is of the same kind as `status_match`, in order.
    pub fn jobs_with_status(&self, status_match: &BuildStatus) -> (r: Vec<&BuildJob>)
        ensures
            r@.map_values(|j: &BuildJob| *j) == self.jobs@.filter(
                |j: BuildJob| same_status_kind(j.status, *status_match),
            ),
    {
        let ghost pred = |j: BuildJob| same_status_kind(j.status, *status_match);
        let mut r: Vec<&BuildJob> = Vec::new();
        let mut i: usize = 0;
        assert(self.jobs@.take(0).filter(pred) =~= Seq::<BuildJob>::empty()) by {
            reveal_with_fuel(Seq::<BuildJob>::filter, 1);
        }
        assert(r@.map_values(|j: &BuildJob| *j) =~= Seq::<BuildJob>::empty());
        while i < self.jobs.len()
            invariant
                i <= self.jobs@.len(),
                pred == (|j: BuildJob| same_status_kind(j.status, *status_match)),
                r@.map_values(|j: &BuildJob| *j) == self.jobs@.take(i as int).filter(pred),
            decreases self.jobs@.len() - i,
        {
            let ghost before = r@;
            proof {
                let s = self.jobs@.take(i + 1);
                assert(s.drop_last() =~= self.jobs@.take(i as int));
                reveal_with_fuel(Seq::<BuildJob>::filter, 1);
            }
            if self.jobs[i].status.same_kind(status_match) {
                r.push(&self.jobs[i]);
                assert(r@.map_values(|j: &BuildJob| *j) =~= before.map_values(|j: &BuildJob| *j).push(
                    self.jobs@[i as int],
                ));
            }
            i = i + 1;
        }
        assert(self.jobs@.take(self.jobs@.len() as int) =~= self.jobs@);
        r
    }

    /// The targets of the jobs, in order.
    pub fn targets(&self) -> (r: Vec<BuildTarget>)
        ensures
            r@ == self.jobs@.map_values(|j: BuildJob| j.config.target),
    {
        let mut r: Vec<BuildTarget> = Vec::new();
        let mut i: usize = 0;
        while i < self.jobs.len()
            invariant
                i <= self.jobs@.len(),
                r@ == self.jobs@.take(i as int).map_values(|j: BuildJob| j.config.target),
            decreases self.jobs@.len() - i,
        {
            r.push(self.jobs[i].config.target);
            assert(self.jobs@.take(i + 1).map_values(|j: BuildJob| j.config.target) =~= self.jobs@.take(
                i as int,
            ).map_values(|j: BuildJob| j.config.target).push(self.jobs@[i as int].config.target));
            i = i + 1;
        }
        assert(self.jobs@.take(self.jobs@.len() as int) =~= self.jobs@);
        r
    }
}

/// Jobs `a` and `b` build the same target in the same mode.
pub open spec fn same_build(a: BuildJob, b: BuildJob) -> bool {
    a.config.target == b.config.target && a.config.mode == b.config.mode
}

/// `k` is the first job that repeats the target and mode of an earlier job.
pub open spec fn is_first_duplicate(jobs: Seq<BuildJob>, k: int) -> bool {
    &&& 0 <= k < jobs.len()
    &&& exists|j: int| 0 <= j < k && same_build(jobs[j], jobs[k])
    &&& forall|k2: int, j: int| 0 <= j < k2 < k ==> !same_build(#[trigger] jobs[j], #[trigger] jobs[k2])
}

/// The message for a duplicated target and mode.
pub open spec fn duplicate_message(t: BuildTarget, m: BuildMode) -> Seq<char> {
    "Duplicate target "@ + target_name(t) + " with mode "@ + mode_name(m)
}

/// The outcome of validating a pipeline: the first rule it breaks, in the
/// order app name, app version, at least one job, no repeated target and mode.
pub open spec fn pipeline_error(p: BuildPipeline) -> Option<Seq<char>> {
    if p.app_name@.len() == 0 {
        Some("app_name is required"@)
    } else if p.app_version@.len() == 0 {
        Some("app_version is required"@)
    } else if p.jobs@.len() == 0 {
        Some("pipeline must have at least one job"@)
    } else if exists|k: int| is_first_duplicate(p.jobs@, k) {
        let k = choose|k: int| is_first_duplicate(p.jobs@, k);
        Some(duplicate_message(p.jobs@[k].config.target, p.jobs@[k].config.mode))
    } else {
        None
    }
}

/// Validates a build pipeline configuration before submission.
#[verifier::loop_isolation(false)]
pub fn validate_pipeline(pipeline: &BuildPipeline) -> (r: CloudResult<()>)
    ensures
        match pipeline_error(*pipeline) {
            None => r is Ok,
            Some(msg) => r matches Err(CloudError::InvalidConfig(m)) && m@ == msg,
        },
{
    if pipeline.app_name.as_str().unicode_len() == 0 {
        return Err(CloudError::InvalidConfig(String::from_str("app_name is required")));
    }
    if pipeline.app_version.as_str().unicode_len() == 0 {
        return Err(CloudError::InvalidConfig(String::from_str("app_version is required")));
    }
    if pipeline.jobs.len() == 0 {
        return Err(CloudError::InvalidConfig(String::from_str("pipeline must have at least one job")));
    }
    let mut k: usize = 0;
    while k < pipeline.jobs.len()
        invariant
            k <= pipeline.jobs@.len(),
            forall|k2: int, j: int| 0 <= j < k2 < k ==> !same_build(#[trigger] pipeline.jobs@[j], #[trigger] pipeline.jobs@[k2]),
        decreases pipeline.jobs@.len() - k,
    {
        let mut j: usize = 0;
        while j < k
            invariant
                j <= k < pipeline.jobs@.len(),
                forall|k2: int, j2: int| 0 <= j2 < k2 < k ==> !same_build(#[trigger] pipeline.jobs@[j2], #[trigger] pipeline.jobs@[k2]),
                forall|q: int| 0 <= q < j ==> !same_build(#[trigger] pipeline.jobs@[q], pipeline.jobs@[k as int]),
            decreases k - j,
        {
            if pipeline.jobs[j].config.target == pipeline.jobs[k].config.target && pipeline.jobs[j].config.mode == pipeline.jobs[k].config.mode {
                proof {
                    assert(same_build(pipeline.jobs@[j as int], pipeline.jobs@[k as int]));
                    assert(is_first_duplicate(pipeline.jobs@, k as int));
                    assert forall|k3: int| is_first_duplicate(pipeline.jobs@, k3) implies k3 == k by {
                        if k3 < k {
                            let w = choose|w: int| 0 <= w < k3 && same_build(pipeline.jobs@[w], pipeline.jobs@[k3]);
                            assert(same_build(pipeline.jobs@[w], pipeline.jobs@[k3]));
                        } else if k3 > k {
                            assert(same_build(pipeline.jobs@[j as int], pipeline.jobs@[k as int]));
                        }
                    }
                }
                let mut msg = String::from_str("Duplicate target ");
                msg.append(target_name_str(pipeline.jobs[k].config.target));
                msg.append(" with mode ");
                msg.append(mode_name_str(pipeline.jobs[k].config.mode));
                proof {
                    assert(exists|k3: int| is_first_duplicate(pipeline.jobs@, k3));
                    let kc = choose|k3: int| is_first_duplicate(pipeline.jobs@, k3);
                    assert(kc == k);
                    assert(msg@ =~= duplicate_message(pipeline.jobs@[k as int].config.target, pipeline.jobs@[k as int].config.mode));
                }
                return Err(CloudError::InvalidConfig(msg));
            }
            j = j + 1;
        }
        k = k + 1;
    }
    assert(!exists|k: int| is_first_duplicate(pipeline.jobs@, k));
    Ok(())
}

// ── OTA updates ────────────────────────────────────────────────────────

/// `v` works with a native version that requires at least `min`: same major
/// version, and not older.
pub open spec fn compatible(v: BundleVersion, min: BundleVersion) -> bool {
    &&& v.major == min.major
    &&& !version_lt(v, min)
}

/// The text form "major.minor.patch", with "+build" when a build number is set.
pub open spec fn version_text(v: BundleVersion) -> Seq<char> {
    let base = decimal(v.major as nat) + "."@ + decimal(v.minor as nat) + "."@ + decimal(
        v.patch as nat,
    );
    match v.build {
        Some(b) => base + "+"@ + decimal(b as nat),
        None => base,
    }
}

impl BundleVersion {
    pub fn new(major: u32, minor: u32, patch: u32) -> (v: Self)
        ensures
            v == (BundleVersion { major, minor, patch, build: None }),
    {
        BundleVersion { major, minor, patch, build: None }
    }

    pub fn with_build(self, build: u32) -> (v: Self)
        ensures
            v == (BundleVersion { build: Some(build), ..self }),
    {
        BundleVersion { build: Some(build), ..self }
    }

    /// Compatible if the major version matches and `self >= min` in the
    /// version order (minor, then patch, then build number).
    pub fn is_compatible_with(&self, min: &BundleVersion) -> (r: bool)
        ensures
            r == compatible(*self, *min),
    {
        if self.major != min.major {
            return false;
        }
        if self.minor != min.minor {
            return self.minor > min.minor;
        }
        if self.patch != min.patch {
            return self.patch > min.patch;
        }
        let own = match self.build {
            Some(b) => b,
            None => 0,
        };
        let least = match min.build {
            Some(b) => b,
            None => 0,
        };
        own >= least
    }

    /// The version as text, e.g. "1.0.0+42".
    pub fn to_string(&self) -> (s: String)
        ensures
            s@ == version_text(*self),
    {
        let mut s = String::new();
        append_decimal(&mut s, self.major as u64);
        s.append(".");
        append_decimal(&mut s, self.minor as u64);
        s.append(".");
        append_decimal(&mut s, self.patch as u64);
        match self.build {
            Some(b) => {
                s.append("+");
                append_decimal(&mut s, b as u64);
            },
            None => {},
        }
        proof {
            reveal_strlit(".");
            reveal_strlit("+");
            assert(s@ =~= version_text(*self));
        }
        s
    }
}

fn version_less(a: &BundleVersion, b: &BundleVersion) -> (r: bool)
    ensures
        r == version_lt(*a, *b),
{
    let ab = match a.build {
        Some(x) => x,
        None => 0,
    };
    let bb = match b.build {
        Some(x) => x,
        None => 0,
    };
    a.major < b.major || (a.major == b.major && a.minor < b.minor) || (a.major == b.major && a.minor
        == b.minor && a.patch < b.patch) || (a.major == b.major && a.minor == b.minor && a.patch
        == b.patch && ab < bb)
}

/// A single OTA update entry. Its creation time is kept by the caller.
#[derive(Debug, Clone)]
pub struct OtaUpdate {
    pub version: BundleVersion,
    pub min_native_version: BundleVersion,
    pub bundle_url: String,
    pub bundle_hash: String,
    pub bundle_size_bytes: u64,
    pub release_notes: String,
    pub is_mandatory: bool,
    pub rollout_percentage: u8,
    pub target_platforms: Vec<BuildTarget>,
}

/// Manifest listing available OTA updates for an app.
#[derive(Debug, Clone)]
pub struct OtaManifest {
    pub app_id: String,
    pub updates: Vec<OtaUpdate>,
}

/// Update `u` targets `platform` and, when a native version is given, works with it.
pub open spec fn eligible(u: OtaUpdate, native: Option<BundleVersion>, platform: BuildTarget) -> bool {
    &&& u.target_platforms@.contains(platform)
    &&& (native matches Some(n) ==> compatible(n, u.min_native_version))
}

/// `i` is the newest eligible update; among equally ranked ones, the last listed.
pub open spec fn is_latest(
    updates: Seq<OtaUpdate>,
    native: Option<BundleVersion>,
    platform: BuildTarget,
    i: int,
) -> bool {
    &&& 0 <= i < updates.len()
    &&& eligible(updates[i], native, platform)
    &&& forall|j: int|
        0 <= j < updates.len() && eligible(#[trigger] updates[j], native, platform) ==> !version_lt(
            updates[i].version,
            updates[j].version,
        )
    &&& forall|j: int|
        i < j < updates.len() && eligible(#[trigger] updates[j], native, platform) ==> version_lt(
            updates[j].version,
            updates[i].version,
        )
}

/// The position of the newest eligible update, if there is one.
pub open spec fn latest_of(
    updates: Seq<OtaUpdate>,
    native: Option<BundleVersion>,
    platform: BuildTarget,
) -> Option<int> {
    if exists|i: int| is_latest(updates, native, platform, i) {
        Some(choose|i: int| is_latest(updates, native, platform, i))
    } else {
        None
    }
}

proof fn lemma_latest_unique(
    updates: Seq<OtaUpdate>,
    native: Option<BundleVersion>,
    platform: BuildTarget,
    i: int,
)
    requires
        is_latest(updates, native, platform, i),
    ensures
        latest_of(updates, native, platform) == Some(i),
{
    let c = choose|k: int| is_latest(updates, native, platform, k);
    assert(is_latest(updates, native, platform, c));
    if c < i {
        assert(eligible(updates[i], native, platform));
    } else if c > i {
        assert(eligible(updates[c], native, platform));
    }
}

fn contains_target(targets: &Vec<BuildTarget>, t: BuildTarget) -> (r: bool)
    ensures
        r == targets@.contains(t),
{
    let mut i: usize = 0;
    while i < targets.len()
        invariant
            i <= targets@.len(),
            forall|q: int| 0 <= q < i ==> targets@[q] != t,
        decreases targets@.len() - i,
    {
        if targets[i] == t {
            return true;
        }
        i = i + 1;
    }
    false
}

fn is_eligible(u: &OtaUpdate, native: Option<&BundleVersion>, platform: BuildTarget) -> (r: bool)
    ensures
        r == eligible(
            *u,
            match native {
                Some(n) => Some(*n),
                None => None,
            },
            platform,
        ),
{
    if !contains_target(&u.target_platforms, platform) {
        return false;
    }
    match native {
        Some(n) => n.is_compatible_with(&u.min_native_version),
        None => true,
    }
}

/// The position of the newest eligible update (the last of equals, as `max_by` picks).
fn latest_index(updates: &Vec<OtaUpdate>, native: Option<&BundleVersion>, platform: BuildTarget) -> (r:
    Option<usize>)
    ensures
        ({
            let nat_opt = match native {
                Some(n) => Some(*n),
                None => None,
            };
            match r {
                Some(i) => latest_of(updates@, nat_opt, platform) == Some(i as int),
                None => latest_of(updates@, nat_opt, platform) is None,
            }
        }),
{
    let ghost nat_opt = match native {
        Some(n) => Some(*n),
        None => None,
    };
    let mut best: Option<usize> = None;
    let mut i: usize = 0;
    while i < updates.len()
        invariant
            i <= updates@.len(),
            nat_opt == match native {
                Some(n) => Some(*n),
                None => None::<BundleVersion>,
            },
            match best {
                None => forall|j: int| 0 <= j < i ==> !eligible(#[trigger] updates@[j], nat_opt, platform),
                Some(b) => {
                    &&& b < i
                    &&& eligible(updates@[b as int], nat_opt, platform)
                    &&& forall|j: int|
                        0 <= j < i && eligible(#[trigger] updates@[j], nat_opt, platform)
                            ==> !version_lt(updates@[b as int].version, updates@[j].version)
                    &&& forall|j: int|
                        b < j < i && eligible(#[trigger] updates@[j], nat_opt, platform) ==> version_lt(
                            updates@[j].version,
                            updates@[b as int].version,
                        )
                },
            },
        decreases updates@.len() - i,
    {
        if is_eligible(&updates[i], native, platform) {
            match best {
                None => {
                    best = Some(i);
                },
                Some(b) => {
                    if !version_less(&updates[i].version, &updates[b].version) {
                        best = Some(i);
                    }
                },
            }
        }
        i = i + 1;
    }
    match best {
        Some(b) => {
            proof {
                lemma_latest_unique(updates@, nat_opt, platform, b as int);
            }
            Some(b)
        },
        None => {
            assert(!exists|k: int| is_latest(updates@, nat_opt, platform, k));
            None
        },
    }
}

impl OtaManifest {
    pub fn new(app_id: &str) -> (m: Self)
        ensures
            m.app_id@ == app_id@,
            m.updates@ == Seq::<OtaUpdate>::empty(),
    {
        OtaManifest { app_id: String::from_str(app_id), updates: Vec::new() }
    }

    /// The newest update that targets `platform` and works with `current_native`.
    pub fn latest_update(&self, current_native: &BundleVersion, platform: BuildTarget) -> (r: Option<
        &OtaUpdate,
    >)
        ensures
            match latest_of(self.updates@, Some(*current_native), platform) {
                Some(i) => r == Some(&self.updates@[i]),
                None => r is None,
            },
    {
        match latest_index(&self.updates, Some(current_native), platform) {
            Some(i) => Some(&self.updates[i]),
            None => None,
        }
    }

    /// Whether a compatible update newer than `current_bundle` is available.
    pub fn has_update_for(
        &self,
        current_bundle: &BundleVersion,
        current_native: &BundleVersion,
        platform: BuildTarget,
    ) -> (r: bool)
        ensures
            r == match latest_of(self.updates@, Some(*current_native), platform) {
                Some(i) => version_lt(*current_bundle, self.updates@[i].version),
                None => false,
            },
    {
        match self.latest_update(current_native, platform) {
            Some(u) => version_less(current_bundle, &u.version),
            None => false,
        }
    }
}

/// Decision about whether to apply an OTA update.
#[derive(Debug, Clone, PartialEq, Eq, Structural)]
pub enum OtaDecision {
    /// No update available.
    NoUpdate,
    /// Update available but not mandatory: user choice.
    Optional { version: BundleVersion },
    /// Mandatory update: must apply before continuing.
    Mandatory { version: BundleVersion },
    /// Update available but the native version is too old: needs an app store update.
    NativeUpdateRequired { min_native: BundleVersion },
}

/// The OTA decision: nothing newer for the platform means no update; a newest
/// update whose native requirement is not met calls for a native update;
/// otherwise the newest compatible update is offered, as mandatory or optional.
pub open spec fn ota_decision(
    updates: Seq<OtaUpdate>,
    current_bundle: BundleVersion,
    current_native: BundleVersion,
    platform: BuildTarget,
) -> OtaDecision {
    match latest_of(updates, None, platform) {
        None => OtaDecision::NoUpdate,
        Some(n) => {
            let newest = updates[n];
            if !version_lt(current_bundle, newest.version) {
                OtaDecision::NoUpdate
            } else if !compatible(current_native, newest.min_native_version) {
                OtaDecision::NativeUpdateRequired { min_native: newest.min_native_version }
            } else {
                match latest_of(updates, Some(current_native), platform) {
                    Some(k) => if version_lt(current_bundle, updates[k].version) {
                        if updates[k].is_mandatory {
                            OtaDecision::Mandatory { version: updates[k].version }
                        } else {
                            OtaDecision::Optional { version: updates[k].version }
                        }
                    } else {
                        OtaDecision::NoUpdate
                    },
                    None => OtaDecision::NoUpdate,
                }
            }
        },
    }
}

/// Evaluate whether an OTA update should be applied.
pub fn evaluate_ota(
    manifest: &OtaManifest,
    current_bundle: &BundleVersion,
    current_native: &BundleVersion,
    platform: BuildTarget,
) -> (r: OtaDecision)
    ensures
        r == ota_decision(manifest.updates@, *current_bundle, *current_native, platform),
{
    let newest = match latest_index(&manifest.updates, None, platform) {
        Some(n) => n,
        None => return OtaDecision::NoUpdate,
    };
    let newest = &manifest.updates[newest];
    if !version_less(current_bundle, &newest.version) {
        return OtaDecision::NoUpdate;
    }
    if !current_native.is_compatible_with(&newest.min_native_version) {
        return OtaDecision::NativeUpdateRequired { min_native: newest.min_native_version };
    }
    match manifest.latest_update(current_native, platform) {
        Some(update) => {
            if version_less(current_bundle, &update.version) {
                if update.is_mandatory {
                    OtaDecision::Mandatory { version: update.version }
                } else {
                    OtaDecision::Optional { version: update.version }
                }
            } else {
                OtaDecision::NoUpdate
            }
        },
        None => OtaDecision::NoUpdate,
    }
}

// ── Artifact cache keys ────────────────────────────────────────────────

/// A content-addressed cache key.
#[derive(Debug, Clone, PartialEq, Eq, Hash)]
pub struct CacheKey {
    /// Hash of the inputs (source files, deps, config).
    pub content_hash: String,
    pub target: BuildTarget,
    pub mode: BuildMode,
}

impl CacheKey {
    pub fn new(content_hash: &str, target: BuildTarget, mode: BuildMode) -> (k: Self)
        ensures
            k.content_hash@ == content_hash@,
            k.target == target,
            k.mode == mode,
    {
        CacheKey { content_hash: String::from_str(content_hash), target, mode }
    }

    /// The key as text: "target-mode-hash".
    pub fn to_string(&self) -> (s: String)
        ensures
            s@ == target_name(self.target) + "-"@ + mode_name(self.mode) + "-"@ + self.content_hash@,
    {
        let mut s = String::from_str(target_name_str(self.target));
        s.append("-");
        s.append(mode_name_str(self.mode));
        s.append("-");
        s.append(self.content_hash.as_str());
        s
    }
}

// ── Laws ───────────────────────────────────────────────────────────────

/// Version order is a strict order: irreflexive and transitive.
pub proof fn lemma_version_order(a: BundleVersion, b: BundleVersion, c: BundleVersion)
    ensures
        !version_lt(a, a),
        version_lt(a, b) && version_lt(b, c) ==> version_lt(a, c),
        version_lt(a, b) ==> !version_lt(b, a),
        version_lt(a, b) || version_lt(b, a) || version_same_rank(a, b),
{
}

/// A version is compatible with itself, and compatibility needs the same major version.
pub proof fn lemma_compatible_reflexive(v: BundleVersion, w: BundleVersion)
    ensures
        compatible(v, v),
        compatible(v, w) ==> v.major == w.major && !version_lt(
            BundleVersion { build: None, ..v },
            BundleVersion { build: None, ..w },
        ),
{
}

/// An OTA decision never offers a version that is not newer than the current
/// bundle, and a native update is asked for only when the newest update needs one.
pub proof fn lemma_ota_offers_newer(
    updates: Seq<OtaUpdate>,
    current_bundle: BundleVersion,
    current_native: BundleVersion,
    platform: BuildTarget,
)
    ensures
        match ota_decision(updates, current_bundle, current_native, platform) {
            OtaDecision::Optional { version } => version_lt(current_bundle, version),
            OtaDecision::Mandatory { version } => version_lt(current_bundle, version),
            OtaDecision::NativeUpdateRequired { min_native } => !compatible(
                current_native,
                min_native,
            ),
            OtaDecision::NoUpdate => true,
        },
{
}

/// The newest eligible update among the first `m`: a position that no
/// eligible update outranks and that every later eligible one ranks below.
proof fn lemma_latest_in_prefix(
    updates: Seq<OtaUpdate>,
    native: Option<BundleVersion>,
    platform: BuildTarget,
    m: int,
) -> (i: int)
    requires
        0 <= m <= updates.len(),
        exists|j: int| 0 <= j < m && #[trigger] eligible(updates[j], native, platform),
    ensures
        0 <= i < m,
        eligible(updates[i], native, platform),
        forall|j: int| 0 <= j < m && eligible(#[trigger] updates[j], native, platform) ==> !version_lt(
            updates[i].version,
            updates[j].version,
        ),
        forall|j: int| i < j < m && eligible(#[trigger] updates[j], native, platform) ==> version_lt(
            updates[j].version,
            updates[i].version,
        ),
    decreases m,
{
    if exists|j: int| 0 <= j < m - 1 && #[trigger] eligible(updates[j], native, platform) {
        let k = lemma_latest_in_prefix(updates, native, platform, m - 1);
        if eligible(updates[m - 1], native, platform) && !version_lt(updates[m - 1].version, updates[k].version) {
            m - 1
        } else {
            k
        }
    } else {
        let j = choose|j: int| 0 <= j < m && #[trigger] eligible(updates[j], native, platform);
        assert(j == m - 1);
        m - 1
    }
}

/// There is a newest eligible update exactly when some update is eligible.
pub proof fn lemma_latest_exists(updates: Seq<OtaUpdate>, native: Option<BundleVersion>, platform: BuildTarget)
    ensures
        latest_of(updates, native, platform) is Some <==> exists|j: int|
            0 <= j < updates.len() && #[trigger] eligible(updates[j], native, platform),
        latest_of(updates, native, platform) matches Some(i) ==> is_latest(updates, native, platform, i),
{
    if exists|j: int| 0 <= j < updates.len() && #[trigger] eligible(updates[j], native, platform) {
        let i = lemma_latest_in_prefix(updates, native, platform, updates.len() as int);
        assert(is_latest(updates, native, platform, i));
    }
    if latest_of(updates, native, platform) is Some {
        let i = choose|i: int| is_latest(updates, native, platform, i);
        assert(eligible(updates[i], native, platform));
    }
}

/// The OTA decision in terms of the newest update for the platform alone: with
/// none, or none newer than the current bundle, there is no update; when its
/// native requirement is not met a native update is needed; otherwise that
/// update is offered, as mandatory when it is marked so and as optional
/// otherwise.
pub proof fn lemma_ota_decision_newest(
    updates: Seq<OtaUpdate>,
    current_bundle: BundleVersion,
    current_native: BundleVersion,
    platform: BuildTarget,
)
    ensures
        ota_decision(updates, current_bundle, current_native, platform) == match latest_of(
            updates,
            None,
            platform,
        ) {
            None => OtaDecision::NoUpdate,
            Some(n) => {
                let u = updates[n];
                if !version_lt(current_bundle, u.version) {
                    OtaDecision::NoUpdate
                } else if !compatible(current_native, u.min_native_version) {
                    OtaDecision::NativeUpdateRequired { min_native: u.min_native_version }
                } else if u.is_mandatory {
                    OtaDecision::Mandatory { version: u.version }
                } else {
                    OtaDecision::Optional { version: u.version }
                }
            },
        },
        latest_of(updates, None, platform) is None <==> !exists|j: int|
            0 <= j < updates.len() && (#[trigger] updates[j]).target_platforms@.contains(platform),
{
    lemma_latest_exists(updates, None, platform);
    assert((exists|j: int| 0 <= j < updates.len() && #[trigger] eligible(updates[j], None, platform)) <==> (exists|j: int|
        0 <= j < updates.len() && (#[trigger] updates[j]).target_platforms@.contains(platform))) by {
        if exists|j: int| 0 <= j < updates.len() && (#[trigger] updates[j]).target_platforms@.contains(platform) {
            let j = choose|j: int| 0 <= j < updates.len() && (#[trigger] updates[j]).target_platforms@.contains(platform);
            assert(eligible(updates[j], None, platform));
        }
    }
    let nat_some = Some(current_native);
    match latest_of(updates, None, platform) {
        Some(n) => {
            let u = updates[n];
            if version_lt(current_bundle, u.version) && compatible(current_native, u.min_native_version) {
                assert(eligible(u, nat_some, platform));
                lemma_latest_exists(updates, nat_some, platform);
                let k = latest_of(updates, nat_some, platform)->0;
                assert(is_latest(updates, nat_some, platform, k));
                assert(eligible(updates[k], None, platform));
                if k < n {
                    assert(!version_lt(u.version, updates[k].version));
                    assert(version_lt(u.version, updates[k].version));
                } else if k > n {
                    assert(version_lt(updates[k].version, u.version));
                    assert(!version_lt(updates[k].version, u.version));
                }
                assert(k == n);
            }
        },
        None => {},
    }
}

/// With no update for the platform there is nothing to apply.
pub proof fn lemma_ota_empty_manifest(
    current_bundle: BundleVersion,
    current_native: BundleVersion,
    platform: BuildTarget,
)
    ensures
        ota_decision(Seq::<OtaUpdate>::empty(), current_bundle, current_native, platform)
            == OtaDecision::NoUpdate,
{
    assert(!exists|i: int| is_latest(Seq::<OtaUpdate>::empty(), None, platform, i));
}

} // verus!
