//! Plugin marketplace: plugin descriptors, compatibility checks, and the
//! registry of installed plugins with dependency tracking and discovery.

use vstd::prelude::*;
use std::collections::HashMap;
use crate::cloud::BuildTarget;
use crate::modules::ModuleError;
use crate::text::{has_substring, join_strings, joined, lowercase, str_contains, str_eq, to_lower};
use crate::text::{append_decimal, decimal};

mod version;

pub use version::{PluginVersion, plugin_version_lt, plugin_version_order};

verus! {

#[derive(Debug)]
pub enum PluginError {
    NotFound(String),
    AlreadyInstalled(String, String),
    IncompatibleEngine { plugin: String, required: String, current: String },
    PlatformNotSupported { plugin: String, platform: BuildTarget },
    MissingDependency { plugin: String, dependency: String },
    ModuleError(ModuleError),
    Internal(String),
}

pub type PluginResult<T> = Result<T, PluginError>;

/// The text form "major.minor.patch".
pub open spec fn plugin_version_text(v: PluginVersion) -> Seq<char> {
    decimal(v.major as nat) + "."@ + decimal(v.minor as nat) + "."@ + decimal(v.patch as nat)
}

impl PluginVersion {
    pub fn new(major: u32, minor: u32, patch: u32) -> (v: Self)
        ensures
            v == (PluginVersion { major, minor, patch }),
    {
        PluginVersion { major, minor, patch }
    }

    /// Whether this version is at least `min`.
    pub fn satisfies_min(&self, min: &PluginVersion) -> (r: bool)
        ensures
            r == !plugin_version_lt(*self, *min),
    {
        !(self.major < min.major || (self.major == min.major && self.minor < min.minor) || (
        self.major == min.major && self.minor == min.minor && self.patch < min.patch))
    }

    /// The version as text, e.g. "3.2.1".
    pub fn to_string(&self) -> (s: String)
        ensures
            s@ == plugin_version_text(*self),
    {
        let mut s = String::new();
        append_decimal(&mut s, self.major as u64);
        s.append(".");
        append_decimal(&mut s, self.minor as u64);
        s.append(".");
        append_decimal(&mut s, self.patch as u64);
        proof {
            reveal_strlit(".");
            assert(s@ =~= plugin_version_text(*self));
        }
        s
    }
}

impl DeepView for PluginVersion {
    type V = PluginVersion;

    open spec fn deep_view(&self) -> PluginVersion {
        *self
    }
}

/// What a plugin provides to the framework.
#[derive(Debug, Clone, PartialEq, Eq, Hash)]
pub enum PluginCapability {
    /// A native module callable from JS.
    NativeModule,
    /// UI components.
    Components,
    /// A storage backend.
    Storage,
    /// Platform-specific functionality (camera, haptics, ...).
    PlatformFeature(String),
    /// Theme/styling resources.
    Theme,
    /// Navigation integration.
    Navigation,
}

/// Two capabilities are the same: same kind, and for platform features the same name.
pub open spec fn same_capability(a: PluginCapability, b: PluginCapability) -> bool {
    match (a, b) {
        (PluginCapability::NativeModule, PluginCapability::NativeModule) => true,
        (PluginCapability::Components, PluginCapability::Components) => true,
        (PluginCapability::Storage, PluginCapability::Storage) => true,
        (PluginCapability::PlatformFeature(x), PluginCapability::PlatformFeature(y)) => x@ == y@,
        (PluginCapability::Theme, PluginCapability::Theme) => true,
        (PluginCapability::Navigation, PluginCapability::Navigation) => true,
        _ => false,
    }
}

fn capability_eq(a: &PluginCapability, b: &PluginCapability) -> (r: bool)
    ensures
        r == same_capability(*a, *b),
{
    match (a, b) {
        (PluginCapability::NativeModule, PluginCapability::NativeModule) => true,
        (PluginCapability::Components, PluginCapability::Components) => true,
        (PluginCapability::Storage, PluginCapability::Storage) => true,
        (PluginCapability::PlatformFeature(x), PluginCapability::PlatformFeature(y)) => str_eq(
            x.as_str(),
            y.as_str(),
        ),
        (PluginCapability::Theme, PluginCapability::Theme) => true,
        (PluginCapability::Navigation, PluginCapability::Navigation) => true,
        _ => false,
    }
}

/// A dependency on another plugin.
#[derive(Debug, Clone)]
pub struct PluginDependency {
    pub name: String,
    pub min_version: PluginVersion,
}

/// Category for marketplace browsing.
#[derive(Debug, Clone, PartialEq, Eq, Hash, Structural)]
pub enum PluginCategory {
    UI,
    Data,
    Media,
    Platform,
    Analytics,
    Auth,
    Networking,
    DevTools,
    Other,
}

/// Full descriptor for a plugin package.
#[derive(Debug, Clone)]
pub struct PluginDescriptor {
    pub name: String,
    pub version: PluginVersion,
    pub description: String,
    pub author: String,
    pub license: String,
    pub homepage: Option<String>,
    pub repository: Option<String>,
    pub category: PluginCategory,
    pub capabilities: Vec<PluginCapability>,
    pub supported_platforms: Vec<BuildTarget>,
    pub min_engine_version: PluginVersion,
    pub dependencies: Vec<PluginDependency>,
    pub js_package: Option<String>,
    pub keywords: Vec<String>,
}

/// `HashMap::get` on a map keyed by `String`: std documents that it returns the
/// value stored under an equal key, and nothing when there is none.
#[verifier::external_body]
fn get_installed_version<'a>(installed: &'a HashMap<String, PluginVersion>, name: &String) -> (r:
    Option<&'a PluginVersion>)
    ensures
        match r {
            Some(v) => installed.deep_view().contains_key(name@) && installed.deep_view()[name@]
                == *v,
            None => !installed.deep_view().contains_key(name@),
        },
{
    installed.get(name)
}

/// Dependency `d` is met by `installed`: present, at its minimum version or later.
pub open spec fn dependency_met(d: PluginDependency, installed: Map<Seq<char>, PluginVersion>) -> bool {
    installed.contains_key(d.name@) && !plugin_version_lt(installed[d.name@], d.min_version)
}

/// The names of the dependencies in `deps` that `installed` does not meet, in order.
pub open spec fn missing_names(deps: Seq<PluginDependency>, installed: Map<Seq<char>, PluginVersion>) -> Seq<
    Seq<char>,
>
    decreases deps.len(),
{
    if deps.len() == 0 {
        Seq::empty()
    } else {
        let rest = missing_names(deps.drop_last(), installed);
        if dependency_met(deps.last(), installed) {
            rest
        } else {
            rest.push(deps.last().name@)
        }
    }
}

/// The first rule a descriptor breaks, as its message: a name, a description,
/// a supported platform and a capability are required.
pub open spec fn descriptor_error(d: PluginDescriptor) -> Option<Seq<char>> {
    if d.name@.len() == 0 {
        Some("Plugin name is required"@)
    } else if d.description@.len() == 0 {
        Some("Plugin description is required"@)
    } else if d.supported_platforms@.len() == 0 {
        Some("At least one supported platform is required"@)
    } else if d.capabilities@.len() == 0 {
        Some("At least one capability is required"@)
    } else {
        None
    }
}

impl PluginDescriptor {
    /// Check if this plugin supports the given platform.
    pub fn supports_platform(&self, target: &BuildTarget) -> (r: bool)
        ensures
            r == self.supported_platforms@.contains(*target),
    {
        let mut i: usize = 0;
        while i < self.supported_platforms.len()
            invariant
                i <= self.supported_platforms@.len(),
                forall|q: int| 0 <= q < i ==> self.supported_platforms@[q] != *target,
            decreases self.supported_platforms@.len() - i,
        {
            if self.supported_platforms[i] == *target {
                return true;
            }
            i = i + 1;
        }
        false
    }

    /// Check if this plugin is compatible with the given engine version.
    pub fn is_compatible_with_engine(&self, engine_version: &PluginVersion) -> (r: bool)
        ensures
            r == !plugin_version_lt(*engine_version, self.min_engine_version),
    {
        engine_version.satisfies_min(&self.min_engine_version)
    }

    /// The names of the dependencies that `installed` does not satisfy, in order.
    pub fn check_dependencies(&self, installed: &HashMap<String, PluginVersion>) -> (r: Vec<String>)
        ensures
            r@.map_values(|s: String| s@) == missing_names(self.dependencies@, installed.deep_view()),
    {
        let ghost inst = installed.deep_view();
        let mut missing: Vec<String> = Vec::new();
        let mut i: usize = 0;
        assert(self.dependencies@.take(0) =~= Seq::<PluginDependency>::empty());
        assert(missing@.map_values(|s: String| s@) =~= Seq::<Seq<char>>::empty());
        while i < self.dependencies.len()
            invariant
                i <= self.dependencies@.len(),
                inst == installed.deep_view(),
                missing@.map_values(|s: String| s@) == missing_names(
                    self.dependencies@.take(i as int),
                    inst,
                ),
            decreases self.dependencies@.len() - i,
        {
            let dep = &self.dependencies[i];
            assert(self.dependencies@.take(i + 1).drop_last() =~= self.dependencies@.take(i as int));
            let met = match get_installed_version(installed, &dep.name) {
                Some(v) => v.satisfies_min(&dep.min_version),
                None => false,
            };
            if !met {
                let ghost before = missing@;
                missing.push(dep.name.clone());
                assert(missing@.map_values(|s: String| s@) =~= before.map_values(|s: String| s@).push(
                    dep.name@,
                ));
            }
            i = i + 1;
        }
        assert(self.dependencies@.take(self.dependencies@.len() as int) =~= self.dependencies@);
        missing
    }
}

/// Validates a plugin descriptor for completeness.
pub fn validate_descriptor(desc: &PluginDescriptor) -> (r: PluginResult<()>)
    ensures
        match descriptor_error(*desc) {
            None => r is Ok,
            Some(msg) => r matches Err(PluginError::Internal(m)) && m@ == msg,
        },
{
    if desc.name.as_str().unicode_len() == 0 {
        return Err(PluginError::Internal(String::from_str("Plugin name is required")));
    }
    if desc.description.as_str().unicode_len() == 0 {
        return Err(PluginError::Internal(String::from_str("Plugin description is required")));
    }
    if desc.supported_platforms.len() == 0 {
        return Err(
            PluginError::Internal(String::from_str("At least one supported platform is required")),
        );
    }
    if desc.capabilities.len() == 0 {
        return Err(PluginError::Internal(String::from_str("At least one capability is required")));
    }
    Ok(())
}


// ── Plugin registry ────────────────────────────────────────────────────

/// An installed plugin: its descriptor, the name of the native module it
/// registered (if any), and whether it is enabled.
#[derive(Debug, Clone)]
pub struct InstalledPlugin {
    pub descriptor: PluginDescriptor,
    pub module: Option<String>,
    pub enabled: bool,
}

/// Some installed plugin is named `name`.
pub open spec fn has_plugin(entries: Seq<InstalledPlugin>, name: Seq<char>) -> bool {
    exists|i: int| 0 <= i < entries.len() && (#[trigger] entries[i]).descriptor.name@ == name
}

/// The installed versions, by plugin name.
pub open spec fn installed_versions(entries: Seq<InstalledPlugin>) -> Map<Seq<char>, PluginVersion> {
    Map::new(
        |n: Seq<char>| has_plugin(entries, n),
        |n: Seq<char>|
            entries[choose|i: int|
                0 <= i < entries.len() && (#[trigger] entries[i]).descriptor.name@ == n].descriptor.version,
    )
}

pub open spec fn plugin_names_distinct(entries: Seq<InstalledPlugin>) -> bool {
    forall|i: int, j: int|
        0 <= i < entries.len() && 0 <= j < entries.len() && i != j ==> (#[trigger] entries[i]).descriptor.name@
            != (#[trigger] entries[j]).descriptor.name@
}

pub open spec fn seqs_distinct(s: Seq<Seq<char>>) -> bool {
    forall|i: int, j: int| 0 <= i < s.len() && 0 <= j < s.len() && i != j ==> s[i] != s[j]
}

/// Every dependency of an installed plugin is itself installed.
pub open spec fn dependencies_installed(entries: Seq<InstalledPlugin>) -> bool {
    forall|i: int, k: int|
        0 <= i < entries.len() && 0 <= k < entries[i].descriptor.dependencies@.len() ==> has_plugin(
            entries,
            (#[trigger] entries[i].descriptor.dependencies@[k]).name@,
        )
}

/// With nothing missing, every dependency is met.
proof fn lemma_nothing_missing(deps: Seq<PluginDependency>, installed: Map<Seq<char>, PluginVersion>)
    requires
        missing_names(deps, installed).len() == 0,
    ensures
        forall|k: int| 0 <= k < deps.len() ==> dependency_met(#[trigger] deps[k], installed),
    decreases deps.len(),
{
    if deps.len() > 0 {
        lemma_nothing_missing(deps.drop_last(), installed);
        assert forall|k: int| 0 <= k < deps.len() implies dependency_met(#[trigger] deps[k], installed) by {
            if k < deps.len() - 1 {
                assert(deps[k] == deps.drop_last()[k]);
            }
        }
    }
}

/// The descriptors of the entries that satisfy `pred`, in order.
pub open spec fn descriptors_where(
    entries: Seq<InstalledPlugin>,
    pred: spec_fn(InstalledPlugin) -> bool,
) -> Seq<PluginDescriptor>
    decreases entries.len(),
{
    if entries.len() == 0 {
        Seq::empty()
    } else {
        let rest = descriptors_where(entries.drop_last(), pred);
        if pred(entries.last()) {
            rest.push(entries.last().descriptor)
        } else {
            rest
        }
    }
}

/// The plugin in `entries` that first depends on `name`.
pub open spec fn is_first_dependent(entries: Seq<InstalledPlugin>, name: Seq<char>, i: int) -> bool {
    &&& 0 <= i < entries.len()
    &&& depends_on(entries[i], name)
    &&& forall|j: int| 0 <= j < i ==> !depends_on(#[trigger] entries[j], name)
}

pub open spec fn depends_on(e: InstalledPlugin, name: Seq<char>) -> bool {
    exists|k: int|
        0 <= k < e.descriptor.dependencies@.len() && (#[trigger] e.descriptor.dependencies@[k]).name@
            == name
}

/// The plugin matches a search: the lowercased query occurs in the lowercased
/// name, description or one of the keywords.
pub open spec fn matches_query(e: InstalledPlugin, q: Seq<char>) -> bool {
    ||| has_substring(lowercase(e.descriptor.name@), q)
    ||| has_substring(lowercase(e.descriptor.description@), q)
    ||| exists|k: int|
        0 <= k < e.descriptor.keywords@.len() && has_substring(
            lowercase((#[trigger] e.descriptor.keywords@[k])@),
            q,
        )
}

/// Registry managing all installed plugins.
pub struct PluginRegistry {
    /// Installed plugins, at most one per name, in installation order.
    plugins: Vec<InstalledPlugin>,
    /// Names of the registered native modules.
    modules: Vec<String>,
    engine_version: PluginVersion,
}

proof fn lemma_select_step(
    entries: Seq<InstalledPlugin>,
    i: int,
    pred: spec_fn(InstalledPlugin) -> bool,
)
    requires
        0 <= i < entries.len(),
    ensures
        descriptors_where(entries.take(i + 1), pred) == if pred(entries[i]) {
            descriptors_where(entries.take(i), pred).push(entries[i].descriptor)
        } else {
            descriptors_where(entries.take(i), pred)
        },
{
    assert(entries.take(i + 1).drop_last() =~= entries.take(i));
}

impl PluginRegistry {
    pub closed spec fn entries(&self) -> Seq<InstalledPlugin> {
        self.plugins@
    }

    pub closed spec fn module_names(&self) -> Seq<Seq<char>> {
        self.modules@.map_values(|s: String| s@)
    }

    pub closed spec fn engine(&self) -> PluginVersion {
        self.engine_version
    }

    /// Plugin names are unique, and so are module names; every dependency of an
    /// installed plugin is installed.
    pub closed spec fn wf(&self) -> bool {
        &&& plugin_names_distinct(self.plugins@)
        &&& dependencies_installed(self.plugins@)
        &&& seqs_distinct(self.modules@.map_values(|s: String| s@))
    }

    pub fn new(engine_version: PluginVersion) -> (r: Self)
        ensures
            r.wf(),
            r.entries() == Seq::<InstalledPlugin>::empty(),
            r.module_names() == Seq::<Seq<char>>::empty(),
            r.engine() == engine_version,
    {
        let r = PluginRegistry { plugins: Vec::new(), modules: Vec::new(), engine_version };
        assert(r.modules@.map_values(|s: String| s@) =~= Seq::<Seq<char>>::empty());
        r
    }

    fn find(&self, name: &str) -> (r: Option<usize>)
        ensures
            match r {
                Some(k) => k < self.plugins@.len() && self.plugins@[k as int].descriptor.name@ == name@,
                None => !has_plugin(self.plugins@, name@),
            },
    {
        let mut k: usize = 0;
        while k < self.plugins.len()
            invariant
                k <= self.plugins@.len(),
                forall|q: int| 0 <= q < k ==> (#[trigger] self.plugins@[q]).descriptor.name@ != name@,
            decreases self.plugins@.len() - k,
        {
            if str_eq(self.plugins[k].descriptor.name.as_str(), name) {
                return Some(k);
            }
            k = k + 1;
        }
        None
    }

    fn find_module(&self, name: &str) -> (r: Option<usize>)
        ensures
            match r {
                Some(k) => k < self.modules@.len() && self.modules@[k as int]@ == name@,
                None => !self.module_names().contains(name@),
            },
    {
        let mut k: usize = 0;
        while k < self.modules.len()
            invariant
                k <= self.modules@.len(),
                forall|q: int| 0 <= q < k ==> (#[trigger] self.modules@[q])@ != name@,
            decreases self.modules@.len() - k,
        {
            if str_eq(self.modules[k].as_str(), name) {
                return Some(k);
            }
            k = k + 1;
        }
        proof {
            if self.module_names().contains(name@) {
                let q = choose|q: int| 0 <= q < self.module_names().len() && self.module_names()[q] == name@;
                assert(self.modules@[q]@ == name@);
            }
        }
        None
    }

    /// The dependencies of `desc` that the installed plugins do not meet.
    fn missing_dependencies(&self, desc: &PluginDescriptor) -> (r: Vec<String>)
        requires
            self.wf(),
        ensures
            r@.map_values(|s: String| s@) == missing_names(desc.dependencies@, installed_versions(self.plugins@)),
    {
        let ghost inst = installed_versions(self.plugins@);
        let mut missing: Vec<String> = Vec::new();
        let mut i: usize = 0;
        assert(desc.dependencies@.take(0) =~= Seq::<PluginDependency>::empty());
        assert(missing@.map_values(|s: String| s@) =~= Seq::<Seq<char>>::empty());
        while i < desc.dependencies.len()
            invariant
                self.wf(),
                i <= desc.dependencies@.len(),
                inst == installed_versions(self.plugins@),
                missing@.map_values(|s: String| s@) == missing_names(desc.dependencies@.take(i as int), inst),
            decreases desc.dependencies@.len() - i,
        {
            let dep = &desc.dependencies[i];
            assert(desc.dependencies@.take(i + 1).drop_last() =~= desc.dependencies@.take(i as int));
            let met = match self.find(dep.name.as_str()) {
                Some(k) => {
                    proof {
                        let c = choose|c: int|
                            0 <= c < self.plugins@.len() && (#[trigger] self.plugins@[c]).descriptor.name@ == dep.name@;
                        assert(self.plugins@[k as int].descriptor.name@ == dep.name@);
                        assert(c == k);
                        assert(inst.contains_key(dep.name@));
                        assert(inst[dep.name@] == self.plugins@[k as int].descriptor.version);
                    }
                    self.plugins[k].descriptor.version.satisfies_min(&dep.min_version)
                },
                None => false,
            };
            if !met {
                let ghost before = missing@;
                missing.push(dep.name.clone());
                assert(missing@.map_values(|s: String| s@) =~= before.map_values(|s: String| s@).push(dep.name@));
            }
            i = i + 1;
        }
        assert(desc.dependencies@.take(desc.dependencies@.len() as int) =~= desc.dependencies@);
        missing
    }

    /// What installing `d` (with native module `module`) does: the first check
    /// that fails is reported and nothing changes; otherwise the plugin is added,
    /// enabled, and its module recorded.
    pub open spec fn install_post(
        pre: PluginRegistry,
        post: PluginRegistry,
        d: PluginDescriptor,
        module: Option<String>,
        r: PluginResult<()>,
    ) -> bool {
        let unchanged = post.entries() == pre.entries() && post.module_names() == pre.module_names();
        let missing = missing_names(d.dependencies@, installed_versions(pre.entries()));
        &&& post.engine() == pre.engine()
        &&& if descriptor_error(d) is Some {
            &&& unchanged
            &&& r matches Err(PluginError::Internal(m)) && m@ == descriptor_error(d)->0
        } else if plugin_version_lt(pre.engine(), d.min_engine_version) {
            &&& unchanged
            &&& r matches Err(PluginError::IncompatibleEngine { plugin, required, current })
                && plugin@ == d.name@ && required@ == plugin_version_text(d.min_engine_version)
                && current@ == plugin_version_text(pre.engine())
        } else if has_plugin(pre.entries(), d.name@) {
            &&& unchanged
            &&& r matches Err(PluginError::AlreadyInstalled(n, v)) && n@ == d.name@ && v@
                == plugin_version_text(d.version)
        } else if missing.len() > 0 {
            &&& unchanged
            &&& r matches Err(PluginError::MissingDependency { plugin, dependency })
                && plugin@ == d.name@ && dependency@ == joined(missing, ", "@)
        } else if module matches Some(m) && pre.module_names().contains(m@) {
            &&& unchanged
            &&& r matches Err(PluginError::ModuleError(ModuleError::Internal(msg))) && msg@
                == "Module '"@ + module->0@ + "' already registered"@
        } else {
            &&& r is Ok
            &&& post.entries() == pre.entries().push(InstalledPlugin { descriptor: d, module, enabled: true })
            &&& post.module_names() == match module {
                Some(m) => pre.module_names().push(m@),
                None => pre.module_names(),
            }
        }
    }

    /// Install a plugin. Validates it, checks engine compatibility, duplicates and
    /// dependencies, then records its native module.
    pub fn install(&mut self, descriptor: PluginDescriptor, module: Option<String>) -> (r: PluginResult<()>)
        requires
            old(self).wf(),
        ensures
            final(self).wf(),
            Self::install_post(*old(self), *final(self), descriptor, module, r),
    {
        match validate_descriptor(&descriptor) {
            Err(e) => return Err(e),
            Ok(()) => {},
        }
        if !descriptor.is_compatible_with_engine(&self.engine_version) {
            return Err(PluginError::IncompatibleEngine {
                plugin: descriptor.name.clone(),
                required: descriptor.min_engine_version.to_string(),
                current: self.engine_version.to_string(),
            });
        }
        match self.find(descriptor.name.as_str()) {
            Some(_) => {
                return Err(PluginError::AlreadyInstalled(descriptor.name.clone(), descriptor.version.to_string()));
            },
            None => {},
        }
        let missing = self.missing_dependencies(&descriptor);
        if missing.len() > 0 {
            return Err(PluginError::MissingDependency {
                plugin: descriptor.name.clone(),
                dependency: join_strings(&missing, ", "),
            });
        }
        match &module {
            Some(m) => {
                match self.find_module(m.as_str()) {
                    Some(k) => {
                        proof {
                            assert(self.module_names()[k as int] == m@);
                        }
                        let mut msg = String::from_str("Module '");
                        msg.append(m.as_str());
                        msg.append("' already registered");
                        return Err(PluginError::ModuleError(ModuleError::Internal(msg)));
                    },
                    None => {
                        let ghost before = self.modules@;
                        self.modules.push(m.clone());
                        proof {
                            assert(self.modules@.map_values(|s: String| s@) =~= before.map_values(|s: String| s@).push(m@));
                        }
                    },
                }
            },
            None => {},
        }
        proof {
            assert(missing@.map_values(|s: String| s@).len() == 0);
            lemma_nothing_missing(descriptor.dependencies@, installed_versions(self.plugins@));
        }
        let ghost before = self.plugins@;
        let ghost deps = descriptor.dependencies@;
        self.plugins.push(InstalledPlugin { descriptor, module, enabled: true });
        proof {
            assert forall|i: int, k: int|
                0 <= i < self.plugins@.len() && 0 <= k < self.plugins@[i].descriptor.dependencies@.len() implies has_plugin(
                self.plugins@,
                (#[trigger] self.plugins@[i].descriptor.dependencies@[k]).name@,
            ) by {
                let n = self.plugins@[i].descriptor.dependencies@[k].name@;
                if i < before.len() {
                    assert(self.plugins@[i] == before[i]);
                } else {
                    assert(deps[k] == self.plugins@[i].descriptor.dependencies@[k]);
                    assert(dependency_met(deps[k], installed_versions(before)));
                }
                assert(has_plugin(before, n));
                let w = choose|w: int| 0 <= w < before.len() && (#[trigger] before[w]).descriptor.name@ == n;
                assert(self.plugins@[w] == before[w]);
            }
            assert forall|i: int, j: int|
                0 <= i < self.plugins@.len() && 0 <= j < self.plugins@.len() && i != j implies (
                #[trigger] self.plugins@[i]).descriptor.name@ != (#[trigger] self.plugins@[j]).descriptor.name@ by {
                if i < before.len() && j < before.len() {
                    assert(self.plugins@[i] == before[i]);
                    assert(self.plugins@[j] == before[j]);
                } else if i < before.len() {
                    assert(self.plugins@[i] == before[i]);
                } else {
                    assert(self.plugins@[j] == before[j]);
                }
            }
        }
        Ok(())
    }

    /// What uninstalling `name` does: a plugin that depends on it (the first, in
    /// installation order) blocks the removal; an unknown name is reported;
    /// otherwise the plugin is removed, and with it the native module of the
    /// plugin's name when the plugin registered a module.
    pub open spec fn uninstall_post(pre: PluginRegistry, post: PluginRegistry, name: Seq<char>, r: PluginResult<()>) -> bool {
        &&& post.engine() == pre.engine()
        &&& if exists|i: int| is_first_dependent(pre.entries(), name, i) {
            let i = choose|i: int| is_first_dependent(pre.entries(), name, i);
            &&& post.entries() == pre.entries()
            &&& post.module_names() == pre.module_names()
            &&& r matches Err(PluginError::Internal(m)) && m@ == "Cannot uninstall '"@ + name + "': required by '"@
                + pre.entries()[i].descriptor.name@ + "'"@
        } else if !has_plugin(pre.entries(), name) {
            &&& post.entries() == pre.entries()
            &&& post.module_names() == pre.module_names()
            &&& r matches Err(PluginError::NotFound(n)) && n@ == name
        } else {
            let k = choose|k: int|
                0 <= k < pre.entries().len() && (#[trigger] pre.entries()[k]).descriptor.name@ == name;
            &&& r is Ok
            &&& post.entries() == pre.entries().remove(k)
            &&& post.module_names() == if pre.entries()[k].module is Some && pre.module_names().contains(name) {
                pre.module_names().remove(choose|j: int| 0 <= j < pre.module_names().len() && pre.module_names()[j] == name)
            } else {
                pre.module_names()
            }
        }
    }

    /// Uninstall a plugin by name. A plugin that another plugin depends on is kept.
    #[verifier::loop_isolation(false)]
    pub fn uninstall(&mut self, name: &str) -> (r: PluginResult<()>)
        requires
            old(self).wf(),
        ensures
            final(self).wf(),
            Self::uninstall_post(*old(self), *final(self), name@, r),
    {
        // A plugin that depends on this one blocks its removal.
        let mut i: usize = 0;
        while i < self.plugins.len()
            invariant
                i <= self.plugins@.len(),
                forall|j: int| 0 <= j < i ==> !depends_on(#[trigger] self.plugins@[j], name@),
            decreases self.plugins@.len() - i,
        {
            let deps = &self.plugins[i].descriptor.dependencies;
            let mut k: usize = 0;
            while k < deps.len()
                invariant
                    k <= deps@.len(),
                    deps@ == self.plugins@[i as int].descriptor.dependencies@,
                    forall|q: int| 0 <= q < k ==> (#[trigger] deps@[q]).name@ != name@,
                decreases deps@.len() - k,
            {
                if str_eq(deps[k].name.as_str(), name) {
                    proof {
                        assert(depends_on(self.plugins@[i as int], name@));
                        assert(is_first_dependent(self.plugins@, name@, i as int));
                        assert forall|i2: int| is_first_dependent(self.plugins@, name@, i2) implies i2 == i by {
                            if i2 > i {
                                assert(depends_on(self.plugins@[i as int], name@));
                            }
                        }
                    }
                    let mut msg = String::from_str("Cannot uninstall '");
                    msg.append(name);
                    msg.append("': required by '");
                    msg.append(self.plugins[i].descriptor.name.as_str());
                    msg.append("'");
                    return Err(PluginError::Internal(msg));
                }
                k = k + 1;
            }
            proof {
                assert forall|q: int|
                    0 <= q < self.plugins@[i as int].descriptor.dependencies@.len() implies (
                    #[trigger] self.plugins@[i as int].descriptor.dependencies@[q]).name@ != name@ by {
                    assert(deps@[q] == self.plugins@[i as int].descriptor.dependencies@[q]);
                }
            }
            i = i + 1;
        }
        assert(!exists|i2: int| is_first_dependent(self.plugins@, name@, i2));
        let k = match self.find(name) {
            Some(k) => k,
            None => return Err(PluginError::NotFound(String::from_str(name))),
        };
        proof {
            let c = choose|c: int| 0 <= c < self.plugins@.len() && (#[trigger] self.plugins@[c]).descriptor.name@ == name@;
            assert(self.plugins@[k as int].descriptor.name@ == name@);
            assert(c == k);
        }
        let ghost before = self.plugins@;
        let plugin = self.plugins.remove(k);
        proof {
            assert forall|a: int, b: int|
                0 <= a < self.plugins@.len() && 0 <= b < self.plugins@.len() && a != b implies (
                #[trigger] self.plugins@[a]).descriptor.name@ != (#[trigger] self.plugins@[b]).descriptor.name@ by {
                let a0 = if a < k { a } else { a + 1 };
                let b0 = if b < k { b } else { b + 1 };
                assert(self.plugins@[a] == before[a0]);
                assert(self.plugins@[b] == before[b0]);
            }
            assert forall|a: int, q: int|
                0 <= a < self.plugins@.len() && 0 <= q < self.plugins@[a].descriptor.dependencies@.len() implies has_plugin(
                self.plugins@,
                (#[trigger] self.plugins@[a].descriptor.dependencies@[q]).name@,
            ) by {
                let a0 = if a < k { a } else { a + 1 };
                assert(self.plugins@[a] == before[a0]);
                let n = before[a0].descriptor.dependencies@[q].name@;
                assert(!depends_on(before[a0], name@));
                assert(n != name@);
                assert(has_plugin(before, n));
                let w = choose|w: int| 0 <= w < before.len() && (#[trigger] before[w]).descriptor.name@ == n;
                let w1 = if w < k { w } else { w - 1 };
                assert(w != k);
                assert(self.plugins@[w1] == before[w]);
            }
        }
        if plugin.module.is_some() {
            match self.find_module(name) {
                Some(j) => {
                    let ghost mbefore = self.modules@;
                    let ghost nbefore = self.module_names();
                    self.modules.remove(j);
                    proof {
                        let c = choose|c: int| 0 <= c < nbefore.len() && nbefore[c] == name@;
                        assert(nbefore[j as int] == name@);
                        assert(c == j);
                        assert(self.module_names() =~= nbefore.remove(j as int));
                        assert forall|a: int, b: int|
                            0 <= a < self.module_names().len() && 0 <= b < self.module_names().len() && a != b
                                implies self.module_names()[a] != self.module_names()[b] by {
                            let a0 = if a < j { a } else { a + 1 };
                            let b0 = if b < j { b } else { b + 1 };
                            assert(self.module_names()[a] == nbefore[a0]);
                            assert(self.module_names()[b] == nbefore[b0]);
                        }
                    }
                },
                None => {},
            }
        }
        Ok(())
    }

    /// Enable or disable a plugin.
    pub fn set_enabled(&mut self, name: &str, enabled: bool) -> (r: PluginResult<()>)
        requires
            old(self).wf(),
        ensures
            final(self).wf(),
            final(self).engine() == old(self).engine(),
            final(self).module_names() == old(self).module_names(),
            !has_plugin(old(self).entries(), name@) ==> {
                &&& final(self).entries() == old(self).entries()
                &&& r matches Err(PluginError::NotFound(n)) && n@ == name@
            },
            has_plugin(old(self).entries(), name@) ==> {
                let k = choose|k: int|
                    0 <= k < old(self).entries().len() && (#[trigger] old(self).entries()[k]).descriptor.name@
                        == name@;
                &&& r is Ok
                &&& final(self).entries() == old(self).entries().update(
                    k,
                    InstalledPlugin { enabled, ..old(self).entries()[k] },
                )
            },
    {
        let k = match self.find(name) {
            Some(k) => k,
            None => return Err(PluginError::NotFound(String::from_str(name))),
        };
        proof {
            let c = choose|c: int| 0 <= c < self.plugins@.len() && (#[trigger] self.plugins@[c]).descriptor.name@ == name@;
            assert(self.plugins@[k as int].descriptor.name@ == name@);
            assert(c == k);
        }
        let ghost before = self.plugins@;
        self.plugins[k].enabled = enabled;
        proof {
            assert(self.plugins@ =~= before.update(k as int, InstalledPlugin { enabled, ..before[k as int] }));
            assert forall|i: int, q: int|
                0 <= i < self.plugins@.len() && 0 <= q < self.plugins@[i].descriptor.dependencies@.len() implies has_plugin(
                self.plugins@,
                (#[trigger] self.plugins@[i].descriptor.dependencies@[q]).name@,
            ) by {
                let n = self.plugins@[i].descriptor.dependencies@[q].name@;
                assert(self.plugins@[i].descriptor == before[i].descriptor);
                assert(has_plugin(before, n));
                let w = choose|w: int| 0 <= w < before.len() && (#[trigger] before[w]).descriptor.name@ == n;
                assert(self.plugins@[w].descriptor == before[w].descriptor);
            }
            assert forall|a: int, b: int|
                0 <= a < self.plugins@.len() && 0 <= b < self.plugins@.len() && a != b implies (
                #[trigger] self.plugins@[a]).descriptor.name@ != (#[trigger] self.plugins@[b]).descriptor.name@ by {
                assert(self.plugins@[a].descriptor == before[a].descriptor);
                assert(self.plugins@[b].descriptor == before[b].descriptor);
            }
        }
        Ok(())
    }

    /// Get a plugin descriptor by name.
    pub fn get_descriptor(&self, name: &str) -> (r: Option<&PluginDescriptor>)
        requires
            self.wf(),
        ensures
            match r {
                Some(d) => exists|k: int|
                    0 <= k < self.entries().len() && (#[trigger] self.entries()[k]).descriptor == *d
                        && d.name@ == name@,
                None => !has_plugin(self.entries(), name@),
            },
    {
        match self.find(name) {
            Some(k) => {
                proof {
                    assert(self.entries()[k as int].descriptor == self.plugins@[k as int].descriptor);
                }
                Some(&self.plugins[k].descriptor)
            },
            None => None,
        }
    }

    /// Check if a plugin is installed.
    pub fn is_installed(&self, name: &str) -> (r: bool)
        ensures
            r == has_plugin(self.entries(), name@),
    {
        self.find(name).is_some()
    }

    /// Whether a native module of this name is registered.
    pub fn has_module(&self, name: &str) -> (r: bool)
        ensures
            r == self.module_names().contains(name@),
    {
        match self.find_module(name) {
            Some(k) => {
                proof {
                    assert(self.module_names()[k as int] == name@);
                }
                true
            },
            None => false,
        }
    }

    /// All installed plugin names, in installation order.
    pub fn installed_names(&self) -> (r: Vec<String>)
        ensures
            r@.map_values(|s: String| s@) == self.entries().map_values(|e: InstalledPlugin| e.descriptor.name@),
    {
        let mut r: Vec<String> = Vec::new();
        let mut i: usize = 0;
        while i < self.plugins.len()
            invariant
                i <= self.plugins@.len(),
                r@.map_values(|s: String| s@) == self.plugins@.take(i as int).map_values(
                    |e: InstalledPlugin| e.descriptor.name@,
                ),
            decreases self.plugins@.len() - i,
        {
            let ghost before = r@;
            r.push(self.plugins[i].descriptor.name.clone());
            proof {
                assert(self.plugins@.take(i + 1) =~= self.plugins@.take(i as int).push(self.plugins@[i as int]));
                assert(r@.map_values(|s: String| s@) =~= before.map_values(|s: String| s@).push(
                    self.plugins@[i as int].descriptor.name@,
                ));
                assert(r@.map_values(|s: String| s@) =~= self.plugins@.take(i + 1).map_values(
                    |e: InstalledPlugin| e.descriptor.name@,
                ));
            }
            i = i + 1;
        }
        assert(self.plugins@.take(self.plugins@.len() as int) =~= self.plugins@);
        r
    }

    /// Descriptors of the enabled plugins.
    pub fn enabled_plugins(&self) -> (r: Vec<&PluginDescriptor>)
        ensures
            r@.map_values(|d: &PluginDescriptor| *d) == descriptors_where(
                self.entries(),
                |e: InstalledPlugin| e.enabled,
            ),
    {
        let ghost pred = |e: InstalledPlugin| e.enabled;
        let mut r: Vec<&PluginDescriptor> = Vec::new();
        let mut i: usize = 0;
        assert(self.plugins@.take(0) =~= Seq::<InstalledPlugin>::empty());
        assert(r@.map_values(|d: &PluginDescriptor| *d) =~= Seq::<PluginDescriptor>::empty());
        while i < self.plugins.len()
            invariant
                i <= self.plugins@.len(),
                pred == (|e: InstalledPlugin| e.enabled),
                r@.map_values(|d: &PluginDescriptor| *d) == descriptors_where(self.plugins@.take(i as int), pred),
            decreases self.plugins@.len() - i,
        {
            proof { lemma_select_step(self.plugins@, i as int, pred); }
            if self.plugins[i].enabled {
                let ghost before = r@;
                r.push(&self.plugins[i].descriptor);
                assert(r@.map_values(|d: &PluginDescriptor| *d) =~= before.map_values(|d: &PluginDescriptor| *d).push(
                    self.plugins@[i as int].descriptor,
                ));
            }
            i = i + 1;
        }
        assert(self.plugins@.take(self.plugins@.len() as int) =~= self.plugins@);
        r
    }

    /// Number of installed plugins.
    pub fn count(&self) -> (r: usize)
        ensures
            r == self.entries().len(),
    {
        self.plugins.len()
    }

    // ── Discovery & filtering ──

    /// Search plugins by keyword (case-insensitive match on name, description, keywords).
    pub fn search(&self, query: &str) -> (r: Vec<&PluginDescriptor>)
        ensures
            r@.map_values(|d: &PluginDescriptor| *d) == descriptors_where(
                self.entries(),
                |e: InstalledPlugin| matches_query(e, lowercase(query@)),
            ),
            forall|i: int, k: int|
                0 <= i < self.entries().len() && 0 <= k < self.entries()[i].descriptor.keywords@.len()
                    && has_substring(
                    lowercase((#[trigger] self.entries()[i].descriptor.keywords@[k])@),
                    lowercase(query@),
                ) ==> r@.map_values(|d: &PluginDescriptor| *d).contains(self.entries()[i].descriptor),
    {
        proof {
            lemma_search_ignores_case(self.entries(), query@);
        }
        let q = to_lower(query);
        let ghost pred = |e: InstalledPlugin| matches_query(e, lowercase(query@));
        let mut r: Vec<&PluginDescriptor> = Vec::new();
        let mut i: usize = 0;
        assert(self.plugins@.take(0) =~= Seq::<InstalledPlugin>::empty());
        assert(r@.map_values(|d: &PluginDescriptor| *d) =~= Seq::<PluginDescriptor>::empty());
        while i < self.plugins.len()
            invariant
                i <= self.plugins@.len(),
                q@ == lowercase(query@),
                pred == (|e: InstalledPlugin| matches_query(e, lowercase(query@))),
                r@.map_values(|d: &PluginDescriptor| *d) == descriptors_where(self.plugins@.take(i as int), pred),
            decreases self.plugins@.len() - i,
        {
            proof { lemma_select_step(self.plugins@, i as int, pred); }
            let d = &self.plugins[i].descriptor;
            let mut hit = str_contains(to_lower(d.name.as_str()).as_str(), q.as_str())
                || str_contains(to_lower(d.description.as_str()).as_str(), q.as_str());
            let mut k: usize = 0;
            while k < d.keywords.len()
                invariant
                    k <= d.keywords@.len(),
                    q@ == lowercase(query@),
                    hit == (has_substring(lowercase(d.name@), q@) || has_substring(lowercase(d.description@), q@)
                        || exists|j: int| 0 <= j < k && has_substring(lowercase((#[trigger] d.keywords@[j])@), q@)),
                decreases d.keywords@.len() - k,
            {
                if str_contains(to_lower(d.keywords[k].as_str()).as_str(), q.as_str()) {
                    hit = true;
                }
                k = k + 1;
            }
            assert(hit == matches_query(self.plugins@[i as int], q@));
            if hit {
                let ghost before = r@;
                r.push(d);
                assert(r@.map_values(|d: &PluginDescriptor| *d) =~= before.map_values(|d: &PluginDescriptor| *d).push(
                    self.plugins@[i as int].descriptor,
                ));
            }
            i = i + 1;
        }
        assert(self.plugins@.take(self.plugins@.len() as int) =~= self.plugins@);
        r
    }

    /// Filter plugins by category.
    pub fn by_category(&self, category: &PluginCategory) -> (r: Vec<&PluginDescriptor>)
        ensures
            r@.map_values(|d: &PluginDescriptor| *d) == descriptors_where(
                self.entries(),
                |e: InstalledPlugin| e.descriptor.category == *category,
            ),
    {
        let ghost pred = |e: InstalledPlugin| e.descriptor.category == *category;
        let mut r: Vec<&PluginDescriptor> = Vec::new();
        let mut i: usize = 0;
        assert(self.plugins@.take(0) =~= Seq::<InstalledPlugin>::empty());
        assert(r@.map_values(|d: &PluginDescriptor| *d) =~= Seq::<PluginDescriptor>::empty());
        while i < self.plugins.len()
            invariant
                i <= self.plugins@.len(),
                pred == (|e: InstalledPlugin| e.descriptor.category == *category),
                r@.map_values(|d: &PluginDescriptor| *d) == descriptors_where(self.plugins@.take(i as int), pred),
            decreases self.plugins@.len() - i,
        {
            proof { lemma_select_step(self.plugins@, i as int, pred); }
            if self.plugins[i].descriptor.category == *category {
                let ghost before = r@;
                r.push(&self.plugins[i].descriptor);
                assert(r@.map_values(|d: &PluginDescriptor| *d) =~= before.map_values(|d: &PluginDescriptor| *d).push(
                    self.plugins@[i as int].descriptor,
                ));
            }
            i = i + 1;
        }
        assert(self.plugins@.take(self.plugins@.len() as int) =~= self.plugins@);
        r
    }

    /// Filter plugins by platform support.
    pub fn by_platform(&self, target: &BuildTarget) -> (r: Vec<&PluginDescriptor>)
        ensures
            r@.map_values(|d: &PluginDescriptor| *d) == descriptors_where(
                self.entries(),
                |e: InstalledPlugin| e.descriptor.supported_platforms@.contains(*target),
            ),
    {
        let ghost pred = |e: InstalledPlugin| e.descriptor.supported_platforms@.contains(*target);
        let mut r: Vec<&PluginDescriptor> = Vec::new();
        let mut i: usize = 0;
        assert(self.plugins@.take(0) =~= Seq::<InstalledPlugin>::empty());
        assert(r@.map_values(|d: &PluginDescriptor| *d) =~= Seq::<PluginDescriptor>::empty());
        while i < self.plugins.len()
            invariant
                i <= self.plugins@.len(),
                pred == (|e: InstalledPlugin| e.descriptor.supported_platforms@.contains(*target)),
                r@.map_values(|d: &PluginDescriptor| *d) == descriptors_where(self.plugins@.take(i as int), pred),
            decreases self.plugins@.len() - i,
        {
            proof { lemma_select_step(self.plugins@, i as int, pred); }
            if self.plugins[i].descriptor.supports_platform(target) {
                let ghost before = r@;
                r.push(&self.plugins[i].descriptor);
                assert(r@.map_values(|d: &PluginDescriptor| *d) =~= before.map_values(|d: &PluginDescriptor| *d).push(
                    self.plugins@[i as int].descriptor,
                ));
            }
            i = i + 1;
        }
        assert(self.plugins@.take(self.plugins@.len() as int) =~= self.plugins@);
        r
    }

    /// Filter plugins by capability.
    pub fn by_capability(&self, cap: &PluginCapability) -> (r: Vec<&PluginDescriptor>)
        ensures
            r@.map_values(|d: &PluginDescriptor| *d) == descriptors_where(
                self.entries(),
                |e: InstalledPlugin|
                    exists|k: int|
                        0 <= k < e.descriptor.capabilities@.len() && same_capability(
                            #[trigger] e.descriptor.capabilities@[k],
                            *cap,
                        ),
            ),
    {
        let ghost pred = |e: InstalledPlugin|
            exists|k: int|
                0 <= k < e.descriptor.capabilities@.len() && same_capability(
                    #[trigger] e.descriptor.capabilities@[k],
                    *cap,
                );
        let mut r: Vec<&PluginDescriptor> = Vec::new();
        let mut i: usize = 0;
        assert(self.plugins@.take(0) =~= Seq::<InstalledPlugin>::empty());
        assert(r@.map_values(|d: &PluginDescriptor| *d) =~= Seq::<PluginDescriptor>::empty());
        while i < self.plugins.len()
            invariant
                i <= self.plugins@.len(),
                pred == (|e: InstalledPlugin|
                    exists|k: int|
                        0 <= k < e.descriptor.capabilities@.len() && same_capability(
                            #[trigger] e.descriptor.capabilities@[k],
                            *cap,
                        )),
                r@.map_values(|d: &PluginDescriptor| *d) == descriptors_where(self.plugins@.take(i as int), pred),
            decreases self.plugins@.len() - i,
        {
            proof { lemma_select_step(self.plugins@, i as int, pred); }
            let caps = &self.plugins[i].descriptor.capabilities;
            let mut found = false;
            let mut k: usize = 0;
            while k < caps.len()
                invariant
                    k <= caps@.len(),
                    found == exists|j: int| 0 <= j < k && same_capability(#[trigger] caps@[j], *cap),
                decreases caps@.len() - k,
            {
                if capability_eq(&caps[k], cap) {
                    found = true;
                }
                k = k + 1;
            }
            if found {
                let ghost before = r@;
                r.push(&self.plugins[i].descriptor);
                assert(r@.map_values(|d: &PluginDescriptor| *d) =~= before.map_values(|d: &PluginDescriptor| *d).push(
                    self.plugins@[i as int].descriptor,
                ));
            }
            i = i + 1;
        }
        assert(self.plugins@.take(self.plugins@.len() as int) =~= self.plugins@);
        r
    }
}
} // verus!

verus! {

/// Uninstalling a plugin right after it was installed succeeds and gives back
/// the registry's plugins as they were; its native module goes too when the
/// module carries the plugin's name (or there is none).
pub proof fn lemma_uninstall_undoes_install(
    pre: PluginRegistry,
    mid: PluginRegistry,
    post: PluginRegistry,
    d: PluginDescriptor,
    module: Option<String>,
    installed: PluginResult<()>,
    removed: PluginResult<()>,
)
    requires
        pre.wf(),
        mid.wf(),
        PluginRegistry::install_post(pre, mid, d, module, installed),
        installed is Ok,
        PluginRegistry::uninstall_post(mid, post, d.name@, removed),
    ensures
        removed is Ok,
        post.entries() == pre.entries(),
        module is None || module->0@ == d.name@ ==> post.module_names() == pre.module_names(),
{
    let name = d.name@;
    let n = pre.entries().len();
    let missing = missing_names(d.dependencies@, installed_versions(pre.entries()));
    assert(!has_plugin(pre.entries(), name));
    assert(missing.len() == 0);
    lemma_nothing_missing(d.dependencies@, installed_versions(pre.entries()));
    assert(mid.entries()[n as int].descriptor == d);
    assert forall|i: int| 0 <= i < mid.entries().len() implies !depends_on(#[trigger] mid.entries()[i], name) by {
        if depends_on(mid.entries()[i], name) {
            let k = choose|k: int|
                0 <= k < mid.entries()[i].descriptor.dependencies@.len()
                    && (#[trigger] mid.entries()[i].descriptor.dependencies@[k]).name@ == name;
            if i < n {
                assert(mid.entries()[i] == pre.entries()[i]);
                assert(has_plugin(pre.entries(), pre.entries()[i].descriptor.dependencies@[k].name@));
            } else {
                assert(dependency_met(d.dependencies@[k], installed_versions(pre.entries())));
            }
        }
    }
    assert(has_plugin(mid.entries(), name));
    let k = choose|k: int| 0 <= k < mid.entries().len() && (#[trigger] mid.entries()[k]).descriptor.name@ == name;
    assert(k == n);
    assert(mid.entries().remove(k) =~= pre.entries());
    if module is None {
    } else if module->0@ == name {
        assert(mid.module_names()[pre.module_names().len() as int] == name);
        assert(mid.module_names().contains(name));
        let j = choose|j: int| 0 <= j < mid.module_names().len() && mid.module_names()[j] == name;
        assert(!pre.module_names().contains(name));
        assert(j == pre.module_names().len());
        assert(mid.module_names().remove(j) =~= pre.module_names());
    }
}

/// A plugin that installed successfully is installed, enabled, and the registry
/// holds it once.
pub proof fn lemma_installed_after_install(
    pre: PluginRegistry,
    post: PluginRegistry,
    d: PluginDescriptor,
    module: Option<String>,
    r: PluginResult<()>,
)
    requires
        pre.wf(),
        PluginRegistry::install_post(pre, post, d, module, r),
        r is Ok,
    ensures
        has_plugin(post.entries(), d.name@),
        post.entries().last().descriptor == d,
        post.entries().last().enabled,
        post.entries().len() == pre.entries().len() + 1,
{
    assert(post.entries()[pre.entries().len() as int].descriptor.name@ == d.name@);
}

/// What `descriptors_where` keeps: the descriptor of every entry that passes,
/// and only descriptors of entries that pass.
proof fn lemma_descriptors_where_members(entries: Seq<InstalledPlugin>, pred: spec_fn(InstalledPlugin) -> bool)
    ensures
        forall|i: int| 0 <= i < entries.len() && pred(#[trigger] entries[i]) ==> descriptors_where(entries, pred).contains(
            entries[i].descriptor,
        ),
        forall|j: int| #![trigger descriptors_where(entries, pred)[j]] 0 <= j < descriptors_where(entries, pred).len() ==> exists|i: int|
            0 <= i < entries.len() && pred(#[trigger] entries[i]) && descriptors_where(entries, pred)[j]
                == entries[i].descriptor,
    decreases entries.len(),
{
    if entries.len() > 0 {
        let init = entries.drop_last();
        lemma_descriptors_where_members(init, pred);
        let rest = descriptors_where(init, pred);
        let all = descriptors_where(entries, pred);
        let n = entries.len() - 1;
        assert forall|i: int| 0 <= i < entries.len() && pred(#[trigger] entries[i]) implies all.contains(
            entries[i].descriptor,
        ) by {
            if i < n {
                assert(init[i] == entries[i]);
                let j = choose|j: int| 0 <= j < rest.len() && rest[j] == init[i].descriptor;
                assert(all[j] == rest[j]);
            } else {
                assert(all[all.len() - 1] == entries[i].descriptor);
            }
        }
        assert forall|j: int| #![trigger all[j]] 0 <= j < all.len() implies exists|i: int|
            0 <= i < entries.len() && pred(#[trigger] entries[i]) && all[j] == entries[i].descriptor by {
            if j < rest.len() {
                assert(all[j] == rest[j]);
                let i = choose|i: int| 0 <= i < init.len() && pred(#[trigger] init[i]) && rest[j] == init[i].descriptor;
                assert(entries[i] == init[i]);
            } else {
                assert(all[j] == entries[n].descriptor);
            }
        }
    }
}

/// Search ignores case: it returns every installed plugin whose lowercased
/// name, description or one of whose lowercased keywords contains the
/// lowercased query, and no other.
pub proof fn lemma_search_ignores_case(entries: Seq<InstalledPlugin>, query: Seq<char>)
    ensures
        ({
            let found = descriptors_where(entries, |e: InstalledPlugin| matches_query(e, lowercase(query)));
            let q = lowercase(query);
            &&& forall|i: int, k: int|
                0 <= i < entries.len() && 0 <= k < entries[i].descriptor.keywords@.len() && has_substring(
                    lowercase((#[trigger] entries[i].descriptor.keywords@[k])@),
                    q,
                ) ==> found.contains(entries[i].descriptor)
            &&& forall|i: int|
                0 <= i < entries.len() && (has_substring(lowercase((#[trigger] entries[i]).descriptor.name@), q)
                    || has_substring(lowercase(entries[i].descriptor.description@), q)) ==> found.contains(
                    entries[i].descriptor,
                )
            &&& forall|j: int| #![trigger found[j]] 0 <= j < found.len() ==> exists|i: int|
                0 <= i < entries.len() && found[j] == (#[trigger] entries[i]).descriptor && (has_substring(
                    lowercase(entries[i].descriptor.name@),
                    q,
                ) || has_substring(lowercase(entries[i].descriptor.description@), q) || exists|k: int|
                    0 <= k < entries[i].descriptor.keywords@.len() && has_substring(
                        lowercase((#[trigger] entries[i].descriptor.keywords@[k])@),
                        q,
                    ))
        }),
{
    let pred = |e: InstalledPlugin| matches_query(e, lowercase(query));
    lemma_descriptors_where_members(entries, pred);
    let found = descriptors_where(entries, pred);
    let q = lowercase(query);
    assert forall|i: int, k: int|
        0 <= i < entries.len() && 0 <= k < entries[i].descriptor.keywords@.len() && has_substring(
            lowercase((#[trigger] entries[i].descriptor.keywords@[k])@),
            q,
        ) implies found.contains(entries[i].descriptor) by {
        assert(pred(entries[i]));
    }
    assert forall|j: int| #![trigger found[j]] 0 <= j < found.len() implies exists|i: int|
        0 <= i < entries.len() && found[j] == (#[trigger] entries[i]).descriptor && (has_substring(
            lowercase(entries[i].descriptor.name@),
            q,
        ) || has_substring(lowercase(entries[i].descriptor.description@), q) || exists|k: int|
            0 <= k < entries[i].descriptor.keywords@.len() && has_substring(
                lowercase((#[trigger] entries[i].descriptor.keywords@[k])@),
                q,
            )) by {
        let i = choose|i: int| 0 <= i < entries.len() && pred(#[trigger] entries[i]) && found[j] == entries[i].descriptor;
        assert(pred(entries[i]));
    }
}

} // verus!
