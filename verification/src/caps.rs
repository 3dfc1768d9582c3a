//! Capability types, the per-process enforcement mode and the dispatcher
//! through which every effectful host operation is checked.
//!
//! In `Compat` and `Audit` mode every check resolves to the ambient
//! authority; `SealedDeps` consults the capability handle for modules that
//! are not part of the application; `Sealed` consults it for every module.
use vstd::prelude::*;
use crate::text::{append_decimal, append_signed_decimal, decimal, signed_decimal, str_equal};

verus! {

// ---------------------------------------------------------------- mode

/// Per-process capability enforcement mode. The default is `Compat`.
#[derive(Debug, Clone, Copy, PartialEq, Eq, Structural)]
pub enum CapMode {
    /// Ambient authority; the dispatcher always allows.
    Compat,
    /// Ambient authority plus an audit log of every effectful call.
    Audit,
    /// Ambient for application modules; sealed for dependencies.
    SealedDeps,
    /// Sealed everywhere: every module must hold the capability.
    Sealed,
}

impl Default for CapMode {
    fn default() -> (m: Self)
        ensures
            m == CapMode::Compat,
    {
        CapMode::Compat
    }
}

impl CapMode {
    /// The name under which the mode is shown and parsed.
    pub open spec fn spec_name(self) -> Seq<char> {
        match self {
            CapMode::Compat => "compat"@,
            CapMode::Audit => "audit"@,
            CapMode::SealedDeps => "sealed-deps"@,
            CapMode::Sealed => "sealed"@,
        }
    }

    /// The mode that a CLI / env-var name selects, if any.
    pub open spec fn spec_parse(s: Seq<char>) -> Option<CapMode> {
        if s == "compat"@ {
            Some(CapMode::Compat)
        } else if s == "audit"@ {
            Some(CapMode::Audit)
        } else if s == "sealed-deps"@ {
            Some(CapMode::SealedDeps)
        } else if s == "sealed"@ {
            Some(CapMode::Sealed)
        } else {
            None
        }
    }

    pub fn as_str(self) -> (s: &'static str)
        ensures
            s@ == self.spec_name(),
    {
        match self {
            CapMode::Compat => "compat",
            CapMode::Audit => "audit",
            CapMode::SealedDeps => "sealed-deps",
            CapMode::Sealed => "sealed",
        }
    }

    /// Parse a CLI / env-var mode name: "compat", "audit", "sealed-deps" or
    /// "sealed". Unknown names map to `None`.
    pub fn from_str(s: &str) -> (r: Option<CapMode>)
        ensures
            r == CapMode::spec_parse(s@),
    {
        if str_equal(s, "compat") {
            Some(CapMode::Compat)
        } else if str_equal(s, "audit") {
            Some(CapMode::Audit)
        } else if str_equal(s, "sealed-deps") {
            Some(CapMode::SealedDeps)
        } else if str_equal(s, "sealed") {
            Some(CapMode::Sealed)
        } else {
            None
        }
    }
}

// ------------------------------------------------------------ provenance

/// Where a module was loaded from.
#[derive(Debug, Clone, Copy, PartialEq, Eq, Structural)]
pub enum ModuleProvenance {
    /// Application code (outside `node_modules/`).
    Application,
    /// Loaded from `<project>/node_modules/`.
    Dependency,
    /// A file outside the project root; treated as a dependency.
    External,
    /// A host-builtin facade; treated as application code.
    Builtin,
}

impl ModuleProvenance {
    pub open spec fn spec_is_application(self) -> bool {
        self == ModuleProvenance::Application || self == ModuleProvenance::Builtin
    }

    pub fn is_application(&self) -> (r: bool)
        ensures
            r == self.spec_is_application(),
    {
        match self {
            ModuleProvenance::Application | ModuleProvenance::Builtin => true,
            _ => false,
        }
    }
}

/// Identity of the calling module for error and audit-log purposes.
#[derive(Debug, Clone)]
pub struct ModuleId {
    pub url: String,
    pub provenance: ModuleProvenance,
}

impl ModuleId {
    pub fn application(url: &str) -> (m: Self)
        ensures
            m.url@ == url@,
            m.provenance == ModuleProvenance::Application,
    {
        ModuleId { url: String::from_str(url), provenance: ModuleProvenance::Application }
    }

    pub fn dependency(url: &str) -> (m: Self)
        ensures
            m.url@ == url@,
            m.provenance == ModuleProvenance::Dependency,
    {
        ModuleId { url: String::from_str(url), provenance: ModuleProvenance::Dependency }
    }

    pub fn builtin(name: &str) -> (m: Self)
        ensures
            m.url@ == name@,
            m.provenance == ModuleProvenance::Builtin,
    {
        ModuleId { url: String::from_str(name), provenance: ModuleProvenance::Builtin }
    }
}

// ------------------------------------------------------------ error type

/// A refused capability check.
#[derive(Debug, Clone)]
pub struct CapabilityError {
    pub capability: &'static str,
    pub operation: String,
    pub calling_module: String,
    pub mode: CapMode,
    pub hint: Option<String>,
}

impl CapabilityError {
    /// The human-readable message of the error.
    pub open spec fn spec_message(self) -> Seq<char> {
        let base = self.capability@ + "."@ + self.operation@ + ": no "@ + self.capability@
            + " capability granted to module '"@ + self.calling_module@ + "' (mode: "@
            + self.mode.spec_name() + ")"@;
        match self.hint {
            Some(h) => base + " \u{2014} hint: "@ + h@,
            None => base,
        }
    }

    /// This error refuses `capability.operation` to `module` under `mode`,
    /// with the given hint.
    pub open spec fn refuses(
        self,
        capability: Seq<char>,
        operation: Seq<char>,
        module: Seq<char>,
        mode: CapMode,
        hint: Seq<char>,
    ) -> bool {
        &&& self.capability@ == capability
        &&& self.operation@ == operation
        &&& self.calling_module@ == module
        &&& self.mode == mode
        &&& self.hint matches Some(h) && h@ == hint
    }

    /// Renders the error as the message shown to the user.
    pub fn to_string(&self) -> (s: String)
        ensures
            s@ == self.spec_message(),
    {
        let mut s = String::from_str(self.capability);
        s.append(".");
        s.append(self.operation.as_str());
        s.append(": no ");
        s.append(self.capability);
        s.append(" capability granted to module '");
        s.append(self.calling_module.as_str());
        s.append("' (mode: ");
        s.append(self.mode.as_str());
        s.append(")");
        match &self.hint {
            Some(h) => {
                s.append(" \u{2014} hint: ");
                s.append(h.as_str());
            },
            None => {},
        }
        s
    }
}

// ----------------------------------------------------------- durations

/// A span of time: whole seconds plus the nanoseconds below one second.
#[derive(Debug, Clone, Copy)]
pub struct Duration {
    secs: u64,
    nanos: u32,
}

impl Duration {
    #[verifier::type_invariant]
    spec fn inv(self) -> bool {
        self.nanos < 1_000_000_000
    }

    /// The span in nanoseconds.
    pub closed spec fn spec_nanos(self) -> nat {
        (self.secs * 1_000_000_000 + self.nanos) as nat
    }

    /// A span of `secs` seconds and `nanos` nanoseconds; nanoseconds of a
    /// full second and more carry into the seconds.
    pub fn new(secs: u64, nanos: u32) -> (d: Self)
        requires
            secs + nanos / 1_000_000_000 <= u64::MAX,
        ensures
            d.spec_nanos() == secs * 1_000_000_000 + nanos,
    {
        let extra: u64 = (nanos / 1_000_000_000) as u64;
        let d = Duration { secs: secs + extra, nanos: nanos % 1_000_000_000 };
        assert((secs + extra) * 1_000_000_000 + nanos % 1_000_000_000 == secs * 1_000_000_000 + nanos)
            by (nonlinear_arith)
            requires
                extra == nanos / 1_000_000_000,
        ;
        d
    }

    /// A span of `ms` milliseconds.
    pub fn from_millis(ms: u64) -> (d: Self)
        ensures
            d.spec_nanos() == ms * 1_000_000,
    {
        let secs = ms / 1000;
        let rem = ms % 1000;
        let nanos: u32 = (rem * 1_000_000) as u32;
        assert(secs * 1_000_000_000 + rem * 1_000_000 == ms * 1_000_000) by (nonlinear_arith)
            requires
                secs == ms / 1000,
                rem == ms % 1000,
        ;
        Duration { secs, nanos }
    }

    /// The empty span.
    pub fn zero() -> (d: Self)
        ensures
            d.spec_nanos() == 0,
    {
        Duration { secs: 0, nanos: 0 }
    }

    /// The whole milliseconds in the span.
    pub fn as_millis(&self) -> (ms: u128)
        ensures
            ms == self.spec_nanos() / 1_000_000,
    {
        let s = self.secs as u128;
        let n = self.nanos as u128;
        assert((s * 1_000_000_000 + n) / 1_000_000 == s * 1000 + n / 1_000_000) by (nonlinear_arith)
            requires
                n >= 0,
                s >= 0,
        ;
        s * 1000 + n / 1_000_000
    }
}

// ----------------------------------------------------------- Fs capability

/// Whether `path` lies under `base`, compared by whole path components as
/// `std::path::Path::starts_with` does on the target platform.
pub uninterp spec fn path_starts_with(path: Seq<char>, base: Seq<char>) -> bool;

/// Whether two paths are equal component by component, as `==` on
/// `std::path::Path` decides on the target platform.
pub uninterp spec fn path_equal(a: Seq<char>, b: Seq<char>) -> bool;

/// Calls `std::path::Path::starts_with`. Claimed: the result depends on the
/// two paths alone; it is named `path_starts_with`.
#[verifier::external_body]
fn path_has_prefix(path: &str, base: &str) -> (r: bool)
    ensures
        r == path_starts_with(path@, base@),
{
    std::path::Path::new(path).starts_with(base)
}

/// Calls `==` on two `std::path::Path` values. Claimed: the result depends on
/// the two paths alone; it is named `path_equal`.
#[verifier::external_body]
fn path_same(a: &str, b: &str) -> (r: bool)
    ensures
        r == path_equal(a@, b@),
{
    std::path::Path::new(a) == std::path::Path::new(b)
}

/// Which paths one filesystem action may touch.
#[derive(Debug, Clone)]
pub enum PathPolicy {
    NoAccess,
    Any,
    Prefix(String),
    Prefixes(Vec<String>),
    Exact(Vec<String>),
    /// Under one of the first prefixes, and under every one of the
    /// directories the policy was narrowed to.
    PrefixesWithin(Vec<String>, Vec<String>),
    /// One of the listed paths, if under every one of the directories the
    /// policy was narrowed to.
    ExactWithin(Vec<String>, Vec<String>),
}

/// The abstract content of a path policy: its kind and the paths it names.
pub enum PolicyView {
    NoAccess,
    Any,
    Prefix(Seq<char>),
    Prefixes(Seq<Seq<char>>),
    Exact(Seq<Seq<char>>),
    PrefixesWithin(Seq<Seq<char>>, Seq<Seq<char>>),
    ExactWithin(Seq<Seq<char>>, Seq<Seq<char>>),
}

/// `path` lies under one of `prefixes`.
pub open spec fn under_some_prefix(path: Seq<char>, prefixes: Seq<Seq<char>>) -> bool {
    exists|i: int| 0 <= i < prefixes.len() && #[trigger] path_starts_with(path, prefixes[i])
}

/// `path` lies under every one of `dirs`.
pub open spec fn under_all_prefixes(path: Seq<char>, dirs: Seq<Seq<char>>) -> bool {
    forall|i: int| 0 <= i < dirs.len() ==> #[trigger] path_starts_with(path, dirs[i])
}

/// `path` equals one of `paths`.
pub open spec fn equals_some_path(path: Seq<char>, paths: Seq<Seq<char>>) -> bool {
    exists|i: int| 0 <= i < paths.len() && #[trigger] path_equal(paths[i], path)
}

impl PolicyView {
    /// The policy lets an action touch `path`.
    pub open spec fn allows(self, path: Seq<char>) -> bool {
        match self {
            PolicyView::NoAccess => false,
            PolicyView::Any => true,
            PolicyView::Prefix(p) => path_starts_with(path, p),
            PolicyView::Prefixes(ps) => under_some_prefix(path, ps),
            PolicyView::Exact(ps) => equals_some_path(path, ps),
            PolicyView::PrefixesWithin(ps, ds) => under_some_prefix(path, ps) && under_all_prefixes(path, ds),
            PolicyView::ExactWithin(ps, ds) => equals_some_path(path, ps) && under_all_prefixes(path, ds),
        }
    }
}

/// Whether `path` lies under one of the prefixes.
fn any_prefix_of(ps: &Vec<String>, path: &str) -> (r: bool)
    ensures
        r == under_some_prefix(path@, strings_view(ps@)),
{
    let mut i: usize = 0;
    while i < ps.len()
        invariant
            0 <= i <= ps@.len(),
            forall|j: int| 0 <= j < i ==> !path_starts_with(path@, #[trigger] strings_view(ps@)[j]),
        decreases ps@.len() - i,
    {
        if path_has_prefix(path, ps[i].as_str()) {
            assert(path_starts_with(path@, strings_view(ps@)[i as int]));
            return true;
        }
        i = i + 1;
    }
    false
}

/// Whether `path` lies under every one of the directories.
fn all_prefixes_of(ds: &Vec<String>, path: &str) -> (r: bool)
    ensures
        r == under_all_prefixes(path@, strings_view(ds@)),
{
    let mut i: usize = 0;
    while i < ds.len()
        invariant
            0 <= i <= ds@.len(),
            forall|j: int| 0 <= j < i ==> path_starts_with(path@, #[trigger] strings_view(ds@)[j]),
        decreases ds@.len() - i,
    {
        if !path_has_prefix(path, ds[i].as_str()) {
            assert(!path_starts_with(path@, strings_view(ds@)[i as int]));
            return false;
        }
        i = i + 1;
    }
    true
}

/// Whether `path` equals one of the listed paths.
fn any_equal_path(ps: &Vec<String>, path: &str) -> (r: bool)
    ensures
        r == equals_some_path(path@, strings_view(ps@)),
{
    let mut i: usize = 0;
    while i < ps.len()
        invariant
            0 <= i <= ps@.len(),
            forall|j: int| 0 <= j < i ==> !path_equal(#[trigger] strings_view(ps@)[j], path@),
        decreases ps@.len() - i,
    {
        if path_same(ps[i].as_str(), path) {
            assert(path_equal(strings_view(ps@)[i as int], path@));
            return true;
        }
        i = i + 1;
    }
    false
}

/// The character sequences held by a list of strings.
pub open spec fn strings_view(v: Seq<String>) -> Seq<Seq<char>> {
    v.map_values(|s: String| s@)
}

impl View for PathPolicy {
    type V = PolicyView;

    open spec fn view(&self) -> PolicyView {
        match self {
            PathPolicy::NoAccess => PolicyView::NoAccess,
            PathPolicy::Any => PolicyView::Any,
            PathPolicy::Prefix(p) => PolicyView::Prefix(p@),
            PathPolicy::Prefixes(ps) => PolicyView::Prefixes(strings_view(ps@)),
            PathPolicy::Exact(ps) => PolicyView::Exact(strings_view(ps@)),
            PathPolicy::PrefixesWithin(ps, ds) => PolicyView::PrefixesWithin(strings_view(ps@), strings_view(ds@)),
            PathPolicy::ExactWithin(ps, ds) => PolicyView::ExactWithin(strings_view(ps@), strings_view(ds@)),
        }
    }
}

/// A copy of a list of strings with the same contents.
fn copy_strings(v: &Vec<String>) -> (r: Vec<String>)
    ensures
        strings_view(r@) == strings_view(v@),
{
    let mut r: Vec<String> = Vec::new();
    let mut i: usize = 0;
    while i < v.len()
        invariant
            0 <= i <= v@.len(),
            r@.len() == i,
            forall|j: int| 0 <= j < i ==> #[trigger] r@[j]@ == v@[j]@,
        decreases v@.len() - i,
    {
        r.push(String::from_str(v[i].as_str()));
        i = i + 1;
    }
    assert(strings_view(r@) =~= strings_view(v@));
    r
}

impl PathPolicy {
    /// A copy of the policy with the same content.
    pub fn copy(&self) -> (r: Self)
        ensures
            r@ == self@,
    {
        match self {
            PathPolicy::NoAccess => PathPolicy::NoAccess,
            PathPolicy::Any => PathPolicy::Any,
            PathPolicy::Prefix(p) => PathPolicy::Prefix(String::from_str(p.as_str())),
            PathPolicy::Prefixes(ps) => PathPolicy::Prefixes(copy_strings(ps)),
            PathPolicy::Exact(ps) => PathPolicy::Exact(copy_strings(ps)),
            PathPolicy::PrefixesWithin(ps, ds) => PathPolicy::PrefixesWithin(copy_strings(ps), copy_strings(ds)),
            PathPolicy::ExactWithin(ps, ds) => PathPolicy::ExactWithin(copy_strings(ps), copy_strings(ds)),
        }
    }

    pub open spec fn spec_allows(self, path: Seq<char>) -> bool {
        self@.allows(path)
    }

    pub fn allows(&self, path: &str) -> (r: bool)
        ensures
            r == self.spec_allows(path@),
    {
        match self {
            PathPolicy::NoAccess => false,
            PathPolicy::Any => true,
            PathPolicy::Prefix(p) => path_has_prefix(path, p.as_str()),
            PathPolicy::Prefixes(ps) => any_prefix_of(ps, path),
            PathPolicy::Exact(ps) => any_equal_path(ps, path),
            PathPolicy::PrefixesWithin(ps, ds) => any_prefix_of(ps, path) && all_prefixes_of(ds, path),
            PathPolicy::ExactWithin(ps, ds) => any_equal_path(ps, path) && all_prefixes_of(ds, path),
        }
    }

    /// `self` is `orig` narrowed to paths under `prefix`: it allows exactly
    /// the paths that `orig` allows and that lie under `prefix`, and no
    /// access stays no access.
    pub open spec fn is_narrowing_of(self, orig: PathPolicy, prefix: Seq<char>) -> bool {
        &&& forall|q: Seq<char>| #[trigger] self.spec_allows(q) == (orig.spec_allows(q) && path_starts_with(q, prefix))
        &&& (orig is NoAccess ==> self is NoAccess)
    }

    pub open spec fn is_none(self) -> bool {
        self is NoAccess
    }

    pub open spec fn is_any(self) -> bool {
        self is Any
    }

    fn narrowed(&self, prefix: &String) -> (r: PathPolicy)
        ensures
            r.is_narrowing_of(*self, prefix@),
    {
        let pre = prefix.clone();
        let ghost pv = prefix@;
        let r = match self {
            PathPolicy::NoAccess => PathPolicy::NoAccess,
            PathPolicy::Any => PathPolicy::Prefix(pre),
            PathPolicy::Prefix(p) => {
                let ps = vec![p.clone()];
                let ds = vec![pre];
                proof {
                    assert(strings_view(ps@) =~= seq![p@]);
                    assert(strings_view(ds@) =~= seq![pv]);
                    assert forall|q: Seq<char>| under_some_prefix(q, strings_view(ps@)) == path_starts_with(q, p@) by {
                        if path_starts_with(q, p@) {
                            assert(path_starts_with(q, strings_view(ps@)[0]));
                        }
                    }
                    assert forall|q: Seq<char>| under_all_prefixes(q, strings_view(ds@)) == path_starts_with(q, pv) by {
                        if !path_starts_with(q, pv) {
                            assert(!path_starts_with(q, strings_view(ds@)[0]));
                        }
                    }
                }
                PathPolicy::PrefixesWithin(ps, ds)
            },
            PathPolicy::Prefixes(ps) => {
                let ds = vec![pre];
                proof {
                    assert(strings_view(ds@) =~= seq![pv]);
                    assert forall|q: Seq<char>| under_all_prefixes(q, strings_view(ds@)) == path_starts_with(q, pv) by {
                        if !path_starts_with(q, pv) {
                            assert(!path_starts_with(q, strings_view(ds@)[0]));
                        }
                    }
                }
                PathPolicy::PrefixesWithin(copy_strings(ps), ds)
            },
            PathPolicy::Exact(ps) => {
                let ds = vec![pre];
                proof {
                    assert(strings_view(ds@) =~= seq![pv]);
                    assert forall|q: Seq<char>| under_all_prefixes(q, strings_view(ds@)) == path_starts_with(q, pv) by {
                        if !path_starts_with(q, pv) {
                            assert(!path_starts_with(q, strings_view(ds@)[0]));
                        }
                    }
                }
                PathPolicy::ExactWithin(copy_strings(ps), ds)
            },
            PathPolicy::PrefixesWithin(ps, ds) => {
                let mut nd = copy_strings(ds);
                nd.push(pre);
                proof {
                    lemma_push_dir(strings_view(ds@), strings_view(nd@), pv);
                }
                PathPolicy::PrefixesWithin(copy_strings(ps), nd)
            },
            PathPolicy::ExactWithin(ps, ds) => {
                let mut nd = copy_strings(ds);
                nd.push(pre);
                proof {
                    lemma_push_dir(strings_view(ds@), strings_view(nd@), pv);
                }
                PathPolicy::ExactWithin(copy_strings(ps), nd)
            },
        };
        proof {
            assert forall|q: Seq<char>| #[trigger] r.spec_allows(q) == (self.spec_allows(q) && path_starts_with(q, pv)) by {
            }
        }
        r
    }
}

/// Adding a directory to those a path must lie under.
proof fn lemma_push_dir(ds: Seq<Seq<char>>, nd: Seq<Seq<char>>, d: Seq<char>)
    requires
        nd =~= ds.push(d),
    ensures
        forall|q: Seq<char>| under_all_prefixes(q, nd) == (under_all_prefixes(q, ds) && path_starts_with(q, d)),
{
    assert forall|q: Seq<char>| under_all_prefixes(q, nd) == (under_all_prefixes(q, ds) && path_starts_with(q, d)) by {
        if under_all_prefixes(q, ds) && path_starts_with(q, d) {
            assert forall|i: int| 0 <= i < nd.len() implies #[trigger] path_starts_with(q, nd[i]) by {
                if i < ds.len() {
                    assert(nd[i] == ds[i]);
                }
            }
        }
        if under_all_prefixes(q, nd) {
            assert(path_starts_with(q, nd[ds.len() as int]));
            assert forall|i: int| 0 <= i < ds.len() implies #[trigger] path_starts_with(q, ds[i]) by {
                assert(nd[i] == ds[i]);
                assert(path_starts_with(q, nd[i]));
            }
        }
    }
}

/// The filesystem capability: one path policy per action.
#[derive(Debug, Clone)]
pub struct Fs {
    pub read: PathPolicy,
    pub write: PathPolicy,
    pub list: PathPolicy,
    pub stat: PathPolicy,
    pub mkdir: PathPolicy,
    pub remove: PathPolicy,
}

impl Fs {
    /// Every action is allowed on every path.
    pub open spec fn spec_is_full(self) -> bool {
        &&& self.read is Any
        &&& self.write is Any
        &&& self.list is Any
        &&& self.stat is Any
        &&& self.mkdir is Any
        &&& self.remove is Any
    }

    /// No action is allowed on any path.
    pub open spec fn spec_is_none(self) -> bool {
        &&& self.read is NoAccess
        &&& self.write is NoAccess
        &&& self.list is NoAccess
        &&& self.stat is NoAccess
        &&& self.mkdir is NoAccess
        &&& self.remove is NoAccess
    }

    /// Full ambient filesystem access.
    pub fn full() -> (f: Self)
        ensures
            f.spec_is_full(),
    {
        Fs {
            read: PathPolicy::Any,
            write: PathPolicy::Any,
            list: PathPolicy::Any,
            stat: PathPolicy::Any,
            mkdir: PathPolicy::Any,
            remove: PathPolicy::Any,
        }
    }

    /// No filesystem capability at all.
    pub fn none() -> (f: Self)
        ensures
            f.spec_is_none(),
    {
        Fs {
            read: PathPolicy::NoAccess,
            write: PathPolicy::NoAccess,
            list: PathPolicy::NoAccess,
            stat: PathPolicy::NoAccess,
            mkdir: PathPolicy::NoAccess,
            remove: PathPolicy::NoAccess,
        }
    }

    /// Narrow every policy to paths under `prefix`.
    pub fn sub_dir(&self, prefix: &str) -> (f: Self)
        ensures
            f.read.is_narrowing_of(self.read, prefix@),
            f.write.is_narrowing_of(self.write, prefix@),
            f.list.is_narrowing_of(self.list, prefix@),
            f.stat.is_narrowing_of(self.stat, prefix@),
            f.mkdir.is_narrowing_of(self.mkdir, prefix@),
            f.remove.is_narrowing_of(self.remove, prefix@),
    {
        let prefix = String::from_str(prefix);
        Fs {
            read: self.read.narrowed(&prefix),
            write: self.write.narrowed(&prefix),
            list: self.list.narrowed(&prefix),
            stat: self.stat.narrowed(&prefix),
            mkdir: self.mkdir.narrowed(&prefix),
            remove: self.remove.narrowed(&prefix),
        }
    }

    /// Keep the reading actions; drop write, mkdir and remove.
    pub fn read_only(&self) -> (f: Self)
        ensures
            f.read@ == self.read@,
            f.list@ == self.list@,
            f.stat@ == self.stat@,
            f.write is NoAccess,
            f.mkdir is NoAccess,
            f.remove is NoAccess,
    {
        Fs {
            read: self.read.copy(),
            list: self.list.copy(),
            stat: self.stat.copy(),
            write: PathPolicy::NoAccess,
            mkdir: PathPolicy::NoAccess,
            remove: PathPolicy::NoAccess,
        }
    }
}

/// One filesystem operation and the path it touches.
#[derive(Debug, Clone)]
pub enum FsOp {
    Read(String),
    Write(String),
    List(String),
    Stat(String),
    Mkdir(String),
    Remove(String),
}

impl FsOp {
    /// The name of the action.
    pub open spec fn spec_action(self) -> Seq<char> {
        match self {
            FsOp::Read(_) => "read"@,
            FsOp::Write(_) => "write"@,
            FsOp::List(_) => "list"@,
            FsOp::Stat(_) => "stat"@,
            FsOp::Mkdir(_) => "mkdir"@,
            FsOp::Remove(_) => "remove"@,
        }
    }

    /// The path the operation touches.
    pub open spec fn spec_path(self) -> Seq<char> {
        match self {
            FsOp::Read(p) => p@,
            FsOp::Write(p) => p@,
            FsOp::List(p) => p@,
            FsOp::Stat(p) => p@,
            FsOp::Mkdir(p) => p@,
            FsOp::Remove(p) => p@,
        }
    }

    /// The policy of `cap` that governs this operation.
    pub open spec fn spec_policy(self, cap: Fs) -> PathPolicy {
        match self {
            FsOp::Read(_) => cap.read,
            FsOp::Write(_) => cap.write,
            FsOp::List(_) => cap.list,
            FsOp::Stat(_) => cap.stat,
            FsOp::Mkdir(_) => cap.mkdir,
            FsOp::Remove(_) => cap.remove,
        }
    }

    /// `cap` grants the operation.
    pub open spec fn spec_granted(self, cap: Fs) -> bool {
        self.spec_policy(cap).spec_allows(self.spec_path())
    }

    /// The operation as written in audit records and errors: `action(path)`.
    pub open spec fn spec_describe(self) -> Seq<char> {
        self.spec_action() + "("@ + self.spec_path() + ")"@
    }

    /// The hint offered when the operation is refused.
    pub open spec fn spec_hint(self) -> Seq<char> {
        "add to caps in package.json: { fs: { "@ + self.spec_action() + ": ['"@ + self.spec_path()
            + "'] } }"@
    }

    fn action(&self) -> (a: &'static str)
        ensures
            a@ == self.spec_action(),
    {
        match self {
            FsOp::Read(_) => "read",
            FsOp::Write(_) => "write",
            FsOp::List(_) => "list",
            FsOp::Stat(_) => "stat",
            FsOp::Mkdir(_) => "mkdir",
            FsOp::Remove(_) => "remove",
        }
    }

    fn path(&self) -> (p: &str)
        ensures
            p@ == self.spec_path(),
    {
        match self {
            FsOp::Read(p) => p.as_str(),
            FsOp::Write(p) => p.as_str(),
            FsOp::List(p) => p.as_str(),
            FsOp::Stat(p) => p.as_str(),
            FsOp::Mkdir(p) => p.as_str(),
            FsOp::Remove(p) => p.as_str(),
        }
    }

    fn describe(&self) -> (s: String)
        ensures
            s@ == self.spec_describe(),
    {
        let mut s = String::from_str(self.action());
        s.append("(");
        s.append(self.path());
        s.append(")");
        s
    }

    fn hint(&self) -> (s: String)
        ensures
            s@ == self.spec_hint(),
    {
        let mut s = String::from_str("add to caps in package.json: { fs: { ");
        s.append(self.action());
        s.append(": ['");
        s.append(self.path());
        s.append("'] } }");
        s
    }

    fn policy<'a>(&self, cap: &'a Fs) -> (p: &'a PathPolicy)
        ensures
            *p == self.spec_policy(*cap),
    {
        match self {
            FsOp::Read(_) => &cap.read,
            FsOp::Write(_) => &cap.write,
            FsOp::List(_) => &cap.list,
            FsOp::Stat(_) => &cap.stat,
            FsOp::Mkdir(_) => &cap.mkdir,
            FsOp::Remove(_) => &cap.remove,
        }
    }
}

// -------------------------------------------------------- Stdio capability

/// The standard-stream capability.
#[derive(Debug, Clone, Copy)]
pub struct Stdio {
    pub stdout: bool,
    pub stderr: bool,
}

impl Stdio {
    pub fn full() -> (s: Self)
        ensures
            s.stdout && s.stderr,
    {
        Stdio { stdout: true, stderr: true }
    }

    pub fn none() -> (s: Self)
        ensures
            !s.stdout && !s.stderr,
    {
        Stdio { stdout: false, stderr: false }
    }
}

/// A write to one of the standard streams.
#[derive(Debug, Clone)]
pub enum StdioOp {
    Stdout(Vec<u8>),
    Stderr(Vec<u8>),
}

impl StdioOp {
    /// The name of the stream written to.
    pub open spec fn spec_stream(self) -> Seq<char> {
        match self {
            StdioOp::Stdout(_) => "stdout"@,
            StdioOp::Stderr(_) => "stderr"@,
        }
    }

    pub open spec fn spec_granted(self, cap: Stdio) -> bool {
        match self {
            StdioOp::Stdout(_) => cap.stdout,
            StdioOp::Stderr(_) => cap.stderr,
        }
    }

    pub open spec fn spec_describe(self) -> Seq<char> {
        "write("@ + self.spec_stream() + ")"@
    }

    pub open spec fn spec_hint(self) -> Seq<char> {
        "add to caps in package.json: { stdio: { "@ + self.spec_stream() + ": true } }"@
    }
}

// ---------------------------------------------------------- Clock capability

/// How finely a module may read the clock.
#[derive(Debug, Clone, Copy)]
pub enum ClockResolution {
    Disabled,
    Coarse(Duration),
    Fine,
}

/// The clock capability.
#[derive(Debug, Clone, Copy)]
pub struct Clock {
    pub resolution: ClockResolution,
}

impl Clock {
    pub fn fine() -> (c: Self)
        ensures
            c.resolution is Fine,
    {
        Clock { resolution: ClockResolution::Fine }
    }

    pub fn disabled() -> (c: Self)
        ensures
            c.resolution is Disabled,
    {
        Clock { resolution: ClockResolution::Disabled }
    }

    pub fn coarse(d: Duration) -> (c: Self)
        ensures
            c.resolution matches ClockResolution::Coarse(e) && e.spec_nanos() == d.spec_nanos(),
    {
        Clock { resolution: ClockResolution::Coarse(d) }
    }
}

/// A clock read.
#[derive(Debug, Clone, Copy)]
pub enum ClockOp {
    Now,
    HighResolution,
}

impl ClockOp {
    pub open spec fn spec_describe(self) -> Seq<char> {
        match self {
            ClockOp::Now => "now()"@,
            ClockOp::HighResolution => "highResolution()"@,
        }
    }
}

/// The hint offered when a clock read is refused.
pub open spec fn clock_hint() -> Seq<char> {
    "add to caps in package.json: { clock: 'fine' } or { clock: { coarse: 100 } }"@
}

// ------------------------------------------------------ Scheduler capability

/// The scheduling capability.
#[derive(Debug, Clone, Copy)]
pub struct Scheduler {
    pub timers: bool,
    pub microtasks: bool,
    pub min_delay: Duration,
}

impl Scheduler {
    pub fn full() -> (s: Self)
        ensures
            s.timers && s.microtasks && s.min_delay.spec_nanos() == 0,
    {
        Scheduler { timers: true, microtasks: true, min_delay: Duration::zero() }
    }

    pub fn none() -> (s: Self)
        ensures
            !s.timers && !s.microtasks && s.min_delay.spec_nanos() == 0,
    {
        Scheduler { timers: false, microtasks: false, min_delay: Duration::zero() }
    }
}

/// A scheduling request.
#[derive(Debug, Clone, Copy)]
pub enum SchedulerOp {
    Timer(Duration),
    Microtask,
}

impl SchedulerOp {
    /// The scheduler feature the request needs.
    pub open spec fn spec_kind(self) -> Seq<char> {
        match self {
            SchedulerOp::Timer(_) => "timers"@,
            SchedulerOp::Microtask => "microtasks"@,
        }
    }

    pub open spec fn spec_granted(self, cap: Scheduler) -> bool {
        match self {
            SchedulerOp::Timer(_) => cap.timers,
            SchedulerOp::Microtask => cap.microtasks,
        }
    }

    pub open spec fn spec_describe(self) -> Seq<char> {
        match self {
            SchedulerOp::Timer(d) => "timer("@ + decimal(d.spec_nanos() / 1_000_000) + "ms)"@,
            SchedulerOp::Microtask => "microtask"@,
        }
    }

    pub open spec fn spec_hint(self) -> Seq<char> {
        "add to caps in package.json: { scheduler: { "@ + self.spec_kind() + ": true } }"@
    }
}

// -------------------------------------------------------- Process capability

/// The process capability.
#[derive(Debug, Clone, Copy)]
pub struct Process {
    pub may_exit: bool,
    pub may_read_cwd: bool,
    pub may_read_pid: bool,
}

impl Process {
    pub fn full() -> (p: Self)
        ensures
            p.may_exit && p.may_read_cwd && p.may_read_pid,
    {
        Process { may_exit: true, may_read_cwd: true, may_read_pid: true }
    }

    pub fn none() -> (p: Self)
        ensures
            !p.may_exit && !p.may_read_cwd && !p.may_read_pid,
    {
        Process { may_exit: false, may_read_cwd: false, may_read_pid: false }
    }
}

/// A process operation.
#[derive(Debug, Clone, Copy)]
pub enum ProcessOp {
    Exit(i32),
    ReadCwd,
    ReadPid,
}

impl ProcessOp {
    /// The capability field that governs the operation.
    pub open spec fn spec_field(self) -> Seq<char> {
        match self {
            ProcessOp::Exit(_) => "may_exit"@,
            ProcessOp::ReadCwd => "may_read_cwd"@,
            ProcessOp::ReadPid => "may_read_pid"@,
        }
    }

    pub open spec fn spec_granted(self, cap: Process) -> bool {
        match self {
            ProcessOp::Exit(_) => cap.may_exit,
            ProcessOp::ReadCwd => cap.may_read_cwd,
            ProcessOp::ReadPid => cap.may_read_pid,
        }
    }

    pub open spec fn spec_describe(self) -> Seq<char> {
        match self {
            ProcessOp::Exit(c) => "exit("@ + signed_decimal(c as int) + ")"@,
            ProcessOp::ReadCwd => "cwd()"@,
            ProcessOp::ReadPid => "pid"@,
        }
    }

    pub open spec fn spec_hint(self) -> Seq<char> {
        "add to caps in package.json: { process: { "@ + self.spec_field() + ": true } }"@
    }
}

// ------------------------------------------------------------ Env capability

/// Which environment variables may be read.
#[derive(Debug, Clone)]
pub enum EnvVarPolicy {
    NoAccess,
    Any,
    Whitelist(Vec<String>),
}

/// `name` is one of `names`.
pub open spec fn listed(name: Seq<char>, names: Seq<Seq<char>>) -> bool {
    exists|i: int| 0 <= i < names.len() && names[i] == name
}

impl EnvVarPolicy {
    pub open spec fn spec_allows(self, name: Seq<char>) -> bool {
        match self {
            EnvVarPolicy::NoAccess => false,
            EnvVarPolicy::Any => true,
            EnvVarPolicy::Whitelist(ws) => listed(name, strings_view(ws@)),
        }
    }

    pub fn allows(&self, name: &str) -> (r: bool)
        ensures
            r == self.spec_allows(name@),
            self matches EnvVarPolicy::Whitelist(ws) ==> (r <==> exists|i: int| 0 <= i < ws@.len() && (#[trigger] ws@[i])@ == name@),
    {
        proof {
            law_whitelist_allows_exactly_its_entries(*self, name@);
        }
        match self {
            EnvVarPolicy::NoAccess => false,
            EnvVarPolicy::Any => true,
            EnvVarPolicy::Whitelist(ws) => string_listed(ws, name),
        }
    }
}

/// Whether `name` is one of the strings of `ws`.
fn string_listed(ws: &Vec<String>, name: &str) -> (r: bool)
    ensures
        r == listed(name@, strings_view(ws@)),
{
    let mut i: usize = 0;
    while i < ws.len()
        invariant
            0 <= i <= ws@.len(),
            forall|j: int| 0 <= j < i ==> #[trigger] strings_view(ws@)[j] != name@,
        decreases ws@.len() - i,
    {
        if str_equal(ws[i].as_str(), name) {
            assert(strings_view(ws@)[i as int] == name@);
            return true;
        }
        i = i + 1;
    }
    false
}

/// The environment capability.
#[derive(Debug, Clone)]
pub struct Env {
    pub vars: EnvVarPolicy,
    pub system_info: bool,
}

impl Env {
    pub fn full() -> (e: Self)
        ensures
            e.vars is Any && e.system_info,
    {
        Env { vars: EnvVarPolicy::Any, system_info: true }
    }

    pub fn none() -> (e: Self)
        ensures
            e.vars is NoAccess && !e.system_info,
    {
        Env { vars: EnvVarPolicy::NoAccess, system_info: false }
    }
}

/// An environment read.
#[derive(Debug, Clone)]
pub enum EnvOp {
    ReadVar(String),
    /// A named piece of system information, such as "cpus" or "hostname".
    SystemInfo(&'static str),
}

impl EnvOp {
    pub open spec fn spec_granted(self, cap: Env) -> bool {
        match self {
            EnvOp::ReadVar(name) => cap.vars.spec_allows(name@),
            EnvOp::SystemInfo(_) => cap.system_info,
        }
    }

    pub open spec fn spec_describe(self) -> Seq<char> {
        match self {
            EnvOp::ReadVar(name) => "readVar("@ + name@ + ")"@,
            EnvOp::SystemInfo(field) => "systemInfo("@ + field@ + ")"@,
        }
    }

    pub open spec fn spec_hint(self) -> Seq<char> {
        match self {
            EnvOp::ReadVar(name) => "add to caps in package.json: { env: { vars: ['"@ + name@
                + "'] } }"@,
            EnvOp::SystemInfo(_) => "add to caps in package.json: { env: { systemInfo: true } }"@,
        }
    }
}

// ------------------------------------------------------------ Net capability

/// A host and port.
#[derive(Debug, Clone)]
pub struct NetEndpoint {
    pub host: String,
    pub port: u16,
}

impl NetEndpoint {
    pub fn new(host: &str, port: u16) -> (e: Self)
        ensures
            e.host@ == host@,
            e.port == port,
    {
        NetEndpoint { host: String::from_str(host), port }
    }

    pub open spec fn spec_matches(self, host: Seq<char>, port: u16) -> bool {
        self.host@ == host && self.port == port
    }

    fn matches(&self, host: &str, port: u16) -> (r: bool)
        ensures
            r == self.spec_matches(host@, port),
    {
        str_equal(self.host.as_str(), host) && self.port == port
    }
}

/// One of `endpoints` is `host:port`.
pub open spec fn some_endpoint(endpoints: Seq<NetEndpoint>, host: Seq<char>, port: u16) -> bool {
    exists|i: int| 0 <= i < endpoints.len() && #[trigger] endpoints[i].spec_matches(host, port)
}

fn any_endpoint(endpoints: &Vec<NetEndpoint>, host: &str, port: u16) -> (r: bool)
    ensures
        r == some_endpoint(endpoints@, host@, port),
{
    let mut i: usize = 0;
    while i < endpoints.len()
        invariant
            0 <= i <= endpoints@.len(),
            forall|j: int| 0 <= j < i ==> !(#[trigger] endpoints@[j]).spec_matches(host@, port),
        decreases endpoints@.len() - i,
    {
        if endpoints[i].matches(host, port) {
            assert(endpoints@[i as int].spec_matches(host@, port));
            return true;
        }
        i = i + 1;
    }
    false
}

/// The loopback host names: `127.0.0.1`, `localhost`, `::1` and `[::1]`.
pub open spec fn spec_is_loopback_host(host: Seq<char>) -> bool {
    host == "127.0.0.1"@ || host == "localhost"@ || host == "::1"@ || host == "[::1]"@
}

fn is_loopback_host(host: &str) -> (r: bool)
    ensures
        r == spec_is_loopback_host(host@),
{
    str_equal(host, "127.0.0.1") || str_equal(host, "localhost") || str_equal(host, "::1")
        || str_equal(host, "[::1]")
}

/// Where a module may listen.
#[derive(Debug, Clone)]
pub enum NetListenPolicy {
    NoAccess,
    Any,
    LoopbackAnyPort,
    Exact(Vec<NetEndpoint>),
}

impl NetListenPolicy {
    pub open spec fn spec_allows(self, host: Seq<char>, port: u16) -> bool {
        match self {
            NetListenPolicy::NoAccess => false,
            NetListenPolicy::Any => true,
            NetListenPolicy::LoopbackAnyPort => spec_is_loopback_host(host),
            NetListenPolicy::Exact(endpoints) => some_endpoint(endpoints@, host, port),
        }
    }

    fn allows(&self, host: &str, port: u16) -> (r: bool)
        ensures
            r == self.spec_allows(host@, port),
    {
        match self {
            NetListenPolicy::NoAccess => false,
            NetListenPolicy::Any => true,
            NetListenPolicy::LoopbackAnyPort => is_loopback_host(host),
            NetListenPolicy::Exact(endpoints) => any_endpoint(endpoints, host, port),
        }
    }
}

/// Where a module may connect.
#[derive(Debug, Clone)]
pub enum NetConnectPolicy {
    NoAccess,
    Any,
    Hosts(Vec<String>),
    Exact(Vec<NetEndpoint>),
}

impl NetConnectPolicy {
    pub open spec fn spec_allows(self, host: Seq<char>, port: u16) -> bool {
        match self {
            NetConnectPolicy::NoAccess => false,
            NetConnectPolicy::Any => true,
            NetConnectPolicy::Hosts(hosts) => listed(host, strings_view(hosts@)),
            NetConnectPolicy::Exact(endpoints) => some_endpoint(endpoints@, host, port),
        }
    }

    fn allows(&self, host: &str, port: u16) -> (r: bool)
        ensures
            r == self.spec_allows(host@, port),
    {
        match self {
            NetConnectPolicy::NoAccess => false,
            NetConnectPolicy::Any => true,
            NetConnectPolicy::Hosts(hosts) => string_listed(hosts, host),
            NetConnectPolicy::Exact(endpoints) => any_endpoint(endpoints, host, port),
        }
    }
}

/// The network capability.
#[derive(Debug, Clone)]
pub struct Net {
    pub listen: NetListenPolicy,
    pub connect: NetConnectPolicy,
}

impl Net {
    pub fn full() -> (n: Self)
        ensures
            n.listen is Any && n.connect is Any,
    {
        Net { listen: NetListenPolicy::Any, connect: NetConnectPolicy::Any }
    }

    pub fn none() -> (n: Self)
        ensures
            n.listen is NoAccess && n.connect is NoAccess,
    {
        Net { listen: NetListenPolicy::NoAccess, connect: NetConnectPolicy::NoAccess }
    }

    /// Listen on loopback interfaces, on any port; no outgoing connections.
    pub fn loopback_server() -> (n: Self)
        ensures
            n.listen is LoopbackAnyPort && n.connect is NoAccess,
    {
        Net { listen: NetListenPolicy::LoopbackAnyPort, connect: NetConnectPolicy::NoAccess }
    }

    /// Listen on exactly `host:port`; no outgoing connections.
    pub fn listen_exact(host: &str, port: u16) -> (n: Self)
        ensures
            n.listen matches NetListenPolicy::Exact(eps) && eps@.len() == 1
                && eps@[0].host@ == host@ && eps@[0].port == port,
            n.connect is NoAccess,
    {
        let mut eps: Vec<NetEndpoint> = Vec::new();
        eps.push(NetEndpoint::new(host, port));
        Net { listen: NetListenPolicy::Exact(eps), connect: NetConnectPolicy::NoAccess }
    }
}

/// A network operation.
#[derive(Debug, Clone)]
pub enum NetOp {
    Listen { host: String, port: u16 },
    Connect { host: String, port: u16 },
}

impl NetOp {
    pub open spec fn spec_host(self) -> Seq<char> {
        match self {
            NetOp::Listen { host, .. } => host@,
            NetOp::Connect { host, .. } => host@,
        }
    }

    pub open spec fn spec_port(self) -> u16 {
        match self {
            NetOp::Listen { port, .. } => port,
            NetOp::Connect { port, .. } => port,
        }
    }

    /// `host:port` of the operation.
    pub open spec fn spec_address(self) -> Seq<char> {
        self.spec_host() + ":"@ + decimal(self.spec_port() as nat)
    }

    pub open spec fn spec_describe(self) -> Seq<char> {
        match self {
            NetOp::Listen { .. } => "listen("@ + self.spec_address() + ")"@,
            NetOp::Connect { .. } => "connect("@ + self.spec_address() + ")"@,
        }
    }

    pub open spec fn spec_granted(self, cap: Net) -> bool {
        match self {
            NetOp::Listen { host, port } => cap.listen.spec_allows(host@, port),
            NetOp::Connect { host, port } => cap.connect.spec_allows(host@, port),
        }
    }

    pub open spec fn spec_hint(self) -> Seq<char> {
        match self {
            NetOp::Listen { host, .. } => if spec_is_loopback_host(host@) {
                "add to caps in package.json: { net: { listen: ['"@ + self.spec_address()
                    + "', 'loopback:*'] } }"@
            } else {
                "add to caps in package.json: { net: { listen: ['"@ + self.spec_address()
                    + "'] } }"@
            },
            NetOp::Connect { .. } => "add to caps in package.json: { net: { connect: ['"@
                + self.spec_address() + "'] } }"@,
        }
    }

    fn host(&self) -> (h: &str)
        ensures
            h@ == self.spec_host(),
    {
        match self {
            NetOp::Listen { host, .. } => host.as_str(),
            NetOp::Connect { host, .. } => host.as_str(),
        }
    }

    fn port(&self) -> (p: u16)
        ensures
            p == self.spec_port(),
    {
        match self {
            NetOp::Listen { port, .. } => *port,
            NetOp::Connect { port, .. } => *port,
        }
    }

    fn append_address(&self, s: &mut String)
        ensures
            final(s)@ == old(s)@ + self.spec_address(),
    {
        s.append(self.host());
        s.append(":");
        append_decimal(s, self.port() as u128);
        assert(final(s)@ =~= old(s)@ + self.spec_address());
    }

    fn describe(&self) -> (d: String)
        ensures
            d@ == self.spec_describe(),
    {
        let mut s = match self {
            NetOp::Listen { .. } => String::from_str("listen("),
            NetOp::Connect { .. } => String::from_str("connect("),
        };
        self.append_address(&mut s);
        s.append(")");
        s
    }

    fn allows(&self, cap: &Net) -> (r: bool)
        ensures
            r == self.spec_granted(*cap),
    {
        match self {
            NetOp::Listen { host, port } => cap.listen.allows(host.as_str(), *port),
            NetOp::Connect { host, port } => cap.connect.allows(host.as_str(), *port),
        }
    }

    fn hint(&self) -> (h: String)
        ensures
            h@ == self.spec_hint(),
    {
        match self {
            NetOp::Listen { host, .. } => {
                let mut s = String::from_str("add to caps in package.json: { net: { listen: ['");
                self.append_address(&mut s);
                if is_loopback_host(host.as_str()) {
                    s.append("', 'loopback:*'] } }");
                } else {
                    s.append("'] } }");
                }
                s
            },
            NetOp::Connect { .. } => {
                let mut s = String::from_str("add to caps in package.json: { net: { connect: ['");
                self.append_address(&mut s);
                s.append("'] } }");
                s
            },
        }
    }
}

// ----------------------------------------------------------- AmbientCaps

/// The full-authority capability set the host holds.
#[derive(Debug, Clone)]
pub struct AmbientCaps {
    pub fs: Fs,
    pub stdio: Stdio,
    pub clock: Clock,
    pub scheduler: Scheduler,
    pub process: Process,
    pub env: Env,
    pub net: Net,
}

impl AmbientCaps {
    /// Every capability is granted in full.
    pub open spec fn spec_is_full(self) -> bool {
        &&& self.fs.spec_is_full()
        &&& self.stdio.stdout && self.stdio.stderr
        &&& self.clock.resolution is Fine
        &&& self.scheduler.timers && self.scheduler.microtasks
        &&& self.scheduler.min_delay.spec_nanos() == 0
        &&& self.process.may_exit && self.process.may_read_cwd && self.process.may_read_pid
        &&& self.env.vars is Any && self.env.system_info
        &&& self.net.listen is Any && self.net.connect is Any
    }

    pub fn full() -> (a: Self)
        ensures
            a.spec_is_full(),
    {
        AmbientCaps {
            fs: Fs::full(),
            stdio: Stdio::full(),
            clock: Clock::fine(),
            scheduler: Scheduler::full(),
            process: Process::full(),
            env: Env::full(),
            net: Net::full(),
        }
    }
}

impl Default for AmbientCaps {
    fn default() -> (a: Self)
        ensures
            a.spec_is_full(),
    {
        AmbientCaps::full()
    }
}

// -------------------------------------------------------------- AuditLog

/// One audited call: who asked for which capability to do what, and when.
#[derive(Debug, Clone)]
pub struct AuditRecord {
    pub caller: String,
    pub capability: &'static str,
    pub operation: String,
    pub timestamp_micros: u128,
}

impl AuditRecord {
    /// The caller, capability and operation of the record.
    pub open spec fn entry(self) -> (Seq<char>, Seq<char>, Seq<char>) {
        (self.caller@, self.capability@, self.operation@)
    }
}

/// The (caller, capability, operation) entries of a list of records, in order.
pub open spec fn entries_of(records: Seq<AuditRecord>) -> Seq<(Seq<char>, Seq<char>, Seq<char>)> {
    records.map_values(|r: AuditRecord| r.entry())
}

/// Reads the system clock with `std::time::SystemTime::now` and returns the
/// microseconds since the Unix epoch, or 0 when the clock is set before it.
/// Nothing is claimed of the value: it depends on the clock.
#[verifier::external_body]
fn micros_since_epoch() -> u128 {
    match std::time::SystemTime::now().duration_since(std::time::UNIX_EPOCH) {
        Ok(d) => d.as_micros(),
        Err(_) => 0,
    }
}

/// The log of audited calls.
#[derive(Debug)]
pub struct AuditLog {
    pub records: Vec<AuditRecord>,
}

impl Default for AuditLog {
    fn default() -> (l: Self)
        ensures
            l.records@.len() == 0,
    {
        AuditLog { records: Vec::new() }
    }
}

impl AuditLog {
    pub open spec fn entries(self) -> Seq<(Seq<char>, Seq<char>, Seq<char>)> {
        entries_of(self.records@)
    }

    /// Appends a record of `caller` using `capability` for `op`, stamped
    /// with the current time: the earlier records stay as they were,
    /// timestamps included. The new record's timestamp is the clock's
    /// reading in microseconds since the Unix epoch (0 before it), which no
    /// clause fixes.
    pub fn record(&mut self, caller: &ModuleId, capability: &'static str, op: &str)
        ensures
            final(self).entries() == old(self).entries().push((caller.url@, capability@, op@)),
            final(self).records@.len() == old(self).records@.len() + 1,
            final(self).records@.drop_last() == old(self).records@,
    {
        let timestamp_micros = micros_since_epoch();
        let rec = AuditRecord {
            caller: String::from_str(caller.url.as_str()),
            capability,
            operation: String::from_str(op),
            timestamp_micros,
        };
        self.records.push(rec);
        assert(final(self).entries() =~= old(self).entries().push((caller.url@, capability@, op@)));
    }
}

// ------------------------------------------------------------ Dispatcher

/// A check keeps the audit records whole: in `Audit` mode it appends one
/// record and leaves the earlier ones as they were, timestamps included; in
/// any other mode the records are unchanged.
pub open spec fn keeps_records(mode: CapMode, before: Seq<AuditRecord>, after: Seq<AuditRecord>) -> bool {
    if mode == CapMode::Audit {
        after.len() == before.len() + 1 && after.drop_last() == before
    } else {
        after == before
    }
}

/// Whether `mode` lets a module of provenance `caller` perform an operation
/// that its capability grants (`granted`) or not.
pub open spec fn permits(mode: CapMode, caller: ModuleProvenance, granted: bool) -> bool {
    match mode {
        CapMode::Compat | CapMode::Audit => true,
        CapMode::SealedDeps => caller.spec_is_application() || granted,
        CapMode::Sealed => granted,
    }
}

/// The capability dispatcher: the single point where mode policy and
/// capability policy compose. Every effectful operation is checked through
/// one of the `require_*` methods.
pub struct CapDispatcher {
    pub mode: CapMode,
    pub ambient: AmbientCaps,
    pub audit: AuditLog,
}

impl Default for CapDispatcher {
    fn default() -> (d: Self)
        ensures
            d.mode == CapMode::Compat,
            d.ambient.spec_is_full(),
            d.audit.entries().len() == 0,
    {
        CapDispatcher::compat()
    }
}

impl CapDispatcher {
    /// The audit entries after a call that asked for `capability` to perform
    /// `operation`: one entry more in `Audit` mode, none in any other.
    pub open spec fn audited(
        self,
        caller: ModuleId,
        capability: Seq<char>,
        operation: Seq<char>,
    ) -> Seq<(Seq<char>, Seq<char>, Seq<char>)> {
        if self.mode == CapMode::Audit {
            self.audit.entries().push((caller.url@, capability, operation))
        } else {
            self.audit.entries()
        }
    }

    /// The outcome of a check that asked for `capability` to perform
    /// `operation`: allowed when the mode permits, else refused with `hint`.
    pub open spec fn decides(
        self,
        r: Result<(), CapabilityError>,
        caller: ModuleId,
        granted: bool,
        capability: Seq<char>,
        operation: Seq<char>,
        hint: Seq<char>,
    ) -> bool {
        match r {
            Ok(()) => permits(self.mode, caller.provenance, granted),
            Err(e) => !permits(self.mode, caller.provenance, granted)
                && e.refuses(capability, operation, caller.url@, self.mode, hint),
        }
    }

    pub fn new(mode: CapMode) -> (d: Self)
        ensures
            d.mode == mode,
            d.ambient.spec_is_full(),
            d.audit.entries().len() == 0,
    {
        CapDispatcher { mode, ambient: AmbientCaps::full(), audit: AuditLog::default() }
    }

    /// Mode 0 with full ambient authority.
    pub fn compat() -> (d: Self)
        ensures
            d.mode == CapMode::Compat,
            d.ambient.spec_is_full(),
            d.audit.entries().len() == 0,
    {
        Self::new(CapMode::Compat)
    }

    /// Mode 1: mode 0 plus audit recording.
    pub fn audit_mode() -> (d: Self)
        ensures
            d.mode == CapMode::Audit,
            d.ambient.spec_is_full(),
            d.audit.entries().len() == 0,
    {
        Self::new(CapMode::Audit)
    }

    /// Takes the audit records, oldest first, and leaves the log empty.
    pub fn drain_audit(&mut self) -> (records: Vec<AuditRecord>)
        ensures
            records@ == old(self).audit.records@,
            entries_of(records@) == old(self).audit.entries(),
            final(self).audit.records@.len() == 0,
            final(self).audit.entries().len() == 0,
            final(self).mode == old(self).mode,
            final(self).ambient == old(self).ambient,
    {
        let mut taken: Vec<AuditRecord> = Vec::new();
        std::mem::swap(&mut taken, &mut self.audit.records);
        taken
    }

    fn record_audit(&mut self, caller: &ModuleId, capability: &'static str, op: &str)
        ensures
            final(self).audit.entries() == old(self).audited(*caller, capability@, op@),
            keeps_records(old(self).mode, old(self).audit.records@, final(self).audit.records@),
            final(self).mode == old(self).mode,
            final(self).ambient == old(self).ambient,
    {
        if self.mode == CapMode::Audit {
            self.audit.record(caller, capability, op);
        }
    }

    fn refusal(&self, capability: &'static str, operation: String, caller: &ModuleId, hint: String) -> (e: CapabilityError)
        ensures
            e.refuses(capability@, operation@, caller.url@, self.mode, hint@),
    {
        CapabilityError {
            capability,
            operation,
            calling_module: String::from_str(caller.url.as_str()),
            mode: self.mode,
            hint: Some(hint),
        }
    }

    /// The mode asks the capability for this caller.
    fn enforces(&self, caller: &ModuleId) -> (r: bool)
        ensures
            r == !permits(self.mode, caller.provenance, false),
    {
        match self.mode {
            CapMode::Compat | CapMode::Audit => false,
            CapMode::SealedDeps => !caller.provenance.is_application(),
            CapMode::Sealed => true,
        }
    }

    pub fn require_fs(&mut self, cap: &Fs, op: FsOp, caller: &ModuleId) -> (r: Result<(), CapabilityError>)
        ensures
            final(self).mode == old(self).mode,
            final(self).ambient == old(self).ambient,
            final(self).audit.entries() == old(self).audited(*caller, "fs"@, op.spec_describe()),
            keeps_records(old(self).mode, old(self).audit.records@, final(self).audit.records@),
            old(self).decides(r, *caller, op.spec_granted(*cap), "fs"@, op.spec_describe(), op.spec_hint()),
    {
        let op_desc = op.describe();
        self.record_audit(caller, "fs", op_desc.as_str());
        if !self.enforces(caller) {
            return Ok(());
        }
        if op.policy(cap).allows(op.path()) {
            Ok(())
        } else {
            Err(self.refusal("fs", op_desc, caller, op.hint()))
        }
    }

    pub fn require_stdio(&mut self, cap: &Stdio, op: StdioOp, caller: &ModuleId) -> (r: Result<(), CapabilityError>)
        ensures
            final(self).mode == old(self).mode,
            final(self).ambient == old(self).ambient,
            final(self).audit.entries() == old(self).audited(*caller, "stdio"@, op.spec_describe()),
            keeps_records(old(self).mode, old(self).audit.records@, final(self).audit.records@),
            old(self).decides(r, *caller, op.spec_granted(*cap), "stdio"@, op.spec_describe(), op.spec_hint()),
    {
        let (allowed, stream) = match &op {
            StdioOp::Stdout(_) => (cap.stdout, "stdout"),
            StdioOp::Stderr(_) => (cap.stderr, "stderr"),
        };
        let mut op_desc = String::from_str("write(");
        op_desc.append(stream);
        op_desc.append(")");
        self.record_audit(caller, "stdio", op_desc.as_str());
        if !self.enforces(caller) || allowed {
            return Ok(());
        }
        let mut hint = String::from_str("add to caps in package.json: { stdio: { ");
        hint.append(stream);
        hint.append(": true } }");
        Err(self.refusal("stdio", op_desc, caller, hint))
    }

    pub fn require_clock(&mut self, cap: &Clock, op: ClockOp, caller: &ModuleId) -> (r: Result<(), CapabilityError>)
        ensures
            final(self).mode == old(self).mode,
            final(self).ambient == old(self).ambient,
            final(self).audit.entries() == old(self).audited(*caller, "clock"@, op.spec_describe()),
            keeps_records(old(self).mode, old(self).audit.records@, final(self).audit.records@),
            old(self).decides(r, *caller, !(cap.resolution is Disabled), "clock"@, op.spec_describe(), clock_hint()),
    {
        let op_desc = match op {
            ClockOp::Now => String::from_str("now()"),
            ClockOp::HighResolution => String::from_str("highResolution()"),
        };
        self.record_audit(caller, "clock", op_desc.as_str());
        if !self.enforces(caller) {
            return Ok(());
        }
        match cap.resolution {
            ClockResolution::Disabled => Err(self.refusal(
                "clock",
                op_desc,
                caller,
                String::from_str("add to caps in package.json: { clock: 'fine' } or { clock: { coarse: 100 } }"),
            )),
            _ => Ok(()),
        }
    }

    pub fn require_scheduler(&mut self, cap: &Scheduler, op: SchedulerOp, caller: &ModuleId) -> (r: Result<(), CapabilityError>)
        ensures
            final(self).mode == old(self).mode,
            final(self).ambient == old(self).ambient,
            final(self).audit.entries() == old(self).audited(*caller, "scheduler"@, op.spec_describe()),
            keeps_records(old(self).mode, old(self).audit.records@, final(self).audit.records@),
            old(self).decides(r, *caller, op.spec_granted(*cap), "scheduler"@, op.spec_describe(), op.spec_hint()),
    {
        let (allowed, kind, op_desc) = match op {
            SchedulerOp::Timer(d) => {
                let mut desc = String::from_str("timer(");
                append_decimal(&mut desc, d.as_millis());
                desc.append("ms)");
                (cap.timers, "timers", desc)
            },
            SchedulerOp::Microtask => (cap.microtasks, "microtasks", String::from_str("microtask")),
        };
        self.record_audit(caller, "scheduler", op_desc.as_str());
        if !self.enforces(caller) || allowed {
            return Ok(());
        }
        let mut hint = String::from_str("add to caps in package.json: { scheduler: { ");
        hint.append(kind);
        hint.append(": true } }");
        Err(self.refusal("scheduler", op_desc, caller, hint))
    }

    pub fn require_process(&mut self, cap: &Process, op: ProcessOp, caller: &ModuleId) -> (r: Result<(), CapabilityError>)
        ensures
            final(self).mode == old(self).mode,
            final(self).ambient == old(self).ambient,
            final(self).audit.entries() == old(self).audited(*caller, "process"@, op.spec_describe()),
            keeps_records(old(self).mode, old(self).audit.records@, final(self).audit.records@),
            old(self).decides(r, *caller, op.spec_granted(*cap), "process"@, op.spec_describe(), op.spec_hint()),
    {
        let (allowed, field, op_desc) = match op {
            ProcessOp::Exit(c) => {
                let mut desc = String::from_str("exit(");
                append_signed_decimal(&mut desc, c as i64);
                desc.append(")");
                (cap.may_exit, "may_exit", desc)
            },
            ProcessOp::ReadCwd => (cap.may_read_cwd, "may_read_cwd", String::from_str("cwd()")),
            ProcessOp::ReadPid => (cap.may_read_pid, "may_read_pid", String::from_str("pid")),
        };
        self.record_audit(caller, "process", op_desc.as_str());
        if !self.enforces(caller) || allowed {
            return Ok(());
        }
        let mut hint = String::from_str("add to caps in package.json: { process: { ");
        hint.append(field);
        hint.append(": true } }");
        Err(self.refusal("process", op_desc, caller, hint))
    }

    pub fn require_env(&mut self, cap: &Env, op: EnvOp, caller: &ModuleId) -> (r: Result<(), CapabilityError>)
        ensures
            final(self).mode == old(self).mode,
            final(self).ambient == old(self).ambient,
            final(self).audit.entries() == old(self).audited(*caller, "env"@, op.spec_describe()),
            keeps_records(old(self).mode, old(self).audit.records@, final(self).audit.records@),
            old(self).decides(r, *caller, op.spec_granted(*cap), "env"@, op.spec_describe(), op.spec_hint()),
    {
        let op_desc = match &op {
            EnvOp::ReadVar(name) => {
                let mut d = String::from_str("readVar(");
                d.append(name.as_str());
                d.append(")");
                d
            },
            EnvOp::SystemInfo(field) => {
                let mut d = String::from_str("systemInfo(");
                d.append(field);
                d.append(")");
                d
            },
        };
        self.record_audit(caller, "env", op_desc.as_str());
        if !self.enforces(caller) {
            return Ok(());
        }
        let allowed = match &op {
            EnvOp::ReadVar(name) => cap.vars.allows(name.as_str()),
            EnvOp::SystemInfo(_) => cap.system_info,
        };
        if allowed {
            return Ok(());
        }
        let hint = match &op {
            EnvOp::ReadVar(name) => {
                let mut h = String::from_str("add to caps in package.json: { env: { vars: ['");
                h.append(name.as_str());
                h.append("'] } }");
                h
            },
            EnvOp::SystemInfo(_) => String::from_str("add to caps in package.json: { env: { systemInfo: true } }"),
        };
        Err(self.refusal("env", op_desc, caller, hint))
    }

    pub fn require_net(&mut self, cap: &Net, op: NetOp, caller: &ModuleId) -> (r: Result<(), CapabilityError>)
        ensures
            final(self).mode == old(self).mode,
            final(self).ambient == old(self).ambient,
            final(self).audit.entries() == old(self).audited(*caller, "net"@, op.spec_describe()),
            keeps_records(old(self).mode, old(self).audit.records@, final(self).audit.records@),
            old(self).decides(r, *caller, op.spec_granted(*cap), "net"@, op.spec_describe(), op.spec_hint()),
    {
        let op_desc = op.describe();
        self.record_audit(caller, "net", op_desc.as_str());
        if !self.enforces(caller) || op.allows(cap) {
            return Ok(());
        }
        Err(self.refusal("net", op_desc, caller, op.hint()))
    }
}

// ------------------------------------------------------------------ laws

/// A whitelist allows a variable name exactly when the name is one of its
/// entries, at whatever position; `NoAccess` allows none and `Any` allows
/// every name.
pub proof fn law_whitelist_allows_exactly_its_entries(policy: EnvVarPolicy, name: Seq<char>)
    ensures
        policy matches EnvVarPolicy::Whitelist(ws) ==> (policy.spec_allows(name)
            <==> exists|i: int| 0 <= i < ws@.len() && (#[trigger] ws@[i])@ == name),
        policy is NoAccess ==> !policy.spec_allows(name),
        policy is Any ==> policy.spec_allows(name),
{
    if let EnvVarPolicy::Whitelist(ws) = policy {
        if policy.spec_allows(name) {
            let i = choose|i: int| 0 <= i < strings_view(ws@).len() && strings_view(ws@)[i] == name;
            assert(ws@[i]@ == name);
        }
        if exists|i: int| 0 <= i < ws@.len() && (#[trigger] ws@[i])@ == name {
            let i = choose|i: int| 0 <= i < ws@.len() && (#[trigger] ws@[i])@ == name;
            assert(strings_view(ws@)[i] == name);
        }
    }
}

/// In `Sealed` mode a request to read an environment variable under a
/// whitelist succeeds exactly when the variable's name is one of the
/// whitelist's entries, whoever asks.
pub proof fn law_sealed_env_reads_follow_the_whitelist(
    d: CapDispatcher,
    r: Result<(), CapabilityError>,
    caller: ModuleId,
    ws: Vec<String>,
    system_info: bool,
    name: String,
)
    requires
        d.mode == CapMode::Sealed,
        d.decides(
            r,
            caller,
            EnvOp::ReadVar(name).spec_granted(Env { vars: EnvVarPolicy::Whitelist(ws), system_info }),
            "env"@,
            EnvOp::ReadVar(name).spec_describe(),
            EnvOp::ReadVar(name).spec_hint(),
        ),
    ensures
        r is Ok <==> exists|i: int| 0 <= i < ws@.len() && (#[trigger] ws@[i])@ == name@,
{
    law_whitelist_allows_exactly_its_entries(EnvVarPolicy::Whitelist(ws), name@);
}

/// In `Compat` and `Audit` mode every request is allowed, whatever the
/// capability and whoever the caller.
pub proof fn law_ambient_modes_allow_everything(mode: CapMode, caller: ModuleProvenance, granted: bool)
    requires
        mode == CapMode::Compat || mode == CapMode::Audit,
    ensures
        permits(mode, caller, granted),
{
}

/// In `SealedDeps` mode application and builtin modules keep ambient
/// authority, while dependencies and external modules get exactly what
/// their capability grants.
pub proof fn law_sealed_deps_seals_dependencies(caller: ModuleProvenance, granted: bool)
    ensures
        caller.spec_is_application() ==> permits(CapMode::SealedDeps, caller, granted),
        !caller.spec_is_application() ==> (permits(CapMode::SealedDeps, caller, granted) == granted),
        caller == ModuleProvenance::External ==> (permits(CapMode::SealedDeps, caller, granted) == granted),
        caller == ModuleProvenance::Builtin ==> permits(CapMode::SealedDeps, caller, granted),
{
}

/// In `Sealed` mode every module, the application included, gets exactly
/// what its capability grants.
pub proof fn law_sealed_seals_everyone(caller: ModuleProvenance, granted: bool)
    ensures
        permits(CapMode::Sealed, caller, granted) == granted,
{
}

/// The modes form a slider: what `Sealed` allows, `SealedDeps` allows, and
/// what `SealedDeps` allows, `Audit` and `Compat` allow.
pub proof fn law_modes_are_ordered(caller: ModuleProvenance, granted: bool)
    ensures
        permits(CapMode::Sealed, caller, granted) ==> permits(CapMode::SealedDeps, caller, granted),
        permits(CapMode::SealedDeps, caller, granted) ==> permits(CapMode::Audit, caller, granted),
        permits(CapMode::Audit, caller, granted) == permits(CapMode::Compat, caller, granted),
{
}

/// A granted operation is never refused, in any mode.
pub proof fn law_granted_is_never_refused(mode: CapMode, caller: ModuleProvenance)
    ensures
        permits(mode, caller, true),
{
}

/// Only `Audit` mode writes the audit log; a dispatcher in any other mode
/// whose log is empty still has an empty log after any request.
pub proof fn law_only_audit_mode_records(
    d: CapDispatcher,
    caller: ModuleId,
    capability: Seq<char>,
    operation: Seq<char>,
)
    ensures
        d.mode != CapMode::Audit ==> d.audited(caller, capability, operation) == d.audit.entries(),
        d.mode != CapMode::Audit && d.audit.entries().len() == 0 ==> d.audited(caller, capability, operation).len() == 0,
        d.mode == CapMode::Audit ==> d.audited(caller, capability, operation).len() == d.audit.entries().len() + 1
            && d.audited(caller, capability, operation).last() == (caller.url@, capability, operation),
{
}

/// Outside `Audit` mode no sequence of checks records anything: when each
/// step keeps the records as `keeps_records` says, a log that starts empty
/// is empty at the end, so draining it gives nothing.
pub proof fn law_non_audit_logs_stay_empty(mode: CapMode, history: Seq<Seq<AuditRecord>>)
    requires
        mode != CapMode::Audit,
        history.len() > 0,
        history[0].len() == 0,
        forall|i: int| 0 <= i < history.len() - 1 ==> keeps_records(mode, #[trigger] history[i], history[i + 1]),
    ensures
        history.last().len() == 0,
    decreases history.len(),
{
    if history.len() > 1 {
        let h = history.drop_last();
        assert forall|i: int| 0 <= i < h.len() - 1 implies keeps_records(mode, #[trigger] h[i], h[i + 1]) by {
            assert(h[i] == history[i] && h[i + 1] == history[i + 1]);
            assert(keeps_records(mode, history[i], history[i + 1]));
        }
        law_non_audit_logs_stay_empty(mode, h);
        assert(keeps_records(mode, history[history.len() - 2], history[history.len() - 1]));
    }
}

proof fn lemma_mode_literals()
    ensures
        "compat"@.len() == 6, "audit"@.len() == 5, "sealed-deps"@.len() == 11, "sealed"@.len() == 6,
        "compat"@[0] == 'c', "sealed"@[0] == 's',
{
    reveal_strlit("compat");
    reveal_strlit("audit");
    reveal_strlit("sealed-deps");
    reveal_strlit("sealed");
}

/// Parsing the name of a mode gives the mode back.
pub proof fn law_mode_name_round_trip(m: CapMode)
    ensures
        CapMode::spec_parse(m.spec_name()) == Some(m),
{
    lemma_mode_literals();
}

/// Narrowing never grants more: a policy narrowed to `prefix` allows a
/// path only when the original policy allowed it and it lies under
/// `prefix`.
pub proof fn law_narrowing_confines(orig: PathPolicy, narrowed: PathPolicy, prefix: Seq<char>, path: Seq<char>)
    requires
        narrowed.is_narrowing_of(orig, prefix),
        narrowed.spec_allows(path),
    ensures
        path_starts_with(path, prefix),
        orig.spec_allows(path),
{
}

/// Narrowing keeps what the original policy allowed under the prefix.
pub proof fn law_narrowing_keeps_the_subtree(orig: PathPolicy, narrowed: PathPolicy, prefix: Seq<char>, path: Seq<char>)
    requires
        narrowed.is_narrowing_of(orig, prefix),
        orig.spec_allows(path),
        path_starts_with(path, prefix),
    ensures
        narrowed.spec_allows(path),
{
}

/// `Fs::none()` grants no filesystem operation; `Fs::full()` grants all.
pub proof fn law_fs_none_and_full(cap: Fs, op: FsOp)
    ensures
        cap.spec_is_none() ==> !op.spec_granted(cap),
        cap.spec_is_full() ==> op.spec_granted(cap),
{
}

/// A read-only capability refuses every write, mkdir and remove, and grants
/// reads, lists and stats exactly as the original did.
pub proof fn law_read_only_strips_writes(orig: Fs, ro: Fs, op: FsOp)
    requires
        ro.read@ == orig.read@,
        ro.list@ == orig.list@,
        ro.stat@ == orig.stat@,
        ro.write is NoAccess,
        ro.mkdir is NoAccess,
        ro.remove is NoAccess,
    ensures
        (op is Write || op is Mkdir || op is Remove) ==> !op.spec_granted(ro),
        (op is Read || op is List || op is Stat) ==> op.spec_granted(ro) == op.spec_granted(orig),
{
}

/// A loopback-server capability lets a module listen on exactly the
/// loopback hosts, on any port, and connect nowhere.
pub proof fn law_loopback_server(cap: Net, host: Seq<char>, port: u16)
    requires
        cap.listen is LoopbackAnyPort,
        cap.connect is NoAccess,
    ensures
        cap.listen.spec_allows(host, port) == spec_is_loopback_host(host),
        !cap.connect.spec_allows(host, port),
{
}

} // verus!
