//! The catalog's data model: runtimes, their settings, launch profiles, and
//! the rules a catalog must satisfy.

use vstd::prelude::*;

use crate::text::{all_whitespace, lemma_trim_empty, trim_chars, chars_of};

verus! {

/// A model server that lml can launch.
#[derive(Clone, Copy, Debug, PartialEq, Eq, Structural)]
pub enum Runtime {
    Dwarfstar,
    LlamaCpp,
    Omlx,
}

/// The display name of a runtime.
pub open spec fn runtime_name(r: Runtime) -> Seq<char> {
    match r {
        Runtime::Dwarfstar => "DwarfStar"@,
        Runtime::LlamaCpp => "llama.cpp"@,
        Runtime::Omlx => "oMLX"@,
    }
}

/// The key under which a runtime is written in the catalog file.
pub open spec fn runtime_key(r: Runtime) -> Seq<char> {
    match r {
        Runtime::Dwarfstar => "dwarfstar"@,
        Runtime::LlamaCpp => "llama_cpp"@,
        Runtime::Omlx => "omlx"@,
    }
}

impl Runtime {
    /// The display name of the runtime.
    pub fn name(self) -> (r: &'static str)
        ensures
            r@ == runtime_name(self),
    {
        match self {
            Runtime::Dwarfstar => "DwarfStar",
            Runtime::LlamaCpp => "llama.cpp",
            Runtime::Omlx => "oMLX",
        }
    }

    /// The catalog key of the runtime.
    pub fn key(self) -> (r: &'static str)
        ensures
            r@ == runtime_key(self),
    {
        match self {
            Runtime::Dwarfstar => "dwarfstar",
            Runtime::LlamaCpp => "llama_cpp",
            Runtime::Omlx => "omlx",
        }
    }
}

/// What went wrong, in the terms of `std::io::ErrorKind`.
#[derive(Clone, Copy, Debug, PartialEq, Eq, Structural)]
pub enum ErrorKind {
    InvalidInput,
    UnexpectedEof,
}

/// An error of the catalog rules: its kind and the message shown to the user.
#[derive(Debug)]
pub struct Error {
    pub kind: ErrorKind,
    pub message: String,
}

/// An invalid-input error with the given message.
pub fn invalid(message: String) -> (r: Error)
    ensures
        r.kind == ErrorKind::InvalidInput,
        r.message@ == message@,
{
    Error { kind: ErrorKind::InvalidInput, message }
}

/// An invalid-input error whose message is the literal `message`.
pub fn invalid_str(message: &str) -> (r: Error)
    ensures
        r.kind == ErrorKind::InvalidInput,
        r.message@ == message@,
{
    invalid(String::from_str(message))
}

/// The settings of one runtime: how to start it and where its models are.
#[derive(Debug)]
pub struct RuntimeConfig {
    pub executable: String,
    pub model_dirs: Vec<String>,
    pub working_dir: Option<String>,
}

/// The runtime settings as plain text.
pub struct RuntimeConfigView {
    pub executable: Seq<char>,
    pub model_dirs: Seq<Seq<char>>,
    pub working_dir: Option<Seq<char>>,
}

/// The text of an optional string.
pub open spec fn opt_view(s: Option<String>) -> Option<Seq<char>> {
    match s {
        Some(t) => Some(t@),
        None => None,
    }
}

/// The texts of a list of strings.
pub open spec fn strings_view(v: Seq<String>) -> Seq<Seq<char>> {
    v.map_values(|s: String| s@)
}

impl View for RuntimeConfig {
    type V = RuntimeConfigView;

    open spec fn view(&self) -> RuntimeConfigView {
        RuntimeConfigView {
            executable: self.executable@,
            model_dirs: strings_view(self.model_dirs@),
            working_dir: opt_view(self.working_dir),
        }
    }
}

/// The configured runtimes, at most one entry per runtime.
#[derive(Debug)]
pub struct Runtimes {
    pub dwarfstar: Option<RuntimeConfig>,
    pub llama_cpp: Option<RuntimeConfig>,
    pub omlx: Option<RuntimeConfig>,
}

/// A saved launch profile.
#[derive(Debug)]
pub struct Profile {
    pub id: String,
    pub name: String,
    pub runtime: Runtime,
    pub model: Option<String>,
    pub args: Vec<String>,
}

/// A launch profile as plain text.
pub struct ProfileView {
    pub id: Seq<char>,
    pub name: Seq<char>,
    pub runtime: Runtime,
    pub model: Option<Seq<char>>,
    pub args: Seq<Seq<char>>,
}

impl View for Profile {
    type V = ProfileView;

    open spec fn view(&self) -> ProfileView {
        ProfileView {
            id: self.id@,
            name: self.name@,
            runtime: self.runtime,
            model: opt_view(self.model),
            args: strings_view(self.args@),
        }
    }
}

/// The views of a list of profiles.
pub open spec fn profiles_view(v: Seq<Profile>) -> Seq<ProfileView> {
    v.map_values(|p: Profile| p@)
}

/// A whole catalog configuration.
#[derive(Debug)]
pub struct Config {
    pub runtimes: Runtimes,
    pub profiles: Vec<Profile>,
}

/// A catalog configuration as plain values.
pub struct ConfigView {
    pub dwarfstar: Option<RuntimeConfigView>,
    pub llama_cpp: Option<RuntimeConfigView>,
    pub omlx: Option<RuntimeConfigView>,
    pub profiles: Seq<ProfileView>,
}

/// The view of an optional runtime entry.
pub open spec fn entry_view(e: Option<RuntimeConfig>) -> Option<RuntimeConfigView> {
    match e {
        Some(c) => Some(c@),
        None => None,
    }
}

impl View for Config {
    type V = ConfigView;

    open spec fn view(&self) -> ConfigView {
        ConfigView {
            dwarfstar: entry_view(self.runtimes.dwarfstar),
            llama_cpp: entry_view(self.runtimes.llama_cpp),
            omlx: entry_view(self.runtimes.omlx),
            profiles: profiles_view(self.profiles@),
        }
    }
}

impl ConfigView {
    /// The settings of runtime `r`, if it is configured.
    pub open spec fn runtime(self, r: Runtime) -> Option<RuntimeConfigView> {
        match r {
            Runtime::Dwarfstar => self.dwarfstar,
            Runtime::LlamaCpp => self.llama_cpp,
            Runtime::Omlx => self.omlx,
        }
    }
}

impl Runtimes {
    /// The settings of runtime `r`, if it is configured.
    pub fn get(&self, r: Runtime) -> (e: &Option<RuntimeConfig>)
        ensures
            *e == match r {
                Runtime::Dwarfstar => self.dwarfstar,
                Runtime::LlamaCpp => self.llama_cpp,
                Runtime::Omlx => self.omlx,
            },
    {
        match r {
            Runtime::Dwarfstar => &self.dwarfstar,
            Runtime::LlamaCpp => &self.llama_cpp,
            Runtime::Omlx => &self.omlx,
        }
    }
}

/// The complaint about the entry of runtime `r`, if it has one.
pub open spec fn runtime_entry_error(r: Runtime, c: RuntimeConfigView) -> Option<Seq<char>> {
    if c.executable.len() == 0 {
        Some(runtime_name(r) + " requires an executable"@)
    } else if r == Runtime::Omlx && (c.model_dirs.len() > 0 || c.working_dir is Some) {
        Some("configure oMLX in oMLX; its runtime entry accepts only an executable"@)
    } else {
        None
    }
}

/// The complaint about an optional runtime entry.
pub open spec fn optional_entry_error(r: Runtime, e: Option<RuntimeConfigView>) -> Option<
    Seq<char>,
> {
    match e {
        Some(c) => runtime_entry_error(r, c),
        None => None,
    }
}

/// The first complaint about the runtime entries, in the order DwarfStar,
/// llama.cpp, oMLX.
pub open spec fn runtimes_error(c: ConfigView) -> Option<Seq<char>> {
    if optional_entry_error(Runtime::Dwarfstar, c.dwarfstar) is Some {
        optional_entry_error(Runtime::Dwarfstar, c.dwarfstar)
    } else if optional_entry_error(Runtime::LlamaCpp, c.llama_cpp) is Some {
        optional_entry_error(Runtime::LlamaCpp, c.llama_cpp)
    } else {
        optional_entry_error(Runtime::Omlx, c.omlx)
    }
}

/// Some profile of `ps` has the ID `id`.
pub open spec fn has_id(ps: Seq<ProfileView>, id: Seq<char>) -> bool {
    exists|j: int| 0 <= j < ps.len() && #[trigger] ps[j].id == id
}

/// Some profile of `ps` launches oMLX.
pub open spec fn has_omlx(ps: Seq<ProfileView>) -> bool {
    exists|j: int| 0 <= j < ps.len() && #[trigger] ps[j].runtime == Runtime::Omlx
}

/// The complaint about profile `p`, given the profiles before it.
pub open spec fn profile_error(earlier: Seq<ProfileView>, p: ProfileView, c: ConfigView) -> Option<
    Seq<char>,
> {
    if all_whitespace(p.id) || all_whitespace(p.name) {
        Some("profile IDs and names must not be empty"@)
    } else if has_id(earlier, p.id) {
        Some("duplicate profile ID '"@ + p.id + "'"@)
    } else if c.runtime(p.runtime) is None {
        Some("runtime not configured for profile '"@ + p.id + "'"@)
    } else if p.runtime == Runtime::Omlx {
        if p.model is Some || p.args.len() > 0 {
            Some("configure oMLX in oMLX; its launch profile cannot set a model or arguments"@)
        } else if has_omlx(earlier) {
            Some("oMLX has one configured-models launch profile"@)
        } else {
            None
        }
    } else if p.model is None || p.model->0.len() == 0 {
        Some("profile '"@ + p.id + "' requires a model path"@)
    } else {
        None
    }
}

/// The complaint about the first profile of `ps` that has one.
pub open spec fn profiles_error(ps: Seq<ProfileView>, c: ConfigView) -> Option<Seq<char>>
    decreases ps.len(),
{
    if ps.len() == 0 {
        None
    } else if profiles_error(ps.drop_last(), c) is Some {
        profiles_error(ps.drop_last(), c)
    } else {
        profile_error(ps.drop_last(), ps.last(), c)
    }
}

/// The complaint that validation reports about a configuration, if any.
pub open spec fn config_error(c: ConfigView) -> Option<Seq<char>> {
    if runtimes_error(c) is Some {
        runtimes_error(c)
    } else {
        profiles_error(c.profiles, c)
    }
}

/// The configuration `c` with `added` appended to its profiles.
pub open spec fn with_profiles(c: ConfigView, added: Seq<ProfileView>) -> ConfigView {
    ConfigView { profiles: c.profiles + added, ..c }
}

/// The configuration satisfies every catalog rule.
pub open spec fn config_valid(c: ConfigView) -> bool {
    config_error(c) is None
}

/// The settings entry of `r` has no complaint.
fn check_entry(r: Runtime, e: &Option<RuntimeConfig>) -> (res: Result<(), Error>)
    ensures
        match res {
            Ok(_) => optional_entry_error(r, entry_view(*e)) is None,
            Err(err) => err.kind == ErrorKind::InvalidInput && optional_entry_error(
                r,
                entry_view(*e),
            ) == Some(err.message@),
        },
{
    match e {
        None => Ok(()),
        Some(settings) => {
            if settings.executable.as_str().is_empty() {
                let mut m = String::from_str(r.name());
                m.append(" requires an executable");
                return Err(invalid(m));
            }
            if r == Runtime::Omlx && (settings.model_dirs.len() > 0
                || settings.working_dir.is_some()) {
                return Err(
                    invalid_str(
                        "configure oMLX in oMLX; its runtime entry accepts only an executable",
                    ),
                );
            }
            Ok(())
        },
    }
}

/// Whether some profile before index `end` has the ID `id`.
fn id_before(profiles: &Vec<Profile>, end: usize, id: &String) -> (r: bool)
    requires
        end <= profiles.len(),
    ensures
        r == has_id(profiles_view(profiles@).subrange(0, end as int), id@),
{
    let ghost ps = profiles_view(profiles@).subrange(0, end as int);
    let mut j: usize = 0;
    while j < end
        invariant
            end <= profiles.len(),
            j <= end,
            ps == profiles_view(profiles@).subrange(0, end as int),
            forall|k: int| 0 <= k < j ==> ps[k].id != id@,
        decreases end - j,
    {
        if profiles[j].id == *id {
            assert(ps[j as int].id == id@);
            return true;
        }
        j = j + 1;
    }
    false
}

/// Whether the text `s` is empty once trimmed.
fn blank(s: &String) -> (r: bool)
    ensures
        r == all_whitespace(s@),
{
    let cs = chars_of(s.as_str());
    let t = trim_chars(&cs);
    proof {
        lemma_trim_empty(s@);
    }
    t.len() == 0
}

proof fn lemma_profiles_error_step(ps: Seq<ProfileView>, i: int, c: ConfigView)
    requires
        0 <= i < ps.len(),
        profiles_error(ps.subrange(0, i), c) is None,
    ensures
        profiles_error(ps.subrange(0, i + 1), c) == profile_error(ps.subrange(0, i), ps[i], c),
{
    let t = ps.subrange(0, i + 1);
    assert(t.drop_last() =~= ps.subrange(0, i));
}

/// Once a prefix of the profiles has a complaint, the whole list reports it.
proof fn lemma_profiles_error_extends(ps: Seq<ProfileView>, k: int, c: ConfigView)
    requires
        0 <= k <= ps.len(),
        profiles_error(ps.subrange(0, k), c) is Some,
    ensures
        profiles_error(ps, c) == profiles_error(ps.subrange(0, k), c),
    decreases ps.len() - k,
{
    if k == ps.len() {
        assert(ps.subrange(0, k) =~= ps);
    } else {
        let d = ps.drop_last();
        assert(d.subrange(0, k) =~= ps.subrange(0, k));
        lemma_profiles_error_extends(d, k, c);
    }
}

impl Config {
    /// Checks the catalog rules: every runtime entry names an executable and
    /// oMLX's entry holds nothing else; profile IDs and names are not blank;
    /// IDs are unique; each profile's runtime is configured; the single oMLX
    /// profile sets no model or arguments; every other profile names a model.
    pub fn validate(&self) -> (r: Result<(), Error>)
        ensures
            r is Ok <==> config_valid(self@),
            r matches Err(e) ==> e.kind == ErrorKind::InvalidInput && config_error(self@) == Some(
                e.message@,
            ),
    {
        let ghost c = self@;
        check_entry(Runtime::Dwarfstar, &self.runtimes.dwarfstar)?;
        check_entry(Runtime::LlamaCpp, &self.runtimes.llama_cpp)?;
        check_entry(Runtime::Omlx, &self.runtimes.omlx)?;
        assert(runtimes_error(c) is None);
        let ghost ps = profiles_view(self.profiles@);
        let mut omlx_seen = false;
        let mut i: usize = 0;
        assert(ps.subrange(0, 0) =~= Seq::<ProfileView>::empty());
        while i < self.profiles.len()
            invariant
                c == self@,
                ps == c.profiles,
                ps.len() == self.profiles.len(),
                runtimes_error(c) is None,
                i <= self.profiles.len(),
                profiles_error(ps.subrange(0, i as int), c) is None,
                omlx_seen == has_omlx(ps.subrange(0, i as int)),
            decreases self.profiles.len() - i,
        {
            let profile = &self.profiles[i];
            let ghost earlier = ps.subrange(0, i as int);
            assert(ps[i as int] == profile@);
            proof {
                lemma_profiles_error_step(ps, i as int, c);
                if profile_error(earlier, ps[i as int], c) is Some {
                    lemma_profiles_error_extends(ps, i + 1, c);
                }
            }
            if blank(&profile.id) || blank(&profile.name) {
                return Err(invalid_str("profile IDs and names must not be empty"));
            }
            if id_before(&self.profiles, i, &profile.id) {
                let mut m = String::from_str("duplicate profile ID '");
                m.append(profile.id.as_str());
                m.append("'");
                return Err(invalid(m));
            }
            if self.runtimes.get(profile.runtime).is_none() {
                let mut m = String::from_str("runtime not configured for profile '");
                m.append(profile.id.as_str());
                m.append("'");
                return Err(invalid(m));
            }
            if profile.runtime == Runtime::Omlx {
                if profile.model.is_some() || profile.args.len() > 0 {
                    return Err(
                        invalid_str(
                            "configure oMLX in oMLX; its launch profile cannot set a model or arguments",
                        ),
                    );
                }
                if omlx_seen {
                    return Err(invalid_str("oMLX has one configured-models launch profile"));
                }
                omlx_seen = true;
            } else {
                let missing = match &profile.model {
                    None => true,
                    Some(m) => m.as_str().is_empty(),
                };
                if missing {
                    let mut m = String::from_str("profile '");
                    m.append(profile.id.as_str());
                    m.append("' requires a model path");
                    return Err(invalid(m));
                }
            }
            proof {
                let next = ps.subrange(0, i + 1);
                assert(next.drop_last() =~= earlier);
                if profile.runtime == Runtime::Omlx {
                    assert(next[i as int].runtime == Runtime::Omlx);
                } else {
                    assert forall|j: int| 0 <= j < next.len() && #[trigger] next[j].runtime
                        == Runtime::Omlx implies has_omlx(earlier) by {
                        assert(earlier[j] == next[j]);
                    }
                    if has_omlx(earlier) {
                        let j = choose|j: int|
                            0 <= j < earlier.len() && #[trigger] earlier[j].runtime
                                == Runtime::Omlx;
                        assert(next[j] == earlier[j]);
                    }
                }
            }
            i = i + 1;
        }
        assert(ps.subrange(0, ps.len() as int) =~= ps);
        Ok(())
    }
}

/// Every profile of `ps` satisfies the per-profile rules.
pub open spec fn profiles_sound(ps: Seq<ProfileView>, c: ConfigView) -> bool {
    &&& forall|i: int, j: int| 0 <= i < j < ps.len() ==> ps[i].id != ps[j].id
    &&& forall|i: int, j: int|
        0 <= i < j < ps.len() ==> !(ps[i].runtime == Runtime::Omlx && ps[j].runtime
            == Runtime::Omlx)
    &&& forall|i: int|
        0 <= i < ps.len() ==> {
            let p = #[trigger] ps[i];
            &&& !all_whitespace(p.id)
            &&& !all_whitespace(p.name)
            &&& c.runtime(p.runtime) is Some
            &&& p.runtime == Runtime::Omlx ==> p.model is None && p.args.len() == 0
            &&& p.runtime != Runtime::Omlx ==> (p.model matches Some(m) && m.len() > 0)
        }
}

proof fn lemma_profiles_sound(ps: Seq<ProfileView>, c: ConfigView)
    requires
        profiles_error(ps, c) is None,
    ensures
        profiles_sound(ps, c),
    decreases ps.len(),
{
    if ps.len() > 0 {
        let d = ps.drop_last();
        lemma_profiles_sound(d, c);
        let n = ps.len() - 1;
        assert forall|i: int| 0 <= i < n implies #[trigger] ps[i] == d[i] by {}
        assert forall|i: int, j: int| 0 <= i < j < ps.len() implies ps[i].id != ps[j].id by {
            if j == n {
                assert(d[i].id == ps[i].id);
                if ps[i].id == ps[j].id {
                    assert(has_id(d, ps.last().id));
                }
            } else {
                assert(ps[i] == d[i] && ps[j] == d[j]);
            }
        }
        assert forall|i: int, j: int| 0 <= i < j < ps.len() implies !(ps[i].runtime
            == Runtime::Omlx && ps[j].runtime == Runtime::Omlx) by {
            if j == n {
                if ps[i].runtime == Runtime::Omlx && ps[j].runtime == Runtime::Omlx {
                    assert(d[i].runtime == Runtime::Omlx);
                    assert(has_omlx(d));
                }
            } else {
                assert(ps[i] == d[i] && ps[j] == d[j]);
            }
        }
    }
}

/// The rules a valid configuration satisfies: profile IDs are unique and
/// not blank, names are not blank, every profile's runtime is configured,
/// there is at most one oMLX profile and it sets no model or arguments,
/// every other profile names a model; every configured runtime names an
/// executable, and oMLX's entry holds nothing more.
pub proof fn lemma_valid_config(c: ConfigView)
    requires
        config_valid(c),
    ensures
        profiles_sound(c.profiles, c),
        forall|r: Runtime| #[trigger] c.runtime(r) is Some ==> c.runtime(r)->0.executable.len() > 0,
        c.omlx matches Some(s) ==> s.model_dirs.len() == 0 && s.working_dir is None,
{
    lemma_profiles_sound(c.profiles, c);
    assert forall|r: Runtime| #[trigger] c.runtime(r) is Some implies c.runtime(r)->0.executable.len()
        > 0 by {
        match r {
            Runtime::Dwarfstar => {},
            Runtime::LlamaCpp => {},
            Runtime::Omlx => {},
        }
    }
}

proof fn lemma_sound_profiles_pass(ps: Seq<ProfileView>, c: ConfigView)
    requires
        profiles_sound(ps, c),
    ensures
        profiles_error(ps, c) is None,
    decreases ps.len(),
{
    if ps.len() > 0 {
        let d = ps.drop_last();
        let n = ps.len() - 1;
        assert forall|i: int| 0 <= i < n implies #[trigger] d[i] == ps[i] by {}
        assert(profiles_sound(d, c)) by {
            assert forall|i: int, j: int| 0 <= i < j < d.len() implies d[i].id != d[j].id by {
                assert(d[i] == ps[i] && d[j] == ps[j]);
            }
            assert forall|i: int, j: int| 0 <= i < j < d.len() implies !(d[i].runtime
                == Runtime::Omlx && d[j].runtime == Runtime::Omlx) by {
                assert(d[i] == ps[i] && d[j] == ps[j]);
            }
            assert forall|i: int| 0 <= i < d.len() implies {
                let p = #[trigger] d[i];
                &&& !all_whitespace(p.id)
                &&& !all_whitespace(p.name)
                &&& c.runtime(p.runtime) is Some
                &&& p.runtime == Runtime::Omlx ==> p.model is None && p.args.len() == 0
                &&& p.runtime != Runtime::Omlx ==> (p.model matches Some(m) && m.len() > 0)
            } by {
                assert(d[i] == ps[i]);
            }
        }
        lemma_sound_profiles_pass(d, c);
        let last = ps[n];
        assert(ps.last() == last);
        if has_id(d, last.id) {
            let j = choose|j: int| 0 <= j < d.len() && #[trigger] d[j].id == last.id;
            assert(ps[j].id == ps[n].id);
        }
        if last.runtime == Runtime::Omlx && has_omlx(d) {
            let j = choose|j: int| 0 <= j < d.len() && #[trigger] d[j].runtime == Runtime::Omlx;
            assert(ps[j].runtime == Runtime::Omlx);
        }
    }
}

/// Any configuration that follows the catalog's rules is valid: each
/// configured runtime names an executable, oMLX's entry holds nothing more
/// (DwarfStar's and llama.cpp's may also set model directories and a working
/// directory), and the profiles are sound. With `lemma_valid_config`, these
/// rules are exactly what validation checks.
pub proof fn lemma_rules_make_config_valid(c: ConfigView)
    requires
        forall|r: Runtime| #[trigger] c.runtime(r) is Some ==> c.runtime(r)->0.executable.len() > 0,
        c.omlx matches Some(s) ==> s.model_dirs.len() == 0 && s.working_dir is None,
        profiles_sound(c.profiles, c),
    ensures
        config_valid(c),
{
    assert(c.runtime(Runtime::Dwarfstar) == c.dwarfstar);
    assert(c.runtime(Runtime::LlamaCpp) == c.llama_cpp);
    assert(c.runtime(Runtime::Omlx) == c.omlx);
    lemma_sound_profiles_pass(c.profiles, c);
}

/// The entry of DwarfStar or llama.cpp draws no complaint once it names an
/// executable, whatever its model directories and working directory.
pub proof fn lemma_per_model_entry_accepted(r: Runtime, s: RuntimeConfigView)
    requires
        r != Runtime::Omlx,
        s.executable.len() > 0,
    ensures
        runtime_entry_error(r, s) is None,
{
}

} // verus!
