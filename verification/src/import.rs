//! Planning an import: which launch profiles a scan of the model sources adds
//! to a catalog, and with which IDs.

use vstd::prelude::*;

use crate::catalog::{
    has_omlx, invalid_str, profiles_view, runtime_key, strings_view, Config, ConfigView, Error,
    ErrorKind, Profile, ProfileView, Runtime,
};
use crate::found::{found_order, order_found};
use crate::models::{slug, slug_of};
use crate::paths::{file_stem, path_file_stem};
use crate::text::{chars_of, decimal, lemma_decimal_injective, push_decimal, string_from};

verus! {

broadcast use vstd::seq_lib::group_seq_properties;

/// The `k`-th ID tried for a new profile whose ID starts with `stem`:
/// `stem` itself first, then `stem-2`, `stem-3`, and so on.
pub open spec fn candidate(stem: Seq<char>, k: nat) -> Seq<char> {
    if k < 2 {
        stem
    } else {
        stem + seq!['-'] + decimal(k)
    }
}

/// `k` is the first try whose candidate is not among `ids`.
pub open spec fn first_free(stem: Seq<char>, ids: Seq<Seq<char>>, k: nat) -> bool {
    &&& k >= 1
    &&& !ids.contains(candidate(stem, k))
    &&& forall|j: nat| 1 <= j < k ==> ids.contains(#[trigger] candidate(stem, j))
}

/// The ID that import gives a new profile whose ID starts with `stem`, when
/// the catalog already uses `ids`.
pub open spec fn fresh_id(stem: Seq<char>, ids: Seq<Seq<char>>) -> Seq<char> {
    candidate(stem, choose|k: nat| first_free(stem, ids, k))
}

/// Different tries give different candidates.
pub proof fn lemma_candidate_injective(stem: Seq<char>, a: nat, b: nat)
    requires
        a >= 1,
        b >= 1,
        candidate(stem, a) == candidate(stem, b),
    ensures
        a == b,
{
    if a >= 2 && b >= 2 {
        let ca = candidate(stem, a);
        let cb = candidate(stem, b);
        assert(ca.subrange(stem.len() as int + 1, ca.len() as int) =~= decimal(a));
        assert(cb.subrange(stem.len() as int + 1, cb.len() as int) =~= decimal(b));
        lemma_decimal_injective(a, b);
    } else if a >= 2 {
        assert(candidate(stem, a).len() > stem.len());
    } else if b >= 2 {
        assert(candidate(stem, b).len() > stem.len());
    }
}

proof fn lemma_first_free_unique(stem: Seq<char>, ids: Seq<Seq<char>>, k: nat)
    requires
        first_free(stem, ids, k),
    ensures
        fresh_id(stem, ids) == candidate(stem, k),
{
    let c = choose|j: nat| first_free(stem, ids, j);
    assert(first_free(stem, ids, c));
    if c < k {
        assert(ids.contains(candidate(stem, c)));
    } else if c > k {
        assert(ids.contains(candidate(stem, k)));
    }
}

/// Whether the text `s` is one of `v`.
pub fn contains_string(v: &Vec<String>, s: &String) -> (r: bool)
    ensures
        r == strings_view(v@).contains(s@),
{
    let ghost sv = strings_view(v@);
    let mut i: usize = 0;
    while i < v.len()
        invariant
            sv == strings_view(v@),
            i <= v.len(),
            forall|j: int| 0 <= j < i ==> sv[j] != s@,
        decreases v.len() - i,
    {
        if v[i] == *s {
            assert(sv[i as int] == s@);
            return true;
        }
        i = i + 1;
    }
    false
}

/// The first candidate ID for `stem` that `ids` does not hold.
pub fn unique_id(ids: &Vec<String>, stem: &String) -> (r: String)
    ensures
        r@ == fresh_id(stem@, strings_view(ids@)),
        !strings_view(ids@).contains(r@),
{
    let ghost sv = strings_view(ids@);
    let ghost all = sv.to_set();
    let mut id = stem.clone();
    let mut suffix: u128 = 2;
    let ghost mut seen: Set<Seq<char>> = Set::empty();
    proof {
        vstd::seq_lib::seq_to_set_is_finite(sv);
        sv.lemma_cardinality_of_set();
    }
    while contains_string(ids, &id)
        invariant
            sv == strings_view(ids@),
            all == sv.to_set(),
            all.finite(),
            all.len() <= ids.len(),
            suffix >= 2,
            id@ == candidate(stem@, (suffix - 1) as nat),
            forall|j: nat| 1 <= j < suffix - 1 ==> sv.contains(#[trigger] candidate(stem@, j)),
            seen.subset_of(all),
            seen.finite(),
            seen.len() == suffix - 2,
            forall|x: Seq<char>|
                seen.contains(x) ==> exists|j: nat| 1 <= j < suffix - 1 && x == candidate(stem@, j),
        decreases all.len() - seen.len(),
    {
        proof {
            let k = (suffix - 1) as nat;
            assert(all.contains(candidate(stem@, k)));
            if seen.contains(candidate(stem@, k)) {
                let j = choose|j: nat| 1 <= j < suffix - 1 && candidate(stem@, k) == candidate(stem@, j);
                lemma_candidate_injective(stem@, k, j);
            }
            seen = seen.insert(candidate(stem@, k));
            vstd::set_lib::lemma_len_subset(seen, all);
        }
        let mut cs = chars_of(stem.as_str());
        cs.push('-');
        push_decimal(suffix, &mut cs);
        id = string_from(&cs);
        assert(id@ =~= candidate(stem@, suffix as nat));
        suffix = suffix + 1;
    }
    proof {
        lemma_first_free_unique(stem@, sv, (suffix - 1) as nat);
    }
    id
}

/// The state of an import while it runs: the IDs in use, the pairs of
/// runtime and model path already represented, and the profiles added so far.
pub struct PlanState {
    pub ids: Seq<Seq<char>>,
    pub represented: Seq<(Runtime, Seq<char>)>,
    pub additions: Seq<ProfileView>,
}

/// The start of the IDs of profiles imported for `r`: its catalog key with
/// `_` replaced by `-`.
pub open spec fn id_prefix(r: Runtime) -> Seq<char> {
    runtime_key(r).map_values(|c: char| if c == '_' { '-' } else { c })
}

/// The profile that import adds for the model at `path`.
pub open spec fn model_profile(id: Seq<char>, name: Seq<char>, r: Runtime, path: Seq<char>) -> ProfileView {
    ProfileView { id, name, runtime: r, model: Some(path), args: seq![] }
}

/// The display name of the single oMLX profile.
pub open spec fn omlx_profile_name() -> Seq<char> {
    "oMLX — configured models"@
}

/// The oMLX profile that import adds, with the given ID.
pub open spec fn omlx_profile(id: Seq<char>) -> ProfileView {
    ProfileView {
        id,
        name: omlx_profile_name(),
        runtime: Runtime::Omlx,
        model: None,
        args: seq![],
    }
}

/// Import meets the model at `path` for runtime `r`: a model already
/// represented for `r` is skipped; any other becomes a profile named after
/// its file stem. `None` when the path has no file stem.
pub open spec fn model_step(st: PlanState, r: Runtime, path: Seq<char>) -> Option<PlanState> {
    if st.represented.contains((r, path)) {
        Some(st)
    } else {
        match path_file_stem(path) {
            None => None,
            Some(name) => {
                let id = fresh_id(id_prefix(r) + "-"@ + slug_of(name), st.ids);
                Some(
                    PlanState {
                        ids: st.ids.push(id),
                        represented: st.represented.push((r, path)),
                        additions: st.additions.push(model_profile(id, name, r, path)),
                    },
                )
            },
        }
    }
}

/// Import meets the models `models` of runtime `r`, in order.
pub open spec fn models_fold(st: PlanState, r: Runtime, models: Seq<Seq<char>>) -> Option<PlanState>
    decreases models.len(),
{
    if models.len() == 0 {
        Some(st)
    } else {
        match models_fold(st, r, models.drop_last()) {
            None => None,
            Some(s) => model_step(s, r, models.last()),
        }
    }
}

/// Import handles runtime `r` of the configuration `c`: nothing for an
/// unconfigured runtime; for oMLX, its single profile when the catalog has
/// none; otherwise one profile per newly found model.
pub open spec fn runtime_step(st: PlanState, c: ConfigView, r: Runtime, models: Seq<Seq<char>>) -> Option<
    PlanState,
> {
    if c.runtime(r) is None {
        Some(st)
    } else if r == Runtime::Omlx {
        if has_omlx(c.profiles) {
            Some(st)
        } else {
            let id = fresh_id("omlx"@, st.ids);
            Some(
                PlanState {
                    ids: st.ids.push(id),
                    represented: st.represented,
                    additions: st.additions.push(omlx_profile(id)),
                },
            )
        }
    } else {
        models_fold(st, r, models)
    }
}

/// The IDs of a list of profiles.
pub open spec fn ids_of(ps: Seq<ProfileView>) -> Seq<Seq<char>> {
    ps.map_values(|p: ProfileView| p.id)
}

/// The state an import starts from.
pub open spec fn initial_state(c: ConfigView, represented: Seq<(Runtime, Seq<char>)>) -> PlanState {
    PlanState { ids: ids_of(c.profiles), represented, additions: seq![] }
}

/// The whole import: DwarfStar, llama.cpp, then oMLX, given the pairs of
/// runtime and model identity the catalog already represents and the models
/// found in each runtime's sources. `None` when a found model has no file
/// stem.
pub open spec fn plan(
    c: ConfigView,
    represented: Seq<(Runtime, Seq<char>)>,
    dwarfstar_models: Seq<Seq<char>>,
    llama_cpp_models: Seq<Seq<char>>,
) -> Option<PlanState> {
    match runtime_step(initial_state(c, represented), c, Runtime::Dwarfstar, dwarfstar_models) {
        None => None,
        Some(s1) => match runtime_step(s1, c, Runtime::LlamaCpp, llama_cpp_models) {
            None => None,
            Some(s2) => runtime_step(s2, c, Runtime::Omlx, seq![]),
        },
    }
}

/// Every profile of `adds` that names a model names a non-empty path.
pub open spec fn models_nonempty(adds: Seq<ProfileView>) -> bool {
    forall|i: int| 0 <= i < adds.len() ==> ((#[trigger] adds[i]).model matches Some(m) ==> m.len() > 0)
}

/// The texts of pairs of runtime and path.
pub open spec fn pairs_view(v: Seq<(Runtime, String)>) -> Seq<(Runtime, Seq<char>)> {
    v.map_values(|p: (Runtime, String)| (p.0, p.1@))
}

/// The models that a scan found in the sources of each runtime, in any
/// order. Import takes each list in `Path`'s order, each path once
/// (`found_order`), as a set of paths holds them.
#[derive(Debug)]
pub struct Discovered {
    pub dwarfstar: Vec<String>,
    pub llama_cpp: Vec<String>,
}

/// An import in progress.
pub struct Plan {
    pub ids: Vec<String>,
    pub represented: Vec<(Runtime, String)>,
    pub additions: Vec<Profile>,
}

impl View for Plan {
    type V = PlanState;

    open spec fn view(&self) -> PlanState {
        PlanState {
            ids: strings_view(self.ids@),
            represented: pairs_view(self.represented@),
            additions: profiles_view(self.additions@),
        }
    }
}

/// Whether `(r, s)` is among the pairs `v`.
pub fn contains_pair(v: &Vec<(Runtime, String)>, r: Runtime, s: &String) -> (res: bool)
    ensures
        res == pairs_view(v@).contains((r, s@)),
{
    let ghost pv = pairs_view(v@);
    let mut i: usize = 0;
    while i < v.len()
        invariant
            pv == pairs_view(v@),
            i <= v.len(),
            forall|j: int| 0 <= j < i ==> pv[j] != (r, s@),
        decreases v.len() - i,
    {
        if v[i].0 == r && v[i].1 == *s {
            assert(pv[i as int] == (r, s@));
            return true;
        }
        i = i + 1;
    }
    false
}

/// The ID prefix of profiles imported for `r`.
pub fn id_prefix_of(r: Runtime) -> (res: String)
    ensures
        res@ == id_prefix(r),
{
    let key = chars_of(r.key());
    let mut out: Vec<char> = Vec::new();
    let mut i: usize = 0;
    while i < key.len()
        invariant
            i <= key.len(),
            key@ == runtime_key(r),
            out@ == runtime_key(r).subrange(0, i as int).map_values(
                |c: char| if c == '_' { '-' } else { c },
            ),
        decreases key.len() - i,
    {
        let c = key[i];
        if c == '_' {
            out.push('-');
        } else {
            out.push(c);
        }
        i = i + 1;
        assert(out@ =~= runtime_key(r).subrange(0, i as int).map_values(
            |c: char| if c == '_' { '-' } else { c },
        ));
    }
    assert(runtime_key(r).subrange(0, key.len() as int) =~= runtime_key(r));
    string_from(&out)
}

proof fn lemma_models_fold_none_extends(st: PlanState, r: Runtime, models: Seq<Seq<char>>, k: int)
    requires
        0 <= k <= models.len(),
        models_fold(st, r, models.subrange(0, k)) is None,
    ensures
        models_fold(st, r, models) is None,
    decreases models.len() - k,
{
    if k == models.len() {
        assert(models.subrange(0, k) =~= models);
    } else {
        let d = models.drop_last();
        assert(d.subrange(0, k) =~= models.subrange(0, k));
        lemma_models_fold_none_extends(st, r, d, k);
    }
}

impl Plan {
    /// Import meets the model at `path` for runtime `r`.
    pub fn add_model(&mut self, r: Runtime, path: &String) -> (res: Result<(), Error>)
        ensures
            match model_step(old(self)@, r, path@) {
                Some(st) => res is Ok && final(self)@ == st,
                None => res matches Err(e) && e.kind == ErrorKind::InvalidInput && e.message@
                    == "model has no file name"@,
            },
            res is Ok && models_nonempty(old(self)@.additions) ==> models_nonempty(
                final(self)@.additions,
            ),
    {
        if contains_pair(&self.represented, r, path) {
            return Ok(());
        }
        let name = match file_stem(path.as_str()) {
            Some(n) => n,
            None => {
                return Err(invalid_str("model has no file name"));
            },
        };
        let mut stem = id_prefix_of(r);
        stem.append("-");
        let s = slug(name.as_str());
        stem.append(s.as_str());
        let id = unique_id(&self.ids, &stem);
        self.ids.push(id.clone());
        self.represented.push((r, path.clone()));
        self.additions.push(
            Profile { id, name, runtime: r, model: Some(path.clone()), args: Vec::new() },
        );
        proof {
            let st = model_step(old(self)@, r, path@)->0;
            assert(self@.ids =~= st.ids);
            assert(self@.represented =~= st.represented);
            assert(profiles_view(self.additions@).last().args =~= Seq::<Seq<char>>::empty());
            assert(self@.additions =~= st.additions);
            if models_nonempty(old(self)@.additions) {
                assert(path@.len() > 0);
                assert forall|i: int| 0 <= i < self@.additions.len() implies ((#[trigger] self@.additions[i]).model matches Some(m) ==> m.len() > 0) by {
                    if i < old(self)@.additions.len() {
                        assert(self@.additions[i] == old(self)@.additions[i]);
                    }
                }
            }
        }
        Ok(())
    }

    /// Import meets the models `models` of runtime `r`, in order.
    pub fn add_models(&mut self, r: Runtime, models: &Vec<String>) -> (res: Result<(), Error>)
        ensures
            match models_fold(old(self)@, r, strings_view(models@)) {
                Some(st) => res is Ok && final(self)@ == st,
                None => res matches Err(e) && e.kind == ErrorKind::InvalidInput && e.message@
                    == "model has no file name"@,
            },
            res is Ok && models_nonempty(old(self)@.additions) ==> models_nonempty(
                final(self)@.additions,
            ),
    {
        let ghost start = self@;
        let ghost ms = strings_view(models@);
        let mut i: usize = 0;
        assert(ms.subrange(0, 0) =~= Seq::<Seq<char>>::empty());
        while i < models.len()
            invariant
                start == old(self)@,
                ms == strings_view(models@),
                i <= models.len(),
                models_fold(start, r, ms.subrange(0, i as int)) == Some(self@),
                models_nonempty(start.additions) ==> models_nonempty(self@.additions),
            decreases models.len() - i,
        {
            let ghost next = ms.subrange(0, i + 1);
            assert(next.drop_last() =~= ms.subrange(0, i as int));
            assert(next.last() == models@[i as int]@);
            let ghost before = self@;
            let step = self.add_model(r, &models[i]);
            match step {
                Err(e) => {
                    proof {
                        assert(model_step(before, r, models@[i as int]@) is None);
                        assert(models_fold(start, r, next) is None);
                        lemma_models_fold_none_extends(start, r, ms, i + 1);
                    }
                    return Err(e);
                },
                Ok(_) => {},
            }
            i = i + 1;
        }
        assert(ms.subrange(0, ms.len() as int) =~= ms);
        Ok(())
    }
}

/// The profiles that importing into `config` adds: the oMLX profile when
/// oMLX is configured and has none, and a profile for every found model of
/// a configured runtime whose runtime and model are not yet represented.
pub fn plan_import(config: &Config, represented: &Vec<(Runtime, String)>, discovered: &Discovered) -> (r:
    Result<Vec<Profile>, Error>)
    ensures
        match plan(
            config@,
            pairs_view(represented@),
            found_order(strings_view(discovered.dwarfstar@)),
            found_order(strings_view(discovered.llama_cpp@)),
        ) {
            Some(st) => r matches Ok(adds) && profiles_view(adds@) == st.additions,
            None => r matches Err(e) && e.kind == ErrorKind::InvalidInput && e.message@
                == "model has no file name"@,
        },
        r matches Ok(adds) ==> models_nonempty(profiles_view(adds@)),
{
    let ghost c = config@;
    let mut ids: Vec<String> = Vec::new();
    let mut i: usize = 0;
    while i < config.profiles.len()
        invariant
            c == config@,
            i <= config.profiles.len(),
            strings_view(ids@) == ids_of(c.profiles).subrange(0, i as int),
        decreases config.profiles.len() - i,
    {
        let ghost before = ids@;
        ids.push(config.profiles[i].id.clone());
        proof {
            assert(ids_of(c.profiles)[i as int] == config.profiles@[i as int].id@);
            assert(ids@ == before.push(config.profiles@[i as int].id));
            assert(strings_view(ids@) =~= strings_view(before).push(config.profiles@[i as int].id@));
            assert(ids_of(c.profiles).subrange(0, i + 1) =~= ids_of(c.profiles).subrange(0, i as int).push(ids_of(c.profiles)[i as int]));
        }
        i = i + 1;
    }
    assert(ids_of(c.profiles).subrange(0, config.profiles.len() as int) =~= ids_of(c.profiles));
    let mut rep: Vec<(Runtime, String)> = Vec::new();
    let mut j: usize = 0;
    while j < represented.len()
        invariant
            j <= represented.len(),
            pairs_view(rep@) == pairs_view(represented@).subrange(0, j as int),
        decreases represented.len() - j,
    {
        let ghost before = rep@;
        let item = (represented[j].0, represented[j].1.clone());
        rep.push(item);
        proof {
            assert(pairs_view(represented@)[j as int] == (represented@[j as int].0, represented@[j as int].1@));
            assert(pairs_view(rep@) =~= pairs_view(before).push((item.0, item.1@)));
            assert(pairs_view(represented@).subrange(0, j + 1) =~= pairs_view(represented@).subrange(0, j as int).push(pairs_view(represented@)[j as int]));
        }
        j = j + 1;
    }
    assert(pairs_view(represented@).subrange(0, represented.len() as int) =~= pairs_view(
        represented@,
    ));
    let mut p = Plan { ids, represented: rep, additions: Vec::new() };
    assert(p@.additions =~= Seq::<ProfileView>::empty());
    if config.runtimes.dwarfstar.is_some() {
        p.add_models(Runtime::Dwarfstar, &order_found(&discovered.dwarfstar))?;
    }
    if config.runtimes.llama_cpp.is_some() {
        p.add_models(Runtime::LlamaCpp, &order_found(&discovered.llama_cpp))?;
    }
    if config.runtimes.omlx.is_some() {
        let mut seen = false;
        let mut k: usize = 0;
        while k < config.profiles.len()
            invariant
                c == config@,
                k <= config.profiles.len(),
                seen == has_omlx(c.profiles.subrange(0, k as int)),
            decreases config.profiles.len() - k,
        {
            if config.profiles[k].runtime == Runtime::Omlx {
                seen = true;
                assert(c.profiles.subrange(0, k + 1)[k as int].runtime == Runtime::Omlx);
            } else {
                assert forall|j: int|
                    0 <= j < k + 1 && #[trigger] c.profiles.subrange(0, k + 1)[j].runtime
                        == Runtime::Omlx implies j < k by {}
                proof {
                    if seen {
                        let w = choose|j: int|
                            0 <= j < k && #[trigger] c.profiles.subrange(0, k as int)[j].runtime
                                == Runtime::Omlx;
                        assert(c.profiles.subrange(0, k + 1)[w] == c.profiles.subrange(
                            0,
                            k as int,
                        )[w]);
                    }
                }
            }
            k = k + 1;
        }
        assert(c.profiles.subrange(0, config.profiles.len() as int) =~= c.profiles);
        if !seen {
            let ghost old_adds = p@.additions;
            let stem = String::from_str("omlx");
            let id = unique_id(&p.ids, &stem);
            p.ids.push(id.clone());
            p.additions.push(
                Profile {
                    id,
                    name: String::from_str("oMLX — configured models"),
                    runtime: Runtime::Omlx,
                    model: None,
                    args: Vec::new(),
                },
            );
            assert(profiles_view(p.additions@).last().args =~= Seq::<Seq<char>>::empty());
            assert forall|i: int| 0 <= i < p@.additions.len() implies ((#[trigger] p@.additions[i]).model matches Some(m) ==> m.len() > 0) by {
                if i < p@.additions.len() - 1 {
                    assert(p@.additions[i] == old_adds[i]);
                }
            }
        }
    }
    Ok(p.additions)
}

} // verus!
