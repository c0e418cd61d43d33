//! Laws of import: what every import keeps, and what importing twice gives.

use vstd::prelude::*;

use crate::catalog::{
    config_valid, has_id, with_profiles, has_omlx, profile_error, profiles_error, runtimes_error, ConfigView,
    ProfileView, Runtime,
};
use crate::import::{
    candidate, first_free, fresh_id, id_prefix, initial_state, lemma_candidate_injective,
    model_profile, model_step, models_fold, omlx_profile, omlx_profile_name, plan, runtime_step,
    ids_of, PlanState,
};
use crate::models::slug_of;
use crate::paths::path_file_stem;
use crate::text::{all_whitespace, is_whitespace};

verus! {

broadcast use vstd::seq_lib::group_seq_properties;

proof fn lemma_first_free_search(
    stem: Seq<char>,
    ids: Seq<Seq<char>>,
    k: nat,
    seen: Set<Seq<char>>,
)
    requires
        k >= 1,
        forall|j: nat| 1 <= j < k ==> ids.contains(#[trigger] candidate(stem, j)),
        seen.subset_of(ids.to_set()),
        seen.finite(),
        seen.len() == k - 1,
        forall|x: Seq<char>|
            seen.contains(x) ==> exists|j: nat| 1 <= j < k && x == candidate(stem, j),
    ensures
        exists|m: nat| first_free(stem, ids, m),
    decreases ids.to_set().len() - seen.len(),
{
    vstd::seq_lib::seq_to_set_is_finite(ids);
    vstd::set_lib::lemma_len_subset(seen, ids.to_set());
    if !ids.contains(candidate(stem, k)) {
        assert(first_free(stem, ids, k));
    } else {
        if seen.contains(candidate(stem, k)) {
            let j = choose|j: nat| 1 <= j < k && candidate(stem, k) == candidate(stem, j);
            lemma_candidate_injective(stem, k, j);
        }
        let s2 = seen.insert(candidate(stem, k));
        assert(ids.to_set().contains(candidate(stem, k)));
        vstd::set_lib::lemma_len_subset(s2, ids.to_set());
        assert forall|x: Seq<char>| s2.contains(x) implies exists|j: nat|
            1 <= j < k + 1 && x == candidate(stem, j) by {
            if x != candidate(stem, k) {
                let j = choose|j: nat| 1 <= j < k && x == candidate(stem, j);
                assert(1 <= j < k + 1 && x == candidate(stem, j));
            }
        }
        lemma_first_free_search(stem, ids, k + 1, s2);
    }
}

/// The ID import gives a new profile is not yet in use, and it starts with
/// the stem it was made from.
pub proof fn lemma_fresh_id(stem: Seq<char>, ids: Seq<Seq<char>>)
    ensures
        !ids.contains(fresh_id(stem, ids)),
        stem.len() > 0 ==> fresh_id(stem, ids).len() > 0 && fresh_id(stem, ids)[0] == stem[0],
{
    lemma_first_free_search(stem, ids, 1, Set::empty());
    let k = choose|k: nat| first_free(stem, ids, k);
    assert(first_free(stem, ids, k));
}

/// A list of profiles passes validation and its IDs are `ids`.
pub open spec fn extends_validly(c: ConfigView, ps: Seq<ProfileView>, ids: Seq<Seq<char>>) -> bool {
    &&& profiles_error(ps, c) is None
    &&& ids == ids_of(ps)
}

proof fn lemma_push_profile(c: ConfigView, ps: Seq<ProfileView>, p: ProfileView)
    requires
        profiles_error(ps, c) is None,
        profile_error(ps, p, c) is None,
    ensures
        profiles_error(ps.push(p), c) is None,
{
    assert(ps.push(p).drop_last() =~= ps);
}

proof fn lemma_ids_push(ps: Seq<ProfileView>, p: ProfileView)
    ensures
        ids_of(ps.push(p)) == ids_of(ps).push(p.id),
{
    assert(ids_of(ps.push(p)) =~= ids_of(ps).push(p.id));
}

proof fn lemma_has_id_ids(ps: Seq<ProfileView>, id: Seq<char>)
    ensures
        has_id(ps, id) == ids_of(ps).contains(id),
{
    if has_id(ps, id) {
        let j = choose|j: int| 0 <= j < ps.len() && #[trigger] ps[j].id == id;
        assert(ids_of(ps)[j] == id);
    }
    if ids_of(ps).contains(id) {
        let j = choose|j: int| 0 <= j < ids_of(ps).len() && ids_of(ps)[j] == id;
        assert(ps[j].id == id);
    }
}

/// A text that starts with a non-whitespace character is not blank.
proof fn lemma_not_blank(s: Seq<char>)
    requires
        s.len() > 0,
        !is_whitespace(s[0]),
    ensures
        !all_whitespace(s),
{
}

/// Every added per-model profile is named by a file stem with a
/// non-whitespace character and has a non-empty model path.
pub open spec fn sound_additions(adds: Seq<ProfileView>) -> bool {
    forall|i: int|
        0 <= i < adds.len() && (#[trigger] adds[i]).runtime != Runtime::Omlx ==> !all_whitespace(
            adds[i].name,
        ) && (adds[i].model matches Some(m) && m.len() > 0)
}

proof fn lemma_sound_prefix(a: Seq<ProfileView>, b: Seq<ProfileView>)
    requires
        sound_additions(b),
        a.len() <= b.len(),
        b.subrange(0, a.len() as int) == a,
    ensures
        sound_additions(a),
{
    assert forall|i: int| 0 <= i < a.len() && (#[trigger] a[i]).runtime != Runtime::Omlx implies !all_whitespace(a[i].name) && (a[i].model matches Some(m) && m.len() > 0) by {
        assert(a[i] == b.subrange(0, a.len() as int)[i]);
        assert(b[i] == a[i]);
    }
}

/// `a` is the start of `b`.
pub open spec fn is_prefix(a: Seq<ProfileView>, b: Seq<ProfileView>) -> bool {
    a.len() <= b.len() && b.subrange(0, a.len() as int) == a
}

proof fn lemma_prefix_trans(a: Seq<ProfileView>, b: Seq<ProfileView>, c: Seq<ProfileView>)
    requires
        is_prefix(a, b),
        is_prefix(b, c),
    ensures
        is_prefix(a, c),
{
    assert(c.subrange(0, a.len() as int) =~= b.subrange(0, a.len() as int));
}

proof fn lemma_model_step_prefix(st: PlanState, r: Runtime, path: Seq<char>)
    requires
        model_step(st, r, path) is Some,
    ensures
        is_prefix(st.additions, model_step(st, r, path)->0.additions),
{
    let s = model_step(st, r, path)->0;
    assert(s.additions.subrange(0, st.additions.len() as int) =~= st.additions);
}

proof fn lemma_models_fold_prefix(st: PlanState, r: Runtime, ms: Seq<Seq<char>>)
    requires
        models_fold(st, r, ms) is Some,
    ensures
        is_prefix(st.additions, models_fold(st, r, ms)->0.additions),
    decreases ms.len(),
{
    if ms.len() == 0 {
        assert(st.additions.subrange(0, st.additions.len() as int) =~= st.additions);
    } else {
        lemma_models_fold_prefix(st, r, ms.drop_last());
        let s1 = models_fold(st, r, ms.drop_last())->0;
        lemma_model_step_prefix(s1, r, ms.last());
        lemma_prefix_trans(st.additions, s1.additions, models_fold(st, r, ms)->0.additions);
    }
}

proof fn lemma_runtime_step_prefix(st: PlanState, c: ConfigView, r: Runtime, ms: Seq<Seq<char>>)
    requires
        runtime_step(st, c, r, ms) is Some,
    ensures
        is_prefix(st.additions, runtime_step(st, c, r, ms)->0.additions),
{
    let s = runtime_step(st, c, r, ms)->0;
    if c.runtime(r) is Some && r != Runtime::Omlx {
        lemma_models_fold_prefix(st, r, ms);
    } else {
        assert(s.additions.subrange(0, st.additions.len() as int) =~= st.additions);
    }
}

proof fn lemma_id_prefix_start(r: Runtime)
    requires
        r != Runtime::Omlx,
    ensures
        id_prefix(r).len() > 0,
        !is_whitespace(id_prefix(r)[0]),
{
    reveal_strlit("dwarfstar");
    reveal_strlit("llama_cpp");
}

proof fn lemma_model_step_valid(
    c: ConfigView,
    st: PlanState,
    r: Runtime,
    path: Seq<char>,
)
    requires
        r != Runtime::Omlx,
        c.runtime(r) is Some,
        extends_validly(c, c.profiles + st.additions, st.ids),
        forall|j: int| 0 <= j < st.additions.len() ==> #[trigger] st.additions[j].runtime != Runtime::Omlx,
        model_step(st, r, path) is Some,
        sound_additions(model_step(st, r, path)->0.additions),
    ensures
        ({
            let s = model_step(st, r, path)->0;
            &&& extends_validly(c, c.profiles + s.additions, s.ids)
            &&& forall|j: int| 0 <= j < s.additions.len() ==> #[trigger] s.additions[j].runtime != Runtime::Omlx
        }),
{
    if !st.represented.contains((r, path)) {
        let name = path_file_stem(path)->0;
        let stem = id_prefix(r) + "-"@ + slug_of(name);
        let id = fresh_id(stem, st.ids);
        let p = model_profile(id, name, r, path);
        let ps = c.profiles + st.additions;
        assert(model_step(st, r, path)->0.additions[st.additions.len() as int] == p);
        lemma_id_prefix_start(r);
        assert(stem[0] == id_prefix(r)[0]);
        lemma_fresh_id(stem, st.ids);
        lemma_not_blank(id);
        lemma_has_id_ids(ps, id);
        assert(profile_error(ps, p, c) is None);
        lemma_push_profile(c, ps, p);
        assert(c.profiles + st.additions.push(p) =~= ps.push(p));
        lemma_ids_push(ps, p);
        let s = model_step(st, r, path)->0;
        assert(s.additions == st.additions.push(p));
        assert forall|j: int| 0 <= j < s.additions.len() implies #[trigger] s.additions[j].runtime
            != Runtime::Omlx by {
            if j < st.additions.len() {
                assert(s.additions[j] == st.additions[j]);
            }
        }
    }
}

proof fn lemma_models_fold_valid(
    c: ConfigView,
    st: PlanState,
    r: Runtime,
    ms: Seq<Seq<char>>,
)
    requires
        r != Runtime::Omlx,
        c.runtime(r) is Some,
        extends_validly(c, c.profiles + st.additions, st.ids),
        forall|j: int| 0 <= j < st.additions.len() ==> #[trigger] st.additions[j].runtime != Runtime::Omlx,
        models_fold(st, r, ms) is Some,
        sound_additions(models_fold(st, r, ms)->0.additions),
    ensures
        ({
            let s = models_fold(st, r, ms)->0;
            &&& extends_validly(c, c.profiles + s.additions, s.ids)
            &&& forall|j: int| 0 <= j < s.additions.len() ==> #[trigger] s.additions[j].runtime != Runtime::Omlx
        }),
    decreases ms.len(),
{
    if ms.len() > 0 {
        let d = ms.drop_last();
        let s1 = models_fold(st, r, d)->0;
        lemma_model_step_prefix(s1, r, ms.last());
        lemma_sound_prefix(s1.additions, models_fold(st, r, ms)->0.additions);
        lemma_models_fold_valid(c, st, r, d);
        assert(ms.last() == ms[ms.len() - 1]);
        lemma_model_step_valid(c, s1, r, ms.last());
    }
}

proof fn lemma_runtime_step_valid(
    c: ConfigView,
    st: PlanState,
    r: Runtime,
    ms: Seq<Seq<char>>,
)
    requires
        r != Runtime::Omlx,
        extends_validly(c, c.profiles + st.additions, st.ids),
        forall|j: int| 0 <= j < st.additions.len() ==> #[trigger] st.additions[j].runtime != Runtime::Omlx,
        runtime_step(st, c, r, ms) is Some,
        sound_additions(runtime_step(st, c, r, ms)->0.additions),
    ensures
        ({
            let s = runtime_step(st, c, r, ms)->0;
            &&& extends_validly(c, c.profiles + s.additions, s.ids)
            &&& forall|j: int| 0 <= j < s.additions.len() ==> #[trigger] s.additions[j].runtime != Runtime::Omlx
        }),
{
    if c.runtime(r) is Some {
        lemma_models_fold_valid(c, st, r, ms);
    }
}

proof fn lemma_has_omlx_concat(a: Seq<ProfileView>, b: Seq<ProfileView>)
    requires
        !has_omlx(a),
        forall|j: int| 0 <= j < b.len() ==> #[trigger] b[j].runtime != Runtime::Omlx,
    ensures
        !has_omlx(a + b),
{
    assert forall|j: int| 0 <= j < (a + b).len() implies #[trigger] (a + b)[j].runtime != Runtime::Omlx by {
        if j < a.len() {
            assert((a + b)[j] == a[j]);
        } else {
            assert((a + b)[j] == b[j - a.len()]);
        }
    }
}

proof fn lemma_runtime_error_same(c: ConfigView, added: Seq<ProfileView>)
    ensures
        runtimes_error(with_profiles(c, added)) == runtimes_error(c),
        forall|r: Runtime| with_profiles(c, added).runtime(r) == c.runtime(r),
{
}

proof fn lemma_profile_error_config(
    c: ConfigView,
    added: Seq<ProfileView>,
    ps: Seq<ProfileView>,
)
    ensures
        profiles_error(ps, with_profiles(c, added)) == profiles_error(ps, c),
    decreases ps.len(),
{
    if ps.len() > 0 {
        lemma_profile_error_config(c, added, ps.drop_last());
    }
}

/// Import keeps a valid catalog valid: the profiles it adds have unique,
/// non-blank IDs, name a configured runtime, and at most one of them is
/// for oMLX, whose profile sets no model. It holds when every added
/// per-model profile is named by a file stem that is not blank and has a
/// non-empty model path (as `plan_import` ensures of what it returns).
pub proof fn lemma_import_keeps_catalog_valid(
    c: ConfigView,
    represented: Seq<(Runtime, Seq<char>)>,
    dwarfstar_models: Seq<Seq<char>>,
    llama_cpp_models: Seq<Seq<char>>,
)
    requires
        config_valid(c),
        plan(c, represented, dwarfstar_models, llama_cpp_models) is Some,
        sound_additions(plan(c, represented, dwarfstar_models, llama_cpp_models)->0.additions),
    ensures
        config_valid(
            with_profiles(c, plan(c, represented, dwarfstar_models, llama_cpp_models)->0.additions),
        ),
{
    let s0 = initial_state(c, represented);
    assert(c.profiles + s0.additions =~= c.profiles);
    assert(runtimes_error(c) is None);
    let s1 = runtime_step(s0, c, Runtime::Dwarfstar, dwarfstar_models)->0;
    let s2 = runtime_step(s1, c, Runtime::LlamaCpp, llama_cpp_models)->0;
    let s3 = runtime_step(s2, c, Runtime::Omlx, seq![])->0;
    lemma_runtime_step_prefix(s1, c, Runtime::LlamaCpp, llama_cpp_models);
    lemma_runtime_step_prefix(s2, c, Runtime::Omlx, seq![]);
    lemma_sound_prefix(s2.additions, s3.additions);
    lemma_sound_prefix(s1.additions, s2.additions);
    lemma_runtime_step_valid(c, s0, Runtime::Dwarfstar, dwarfstar_models);
    lemma_runtime_step_valid(c, s1, Runtime::LlamaCpp, llama_cpp_models);
    if c.runtime(Runtime::Omlx) is Some && !has_omlx(c.profiles) {
        let ps = c.profiles + s2.additions;
        let id = fresh_id("omlx"@, s2.ids);
        reveal_strlit("omlx");
        lemma_fresh_id("omlx"@, s2.ids);
        lemma_not_blank(id);
        reveal_strlit("oMLX — configured models");
        lemma_not_blank(omlx_profile_name());
        lemma_has_id_ids(ps, id);
        lemma_has_omlx_concat(c.profiles, s2.additions);
        assert(profile_error(ps, omlx_profile(id), c) is None);
        lemma_push_profile(c, ps, omlx_profile(id));
        assert(c.profiles + s3.additions =~= ps.push(omlx_profile(id)));
    }
    lemma_runtime_error_same(c, s3.additions);
    lemma_profile_error_config(c, s3.additions, c.profiles + s3.additions);
}

/// Every pair of `a` is in `b`.
pub open spec fn pairs_within(a: Seq<(Runtime, Seq<char>)>, b: Seq<(Runtime, Seq<char>)>) -> bool {
    forall|x: (Runtime, Seq<char>)| a.contains(x) ==> b.contains(x)
}

proof fn lemma_model_step_represents(st: PlanState, r: Runtime, path: Seq<char>)
    requires
        model_step(st, r, path) is Some,
    ensures
        pairs_within(st.represented, model_step(st, r, path)->0.represented),
        model_step(st, r, path)->0.represented.contains((r, path)),
{
    if !st.represented.contains((r, path)) {
        let s = model_step(st, r, path)->0;
        assert(s.represented.last() == (r, path));
        assert forall|x: (Runtime, Seq<char>)| st.represented.contains(x) implies s.represented.contains(x) by {
            let j = choose|j: int| 0 <= j < st.represented.len() && st.represented[j] == x;
            assert(s.represented[j] == x);
        }
    }
}

proof fn lemma_models_fold_represents(st: PlanState, r: Runtime, ms: Seq<Seq<char>>)
    requires
        models_fold(st, r, ms) is Some,
    ensures
        pairs_within(st.represented, models_fold(st, r, ms)->0.represented),
        forall|i: int| 0 <= i < ms.len() ==> models_fold(st, r, ms)->0.represented.contains((r, #[trigger] ms[i])),
    decreases ms.len(),
{
    if ms.len() > 0 {
        let d = ms.drop_last();
        lemma_models_fold_represents(st, r, d);
        let s1 = models_fold(st, r, d)->0;
        lemma_model_step_represents(s1, r, ms.last());
        let s2 = models_fold(st, r, ms)->0;
        assert forall|i: int| 0 <= i < ms.len() implies s2.represented.contains((r, #[trigger] ms[i])) by {
            if i < d.len() {
                assert(d[i] == ms[i]);
                assert(s1.represented.contains((r, d[i])));
            }
        }
    }
}

proof fn lemma_models_fold_all_represented(st: PlanState, r: Runtime, ms: Seq<Seq<char>>)
    requires
        forall|i: int| 0 <= i < ms.len() ==> st.represented.contains((r, #[trigger] ms[i])),
    ensures
        models_fold(st, r, ms) == Some(st),
    decreases ms.len(),
{
    if ms.len() > 0 {
        let d = ms.drop_last();
        assert forall|i: int| 0 <= i < d.len() implies st.represented.contains((r, #[trigger] d[i])) by {
            assert(d[i] == ms[i]);
        }
        lemma_models_fold_all_represented(st, r, d);
        assert(st.represented.contains((r, ms[ms.len() - 1])));
    }
}

proof fn lemma_runtime_step_represents(st: PlanState, c: ConfigView, r: Runtime, ms: Seq<Seq<char>>)
    requires
        runtime_step(st, c, r, ms) is Some,
    ensures
        pairs_within(st.represented, runtime_step(st, c, r, ms)->0.represented),
        c.runtime(r) is Some && r != Runtime::Omlx ==> forall|i: int|
            0 <= i < ms.len() ==> runtime_step(st, c, r, ms)->0.represented.contains(
                (r, #[trigger] ms[i]),
            ),
{
    if c.runtime(r) is Some && r != Runtime::Omlx {
        lemma_models_fold_represents(st, r, ms);
    }
}

/// Importing again finds nothing new: once an import has added its profiles,
/// a second import of the same scan adds no profile when its represented
/// pairs include every pair the first import ended with (those it started
/// from and those of the models it added).
pub proof fn lemma_import_idempotent(
    c: ConfigView,
    represented: Seq<(Runtime, Seq<char>)>,
    dwarfstar_models: Seq<Seq<char>>,
    llama_cpp_models: Seq<Seq<char>>,
    represented_again: Seq<(Runtime, Seq<char>)>,
)
    requires
        plan(c, represented, dwarfstar_models, llama_cpp_models) is Some,
        pairs_within(
            plan(c, represented, dwarfstar_models, llama_cpp_models)->0.represented,
            represented_again,
        ),
    ensures
        ({
            let st = plan(c, represented, dwarfstar_models, llama_cpp_models)->0;
            let again = plan(
                with_profiles(c, st.additions),
                represented_again,
                dwarfstar_models,
                llama_cpp_models,
            );
            again is Some && again->0.additions.len() == 0
        }),
{
    let s0 = initial_state(c, represented);
    let s1 = runtime_step(s0, c, Runtime::Dwarfstar, dwarfstar_models)->0;
    let s2 = runtime_step(s1, c, Runtime::LlamaCpp, llama_cpp_models)->0;
    let st = runtime_step(s2, c, Runtime::Omlx, seq![])->0;
    lemma_runtime_step_represents(s0, c, Runtime::Dwarfstar, dwarfstar_models);
    lemma_runtime_step_represents(s1, c, Runtime::LlamaCpp, llama_cpp_models);
    assert(st.represented == s2.represented);
    let c2 = with_profiles(c, st.additions);
    let t0 = initial_state(c2, represented_again);
    assert(t0.additions.len() == 0);
    if c.runtime(Runtime::Dwarfstar) is Some {
        assert forall|i: int| 0 <= i < dwarfstar_models.len() implies t0.represented.contains(
            (Runtime::Dwarfstar, #[trigger] dwarfstar_models[i]),
        ) by {
            assert(s1.represented.contains((Runtime::Dwarfstar, dwarfstar_models[i])));
        }
        lemma_models_fold_all_represented(t0, Runtime::Dwarfstar, dwarfstar_models);
    }
    let t1 = runtime_step(t0, c2, Runtime::Dwarfstar, dwarfstar_models)->0;
    assert(t1 == t0);
    if c.runtime(Runtime::LlamaCpp) is Some {
        assert forall|i: int| 0 <= i < llama_cpp_models.len() implies t0.represented.contains(
            (Runtime::LlamaCpp, #[trigger] llama_cpp_models[i]),
        ) by {
            assert(s2.represented.contains((Runtime::LlamaCpp, llama_cpp_models[i])));
        }
        lemma_models_fold_all_represented(t0, Runtime::LlamaCpp, llama_cpp_models);
    }
    let t2 = runtime_step(t1, c2, Runtime::LlamaCpp, llama_cpp_models)->0;
    assert(t2 == t0);
    if c.runtime(Runtime::Omlx) is Some {
        if has_omlx(c.profiles) {
            let j = choose|j: int| 0 <= j < c.profiles.len() && #[trigger] c.profiles[j].runtime
                == Runtime::Omlx;
            assert(c2.profiles[j] == c.profiles[j]);
        } else {
            let k = st.additions.len() - 1;
            assert(st.additions[k].runtime == Runtime::Omlx);
            assert(c2.profiles[c.profiles.len() + k] == st.additions[k]);
        }
        assert(has_omlx(c2.profiles));
    }
}

/// The runtime and model path of a per-model profile.
pub open spec fn model_pair(p: ProfileView) -> (Runtime, Seq<char>) {
    (p.runtime, p.model->0)
}

/// The state keeps track of what import added since it started from the
/// represented pairs `rep0`: each added per-model profile has a model and a
/// pair that was not represented before and that no other addition has; the
/// represented pairs are exactly `rep0` and the pairs added.
pub open spec fn tracked_state(rep0: Seq<(Runtime, Seq<char>)>, st: PlanState) -> bool {
    &&& forall|i: int|
        0 <= i < st.additions.len() && (#[trigger] st.additions[i]).runtime != Runtime::Omlx
            ==> st.additions[i].model is Some && !rep0.contains(model_pair(st.additions[i]))
    &&& forall|i: int, j: int|
        0 <= i < j < st.additions.len() && st.additions[i].runtime != Runtime::Omlx
            && st.additions[j].runtime != Runtime::Omlx ==> model_pair(st.additions[i])
            != model_pair(st.additions[j])
    &&& forall|x: (Runtime, Seq<char>)|
        st.represented.contains(x) <==> (rep0.contains(x) || exists|i: int|
            0 <= i < st.additions.len() && (#[trigger] st.additions[i]).runtime != Runtime::Omlx
                && model_pair(st.additions[i]) == x)
}

proof fn lemma_model_step_tracked(rep0: Seq<(Runtime, Seq<char>)>, st: PlanState, r: Runtime, path: Seq<char>)
    requires
        r != Runtime::Omlx,
        tracked_state(rep0, st),
        model_step(st, r, path) is Some,
    ensures
        tracked_state(rep0, model_step(st, r, path)->0),
{
    if !st.represented.contains((r, path)) {
        let s2 = model_step(st, r, path)->0;
        let n = st.additions.len() as int;
        assert(model_pair(s2.additions[n]) == (r, path));
        assert forall|i: int| 0 <= i < n implies #[trigger] s2.additions[i] == st.additions[i] by {}
        assert(!rep0.contains((r, path)));
        assert forall|i: int, j: int|
            0 <= i < j < s2.additions.len() && s2.additions[i].runtime != Runtime::Omlx
                && s2.additions[j].runtime != Runtime::Omlx implies model_pair(s2.additions[i])
            != model_pair(s2.additions[j]) by {
            if j == n {
                assert(s2.additions[i] == st.additions[i]);
                if model_pair(st.additions[i]) == (r, path) {
                    assert(st.represented.contains((r, path)));
                }
            }
        }
        assert forall|x: (Runtime, Seq<char>)| s2.represented.contains(x) <==> (rep0.contains(x)
            || exists|i: int|
            0 <= i < s2.additions.len() && (#[trigger] s2.additions[i]).runtime != Runtime::Omlx
                && model_pair(s2.additions[i]) == x) by {
            if s2.represented.contains(x) {
                if x != (r, path) {
                    let k = choose|k: int| 0 <= k < s2.represented.len() && s2.represented[k] == x;
                    assert(st.represented[k] == x);
                    assert(st.represented.contains(x));
                    if !rep0.contains(x) {
                        let i = choose|i: int|
                            0 <= i < st.additions.len() && (#[trigger] st.additions[i]).runtime
                                != Runtime::Omlx && model_pair(st.additions[i]) == x;
                        assert(s2.additions[i] == st.additions[i]);
                    }
                } else {
                    assert(s2.additions[n].runtime != Runtime::Omlx);
                }
            }
            if rep0.contains(x) {
                assert(st.represented.contains(x));
                let k = choose|k: int| 0 <= k < st.represented.len() && st.represented[k] == x;
                assert(s2.represented[k] == x);
            }
            if exists|i: int|
                0 <= i < s2.additions.len() && (#[trigger] s2.additions[i]).runtime
                    != Runtime::Omlx && model_pair(s2.additions[i]) == x {
                let i = choose|i: int|
                    0 <= i < s2.additions.len() && (#[trigger] s2.additions[i]).runtime
                        != Runtime::Omlx && model_pair(s2.additions[i]) == x;
                if i < n {
                    assert(st.additions[i] == s2.additions[i]);
                    assert(st.represented.contains(x));
                    let k = choose|k: int| 0 <= k < st.represented.len() && st.represented[k] == x;
                    assert(s2.represented[k] == x);
                } else {
                    assert(s2.represented[st.represented.len() as int] == x);
                }
            }
        }
    }
}

proof fn lemma_models_fold_tracked(rep0: Seq<(Runtime, Seq<char>)>, st: PlanState, r: Runtime, ms: Seq<Seq<char>>)
    requires
        r != Runtime::Omlx,
        tracked_state(rep0, st),
        models_fold(st, r, ms) is Some,
    ensures
        tracked_state(rep0, models_fold(st, r, ms)->0),
    decreases ms.len(),
{
    if ms.len() > 0 {
        lemma_models_fold_tracked(rep0, st, r, ms.drop_last());
        lemma_model_step_tracked(rep0, models_fold(st, r, ms.drop_last())->0, r, ms.last());
    }
}

/// Import deduplicates by runtime and model path, and misses no model: no
/// profile it adds has a runtime and model that were already represented or
/// that another added profile has, and every model found for a configured
/// DwarfStar or llama.cpp runtime is represented or gets a profile.
pub proof fn lemma_import_dedups_and_covers(
    c: ConfigView,
    represented: Seq<(Runtime, Seq<char>)>,
    dwarfstar_models: Seq<Seq<char>>,
    llama_cpp_models: Seq<Seq<char>>,
)
    requires
        plan(c, represented, dwarfstar_models, llama_cpp_models) is Some,
    ensures
        ({
            let adds = plan(c, represented, dwarfstar_models, llama_cpp_models)->0.additions;
            &&& forall|i: int|
                0 <= i < adds.len() && (#[trigger] adds[i]).runtime != Runtime::Omlx
                    ==> adds[i].model is Some && !represented.contains(model_pair(adds[i]))
            &&& forall|i: int, j: int|
                0 <= i < j < adds.len() && adds[i].runtime != Runtime::Omlx && adds[j].runtime
                    != Runtime::Omlx ==> model_pair(adds[i]) != model_pair(adds[j])
            &&& c.dwarfstar is Some ==> forall|k: int|
                0 <= k < dwarfstar_models.len() ==> represented.contains(
                    (Runtime::Dwarfstar, #[trigger] dwarfstar_models[k]),
                ) || exists|i: int|
                    0 <= i < adds.len() && (#[trigger] adds[i]).runtime == Runtime::Dwarfstar
                        && adds[i].model == Some(dwarfstar_models[k])
            &&& c.llama_cpp is Some ==> forall|k: int|
                0 <= k < llama_cpp_models.len() ==> represented.contains(
                    (Runtime::LlamaCpp, #[trigger] llama_cpp_models[k]),
                ) || exists|i: int|
                    0 <= i < adds.len() && (#[trigger] adds[i]).runtime == Runtime::LlamaCpp
                        && adds[i].model == Some(llama_cpp_models[k])
        }),
{
    let s0 = initial_state(c, represented);
    assert(tracked_state(represented, s0));
    let s1 = runtime_step(s0, c, Runtime::Dwarfstar, dwarfstar_models)->0;
    if c.dwarfstar is Some {
        lemma_models_fold_tracked(represented, s0, Runtime::Dwarfstar, dwarfstar_models);
    }
    let s2 = runtime_step(s1, c, Runtime::LlamaCpp, llama_cpp_models)->0;
    if c.llama_cpp is Some {
        lemma_models_fold_tracked(represented, s1, Runtime::LlamaCpp, llama_cpp_models);
    }
    let st = runtime_step(s2, c, Runtime::Omlx, seq![])->0;
    lemma_runtime_step_represents(s0, c, Runtime::Dwarfstar, dwarfstar_models);
    lemma_runtime_step_represents(s1, c, Runtime::LlamaCpp, llama_cpp_models);
    assert forall|i: int| 0 <= i < s2.additions.len() implies #[trigger] st.additions[i] == s2.additions[i] by {}
    assert(tracked_state(represented, s1));
    assert(tracked_state(represented, s2));
    assert(tracked_state(represented, st)) by {
        if st.additions.len() > s2.additions.len() {
            let n = s2.additions.len() as int;
            assert(st.additions[n].runtime == Runtime::Omlx);
            assert(st.represented == s2.represented);
            assert forall|x: (Runtime, Seq<char>)| st.represented.contains(x) <==> (
            represented.contains(x) || exists|i: int|
                0 <= i < st.additions.len() && (#[trigger] st.additions[i]).runtime
                    != Runtime::Omlx && model_pair(st.additions[i]) == x) by {
                if exists|i: int|
                    0 <= i < st.additions.len() && (#[trigger] st.additions[i]).runtime
                        != Runtime::Omlx && model_pair(st.additions[i]) == x {
                    let i = choose|i: int|
                        0 <= i < st.additions.len() && (#[trigger] st.additions[i]).runtime
                            != Runtime::Omlx && model_pair(st.additions[i]) == x;
                    assert(i < n);
                    assert(s2.additions[i] == st.additions[i]);
                }
                if st.represented.contains(x) && !represented.contains(x) {
                    let i = choose|i: int|
                        0 <= i < s2.additions.len() && (#[trigger] s2.additions[i]).runtime
                            != Runtime::Omlx && model_pair(s2.additions[i]) == x;
                    assert(st.additions[i] == s2.additions[i]);
                }
            }
        }
    }
    if c.dwarfstar is Some {
        assert forall|k: int| 0 <= k < dwarfstar_models.len() implies represented.contains(
            (Runtime::Dwarfstar, #[trigger] dwarfstar_models[k]),
        ) || exists|i: int|
            0 <= i < st.additions.len() && (#[trigger] st.additions[i]).runtime == Runtime::Dwarfstar
                && st.additions[i].model == Some(dwarfstar_models[k]) by {
            assert(s1.represented.contains((Runtime::Dwarfstar, dwarfstar_models[k])));
            assert(st.represented.contains((Runtime::Dwarfstar, dwarfstar_models[k])));
            if !represented.contains((Runtime::Dwarfstar, dwarfstar_models[k])) {
                let i = choose|i: int|
                    0 <= i < st.additions.len() && (#[trigger] st.additions[i]).runtime
                        != Runtime::Omlx && model_pair(st.additions[i]) == (
                        Runtime::Dwarfstar,
                        dwarfstar_models[k],
                    );
                assert(st.additions[i].model is Some);
            }
        }
    }
    if c.llama_cpp is Some {
        assert forall|k: int| 0 <= k < llama_cpp_models.len() implies represented.contains(
            (Runtime::LlamaCpp, #[trigger] llama_cpp_models[k]),
        ) || exists|i: int|
            0 <= i < st.additions.len() && (#[trigger] st.additions[i]).runtime == Runtime::LlamaCpp
                && st.additions[i].model == Some(llama_cpp_models[k]) by {
            assert(st.represented.contains((Runtime::LlamaCpp, llama_cpp_models[k])));
            if !represented.contains((Runtime::LlamaCpp, llama_cpp_models[k])) {
                let i = choose|i: int|
                    0 <= i < st.additions.len() && (#[trigger] st.additions[i]).runtime
                        != Runtime::Omlx && model_pair(st.additions[i]) == (
                        Runtime::LlamaCpp,
                        llama_cpp_models[k],
                    );
                assert(st.additions[i].model is Some);
            }
        }
    }
}

/// Every added per-model profile is named by a file stem with a
/// non-whitespace character.
pub open spec fn named_additions(adds: Seq<ProfileView>) -> bool {
    forall|i: int|
        0 <= i < adds.len() && (#[trigger] adds[i]).runtime != Runtime::Omlx ==> !all_whitespace(
            adds[i].name,
        )
}

/// No two profiles of `ps` share an ID.
pub open spec fn ids_distinct(ps: Seq<ProfileView>) -> bool {
    forall|i: int, j: int| 0 <= i < j < ps.len() ==> ps[i].id != ps[j].id
}

/// The profiles `adds` have distinct IDs, none of which is an ID of `base`.
pub open spec fn fresh_ids(base: Seq<ProfileView>, adds: Seq<ProfileView>) -> bool {
    &&& ids_distinct(adds)
    &&& forall|i: int, j: int| 0 <= i < adds.len() && 0 <= j < base.len() ==> adds[i].id != base[j].id
}

/// The IDs in use are those of the catalog and of the profiles added so
/// far, and the added ones are fresh.
pub open spec fn ids_tracked(c: ConfigView, st: PlanState) -> bool {
    &&& st.ids == ids_of(c.profiles + st.additions)
    &&& fresh_ids(c.profiles, st.additions)
}

proof fn lemma_push_fresh(c: ConfigView, st: PlanState, p: ProfileView, s: PlanState)
    requires
        ids_tracked(c, st),
        !st.ids.contains(p.id),
        s.ids == st.ids.push(p.id),
        s.additions == st.additions.push(p),
    ensures
        ids_tracked(c, s),
{
    let ps = c.profiles + st.additions;
    lemma_ids_push(ps, p);
    assert(c.profiles + s.additions =~= ps.push(p));
    lemma_has_id_ids(ps, p.id);
    let n = st.additions.len() as int;
    assert forall|i: int, j: int| 0 <= i < j < s.additions.len() implies s.additions[i].id
        != s.additions[j].id by {
        if j == n {
            assert(ps[c.profiles.len() + i] == s.additions[i]);
        } else {
            assert(s.additions[i] == st.additions[i] && s.additions[j] == st.additions[j]);
        }
    }
    assert forall|i: int, j: int| 0 <= i < s.additions.len() && 0 <= j < c.profiles.len() implies s.additions[i].id != c.profiles[j].id by {
        if i == n {
            assert(ps[j] == c.profiles[j]);
        } else {
            assert(s.additions[i] == st.additions[i]);
        }
    }
}

proof fn lemma_models_fold_ids(c: ConfigView, st: PlanState, r: Runtime, ms: Seq<Seq<char>>)
    requires
        ids_tracked(c, st),
        models_fold(st, r, ms) is Some,
    ensures
        ids_tracked(c, models_fold(st, r, ms)->0),
    decreases ms.len(),
{
    if ms.len() > 0 {
        lemma_models_fold_ids(c, st, r, ms.drop_last());
        let s1 = models_fold(st, r, ms.drop_last())->0;
        let path = ms.last();
        if !s1.represented.contains((r, path)) {
            let name = path_file_stem(path)->0;
            let stem = id_prefix(r) + "-"@ + slug_of(name);
            lemma_fresh_id(stem, s1.ids);
            let id = fresh_id(stem, s1.ids);
            lemma_push_fresh(c, s1, model_profile(id, name, r, path), model_step(s1, r, path)->0);
        }
    }
}

/// Import hands out fresh IDs: the profiles it adds have IDs distinct from
/// each other and from every profile already in the catalog, so a catalog
/// whose IDs are distinct keeps them distinct.
pub proof fn lemma_import_ids_fresh(
    c: ConfigView,
    represented: Seq<(Runtime, Seq<char>)>,
    dwarfstar_models: Seq<Seq<char>>,
    llama_cpp_models: Seq<Seq<char>>,
)
    requires
        plan(c, represented, dwarfstar_models, llama_cpp_models) is Some,
    ensures
        fresh_ids(c.profiles, plan(c, represented, dwarfstar_models, llama_cpp_models)->0.additions),
        ids_distinct(c.profiles) ==> ids_distinct(
            c.profiles + plan(c, represented, dwarfstar_models, llama_cpp_models)->0.additions,
        ),
{
    let s0 = initial_state(c, represented);
    assert(c.profiles + s0.additions =~= c.profiles);
    assert(ids_tracked(c, s0));
    let s1 = runtime_step(s0, c, Runtime::Dwarfstar, dwarfstar_models)->0;
    if c.runtime(Runtime::Dwarfstar) is Some {
        lemma_models_fold_ids(c, s0, Runtime::Dwarfstar, dwarfstar_models);
    }
    let s2 = runtime_step(s1, c, Runtime::LlamaCpp, llama_cpp_models)->0;
    if c.runtime(Runtime::LlamaCpp) is Some {
        lemma_models_fold_ids(c, s1, Runtime::LlamaCpp, llama_cpp_models);
    }
    let s3 = runtime_step(s2, c, Runtime::Omlx, seq![])->0;
    if c.runtime(Runtime::Omlx) is Some && !has_omlx(c.profiles) {
        lemma_fresh_id("omlx"@, s2.ids);
        lemma_push_fresh(c, s2, omlx_profile(fresh_id("omlx"@, s2.ids)), s3);
    }
    let all = c.profiles + s3.additions;
    if ids_distinct(c.profiles) {
        assert forall|i: int, j: int| 0 <= i < j < all.len() implies all[i].id != all[j].id by {
            let n = c.profiles.len() as int;
            if j < n {
                assert(all[i] == c.profiles[i] && all[j] == c.profiles[j]);
            } else if i < n {
                assert(all[i] == c.profiles[i] && all[j] == s3.additions[j - n]);
            } else {
                assert(all[i] == s3.additions[i - n] && all[j] == s3.additions[j - n]);
            }
        }
    }
}

/// The place of a runtime in the order import handles them: DwarfStar,
/// llama.cpp, then oMLX.
pub open spec fn runtime_rank(r: Runtime) -> int {
    match r {
        Runtime::Dwarfstar => 0,
        Runtime::LlamaCpp => 1,
        Runtime::Omlx => 2,
    }
}

/// `adds[i]` is a profile of runtime `r` for the model `models[a]`.
pub open spec fn names_model_at(
    adds: Seq<ProfileView>,
    i: int,
    r: Runtime,
    models: Seq<Seq<char>>,
    a: int,
) -> bool {
    0 <= a < models.len() && adds[i].runtime == r && adds[i].model == Some(models[a])
}

/// The profiles of runtime `r` among `adds` are for models of `models`, in
/// the order `models` lists them.
pub open spec fn in_list_order(adds: Seq<ProfileView>, r: Runtime, models: Seq<Seq<char>>) -> bool {
    &&& forall|i: int|
        0 <= i < adds.len() && (#[trigger] adds[i]).runtime == r ==> exists|a: int|
            names_model_at(adds, i, r, models, a)
    &&& forall|i: int, j: int|
        0 <= i < j < adds.len() && (#[trigger] adds[i]).runtime == r && (#[trigger] adds[j]).runtime
            == r ==> exists|a: int, b: int|
            a < b && names_model_at(adds, i, r, models, a) && names_model_at(adds, j, r, models, b)
}

proof fn lemma_models_fold_order(st: PlanState, r: Runtime, ms: Seq<Seq<char>>)
    requires
        models_fold(st, r, ms) is Some,
        forall|i: int| 0 <= i < st.additions.len() ==> (#[trigger] st.additions[i]).runtime != r,
    ensures
        models_fold(st, r, ms)->0.additions.len() >= st.additions.len(),
        models_fold(st, r, ms)->0.additions.subrange(0, st.additions.len() as int) == st.additions,
        forall|k: int|
            st.additions.len() <= k < models_fold(st, r, ms)->0.additions.len() ==> (
            #[trigger] models_fold(st, r, ms)->0.additions[k]).runtime == r,
        in_list_order(models_fold(st, r, ms)->0.additions, r, ms),
    decreases ms.len(),
{
    let fin = models_fold(st, r, ms)->0.additions;
    if ms.len() == 0 {
        assert(fin == st.additions);
        assert(fin.subrange(0, st.additions.len() as int) =~= st.additions);
    } else {
        let d = ms.drop_last();
        lemma_models_fold_order(st, r, d);
        let s = models_fold(st, r, d)->0;
        let prev = s.additions;
        assert forall|i: int, a: int| names_model_at(prev, i, r, d, a) implies names_model_at(
            prev,
            i,
            r,
            ms,
            a,
        ) by {
            assert(d[a] == ms[a]);
        }
        if fin == prev {
            assert forall|i: int|
                0 <= i < fin.len() && (#[trigger] fin[i]).runtime == r implies exists|a: int|
                names_model_at(fin, i, r, ms, a) by {
                let a = choose|a: int| names_model_at(prev, i, r, d, a);
                assert(names_model_at(fin, i, r, ms, a));
            }
            assert forall|i: int, j: int|
                0 <= i < j < fin.len() && (#[trigger] fin[i]).runtime == r && (#[trigger] fin[j]).runtime
                    == r implies exists|a: int, b: int|
                a < b && names_model_at(fin, i, r, ms, a) && names_model_at(fin, j, r, ms, b) by {
                let (a, b) = choose|a: int, b: int|
                    a < b && names_model_at(prev, i, r, d, a) && names_model_at(prev, j, r, d, b);
                assert(names_model_at(fin, i, r, ms, a) && names_model_at(fin, j, r, ms, b));
            }
        } else {
            let n = prev.len() as int;
            assert(fin.len() == n + 1);
            assert(fin.subrange(0, n) =~= prev);
            assert(fin[n].runtime == r && fin[n].model == Some(ms.last()));
            assert(names_model_at(fin, n, r, ms, ms.len() - 1));
            assert forall|i: int|
                0 <= i < fin.len() && (#[trigger] fin[i]).runtime == r implies exists|a: int|
                names_model_at(fin, i, r, ms, a) by {
                if i < n {
                    assert(prev[i] == fin[i]);
                    let a = choose|a: int| names_model_at(prev, i, r, d, a);
                    assert(names_model_at(fin, i, r, ms, a));
                } else {
                    assert(names_model_at(fin, i, r, ms, ms.len() - 1));
                }
            }
            assert forall|i: int, j: int|
                0 <= i < j < fin.len() && (#[trigger] fin[i]).runtime == r && (#[trigger] fin[j]).runtime
                    == r implies exists|a: int, b: int|
                a < b && names_model_at(fin, i, r, ms, a) && names_model_at(fin, j, r, ms, b) by {
                assert(prev[i] == fin[i]);
                if j < n {
                    assert(prev[j] == fin[j]);
                    let (a, b) = choose|a: int, b: int|
                        a < b && names_model_at(prev, i, r, d, a) && names_model_at(prev, j, r, d, b);
                    assert(names_model_at(fin, i, r, ms, a) && names_model_at(fin, j, r, ms, b));
                } else {
                    let a = choose|a: int| names_model_at(prev, i, r, d, a);
                    assert(names_model_at(fin, i, r, ms, a));
                    assert(names_model_at(fin, j, r, ms, ms.len() - 1));
                }
            }
            assert forall|k: int| st.additions.len() <= k < fin.len() implies (
            #[trigger] fin[k]).runtime == r by {
                if k < n {
                    assert(prev[k] == fin[k]);
                }
            }
            assert(fin.subrange(0, st.additions.len() as int) =~= prev.subrange(
                0,
                st.additions.len() as int,
            ));
        }
    }
}

proof fn lemma_list_order_extends(adds: Seq<ProfileView>, more: Seq<ProfileView>, r: Runtime, models: Seq<Seq<char>>)
    requires
        in_list_order(adds, r, models),
        forall|k: int| 0 <= k < more.len() ==> (#[trigger] more[k]).runtime != r,
    ensures
        in_list_order(adds + more, r, models),
{
    let all = adds + more;
    assert forall|i: int, a: int| names_model_at(adds, i, r, models, a) && 0 <= i < adds.len()
        implies names_model_at(all, i, r, models, a) by {
        assert(all[i] == adds[i]);
    }
    assert forall|i: int|
        0 <= i < all.len() && (#[trigger] all[i]).runtime == r implies exists|a: int|
        names_model_at(all, i, r, models, a) by {
        if i >= adds.len() {
            assert(all[i] == more[i - adds.len()]);
        }
        assert(all[i] == adds[i]);
        let a = choose|a: int| names_model_at(adds, i, r, models, a);
        assert(names_model_at(all, i, r, models, a));
    }
    assert forall|i: int, j: int|
        0 <= i < j < all.len() && (#[trigger] all[i]).runtime == r && (#[trigger] all[j]).runtime
            == r implies exists|a: int, b: int|
        a < b && names_model_at(all, i, r, models, a) && names_model_at(all, j, r, models, b) by {
        if j >= adds.len() {
            assert(all[j] == more[j - adds.len()]);
        }
        assert(all[i] == adds[i] && all[j] == adds[j]);
        let (a, b) = choose|a: int, b: int|
            a < b && names_model_at(adds, i, r, models, a) && names_model_at(adds, j, r, models, b);
        assert(names_model_at(all, i, r, models, a) && names_model_at(all, j, r, models, b));
    }
}

/// Import adds its profiles in runtime order, DwarfStar, llama.cpp, then
/// oMLX, and the profiles of DwarfStar and of llama.cpp in the order of that
/// runtime's model list.
pub proof fn lemma_import_order(
    c: ConfigView,
    represented: Seq<(Runtime, Seq<char>)>,
    dwarfstar_models: Seq<Seq<char>>,
    llama_cpp_models: Seq<Seq<char>>,
)
    requires
        plan(c, represented, dwarfstar_models, llama_cpp_models) is Some,
    ensures
        ({
            let adds = plan(c, represented, dwarfstar_models, llama_cpp_models)->0.additions;
            &&& forall|i: int, j: int|
                0 <= i < j < adds.len() ==> runtime_rank((#[trigger] adds[i]).runtime) <= runtime_rank(
                    (#[trigger] adds[j]).runtime,
                )
            &&& in_list_order(adds, Runtime::Dwarfstar, dwarfstar_models)
            &&& in_list_order(adds, Runtime::LlamaCpp, llama_cpp_models)
        }),
{
    let s0 = initial_state(c, represented);
    let s1 = runtime_step(s0, c, Runtime::Dwarfstar, dwarfstar_models)->0;
    let s2 = runtime_step(s1, c, Runtime::LlamaCpp, llama_cpp_models)->0;
    let st = runtime_step(s2, c, Runtime::Omlx, seq![])->0;
    let a1 = s1.additions;
    let a2 = s2.additions;
    let adds = st.additions;
    if c.runtime(Runtime::Dwarfstar) is Some {
        lemma_models_fold_order(s0, Runtime::Dwarfstar, dwarfstar_models);
    } else {
        assert(a1.len() == 0);
    }
    assert forall|k: int| 0 <= k < a1.len() implies (#[trigger] a1[k]).runtime == Runtime::Dwarfstar by {}
    assert(in_list_order(a1, Runtime::Dwarfstar, dwarfstar_models));
    assert(in_list_order(a1, Runtime::LlamaCpp, llama_cpp_models));
    if c.runtime(Runtime::LlamaCpp) is Some {
        lemma_models_fold_order(s1, Runtime::LlamaCpp, llama_cpp_models);
    } else {
        assert(a2 == a1);
        assert(a2.subrange(0, a1.len() as int) =~= a1);
    }
    let more2 = a2.subrange(a1.len() as int, a2.len() as int);
    assert(a2 =~= a1 + more2);
    assert forall|k: int| 0 <= k < more2.len() implies (#[trigger] more2[k]).runtime == Runtime::LlamaCpp by {
        assert(more2[k] == a2[k + a1.len()]);
    }
    lemma_list_order_extends(a1, more2, Runtime::Dwarfstar, dwarfstar_models);
    let more3 = adds.subrange(a2.len() as int, adds.len() as int);
    assert(adds.subrange(0, a2.len() as int) =~= a2);
    assert(adds =~= a2 + more3);
    assert forall|k: int| 0 <= k < more3.len() implies (#[trigger] more3[k]).runtime == Runtime::Omlx by {
        assert(more3[k] == adds[k + a2.len()]);
    }
    lemma_list_order_extends(a2, more3, Runtime::Dwarfstar, dwarfstar_models);
    lemma_list_order_extends(a2, more3, Runtime::LlamaCpp, llama_cpp_models);
    assert forall|i: int, j: int| 0 <= i < j < adds.len() implies runtime_rank(
        (#[trigger] adds[i]).runtime,
    ) <= runtime_rank((#[trigger] adds[j]).runtime) by {
        if j < a1.len() {
            assert(adds[i] == a1[i] && adds[j] == a1[j]);
        } else if j < a2.len() {
            assert(adds[j] == a2[j]);
            assert(a2[j] == more2[j - a1.len()]);
            if i >= a1.len() {
                assert(adds[i] == a2[i] && a2[i] == more2[i - a1.len()]);
            } else {
                assert(adds[i] == a2[i] && a2[i] == a1[i]);
            }
        } else {
            assert(adds[j] == more3[j - a2.len()]);
        }
    }
}

} // verus!
