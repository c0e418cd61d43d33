//! A catalog loaded from its file: the checked configuration, the editable
//! document it came from, and import into both.

use vstd::prelude::*;

use crate::catalog::{
    config_error, config_valid, with_profiles, invalid, invalid_str, profiles_view, Config, ConfigView, Error, ErrorKind, ProfileView, Runtime,
};
use crate::document::{
    append_profile, document_entries, holds_profile, lemma_append_profile_entry, refuses_tables, document_text, entry_after_append, parse_document,
    profile_table, render, toml_parse, EntryView, TableView,
};
use crate::found::found_order;
use crate::import::{models_nonempty, pairs_view, plan, plan_import, Discovered};
use crate::import_laws::{
    fresh_ids, ids_distinct, in_list_order, lemma_import_idempotent, lemma_import_ids_fresh,
    lemma_import_keeps_catalog_valid, lemma_import_order, named_additions, pairs_within,
    runtime_rank, sound_additions,
};
use crate::text::all_whitespace;
use crate::paths::{opt_str_view, parent, path_parent, resolve, resolved};

verus! {

/// A catalog as loaded: its configuration, the directory its relative
/// paths start from, its file's path, and its editable document.
pub struct Catalog {
    pub config: Config,
    pub directory: String,
    pub path: String,
    pub document: toml_edit::DocumentMut,
}

/// Why loading fails, if it does: the configuration breaks a catalog rule,
/// the text is not a TOML document, or the path has no parent directory.
pub open spec fn load_error(c: ConfigView, source: Seq<char>, path: Seq<char>) -> Option<Seq<char>> {
    if config_error(c) is Some {
        config_error(c)
    } else if toml_parse(source) is Err {
        Some(toml_parse(source)->Err_0)
    } else if path_parent(path) is None {
        Some("configuration has no parent directory"@)
    } else {
        None
    }
}

/// The `profiles` entry after appending the profiles `ps` in order: the
/// outer `None` when the entry refuses tables, the inner one when there is
/// still no entry.
pub open spec fn entry_after_appends(e: Option<EntryView>, ps: Seq<ProfileView>) -> Option<
    Option<EntryView>,
>
    decreases ps.len(),
{
    if ps.len() == 0 {
        Some(e)
    } else {
        match entry_after_appends(e, ps.drop_last()) {
            None => None,
            Some(e2) => match entry_after_append(e2, ps.last()) {
                None => None,
                Some(x) => Some(Some(x)),
            },
        }
    }
}

/// The document entries `m` with the `profiles` entry set to `e`, if any.
pub open spec fn with_profiles_entry(m: Map<Seq<char>, EntryView>, e: Option<EntryView>) -> Map<
    Seq<char>,
    EntryView,
> {
    match e {
        Some(x) => m.insert("profiles"@, x),
        None => m,
    }
}

proof fn lemma_appends_none_extends(e: Option<EntryView>, ps: Seq<ProfileView>, k: int)
    requires
        0 <= k <= ps.len(),
        entry_after_appends(e, ps.subrange(0, k)) is None,
    ensures
        entry_after_appends(e, ps) is None,
    decreases ps.len() - k,
{
    if k == ps.len() {
        assert(ps.subrange(0, k) =~= ps);
    } else {
        let d = ps.drop_last();
        assert(d.subrange(0, k) =~= ps.subrange(0, k));
        lemma_appends_none_extends(e, d, k);
    }
}

proof fn lemma_appends_give_tables(e: Option<EntryView>, ps: Seq<ProfileView>)
    requires
        ps.len() > 0,
        entry_after_appends(e, ps) is Some,
    ensures
        entry_after_appends(e, ps)->0 matches Some(x) && x is Tables,
{
}

proof fn lemma_appends_empty(e: Option<EntryView>, ps: Seq<ProfileView>)
    requires
        entry_after_appends(e, ps) is Some,
    ensures
        entry_after_appends(e, ps)->0 is None ==> ps.len() == 0 && e is None,
{
}

/// Where the models of profiles `ps` are, read from the catalog directory
/// `dir`: the runtime and resolved path of each profile that names a model,
/// in order. `None` when a path needs a home directory that is not known.
pub open spec fn model_locations(ps: Seq<ProfileView>, dir: Seq<char>, home: Option<Seq<char>>) -> Option<
    Seq<(Runtime, Seq<char>)>,
>
    decreases ps.len(),
{
    if ps.len() == 0 {
        Some(seq![])
    } else {
        match model_locations(ps.drop_last(), dir, home) {
            None => None,
            Some(l) => match ps.last().model {
                None => Some(l),
                Some(m) => match resolved(dir, m, home) {
                    None => None,
                    Some(x) => Some(l.push((ps.last().runtime, x))),
                },
            },
        }
    }
}

proof fn lemma_locations_none_extends(ps: Seq<ProfileView>, dir: Seq<char>, home: Option<Seq<char>>, k: int)
    requires
        0 <= k <= ps.len(),
        model_locations(ps.subrange(0, k), dir, home) is None,
    ensures
        model_locations(ps, dir, home) is None,
    decreases ps.len() - k,
{
    if k == ps.len() {
        assert(ps.subrange(0, k) =~= ps);
    } else {
        let d = ps.drop_last();
        assert(d.subrange(0, k) =~= ps.subrange(0, k));
        lemma_locations_none_extends(d, dir, home, k);
    }
}

/// Import writes its profiles as `[[profiles]]` tables: appending profiles
/// `ps` to the `profiles` entry `e` fails only when there is at least one
/// profile and `e` refuses tables; into a document with no `profiles` entry
/// it writes an array of tables that holds exactly the profiles' tables, in
/// order.
pub proof fn lemma_appends_write_tables(e: Option<EntryView>, ps: Seq<ProfileView>)
    ensures
        entry_after_appends(e, ps) is None <==> ps.len() > 0 && refuses_tables(e),
        ps.len() > 0 && e is None ==> (entry_after_appends(e, ps) matches Some(
            Some(EntryView::Tables(ts)),
        ) && ts.len() == ps.len() && forall|k: int|
            0 <= k < ps.len() ==> (#[trigger] ts[k]).prefix is None && holds_profile(
                ts[k].entries,
                ps[k],
            )),
    decreases ps.len(),
{
    if ps.len() > 0 {
        let d = ps.drop_last();
        let p = ps.last();
        lemma_appends_write_tables(e, d);
        if d.len() == 0 {
            lemma_append_profile_entry(e, p);
            if e is None {
                let ts = entry_after_append(e, p)->0->Tables_0;
                assert(ps[0] == p);
            }
        } else {
            let prev = entry_after_appends(e, d);
            if prev is Some {
                lemma_appends_give_tables(e, d);
                let e2 = prev->0;
                lemma_append_profile_entry(e2, p);
                assert(!refuses_tables(e2));
                if e is None {
                    let ts = e2->0->Tables_0;
                    let ts2 = entry_after_append(e2, p)->0->Tables_0;
                    assert forall|k: int| 0 <= k < ps.len() implies (#[trigger] ts2[k]).prefix is None
                        && holds_profile(ts2[k].entries, ps[k]) by {
                        if k < d.len() {
                            assert(ts2.subrange(0, ts.len() as int)[k] == ts[k]);
                            assert(ps[k] == d[k]);
                        }
                    }
                }
            }
        }
    }
}

/// The profiles of `ps` that name a model, in order.
pub open spec fn model_profiles(ps: Seq<ProfileView>) -> Seq<ProfileView> {
    ps.filter(|p: ProfileView| p.model is Some)
}

/// Each pair that `model_locations` gives comes from a profile that names a
/// model: the `k`-th pair is the runtime of the `k`-th such profile and its
/// model resolved from the catalog directory. There is no result exactly
/// when one of those models does not resolve.
pub proof fn lemma_model_locations_pairs(ps: Seq<ProfileView>, dir: Seq<char>, home: Option<Seq<char>>)
    ensures
        model_locations(ps, dir, home) is None <==> exists|k: int|
            0 <= k < model_profiles(ps).len() && resolved(
                dir,
                (#[trigger] model_profiles(ps)[k]).model->0,
                home,
            ) is None,
        model_locations(ps, dir, home) matches Some(l) ==> (l.len() == model_profiles(ps).len()
            && forall|k: int|
            0 <= k < l.len() ==> (#[trigger] l[k]).0 == model_profiles(ps)[k].runtime && resolved(
                dir,
                model_profiles(ps)[k].model->0,
                home,
            ) == Some(l[k].1)),
    decreases ps.len(),
{
    reveal(Seq::filter);
    let mp = model_profiles(ps);
    if ps.len() == 0 {
        assert(mp.len() == 0);
    } else {
        let d = ps.drop_last();
        let p = ps.last();
        lemma_model_locations_pairs(d, dir, home);
        let md = model_profiles(d);
        assert(mp == (if p.model is Some { md.push(p) } else { md }));
        if p.model is Some {
            assert forall|k: int| 0 <= k < md.len() implies #[trigger] mp[k] == md[k] by {}
            assert(mp[md.len() as int] == p);
            if model_locations(ps, dir, home) is None {
                if model_locations(d, dir, home) is None {
                    let k = choose|k: int|
                        0 <= k < md.len() && resolved(dir, (#[trigger] md[k]).model->0, home) is None;
                    assert(mp[k] == md[k]);
                } else {
                    assert(resolved(dir, mp[md.len() as int].model->0, home) is None);
                }
            } else {
                if exists|k: int|
                    0 <= k < mp.len() && resolved(dir, (#[trigger] mp[k]).model->0, home) is None {
                    let k = choose|k: int|
                        0 <= k < mp.len() && resolved(dir, (#[trigger] mp[k]).model->0, home) is None;
                    if k < md.len() {
                        assert(mp[k] == md[k]);
                    }
                }
                let l = model_locations(ps, dir, home)->0;
                let ld = model_locations(d, dir, home)->0;
                assert forall|k: int| 0 <= k < l.len() implies (#[trigger] l[k]).0
                    == mp[k].runtime && resolved(dir, mp[k].model->0, home) == Some(l[k].1) by {
                    if k < ld.len() {
                        assert(l[k] == ld[k]);
                        assert(mp[k] == md[k]);
                    }
                }
            }
        }
    }
}

/// What making a resolved model path canonical gave: the canonical path,
/// or that nothing exists there.
#[derive(Debug)]
pub enum Canonical {
    Found(String),
    Missing,
}

/// The identity under which a model counts as represented: its canonical
/// path, or the resolved path itself when the model is missing, so that a
/// missing model stays represented by its profile.
pub fn model_identity(resolved_path: String, canonical: Canonical) -> (r: String)
    ensures
        match canonical {
            Canonical::Found(p) => r@ == p@,
            Canonical::Missing => r@ == resolved_path@,
        },
{
    match canonical {
        Canonical::Found(p) => p,
        Canonical::Missing => resolved_path,
    }
}

/// Once an import finds nothing new it changes nothing: with no additions,
/// `Catalog::import` leaves the configuration and the document entries as
/// they were.
pub proof fn lemma_nothing_new_changes_nothing(c: ConfigView, m: Map<Seq<char>, EntryView>)
    ensures
        with_profiles(c, seq![]) == c,
        entry_after_appends(m.get("profiles"@), seq![]) matches Some(e) && with_profiles_entry(m, e)
            == m,
{
    assert(c.profiles + Seq::<ProfileView>::empty() =~= c.profiles);
    assert(with_profiles_entry(m, m.get("profiles"@)) =~= m);
}

/// A second import of the same scan changes nothing: after
/// `Catalog::import` has added the profiles that `plan` gives, a second
/// import whose represented pairs include every pair the first one ended
/// with adds no profile, so it returns `Ok(0)` and leaves the configuration
/// and the document entries as they are.
pub proof fn lemma_second_import_changes_nothing(
    c: ConfigView,
    m: Map<Seq<char>, EntryView>,
    represented: Seq<(Runtime, Seq<char>)>,
    dwarfstar: Seq<Seq<char>>,
    llama_cpp: Seq<Seq<char>>,
    represented_again: Seq<(Runtime, Seq<char>)>,
)
    requires
        plan(c, represented, found_order(dwarfstar), found_order(llama_cpp)) matches Some(st)
            && entry_after_appends(m.get("profiles"@), st.additions) is Some && pairs_within(
            st.represented,
            represented_again,
        ),
    ensures
        ({
            let st = plan(c, represented, found_order(dwarfstar), found_order(llama_cpp))->0;
            let c2 = with_profiles(c, st.additions);
            let m2 = with_profiles_entry(m, entry_after_appends(m.get("profiles"@), st.additions)->0);
            let again = plan(c2, represented_again, found_order(dwarfstar), found_order(llama_cpp));
            let e2 = entry_after_appends(m2.get("profiles"@), again->0.additions);
            &&& again is Some
            &&& again->0.additions.len() == 0
            &&& e2 is Some
            &&& with_profiles(c2, again->0.additions) == c2
            &&& with_profiles_entry(m2, e2->0) == m2
        }),
{
    let dw = found_order(dwarfstar);
    let ll = found_order(llama_cpp);
    let st = plan(c, represented, dw, ll)->0;
    lemma_import_idempotent(c, represented, dw, ll, represented_again);
    let c2 = with_profiles(c, st.additions);
    let m2 = with_profiles_entry(m, entry_after_appends(m.get("profiles"@), st.additions)->0);
    let again = plan(c2, represented_again, dw, ll)->0;
    assert(again.additions =~= Seq::<ProfileView>::empty());
    lemma_nothing_new_changes_nothing(c2, m2);
}

impl Catalog {
    /// The document entries of the catalog file.
    pub open spec fn entries(&self) -> Map<Seq<char>, EntryView> {
        document_entries(self.document)
    }

    /// The text the catalog file gets when saved.
    pub open spec fn text(&self) -> Seq<char> {
        document_text(self.document)
    }

    /// The path of the catalog file.
    pub open spec fn file(&self) -> Seq<char> {
        self.path@
    }

    /// Builds a catalog from the file at `path` (already made absolute),
    /// its text `source`, and the configuration read from that text:
    /// checks the catalog rules, parses the text as an editable document and
    /// takes the file's directory.
    pub fn load(path: String, source: &str, config: Config) -> (r: Result<Catalog, Error>)
        ensures
            match load_error(config@, source@, path@) {
                Some(m) => r matches Err(e) && e.kind == ErrorKind::InvalidInput && e.message@ == m,
                None => r matches Ok(cat) && cat.config@ == config@ && cat.file() == path@
                    && path_parent(path@) == Some(cat.directory@) && toml_parse(source@)
                    == Ok::<Map<Seq<char>, EntryView>, Seq<char>>(cat.entries()),
            },
    {
        config.validate()?;
        let document = match parse_document(source) {
            Ok(d) => d,
            Err(m) => {
                return Err(invalid(m));
            },
        };
        let directory = match parent(path.as_str()) {
            Some(d) => d,
            None => {
                return Err(invalid_str("configuration has no parent directory"));
            },
        };
        Ok(Catalog { config, directory, path, document })
    }

    /// The runtime and resolved model path of each profile that names a
    /// model, in order; their canonical forms are what `import` takes as
    /// represented.
    pub fn model_locations(&self, home: Option<&str>) -> (r: Result<Vec<(Runtime, String)>, Error>)
        ensures
            match model_locations(self.config@.profiles, self.directory@, opt_str_view(home)) {
                Some(l) => r matches Ok(v) && pairs_view(v@) == l,
                None => r matches Err(e) && e.kind == ErrorKind::InvalidInput && e.message@
                    == "HOME is not set"@,
            },
    {
        let ghost ps = self.config@.profiles;
        let ghost dir = self.directory@;
        let mut out: Vec<(Runtime, String)> = Vec::new();
        let mut i: usize = 0;
        assert(ps.subrange(0, 0) =~= Seq::<ProfileView>::empty());
        while i < self.config.profiles.len()
            invariant
                ps == self.config@.profiles,
                dir == self.directory@,
                i <= self.config.profiles.len(),
                model_locations(ps.subrange(0, i as int), dir, opt_str_view(home)) == Some(
                    pairs_view(out@),
                ),
            decreases self.config.profiles.len() - i,
        {
            let profile = &self.config.profiles[i];
            let ghost next = ps.subrange(0, i + 1);
            assert(next.drop_last() =~= ps.subrange(0, i as int));
            assert(next.last() == profile@);
            match &profile.model {
                Some(m) => {
                    match resolve(self.directory.as_str(), m.as_str(), home) {
                        Ok(x) => {
                            let ghost before = out@;
                            out.push((profile.runtime, x));
                            assert(pairs_view(out@) =~= pairs_view(before).push((profile.runtime, out@.last().1@)));
                        },
                        Err(e) => {
                            proof {
                                lemma_locations_none_extends(ps, dir, opt_str_view(home), i + 1);
                                assert(ps.subrange(0, ps.len() as int) =~= ps);
                            }
                            return Err(e);
                        },
                    }
                },
                None => {},
            }
            i = i + 1;
        }
        assert(ps.subrange(0, ps.len() as int) =~= ps);
        Ok(out)
    }

    /// The path of the catalog file.
    pub fn path(&self) -> (r: &str)
        ensures
            r@ == self.file(),
    {
        self.path.as_str()
    }

    /// The text to save for the catalog file.
    pub fn document_text(&self) -> (r: String)
        ensures
            r@ == self.text(),
    {
        render(&self.document)
    }

    /// Imports newly found models: adds to the configuration, and to the
    /// document's `[[profiles]]` tables, the profiles that `plan` gives, and
    /// returns how many it added. `represented` holds, for each profile with
    /// a model, its runtime and the model's identity; `discovered` holds the
    /// models found in each runtime's sources, which import takes in `Path`'s
    /// order, each path once.
    pub fn import(&mut self, represented: &Vec<(Runtime, String)>, discovered: &Discovered) -> (r:
        Result<usize, Error>)
        ensures
            match plan(
                old(self).config@,
                pairs_view(represented@),
                found_order(crate::catalog::strings_view(discovered.dwarfstar@)),
                found_order(crate::catalog::strings_view(discovered.llama_cpp@)),
            ) {
                None => r matches Err(e) && e.kind == ErrorKind::InvalidInput && e.message@
                    == "model has no file name"@,
                Some(st) => match entry_after_appends(
                    old(self).entries().get("profiles"@),
                    st.additions,
                ) {
                    None => r matches Err(e) && e.kind == ErrorKind::InvalidInput && e.message@
                        == "profiles must use [[profiles]] tables"@,
                    Some(e) => r == Ok::<usize, Error>(st.additions.len() as usize)
                        && final(self).config@ == with_profiles(old(self).config@, st.additions)
                        && final(self).entries() == with_profiles_entry(old(self).entries(), e)
                        && final(self).directory@ == old(self).directory@ && final(self).file()
                        == old(self).file(),
                },
            },
            r is Ok && ids_distinct(old(self).config@.profiles) ==> ids_distinct(
                final(self).config@.profiles,
            ),
            r is Ok ==> fresh_ids(
                old(self).config@.profiles,
                final(self).config@.profiles.subrange(
                    old(self).config@.profiles.len() as int,
                    final(self).config@.profiles.len() as int,
                ),
            ),
            r is Ok && config_valid(old(self).config@) && named_additions(
                final(self).config@.profiles.subrange(
                    old(self).config@.profiles.len() as int,
                    final(self).config@.profiles.len() as int,
                ),
            ) ==> config_valid(final(self).config@),
            r is Ok ==> ({
                let added = final(self).config@.profiles.subrange(
                    old(self).config@.profiles.len() as int,
                    final(self).config@.profiles.len() as int,
                );
                &&& forall|i: int, j: int|
                    0 <= i < j < added.len() ==> runtime_rank((#[trigger] added[i]).runtime)
                        <= runtime_rank((#[trigger] added[j]).runtime)
                &&& in_list_order(
                    added,
                    Runtime::Dwarfstar,
                    found_order(crate::catalog::strings_view(discovered.dwarfstar@)),
                )
                &&& in_list_order(
                    added,
                    Runtime::LlamaCpp,
                    found_order(crate::catalog::strings_view(discovered.llama_cpp@)),
                )
            }),
            r is Err ==> final(self).config@ == old(self).config@ && final(self).entries()
                == old(self).entries() && final(self).directory@ == old(self).directory@
                && final(self).file() == old(self).file(),
    {
        let ghost c0 = self.config@;
        let ghost m0 = self.entries();
        let ghost e0 = m0.get("profiles"@);
        let mut rest = plan_import(&self.config, represented, discovered)?;
        let ghost adds = profiles_view(rest@);
        let ghost dir0 = self.directory@;
        let ghost file0 = self.path@;
        let count = rest.len();
        let mut i: usize = 0;
        assert(c0.profiles + adds.subrange(0, 0) =~= c0.profiles);
        assert(with_profiles(c0, adds.subrange(0, 0)) =~= c0);
        assert(adds.subrange(0, 0) =~= Seq::<ProfileView>::empty());
        assert(with_profiles_entry(m0, e0) =~= m0);
        assert(profiles_view(rest@) =~= adds.subrange(0, count as int));
        while i < count
            invariant
                c0 == old(self).config@,
                m0 == old(self).entries(),
                e0 == m0.get("profiles"@),
                plan(
                    c0,
                    pairs_view(represented@),
                    found_order(crate::catalog::strings_view(discovered.dwarfstar@)),
                    found_order(crate::catalog::strings_view(discovered.llama_cpp@)),
                ) matches Some(st) && st.additions == adds,
                0 <= i <= count,
                count == adds.len(),
                profiles_view(rest@) == adds.subrange(i as int, count as int),
                self.config@ == with_profiles(c0, adds.subrange(0, i as int)),
                entry_after_appends(e0, adds.subrange(0, i as int)) matches Some(e) && self.entries()
                    == with_profiles_entry(m0, e),
                self.directory@ == dir0,
                self.path@ == file0,
                dir0 == old(self).directory@,
                file0 == old(self).path@,
            decreases count - i,
        {
            let ghost e_i = entry_after_appends(e0, adds.subrange(0, i as int))->0;
            let ghost next = adds.subrange(0, i + 1);
            assert(next.drop_last() =~= adds.subrange(0, i as int));
            assert(profiles_view(rest@).len() == rest@.len());
            assert(rest@.len() == count - i);
            let ghost old_rest = rest@;
            let p = rest.remove(0);
            proof {
                assert(rest@ == old_rest.remove(0));
                assert(old_rest[0] == p);
                assert(profiles_view(old_rest)[0] == p@);
                assert(adds.subrange(i as int, count as int)[0] == adds[i as int]);
                assert(p@ == adds[i as int]);
                assert forall|k: int| 0 <= k < rest@.len() implies #[trigger] profiles_view(rest@)[k]
                    == adds.subrange(i + 1, count as int)[k] by {
                    assert(rest@[k] == old_rest[k + 1]);
                    assert(profiles_view(old_rest)[k + 1] == adds.subrange(i as int, count as int)[k + 1]);
                }
                assert(profiles_view(rest@) =~= adds.subrange(i + 1, count as int));
            }
            assert(self.entries().get("profiles"@) == e_i) by {
                lemma_appends_empty(e0, adds.subrange(0, i as int));
            }
            let ghost before = self.entries();
            match append_profile(&mut self.document, &p) {
                Ok(_) => {},
                Err(err) => {
                    proof {
                        assert(entry_after_appends(e0, next) is None);
                        lemma_appends_none_extends(e0, adds, i + 1);
                        if i > 0 {
                            lemma_appends_give_tables(e0, adds.subrange(0, i as int));
                        }
                        assert(i == 0);
                        assert(c0.profiles + adds.subrange(0, 0) =~= c0.profiles);
                        assert(self.config@ =~= c0);
                        assert(self.entries() =~= m0);
                    }
                    return Err(err);
                },
            }
            let ghost pv = p@;
            let ghost ps_before = self.config.profiles@;
            self.config.profiles.push(p);
            proof {
                let x = entry_after_append(e_i, pv)->0;
                assert(entry_after_appends(e0, next) == Some(Some(x)));
                assert(self.entries() =~= with_profiles_entry(m0, Some(x))) by {
                    assert(self.entries() == before.insert("profiles"@, x));
                }
                assert(profiles_view(self.config.profiles@) =~= profiles_view(ps_before).push(pv));
                assert(c0.profiles + next =~= (c0.profiles + adds.subrange(0, i as int)).push(pv));
                assert(self.config@ =~= with_profiles(c0, next));
            }
            i = i + 1;
        }
        assert(adds.subrange(0, count as int) =~= adds);
        proof {
            let dw = found_order(crate::catalog::strings_view(discovered.dwarfstar@));
            let ll = found_order(crate::catalog::strings_view(discovered.llama_cpp@));
            let rp = pairs_view(represented@);
            let fin = self.config@.profiles;
            assert(fin == c0.profiles + adds);
            assert(fin.subrange(c0.profiles.len() as int, fin.len() as int) =~= adds);
            lemma_import_ids_fresh(c0, rp, dw, ll);
            lemma_import_order(c0, rp, dw, ll);
            crate::import_laws::lemma_import_dedups_and_covers(c0, rp, dw, ll);
            if config_valid(c0) && named_additions(adds) {
                assert(sound_additions(adds)) by {
                    assert forall|i: int| 0 <= i < adds.len() && (#[trigger] adds[i]).runtime
                        != Runtime::Omlx implies !all_whitespace(adds[i].name) && (
                    adds[i].model matches Some(m) && m.len() > 0) by {
                        assert(models_nonempty(adds));
                        assert(adds[i].model is Some);
                    }
                }
                lemma_import_keeps_catalog_valid(c0, rp, dw, ll);
            }
        }
        Ok(count)
    }
}

/// The tables import writes for the profiles `ps`, without prefixes.
pub open spec fn plain_tables(ps: Seq<ProfileView>) -> Seq<TableView> {
    ps.map_values(|p: ProfileView| profile_table(p, None))
}

/// Import keeps every existing `[[profiles]]` table, in place and unchanged,
/// and appends one table per added profile, in order.
pub proof fn lemma_import_keeps_tables(ts: Seq<TableView>, ps: Seq<ProfileView>)
    ensures
        entry_after_appends(Some(EntryView::Tables(ts)), ps) == Some(
            Some(EntryView::Tables(ts + plain_tables(ps))),
        ),
    decreases ps.len(),
{
    if ps.len() == 0 {
        assert(ts + plain_tables(ps) =~= ts);
    } else {
        lemma_import_keeps_tables(ts, ps.drop_last());
        assert(ts + plain_tables(ps) =~= (ts + plain_tables(ps.drop_last())).push(
            profile_table(ps.last(), None),
        ));
    }
}

/// Importing into a catalog whose `profiles` entry is an empty inline array
/// turns it into `[[profiles]]` tables, and the text that followed the array
/// (such as a comment) opens the first table.
pub proof fn lemma_import_moves_array_comment(suffix: Option<Seq<char>>, ps: Seq<ProfileView>)
    requires
        ps.len() > 0,
    ensures
        entry_after_appends(Some(EntryView::Array { len: 0, suffix }), ps) == Some(
            Some(
                EntryView::Tables(
                    seq![
                        profile_table(
                            ps[0],
                            match suffix {
                                Some(c) => Some(c + "\n"@),
                                None => None,
                            },
                        ),
                    ] + plain_tables(ps.subrange(1, ps.len() as int)),
                ),
            ),
        ),
    decreases ps.len(),
{
    let first = profile_table(
        ps[0],
        match suffix {
            Some(c) => Some(c + "\n"@),
            None => None,
        },
    );
    if ps.len() == 1 {
        assert(ps.drop_last() =~= Seq::<ProfileView>::empty());
        assert(seq![first] + plain_tables(ps.subrange(1, 1)) =~= seq![first]);
    } else {
        lemma_import_moves_array_comment(suffix, ps.drop_last());
        assert(ps.drop_last()[0] == ps[0]);
        assert(ps.drop_last().subrange(1, ps.len() - 1) =~= ps.subrange(1, ps.len() - 1));
        assert(seq![first] + plain_tables(ps.subrange(1, ps.len() as int)) =~= (seq![first]
            + plain_tables(ps.subrange(1, ps.len() - 1))).push(profile_table(ps.last(), None)));
    }
}

} // verus!
