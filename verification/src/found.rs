//! What a scan of the model sources finds: the directories it has entered,
//! and the models it found, kept in the order of `std::path::Path` with each
//! path once.

use vstd::prelude::*;

use crate::catalog::strings_view;
use crate::import::contains_string;

verus! {

broadcast use vstd::seq_lib::group_seq_properties;

/// Whether the path `a` comes before the path `b` in the order of
/// `std::path::Path`, which compares paths component by component.
pub uninterp spec fn path_precedes(a: Seq<char>, b: Seq<char>) -> bool;

/// Whether the path `a` comes before the path `b`.
///
/// Trusted: evaluates `Path::new(a) < Path::new(b)`. Claims only that the
/// result is a function of the two texts.
#[verifier::external_body]
fn path_before(a: &str, b: &str) -> (r: bool)
    ensures
        r == path_precedes(a@, b@),
{
    std::path::Path::new(a) < std::path::Path::new(b)
}

/// Neither path comes before the other: `Path`'s order holds them equal.
pub open spec fn order_equal(a: Seq<char>, b: Seq<char>) -> bool {
    !path_precedes(a, b) && !path_precedes(b, a)
}

/// `path` placed in `models` before the first model that it comes before;
/// left out when a model equal to it in `Path`'s order is met first.
pub open spec fn insert_in_order(models: Seq<Seq<char>>, path: Seq<char>) -> Seq<Seq<char>>
    decreases models.len(),
{
    if models.len() == 0 {
        seq![path]
    } else if path_precedes(path, models[0]) {
        seq![path] + models
    } else if !path_precedes(models[0], path) {
        models
    } else {
        seq![models[0]] + insert_in_order(models.drop_first(), path)
    }
}

/// The list of found models `models` after the scan finds `path`: a set of
/// paths in `Path`'s order takes a path in once.
pub open spec fn with_found_model(models: Seq<Seq<char>>, path: Seq<char>) -> Seq<Seq<char>> {
    if models.contains(path) {
        models
    } else {
        insert_in_order(models, path)
    }
}

/// The models of `found`, taken in one after another in the order found.
pub open spec fn found_order(found: Seq<Seq<char>>) -> Seq<Seq<char>>
    decreases found.len(),
{
    if found.len() == 0 {
        Seq::empty()
    } else {
        with_found_model(found_order(found.drop_last()), found.last())
    }
}

/// Each path of `models` comes before the next in `Path`'s order.
pub open spec fn path_ordered(models: Seq<Seq<char>>) -> bool {
    forall|i: int, j: int|
        0 <= i && j == i + 1 && j < models.len() ==> path_precedes(
            #[trigger] models[i],
            #[trigger] models[j],
        )
}

/// Takes the found model `path` into the list `models`.
pub fn add_found_model(models: &mut Vec<String>, path: String)
    ensures
        strings_view(final(models)@) == with_found_model(strings_view(old(models)@), path@),
{
    let ghost sv = strings_view(models@);
    if contains_string(models, &path) {
        return;
    }
    let mut i: usize = 0;
    assert(sv.subrange(0, 0) + sv.subrange(0, sv.len() as int) =~= sv);
    while i < models.len()
        invariant
            models@ == old(models)@,
            sv == strings_view(old(models)@),
            !sv.contains(path@),
            i <= models.len(),
            insert_in_order(sv, path@) == sv.subrange(0, i as int) + insert_in_order(
                sv.subrange(i as int, sv.len() as int),
                path@,
            ),
        decreases models.len() - i,
    {
        let ghost rest = sv.subrange(i as int, sv.len() as int);
        assert(rest[0] == models@[i as int]@);
        if path_before(path.as_str(), models[i].as_str()) {
            models.insert(i, path);
            proof {
                assert(strings_view(models@) =~= sv.subrange(0, i as int) + (seq![path@] + rest));
            }
            return;
        }
        if !path_before(models[i].as_str(), path.as_str()) {
            assert(insert_in_order(rest, path@) == rest);
            assert(sv.subrange(0, i as int) + rest =~= sv);
            return;
        }
        proof {
            assert(rest.drop_first() =~= sv.subrange(i + 1, sv.len() as int));
            assert(sv.subrange(0, i + 1) =~= sv.subrange(0, i as int) + seq![rest[0]]);
        }
        i = i + 1;
    }
    proof {
        assert(sv.subrange(i as int, sv.len() as int) =~= Seq::<Seq<char>>::empty());
        assert(sv.subrange(0, i as int) =~= sv);
    }
    models.push(path);
    assert(strings_view(models@) =~= sv.push(path@));
}

/// The model `path` is in `models`, or one that `Path`'s order holds equal
/// to it is.
pub open spec fn covered(models: Seq<Seq<char>>, path: Seq<char>) -> bool {
    models.contains(path) || exists|k: int| 0 <= k < models.len() && order_equal(path, #[trigger] models[k])
}

#[verifier::spinoff_prover]
proof fn lemma_insert_in_order(models: Seq<Seq<char>>, path: Seq<char>)
    requires
        path_ordered(models),
        models.no_duplicates(),
        !models.contains(path),
    ensures
        path_ordered(insert_in_order(models, path)),
        insert_in_order(models, path).no_duplicates(),
        forall|x: Seq<char>| models.contains(x) ==> insert_in_order(models, path).contains(x),
        forall|x: Seq<char>|
            insert_in_order(models, path).contains(x) ==> x == path || models.contains(x),
        covered(insert_in_order(models, path), path),
        insert_in_order(models, path).len() > 0,
        insert_in_order(models, path)[0] == path || (models.len() > 0
            && insert_in_order(models, path)[0] == models[0]),
    decreases models.len(),
{
    let r = insert_in_order(models, path);
    if models.len() == 0 {
        assert(r[0] == path);
    } else if path_precedes(path, models[0]) {
        assert(r =~= seq![path] + models);
        assert forall|i: int, j: int| 0 <= i && j == i + 1 && j < r.len() implies path_precedes(
            #[trigger] r[i],
            #[trigger] r[j],
        ) by {
            if i > 0 {
                assert(r[i] == models[i - 1] && r[j] == models[j - 1]);
            }
        }
        assert forall|a: int, b: int| 0 <= a < r.len() && 0 <= b < r.len() && a != b implies r[a]
            != r[b] by {
            if a > 0 && b > 0 {
                assert(r[a] == models[a - 1] && r[b] == models[b - 1]);
            } else if a == 0 {
                assert(r[b] == models[b - 1]);
            } else {
                assert(r[a] == models[a - 1]);
            }
        }
        assert(r[0] == path);
    } else if !path_precedes(models[0], path) {
        assert(order_equal(path, models[0]));
    } else {
        let t = models.drop_first();
        assert forall|i: int, j: int| 0 <= i && j == i + 1 && j < t.len() implies path_precedes(
            #[trigger] t[i],
            #[trigger] t[j],
        ) by {
            assert(t[i] == models[i + 1] && t[j] == models[j + 1]);
        }
        lemma_insert_in_order(t, path);
        let rt = insert_in_order(t, path);
        assert(r =~= seq![models[0]] + rt);
        assert(!t.contains(models[0])) by {
            if t.contains(models[0]) {
                let k = choose|k: int| 0 <= k < t.len() && t[k] == models[0];
                assert(models[k + 1] == models[0]);
            }
        }
        assert(!rt.contains(models[0]));
        assert forall|i: int, j: int| 0 <= i && j == i + 1 && j < r.len() implies path_precedes(
            #[trigger] r[i],
            #[trigger] r[j],
        ) by {
            if i == 0 {
                if rt[0] != path {
                    assert(models[1] == t[0]);
                }
            } else {
                assert(r[i] == rt[i - 1] && r[j] == rt[j - 1]);
            }
        }
        assert forall|a: int, b: int| 0 <= a < r.len() && 0 <= b < r.len() && a != b implies r[a]
            != r[b] by {
            if a > 0 && b > 0 {
                assert(r[a] == rt[a - 1] && r[b] == rt[b - 1]);
            } else if a == 0 {
                assert(r[b] == rt[b - 1]);
                assert(rt.contains(r[b]));
            } else {
                assert(r[a] == rt[a - 1]);
                assert(rt.contains(r[a]));
            }
        }
        assert forall|x: Seq<char>| models.contains(x) implies r.contains(x) by {
            if x != models[0] {
                let k = choose|k: int| 0 <= k < models.len() && models[k] == x;
                assert(t[k - 1] == x);
                assert(t.contains(x));
                assert(rt.contains(x));
                let m = choose|m: int| 0 <= m < rt.len() && rt[m] == x;
                assert(r[m + 1] == x);
            } else {
                assert(r[0] == x);
            }
        }
        assert forall|x: Seq<char>| r.contains(x) implies x == path || models.contains(x) by {
            let m = choose|m: int| 0 <= m < r.len() && r[m] == x;
            if m > 0 {
                assert(r[m] == rt[m - 1]);
                assert(rt.contains(x));
                if x != path {
                    assert(t.contains(x));
                    let k = choose|k: int| 0 <= k < t.len() && t[k] == x;
                    assert(t[k] == models[k + 1]);
                    assert(models.contains(x));
                }
            } else {
                assert(r[0] == models[0]);
                assert(models.contains(x));
            }
        }
        if rt.contains(path) {
            let m = choose|m: int| 0 <= m < rt.len() && rt[m] == path;
            assert(r[m + 1] == path);
        } else {
            let k = choose|k: int| 0 <= k < rt.len() && order_equal(path, #[trigger] rt[k]);
            assert(r[k + 1] == rt[k]);
        }
        assert(r[0] == models[0]);
    }
}

/// Taking a found model into a list of distinct models in `Path`'s order
/// keeps it in that order and distinct, keeps every model it held, adds no
/// other model, and leaves the new model in it or one that the order holds
/// equal to it.
pub proof fn lemma_found_model_kept_in_order(models: Seq<Seq<char>>, path: Seq<char>)
    requires
        path_ordered(models),
        models.no_duplicates(),
    ensures
        path_ordered(with_found_model(models, path)),
        with_found_model(models, path).no_duplicates(),
        forall|x: Seq<char>| models.contains(x) ==> with_found_model(models, path).contains(x),
        forall|x: Seq<char>|
            with_found_model(models, path).contains(x) ==> x == path || models.contains(x),
        covered(with_found_model(models, path), path),
{
    if !models.contains(path) {
        lemma_insert_in_order(models, path);
    }
}

/// The found models in `Path`'s order, each path once: every model found is
/// among them or one that the order holds equal to it is, and nothing else
/// is.
pub proof fn lemma_found_order(found: Seq<Seq<char>>)
    ensures
        path_ordered(found_order(found)),
        found_order(found).no_duplicates(),
        forall|x: Seq<char>| found_order(found).contains(x) ==> found.contains(x),
        forall|i: int| 0 <= i < found.len() ==> covered(found_order(found), #[trigger] found[i]),
    decreases found.len(),
{
    if found.len() > 0 {
        let front = found.drop_last();
        let p = found.last();
        lemma_found_order(front);
        let before = found_order(front);
        lemma_found_model_kept_in_order(before, p);
        let after = found_order(found);
        assert(after == with_found_model(before, p));
        assert forall|x: Seq<char>| after.contains(x) implies found.contains(x) by {
            if x != p {
                assert(front.contains(x));
                let k = choose|k: int| 0 <= k < front.len() && front[k] == x;
                assert(found[k] == x);
            }
        }
        assert forall|i: int| 0 <= i < found.len() implies covered(after, #[trigger] found[i]) by {
            if i < found.len() - 1 {
                assert(front[i] == found[i]);
                assert(covered(before, front[i]));
                if before.contains(found[i]) {
                    assert(after.contains(found[i]));
                } else {
                    let k = choose|k: int| 0 <= k < before.len() && order_equal(found[i], #[trigger] before[k]);
                    assert(before.contains(before[k]));
                    assert(after.contains(before[k]));
                    let m = choose|m: int| 0 <= m < after.len() && after[m] == before[k];
                    assert(order_equal(found[i], after[m]));
                }
            }
        }
    }
}

/// The models of `found` in `Path`'s order, each path once.
pub fn order_found(found: &Vec<String>) -> (r: Vec<String>)
    ensures
        strings_view(r@) == found_order(strings_view(found@)),
        path_ordered(strings_view(r@)),
        strings_view(r@).no_duplicates(),
{
    let ghost fv = strings_view(found@);
    let mut r: Vec<String> = Vec::new();
    let mut i: usize = 0;
    assert(strings_view(r@) =~= found_order(fv.subrange(0, 0)));
    while i < found.len()
        invariant
            fv == strings_view(found@),
            i <= found.len(),
            strings_view(r@) == found_order(fv.subrange(0, i as int)),
        decreases found.len() - i,
    {
        let next = found[i].clone();
        add_found_model(&mut r, next);
        proof {
            let sub = fv.subrange(0, i + 1);
            assert(sub.drop_last() =~= fv.subrange(0, i as int));
            assert(sub.last() == found@[i as int]@);
        }
        i = i + 1;
    }
    assert(fv.subrange(0, found.len() as int) =~= fv);
    proof {
        lemma_found_order(fv);
    }
    r
}

/// Records the directory `directory` as entered by the scan of a model
/// source, and tells whether this is its first visit: a directory met again
/// (through a link, say) is not scanned twice.
pub fn first_visit(visited: &mut Vec<String>, directory: String) -> (r: bool)
    ensures
        r == !strings_view(old(visited)@).contains(directory@),
        strings_view(final(visited)@) == (if r {
            strings_view(old(visited)@).push(directory@)
        } else {
            strings_view(old(visited)@)
        }),
{
    if contains_string(visited, &directory) {
        false
    } else {
        let ghost before = strings_view(visited@);
        visited.push(directory);
        assert(strings_view(visited@) =~= before.push(directory@));
        true
    }
}

} // verus!
