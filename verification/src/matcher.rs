use vstd::prelude::*;

use crate::foss_db::{
    app_names, catalog_app_names_spec, catalog_keys_spec, clone_apps, get_foss_database, FossApp,
    FossAlternative,
};
use crate::text::{
    chars_of, contains_spec, contains_sub, ends_with_chars, ends_with_spec, eq_chars, lower_chars,
    lower_spec, split_ws_chars, split_ws_spec, starts_with_chars, starts_with_spec,
};

verus! {

// The alternative matcher: resolves a free-text product name against the
// catalog with an exclusion guard, then an exact pass, then a guarded fuzzy
// pass, then a word-subset pass. Catalog keys are always traversed in their
// fixed catalog order, so the first match of each pass is well defined.

/// Products that are themselves free/open-source or otherwise get no
/// recommendation. The lowercased query is excluded when it contains, or is
/// contained by, any of these lowercase tokens.
#[verifier::opaque]
pub open spec fn excluded_spec(ql: Seq<char>) -> bool {
    ||| (contains_spec(ql, "git"@) || contains_spec("git"@, ql))
    ||| (contains_spec(ql, "python"@) || contains_spec("python"@, ql))
    ||| (contains_spec(ql, "node"@) || contains_spec("node"@, ql))
    ||| (contains_spec(ql, "rust"@) || contains_spec("rust"@, ql))
    ||| (contains_spec(ql, "go"@) || contains_spec("go"@, ql))
    ||| (contains_spec(ql, "java"@) || contains_spec("java"@, ql))
    ||| (contains_spec(ql, "ruby"@) || contains_spec("ruby"@, ql))
    ||| (contains_spec(ql, "perl"@) || contains_spec("perl"@, ql))
    ||| (contains_spec(ql, "firefox"@) || contains_spec("firefox"@, ql))
    ||| (contains_spec(ql, "vlc"@) || contains_spec("vlc"@, ql))
    ||| (contains_spec(ql, "gimp"@) || contains_spec("gimp"@, ql))
    ||| (contains_spec(ql, "blender"@) || contains_spec("blender"@, ql))
    ||| (contains_spec(ql, "inkscape"@) || contains_spec("inkscape"@, ql))
    ||| (contains_spec(ql, "libreoffice"@) || contains_spec("libreoffice"@, ql))
    ||| (contains_spec(ql, "7-zip"@) || contains_spec("7-zip"@, ql))
    ||| (contains_spec(ql, "notepad++"@) || contains_spec("notepad++"@, ql))
    ||| (contains_spec(ql, "vs code"@) || contains_spec("vs code"@, ql))
    ||| (contains_spec(ql, "visual studio code"@) || contains_spec("visual studio code"@, ql))
    ||| (contains_spec(ql, "audacity"@) || contains_spec("audacity"@, ql))
    ||| (contains_spec(ql, "obs"@) || contains_spec("obs"@, ql))
    ||| (contains_spec(ql, "handbrake"@) || contains_spec("handbrake"@, ql))
    ||| (contains_spec(ql, "filezilla"@) || contains_spec("filezilla"@, ql))
    ||| (contains_spec(ql, "putty"@) || contains_spec("putty"@, ql))
    ||| (contains_spec(ql, "krita"@) || contains_spec("krita"@, ql))
    ||| (contains_spec(ql, "kdenlive"@) || contains_spec("kdenlive"@, ql))
    ||| (contains_spec(ql, "bitwarden"@) || contains_spec("bitwarden"@, ql))
    ||| (contains_spec(ql, "keepass"@) || contains_spec("keepass"@, ql))
    ||| (contains_spec(ql, "thunderbird"@) || contains_spec("thunderbird"@, ql))
    ||| (contains_spec(ql, "brave"@) || contains_spec("brave"@, ql))
    ||| (contains_spec(ql, "chromium"@) || contains_spec("chromium"@, ql))
}

fn tok(ql: &Vec<char>, t: &str) -> (r: bool)
    ensures
        r == (contains_spec(ql@, t@) || contains_spec(t@, ql@)),
{
    let tv = chars_of(t);
    contains_sub(ql, &tv) || contains_sub(&tv, ql)
}

/// Whether the lowercased query falls under the exclusion guard.
pub(crate) fn excluded(ql: &Vec<char>) -> (r: bool)
    ensures
        r == excluded_spec(ql@),
{
    proof {
        reveal(excluded_spec);
    }
    tok(ql, "git") || tok(ql, "python") || tok(ql, "node") || tok(ql, "rust") || tok(ql, "go")
        || tok(ql, "java") || tok(ql, "ruby") || tok(ql, "perl") || tok(ql, "firefox") || tok(
        ql,
        "vlc",
    ) || tok(ql, "gimp") || tok(ql, "blender") || tok(ql, "inkscape") || tok(ql, "libreoffice")
        || tok(ql, "7-zip") || tok(ql, "notepad++") || tok(ql, "vs code") || tok(
        ql,
        "visual studio code",
    ) || tok(ql, "audacity") || tok(ql, "obs") || tok(ql, "handbrake") || tok(ql, "filezilla")
        || tok(ql, "putty") || tok(ql, "krita") || tok(ql, "kdenlive") || tok(ql, "bitwarden")
        || tok(ql, "keepass") || tok(ql, "thunderbird") || tok(ql, "brave") || tok(ql, "chromium")
}

/// The key matches the query at a word boundary, in either direction.
pub open spec fn key_fuzzy_spec(ql: Seq<char>, kl: Seq<char>) -> bool {
    ||| starts_with_spec(ql, kl)
    ||| ends_with_spec(ql, kl)
    ||| starts_with_spec(kl, ql)
    ||| ends_with_spec(kl, ql)
}

/// `w` occurs as a substring of some word of the query.
pub open spec fn word_covered(q_words: Seq<Seq<char>>, w: Seq<char>) -> bool {
    exists|j: int| 0 <= j < q_words.len() && contains_spec(q_words[j], w)
}

/// Every word of the key occurs as a substring of some word of the query.
pub open spec fn word_subset_spec(key_words: Seq<Seq<char>>, q_words: Seq<Seq<char>>) -> bool {
    forall|i: int| 0 <= i < key_words.len() ==> word_covered(q_words, #[trigger] key_words[i])
}

/// The first key index at or after `i` satisfying `pred`, if any.
pub open spec fn first_key_idx(
    keys: Seq<Seq<char>>,
    pred: spec_fn(Seq<char>) -> bool,
    i: int,
) -> Option<int>
    decreases keys.len() - i,
{
    if !(0 <= i < keys.len()) {
        None
    } else if pred(keys[i]) {
        Some(i)
    } else {
        first_key_idx(keys, pred, i + 1)
    }
}

/// `first_key_idx` names the first satisfying index, or nothing when no
/// index satisfies the predicate.
pub proof fn lemma_first_key_idx(keys: Seq<Seq<char>>, pred: spec_fn(Seq<char>) -> bool, i: int)
    requires
        0 <= i <= keys.len(),
    ensures
        match first_key_idx(keys, pred, i) {
            Some(k) => i <= k < keys.len() && pred(keys[k]) && forall|j: int|
                i <= j < k ==> !pred(keys[j]),
            None => forall|j: int| i <= j < keys.len() ==> !pred(keys[j]),
        },
    decreases keys.len() - i,
{
    if i < keys.len() && !pred(keys[i]) {
        lemma_first_key_idx(keys, pred, i + 1);
    }
}

/// The first satisfying index determines `first_key_idx`.
pub proof fn lemma_first_key_idx_unique(
    keys: Seq<Seq<char>>,
    pred: spec_fn(Seq<char>) -> bool,
    k: int,
)
    requires
        0 <= k < keys.len(),
        pred(keys[k]),
        forall|j: int| 0 <= j < k ==> !pred(keys[j]),
    ensures
        first_key_idx(keys, pred, 0) == Some(k),
{
    lemma_first_key_idx(keys, pred, 0);
    match first_key_idx(keys, pred, 0) {
        Some(m) => {
            if m < k {
                assert(!pred(keys[m]));
            } else if m > k {
                assert(!pred(keys[k]));
            }
        },
        None => {
            assert(!pred(keys[k]));
        },
    }
}

pub open spec fn exact_pred(q: Seq<char>) -> spec_fn(Seq<char>) -> bool {
    |k: Seq<char>| k == q
}

pub open spec fn fuzzy_pred(q: Seq<char>) -> spec_fn(Seq<char>) -> bool {
    |k: Seq<char>| key_fuzzy_spec(lower_spec(q), lower_spec(k))
}

pub open spec fn word_pred(q: Seq<char>) -> spec_fn(Seq<char>) -> bool {
    |k: Seq<char>| word_subset_spec(split_ws_spec(lower_spec(k)), split_ws_spec(lower_spec(q)))
}

/// The index of the catalog key that a query resolves to, if any: the
/// exclusion guard first, then the first exact key, then — only for
/// lowercased queries of length at least five — the first fuzzy key, then
/// the first word-subset key.
pub open spec fn resolve_keys_idx(keys: Seq<Seq<char>>, q: Seq<char>) -> Option<int> {
    let ql = lower_spec(q);
    if excluded_spec(ql) {
        None
    } else if first_key_idx(keys, exact_pred(q), 0) is Some {
        first_key_idx(keys, exact_pred(q), 0)
    } else if ql.len() >= 5 {
        if first_key_idx(keys, fuzzy_pred(q), 0) is Some {
            first_key_idx(keys, fuzzy_pred(q), 0)
        } else {
            first_key_idx(keys, word_pred(q), 0)
        }
    } else {
        None
    }
}

/// The keys of a catalog, in order.
pub open spec fn db_keys(db: Seq<FossAlternative>) -> Seq<Seq<char>> {
    db.map_values(|e: FossAlternative| e.paid_software@)
}

#[verifier::loop_isolation(false)]
fn word_subset_exec(kw: &Vec<Vec<char>>, qw: &Vec<Vec<char>>) -> (r: bool)
    ensures
        r == word_subset_spec(kw.deep_view(), qw.deep_view()),
{
    let mut i: usize = 0;
    while i < kw.len()
        invariant
            i <= kw@.len(),
            kw@.len() == kw.deep_view().len(),
            qw@.len() == qw.deep_view().len(),
            forall|a: int| 0 <= a < i ==> word_covered(qw.deep_view(), #[trigger] kw.deep_view()[a]),
        decreases kw@.len() - i,
    {
        let mut j: usize = 0;
        let mut hit = false;
        while j < qw.len()
            invariant
                i < kw@.len(),
                j <= qw@.len(),
                kw@.len() == kw.deep_view().len(),
                qw@.len() == qw.deep_view().len(),
                hit ==> word_covered(qw.deep_view(), kw.deep_view()[i as int]),
                !hit ==> forall|b: int|
                    0 <= b < j ==> !contains_spec(qw.deep_view()[b], kw.deep_view()[i as int]),
            decreases qw@.len() - j,
        {
            proof {
                assert(qw.deep_view()[j as int] == qw@[j as int]@);
                assert(kw.deep_view()[i as int] == kw@[i as int]@);
            }
            if contains_sub(&qw[j], &kw[i]) {
                hit = true;
                proof {
                    assert(word_covered(qw.deep_view(), kw.deep_view()[i as int]));
                }
            }
            j += 1;
        }
        if !hit {
            proof {
                assert(!word_covered(qw.deep_view(), kw.deep_view()[i as int])) by {
                    if word_covered(qw.deep_view(), kw.deep_view()[i as int]) {
                        let b = choose|b: int|
                            0 <= b < qw.deep_view().len() && contains_spec(
                                qw.deep_view()[b],
                                kw.deep_view()[i as int],
                            );
                        assert(!contains_spec(qw.deep_view()[b], kw.deep_view()[i as int]));
                    }
                }
                assert(!word_subset_spec(kw.deep_view(), qw.deep_view()));
            }
            return false;
        }
        i += 1;
    }
    true
}

/// Resolves a query against a given catalog: the exclusion guard, then the
/// exact, guarded fuzzy and word-subset passes, each traversing the keys
/// in catalog order. Returns a copy of the matched entry's substitutes.
#[verifier::loop_isolation(false)]
pub fn resolve_against(db: &Vec<FossAlternative>, name: &str) -> (r: Option<Vec<FossApp>>)
    ensures
        match r {
            Some(apps) => resolve_keys_idx(db_keys(db@), name@) matches Some(i) && 0 <= i
                < db@.len() && apps@ == db@[i].alternatives@,
            None => resolve_keys_idx(db_keys(db@), name@) is None,
        },
{
    let q = chars_of(name);
    let ql = lower_chars(&q);
    let ghost keys = db_keys(db@);
    proof {
        assert(keys.len() == db@.len());
    }
    if excluded(&ql) {
        return None;
    }

    // exact pass
    let mut i: usize = 0;
    while i < db.len()
        invariant
            keys == db_keys(db@),
            i <= db@.len(),
            q@ == name@,
            forall|k: int| 0 <= k < i ==> db@[k].paid_software@ != name@,
        decreases db@.len() - i,
    {
        let kc = chars_of(db[i].paid_software.as_str());
        if eq_chars(&kc, &q) {
            proof {
                assert(keys[i as int] == db@[i as int].paid_software@);
                assert(exact_pred(name@)(keys[i as int]));
                assert forall|j: int| 0 <= j < i implies !exact_pred(name@)(keys[j]) by {
                    assert(keys[j] == db@[j].paid_software@);
                }
                lemma_first_key_idx_unique(keys, exact_pred(name@), i as int);
            }
            return Some(clone_apps(&db[i].alternatives));
        }
        i += 1;
    }
    proof {
        assert forall|j: int| 0 <= j < keys.len() implies !exact_pred(name@)(keys[j]) by {
            assert(keys[j] == db@[j].paid_software@);
        }
        lemma_first_key_idx(keys, exact_pred(name@), 0);
        assert(first_key_idx(keys, exact_pred(name@), 0) is None);
    }

    if ql.len() < 5 {
        return None;
    }

    // fuzzy pass
    let mut i: usize = 0;
    while i < db.len()
        invariant
            keys == db_keys(db@),
            i <= db@.len(),
            q@ == name@,
            ql@ == lower_spec(name@),
            forall|k: int|
                0 <= k < i ==> !key_fuzzy_spec(
                    lower_spec(name@),
                    lower_spec((#[trigger] db@[k]).paid_software@),
                ),
        decreases db@.len() - i,
    {
        let kc = chars_of(db[i].paid_software.as_str());
        let kl = lower_chars(&kc);
        if starts_with_chars(&ql, &kl) || ends_with_chars(&ql, &kl) || starts_with_chars(&kl, &ql)
            || ends_with_chars(&kl, &ql) {
            proof {
                assert(keys[i as int] == db@[i as int].paid_software@);
                assert(fuzzy_pred(name@)(keys[i as int]));
                assert forall|j: int| 0 <= j < i implies !fuzzy_pred(name@)(keys[j]) by {
                    assert(keys[j] == db@[j].paid_software@);
                }
                lemma_first_key_idx_unique(keys, fuzzy_pred(name@), i as int);
            }
            return Some(clone_apps(&db[i].alternatives));
        }
        i += 1;
    }
    proof {
        assert forall|j: int| 0 <= j < keys.len() implies !fuzzy_pred(name@)(keys[j]) by {
            assert(keys[j] == db@[j].paid_software@);
        }
        lemma_first_key_idx(keys, fuzzy_pred(name@), 0);
        assert(first_key_idx(keys, fuzzy_pred(name@), 0) is None);
    }

    // word-subset pass
    let qw = split_ws_chars(&ql);
    let mut i: usize = 0;
    while i < db.len()
        invariant
            keys == db_keys(db@),
            i <= db@.len(),
            q@ == name@,
            ql@ == lower_spec(name@),
            qw.deep_view() == split_ws_spec(lower_spec(name@)),
            forall|k: int|
                0 <= k < i ==> !word_subset_spec(
                    split_ws_spec(lower_spec((#[trigger] db@[k]).paid_software@)),
                    split_ws_spec(lower_spec(name@)),
                ),
        decreases db@.len() - i,
    {
        let kc = chars_of(db[i].paid_software.as_str());
        let kl = lower_chars(&kc);
        let kw = split_ws_chars(&kl);
        if word_subset_exec(&kw, &qw) {
            proof {
                assert(keys[i as int] == db@[i as int].paid_software@);
                assert(kw.deep_view() == split_ws_spec(lower_spec(db@[i as int].paid_software@)));
                assert(word_pred(name@)(keys[i as int]));
                assert forall|j: int| 0 <= j < i implies !word_pred(name@)(keys[j]) by {
                    assert(keys[j] == db@[j].paid_software@);
                }
                lemma_first_key_idx_unique(keys, word_pred(name@), i as int);
            }
            return Some(clone_apps(&db[i].alternatives));
        }
        i += 1;
    }
    proof {
        assert forall|j: int| 0 <= j < keys.len() implies !word_pred(name@)(keys[j]) by {
            assert(keys[j] == db@[j].paid_software@);
        }
        lemma_first_key_idx(keys, word_pred(name@), 0);
        assert(first_key_idx(keys, word_pred(name@), 0) is None);
    }
    None
}

/// Resolves a product name against the fixed catalog. The result is pinned
/// at the level of the catalog's keys and substitute names: the returned
/// list, when there is one, is exactly the substitute list of the catalog
/// key that `resolve_keys_idx` names.
pub fn find_alternatives(software_name: &str) -> (r: Option<Vec<FossApp>>)
    ensures
        match r {
            Some(apps) => resolve_keys_idx(catalog_keys_spec(), software_name@) matches Some(i)
                && 0 <= i < catalog_keys_spec().len() && app_names(apps@)
                == catalog_app_names_spec(i),
            None => resolve_keys_idx(catalog_keys_spec(), software_name@) is None,
        },
{
    let db = get_foss_database();
    proof {
        assert(db_keys(db@) =~= catalog_keys_spec());
    }
    resolve_against(&db, software_name)
}

/// A query whose lowercase form is shorter than five characters resolves
/// only by exact key equality: with no exact key, there is no match, no
/// matter what the fuzzy and word-subset passes would find.
pub proof fn lemma_short_query_needs_exact(keys: Seq<Seq<char>>, q: Seq<char>)
    requires
        lower_spec(q).len() < 5,
        forall|i: int| 0 <= i < keys.len() ==> keys[i] != q,
    ensures
        resolve_keys_idx(keys, q) is None,
{
    lemma_first_key_idx(keys, exact_pred(q), 0);
    match first_key_idx(keys, exact_pred(q), 0) {
        Some(k) => {
            assert(exact_pred(q)(keys[k]));
            assert(keys[k] != q);
        },
        None => {},
    }
}

} // verus!
