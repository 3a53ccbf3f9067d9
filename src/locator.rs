use vstd::prelude::*;
use vstd::string::*;
use crate::content_type::{eq_ignore_ascii_case, str_eq_ignore_ascii_case};
use crate::extension::{ascii_lowercase, lower_seq, str_eq};
use crate::text::{
    after_last, contains, ends_with, has_infix, has_prefix, has_suffix, last_index,
    last_index_of, starts_with, text_after_last,
};

verus! {

/// Two bundle identifiers name the same application when, ignoring ASCII
/// case, they are equal or one ends with a dot followed by the other.
pub open spec fn ids_match(a: Seq<char>, b: Seq<char>) -> bool {
    let x = lower_seq(a);
    let y = lower_seq(b);
    x == y || has_suffix(x, "."@ + y) || has_suffix(y, "."@ + x)
}

/// Whether a declared bundle identifier matches the one looked for.
pub fn bundle_ids_match(declared: &str, wanted: &str) -> (r: bool)
    ensures
        r == ids_match(declared@, wanted@),
{
    let a = ascii_lowercase(declared);
    let b = ascii_lowercase(wanted);
    let dot_a = String::from_str(".").concat(a.as_str());
    let dot_b = String::from_str(".").concat(b.as_str());
    str_eq(a.as_str(), b.as_str()) || ends_with(a.as_str(), dot_b.as_str()) || ends_with(
        b.as_str(),
        dot_a.as_str(),
    )
}

/// Identifier matching does not depend on which side is declared.
pub proof fn lemma_ids_match_symmetric(a: Seq<char>, b: Seq<char>)
    ensures
        ids_match(a, b) == ids_match(b, a),
{
}

/// The last path component of `p`.
pub open spec fn file_name(p: Seq<char>) -> Seq<char> {
    after_last(p, '/')
}

/// A file name without its extension; a name whose only dot leads keeps it.
pub open spec fn stem_of(name: Seq<char>) -> Seq<char> {
    match last_index(name, '.') {
        Some(i) => if i > 0 {
            name.subrange(0, i)
        } else {
            name
        },
        None => name,
    }
}

/// The extension of a file name, where it has one.
pub open spec fn extension_of(name: Seq<char>) -> Option<Seq<char>> {
    match last_index(name, '.') {
        Some(i) => if i > 0 {
            Some(name.subrange(i + 1, name.len() as int))
        } else {
            None
        },
        None => None,
    }
}

/// The file stem of the last component of a path.
pub fn path_stem(p: &str) -> (r: &str)
    ensures
        r@ == stem_of(file_name(p@)),
{
    let name = text_after_last(p, '/');
    match last_index_of(name, '.') {
        Some(i) => if i > 0 {
            name.substring_char(0, i)
        } else {
            name
        },
        None => name,
    }
}

/// Whether the last component of a path has the extension `app`, in any case.
pub open spec fn is_bundle_path(p: Seq<char>) -> bool {
    extension_of(file_name(p)) matches Some(e) && eq_ignore_ascii_case(e, "app"@)
}

pub fn is_bundle_path_exec(p: &str) -> (r: bool)
    ensures
        r == is_bundle_path(p@),
{
    let name = text_after_last(p, '/');
    let n = name.unicode_len();
    match last_index_of(name, '.') {
        Some(i) => if i > 0 {
            str_eq_ignore_ascii_case(name.substring_char(i + 1, n), "app")
        } else {
            false
        },
        None => false,
    }
}

/// `q` is `p` or one of its ancestors: `p` cut just before one of its slashes.
pub open spec fn is_ancestor_cut(p: Seq<char>, j: int) -> bool {
    0 < j <= p.len() && (j == p.len() || p[j] == '/')
}

/// The nearest of `p` and its ancestors that is a bundle directory.
pub open spec fn enclosing_bundle_spec(p: Seq<char>) -> Option<Seq<char>> {
    if exists|j: int| is_ancestor_cut(p, j) && is_bundle_path(#[trigger] p.subrange(0, j)) {
        let j = choose|j: int|
            is_ancestor_cut(p, j) && is_bundle_path(#[trigger] p.subrange(0, j)) && forall|k: int|
                j < k <= p.len() && is_ancestor_cut(p, k) ==> !is_bundle_path(
                    #[trigger] p.subrange(0, k),
                );
        Some(p.subrange(0, j))
    } else {
        None
    }
}

/// The bundle directory that holds `p`, or `p` itself where it is one: the
/// nearest ancestor whose name ends in `.app`.
pub fn enclosing_bundle(p: &str) -> (r: Option<String>)
    ensures
        r matches Some(b) ==> enclosing_bundle_spec(p@) == Some(b@),
        r is None ==> enclosing_bundle_spec(p@) is None,
{
    let n = p.unicode_len();
    let mut j: usize = n;
    while j > 0
        invariant
            n == p@.len(),
            j <= n,
            forall|k: int|
                j < k <= n && is_ancestor_cut(p@, k) ==> !is_bundle_path(#[trigger] p@.subrange(0, k)),
        decreases j,
    {
        if j == n || p.get_char(j) == '/' {
            let q = p.substring_char(0, j);
            if is_bundle_path_exec(q) {
                proof {
                    let w = choose|w: int|
                        is_ancestor_cut(p@, w) && is_bundle_path(#[trigger] p@.subrange(0, w))
                            && forall|k: int|
                            w < k <= p@.len() && is_ancestor_cut(p@, k) ==> !is_bundle_path(
                                #[trigger] p@.subrange(0, k),
                            );
                    assert(is_ancestor_cut(p@, j as int) && is_bundle_path(p@.subrange(0, j as int)));
                    if w < j {
                    } else if w > j {
                    }
                }
                return Some(String::from_str(q));
            }
        }
        j = j - 1;
    }
    proof {
        assert forall|k: int| is_ancestor_cut(p@, k) implies !is_bundle_path(
            #[trigger] p@.subrange(0, k),
        ) by {}
    }
    None
}

/// An application found by scanning a directory: its path, and what its
/// info file declares.
pub struct ScannedApp {
    pub path: String,
    pub declared_id: Option<String>,
    pub bundle_name: Option<String>,
}

/// A scanned application confirmed by the identifier its info file declares.
pub open spec fn confirmed(app: ScannedApp, id: Seq<char>) -> bool {
    app.declared_id matches Some(d) && ids_match(d@, id)
}

/// The name hint of an identifier: its last dot-separated part, lower-cased.
pub open spec fn name_hint(id: Seq<char>) -> Seq<char> {
    lower_seq(after_last(id, '.'))
}

/// A scanned application whose folder stem or declared name holds the hint.
pub open spec fn hinted(app: ScannedApp, hint: Seq<char>) -> bool {
    has_infix(lower_seq(stem_of(file_name(app.path@))), hint) || (app.bundle_name matches Some(
        b,
    ) && has_infix(lower_seq(b@), hint))
}

fn is_confirmed(app: &ScannedApp, id: &str) -> (r: bool)
    ensures
        r == confirmed(*app, id@),
{
    match &app.declared_id {
        Some(d) => bundle_ids_match(d.as_str(), id),
        None => false,
    }
}

fn is_hinted(app: &ScannedApp, hint: &str) -> (r: bool)
    ensures
        r == hinted(*app, hint@),
{
    let stem = ascii_lowercase(path_stem(app.path.as_str()));
    if contains(stem.as_str(), hint) {
        return true;
    }
    match &app.bundle_name {
        Some(b) => {
            let lowered = ascii_lowercase(b.as_str());
            contains(lowered.as_str(), hint)
        },
        None => false,
    }
}

/// Picks, among the applications scanned under one directory, the first
/// confirmed by its declared identifier; failing that, the first whose
/// folder stem or declared name holds the identifier's name hint.
pub fn find_app_in_scan(apps: &Vec<ScannedApp>, bundle_id: &str) -> (r: Option<usize>)
    ensures
        r matches Some(i) ==> i < apps@.len() && ((confirmed(apps@[i as int], bundle_id@)
            && forall|k: int| 0 <= k < i ==> !confirmed(#[trigger] apps@[k], bundle_id@)) || ((
        forall|k: int| 0 <= k < apps@.len() ==> !confirmed(#[trigger] apps@[k], bundle_id@))
            && hinted(apps@[i as int], name_hint(bundle_id@)) && forall|k: int|
            0 <= k < i ==> !hinted(#[trigger] apps@[k], name_hint(bundle_id@)))),
        r is None ==> forall|k: int|
            0 <= k < apps@.len() ==> !confirmed(#[trigger] apps@[k], bundle_id@) && !hinted(
                apps@[k],
                name_hint(bundle_id@),
            ),
{
    let mut i: usize = 0;
    while i < apps.len()
        invariant
            i <= apps.len(),
            forall|k: int| 0 <= k < i ==> !confirmed(#[trigger] apps@[k], bundle_id@),
        decreases apps.len() - i,
    {
        if is_confirmed(&apps[i], bundle_id) {
            return Some(i);
        }
        i = i + 1;
    }
    let hint = ascii_lowercase(text_after_last(bundle_id, '.'));
    let mut i: usize = 0;
    while i < apps.len()
        invariant
            i <= apps.len(),
            hint@ == name_hint(bundle_id@),
            forall|k: int| 0 <= k < apps@.len() ==> !confirmed(#[trigger] apps@[k], bundle_id@),
            forall|k: int| 0 <= k < i ==> !hinted(#[trigger] apps@[k], name_hint(bundle_id@)),
        decreases apps.len() - i,
    {
        if is_hinted(&apps[i], hint.as_str()) {
            return Some(i);
        }
        i = i + 1;
    }
    None
}

/// The directories where applications are looked for first, in order.
pub open spec fn preferred_dirs(home: Seq<char>) -> Seq<Seq<char>> {
    seq![
        "/Applications"@,
        "/System/Applications"@,
        "/System/Applications/Utilities"@,
        home + "/Applications"@,
    ]
}

/// `p` is the directory `d` or lies under it.
pub open spec fn path_under(p: Seq<char>, d: Seq<char>) -> bool {
    p == d || has_prefix(p, d + "/"@)
}

fn path_under_exec(p: &str, d: &str) -> (r: bool)
    ensures
        r == path_under(p@, d@),
{
    if str_eq(p, d) {
        return true;
    }
    let prefix = String::from_str(d).concat("/");
    starts_with(p, prefix.as_str())
}

/// A candidate of the system index confirmed by the identifier its info file
/// declares, compared without ASCII case.
pub open spec fn declares(declared: Option<String>, id: Seq<char>) -> bool {
    declared matches Some(d) && eq_ignore_ascii_case(d@, id)
}

/// Candidate `i` is the first under directory `d`.
pub open spec fn first_under(cands: Seq<String>, d: Seq<char>, i: int) -> bool {
    0 <= i < cands.len() && path_under(cands[i]@, d) && forall|j: int|
        0 <= j < i ==> !path_under(#[trigger] cands[j]@, d)
}

/// No candidate lies under directory `d`.
pub open spec fn none_under(cands: Seq<String>, d: Seq<char>) -> bool {
    forall|j: int| 0 <= j < cands.len() ==> !path_under(#[trigger] cands[j]@, d)
}

/// The candidate chosen by location: under the earliest preferred directory
/// that holds any candidate, the first of them.
pub open spec fn chosen_by_location(cands: Seq<String>, home: Seq<char>, i: int) -> bool {
    exists|k: int|
        0 <= k < 4 && first_under(cands, #[trigger] preferred_dirs(home)[k], i) && forall|m: int|
            0 <= m < k ==> none_under(cands, #[trigger] preferred_dirs(home)[m])
}

/// Picks among the system index's candidates for an identifier: the first
/// whose info file declares that identifier; else, under the earliest
/// preferred directory that holds a candidate, the first one; else the
/// first. `declared` holds, for each candidate, the identifier its info file
/// declares, where it could be read.
pub fn choose_index_candidate(
    candidates: &Vec<String>,
    declared: &Vec<Option<String>>,
    bundle_id: &str,
    home: &str,
) -> (r: Option<usize>)
    requires
        declared@.len() == candidates@.len(),
    ensures
        r is None <==> candidates@.len() == 0,
        r matches Some(i) ==> i < candidates@.len() && ((declares(declared@[i as int], bundle_id@)
            && forall|k: int| 0 <= k < i ==> !declares(#[trigger] declared@[k], bundle_id@)) || ((
        forall|k: int| 0 <= k < declared@.len() ==> !declares(#[trigger] declared@[k], bundle_id@))
            && chosen_by_location(candidates@, home@, i as int)) || ((forall|k: int|
            0 <= k < declared@.len() ==> !declares(#[trigger] declared@[k], bundle_id@)) && (forall|
            k: int,
        | 0 <= k < 4 ==> none_under(candidates@, #[trigger] preferred_dirs(home@)[k])) && i == 0)),
{
    let mut i: usize = 0;
    while i < declared.len()
        invariant
            i <= declared.len(),
            declared@.len() == candidates@.len(),
            forall|k: int| 0 <= k < i ==> !declares(#[trigger] declared@[k], bundle_id@),
        decreases declared.len() - i,
    {
        let hit = match &declared[i] {
            Some(d) => str_eq_ignore_ascii_case(d.as_str(), bundle_id),
            None => false,
        };
        if hit {
            return Some(i);
        }
        i = i + 1;
    }
    let user_apps = String::from_str(home).concat("/Applications");
    let dirs: Vec<&str> = vec![
        "/Applications",
        "/System/Applications",
        "/System/Applications/Utilities",
        user_apps.as_str(),
    ];
    let ghost pd = preferred_dirs(home@);
    assert(dirs@.map_values(|d: &str| d@) =~= pd);
    let mut k: usize = 0;
    while k < 4
        invariant
            k <= 4,
            declared@.len() == candidates@.len(),
            forall|q: int| 0 <= q < declared@.len() ==> !declares(#[trigger] declared@[q], bundle_id@),
            dirs@.len() == 4,
            dirs@.map_values(|d: &str| d@) == pd,
            pd == preferred_dirs(home@),
            forall|m: int| 0 <= m < k ==> none_under(candidates@, #[trigger] pd[m]),
        decreases 4 - k,
    {
        assert(dirs@[k as int]@ == pd[k as int]);
        let mut j: usize = 0;
        while j < candidates.len()
            invariant
                j <= candidates.len(),
                k < 4,
                declared@.len() == candidates@.len(),
                forall|q: int| 0 <= q < declared@.len() ==> !declares(#[trigger] declared@[q], bundle_id@),

                dirs@.len() == 4,
                dirs@[k as int]@ == pd[k as int],
                pd == preferred_dirs(home@),
                forall|m: int| 0 <= m < k ==> none_under(candidates@, #[trigger] pd[m]),
                forall|q: int| 0 <= q < j ==> !path_under(#[trigger] candidates@[q]@, pd[k as int]),
            decreases candidates.len() - j,
        {
            if path_under_exec(candidates[j].as_str(), dirs[k]) {
                assert(first_under(candidates@, pd[k as int], j as int));
                assert(chosen_by_location(candidates@, home@, j as int));
                return Some(j);
            }
            j = j + 1;
        }
        k = k + 1;
    }
    if candidates.len() > 0 {
        Some(0)
    } else {
        None
    }
}

} // verus!
