use vstd::prelude::*;
use vstd::string::*;
use crate::error::PlatformError;
use crate::extension::{ensure_extension_normalized, normalize_spec, valid_extension, validate_extension};
use crate::order::{
    lemma_lt_total, lemma_lt_transitive, seq_lt, sorted_strict, str_less, views,
};

verus! {

/// The extensions tracked before anything is added.
pub open spec fn default_extension_list() -> Seq<Seq<char>> {
    seq![
        "doc"@, "docx"@, "xls"@, "xlsx"@, "ppt"@, "pptx"@, "pdf"@, "txt"@, "md"@, "markdown"@,
        "png"@, "jpg"@, "jpeg"@, "gif"@,
        "mp3"@, "mp4"@, "mov"@, "avi"@,
        "zip"@, "rar"@, "7z"@, "tar"@, "gz"@,
        "html"@, "htm"@, "css"@, "js"@, "ts"@, "jsx"@, "tsx"@,
        "csv"@, "json"@, "xml"@, "yaml"@, "yml"@, "toml"@,
        "py"@, "java"@, "cpp"@, "c"@, "h"@, "hpp"@,
        "sh"@, "bash"@, "zsh"@, "fish"@,
        "sql"@, "db"@, "sqlite"@, "log"@, "ini"@, "cfg"@, "conf"@,
        "dockerfile"@, "gitignore"@, "env"@, "key"@, "pem"@, "crt"@,
    ]
}

/// The built-in extension list, in its declared order.
pub fn default_extensions() -> (r: Vec<&'static str>)
    ensures
        r@.map_values(|s: &str| s@) == default_extension_list(),
{
    let r = vec![
        "doc", "docx", "xls", "xlsx", "ppt", "pptx", "pdf", "txt", "md", "markdown",
        "png", "jpg", "jpeg", "gif",
        "mp3", "mp4", "mov", "avi",
        "zip", "rar", "7z", "tar", "gz",
        "html", "htm", "css", "js", "ts", "jsx", "tsx",
        "csv", "json", "xml", "yaml", "yml", "toml",
        "py", "java", "cpp", "c", "h", "hpp",
        "sh", "bash", "zsh", "fish",
        "sql", "db", "sqlite", "log", "ini", "cfg", "conf",
        "dockerfile", "gitignore", "env", "key", "pem", "crt",
    ];
    assert(r@.map_values(|s: &str| s@) =~= default_extension_list());
    r
}

/// The normalized forms of the first `i` defaults.
pub open spec fn defaults_prefix(i: int) -> Set<Seq<char>> {
    Set::new(
        |x: Seq<char>|
            exists|k: int|
                0 <= k < i && k < default_extension_list().len() && x == normalize_spec(
                    #[trigger] default_extension_list()[k],
                ),
    )
}

/// The non-empty normalized forms of the first `j` stored entries.
pub open spec fn stored_prefix(stored: Seq<Seq<char>>, j: int) -> Set<Seq<char>> {
    Set::new(
        |x: Seq<char>|
            exists|k: int|
                0 <= k < j && k < stored.len() && x == normalize_spec(#[trigger] stored[k])
                    && x.len() > 0,
    )
}

/// What the registry holds after a load: every default, and every stored
/// entry that is not empty once normalized.
pub open spec fn tracked_set(stored: Seq<Seq<char>>) -> Set<Seq<char>> {
    defaults_prefix(default_extension_list().len() as int).union(
        stored_prefix(stored, stored.len() as int),
    )
}

/// Inserts `x` in a strictly sorted list; returns whether it was new.
pub fn insert_sorted(list: &mut Vec<String>, x: String) -> (added: bool)
    requires
        sorted_strict(views(old(list)@)),
    ensures
        sorted_strict(views(final(list)@)),
        views(final(list)@).to_set() == views(old(list)@).to_set().insert(x@),
        added == !views(old(list)@).contains(x@),
        !added ==> final(list)@ == old(list)@,
{
    let ghost v = views(list@);
    let n = list.len();
    let mut i: usize = 0;
    let mut stop = false;
    while i < n && !stop
        invariant
            n == list.len(),
            v == views(list@),
            list@ == old(list)@,
            sorted_strict(v),
            i <= n,
            forall|k: int| 0 <= k < i ==> seq_lt(#[trigger] v[k], x@),
            stop ==> i < n && seq_lt(x@, v[i as int]),
        decreases n - i + (if stop { 0int } else { 1int }),
    {
        if list[i] == x {
            proof {
                assert(v[i as int] == x@);
                assert(v.to_set().contains(v[i as int]));
                assert(v.to_set().insert(x@) =~= v.to_set());
            }
            return false;
        }
        if str_less(x.as_str(), list[i].as_str()) {
            stop = true;
        } else {
            proof {
                lemma_lt_total(v[i as int], x@);
            }
            i = i + 1;
        }
    }
    proof {
        assert forall|k: int| i <= k < n implies seq_lt(x@, #[trigger] v[k]) by {
            if k > i {
                lemma_lt_transitive(x@, v[i as int], v[k]);
            }
        }
        assert forall|k: int| 0 <= k < n implies v[k] != x@ by {
            crate::order::lemma_lt_irreflexive(x@);
        }
    }
    let ghost xv = x@;
    list.insert(i, x);
    proof {
        let w = views(list@);
        assert(w =~= v.insert(i as int, xv));
        assert forall|a: int, b: int| 0 <= a < b < w.len() implies seq_lt(
            #[trigger] w[a],
            #[trigger] w[b],
        ) by {
            if b < i {
            } else if a < i && b == i {
            } else if a < i {
                assert(seq_lt(v[a], v[b - 1]));
            } else if a == i {
            } else {
                assert(seq_lt(v[a - 1], v[b - 1]));
            }
        }
        assert forall|y: Seq<char>| w.to_set().contains(y) <==> v.to_set().insert(xv).contains(y) by {
            if w.to_set().contains(y) {
                let k = choose|k: int| 0 <= k < w.len() && w[k] == y;
                if k < i {
                    assert(v[k] == y);
                } else if k > i {
                    assert(v[k - 1] == y);
                }
            }
            if v.to_set().contains(y) {
                let k = choose|k: int| 0 <= k < v.len() && v[k] == y;
                if k < i {
                    assert(w[k] == y);
                } else {
                    assert(w[k + 1] == y);
                }
            }
            if y == xv {
                assert(w[i as int] == y);
            }
        }
        assert(w.to_set() =~= v.to_set().insert(xv));
    }
    true
}


/// Builds the registry from what was stored: the defaults and the stored
/// entries, normalized, without empty ones, in string order.
pub fn merge_extension_list(stored: &Vec<String>) -> (r: Vec<String>)
    ensures
        sorted_strict(views(r@)),
        views(r@).to_set() == tracked_set(views(stored@)),
{
    let defaults = default_extensions();
    let mut r: Vec<String> = Vec::new();
    let ghost dl = default_extension_list();
    let ghost sv = views(stored@);
    assert(views(r@).to_set() =~= defaults_prefix(0));
    let mut i: usize = 0;
    while i < defaults.len()
        invariant
            defaults@.map_values(|s: &str| s@) == dl,
            dl == default_extension_list(),
            i <= defaults.len(),
            sorted_strict(views(r@)),
            views(r@).to_set() == defaults_prefix(i as int),
        decreases defaults.len() - i,
    {
        let e = ensure_extension_normalized(defaults[i]);
        let ghost ev = e@;
        assert(defaults@[i as int]@ == dl[i as int]);
        insert_sorted(&mut r, e);
        i = i + 1;
        proof {
            assert(defaults_prefix(i as int) =~= defaults_prefix(i - 1).insert(ev));
        }
    }
    let ghost base = defaults_prefix(i as int);
    assert(defaults_prefix(i as int) =~= defaults_prefix(dl.len() as int));
    let mut j: usize = 0;
    assert(stored_prefix(sv, 0) =~= Set::empty());
    assert(base.union(stored_prefix(sv, 0)) =~= base);
    while j < stored.len()
        invariant
            sv == views(stored@),
            base == defaults_prefix(dl.len() as int),
            dl == default_extension_list(),
            j <= stored.len(),
            sorted_strict(views(r@)),
            views(r@).to_set() == base.union(stored_prefix(sv, j as int)),
        decreases stored.len() - j,
    {
        let e = ensure_extension_normalized(stored[j].as_str());
        let ghost ev = e@;
        assert(sv[j as int] == stored@[j as int]@);
        if e.unicode_len() > 0 {
            insert_sorted(&mut r, e);
            j = j + 1;
            assert(stored_prefix(sv, j as int) =~= stored_prefix(sv, j - 1).insert(ev));
            assert(base.union(stored_prefix(sv, j as int)) =~= base.union(
                stored_prefix(sv, j - 1),
            ).insert(ev));
        } else {
            j = j + 1;
            assert(stored_prefix(sv, j as int) =~= stored_prefix(sv, j - 1));
        }
    }
    r
}

/// Adds a normalized extension to a loaded registry. Returns the list to
/// persist when the extension is new, and `None` when it was already tracked.
pub fn register_extension_if_needed(list: &Vec<String>, extension: &str) -> (r: Option<
    Vec<String>,
>)
    requires
        sorted_strict(views(list@)),
    ensures
        r is None <==> views(list@).contains(extension@),
        r matches Some(n) ==> sorted_strict(views(n@)) && views(n@).to_set() == views(
            list@,
        ).to_set().insert(extension@),
{
    let mut n: Vec<String> = Vec::new();
    let mut i: usize = 0;
    while i < list.len()
        invariant
            i <= list.len(),
            n@.len() == i,
            forall|k: int| 0 <= k < i ==> (#[trigger] n@[k])@ == list@[k]@,
        decreases list.len() - i,
    {
        n.push(list[i].clone());
        i = i + 1;
    }
    assert(views(n@) =~= views(list@));
    if insert_sorted(&mut n, String::from_str(extension)) {
        Some(n)
    } else {
        None
    }
}

/// Adds an extension a user typed to a loaded registry: it is normalized and
/// checked, then registered. Gives the list to persist when it is new, and
/// `None` when it was already tracked, in which case nothing is to be written.
pub fn add_extension_to_list(list: &Vec<String>, raw: &str) -> (r: Result<
    Option<Vec<String>>,
    PlatformError,
>)
    requires
        sorted_strict(views(list@)),
    ensures
        r is Ok <==> valid_extension(normalize_spec(raw@)),
        r matches Err(e) ==> e is InvalidSelection,
        r matches Ok(o) ==> (o is None <==> views(list@).contains(normalize_spec(raw@))),
        r matches Ok(o) ==> (o matches Some(n) ==> sorted_strict(views(n@)) && views(n@).to_set()
            == views(list@).to_set().insert(normalize_spec(raw@))),
{
    let normalized = validate_extension(raw)?;
    Ok(register_extension_if_needed(list, normalized.as_str()))
}

/// Once an extension has been added, the registry holds it, so adding it a
/// second time finds it and leaves the registry as it was.
pub proof fn lemma_add_twice(l: Seq<Seq<char>>, a: Seq<char>, r1: Seq<Seq<char>>)
    requires
        r1.to_set() == l.to_set().insert(a),
    ensures
        r1.contains(a),
        r1.to_set().insert(a) == r1.to_set(),
{
    assert(r1.to_set().contains(a));
    assert(r1.to_set().insert(a) =~= r1.to_set());
}

/// The registry's list depends only on the set of extensions it holds: two
/// extensions added in either order leave the same sorted list.
pub proof fn lemma_add_order_independent(
    l: Seq<Seq<char>>,
    a: Seq<char>,
    b: Seq<char>,
    r_ab: Seq<Seq<char>>,
    r_ba: Seq<Seq<char>>,
)
    requires
        sorted_strict(r_ab),
        sorted_strict(r_ba),
        r_ab.to_set() == l.to_set().insert(a).insert(b),
        r_ba.to_set() == l.to_set().insert(b).insert(a),
    ensures
        r_ab == r_ba,
{
    assert(l.to_set().insert(a).insert(b) =~= l.to_set().insert(b).insert(a));
    crate::order::lemma_sorted_unique(r_ab, r_ba);
}


/// The list of strings a JSON text denotes, or `None` where the text is not a
/// JSON array of strings.
pub uninterp spec fn json_string_list(text: Seq<char>) -> Option<Seq<Seq<char>>>;

/// The pretty-printed JSON text of a list of strings.
pub uninterp spec fn json_pretty_list(items: Seq<Seq<char>>) -> Seq<char>;

/// Relies on serde_json::from_str for `Vec<String>`: it reads a JSON array of
/// strings, and fails on any other text; the error is kept as its message.
#[verifier::external_body]
fn parse_json_list(text: &str) -> (r: Result<Vec<String>, String>)
    ensures
        r is Ok <==> json_string_list(text@) is Some,
        r matches Ok(v) ==> json_string_list(text@) == Some(views(v@)),
{
    serde_json::from_str::<Vec<String>>(text).map_err(|e| e.to_string())
}

/// Relies on serde_json::to_string_pretty for `[String]`: the pretty JSON text
/// of the list. It writes into a `Vec` and strings always serialize, so it
/// does not fail; the error is kept as its message all the same.
#[verifier::external_body]
fn render_json_list(items: &[String]) -> (r: Result<String, String>)
    ensures
        r is Ok,
        r matches Ok(t) ==> t@ == json_pretty_list(views(items@)),
{
    serde_json::to_string_pretty(items).map_err(|e| e.to_string())
}

/// Loads the registry from the stored JSON text, or from nothing where no
/// file exists yet: the defaults and the stored entries, normalized, in
/// string order. A text that is not a JSON array of strings is a
/// configuration error.
pub fn load_extension_list(stored_text: Option<&str>) -> (r: Result<Vec<String>, PlatformError>)
    ensures
        stored_text is None ==> r is Ok && tracked_set(Seq::empty()) == views(
            r->Ok_0@,
        ).to_set(),
        stored_text matches Some(t) ==> (r is Ok <==> json_string_list(t@) is Some),
        stored_text matches Some(t) ==> (r is Err ==> r->Err_0 is Config),
        stored_text matches Some(t) ==> (r matches Ok(v) ==> tracked_set(
            json_string_list(t@)->Some_0,
        ) == views(v@).to_set()),
        r matches Ok(v) ==> sorted_strict(views(v@)),
{
    match stored_text {
        None => {
            let empty: Vec<String> = Vec::new();
            assert(views(empty@) =~= Seq::<Seq<char>>::empty());
            Ok(merge_extension_list(&empty))
        },
        Some(t) => match parse_json_list(t) {
            Ok(stored) => Ok(merge_extension_list(&stored)),
            Err(e) => Err(PlatformError::Config(e)),
        },
    }
}

/// The JSON text under which the registry is stored.
pub fn save_extension_list(extensions: &Vec<String>) -> (r: Result<String, PlatformError>)
    ensures
        r is Ok,
        r matches Ok(t) ==> t@ == json_pretty_list(views(extensions@)),
{
    match render_json_list(extensions.as_slice()) {
        Ok(t) => Ok(t),
        Err(e) => Err(PlatformError::Config(e)),
    }
}

} // verus!
