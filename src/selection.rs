use vstd::prelude::*;
use vstd::string::*;
use crate::error::PlatformError;
use crate::extension::str_eq;
use crate::locator::{enclosing_bundle, enclosing_bundle_spec};
use crate::text::{ends_with, has_prefix, has_suffix, starts_with};

verus! {

/// `s` without its leading and trailing whitespace.
pub uninterp spec fn trimmed(s: Seq<char>) -> Seq<char>;

/// Whether `s` parses as an absolute URL.
pub uninterp spec fn url_parses(s: Seq<char>) -> bool;

/// Relies on str::trim: leading and trailing whitespace removed.
#[verifier::external_body]
pub(crate) fn trim_text(s: &str) -> (r: &str)
    ensures
        r@ == trimmed(s@),
{
    s.trim()
}

/// The local path a `file` URL names, where it parses and names one.
pub uninterp spec fn file_url_path(s: Seq<char>) -> Option<Seq<char>>;

/// Relies on url::Url::parse, then url::Url::to_file_path on what it parsed:
/// the local path the URL names. `Err(Some(_))` carries the parse error's
/// message; `Err(None)` is a URL that names no local path.
#[verifier::external_body]
fn url_file_path(s: &str) -> (r: Result<String, Option<String>>)
    ensures
        r matches Err(e) ==> (e is Some <==> !url_parses(s@)),
        r is Ok ==> url_parses(s@),
        r is Ok <==> file_url_path(s@) is Some,
        r matches Ok(p) ==> file_url_path(s@) == Some(p@),
{
    let u = url::Url::parse(s).map_err(|e| Some(e.to_string()))?;
    u.to_file_path().map(|p| p.to_string_lossy().into_owned()).map_err(|_| None)
}

/// `rest` joined under `home` as a path join does: an absolute `rest`
/// replaces it, else one slash separates them.
pub open spec fn join_home(home: Seq<char>, rest: Seq<char>) -> Seq<char> {
    if rest.len() > 0 && rest[0] == '/' {
        rest
    } else if has_suffix(home, "/"@) {
        home + rest
    } else {
        home + "/"@ + rest
    }
}

/// Whether a trimmed path is `~` or starts with `~/`.
pub open spec fn home_relative(t: Seq<char>) -> bool {
    t == "~"@ || has_prefix(t, "~/"@)
}

/// The path a trimmed user selection names, where no URL has to be parsed:
/// `file://` stripped where not followed by a third slash, `~` expanded
/// against the home directory, anything else as it is.
pub open spec fn plain_selection(t: Seq<char>, home: Seq<char>) -> Seq<char> {
    if has_prefix(t, "file://"@) {
        t.subrange(7, t.len() as int)
    } else if t == "~"@ {
        home
    } else if has_prefix(t, "~/"@) {
        join_home(home, t.subrange(2, t.len() as int))
    } else {
        t
    }
}

/// The home directory's error text where it is not set.
pub open spec fn home_missing_text() -> Seq<char> {
    "environment variable not found"@
}

/// Reads a user's choice of application, given as a `file://` URL, a path
/// relative to the home directory, or a plain path, into a path.
pub fn interpret_user_path(raw: &str, home: Option<&str>) -> (r: Result<String, PlatformError>)
    ensures
        has_prefix(trimmed(raw@), "file:///"@) ==> (r is Ok <==> file_url_path(trimmed(raw@)) is Some),
        has_prefix(trimmed(raw@), "file:///"@) && file_url_path(trimmed(raw@)) is Some ==> r->Ok_0@
            == file_url_path(trimmed(raw@))->Some_0,
        has_prefix(trimmed(raw@), "file:///"@) && url_parses(trimmed(raw@)) && file_url_path(
            trimmed(raw@),
        ) is None ==> (r is Err && r->Err_0 is InvalidSelection && r->Err_0->InvalidSelection_0@
            == trimmed(raw@)),
        has_prefix(trimmed(raw@), "file:///"@) && !url_parses(trimmed(raw@)) ==> (r is Err
            && r->Err_0 is InvalidSelection),
        !has_prefix(trimmed(raw@), "file:///"@) && home_relative(trimmed(raw@)) && home is None
            ==> (r is Err && r->Err_0 is HomeUnavailable && r->Err_0->HomeUnavailable_0@
            == home_missing_text()),
        !has_prefix(trimmed(raw@), "file:///"@) && (home_relative(trimmed(raw@)) ==> home is Some)
            ==> (r is Ok && r->Ok_0@ == plain_selection(
            trimmed(raw@),
            if home is Some {
                home->Some_0@
            } else {
                Seq::empty()
            },
        )),
{
    proof {
        reveal_strlit("file://");
        reveal_strlit("file:///");
        reveal_strlit("~");
        reveal_strlit("~/");
        reveal_strlit("/");
    }
    let t = trim_text(raw);
    proof {
        let tv = t@;
        if has_prefix(tv, "file:///"@) {
            assert(tv.subrange(0, 7) =~= tv.subrange(0, 8).subrange(0, 7));
            assert("file:///"@.subrange(0, 7) =~= "file://"@);
        }
        if has_prefix(tv, "~/"@) {
            assert(tv[0] == tv.subrange(0, 2)[0]);
            if tv.len() >= 8 {
                assert(tv[0] == tv.subrange(0, 8)[0]);
            }
        }
        if has_prefix(tv, "file://"@) {
            assert(tv[0] == tv.subrange(0, 7)[0]);
            assert(tv != "~"@);
            if tv.len() >= 2 {
                assert(tv[0] == tv.subrange(0, 2)[0]);
            }
        }
    }
    if starts_with(t, "file://") {
        if starts_with(t, "file:///") {
            return match url_file_path(t) {
                Ok(p) => Ok(p),
                Err(Some(e)) => Err(PlatformError::InvalidSelection(e)),
                Err(None) => Err(PlatformError::InvalidSelection(String::from_str(t))),
            };
        }
        let n = t.unicode_len();
        proof {
            reveal_strlit("file://");
        }
        return Ok(String::from_str(t.substring_char(7, n)));
    }
    let is_home = str_eq(t, "~");
    if is_home || starts_with(t, "~/") {
        let h = match home {
            Some(h) => h,
            None => {
                return Err(PlatformError::HomeUnavailable(String::from_str("environment variable not found")));
            },
        };
        if is_home {
            return Ok(String::from_str(h));
        }
        let n = t.unicode_len();
        proof {
            reveal_strlit("~/");
        }
        let rest = t.substring_char(2, n);
        if rest.unicode_len() > 0 && rest.get_char(0) == '/' {
            return Ok(String::from_str(rest));
        }
        if ends_with(h, "/") {
            return Ok(String::from_str(h).concat(rest));
        }
        return Ok(String::from_str(h).concat("/").concat(rest));
    }
    Ok(String::from_str(t))
}


/// Settles which bundle a user's choice denotes, once its path has been
/// expanded: the choice must exist, and it must be, or lie inside, a
/// directory whose name ends in `.app`.
pub fn select_bundle_path(raw: &str, expanded: &str, exists: bool) -> (r: Result<
    String,
    PlatformError,
>)
    ensures
        !exists ==> (r is Err && r->Err_0 is InvalidSelection && r->Err_0->InvalidSelection_0@
            == "应用路径不存在: "@ + trimmed(raw@)),
        exists && enclosing_bundle_spec(expanded@) is Some ==> (r is Ok && r->Ok_0@
            == enclosing_bundle_spec(expanded@)->Some_0),
        exists && enclosing_bundle_spec(expanded@) is None ==> (r is Err && r->Err_0 is InvalidSelection
            && r->Err_0->InvalidSelection_0@ == "请选择有效的 .app 包: "@ + raw@),
{
    if !exists {
        let t = trim_text(raw);
        return Err(PlatformError::InvalidSelection(String::from_str("应用路径不存在: ").concat(t)));
    }
    match enclosing_bundle(expanded) {
        Some(b) => Ok(b),
        None => Err(
            PlatformError::InvalidSelection(String::from_str("请选择有效的 .app 包: ").concat(raw)),
        ),
    }
}

/// The lines of a text, as `str::lines` splits it.
pub uninterp spec fn lines_of(s: Seq<char>) -> Seq<Seq<char>>;

/// Relies on str::lines: the text split at line ends.
#[verifier::external_body]
fn text_lines(s: &str) -> (r: Vec<String>)
    ensures
        r@.map_values(|l: String| l@) == lines_of(s@),
{
    s.lines().map(|l| l.to_string()).collect()
}

/// The trimmed lines of the system index's output that name a bundle.
pub open spec fn bundle_lines(ls: Seq<Seq<char>>) -> Seq<Seq<char>>
    decreases ls.len(),
{
    if ls.len() == 0 {
        Seq::empty()
    } else {
        let rest = bundle_lines(ls.drop_last());
        let t = trimmed(ls.last());
        if has_suffix(t, ".app"@) {
            rest.push(t)
        } else {
            rest
        }
    }
}

/// The candidates the system index lists for an identifier: each output line,
/// trimmed, that ends in `.app`, in order.
pub fn index_candidates(output: &str) -> (r: Vec<String>)
    ensures
        r@.map_values(|l: String| l@) == bundle_lines(lines_of(output@)),
{
    let lines = text_lines(output);
    let ghost ls = lines_of(output@);
    let mut r: Vec<String> = Vec::new();
    let mut i: usize = 0;
    assert(ls.subrange(0, 0) =~= Seq::<Seq<char>>::empty());
    while i < lines.len()
        invariant
            lines@.map_values(|l: String| l@) == ls,
            i <= lines.len(),
            r@.map_values(|l: String| l@) == bundle_lines(ls.subrange(0, i as int)),
        decreases lines.len() - i,
    {
        let t = trim_text(lines[i].as_str());
        assert(ls.subrange(0, i + 1).drop_last() =~= ls.subrange(0, i as int));
        assert(ls[i as int] == lines@[i as int]@);
        if ends_with(t, ".app") {
            r.push(String::from_str(t));
            assert(r@.map_values(|l: String| l@) =~= bundle_lines(ls.subrange(0, i as int)).push(t@));
        }
        i = i + 1;
    }
    assert(ls.subrange(0, i as int) =~= ls);
    r
}

} // verus!
