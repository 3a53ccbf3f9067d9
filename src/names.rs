use vstd::prelude::*;
use vstd::string::*;
use crate::error::PlatformError;
use crate::extension::{push_char, str_eq};
use crate::locator::{file_name, path_stem, stem_of};
use crate::selection::{trim_text, trimmed};
use crate::text::{after_last, text_after_last};

verus! {

pub open spec fn is_lower(c: char) -> bool {
    'a' <= c && c <= 'z'
}

pub open spec fn is_upper(c: char) -> bool {
    'A' <= c && c <= 'Z'
}

pub open spec fn is_digit(c: char) -> bool {
    '0' <= c && c <= '9'
}

pub open spec fn is_alpha(c: char) -> bool {
    is_lower(c) || is_upper(c)
}

/// A word boundary between two adjacent characters: lower to upper case,
/// letter to digit, or digit to letter.
pub open spec fn word_boundary(p: char, c: char) -> bool {
    (is_lower(p) && is_upper(c)) || (is_alpha(p) && is_digit(c)) || (is_digit(p) && is_alpha(c))
}

/// Underscores and hyphens read as spaces.
pub open spec fn despace(c: char) -> char {
    if c == '_' || c == '-' {
        ' '
    } else {
        c
    }
}

/// `s` with a space put at each word boundary not already preceded by one.
pub open spec fn spaced(s: Seq<char>) -> Seq<char>
    decreases s.len(),
{
    if s.len() == 0 {
        Seq::empty()
    } else {
        let prev = spaced(s.drop_last());
        let c = s.last();
        if s.len() >= 2 && word_boundary(s[s.len() - 2], c) && !(prev.len() > 0 && prev.last()
            == ' ') {
            prev.push(' ').push(c)
        } else {
            prev.push(c)
        }
    }
}

/// A readable name for a bundle identifier: its last dot-separated part, with
/// underscores and hyphens as spaces and words spaced apart.
pub open spec fn humanize_spec(id: Seq<char>) -> Seq<char> {
    spaced(after_last(id, '.').map_values(|c: char| despace(c)))
}

fn word_boundary_exec(p: char, c: char) -> (r: bool)
    ensures
        r == word_boundary(p, c),
{
    let p_lower = 'a' <= p && p <= 'z';
    let p_upper = 'A' <= p && p <= 'Z';
    let p_digit = '0' <= p && p <= '9';
    let c_upper = 'A' <= c && c <= 'Z';
    let c_lower = 'a' <= c && c <= 'z';
    let c_digit = '0' <= c && c <= '9';
    (p_lower && c_upper) || ((p_lower || p_upper) && c_digit) || (p_digit && (c_lower || c_upper))
}

/// A readable name for a bundle identifier (`com.example.MyApp2` reads
/// `My App 2`).
pub fn humanize_bundle_id(bundle_id: &str) -> (r: String)
    ensures
        r@ == humanize_spec(bundle_id@),
{
    let core = text_after_last(bundle_id, '.');
    let ghost m = core@.map_values(|c: char| despace(c));
    let n = core.unicode_len();
    let mut r = String::new();
    let mut prev: char = ' ';
    let mut i: usize = 0;
    assert(m.subrange(0, 0) =~= Seq::<char>::empty());
    while i < n
        invariant
            n == core@.len(),
            m == core@.map_values(|c: char| despace(c)),
            i <= n,
            r@ == spaced(m.subrange(0, i as int)),
            i > 0 ==> prev == m[i - 1],
        decreases n - i,
    {
        let raw = core.get_char(i);
        let ch = if raw == '_' || raw == '-' {
            ' '
        } else {
            raw
        };
        let ghost before = r@;
        assert(m.subrange(0, i + 1).drop_last() =~= m.subrange(0, i as int));
        if i > 0 && word_boundary_exec(prev, ch) {
            let ends_space = r.unicode_len() > 0 && r.as_str().get_char(r.unicode_len() - 1) == ' ';
            if !ends_space {
                push_char(&mut r, ' ');
            }
        }
        push_char(&mut r, ch);
        proof {
            let s = m.subrange(0, i + 1);
            assert(s.last() == ch);
            if i > 0 {
                assert(s[s.len() - 2] == m[i - 1]);
            }
        }
        prev = ch;
        i = i + 1;
    }
    assert(m.subrange(0, n as int) =~= m);
    r
}

/// The label for a bundle: the display name its info file declares, else its
/// short name, else the name the metadata index gives, else the stem of its
/// folder, else a fixed label.
pub open spec fn display_name_spec(
    display_name: Option<Seq<char>>,
    bundle_name: Option<Seq<char>>,
    index_name: Option<Seq<char>>,
    path: Seq<char>,
) -> Seq<char> {
    match display_name {
        Some(d) => d,
        None => match bundle_name {
            Some(b) => b,
            None => match index_name {
                Some(n) => n,
                None => folder_label(path),
            },
        },
    }
}

/// The stem of a bundle's folder, or a fixed label where the path names no
/// file.
pub open spec fn folder_label(path: Seq<char>) -> Seq<char> {
    if file_name(path).len() == 0 {
        "未知应用"@
    } else {
        stem_of(file_name(path))
    }
}

/// The stem of a bundle's folder, or a fixed label where there is none.
pub fn folder_name(path: &str) -> (r: String)
    ensures
        r@ == folder_label(path@),
{
    if text_after_last(path, '/').unicode_len() == 0 {
        String::from_str("未知应用")
    } else {
        String::from_str(path_stem(path))
    }
}

/// The label for a bundle from the name fields its info file declares and
/// the name the metadata index gives, where each is known.
pub fn read_app_display_name(
    display_name: Option<&str>,
    bundle_name: Option<&str>,
    index_name: Option<&str>,
    path: &str,
) -> (r: String)
    ensures
        r@ == display_name_spec(
            match display_name {
                Some(d) => Some(d@),
                None => None,
            },
            match bundle_name {
                Some(b) => Some(b@),
                None => None,
            },
            match index_name {
                Some(n) => Some(n@),
                None => None,
            },
            path@,
        ),
{
    match display_name {
        Some(d) => String::from_str(d),
        None => match bundle_name {
            Some(b) => String::from_str(b),
            None => match index_name {
                Some(n) => String::from_str(n),
                None => folder_name(path),
            },
        },
    }
}

/// The display name the metadata index printed, where it gave one: the
/// trimmed output of a successful query, unless empty or `(null)`.
pub fn mdls_display_name(success: bool, output: &str) -> (r: Option<String>)
    ensures
        !success ==> r is None,
        success ==> (r is None <==> (trimmed(output@).len() == 0 || trimmed(output@) == "(null)"@)),
        r matches Some(n) ==> n@ == trimmed(output@),
{
    if !success {
        return None;
    }
    let t = trim_text(output);
    if t.unicode_len() == 0 || str_eq(t, "(null)") {
        None
    } else {
        Some(String::from_str(t))
    }
}

/// The identifier a bundle's info file declares: the info file must hold a
/// dictionary with a text `CFBundleIdentifier`.
pub fn bundle_id_from_info(is_dictionary: bool, identifier: Option<&str>) -> (r: Result<
    String,
    PlatformError,
>)
    ensures
        !is_dictionary ==> (r is Err && r->Err_0 is MissingInfo && r->Err_0->MissingInfo_0@
            == "Info.plist 结构无效"@),
        is_dictionary && identifier is None ==> (r is Err && r->Err_0 is MissingInfo
            && r->Err_0->MissingInfo_0@ == "缺少 CFBundleIdentifier"@),
        is_dictionary && identifier is Some ==> (r is Ok && r->Ok_0@ == identifier->Some_0@),
{
    if !is_dictionary {
        return Err(PlatformError::MissingInfo(String::from_str("Info.plist 结构无效")));
    }
    match identifier {
        Some(id) => Ok(String::from_str(id)),
        None => Err(PlatformError::MissingInfo(String::from_str("缺少 CFBundleIdentifier"))),
    }
}

} // verus!
