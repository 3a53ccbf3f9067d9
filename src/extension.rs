use vstd::prelude::*;
use vstd::string::*;
use crate::error::PlatformError;

verus! {

/// Whether `c` is an ASCII capital letter.
pub open spec fn is_ascii_upper(c: char) -> bool {
    'A' <= c && c <= 'Z'
}

/// ASCII lower-casing of one character; every other character is kept.
pub open spec fn lower_char(c: char) -> char {
    if is_ascii_upper(c) {
        ((c as u32) + 32) as char
    } else {
        c
    }
}

/// ASCII lower-casing of a whole string.
pub open spec fn lower_seq(s: Seq<char>) -> Seq<char> {
    s.map_values(|c: char| lower_char(c))
}

/// `s` without its leading dots.
pub open spec fn strip_dots(s: Seq<char>) -> Seq<char>
    decreases s.len(),
{
    if s.len() > 0 && s[0] == '.' {
        strip_dots(s.drop_first())
    } else {
        s
    }
}

/// The Unicode lower-case form of a string.
pub uninterp spec fn lower_of(s: Seq<char>) -> Seq<char>;

/// The normal form of an extension: leading dots removed, then lower-cased.
pub open spec fn normalize_spec(s: Seq<char>) -> Seq<char> {
    lower_of(strip_dots(s))
}

/// Characters a tracked extension may hold.
pub open spec fn is_extension_char(c: char) -> bool {
    ('a' <= c && c <= 'z') || ('0' <= c && c <= '9') || c == '+' || c == '-'
}

/// A normalized extension that may be tracked.
pub open spec fn valid_extension(s: Seq<char>) -> bool {
    s.len() > 0 && forall|i: int| 0 <= i < s.len() ==> is_extension_char(#[trigger] s[i])
}

pub(crate) fn lower_char_exec(c: char) -> (r: char)
    ensures
        r == lower_char(c),
{
    if 'A' <= c && c <= 'Z' {
        ((c as u32 as u8) + 32) as char
    } else {
        c
    }
}


/// Relies on String::push: appends one character at the end.
#[verifier::external_body]
pub(crate) fn push_char(s: &mut String, c: char)
    ensures
        final(s)@ == old(s)@.push(c),
{
    s.push(c)
}

proof fn lemma_strip_step(s: Seq<char>, i: int)
    requires
        0 <= i < s.len(),
        s[i] == '.',
    ensures
        strip_dots(s.subrange(i, s.len() as int)) == strip_dots(s.subrange(i + 1, s.len() as int)),
{
    let t = s.subrange(i, s.len() as int);
    assert(t.drop_first() =~= s.subrange(i + 1, s.len() as int));
}

/// Relies on str::to_lowercase: the Unicode lower-case form, which depends
/// on the characters alone.
#[verifier::external_body]
pub(crate) fn to_lower(s: &str) -> (r: String)
    ensures
        r@ == lower_of(s@),
{
    s.to_lowercase()
}

/// Removes every leading dot and lower-cases what is left.
pub fn ensure_extension_normalized(ext: &str) -> (r: String)
    ensures
        r@ == normalize_spec(ext@),
{
    let n = ext.unicode_len();
    let mut i: usize = 0;
    assert(ext@.subrange(0, n as int) =~= ext@);
    while i < n && ext.get_char(i) == '.'
        invariant
            n == ext@.len(),
            i <= n,
            strip_dots(ext@) == strip_dots(ext@.subrange(i as int, n as int)),
        decreases n - i,
    {
        proof {
            lemma_strip_step(ext@, i as int);
        }
        i = i + 1;
    }
    proof {
        if i < n {
            assert(ext@.subrange(i as int, n as int)[0] == ext@[i as int]);
        }
        assert(strip_dots(ext@) == ext@.subrange(i as int, n as int));
    }
    to_lower(ext.substring_char(i, n))
}

/// Normalizing twice gives the same string as normalizing once, wherever
/// lower-casing the stripped text is settled by one pass and yields no
/// leading dot.
pub proof fn lemma_normalize_idempotent(s: Seq<char>)
    requires
        lower_of(lower_of(strip_dots(s))) == lower_of(strip_dots(s)),
        lower_of(strip_dots(s)).len() > 0 ==> lower_of(strip_dots(s))[0] != '.',
    ensures
        normalize_spec(normalize_spec(s)) == normalize_spec(s),
{
    let n = lower_of(strip_dots(s));
    assert(strip_dots(n) == n);
}

fn is_extension_char_exec(c: char) -> (r: bool)
    ensures
        r == is_extension_char(c),
{
    ('a' <= c && c <= 'z') || ('0' <= c && c <= '9') || c == '+' || c == '-'
}

/// Whether a normalized string may be tracked as an extension.
pub fn is_valid_extension(s: &str) -> (r: bool)
    ensures
        r == valid_extension(s@),
{
    let n = s.unicode_len();
    if n == 0 {
        return false;
    }
    let mut i: usize = 0;
    while i < n
        invariant
            n == s@.len(),
            i <= n,
            forall|j: int| 0 <= j < i ==> is_extension_char(#[trigger] s@[j]),
        decreases n - i,
    {
        if !is_extension_char_exec(s.get_char(i)) {
            return false;
        }
        i = i + 1;
    }
    true
}


/// ASCII lower-casing of a string; other characters are kept.
pub fn ascii_lowercase(s: &str) -> (r: String)
    ensures
        r@ == lower_seq(s@),
{
    let n = s.unicode_len();
    let mut r = String::new();
    let mut i: usize = 0;
    assert(lower_seq(s@.subrange(0, 0)) =~= Seq::<char>::empty());
    while i < n
        invariant
            n == s@.len(),
            i <= n,
            r@ == lower_seq(s@.subrange(0, i as int)),
        decreases n - i,
    {
        let c = s.get_char(i);
        let l = lower_char_exec(c);
        push_char(&mut r, l);
        i = i + 1;
        proof {
            assert(s@.subrange(0, i as int) =~= s@.subrange(0, i - 1).push(c));
            assert(lower_seq(s@.subrange(0, i as int)) =~= lower_seq(s@.subrange(0, i - 1)).push(l));
        }
    }
    assert(s@.subrange(0, n as int) =~= s@);
    r
}

/// Whether two strings are equal.
pub fn str_eq(a: &str, b: &str) -> (r: bool)
    ensures
        r == (a@ == b@),
{
    let n = a.unicode_len();
    if n != b.unicode_len() {
        return false;
    }
    let mut i: usize = 0;
    while i < n
        invariant
            n == a@.len(),
            n == b@.len(),
            i <= n,
            forall|k: int| 0 <= k < i ==> #[trigger] a@[k] == b@[k],
        decreases n - i,
    {
        if a.get_char(i) != b.get_char(i) {
            return false;
        }
        i = i + 1;
    }
    assert(a@ =~= b@);
    true
}


/// Normalizes an extension a user asks to track and checks it: it must not be
/// empty, and may hold only lower-case letters, digits, `+` and `-`.
pub fn validate_extension(raw: &str) -> (r: Result<String, PlatformError>)
    ensures
        r is Ok <==> valid_extension(normalize_spec(raw@)),
        r matches Ok(e) ==> e@ == normalize_spec(raw@),
        normalize_spec(raw@).len() == 0 ==> (r is Err && r->Err_0 is InvalidSelection
            && r->Err_0->InvalidSelection_0@ == "扩展名不能为空"@),
        normalize_spec(raw@).len() > 0 && !valid_extension(normalize_spec(raw@)) ==> (r is Err
            && r->Err_0 is InvalidSelection && r->Err_0->InvalidSelection_0@
            == "扩展名只能包含字母、数字、加号或减号"@),
{
    let normalized = ensure_extension_normalized(raw);
    if normalized.unicode_len() == 0 {
        return Err(PlatformError::InvalidSelection(String::from_str("扩展名不能为空")));
    }
    if !is_valid_extension(normalized.as_str()) {
        return Err(
            PlatformError::InvalidSelection(String::from_str("扩展名只能包含字母、数字、加号或减号")),
        );
    }
    Ok(normalized)
}

} // verus!
