use vstd::prelude::*;
use vstd::string::*;
use crate::extension::{lower_char, lower_char_exec, lower_seq};

verus! {

/// The known extensions, each with its content-type identifier.
pub open spec fn content_type_table() -> Seq<(Seq<char>, Seq<char>)> {
    seq![
        ("doc"@, "com.microsoft.word.doc"@),
        ("docx"@, "org.openxmlformats.wordprocessingml.document"@),
        ("xls"@, "com.microsoft.excel.xls"@),
        ("xlsx"@, "org.openxmlformats.spreadsheetml.sheet"@),
        ("ppt"@, "com.microsoft.powerpoint.ppt"@),
        ("pptx"@, "org.openxmlformats.presentationml.presentation"@),
        ("txt"@, "public.plain-text"@),
        ("pdf"@, "com.adobe.pdf"@),
        ("png"@, "public.png"@),
        ("jpg"@, "public.jpeg"@),
        ("jpeg"@, "public.jpeg"@),
        ("gif"@, "public.gif"@),
        ("csv"@, "public.comma-separated-values-text"@),
        ("mp3"@, "public.mp3"@),
        ("mp4"@, "public.mpeg-4"@),
        ("mov"@, "com.apple.quicktime-movie"@),
        ("avi"@, "public.avi"@),
        ("zip"@, "public.zip-archive"@),
        ("rar"@, "public.rar-archive"@),
        ("7z"@, "public.7z-archive"@),
        ("tar"@, "public.tar-archive"@),
        ("gz"@, "public.gzip-archive"@),
        ("json"@, "public.json"@),
        ("xml"@, "public.xml"@),
        ("html"@, "public.html"@),
        ("htm"@, "public.html"@),
        ("css"@, "public.css"@),
        ("js"@, "public.javascript"@),
        ("ts"@, "public.typescript"@),
        ("jsx"@, "public.jsx"@),
        ("tsx"@, "public.tsx"@),
        ("md"@, "net.daringfireball.markdown"@),
        ("markdown"@, "net.daringfireball.markdown"@),
        ("py"@, "public.python-script"@),
        ("java"@, "com.sun.java-source"@),
        ("cpp"@, "public.c-plus-plus-source"@),
        ("c"@, "public.c-source"@),
        ("h"@, "public.c-header"@),
        ("hpp"@, "public.c-plus-plus-header"@),
        ("sh"@, "public.shell-script"@),
        ("bash"@, "public.shell-script"@),
        ("zsh"@, "public.shell-script"@),
        ("fish"@, "public.shell-script"@),
        ("sql"@, "public.sql-source"@),
        ("db"@, "public.database"@),
        ("sqlite"@, "public.sqlite3-database"@),
        ("log"@, "public.log"@),
        ("ini"@, "public.ini"@),
        ("cfg"@, "public.configuration"@),
        ("conf"@, "public.configuration"@),
        ("yaml"@, "public.yaml"@),
        ("yml"@, "public.yaml"@),
        ("toml"@, "public.toml"@),
        ("env"@, "public.environment"@),
        ("key"@, "public.private-key"@),
        ("pem"@, "public.pem"@),
        ("crt"@, "public.certificate"@),
    ]
}

/// Equality of two strings with ASCII letters compared without case.
pub open spec fn eq_ignore_ascii_case(a: Seq<char>, b: Seq<char>) -> bool {
    lower_seq(a) == lower_seq(b)
}

/// The identifier of the first entry of `t` whose extension equals `ext`
/// without regard to ASCII case.
pub open spec fn lookup_in(t: Seq<(Seq<char>, Seq<char>)>, ext: Seq<char>) -> Option<Seq<char>>
    decreases t.len(),
{
    if t.len() == 0 {
        None
    } else if eq_ignore_ascii_case(t[0].0, ext) {
        Some(t[0].1)
    } else {
        lookup_in(t.drop_first(), ext)
    }
}

/// The content type an extension maps to, where the table knows it.
pub open spec fn content_type_spec(ext: Seq<char>) -> Option<Seq<char>> {
    lookup_in(content_type_table(), ext)
}

/// The placeholder content type for an extension the table does not know.
pub open spec fn generic_content_type_spec(ext: Seq<char>) -> Seq<char> {
    "public."@ + ext
}

fn content_type_entries() -> (r: Vec<(&'static str, &'static str)>)
    ensures
        r@.map_values(|p: (&str, &str)| (p.0@, p.1@)) == content_type_table(),
{
    let r = vec![
        ("doc", "com.microsoft.word.doc"),
        ("docx", "org.openxmlformats.wordprocessingml.document"),
        ("xls", "com.microsoft.excel.xls"),
        ("xlsx", "org.openxmlformats.spreadsheetml.sheet"),
        ("ppt", "com.microsoft.powerpoint.ppt"),
        ("pptx", "org.openxmlformats.presentationml.presentation"),
        ("txt", "public.plain-text"),
        ("pdf", "com.adobe.pdf"),
        ("png", "public.png"),
        ("jpg", "public.jpeg"),
        ("jpeg", "public.jpeg"),
        ("gif", "public.gif"),
        ("csv", "public.comma-separated-values-text"),
        ("mp3", "public.mp3"),
        ("mp4", "public.mpeg-4"),
        ("mov", "com.apple.quicktime-movie"),
        ("avi", "public.avi"),
        ("zip", "public.zip-archive"),
        ("rar", "public.rar-archive"),
        ("7z", "public.7z-archive"),
        ("tar", "public.tar-archive"),
        ("gz", "public.gzip-archive"),
        ("json", "public.json"),
        ("xml", "public.xml"),
        ("html", "public.html"),
        ("htm", "public.html"),
        ("css", "public.css"),
        ("js", "public.javascript"),
        ("ts", "public.typescript"),
        ("jsx", "public.jsx"),
        ("tsx", "public.tsx"),
        ("md", "net.daringfireball.markdown"),
        ("markdown", "net.daringfireball.markdown"),
        ("py", "public.python-script"),
        ("java", "com.sun.java-source"),
        ("cpp", "public.c-plus-plus-source"),
        ("c", "public.c-source"),
        ("h", "public.c-header"),
        ("hpp", "public.c-plus-plus-header"),
        ("sh", "public.shell-script"),
        ("bash", "public.shell-script"),
        ("zsh", "public.shell-script"),
        ("fish", "public.shell-script"),
        ("sql", "public.sql-source"),
        ("db", "public.database"),
        ("sqlite", "public.sqlite3-database"),
        ("log", "public.log"),
        ("ini", "public.ini"),
        ("cfg", "public.configuration"),
        ("conf", "public.configuration"),
        ("yaml", "public.yaml"),
        ("yml", "public.yaml"),
        ("toml", "public.toml"),
        ("env", "public.environment"),
        ("key", "public.private-key"),
        ("pem", "public.pem"),
        ("crt", "public.certificate"),
    ];
    assert(r@.map_values(|p: (&str, &str)| (p.0@, p.1@)) =~= content_type_table());
    r
}

/// Whether two strings are equal when ASCII case is ignored.
pub fn str_eq_ignore_ascii_case(a: &str, b: &str) -> (r: bool)
    ensures
        r == eq_ignore_ascii_case(a@, b@),
{
    let n = a.unicode_len();
    if n != b.unicode_len() {
        assert(lower_seq(a@).len() != lower_seq(b@).len());
        return false;
    }
    let mut i: usize = 0;
    while i < n
        invariant
            n == a@.len(),
            n == b@.len(),
            i <= n,
            forall|k: int| 0 <= k < i ==> lower_char(#[trigger] a@[k]) == lower_char(b@[k]),
        decreases n - i,
    {
        if lower_char_exec(a.get_char(i)) != lower_char_exec(b.get_char(i)) {
            assert(lower_seq(a@)[i as int] != lower_seq(b@)[i as int]);
            return false;
        }
        i = i + 1;
    }
    assert(lower_seq(a@) =~= lower_seq(b@));
    true
}

/// The content type of an extension, looked up in the table without regard
/// to ASCII case.
pub fn extension_to_content_type(ext: &str) -> (r: Option<&'static str>)
    ensures
        r matches Some(c) ==> content_type_spec(ext@) == Some(c@),
        r is None ==> content_type_spec(ext@) is None,
{
    let table = content_type_entries();
    let ghost t = content_type_table();
    let mut i: usize = 0;
    assert(t.subrange(0, t.len() as int) =~= t);
    while i < table.len()
        invariant
            table@.map_values(|p: (&str, &str)| (p.0@, p.1@)) == t,
            t == content_type_table(),
            i <= table.len(),
            lookup_in(t, ext@) == lookup_in(t.subrange(i as int, t.len() as int), ext@),
        decreases table.len() - i,
    {
        let (key, value) = table[i];
        let ghost rest = t.subrange(i as int, t.len() as int);
        assert(rest[0] == (key@, value@));
        if str_eq_ignore_ascii_case(key, ext) {
            return Some(value);
        }
        assert(rest.drop_first() =~= t.subrange(i + 1, t.len() as int));
        i = i + 1;
    }
    None
}

/// The content type to ask the system about for an extension: its known
/// content type, or the placeholder one.
pub fn content_type_or_generic(ext: &str) -> (r: String)
    ensures
        content_type_spec(ext@) matches Some(c) ==> r@ == c,
        content_type_spec(ext@) is None ==> r@ == generic_content_type_spec(ext@),
{
    match extension_to_content_type(ext) {
        Some(c) => String::from_str(c),
        None => String::from_str("public.").concat(ext),
    }
}

} // verus!
