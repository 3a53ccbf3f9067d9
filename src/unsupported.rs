use vstd::prelude::*;
use vstd::string::*;
use crate::association::{row_view, FileAssociation};
use crate::registry::{default_extension_list, default_extensions};

verus! {

/// On a platform without native support the access check always passes.
pub fn check_full_disk_access_inner() -> (r: Result<bool, String>)
    ensures
        r == Ok::<bool, String>(true),
{
    Ok(true)
}

/// On a platform without native support there is no settings pane to open.
pub fn open_full_disk_access_settings_inner() -> (r: Result<(), String>)
    ensures
        r is Err && r->Err_0@ == "仅支持在 macOS 上打开系统设置"@,
{
    Err(String::from_str("仅支持在 macOS 上打开系统设置"))
}

/// The row every default extension gets where the platform is not supported.
pub open spec fn unsupported_row(ext: Seq<char>) -> (Seq<char>, Seq<char>, Seq<char>) {
    (ext, "Unsupported platform"@, Seq::empty())
}

/// On a platform without native support, every default extension is listed
/// as unsupported, with no path.
pub fn list_file_associations_inner() -> (r: Result<Vec<FileAssociation>, String>)
    ensures
        r is Ok,
        r->Ok_0@.map_values(|a: FileAssociation| row_view(a)) == default_extension_list().map_values(
            |e: Seq<char>| unsupported_row(e),
        ),
{
    let defaults = default_extensions();
    let mut rows: Vec<FileAssociation> = Vec::new();
    let mut i: usize = 0;
    while i < defaults.len()
        invariant
            defaults@.map_values(|s: &str| s@) == default_extension_list(),
            i <= defaults.len(),
            rows@.len() == i,
            forall|k: int|
                0 <= k < i ==> row_view(#[trigger] rows@[k]) == unsupported_row(
                    default_extension_list()[k],
                ),
        decreases defaults.len() - i,
    {
        assert(defaults@[i as int]@ == default_extension_list()[i as int]);
        rows.push(
            FileAssociation {
                extension: String::from_str(defaults[i]),
                application_name: String::from_str("Unsupported platform"),
                application_path: String::new(),
            },
        );
        i = i + 1;
    }
    assert(rows@.map_values(|a: FileAssociation| row_view(a)) =~= default_extension_list().map_values(
        |e: Seq<char>| unsupported_row(e),
    ));
    Ok(rows)
}

/// On a platform without native support adding an extension changes nothing
/// and lists the defaults as unsupported.
pub fn add_extension_inner(extension: String) -> (r: Result<Vec<FileAssociation>, String>)
    ensures
        r is Ok,
        r->Ok_0@.map_values(|a: FileAssociation| row_view(a)) == default_extension_list().map_values(
            |e: Seq<char>| unsupported_row(e),
        ),
{
    list_file_associations_inner()
}

/// On a platform without native support no default can be changed.
pub fn set_default_application_for_extension_inner(
    extension: String,
    application_path: String,
) -> (r: Result<(), String>)
    ensures
        r is Err && r->Err_0@ == "仅支持在 macOS 上修改默认应用"@,
{
    Err(String::from_str("仅支持在 macOS 上修改默认应用"))
}

} // verus!
