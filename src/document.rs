use vstd::prelude::*;
use vstd::string::*;
use crate::content_type::{content_type_spec, extension_to_content_type};
use crate::error::PlatformError;
use crate::extension::{lower_of, str_eq};
use crate::handlers::{
    content_type_key, extension_key, fresh_content_type_entry, fresh_extension_entry,
    handlers_view, upsert_content_type_handler, upsert_extension_handler, upsert_spec,
    FieldsView, HandlerEntry, first_index, text_of, key_role_all, lemma_upsert_no_change,
    lemma_assigned_is_found, find_handler_spec,
};

verus! {

/// A top-level value of the preference document: the handler array, or any
/// other value, carried through untouched.
pub enum DocValue {
    Handlers(Vec<HandlerEntry>),
    Other(plist::Value),
}

/// The preference document: its top-level keys in order, or `None` where
/// the file does not hold a dictionary.
pub struct PreferenceDocument {
    pub root: Option<Vec<(String, DocValue)>>,
}

pub open spec fn handlers_key() -> Seq<char> {
    "LSHandlers"@
}

/// The position of the first top-level key equal to `LSHandlers`.
pub open spec fn handlers_slot(root: Seq<(String, DocValue)>) -> Option<int> {
    if exists|i: int| 0 <= i < root.len() && (#[trigger] root[i]).0@ == handlers_key() {
        Some(
            choose|i: int|
                0 <= i < root.len() && (#[trigger] root[i]).0@ == handlers_key() && forall|j: int|
                    0 <= j < i ==> (#[trigger] root[j]).0@ != handlers_key(),
        )
    } else {
        None
    }
}

fn find_handlers_slot(root: &Vec<(String, DocValue)>) -> (r: Option<usize>)
    ensures
        r matches Some(i) ==> i < root@.len() && root@[i as int].0@ == handlers_key() && forall|
            j: int,
        | 0 <= j < i ==> (#[trigger] root@[j]).0@ != handlers_key(),
        r is None ==> forall|j: int| 0 <= j < root@.len() ==> (#[trigger] root@[j]).0@ != handlers_key(),
{
    let mut i: usize = 0;
    while i < root.len()
        invariant
            i <= root.len(),
            forall|j: int| 0 <= j < i ==> (#[trigger] root@[j]).0@ != handlers_key(),
        decreases root.len() - i,
    {
        if str_eq(root[i].0.as_str(), "LSHandlers") {
            return Some(i);
        }
        i = i + 1;
    }
    None
}

/// Whether some top-level key is `LSHandlers`.
pub open spec fn has_handlers_key(root: Seq<(String, DocValue)>) -> bool {
    exists|i: int| 0 <= i < root.len() && (#[trigger] root[i]).0@ == handlers_key()
}

/// `n` is `r` with an empty handler array appended under `LSHandlers`.
pub open spec fn with_empty_handlers(r: Seq<(String, DocValue)>, n: Seq<(String, DocValue)>) -> bool {
    &&& n.len() == r.len() + 1
    &&& n.subrange(0, r.len() as int) == r
    &&& n.last().0@ == handlers_key()
    &&& n.last().1 matches DocValue::Handlers(h)
    &&& h@.len() == 0
}

/// Whether a document is a dictionary without a handler array.
pub open spec fn lacks_handlers(doc: PreferenceDocument) -> bool {
    doc.root matches Some(r) && !has_handlers_key(r@)
}

/// The handler array of a document, where it is a dictionary whose first
/// `LSHandlers` key holds an array.
pub open spec fn handlers_of(doc: PreferenceDocument) -> Option<Seq<HandlerEntry>> {
    match doc.root {
        Some(root) => match handlers_slot(root@) {
            Some(i) => match root@[i].1 {
                DocValue::Handlers(h) => Some(h@),
                DocValue::Other(_) => None,
            },
            None => None,
        },
        None => None,
    }
}

/// Makes sure a dictionary document has a handler array, adding an empty one
/// at the end where the key is missing. Any other document is left alone.
pub fn prepare_document(doc: &mut PreferenceDocument)
    ensures
        !lacks_handlers(*old(doc)) ==> *final(doc) == *old(doc),
        lacks_handlers(*old(doc)) ==> final(doc).root is Some && with_empty_handlers(
            old(doc).root->Some_0@,
            final(doc).root->Some_0@,
        ),
{
    if let Some(root) = &mut doc.root {
        if find_handlers_slot(root).is_none() {
            let ghost before = root@;
            root.push((String::from_str("LSHandlers"), DocValue::Handlers(Vec::new())));
            assert(root@.subrange(0, before.len() as int) =~= before);
        }
    }
}

/// The handler array of a document: the value under `LSHandlers`, which must
/// be an array in a dictionary.
pub fn document_handlers(doc: &PreferenceDocument) -> (r: Result<&Vec<HandlerEntry>, PlatformError>)
    ensures
        r is Ok <==> handlers_of(*doc) is Some,
        r matches Ok(h) ==> handlers_of(*doc) == Some(h@),
        r matches Err(e) ==> e is MissingHandlers,
{
    match &doc.root {
        None => Err(PlatformError::MissingHandlers),
        Some(root) => match find_handlers_slot(root) {
            None => {
                proof {
                    assert(handlers_slot(root@) is None);
                }
                Err(PlatformError::MissingHandlers)
            },
            Some(i) => {
                proof {
                    assert(handlers_slot(root@) == Some(i as int)) by {
                        let k = handlers_slot(root@)->Some_0;
                        if k < i as int {
                        } else if k > i as int {
                        }
                    }
                }
                match &root[i].1 {
                    DocValue::Handlers(h) => Ok(h),
                    DocValue::Other(_) => Err(PlatformError::MissingHandlers),
                }
            },
        },
    }
}


/// The handler list after naming `id` for the normalized extension `ext`: by
/// its extension tag, and by its content type where it has a known one.
pub open spec fn assigned_view(hv: Seq<Option<FieldsView>>, ext: Seq<char>, id: Seq<char>) -> Seq<
    Option<FieldsView>,
> {
    let h1 = upsert_spec(hv, extension_key(ext), id, fresh_extension_entry(ext, id));
    match content_type_spec(ext) {
        Some(ct) => upsert_spec(h1, content_type_key(ct), id, fresh_content_type_entry(ct, id)),
        None => h1,
    }
}

/// The handler list a document starts an assignment with: its array, or an
/// empty one where the key is missing.
pub open spec fn starting_handlers(doc: PreferenceDocument) -> Seq<HandlerEntry> {
    if lacks_handlers(doc) {
        Seq::empty()
    } else {
        handlers_of(doc)->Some_0
    }
}

/// Records in the document that `bundle_id` handles the normalized extension:
/// an extension entry, and a content-type entry where the extension has a
/// known content type, which is returned for the system call that follows.
/// Fails where the document is not a dictionary or its `LSHandlers` value is
/// not an array.
pub fn record_assignment(doc: &mut PreferenceDocument, extension: &str, bundle_id: &str) -> (r:
    Result<Option<&'static str>, PlatformError>)
    ensures
        r is Ok <==> (lacks_handlers(*old(doc)) || handlers_of(*old(doc)) is Some),
        r matches Err(e) ==> e is MissingHandlers,
        r matches Ok(ct) ==> (ct matches Some(c) ==> content_type_spec(extension@) == Some(c@))
            && (ct is None ==> content_type_spec(extension@) is None),
        r is Ok ==> (handlers_of(*final(doc)) matches Some(h) && handlers_view(h)
            == assigned_view(handlers_view(starting_handlers(*old(doc))), extension@, bundle_id@)),
        r is Ok ==> final(doc).root is Some && final(doc).root->Some_0@.len() == old(
            doc,
        ).root->Some_0@.len() + (if lacks_handlers(*old(doc)) {
            1int
        } else {
            0int
        }),
        r is Ok ==> forall|j: int|
            0 <= j < old(doc).root->Some_0@.len() && old(doc).root->Some_0@[j].0@ != handlers_key()
                ==> final(doc).root->Some_0@[j] == #[trigger] old(doc).root->Some_0@[j],
{
    let ghost original = *doc;
    let ghost was_lacking = lacks_handlers(*doc);
    prepare_document(doc);
    let ghost start = handlers_of(*doc);
    proof {
        if was_lacking {
            let root = doc.root->Some_0@;
            let n = (root.len() - 1) as int;
            assert(root[n].0@ == handlers_key());
            assert forall|j: int| 0 <= j < n implies (#[trigger] root[j]).0@ != handlers_key() by {
                assert(root.subrange(0, n)[j] == root[j]);
            }
            let k = handlers_slot(root)->Some_0;
            if k < n {
                assert(root.subrange(0, n)[k] == root[k]);
            }
            assert(handlers_slot(root) == Some(n));
            assert(start matches Some(h) && h.len() == 0);
            assert(start->Some_0 =~= Seq::<HandlerEntry>::empty());
        }
    }
    let root = match &mut doc.root {
        Some(root) => root,
        None => {
            return Err(PlatformError::MissingHandlers);
        },
    };
    let i = match find_handlers_slot(root) {
        Some(i) => i,
        None => {
            return Err(PlatformError::MissingHandlers);
        },
    };
    proof {
        let k = handlers_slot(root@)->Some_0;
        assert(handlers_slot(root@) == Some(i as int)) by {
            if k < i as int {
            } else if k > i as int {
            }
        }
    }
    let ghost before = root@;
    proof {
        if was_lacking {
            assert(before.subrange(0, before.len() - 1) == original.root->Some_0@);
            assert forall|j: int| 0 <= j < before.len() - 1 implies before[j] == original.root->Some_0@[j] by {
                assert(before.subrange(0, before.len() - 1)[j] == before[j]);
            }
        } else {
            assert(before == original.root->Some_0@);
        }
    }
    if let DocValue::Handlers(_) = &root[i].1 {
    } else {
        return Err(PlatformError::MissingHandlers);
    }
    let (key, value) = root.remove(i);
    let mut handlers = match value {
        DocValue::Handlers(h) => h,
        DocValue::Other(_) => Vec::new(),
    };
    upsert_extension_handler(&mut handlers, extension, bundle_id);
    let content_type = extension_to_content_type(extension);
    if let Some(ct) = content_type {
        upsert_content_type_handler(&mut handlers, ct, bundle_id);
    }
    let ghost hv = handlers_view(handlers@);
    root.insert(i, (key, DocValue::Handlers(handlers)));
    proof {
        let after = root@;
        assert forall|j: int| 0 <= j < after.len() implies (#[trigger] after[j]).0@ == before[j].0@ by {
        }
        let k = handlers_slot(after)->Some_0;
        assert(after[i as int].0@ == handlers_key());
        assert(handlers_slot(after) == Some(i as int)) by {
            if k < i as int {
                assert(before[k].0@ == handlers_key());
            } else if k > i as int {
                assert(after[i as int].0@ == handlers_key());
            }
        }
    }
    Ok(content_type)
}


/// The first entry of `hv` matching `keyed` already names `id` as its
/// all-roles handler.
pub open spec fn already_names(hv: Seq<Option<FieldsView>>, keyed: spec_fn(FieldsView) -> bool, id: Seq<char>) -> bool {
    first_index(hv, keyed) is Some && text_of(
        hv[first_index(hv, keyed)->Some_0]->Some_0,
        key_role_all(),
    ) == Some(id)
}

/// Loading the handler list and saving it back through an assignment that
/// changes nothing keeps it as it was: where the entry keyed by the extension
/// and, for a known content type, the entry keyed by that type already name
/// `id`, the list comes out equal, entries, order and fields alike.
pub proof fn lemma_unchanged_assignment_keeps_handlers(
    hv: Seq<Option<FieldsView>>,
    ext: Seq<char>,
    id: Seq<char>,
)
    requires
        already_names(hv, extension_key(ext), id),
        content_type_spec(ext) matches Some(ct) ==> already_names(hv, content_type_key(ct), id),
    ensures
        assigned_view(hv, ext, id) == hv,
{
    lemma_upsert_no_change(hv, extension_key(ext), id, fresh_extension_entry(ext, id));
    if let Some(ct) = content_type_spec(ext) {
        lemma_upsert_no_change(hv, content_type_key(ct), id, fresh_content_type_entry(ct, id));
    }
}


/// Once an assignment has named `id` for a normalized extension, looking the
/// extension up in the handler list finds `id`, whatever the list held before.
pub proof fn lemma_recorded_assignment_is_found(
    hv: Seq<Option<FieldsView>>,
    ext: Seq<char>,
    id: Seq<char>,
)
    requires
        lower_of(ext) == ext,
    ensures
        find_handler_spec(assigned_view(hv, ext, id), ext) == Some(id),
{
    lemma_assigned_is_found(hv, ext, id, content_type_spec(ext));
}

} // verus!
