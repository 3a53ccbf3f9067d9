use vstd::prelude::*;
use vstd::string::*;
use crate::content_type::{content_type_spec, extension_to_content_type};
use crate::extension::{lower_of, str_eq, to_lower};

verus! {

#[verifier::external_type_specification]
#[verifier::external_body]
pub struct ExPlistValue(plist::Value);

/// A value under one key of a handler entry: text, which the engine reads
/// and writes, or any other property-list value, carried through untouched.
pub enum FieldValue {
    Text(String),
    Other(plist::Value),
}

/// One element of the `LSHandlers` array: a dictionary, its keys in order,
/// or any other value, carried through untouched.
pub enum HandlerEntry {
    Dict(Vec<(String, FieldValue)>),
    Other(plist::Value),
}

/// What the engine sees of a dictionary: each key with its text, or `None`
/// where the value is not text.
pub type FieldsView = Seq<(Seq<char>, Option<Seq<char>>)>;

pub open spec fn field_view(f: (String, FieldValue)) -> (Seq<char>, Option<Seq<char>>) {
    (
        f.0@,
        match f.1 {
            FieldValue::Text(s) => Some(s@),
            FieldValue::Other(_) => None,
        },
    )
}

pub open spec fn fields_view(fields: Seq<(String, FieldValue)>) -> FieldsView {
    fields.map_values(|f: (String, FieldValue)| field_view(f))
}

/// What the engine sees of an entry: its fields, or `None` for a value that
/// is not a dictionary.
pub open spec fn entry_view(e: HandlerEntry) -> Option<FieldsView> {
    match e {
        HandlerEntry::Dict(fields) => Some(fields_view(fields@)),
        HandlerEntry::Other(_) => None,
    }
}

pub open spec fn handlers_view(hs: Seq<HandlerEntry>) -> Seq<Option<FieldsView>> {
    hs.map_values(|e: HandlerEntry| entry_view(e))
}

/// The first field under `key`, by position.
pub open spec fn field_index(fs: FieldsView, key: Seq<char>) -> Option<int>
    decreases fs.len(),
{
    if fs.len() == 0 {
        None
    } else if fs.last().0 == key && field_index(fs.drop_last(), key) is None {
        Some(fs.len() - 1)
    } else {
        field_index(fs.drop_last(), key)
    }
}

/// The text under `key`, where the key is present with a text value.
pub open spec fn text_of(fs: FieldsView, key: Seq<char>) -> Option<Seq<char>> {
    match field_index(fs, key) {
        Some(i) => fs[i].1,
        None => None,
    }
}

/// `fs` with `key` set to the text `v`: in place where the key is present,
/// else at the end.
pub open spec fn put_text(fs: FieldsView, key: Seq<char>, v: Seq<char>) -> FieldsView {
    match field_index(fs, key) {
        Some(i) => fs.update(i, (key, Some(v))),
        None => fs.push((key, Some(v))),
    }
}

pub open spec fn key_tag() -> Seq<char> {
    "LSHandlerContentTag"@
}

pub open spec fn key_tag_class() -> Seq<char> {
    "LSHandlerContentTagClass"@
}

pub open spec fn key_content_type() -> Seq<char> {
    "LSHandlerContentType"@
}

pub open spec fn key_role_all() -> Seq<char> {
    "LSHandlerRoleAll"@
}

pub open spec fn key_role_viewer() -> Seq<char> {
    "LSHandlerRoleViewer"@
}

pub open spec fn filename_extension_class() -> Seq<char> {
    "public.filename-extension"@
}

/// An entry keyed by the filename extension `ext` (its tag compared after
/// lower-casing).
pub open spec fn keyed_by_extension(fs: FieldsView, ext: Seq<char>) -> bool {
    &&& text_of(fs, key_tag()) matches Some(t)
    &&& lower_of(t) == ext
    &&& text_of(fs, key_tag_class()) == Some(filename_extension_class())
}

/// An entry keyed by the content type `ct`.
pub open spec fn keyed_by_content_type(fs: FieldsView, ct: Seq<char>) -> bool {
    text_of(fs, key_content_type()) == Some(ct)
}

/// The application an entry names: its all-roles handler, else its viewer.
pub open spec fn role_of(fs: FieldsView) -> Option<Seq<char>> {
    match text_of(fs, key_role_all()) {
        Some(r) => Some(r),
        None => text_of(fs, key_role_viewer()),
    }
}

/// Whether an entry answers a lookup for the normalized extension `ext`.
pub open spec fn answers(e: Option<FieldsView>, ext: Seq<char>) -> bool {
    &&& e matches Some(fs)
    &&& keyed_by_extension(fs, ext) || (content_type_spec(ext) matches Some(ct)
        && keyed_by_content_type(fs, ct))
    &&& role_of(fs) is Some
}

/// The application of the first entry that answers for `ext`.
pub open spec fn find_handler_spec(hs: Seq<Option<FieldsView>>, ext: Seq<char>) -> Option<
    Seq<char>,
>
    decreases hs.len(),
{
    if hs.len() == 0 {
        None
    } else if answers(hs[0], ext) {
        role_of(hs[0]->Some_0)
    } else {
        find_handler_spec(hs.drop_first(), ext)
    }
}

/// The position of the first dictionary entry matching `keyed`.
pub open spec fn first_index(hs: Seq<Option<FieldsView>>, keyed: spec_fn(FieldsView) -> bool) -> Option<int>
    decreases hs.len(),
{
    if hs.len() == 0 {
        None
    } else if first_index(hs.drop_last(), keyed) is Some {
        first_index(hs.drop_last(), keyed)
    } else if hs.last() matches Some(fs) && keyed(fs) {
        Some(hs.len() - 1)
    } else {
        None
    }
}

/// The handler list after setting `id` as the all-roles handler of the first
/// entry matching `keyed`, or after appending `fresh` where none matches.
pub open spec fn upsert_spec(
    hs: Seq<Option<FieldsView>>,
    keyed: spec_fn(FieldsView) -> bool,
    id: Seq<char>,
    fresh: FieldsView,
) -> Seq<Option<FieldsView>> {
    match first_index(hs, keyed) {
        Some(i) => hs.update(i, Some(put_text(hs[i]->Some_0, key_role_all(), id))),
        None => hs.push(Some(fresh)),
    }
}

/// The entry written for a new extension handler.
pub open spec fn fresh_extension_entry(ext: Seq<char>, id: Seq<char>) -> FieldsView {
    seq![
        (key_tag(), Some(ext)),
        (key_tag_class(), Some(filename_extension_class())),
        (key_role_all(), Some(id)),
    ]
}

/// The entry written for a new content-type handler.
pub open spec fn fresh_content_type_entry(ct: Seq<char>, id: Seq<char>) -> FieldsView {
    seq![(key_content_type(), Some(ct)), (key_role_all(), Some(id))]
}

pub open spec fn extension_key(ext: Seq<char>) -> spec_fn(FieldsView) -> bool {
    |fs: FieldsView| keyed_by_extension(fs, ext)
}

pub open spec fn content_type_key(ct: Seq<char>) -> spec_fn(FieldsView) -> bool {
    |fs: FieldsView| keyed_by_content_type(fs, ct)
}


proof fn lemma_field_index_found(fs: FieldsView, key: Seq<char>, i: int)
    requires
        0 <= i < fs.len(),
        field_index(fs.subrange(0, i), key) is None,
        fs[i].0 == key,
    ensures
        field_index(fs, key) == Some(i),
    decreases fs.len(),
{
    if fs.len() == i + 1 {
        assert(fs.drop_last() =~= fs.subrange(0, i));
    } else {
        assert(fs.drop_last().subrange(0, i) =~= fs.subrange(0, i));
        lemma_field_index_found(fs.drop_last(), key, i);
    }
}

proof fn lemma_field_index_step(fs: FieldsView, key: Seq<char>, i: int)
    requires
        0 <= i < fs.len(),
        field_index(fs.subrange(0, i), key) is None,
        fs[i].0 != key,
    ensures
        field_index(fs.subrange(0, i + 1), key) is None,
{
    assert(fs.subrange(0, i + 1).drop_last() =~= fs.subrange(0, i));
}

proof fn lemma_first_index_found(
    hs: Seq<Option<FieldsView>>,
    keyed: spec_fn(FieldsView) -> bool,
    i: int,
)
    requires
        0 <= i < hs.len(),
        first_index(hs.subrange(0, i), keyed) is None,
        hs[i] matches Some(fs) && keyed(fs),
    ensures
        first_index(hs, keyed) == Some(i),
    decreases hs.len(),
{
    if hs.len() == i + 1 {
        assert(hs.drop_last() =~= hs.subrange(0, i));
    } else {
        assert(hs.drop_last().subrange(0, i) =~= hs.subrange(0, i));
        lemma_first_index_found(hs.drop_last(), keyed, i);
    }
}

proof fn lemma_first_index_step(
    hs: Seq<Option<FieldsView>>,
    keyed: spec_fn(FieldsView) -> bool,
    i: int,
)
    requires
        0 <= i < hs.len(),
        first_index(hs.subrange(0, i), keyed) is None,
        !(hs[i] matches Some(fs) && keyed(fs)),
    ensures
        first_index(hs.subrange(0, i + 1), keyed) is None,
{
    assert(hs.subrange(0, i + 1).drop_last() =~= hs.subrange(0, i));
}

/// The position of the first field under `key`.
pub fn find_field(fields: &Vec<(String, FieldValue)>, key: &str) -> (r: Option<usize>)
    ensures
        r matches Some(i) ==> field_index(fields_view(fields@), key@) == Some(i as int) && i
            < fields@.len() && fields@[i as int].0@ == key@,
        r is None ==> field_index(fields_view(fields@), key@) is None,
{
    let ghost fs = fields_view(fields@);
    let mut i: usize = 0;
    assert(fs.subrange(0, 0) =~= Seq::empty());
    while i < fields.len()
        invariant
            fs == fields_view(fields@),
            i <= fields.len(),
            field_index(fs.subrange(0, i as int), key@) is None,
        decreases fields.len() - i,
    {
        assert(fs[i as int].0 == fields@[i as int].0@);
        if str_eq(fields[i].0.as_str(), key) {
            proof {
                lemma_field_index_found(fs, key@, i as int);
            }
            return Some(i);
        }
        proof {
            lemma_field_index_step(fs, key@, i as int);
        }
        i = i + 1;
    }
    assert(fs.subrange(0, i as int) =~= fs);
    None
}

/// The text under `key`, where the key is present with a text value.
pub fn text_field<'a>(fields: &'a Vec<(String, FieldValue)>, key: &str) -> (r: Option<&'a String>)
    ensures
        r matches Some(s) ==> text_of(fields_view(fields@), key@) == Some(s@),
        r is None ==> text_of(fields_view(fields@), key@) is None,
{
    match find_field(fields, key) {
        Some(i) => match &fields[i].1 {
            FieldValue::Text(s) => Some(s),
            FieldValue::Other(_) => None,
        },
        None => None,
    }
}

/// Sets `key` to the text `v`: in place where the key is present, else at
/// the end. The other fields keep their values and places.
pub fn put_text_field(fields: &mut Vec<(String, FieldValue)>, key: &str, v: &str)
    ensures
        fields_view(final(fields)@) == put_text(fields_view(old(fields)@), key@, v@),
        final(fields)@.len() >= old(fields)@.len(),
        forall|k: int|
            0 <= k < old(fields)@.len() && old(fields)@[k].0@ != key@ ==> final(fields)@[k]
                == #[trigger] old(fields)@[k],
{
    let ghost fs = fields_view(fields@);
    match find_field(fields, key) {
        Some(i) => {
            let _ = fields.remove(i);
            fields.insert(i, (String::from_str(key), FieldValue::Text(String::from_str(v))));
            proof {
                assert(fields_view(fields@) =~= fs.update(i as int, (key@, Some(v@))));
            }
        },
        None => {
            fields.push((String::from_str(key), FieldValue::Text(String::from_str(v))));
            proof {
                assert(fields_view(fields@) =~= fs.push((key@, Some(v@))));
            }
        },
    }
}

/// Whether a dictionary entry is keyed by the normalized extension `ext`.
pub fn is_extension_entry(fields: &Vec<(String, FieldValue)>, ext: &str) -> (r: bool)
    ensures
        r == keyed_by_extension(fields_view(fields@), ext@),
{
    match text_field(fields, "LSHandlerContentTag") {
        Some(tag) => {
            let lowered = to_lower(tag.as_str());
            if !str_eq(lowered.as_str(), ext) {
                return false;
            }
            match text_field(fields, "LSHandlerContentTagClass") {
                Some(class) => str_eq(class.as_str(), "public.filename-extension"),
                None => false,
            }
        },
        None => false,
    }
}

/// Whether a dictionary entry is keyed by the content type `ct`.
pub fn is_content_type_entry(fields: &Vec<(String, FieldValue)>, ct: &str) -> (r: bool)
    ensures
        r == keyed_by_content_type(fields_view(fields@), ct@),
{
    match text_field(fields, "LSHandlerContentType") {
        Some(t) => str_eq(t.as_str(), ct),
        None => false,
    }
}

/// The application an entry names: its all-roles handler, else its viewer.
pub fn entry_role(fields: &Vec<(String, FieldValue)>) -> (r: Option<String>)
    ensures
        r matches Some(s) ==> role_of(fields_view(fields@)) == Some(s@),
        r is None ==> role_of(fields_view(fields@)) is None,
{
    match text_field(fields, "LSHandlerRoleAll") {
        Some(s) => Some(s.clone()),
        None => match text_field(fields, "LSHandlerRoleViewer") {
            Some(s) => Some(s.clone()),
            None => None,
        },
    }
}

/// The application the handler list names for an extension: that of the
/// first entry keyed by the lower-cased extension, or by its content type,
/// that names one.
pub fn find_bundle_id_for_extension(handlers: &Vec<HandlerEntry>, extension: &str) -> (r: Option<
    String,
>)
    ensures
        r matches Some(s) ==> find_handler_spec(handlers_view(handlers@), lower_of(extension@))
            == Some(s@),
        r is None ==> find_handler_spec(handlers_view(handlers@), lower_of(extension@)) is None,
{
    let normalized = to_lower(extension);
    let content_type = extension_to_content_type(normalized.as_str());
    let ghost hv = handlers_view(handlers@);
    let ghost ext = normalized@;
    let mut i: usize = 0;
    assert(hv.subrange(0, 0) =~= Seq::empty());
    assert(hv.subrange(0, hv.len() as int) =~= hv);
    while i < handlers.len()
        invariant
            hv == handlers_view(handlers@),
            ext == normalized@,
            ext == lower_of(extension@),
            i <= handlers.len(),
            content_type matches Some(c) ==> content_type_spec(ext) == Some(c@),
            content_type is None ==> content_type_spec(ext) is None,
            find_handler_spec(hv, ext) == find_handler_spec(hv.subrange(i as int, hv.len() as int), ext),
        decreases handlers.len() - i,
    {
        let ghost rest = hv.subrange(i as int, hv.len() as int);
        assert(rest[0] == entry_view(handlers@[i as int]));
        assert(rest.drop_first() =~= hv.subrange(i + 1, hv.len() as int));
        if let HandlerEntry::Dict(fields) = &handlers[i] {
            let by_ext = is_extension_entry(fields, normalized.as_str());
            let by_ct = match content_type {
                Some(ct) => is_content_type_entry(fields, ct),
                None => false,
            };
            if by_ext || by_ct {
                let role = entry_role(fields);
                if role.is_some() {
                    return role;
                }
            }
        }
        i = i + 1;
    }
    None
}

/// Position of the first dictionary entry keyed by the normalized extension.
fn first_extension_entry(handlers: &Vec<HandlerEntry>, ext: &str) -> (r: Option<usize>)
    ensures
        r matches Some(i) ==> first_index(handlers_view(handlers@), extension_key(ext@)) == Some(
            i as int,
        ) && i < handlers.len() && handlers@[i as int] is Dict,
        r is None ==> first_index(handlers_view(handlers@), extension_key(ext@)) is None,
{
    let ghost hv = handlers_view(handlers@);
    let mut i: usize = 0;
    assert(hv.subrange(0, 0) =~= Seq::empty());
    while i < handlers.len()
        invariant
            hv == handlers_view(handlers@),
            i <= handlers.len(),
            first_index(hv.subrange(0, i as int), extension_key(ext@)) is None,
        decreases handlers.len() - i,
    {
        let hit = match &handlers[i] {
            HandlerEntry::Dict(fields) => is_extension_entry(fields, ext),
            HandlerEntry::Other(_) => false,
        };
        if hit {
            proof {
                lemma_first_index_found(hv, extension_key(ext@), i as int);
            }
            return Some(i);
        }
        proof {
            lemma_first_index_step(hv, extension_key(ext@), i as int);
        }
        i = i + 1;
    }
    assert(hv.subrange(0, i as int) =~= hv);
    None
}

/// Position of the first dictionary entry keyed by the content type.
fn first_content_type_entry(handlers: &Vec<HandlerEntry>, ct: &str) -> (r: Option<usize>)
    ensures
        r matches Some(i) ==> first_index(handlers_view(handlers@), content_type_key(ct@))
            == Some(i as int) && i < handlers.len() && handlers@[i as int] is Dict,
        r is None ==> first_index(handlers_view(handlers@), content_type_key(ct@)) is None,
{
    let ghost hv = handlers_view(handlers@);
    let mut i: usize = 0;
    assert(hv.subrange(0, 0) =~= Seq::empty());
    while i < handlers.len()
        invariant
            hv == handlers_view(handlers@),
            i <= handlers.len(),
            first_index(hv.subrange(0, i as int), content_type_key(ct@)) is None,
        decreases handlers.len() - i,
    {
        let hit = match &handlers[i] {
            HandlerEntry::Dict(fields) => is_content_type_entry(fields, ct),
            HandlerEntry::Other(_) => false,
        };
        if hit {
            proof {
                lemma_first_index_found(hv, content_type_key(ct@), i as int);
            }
            return Some(i);
        }
        proof {
            lemma_first_index_step(hv, content_type_key(ct@), i as int);
        }
        i = i + 1;
    }
    assert(hv.subrange(0, i as int) =~= hv);
    None
}

/// Sets the all-roles handler of entry `i`, a dictionary.
fn set_role_all(handlers: &mut Vec<HandlerEntry>, i: usize, bundle_id: &str)
    requires
        i < old(handlers).len(),
        old(handlers)@[i as int] is Dict,
    ensures
        handlers_view(final(handlers)@) == handlers_view(old(handlers)@).update(
            i as int,
            Some(put_text(entry_view(old(handlers)@[i as int])->Some_0, key_role_all(), bundle_id@)),
        ),
        final(handlers)@.len() == old(handlers)@.len(),
        forall|k: int|
            0 <= k < old(handlers)@.len() && k != i ==> final(handlers)@[k] == #[trigger] old(
                handlers,
            )@[k],
        final(handlers)@[i as int] is Dict,
        forall|k: int|
            0 <= k < old(handlers)@[i as int]->Dict_0@.len() && old(handlers)@[i as int]->Dict_0@[k].0@
                != key_role_all() ==> final(handlers)@[i as int]->Dict_0@[k] == #[trigger] old(
                handlers,
            )@[i as int]->Dict_0@[k],
{
    let ghost hv = handlers_view(handlers@);
    let entry = handlers.remove(i);
    if let HandlerEntry::Dict(mut fields) = entry {
        put_text_field(&mut fields, "LSHandlerRoleAll", bundle_id);
        handlers.insert(i, HandlerEntry::Dict(fields));
    }
    proof {
        assert(handlers_view(handlers@) =~= hv.update(
            i as int,
            Some(put_text(hv[i as int]->Some_0, key_role_all(), bundle_id@)),
        ));
    }
}

/// Names `bundle_id` as the all-roles handler of the normalized extension:
/// in the first entry keyed by it, whose other fields are kept, or in a new
/// entry at the end. Every other entry is left as it was.
pub fn upsert_extension_handler(handlers: &mut Vec<HandlerEntry>, extension: &str, bundle_id: &str)
    ensures
        handlers_view(final(handlers)@) == upsert_spec(
            handlers_view(old(handlers)@),
            extension_key(extension@),
            bundle_id@,
            fresh_extension_entry(extension@, bundle_id@),
        ),
        final(handlers)@.len() >= old(handlers)@.len(),
        forall|k: int|
            0 <= k < old(handlers)@.len() && first_index(handlers_view(old(handlers)@), extension_key(extension@)) != Some(k)
                ==> final(handlers)@[k] == #[trigger] old(handlers)@[k],
        forall|i: int, k: int|
            first_index(handlers_view(old(handlers)@), extension_key(extension@)) == Some(i) && 0 <= k < old(
                handlers,
            )@[i]->Dict_0@.len() && old(handlers)@[i]->Dict_0@[k].0@ != key_role_all()
                ==> final(handlers)@[i]->Dict_0@[k] == #[trigger] old(handlers)@[i]->Dict_0@[k],
{
    match first_extension_entry(handlers, extension) {
        Some(i) => set_role_all(handlers, i, bundle_id),
        None => {
            let ghost hv = handlers_view(handlers@);
            let mut fields: Vec<(String, FieldValue)> = Vec::new();
            fields.push(
                (String::from_str("LSHandlerContentTag"), FieldValue::Text(String::from_str(extension))),
            );
            fields.push(
                (
                    String::from_str("LSHandlerContentTagClass"),
                    FieldValue::Text(String::from_str("public.filename-extension")),
                ),
            );
            fields.push(
                (String::from_str("LSHandlerRoleAll"), FieldValue::Text(String::from_str(bundle_id))),
            );
            assert(fields_view(fields@) =~= fresh_extension_entry(extension@, bundle_id@));
            handlers.push(HandlerEntry::Dict(fields));
            assert(handlers_view(handlers@) =~= hv.push(
                Some(fresh_extension_entry(extension@, bundle_id@)),
            ));
        },
    }
}

/// Names `bundle_id` as the all-roles handler of a content type: in the first
/// entry keyed by it, whose other fields are kept, or in a new entry at the end.
/// Every other entry is left as it was.
pub fn upsert_content_type_handler(
    handlers: &mut Vec<HandlerEntry>,
    content_type: &str,
    bundle_id: &str,
)
    ensures
        handlers_view(final(handlers)@) == upsert_spec(
            handlers_view(old(handlers)@),
            content_type_key(content_type@),
            bundle_id@,
            fresh_content_type_entry(content_type@, bundle_id@),
        ),
        final(handlers)@.len() >= old(handlers)@.len(),
        forall|k: int|
            0 <= k < old(handlers)@.len() && first_index(handlers_view(old(handlers)@), content_type_key(content_type@)) != Some(k)
                ==> final(handlers)@[k] == #[trigger] old(handlers)@[k],
        forall|i: int, k: int|
            first_index(handlers_view(old(handlers)@), content_type_key(content_type@)) == Some(i) && 0 <= k < old(
                handlers,
            )@[i]->Dict_0@.len() && old(handlers)@[i]->Dict_0@[k].0@ != key_role_all()
                ==> final(handlers)@[i]->Dict_0@[k] == #[trigger] old(handlers)@[i]->Dict_0@[k],
{
    match first_content_type_entry(handlers, content_type) {
        Some(i) => set_role_all(handlers, i, bundle_id),
        None => {
            let ghost hv = handlers_view(handlers@);
            let mut fields: Vec<(String, FieldValue)> = Vec::new();
            fields.push(
                (
                    String::from_str("LSHandlerContentType"),
                    FieldValue::Text(String::from_str(content_type)),
                ),
            );
            fields.push(
                (String::from_str("LSHandlerRoleAll"), FieldValue::Text(String::from_str(bundle_id))),
            );
            assert(fields_view(fields@) =~= fresh_content_type_entry(content_type@, bundle_id@));
            handlers.push(HandlerEntry::Dict(fields));
            assert(handlers_view(handlers@) =~= hv.push(
                Some(fresh_content_type_entry(content_type@, bundle_id@)),
            ));
        },
    }
}


proof fn lemma_field_index_some(fs: FieldsView, key: Seq<char>)
    ensures
        field_index(fs, key) matches Some(i) ==> 0 <= i < fs.len() && fs[i].0 == key,
        field_index(fs, key) is None ==> forall|j: int| 0 <= j < fs.len() ==> (#[trigger] fs[j]).0
            != key,
    decreases fs.len(),
{
    if fs.len() > 0 {
        lemma_field_index_some(fs.drop_last(), key);
        if field_index(fs, key) is None {
            assert forall|j: int| 0 <= j < fs.len() implies (#[trigger] fs[j]).0 != key by {
                if j < fs.len() - 1 {
                    assert(fs.drop_last()[j] == fs[j]);
                }
            }
        }
    }
}

proof fn lemma_field_index_same_keys(a: FieldsView, b: FieldsView, key: Seq<char>)
    requires
        a.len() == b.len(),
        forall|j: int| 0 <= j < a.len() ==> (#[trigger] a[j]).0 == b[j].0,
    ensures
        field_index(a, key) == field_index(b, key),
    decreases a.len(),
{
    if a.len() > 0 {
        lemma_field_index_same_keys(a.drop_last(), b.drop_last(), key);
    }
}

proof fn lemma_put_text_other(fs: FieldsView, k: Seq<char>, v: Seq<char>, k2: Seq<char>)
    requires
        k != k2,
    ensures
        text_of(put_text(fs, k, v), k2) == text_of(fs, k2),
{
    lemma_field_index_some(fs, k);
    lemma_field_index_some(fs, k2);
    match field_index(fs, k) {
        Some(i) => {
            let n = fs.update(i, (k, Some(v)));
            lemma_field_index_same_keys(n, fs, k2);
        },
        None => {
            let n = fs.push((k, Some(v)));
            assert(n.drop_last() =~= fs);
        },
    }
}

proof fn lemma_put_text_twice(fs: FieldsView, k: Seq<char>, v: Seq<char>)
    ensures
        put_text(put_text(fs, k, v), k, v) == put_text(fs, k, v),
{
    lemma_field_index_some(fs, k);
    let n = put_text(fs, k, v);
    match field_index(fs, k) {
        Some(i) => {
            lemma_field_index_same_keys(n, fs, k);
            assert(n.update(i, (k, Some(v))) =~= n);
        },
        None => {
            assert(n.drop_last() =~= fs);
            assert(field_index(n, k) == Some(fs.len() as int));
            assert(n.update(fs.len() as int, (k, Some(v))) =~= n);
        },
    }
}

proof fn lemma_first_index_some(hs: Seq<Option<FieldsView>>, keyed: spec_fn(FieldsView) -> bool)
    ensures
        first_index(hs, keyed) is Some ==> ({
            let i = first_index(hs, keyed)->Some_0;
            &&& 0 <= i < hs.len()
            &&& hs[i] is Some
            &&& keyed(hs[i]->Some_0)
            &&& first_index(hs.subrange(0, i), keyed) is None
        }),
    decreases hs.len(),
{
    if hs.len() > 0 {
        lemma_first_index_some(hs.drop_last(), keyed);
        if first_index(hs.drop_last(), keyed) is Some {
            let i = first_index(hs.drop_last(), keyed)->Some_0;
            assert(hs.drop_last().subrange(0, i) =~= hs.subrange(0, i));
        } else {
            assert(hs.drop_last() =~= hs.subrange(0, hs.len() - 1));
        }
    }
}

proof fn lemma_upsert_twice(
    hs: Seq<Option<FieldsView>>,
    keyed: spec_fn(FieldsView) -> bool,
    id: Seq<char>,
    fresh: FieldsView,
)
    requires
        keyed(fresh),
        put_text(fresh, key_role_all(), id) == fresh,
        forall|fs: FieldsView| #[trigger] keyed(put_text(fs, key_role_all(), id)) == keyed(fs),
    ensures
        upsert_spec(upsert_spec(hs, keyed, id, fresh), keyed, id, fresh) == upsert_spec(
            hs,
            keyed,
            id,
            fresh,
        ),
{
    lemma_first_index_some(hs, keyed);
    let h1 = upsert_spec(hs, keyed, id, fresh);
    match first_index(hs, keyed) {
        Some(i) => {
            let fs = hs[i]->Some_0;
            assert(keyed(put_text(fs, key_role_all(), id)));
            assert(h1.subrange(0, i) =~= hs.subrange(0, i));
            lemma_first_index_found(h1, keyed, i);
            lemma_put_text_twice(fs, key_role_all(), id);
            assert(h1.update(i, Some(put_text(h1[i]->Some_0, key_role_all(), id))) =~= h1);
        },
        None => {
            assert(hs.subrange(0, hs.len() as int) =~= hs);
            assert(h1.subrange(0, hs.len() as int) =~= hs);
            lemma_first_index_found(h1, keyed, hs.len() as int);
            assert(h1.update(hs.len() as int, Some(put_text(fresh, key_role_all(), id))) =~= h1);
        },
    }
}

proof fn lemma_keys_distinct()
    ensures
        key_role_all() != key_tag(),
        key_role_all() != key_tag_class(),
        key_role_all() != key_content_type(),
        key_tag() != key_tag_class(),
        key_tag() != key_content_type(),
{
    reveal_strlit("LSHandlerRoleAll");
    reveal_strlit("LSHandlerContentTag");
    reveal_strlit("LSHandlerContentTagClass");
    reveal_strlit("LSHandlerContentType");
    assert(key_role_all()[9] != key_tag()[9]);
    assert(key_role_all()[9] != key_tag_class()[9]);
    assert(key_role_all()[9] != key_content_type()[9]);
    assert(key_tag().len() != key_tag_class().len());
    assert(key_tag()[17] != key_content_type()[17]);
}

/// Upserting the same extension handler twice leaves the handler list as one
/// upsert does: the second finds the entry the first wrote and changes
/// nothing, so the number of entries stays the same.
pub proof fn lemma_upsert_extension_idempotent(
    hs: Seq<Option<FieldsView>>,
    ext: Seq<char>,
    id: Seq<char>,
)
    requires
        lower_of(ext) == ext,
    ensures
        ({
            let once = upsert_spec(hs, extension_key(ext), id, fresh_extension_entry(ext, id));
            &&& upsert_spec(once, extension_key(ext), id, fresh_extension_entry(ext, id)) == once
            &&& find_first_keyed(once, extension_key(ext))
        }),
{
    lemma_keys_distinct();
    let fresh = fresh_extension_entry(ext, id);
    let f0: FieldsView = Seq::empty();
    let f1 = f0.push(fresh[0]);
    let f2 = f1.push(fresh[1]);
    assert(f1.drop_last() =~= f0);
    assert(f2.drop_last() =~= f1);
    assert(fresh.drop_last() =~= f2);
    assert(field_index(f0, key_tag()) is None);
    assert(field_index(f0, key_tag_class()) is None);
    assert(field_index(f0, key_role_all()) is None);
    assert(field_index(f1, key_tag()) == Some(0int));
    assert(field_index(f1, key_tag_class()) is None);
    assert(field_index(f1, key_role_all()) is None);
    assert(field_index(f2, key_tag()) == Some(0int));
    assert(field_index(f2, key_tag_class()) == Some(1int));
    assert(field_index(f2, key_role_all()) is None);
    assert(field_index(fresh, key_tag()) == Some(0int));
    assert(field_index(fresh, key_tag_class()) == Some(1int));
    assert(field_index(fresh.drop_last(), key_role_all()) is None);
    assert(field_index(fresh, key_role_all()) == Some(2int));
    assert(fresh.update(2, (key_role_all(), Some(id))) =~= fresh);
    assert forall|fs: FieldsView| #[trigger]
        extension_key(ext)(put_text(fs, key_role_all(), id)) == extension_key(ext)(fs) by {
        lemma_put_text_other(fs, key_role_all(), id, key_tag());
        lemma_put_text_other(fs, key_role_all(), id, key_tag_class());
    }
    lemma_upsert_twice(hs, extension_key(ext), id, fresh);
    lemma_upsert_finds(hs, extension_key(ext), id, fresh);
}

/// Upserting the same content-type handler twice leaves the handler list as
/// one upsert does.
pub proof fn lemma_upsert_content_type_idempotent(
    hs: Seq<Option<FieldsView>>,
    ct: Seq<char>,
    id: Seq<char>,
)
    ensures
        ({
            let once = upsert_spec(hs, content_type_key(ct), id, fresh_content_type_entry(ct, id));
            &&& upsert_spec(once, content_type_key(ct), id, fresh_content_type_entry(ct, id))
                == once
            &&& find_first_keyed(once, content_type_key(ct))
        }),
{
    lemma_keys_distinct();
    let fresh = fresh_content_type_entry(ct, id);
    let f0: FieldsView = Seq::empty();
    let f1 = f0.push(fresh[0]);
    assert(f1.drop_last() =~= f0);
    assert(fresh.drop_last() =~= f1);
    assert(field_index(f0, key_content_type()) is None);
    assert(field_index(f0, key_role_all()) is None);
    assert(field_index(f1, key_content_type()) == Some(0int));
    assert(field_index(f1, key_role_all()) is None);
    assert(field_index(fresh, key_content_type()) == Some(0int));
    assert(field_index(fresh, key_role_all()) == Some(1int));
    assert(fresh.update(1, (key_role_all(), Some(id))) =~= fresh);
    assert forall|fs: FieldsView| #[trigger]
        content_type_key(ct)(put_text(fs, key_role_all(), id)) == content_type_key(ct)(fs) by {
        lemma_put_text_other(fs, key_role_all(), id, key_content_type());
    }
    lemma_upsert_twice(hs, content_type_key(ct), id, fresh);
    lemma_upsert_finds(hs, content_type_key(ct), id, fresh);
}

/// Whether some dictionary entry matches `keyed`.
pub open spec fn find_first_keyed(hs: Seq<Option<FieldsView>>, keyed: spec_fn(FieldsView) -> bool) -> bool {
    first_index(hs, keyed) is Some
}

proof fn lemma_upsert_finds(
    hs: Seq<Option<FieldsView>>,
    keyed: spec_fn(FieldsView) -> bool,
    id: Seq<char>,
    fresh: FieldsView,
)
    requires
        keyed(fresh),
        forall|fs: FieldsView| #[trigger] keyed(put_text(fs, key_role_all(), id)) == keyed(fs),
    ensures
        find_first_keyed(upsert_spec(hs, keyed, id, fresh), keyed),
{
    lemma_first_index_some(hs, keyed);
    let h1 = upsert_spec(hs, keyed, id, fresh);
    match first_index(hs, keyed) {
        Some(i) => {
            let fs = hs[i]->Some_0;
            assert(keyed(put_text(fs, key_role_all(), id)));
            assert(h1.subrange(0, i) =~= hs.subrange(0, i));
            lemma_first_index_found(h1, keyed, i);
        },
        None => {
            assert(hs.subrange(0, hs.len() as int) =~= hs);
            assert(h1.subrange(0, hs.len() as int) =~= hs);
            lemma_first_index_found(h1, keyed, hs.len() as int);
        },
    }
}


/// Setting a field to the text it already holds changes nothing.
pub proof fn lemma_put_text_same(fs: FieldsView, k: Seq<char>, v: Seq<char>)
    requires
        text_of(fs, k) == Some(v),
    ensures
        put_text(fs, k, v) == fs,
{
    lemma_field_index_some(fs, k);
    let i = field_index(fs, k)->Some_0;
    assert(fs.update(i, (k, Some(v))) =~= fs);
}

/// An upsert whose target entry already names `id` leaves the list as it was.
pub proof fn lemma_upsert_no_change(
    hs: Seq<Option<FieldsView>>,
    keyed: spec_fn(FieldsView) -> bool,
    id: Seq<char>,
    fresh: FieldsView,
)
    requires
        first_index(hs, keyed) is Some,
        text_of(hs[first_index(hs, keyed)->Some_0]->Some_0, key_role_all()) == Some(id),
    ensures
        upsert_spec(hs, keyed, id, fresh) == hs,
{
    lemma_first_index_some(hs, keyed);
    let i = first_index(hs, keyed)->Some_0;
    lemma_put_text_same(hs[i]->Some_0, key_role_all(), id);
    assert(hs.update(i, Some(put_text(hs[i]->Some_0, key_role_all(), id))) =~= hs);
}


/// Entry `j` is a dictionary matching `keyed`.
pub open spec fn keyed_at(hs: Seq<Option<FieldsView>>, keyed: spec_fn(FieldsView) -> bool, j: int) -> bool {
    hs[j] is Some && keyed(hs[j]->Some_0)
}

proof fn lemma_first_index_none_before(hs: Seq<Option<FieldsView>>, keyed: spec_fn(FieldsView) -> bool)
    ensures
        forall|j: int|
            0 <= j < hs.len() && (first_index(hs, keyed) is None || j < first_index(hs, keyed)->Some_0)
                ==> !#[trigger] keyed_at(hs, keyed, j),
    decreases hs.len(),
{
    if hs.len() > 0 {
        let d = hs.drop_last();
        lemma_first_index_none_before(d, keyed);
        lemma_first_index_some(hs, keyed);
        lemma_first_index_some(d, keyed);
        assert forall|j: int|
            0 <= j < hs.len() && (first_index(hs, keyed) is None || j < first_index(hs, keyed)->Some_0)
                implies !#[trigger] keyed_at(hs, keyed, j) by {
            if j < hs.len() - 1 {
                assert(d[j] == hs[j]);
                if first_index(d, keyed) is Some {
                    assert(first_index(hs, keyed) == first_index(d, keyed));
                }
                assert(!keyed_at(d, keyed, j));
            } else {
                assert(hs.last() == hs[j]);
            }
        }
    }
}

proof fn lemma_put_text_reads_back(fs: FieldsView, k: Seq<char>, v: Seq<char>)
    ensures
        text_of(put_text(fs, k, v), k) == Some(v),
{
    lemma_field_index_some(fs, k);
    let n = put_text(fs, k, v);
    match field_index(fs, k) {
        Some(i) => {
            lemma_field_index_same_keys(n, fs, k);
        },
        None => {
            assert(n.drop_last() =~= fs);
        },
    }
}

proof fn lemma_find_first_answer(hs: Seq<Option<FieldsView>>, ext: Seq<char>, m: int)
    requires
        0 <= m < hs.len(),
        answers(hs[m], ext),
        forall|j: int| 0 <= j < m ==> !answers(#[trigger] hs[j], ext),
    ensures
        find_handler_spec(hs, ext) == role_of(hs[m]->Some_0),
    decreases m,
{
    if m > 0 {
        let d = hs.drop_first();
        assert forall|j: int| 0 <= j < m - 1 implies !answers(#[trigger] d[j], ext) by {
            assert(d[j] == hs[j + 1]);
        }
        assert(!answers(hs[0], ext));
        lemma_find_first_answer(d, ext, m - 1);
    }
}

/// After `id` is named for the normalized extension `ext` (by its tag, and by
/// its content type where it has one), looking the extension up finds `id`.
pub(crate) proof fn lemma_assigned_is_found(
    hv: Seq<Option<FieldsView>>,
    ext: Seq<char>,
    id: Seq<char>,
    ct: Option<Seq<char>>,
)
    requires
        lower_of(ext) == ext,
        ct == content_type_spec(ext),
    ensures
        ({
            let h1 = upsert_spec(hv, extension_key(ext), id, fresh_extension_entry(ext, id));
            let h2 = match ct {
                Some(c) => upsert_spec(h1, content_type_key(c), id, fresh_content_type_entry(c, id)),
                None => h1,
            };
            find_handler_spec(h2, ext) == Some(id)
        }),
{
    lemma_keys_distinct();
    let ek = extension_key(ext);
    let fe = fresh_extension_entry(ext, id);
    lemma_upsert_extension_idempotent(hv, ext, id);
    let h1 = upsert_spec(hv, ek, id, fe);
    assert forall|fs: FieldsView| #[trigger] ek(put_text(fs, key_role_all(), id)) == ek(fs) by {
        lemma_put_text_other(fs, key_role_all(), id, key_tag());
        lemma_put_text_other(fs, key_role_all(), id, key_tag_class());
    }
    lemma_first_index_some(h1, ek);
    lemma_first_index_none_before(h1, ek);
    let a = first_index(h1, ek)->Some_0;
    // the entry at `a` names `id`
    lemma_first_index_some(hv, ek);
    if first_index(hv, ek) is Some {
        let i = first_index(hv, ek)->Some_0;
        assert(h1.subrange(0, i) =~= hv.subrange(0, i));
        lemma_first_index_found(h1, ek, i);
        lemma_put_text_reads_back(hv[i]->Some_0, key_role_all(), id);
    } else {
        assert(hv.subrange(0, hv.len() as int) =~= hv);
        assert(h1.subrange(0, hv.len() as int) =~= hv);
        lemma_first_index_found(h1, ek, hv.len() as int);
        lemma_put_text_reads_back(fe, key_role_all(), id);
        lemma_upsert_twice(hv, ek, id, fe);
    }
    assert(text_of(h1[a]->Some_0, key_role_all()) == Some(id));
    match ct {
        None => {
            assert forall|j: int| 0 <= j < a implies !answers(#[trigger] h1[j], ext) by {
                assert(!keyed_at(h1, ek, j));
            }
            lemma_find_first_answer(h1, ext, a);
        },
        Some(c) => {
            let ck = content_type_key(c);
            let fc = fresh_content_type_entry(c, id);
            let f0: FieldsView = Seq::empty();
            let f1 = f0.push(fc[0]);
            assert(f1.drop_last() =~= f0);
            assert(fc.drop_last() =~= f1);
            assert(field_index(f0, key_content_type()) is None);
            assert(field_index(f0, key_role_all()) is None);
            assert(field_index(f1, key_content_type()) == Some(0int));
            assert(field_index(f1, key_role_all()) is None);
            assert(field_index(fc, key_content_type()) == Some(0int));
            assert(field_index(fc, key_role_all()) == Some(1int));
            assert(ck(fc));
            assert forall|fs: FieldsView| #[trigger] ck(put_text(fs, key_role_all(), id)) == ck(fs) by {
                lemma_put_text_other(fs, key_role_all(), id, key_content_type());
            }
            lemma_first_index_some(h1, ck);
            lemma_first_index_none_before(h1, ck);
            let h2 = upsert_spec(h1, ck, id, fc);
            lemma_upsert_finds(h1, ck, id, fc);
            lemma_first_index_some(h2, ck);
            let b = first_index(h2, ck)->Some_0;
            if first_index(h1, ck) is Some {
                let i = first_index(h1, ck)->Some_0;
                assert(h2.subrange(0, i) =~= h1.subrange(0, i));
                lemma_first_index_found(h2, ck, i);
                assert(b == i);
                lemma_put_text_reads_back(h1[i]->Some_0, key_role_all(), id);
            } else {
                assert(h1.subrange(0, h1.len() as int) =~= h1);
                assert(h2.subrange(0, h1.len() as int) =~= h1);
                lemma_first_index_found(h2, ck, h1.len() as int);
                assert(b == h1.len());
            }
            assert(text_of(h2[b]->Some_0, key_role_all()) == Some(id));
            if a == b {
                lemma_put_text_reads_back(h1[a]->Some_0, key_role_all(), id);
            }
            // h2[a] still names id and is keyed by the extension
            assert(text_of(h2[a]->Some_0, key_role_all()) == Some(id));
            assert(ek(h2[a]->Some_0));
            let m = if a < b { a } else { b };
            assert forall|j: int| 0 <= j < m implies !answers(#[trigger] h2[j], ext) by {
                assert(h2[j] == h1[j]);
                assert(!keyed_at(h1, ek, j));
                assert(!keyed_at(h1, ck, j));
            }
            lemma_find_first_answer(h2, ext, m);
        },
    }
}

} // verus!
