//! JSON objects, built and read by `serde_json`.

use serde_json::Value;
use vstd::prelude::*;

verus! {

/// A value of a JSON object, as far as replies use them.
pub enum JsonView {
    Bool(bool),
    Number(u64),
    Text(Seq<char>),
    Texts(Seq<Seq<char>>),
}

/// `serde_json::Map`: a JSON object under construction.
#[verifier::external_type_specification]
#[verifier::external_body]
#[verifier::reject_recursive_types(K)]
#[verifier::reject_recursive_types(V)]
pub struct ExJsonMap<K, V>(serde_json::Map<K, V>);

/// `serde_json::Value`: any JSON value.
#[verifier::external_type_specification]
#[verifier::external_body]
pub struct ExJsonValue(serde_json::Value);

/// An object without fields.
pub open spec fn no_fields() -> Map<Seq<char>, JsonView> {
    Map::empty()
}

/// The fields that a `serde_json::Map` holds.
pub uninterp spec fn object_fields(
    m: serde_json::Map<String, serde_json::Value>,
) -> Map<Seq<char>, JsonView>;

/// The text that `serde_json` writes for an object with the given fields.
pub uninterp spec fn object_text(fields: Map<Seq<char>, JsonView>) -> Seq<char>;

/// What `serde_json` reads from a text for a key: the error of a text that is
/// no JSON value, or the string that stands under the key, if one does.
pub uninterp spec fn string_field_of(text: Seq<char>, key: Seq<char>) -> Result<
    Option<Seq<char>>,
    Seq<char>,
>;

/// `serde_json::Map::new`: an object without fields.
#[verifier::external_body]
pub(crate) fn new_object() -> (m: serde_json::Map<String, serde_json::Value>)
    ensures
        object_fields(m) == no_fields(),
{
    serde_json::Map::new()
}

/// `serde_json::Map::insert` of a boolean: the key holds the value
/// afterwards, and every other field is as before.
#[verifier::external_body]
pub(crate) fn put_bool(m: &mut serde_json::Map<String, serde_json::Value>, key: &str, value: bool)
    ensures
        object_fields(*final(m)) == object_fields(*old(m)).insert(key@, JsonView::Bool(value)),
{
    m.insert(key.to_string(), serde_json::Value::Bool(value));
}

/// `serde_json::Map::insert` of a number: the key holds the value
/// afterwards, and every other field is as before.
#[verifier::external_body]
pub(crate) fn put_number(m: &mut serde_json::Map<String, serde_json::Value>, key: &str, value: u64)
    ensures
        object_fields(*final(m)) == object_fields(*old(m)).insert(key@, JsonView::Number(value)),
{
    m.insert(key.to_string(), serde_json::Value::from(value));
}

/// `serde_json::Map::insert` of a string: the key holds the value
/// afterwards, and every other field is as before.
#[verifier::external_body]
pub(crate) fn put_text(m: &mut serde_json::Map<String, serde_json::Value>, key: &str, value: &str)
    ensures
        object_fields(*final(m)) == object_fields(*old(m)).insert(key@, JsonView::Text(value@)),
{
    m.insert(key.to_string(), serde_json::Value::from(value));
}

/// `serde_json::Map::insert` of an array of strings: the key holds the
/// strings in their order afterwards, and every other field is as before.
#[verifier::external_body]
pub(crate) fn put_texts(
    m: &mut serde_json::Map<String, serde_json::Value>,
    key: &str,
    value: &Vec<String>,
)
    ensures
        object_fields(*final(m)) == object_fields(*old(m)).insert(
            key@,
            JsonView::Texts(crate::text::texts(value@)),
        ),
{
    m.insert(key.to_string(), serde_json::Value::from(value.clone()));
}

/// `serde_json::Value::to_string` of an object: its compact text, which is
/// fixed by the fields (the map keeps its keys sorted), holds no line feed
/// (the formatter writes none and escapes those of strings), and from which
/// `serde_json` reads every string field back.
#[verifier::external_body]
pub(crate) fn render(m: serde_json::Map<String, serde_json::Value>) -> (s: String)
    ensures
        s@ == object_text(object_fields(m)),
        forall|i: int| 0 <= i < s@.len() ==> #[trigger] s@[i] != '\n',
        forall|k: Seq<char>|
            object_fields(m).contains_key(k) ==> (object_fields(m)[k] matches JsonView::Text(t)
                ==> #[trigger] string_field_of(s@, k) == Ok::<Option<Seq<char>>, Seq<char>>(
                Some(t),
            )),
{
    serde_json::Value::Object(m).to_string()
}

/// `serde_json::from_str` into a `serde_json::Value`, then the string under a
/// key (`Value::get`, `Value::as_str`); the error is the text of the parse
/// error.
#[verifier::external_body]
pub(crate) fn string_field(text: &str, key: &str) -> (r: Result<Option<String>, String>)
    ensures
        match r {
            Ok(Some(s)) => string_field_of(text@, key@) == Ok::<Option<Seq<char>>, Seq<char>>(
                Some(s@),
            ),
            Ok(None) => string_field_of(text@, key@) == Ok::<Option<Seq<char>>, Seq<char>>(None),
            Err(e) => string_field_of(text@, key@) == Err::<Option<Seq<char>>, Seq<char>>(e@),
        },
{
    match serde_json::from_str::<serde_json::Value>(text) {
        Ok(v) => Ok(v.get(key).and_then(serde_json::Value::as_str).map(str::to_string)),
        Err(e) => Err(e.to_string()),
    }
}

// ---------------------------------------------------------------------------
// Documents
// ---------------------------------------------------------------------------

/// A value, as far as it is a scalar: the whole number that it is; the number
/// that it is, by its bit pattern; the string that it is.
pub type Scalar = (Option<u64>, Option<u64>, Option<String>);

/// A named value, as far as it is an object: its name, a whole number in it,
/// and a list in it, with the values of every item that is a list itself.
pub type Entry = (String, Option<u64>, Option<Vec<Option<Vec<Scalar>>>>);

/// The view of a [`Scalar`].
pub struct ScalarView {
    pub whole: Option<u64>,
    pub real: Option<u64>,
    pub text: Option<Seq<char>>,
}

/// The view of an [`Entry`].
pub struct EntryView {
    pub name: Seq<char>,
    pub number: Option<u64>,
    pub list: Option<Seq<Option<Seq<ScalarView>>>>,
}

/// The view of a [`Scalar`].
pub open spec fn scalar_view(s: Scalar) -> ScalarView {
    ScalarView {
        whole: s.0,
        real: s.1,
        text: match s.2 {
            Some(t) => Some(t@),
            None => None,
        },
    }
}

/// The view of an item of a list.
pub open spec fn item_view(item: Option<Vec<Scalar>>) -> Option<Seq<ScalarView>> {
    match item {
        Some(v) => Some(Seq::new(v@.len(), |i: int| scalar_view(v@[i]))),
        None => None,
    }
}

/// The views of the items of a list.
pub open spec fn item_views(items: Seq<Option<Vec<Scalar>>>) -> Seq<Option<Seq<ScalarView>>> {
    Seq::new(items.len(), |i: int| item_view(items[i]))
}

/// The view of an [`Entry`].
pub open spec fn entry_view(e: Entry) -> EntryView {
    EntryView {
        name: e.0@,
        number: e.1,
        list: match e.2 {
            Some(items) => Some(item_views(items@)),
            None => None,
        },
    }
}

/// The views of entries.
pub open spec fn entry_views(v: Seq<Entry>) -> Seq<EntryView> {
    Seq::new(v.len(), |i: int| entry_view(v[i]))
}

/// What `serde_json` reads from a document: the error of a text that is no
/// JSON value, or the entries of the object that stands under `key`, if one
/// does, each with the whole number under `number` and the list under `list`.
pub uninterp spec fn entries_of(
    text: Seq<char>,
    key: Seq<char>,
    number: Seq<char>,
    list: Seq<char>,
) -> Result<Option<Seq<EntryView>>, Seq<char>>;

/// `serde_json::from_str` into a `serde_json::Value`, then what stands under
/// the keys, by indexing and the `as_..` accessors of the value: fixed by the
/// text and the keys. A number is handed on by its bits.
#[verifier::external_body]
pub(crate) fn read_entries(text: &str, key: &str, number: &str, list: &str) -> (r: Result<
    Option<Vec<Entry>>,
    String,
>)
    ensures
        match r {
            Ok(Some(v)) => entries_of(text@, key@, number@, list@) == Ok::<
                Option<Seq<EntryView>>,
                Seq<char>,
            >(Some(entry_views(v@))),
            Ok(None) => entries_of(text@, key@, number@, list@) == Ok::<
                Option<Seq<EntryView>>,
                Seq<char>,
            >(None),
            Err(e) => entries_of(text@, key@, number@, list@) == Err::<
                Option<Seq<EntryView>>,
                Seq<char>,
            >(e@),
        },
{
    let v: Value = serde_json::from_str(text).map_err(|e| e.to_string())?;
    Ok(v[key].as_object().map(|o| o.iter().map(|(n, e)| (
        n.clone(),
        e[number].as_u64(),
        e[list].as_array().map(|l| l.iter().map(|i| i.as_array().map(|a| a.iter().map(|x| (
            x.as_u64(),
            x.as_f64().map(|s| s.to_bits()),
            x.as_str().map(str::to_string),
        )).collect())).collect()),
    )).collect()))
}

/// A named object to be written: its name, a whole number in it, and a list in
/// it, whose items are lists of a whole number, a number by its bit pattern,
/// and a string.
pub type Section = (String, u64, Vec<(u64, u64, String)>);

/// The view of a [`Section`].
pub struct SectionView {
    pub name: Seq<char>,
    pub number: u64,
    pub list: Seq<(u64, u64, Seq<char>)>,
}

/// The view of a [`Section`].
pub open spec fn section_view(s: Section) -> SectionView {
    SectionView {
        name: s.0@,
        number: s.1,
        list: Seq::new(s.2@.len(), |i: int| (s.2@[i].0, s.2@[i].1, s.2@[i].2@)),
    }
}

/// The views of sections.
pub open spec fn section_views(v: Seq<Section>) -> Seq<SectionView> {
    Seq::new(v.len(), |i: int| section_view(v[i]))
}

/// A document can be read back: its keys differ, the names of the sections
/// differ, and every number lies between zero and 2^64.
pub open spec fn readable(
    head: Seq<char>,
    key: Seq<char>,
    number: Seq<char>,
    list: Seq<char>,
    sections: Seq<SectionView>,
) -> bool {
    &&& head != key
    &&& number != list
    &&& forall|i: int, j: int|
        0 <= i < j < sections.len() ==> (#[trigger] sections[i]).name != (
        #[trigger] sections[j]).name
    &&& forall|i: int, k: int|
        0 <= i < sections.len() && 0 <= k < sections[i].list.len() ==> (
        #[trigger] sections[i].list[k]).1 < 0x43f0_0000_0000_0000
}

/// An entry that was read holds what was written of a section. The numbers of
/// the items may differ in their last place.
pub open spec fn holds_section(e: EntryView, s: SectionView) -> bool {
    &&& e.name == s.name
    &&& e.number == Some(s.number)
    &&& e.list matches Some(items) && items.len() == s.list.len() && forall|k: int|
        0 <= k < items.len() ==> holds_item(#[trigger] items[k], s.list[k])
}

/// An item that was read holds what was written.
pub open spec fn holds_item(item: Option<Seq<ScalarView>>, w: (u64, u64, Seq<char>)) -> bool {
    item matches Some(parts) && parts.len() == 3 && parts[0].whole == Some(w.0) && parts[1].real
        is Some && parts[2].text == Some(w.2)
}

/// Entries that were read hold every section that was written, each once.
pub open spec fn holds_sections(read: Seq<EntryView>, sections: Seq<SectionView>) -> bool {
    &&& read.len() == sections.len()
    &&& forall|i: int, j: int|
        0 <= i < j < read.len() ==> (#[trigger] read[i]).name != (#[trigger] read[j]).name
    &&& forall|i: int|
        0 <= i < sections.len() ==> exists|j: int|
            0 <= j < read.len() && holds_section(#[trigger] read[j], #[trigger] sections[i])
}

/// From the text of a document that can be read back, entries are read that
/// hold every section.
pub open spec fn text_holds(
    text: Seq<char>,
    head: Seq<char>,
    key: Seq<char>,
    number: Seq<char>,
    list: Seq<char>,
    sections: Seq<SectionView>,
) -> bool {
    readable(head, key, number, list, sections) ==> (entries_of(text, key, number, list) matches Ok(
        Some(read),
    ) && holds_sections(read, sections))
}

/// The text that `serde_json` writes, over several lines, for an object with a
/// version under `head` and the sections under `key`.
pub uninterp spec fn document_text(
    head: Seq<char>,
    version: u32,
    key: Seq<char>,
    number: Seq<char>,
    list: Seq<char>,
    sections: Seq<SectionView>,
) -> Seq<char>;

/// `serde_json::Value` collected from pairs and from values, and its
/// `Display` in the alternate form: the text is fixed by what is written, and
/// `serde_json` reads the names, whole numbers and strings back from it. Of
/// the other numbers only that they are read back is claimed, as the reader
/// may round them differently. `symphonia`'s `ReadBytes::read_f64` turns the
/// bit pattern of such a number into the number.
#[verifier::external_body]
pub(crate) fn write_document(
    head: &str,
    version: u32,
    key: &str,
    number: &str,
    list: &str,
    sections: &Vec<Section>,
) -> (s: String)
    ensures
        s@ == document_text(head@, version, key@, number@, list@, section_views(sections@)),
        text_holds(s@, head@, key@, number@, list@, section_views(sections@)),
{
    let all: Value = sections.iter().map(|(name, n, items)| (name.clone(), [
        (number, Value::from(*n)),
        (list, items.iter().map(|(whole, bits, text)| Value::from(vec![
            Value::from(*whole),
            Value::from(symphonia::core::io::ReadBytes::read_f64(
                &mut symphonia::core::io::BufReader::new(&bits.to_le_bytes())).ok()),
            Value::from(text.as_str()),
        ])).collect()),
    ].into_iter().collect::<Value>())).collect();
    let doc: Value = [(head, Value::from(version)), (key, all)].into_iter().collect();
    format!("{doc:#}")
}

} // verus!
