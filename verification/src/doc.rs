//! Parsed documents: what a JSON, TOML or property-list text holds.

use vstd::prelude::*;

use crate::text::same;

verus! {

/// A parsed value. Kinds of values that nothing reads (floats, dates, raw data) are `Opaque`.
#[derive(Debug)]
pub enum Doc {
    Null,
    Bool(bool),
    /// A number: as far as it is whole and fits them in either integer type, and as it is written.
    Number { unsigned: Option<u64>, signed: Option<i64>, text: String },
    Text(String),
    List(Vec<Doc>),
    Table(Vec<(String, Doc)>),
    Opaque,
}

/// What a document holds.
#[verifier::ext_equal]
pub enum DocView {
    Null,
    Bool(bool),
    Number { unsigned: Option<u64>, signed: Option<i64>, text: Seq<char> },
    Text(Seq<char>),
    List(Seq<DocView>),
    Table(Seq<(Seq<char>, DocView)>),
    Opaque,
}

/// What `d` holds.
pub open spec fn doc_view(d: Doc) -> DocView
    decreases d,
{
    match d {
        Doc::Null => DocView::Null,
        Doc::Bool(b) => DocView::Bool(b),
        Doc::Number { unsigned, signed, text } => DocView::Number { unsigned, signed, text: text@ },
        Doc::Text(s) => DocView::Text(s@),
        Doc::List(v) => DocView::List(
            Seq::new(
                v@.len(),
                |i: int|
                    if 0 <= i < v@.len() {
                        doc_view(v@[i])
                    } else {
                        DocView::Null
                    },
            ),
        ),
        Doc::Table(v) => DocView::Table(
            Seq::new(
                v@.len(),
                |i: int|
                    if 0 <= i < v@.len() {
                        (v@[i].0@, doc_view(v@[i].1))
                    } else {
                        (seq![], DocView::Null)
                    },
            ),
        ),
        Doc::Opaque => DocView::Opaque,
    }
}

impl View for Doc {
    type V = DocView;

    open spec fn view(&self) -> DocView {
        doc_view(*self)
    }
}

impl DeepView for Doc {
    type V = DocView;

    open spec fn deep_view(&self) -> DocView {
        doc_view(*self)
    }
}

/// What an optional document holds.
pub open spec fn opt_doc(d: Option<Doc>) -> Option<DocView> {
    match d {
        Some(x) => Some(x@),
        None => None,
    }
}

/// What an optional borrowed document holds.
pub open spec fn opt_doc_ref(d: Option<&Doc>) -> Option<DocView> {
    match d {
        Some(x) => Some(x@),
        None => None,
    }
}

/// The value that the first entry named `key` holds.
pub open spec fn entry_of(entries: Seq<(Seq<char>, DocView)>, key: Seq<char>) -> Option<DocView>
    decreases entries.len(),
{
    if entries.len() == 0 {
        None
    } else if entries[0].0 == key {
        Some(entries[0].1)
    } else {
        entry_of(entries.skip(1), key)
    }
}

/// The value under `key`, where the document is a table with that key.
pub open spec fn field(d: DocView, key: Seq<char>) -> Option<DocView> {
    match d {
        DocView::Table(entries) => entry_of(entries, key),
        _ => None,
    }
}

/// The text, where the document is one.
pub open spec fn text_of(d: Option<DocView>) -> Option<Seq<char>> {
    match d {
        Some(DocView::Text(s)) => Some(s),
        _ => None,
    }
}

/// The text under `key`.
pub open spec fn text_field(d: DocView, key: Seq<char>) -> Option<Seq<char>> {
    text_of(field(d, key))
}

/// The items under `key`, where they are a list.
pub open spec fn list_of(d: Option<DocView>) -> Option<Seq<DocView>> {
    match d {
        Some(DocView::List(items)) => Some(items),
        _ => None,
    }
}

/// The entries, where there is a table.
pub open spec fn table_of(d: Option<DocView>) -> Option<Seq<(Seq<char>, DocView)>> {
    match d {
        Some(DocView::Table(entries)) => Some(entries),
        _ => None,
    }
}

/// The signed number under `key`.
pub open spec fn signed_field(d: DocView, key: Seq<char>) -> Option<i64> {
    match field(d, key) {
        Some(DocView::Number { signed, .. }) => signed,
        _ => None,
    }
}

/// The unsigned number under `key`.
pub open spec fn unsigned_field(d: DocView, key: Seq<char>) -> Option<u64> {
    match field(d, key) {
        Some(DocView::Number { unsigned, .. }) => unsigned,
        _ => None,
    }
}

/// The text that an optional borrowed text spells.
pub open spec fn opt_str(s: Option<&str>) -> Option<Seq<char>> {
    match s {
        Some(x) => Some(x@),
        None => None,
    }
}

impl Doc {
    /// The value under `key`, where the document is a table with that key.
    pub fn get(&self, key: &str) -> (r: Option<&Doc>)
        ensures
            opt_doc_ref(r) == field(self@, key@),
    {
        match self {
            Doc::Table(v) => {
                let ghost all = self@->Table_0;
                let mut i: usize = 0;
                assert(all.skip(0) =~= all);
                while i < v.len()
                    invariant
                        i <= v.len(),
                        *self == Doc::Table(*v),
                        all == self@->Table_0,
                        all.len() == v.len(),
                        entry_of(all, key@) == entry_of(all.skip(i as int), key@),
                    decreases v.len() - i,
                {
                    assert(all[i as int] == (v@[i as int].0@, doc_view(v@[i as int].1)));
                    assert(all.skip(i as int)[0] == all[i as int]);
                    assert(all.skip(i as int).skip(1) =~= all.skip(i + 1));
                    if same(v[i].0.as_str(), key) {
                        return Some(&v[i].1);
                    }
                    i = i + 1;
                }
                None
            },
            _ => None,
        }
    }

    /// The same document once more.
    pub fn copy(&self) -> (r: Doc)
        ensures
            r@ == self@,
        decreases self,
    {
        match self {
            Doc::Null => Doc::Null,
            Doc::Bool(b) => Doc::Bool(*b),
            Doc::Number { unsigned, signed, text } => Doc::Number {
                unsigned: *unsigned,
                signed: *signed,
                text: text.clone(),
            },
            Doc::Text(s) => Doc::Text(s.clone()),
            Doc::List(v) => {
                let mut out: Vec<Doc> = Vec::new();
                let mut i: usize = 0;
                while i < v.len()
                    invariant
                        *self == Doc::List(*v),
                        i <= v.len(),
                        out.len() == i,
                        forall|j: int| 0 <= j < i ==> (#[trigger] out@[j])@ == v@[j]@,
                    decreases v.len() - i,
                {
                    assert(decreases_to!(*self => self->List_0));
                    assert(decreases_to!(*v => v@));
                    assert(decreases_to!(v@ => v@[i as int]));
                    let d = v[i].copy();
                    out.push(d);
                    i = i + 1;
                }
                let r = Doc::List(out);
                assert(r@->List_0 =~= self@->List_0);
                r
            },
            Doc::Table(v) => {
                let mut out: Vec<(String, Doc)> = Vec::new();
                let mut i: usize = 0;
                while i < v.len()
                    invariant
                        *self == Doc::Table(*v),
                        i <= v.len(),
                        out.len() == i,
                        forall|j: int|
                            0 <= j < i ==> (#[trigger] out@[j]).0@ == v@[j].0@ && out@[j].1@
                                == v@[j].1@,
                    decreases v.len() - i,
                {
                    let k = v[i].0.clone();
                    assert(decreases_to!(*self => self->Table_0));
                    assert(decreases_to!(*v => v@));
                    assert(decreases_to!(v@ => v@[i as int]));
                    assert(decreases_to!(v@[i as int] => v@[i as int].1));
                    let d = v[i].1.copy();
                    out.push((k, d));
                    i = i + 1;
                }
                let r = Doc::Table(out);
                assert(r@->Table_0 =~= self@->Table_0);
                r
            },
            Doc::Opaque => Doc::Opaque,
        }
    }

    /// The text, where the document is one.
    pub fn as_str(&self) -> (r: Option<&str>)
        ensures
            opt_str(r) == text_of(Some(self@)),
    {
        match self {
            Doc::Text(s) => Some(s.as_str()),
            _ => None,
        }
    }

    /// The items, where the document is a list.
    pub fn as_list(&self) -> (r: Option<&Vec<Doc>>)
        ensures
            r is Some <==> list_of(Some(self@)) is Some,
            r is Some ==> r->0.deep_view() == list_of(Some(self@))->0,
    {
        match self {
            Doc::List(v) => {
                assert(v.deep_view() =~= self@->List_0);
                Some(v)
            },
            _ => None,
        }
    }

    /// The text under `key`.
    pub fn text(&self, key: &str) -> (r: Option<&str>)
        ensures
            opt_str(r) == text_field(self@, key@),
    {
        match self.get(key) {
            Some(d) => d.as_str(),
            None => None,
        }
    }

    /// The items under `key`, where they are a list.
    pub fn list(&self, key: &str) -> (r: Option<&Vec<Doc>>)
        ensures
            r is Some <==> list_of(field(self@, key@)) is Some,
            r is Some ==> r->0.deep_view() == list_of(field(self@, key@))->0,
    {
        match self.get(key) {
            Some(d) => d.as_list(),
            None => None,
        }
    }

    /// The unsigned number under `key`.
    pub fn unsigned(&self, key: &str) -> (r: Option<u64>)
        ensures
            r == unsigned_field(self@, key@),
    {
        match self.get(key) {
            Some(Doc::Number { unsigned, .. }) => *unsigned,
            _ => None,
        }
    }

    /// The signed number under `key`.
    pub fn signed(&self, key: &str) -> (r: Option<i64>)
        ensures
            r == signed_field(self@, key@),
    {
        match self.get(key) {
            Some(Doc::Number { signed, .. }) => *signed,
            _ => None,
        }
    }

    /// The entries under `key`, where they are a table.
    pub fn entries(&self, key: &str) -> (r: Option<&Vec<(String, Doc)>>)
        ensures
            r is Some <==> table_of(field(self@, key@)) is Some,
            r is Some ==> r->0.deep_view() == table_of(field(self@, key@))->0,
    {
        match self.get(key) {
            Some(d) => match d {
                Doc::Table(v) => {
                    assert(v.deep_view() =~= d@->Table_0);
                    Some(v)
                },
                _ => None,
            },
            None => None,
        }
    }
}

/// A text, as a document.
pub fn text_doc(s: &str) -> (r: Doc)
    ensures
        r@ == DocView::Text(s@),
{
    Doc::Text(s.to_owned())
}

/// Put an entry behind the others.
pub fn put_entry(entries: &mut Vec<(String, Doc)>, key: &str, d: Doc)
    ensures
        final(entries).deep_view() == old(entries).deep_view().push((key@, d@)),
{
    let ghost was = entries.deep_view();
    entries.push((key.to_owned(), d));
    assert(entries.deep_view() =~= was.push((key@, d@)));
}

/// A table, as a document.
pub fn table_doc(entries: Vec<(String, Doc)>) -> (r: Doc)
    ensures
        r@ == DocView::Table(entries.deep_view()),
{
    let r = Doc::Table(entries);
    assert(r@->Table_0 =~= entries.deep_view());
    r
}

/// A JSON value of the crate serde_json.
#[verifier::external_type_specification]
#[verifier::external_body]
pub struct ExJsonValue(serde_json::Value);

/// A TOML value of the crate toml.
#[verifier::external_type_specification]
#[verifier::external_body]
pub struct ExTomlValue(toml::Value);

/// A property-list value of the crate plist.
#[verifier::external_type_specification]
#[verifier::external_body]
pub struct ExPlistValue(plist::Value);

/// The document that serde_json reads in a text; nothing where it refuses the text.
pub uninterp spec fn json_document(text: Seq<char>) -> Option<DocView>;

/// The document that toml reads in a text; nothing where it refuses the text.
pub uninterp spec fn toml_document(text: Seq<char>) -> Option<DocView>;

/// The document that plist reads in bytes; nothing where it refuses them.
pub uninterp spec fn plist_document(bytes: Seq<u8>) -> Option<DocView>;

/// The text that serde_json writes for a document.
pub uninterp spec fn json_text(d: DocView) -> Seq<char>;

/// Whether serde_json reads this document in some text.
pub open spec fn is_json(d: DocView) -> bool {
    exists|text: Seq<char>| #[trigger] json_document(text) == Some(d)
}

/// Whether all numbers in a document are whole and fit an integer type.
pub open spec fn is_whole(d: DocView) -> bool
    decreases d,
{
    match d {
        DocView::Number { unsigned, signed, .. } => unsigned is Some || signed is Some,
        DocView::List(items) => forall|i: int|
            0 <= i < items.len() ==> is_whole(#[trigger] items[i]),
        DocView::Table(entries) => forall|i: int|
            0 <= i < entries.len() ==> is_whole((#[trigger] entries[i]).1),
        _ => true,
    }
}

/// Turns a document into a `serde_json::Value`, one variant for one; a number is read from the text
/// in which it is written.
#[verifier::external_body]
fn json_of_doc(d: &Doc) -> (r: serde_json::Value) {
    match d {
        Doc::Null | Doc::Opaque => serde_json::Value::Null,
        Doc::Bool(b) => serde_json::Value::Bool(*b),
        Doc::Number { text, .. } => serde_json::from_str(text).unwrap_or(serde_json::Value::Null),
        Doc::Text(s) => serde_json::Value::String(s.clone()),
        Doc::List(a) => serde_json::Value::Array(a.iter().map(json_of_doc).collect()),
        Doc::Table(t) => serde_json::Value::Object(
            t.iter().map(|(k, v)| (k.clone(), json_of_doc(v))).collect(),
        ),
    }
}

/// `serde_json::Value::to_string`: what it writes depends on the document alone and is named
/// `json_text`. A document that serde_json has read, and in which all numbers are whole, is read
/// again in the text. Of other numbers nothing is stated: they are read only nearly as they were
/// written.
#[verifier::external_body]
pub(crate) fn write_json(d: &Doc) -> (r: String)
    ensures
        r@ == json_text(d@),
        is_json(d@) && is_whole(d@) ==> json_document(r@) == Some(d@),
{
    json_of_doc(d).to_string()
}

/// Turns a `serde_json::Value` into a document, one variant for one; of a number it asks
/// `Number::as_u64`, `Number::as_i64` and how it is written.
#[verifier::external_body]
fn doc_of_json(v: serde_json::Value) -> (r: Doc) {
    match v {
        serde_json::Value::Null => Doc::Null,
        serde_json::Value::Bool(b) => Doc::Bool(b),
        serde_json::Value::Number(n) => Doc::Number {
            unsigned: n.as_u64(),
            signed: n.as_i64(),
            text: n.to_string(),
        },
        serde_json::Value::String(s) => Doc::Text(s),
        serde_json::Value::Array(a) => Doc::List(a.into_iter().map(doc_of_json).collect()),
        serde_json::Value::Object(o) => Doc::Table(
            o.into_iter().map(|(k, v)| (k, doc_of_json(v))).collect(),
        ),
    }
}

/// Turns a `toml::Value` into a document, one variant for one.
#[verifier::external_body]
fn doc_of_toml(v: toml::Value) -> (r: Doc) {
    match v {
        toml::Value::Boolean(b) => Doc::Bool(b),
        toml::Value::Integer(n) => Doc::Number {
            unsigned: u64::try_from(n).ok(),
            signed: Some(n),
            text: n.to_string(),
        },
        toml::Value::String(s) => Doc::Text(s),
        toml::Value::Array(a) => Doc::List(a.into_iter().map(doc_of_toml).collect()),
        toml::Value::Table(t) => Doc::Table(
            t.into_iter().map(|(k, v)| (k, doc_of_toml(v))).collect(),
        ),
        _ => Doc::Opaque,
    }
}

/// Turns a `plist::Value` into a document, one variant for one.
#[verifier::external_body]
fn doc_of_plist(v: plist::Value) -> (r: Doc) {
    match v {
        plist::Value::Boolean(b) => Doc::Bool(b),
        plist::Value::Integer(n) => Doc::Number {
            unsigned: n.as_unsigned(),
            signed: n.as_signed(),
            text: n.to_string(),
        },
        plist::Value::String(s) => Doc::Text(s),
        plist::Value::Array(a) => Doc::List(a.into_iter().map(doc_of_plist).collect()),
        plist::Value::Dictionary(d) => Doc::Table(
            d.into_iter().map(|(k, v)| (k, doc_of_plist(v))).collect(),
        ),
        _ => Doc::Opaque,
    }
}

/// `serde_json::from_str` into a `serde_json::Value`: what it returns depends on the text alone
/// and is named `json_document`; its error is no document.
#[verifier::external_body]
pub(crate) fn parse_json(text: &str) -> (r: Option<Doc>)
    ensures
        opt_doc(r) == json_document(text@),
{
    serde_json::from_str::<serde_json::Value>(text).ok().map(doc_of_json)
}

/// `toml::from_str` into a `toml::Table`: what it returns depends on the text alone and is named
/// `toml_document`; its error is no document.
#[verifier::external_body]
pub(crate) fn parse_toml(text: &str) -> (r: Option<Doc>)
    ensures
        opt_doc(r) == toml_document(text@),
{
    toml::from_str::<toml::Table>(text).ok().map(toml::Value::Table).map(doc_of_toml)
}

/// `plist::Value::from_reader` over the bytes: what it returns depends on them alone and is named
/// `plist_document`; its error is no document.
#[verifier::external_body]
pub(crate) fn parse_plist(bytes: &[u8]) -> (r: Option<Doc>)
    ensures
        opt_doc(r) == plist_document(bytes@),
{
    plist::Value::from_reader(std::io::Cursor::new(bytes)).ok().map(doc_of_plist)
}

} // verus!
