//! What JSON texts hold, as far as it is asked for.
use crate::text;
use indexmap::IndexMap;
use vstd::prelude::*;
use vstd::string::*;

verus! {

/// A value in a JSON text, by what can be asked of it: its text, its truth
/// value and its whole number, where it is one; where it is a list, the texts
/// of its members; where it is an object, the names of its fields; and the value
/// as it is written.
#[derive(Debug)]
pub struct Json {
    pub text: Option<String>,
    pub flag: Option<bool>,
    pub integer: Option<i64>,
    pub list: Option<Vec<Option<String>>>,
    pub keys: Option<Vec<String>>,
    pub written: String,
}

/// What a value says.
pub struct JsonModel {
    pub text: Option<Seq<char>>,
    pub flag: Option<bool>,
    pub integer: Option<i64>,
    pub list: Option<Seq<Option<Seq<char>>>>,
    pub keys: Option<Seq<Seq<char>>>,
    pub written: Seq<char>,
}

/// What an optional text says.
pub open spec fn said(value: Option<String>) -> Option<Seq<char>> {
    match value {
        Some(s) => Some(s@),
        None => None,
    }
}

impl Json {
    /// What the value says.
    pub open spec fn model(&self) -> JsonModel {
        JsonModel {
            text: said(self.text),
            flag: self.flag,
            integer: self.integer,
            list: match self.list {
                Some(list) => Some(list@.map_values(|item: Option<String>| said(item))),
                None => None,
            },
            keys: match self.keys {
                Some(keys) => Some(text::texts(keys@)),
                None => None,
            },
            written: self.written@,
        }
    }
}

/// What fields say.
pub open spec fn field_models(fields: Seq<(String, Json)>) -> Seq<(Seq<char>, JsonModel)> {
    fields.map_values(|field: (String, Json)| (field.0@, field.1.model()))
}

/// What rows of values say.
pub open spec fn row_models(rows: Seq<(String, Vec<Json>)>) -> Seq<(Seq<char>, Seq<JsonModel>)> {
    rows.map_values(
        |row: (String, Vec<Json>)| (row.0@, row.1@.map_values(|value: Json| value.model())),
    )
}

/// A whole JSON text: its fields, where it holds an object, and the value as it
/// is written.
#[derive(Debug)]
pub struct Document {
    pub fields: Option<Vec<(String, Json)>>,
    pub written: String,
}

/// What a whole JSON text says.
pub struct DocumentModel {
    pub fields: Option<Seq<(Seq<char>, JsonModel)>>,
    pub written: Seq<char>,
}

impl Document {
    /// What the text says.
    pub open spec fn model(&self) -> DocumentModel {
        DocumentModel {
            fields: match self.fields {
                Some(fields) => Some(field_models(fields@)),
                None => None,
            },
            written: self.written@,
        }
    }
}

/// What a JSON text holds, or why it is none.
pub uninterp spec fn json_document(text: Seq<char>) -> Result<DocumentModel, Seq<char>>;

/// What a JSON text that is given in bytes holds, or why it is none.
pub uninterp spec fn json_document_bytes(bytes: Seq<u8>) -> Result<DocumentModel, Seq<char>>;

/// What a JSON text of an object of lists holds, or why it is none.
pub uninterp spec fn json_rows(text: Seq<char>) -> Result<
    Seq<(Seq<char>, Seq<JsonModel>)>,
    Seq<char>,
>;

/// `serde_json::from_str` into a `serde_json::Value`: what its accessors give of
/// the fields of the object, where it is one, or the text of the error. What the
/// texts mean is left to the name.
#[verifier::external_body]
pub(crate) fn parse_document(text: &str) -> (result: Result<Document, String>)
    ensures
        match (result, json_document(text@)) {
            (Ok(document), Ok(held)) => document.model() == held,
            (Err(error), Err(why)) => error@ == why,
            _ => false,
        },
{
    let value: serde_json::Value = serde_json::from_str(text).map_err(|e| e.to_string())?;
    let fields = value.as_object().map(|object| object.iter().map(|(key, v)| (key.clone(), Json {
        text: v.as_str().map(String::from),
        flag: v.as_bool(),
        integer: v.as_i64(),
        list: v.as_array().map(|l| l.iter().map(|x| x.as_str().map(String::from)).collect()),
        keys: v.as_object().map(|o| o.keys().cloned().collect()),
        written: v.to_string(),
    })).collect());
    Ok(Document { fields, written: value.to_string() })
}

/// `serde_json::from_slice` into a `serde_json::Value`: what its accessors give
/// of the fields of the object, where it is one, or the text of the error. What
/// the texts mean is left to the name.
#[verifier::external_body]
pub(crate) fn parse_document_bytes(bytes: &[u8]) -> (result: Result<Document, String>)
    ensures
        match (result, json_document_bytes(bytes@)) {
            (Ok(document), Ok(held)) => document.model() == held,
            (Err(error), Err(why)) => error@ == why,
            _ => false,
        },
{
    let value: serde_json::Value = serde_json::from_slice(bytes).map_err(|e| e.to_string())?;
    let fields = value.as_object().map(|object| object.iter().map(|(key, v)| (key.clone(), Json {
        text: v.as_str().map(String::from),
        flag: v.as_bool(),
        integer: v.as_i64(),
        list: v.as_array().map(|l| l.iter().map(|x| x.as_str().map(String::from)).collect()),
        keys: v.as_object().map(|o| o.keys().cloned().collect()),
        written: v.to_string(),
    })).collect());
    Ok(Document { fields, written: value.to_string() })
}

/// `serde_json::from_str` into an `indexmap::IndexMap` of lists of
/// `serde_json::Value`: what the accessors of the values give, in the order of
/// the text, or the text of the error. What the texts mean is left to the name.
#[verifier::external_body]
pub(crate) fn parse_rows(text: &str) -> (result: Result<Vec<(String, Vec<Json>)>, String>)
    ensures
        match (result, json_rows(text@)) {
            (Ok(rows), Ok(held)) => row_models(rows@) == held,
            (Err(error), Err(why)) => error@ == why,
            _ => false,
        },
{
    let rows: IndexMap<String, Vec<serde_json::Value>> =
        serde_json::from_str(text).map_err(|e| e.to_string())?;
    Ok(rows.into_iter().map(|(key, values)| (key, values.iter().map(|v| Json {
        text: v.as_str().map(String::from),
        flag: v.as_bool(),
        integer: v.as_i64(),
        list: v.as_array().map(|l| l.iter().map(|x| x.as_str().map(String::from)).collect()),
        keys: v.as_object().map(|o| o.keys().cloned().collect()),
        written: v.to_string(),
    }).collect())).collect())
}

/// The JSON text of an object with two lists of texts and a truth value.
pub uninterp spec fn pretty_object(
    first_key: Seq<char>,
    first: Seq<Seq<char>>,
    second_key: Seq<char>,
    second: Seq<Seq<char>>,
    flag_key: Seq<char>,
    flag: bool,
) -> Option<Seq<char>>;

/// `serde_json::to_string_pretty` of a `serde_json::Map` with two lists of texts
/// and a truth value. It fails only on keys that are no texts. How the text is
/// laid out is left to the name; what is read from it by
/// `serde_json::from_str` is what was put in.
#[verifier::external_body]
pub(crate) fn write_object(
    first_key: &str,
    first: &Vec<String>,
    second_key: &str,
    second: &Vec<String>,
    flag_key: &str,
    flag: bool,
) -> (result: Option<String>)
    requires
        first_key@ != second_key@,
        first_key@ != flag_key@,
        second_key@ != flag_key@,
    ensures
        result is Some,
        pretty_object(
            first_key@,
            text::texts(first@),
            second_key@,
            text::texts(second@),
            flag_key@,
            flag,
        ) == Some(result->0@),
        match json_document(result->0@) {
            Ok(document) => {
                &&& texts_field(fields_of(document), first_key@) == Some(text::texts(first@))
                &&& texts_field(fields_of(document), second_key@) == Some(text::texts(second@))
                &&& flag_field(fields_of(document), flag_key@) == Some(flag)
            },
            Err(_) => false,
        },
{
    let mut map = serde_json::Map::new();
    map.insert(first_key.to_string(), serde_json::Value::from(first.clone()));
    map.insert(second_key.to_string(), serde_json::Value::from(second.clone()));
    map.insert(flag_key.to_string(), serde_json::Value::from(flag));
    serde_json::to_string_pretty(&map).ok()
}

/// The fields of a document; one that holds no object has none.
pub open spec fn fields_of(document: DocumentModel) -> Seq<(Seq<char>, JsonModel)> {
    match document.fields {
        Some(fields) => fields,
        None => Seq::empty(),
    }
}

/// The value of a field.
pub open spec fn field(fields: Seq<(Seq<char>, JsonModel)>, key: Seq<char>) -> Option<JsonModel>
    decreases fields.len(),
{
    if fields.len() == 0 {
        None
    } else if fields[0].0 == key {
        Some(fields[0].1)
    } else {
        field(fields.drop_first(), key)
    }
}

/// The text in a field.
pub open spec fn text_field(fields: Seq<(Seq<char>, JsonModel)>, key: Seq<char>) -> Option<
    Seq<char>,
> {
    match field(fields, key) {
        Some(value) => value.text,
        None => None,
    }
}

/// The whole number in a field.
pub open spec fn integer_field(fields: Seq<(Seq<char>, JsonModel)>, key: Seq<char>) -> Option<i64> {
    match field(fields, key) {
        Some(value) => value.integer,
        None => None,
    }
}

/// The truth value in a field.
pub open spec fn flag_field(fields: Seq<(Seq<char>, JsonModel)>, key: Seq<char>) -> Option<bool> {
    match field(fields, key) {
        Some(value) => value.flag,
        None => None,
    }
}

/// A field as it is written.
pub open spec fn written_field(fields: Seq<(Seq<char>, JsonModel)>, key: Seq<char>) -> Option<
    Seq<char>,
> {
    match field(fields, key) {
        Some(value) => Some(value.written),
        None => None,
    }
}

/// The texts among the members of a list; the other members are passed over.
pub open spec fn texts_among(list: Seq<Option<Seq<char>>>) -> Seq<Seq<char>>
    decreases list.len(),
{
    if list.len() == 0 {
        Seq::empty()
    } else {
        let rest = texts_among(list.drop_last());
        match list.last() {
            Some(text) => rest.push(text),
            None => rest,
        }
    }
}

/// The texts in the list in a field.
pub open spec fn texts_field(fields: Seq<(Seq<char>, JsonModel)>, key: Seq<char>) -> Option<
    Seq<Seq<char>>,
> {
    match field(fields, key) {
        Some(value) => match value.list {
            Some(list) => Some(texts_among(list)),
            None => None,
        },
        None => None,
    }
}

fn copied(value: &Option<String>) -> (result: Option<String>)
    ensures
        said(result) == said(*value),
{
    match value {
        Some(s) => Some(s.clone()),
        None => None,
    }
}

proof fn lemma_field(fields: Seq<(Seq<char>, JsonModel)>, key: Seq<char>, n: int)
    requires
        0 <= n <= fields.len(),
        forall|i: int| 0 <= i < n ==> (#[trigger] fields[i]).0 != key,
    ensures
        field(fields, key) == if n < fields.len() && fields[n].0 == key {
            Some(fields[n].1)
        } else {
            field(fields.skip(n), key)
        },
    decreases n,
{
    if n == 0 {
        assert(fields.skip(0) =~= fields);
    } else {
        let rest = fields.drop_first();
        assert(fields[0].0 != key);
        assert forall|i: int| 0 <= i < n - 1 implies (#[trigger] rest[i]).0 != key by {
            assert(rest[i] == fields[i + 1]);
        }
        lemma_field(rest, key, n - 1);
        assert(rest.skip(n - 1) =~= fields.skip(n));
        if n < fields.len() {
            assert(rest[n - 1] == fields[n]);
        }
    }
}

impl Document {
    /// The value of a field.
    pub fn get(&self, key: &str) -> (result: Option<&Json>)
        ensures
            match (result, field(fields_of(self.model()), key@)) {
                (Some(value), Some(held)) => value.model() == held,
                (None, None) => true,
                _ => false,
            },
    {
        let ghost held = fields_of(self.model());
        match &self.fields {
            Some(fields) => {
                let mut i: usize = 0;
                while i < fields.len()
                    invariant
                        i <= fields@.len(),
                        held == fields_of(self.model()),
                        held == field_models(fields@),
                        forall|j: int| 0 <= j < i ==> (#[trigger] held[j]).0 != key@,
                    decreases fields@.len() - i,
                {
                    assert(held[i as int] == (fields@[i as int].0@, fields@[i as int].1.model()));
                    if text::same(&fields[i].0, key) {
                        proof {
                            lemma_field(held, key@, i as int);
                        }
                        return Some(&fields[i].1);
                    }
                    i = i + 1;
                }
                proof {
                    lemma_field(held, key@, i as int);
                    assert(held.skip(i as int).len() == 0);
                }
                None
            },
            None => None,
        }
    }

    /// The text in a field.
    pub fn get_text(&self, key: &str) -> (result: Option<String>)
        ensures
            said(result) == text_field(fields_of(self.model()), key@),
    {
        match self.get(key) {
            Some(value) => copied(&value.text),
            None => None,
        }
    }

    /// The whole number in a field.
    pub fn get_integer(&self, key: &str) -> (result: Option<i64>)
        ensures
            result == integer_field(fields_of(self.model()), key@),
    {
        match self.get(key) {
            Some(value) => value.integer,
            None => None,
        }
    }

    /// The truth value in a field.
    pub fn get_flag(&self, key: &str) -> (result: Option<bool>)
        ensures
            result == flag_field(fields_of(self.model()), key@),
    {
        match self.get(key) {
            Some(value) => value.flag,
            None => None,
        }
    }

    /// A field as it is written.
    pub fn get_written(&self, key: &str) -> (result: Option<String>)
        ensures
            said(result) == written_field(fields_of(self.model()), key@),
    {
        match self.get(key) {
            Some(value) => Some(value.written.clone()),
            None => None,
        }
    }

    /// The texts in the list in a field.
    pub fn get_texts(&self, key: &str) -> (result: Option<Vec<String>>)
        ensures
            match (result, texts_field(fields_of(self.model()), key@)) {
                (Some(list), Some(held)) => text::texts(list@) == held,
                (None, None) => true,
                _ => false,
            },
    {
        match self.get(key) {
            Some(value) => match &value.list {
                Some(list) => Some(strings_of(list)),
                None => None,
            },
            None => None,
        }
    }
}

fn strings_of(list: &Vec<Option<String>>) -> (result: Vec<String>)
    ensures
        text::texts(result@) == texts_among(
            list@.map_values(|item: Option<String>| said(item)),
        ),
{
    let ghost held = list@.map_values(|item: Option<String>| said(item));
    let mut strings: Vec<String> = Vec::new();
    let mut i: usize = 0;
    assert(held.take(0) =~= Seq::<Option<Seq<char>>>::empty());
    assert(text::texts(strings@) =~= Seq::<Seq<char>>::empty());
    while i < list.len()
        invariant
            i <= list@.len(),
            held == list@.map_values(|item: Option<String>| said(item)),
            text::texts(strings@) == texts_among(held.take(i as int)),
        decreases list@.len() - i,
    {
        let ghost before = strings@;
        assert(held.take(i + 1).drop_last() =~= held.take(i as int));
        assert(held.take(i + 1).last() == said(list@[i as int]));
        match &list[i] {
            Some(s) => {
                strings.push(s.clone());
                assert(text::texts(strings@) =~= text::texts(before).push(s@));
            },
            None => {},
        }
        i = i + 1;
    }
    assert(held.take(held.len() as int) =~= held);
    strings
}

/// A field is what its first entry says; a key without an entry has none.
pub proof fn law_the_first_entry_of_a_key_holds(
    fields: Seq<(Seq<char>, JsonModel)>,
    key: Seq<char>,
    i: int,
)
    requires
        0 <= i <= fields.len(),
        forall|j: int| 0 <= j < i ==> (#[trigger] fields[j]).0 != key,
    ensures
        i == fields.len() ==> field(fields, key) is None,
        i < fields.len() && fields[i].0 == key ==> field(fields, key) == Some(fields[i].1),
    decreases i,
{
    if i > 0 {
        let rest = fields.drop_first();
        assert(fields[0].0 != key);
        assert forall|j: int| 0 <= j < i - 1 implies (#[trigger] rest[j]).0 != key by {
            assert(rest[j] == fields[j + 1]);
        }
        if i < fields.len() {
            assert(rest[i - 1] == fields[i]);
        }
        law_the_first_entry_of_a_key_holds(rest, key, i - 1);
    }
}

/// The texts of a list keep their order, and what is no text is passed over.
pub proof fn law_only_texts_are_taken(a: Seq<Option<Seq<char>>>, b: Seq<Option<Seq<char>>>, text: Seq<char>)
    ensures
        texts_among(a + b) == texts_among(a) + texts_among(b),
        texts_among(seq![Some(text)]) == seq![text],
        texts_among(seq![None::<Seq<char>>]).len() == 0,
    decreases b.len(),
{
    assert(seq![Some(text)].drop_last() =~= Seq::<Option<Seq<char>>>::empty());
    assert(seq![None::<Seq<char>>].drop_last() =~= Seq::<Option<Seq<char>>>::empty());
    assert(texts_among(Seq::<Option<Seq<char>>>::empty()) =~= Seq::<Seq<char>>::empty());
    assert(texts_among(seq![Some(text)]) =~= seq![text]);
    if b.len() == 0 {
        assert(a + b =~= a);
        assert(texts_among(a) + texts_among(b) =~= texts_among(a));
    } else {
        law_only_texts_are_taken(a, b.drop_last(), text);
        assert((a + b).drop_last() =~= a + b.drop_last());
        assert((a + b).last() == b.last());
        assert(texts_among(a + b) =~= texts_among(a) + texts_among(b));
    }
}

} // verus!
