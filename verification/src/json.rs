use vstd::prelude::*;

use crate::text::{join, lemma_join_step};

verus! {

/// A JSON document: what the generator reads from a spec and what it
/// produces as a request body.  A number is held as the text that
/// serde_json prints for it; an object holds its entries in order.  The
/// documents that the parsers produce, and the examples built from them,
/// are well formed (`JsonModel::wf`): keys sorted and unique, as in
/// serde_json's map.
#[derive(Debug, PartialEq, Eq)]
pub enum Json {
    Null,
    Bool(bool),
    Number(String),
    Str(String),
    Array(Vec<Json>),
    Object(Vec<(String, Json)>),
}

/// The mathematical value of a [`Json`].
pub enum JsonModel {
    Null,
    Bool(bool),
    Number(Seq<char>),
    Str(Seq<char>),
    Array(Seq<JsonModel>),
    Object(Seq<(Seq<char>, JsonModel)>),
}

impl Json {
    pub open spec fn model(self) -> JsonModel
        decreases self,
    {
        match self {
            Json::Null => JsonModel::Null,
            Json::Bool(b) => JsonModel::Bool(b),
            Json::Number(n) => JsonModel::Number(n@),
            Json::Str(s) => JsonModel::Str(s@),
            Json::Array(items) => JsonModel::Array(
                Seq::new(
                    items@.len(),
                    |i: int|
                        if 0 <= i < items@.len() {
                            items@[i].model()
                        } else {
                            JsonModel::Null
                        },
                ),
            ),
            Json::Object(entries) => JsonModel::Object(
                Seq::new(
                    entries@.len(),
                    |i: int|
                        if 0 <= i < entries@.len() {
                            (entries@[i].0@, entries@[i].1.model())
                        } else {
                            (Seq::empty(), JsonModel::Null)
                        },
                ),
            ),
        }
    }
}

impl View for Json {
    type V = JsonModel;

    open spec fn view(&self) -> JsonModel {
        self.model()
    }
}


/// The value stored under `key` among `entries`: the first entry with that key.
pub open spec fn lookup(entries: Seq<(Seq<char>, JsonModel)>, key: Seq<char>) -> Option<JsonModel>
    decreases entries.len(),
{
    if entries.len() == 0 {
        None
    } else if entries[0].0 == key {
        Some(entries[0].1)
    } else {
        lookup(entries.drop_first(), key)
    }
}

/// A key that `lookup` does not find is the key of no entry.
pub proof fn lemma_lookup_none(entries: Seq<(Seq<char>, JsonModel)>, key: Seq<char>)
    ensures
        lookup(entries, key) is None <==> forall|i: int|
            0 <= i < entries.len() ==> #[trigger] entries[i].0 != key,
    decreases entries.len(),
{
    if entries.len() > 0 {
        lemma_lookup_none(entries.drop_first(), key);
        if lookup(entries, key) is None {
            assert forall|i: int| 0 <= i < entries.len() implies #[trigger] entries[i].0 != key by {
                if i > 0 {
                    assert(entries[i] == entries.drop_first()[i - 1]);
                }
            }
        } else if entries[0].0 != key {
            let j = choose|j: int|
                0 <= j < entries.drop_first().len() && #[trigger] entries.drop_first()[j].0 == key;
            assert(entries[j + 1] == entries.drop_first()[j]);
        }
    }
}

/// What `lookup` finds is the value of some entry with that key.
pub proof fn lemma_lookup_some(entries: Seq<(Seq<char>, JsonModel)>, key: Seq<char>)
    ensures
        lookup(entries, key) matches Some(v) ==> exists|i: int|
            0 <= i < entries.len() && #[trigger] entries[i] == (key, v),
    decreases entries.len(),
{
    if entries.len() > 0 && entries[0].0 != key {
        lemma_lookup_some(entries.drop_first(), key);
        if let Some(v) = lookup(entries, key) {
            let j = choose|j: int|
                0 <= j < entries.drop_first().len() && #[trigger] entries.drop_first()[j] == (key, v);
            assert(entries[j + 1] == entries.drop_first()[j]);
        }
    }
}

/// Whether each element of `items` is well formed.
pub open spec fn items_wf(items: Seq<JsonModel>) -> Seq<bool>
    decreases items,
{
    Seq::new(
        items.len(),
        |i: int|
            if 0 <= i < items.len() {
                items[i].wf()
            } else {
                true
            },
    )
}

/// Whether the value of each entry of `entries` is well formed.
pub open spec fn members_wf(entries: Seq<(Seq<char>, JsonModel)>) -> Seq<bool>
    decreases entries,
{
    Seq::new(
        entries.len(),
        |i: int|
            if 0 <= i < entries.len() {
                entries[i].1.wf()
            } else {
                true
            },
    )
}

/// Every element of `s` holds.
pub open spec fn all_true(s: Seq<bool>) -> bool {
    forall|i: int| 0 <= i < s.len() ==> #[trigger] s[i]
}

/// No key occurs twice among `entries`.
pub open spec fn unique_keys(entries: Seq<(Seq<char>, JsonModel)>) -> bool {
    forall|i: int, j: int|
        0 <= i < j < entries.len() ==> #[trigger] entries[i].0 != #[trigger] entries[j].0
}

/// `a` sorts strictly before `b` in the order of Rust's `str`: compared
/// character by character by code point, a proper prefix first.
pub open spec fn text_less(a: Seq<char>, b: Seq<char>) -> bool
    decreases a.len(),
{
    if a.len() == 0 {
        b.len() > 0
    } else if b.len() == 0 {
        false
    } else if a[0] != b[0] {
        (a[0] as u32) < (b[0] as u32)
    } else {
        text_less(a.drop_first(), b.drop_first())
    }
}

/// No text sorts before itself.
pub proof fn lemma_text_less_irreflexive(a: Seq<char>)
    ensures
        !text_less(a, a),
    decreases a.len(),
{
    if a.len() > 0 {
        lemma_text_less_irreflexive(a.drop_first());
    }
}

/// The keys of `entries` are in strictly increasing order, as the keys of
/// serde_json's map (a `BTreeMap<String, Value>`) come out.
pub open spec fn sorted_keys(entries: Seq<(Seq<char>, JsonModel)>) -> bool {
    forall|i: int, j: int|
        0 <= i < j < entries.len() ==> text_less(#[trigger] entries[i].0, #[trigger] entries[j].0)
}

/// Keys in strictly increasing order are distinct.
pub proof fn lemma_sorted_keys_unique(entries: Seq<(Seq<char>, JsonModel)>)
    requires
        sorted_keys(entries),
    ensures
        unique_keys(entries),
{
    assert forall|i: int, j: int|
        0 <= i < j < entries.len() implies #[trigger] entries[i].0 != #[trigger] entries[j].0 by {
        lemma_text_less_irreflexive(entries[i].0);
    }
}

impl JsonModel {
    /// Well-formed, as a document that serde_json holds: every object, at
    /// any depth, has its keys in strictly increasing order, so none twice.
    pub open spec fn wf(self) -> bool
        decreases self,
    {
        match self {
            JsonModel::Array(items) => all_true(items_wf(items)),
            JsonModel::Object(entries) => sorted_keys(entries) && all_true(members_wf(entries)),
            _ => true,
        }
    }

    /// The elements of a well-formed array are well formed.
    pub proof fn lemma_array_wf(self)
        requires
            self.wf(),
            self is Array,
        ensures
            forall|i: int| 0 <= i < self->Array_0.len() ==> (#[trigger] self->Array_0[i]).wf(),
    {
        let items = self->Array_0;
        assert forall|i: int| 0 <= i < items.len() implies (#[trigger] items[i]).wf() by {
            assert(items_wf(items)[i]);
        }
    }

    /// The members of a well-formed object are well formed.
    pub proof fn lemma_object_wf(self)
        requires
            self.wf(),
            self is Object,
        ensures
            sorted_keys(self->Object_0),
            unique_keys(self->Object_0),
            forall|i: int|
                0 <= i < self->Object_0.len() ==> (#[trigger] self->Object_0[i]).1.wf(),
    {
        let entries = self->Object_0;
        lemma_sorted_keys_unique(entries);
        assert forall|i: int| 0 <= i < entries.len() implies (#[trigger] entries[i]).1.wf() by {
            assert(members_wf(entries)[i]);
        }
    }

    /// A member of a well-formed document is well formed.
    pub proof fn lemma_get_wf(self, key: Seq<char>)
        requires
            self.wf(),
        ensures
            self.get(key) matches Some(v) ==> v.wf(),
    {
        if let JsonModel::Object(entries) = self {
            lemma_lookup_some(entries, key);
            self.lemma_object_wf();
            if let Some(v) = self.get(key) {
                let j = choose|j: int| 0 <= j < entries.len() && #[trigger] entries[j] == (key, v);
                assert(entries[j].1.wf());
            }
        }
    }

    /// `Value::get` with a string key: the member `key` of an object.
    pub open spec fn get(self, key: Seq<char>) -> Option<JsonModel> {
        match self {
            JsonModel::Object(entries) => lookup(entries, key),
            _ => None,
        }
    }

    /// The member `key`, where it is a string.
    pub open spec fn str_member(self, key: Seq<char>) -> Option<Seq<char>> {
        match self.get(key) {
            Some(v) => v.as_str(),
            None => None,
        }
    }

    pub open spec fn as_str(self) -> Option<Seq<char>> {
        match self {
            JsonModel::Str(s) => Some(s),
            _ => None,
        }
    }

    pub open spec fn as_bool(self) -> Option<bool> {
        match self {
            JsonModel::Bool(b) => Some(b),
            _ => None,
        }
    }

    pub open spec fn as_array(self) -> Option<Seq<JsonModel>> {
        match self {
            JsonModel::Array(items) => Some(items),
            _ => None,
        }
    }

    pub open spec fn as_object(self) -> Option<Seq<(Seq<char>, JsonModel)>> {
        match self {
            JsonModel::Object(entries) => Some(entries),
            _ => None,
        }
    }
}

/// The lower-case hexadecimal digit for `d`.
pub open spec fn lower_hex_digit(d: u32) -> char {
    if d < 10 {
        (0x30 + d) as char
    } else {
        (0x61 + d - 10) as char
    }
}

/// How serde_json writes one character inside a JSON string: a quote or
/// a backslash behind a backslash, backspace, tab, line feed, form feed
/// and carriage return as `\b \t \n \f \r`, any other control
/// character below 0x20 as `\u00` and two lower-case hexadecimal digits,
/// every other character as it is.
pub open spec fn escaped_char(c: char) -> Seq<char> {
    if c == '"' {
        seq!['\\', '"']
    } else if c == '\\' {
        seq!['\\', '\\']
    } else if c == '\u{8}' {
        seq!['\\', 'b']
    } else if c == '\t' {
        seq!['\\', 't']
    } else if c == '\n' {
        seq!['\\', 'n']
    } else if c == '\u{c}' {
        seq!['\\', 'f']
    } else if c == '\r' {
        seq!['\\', 'r']
    } else if (c as u32) < 0x20 {
        seq![
            '\\',
            'u',
            '0',
            '0',
            lower_hex_digit((c as u32) / 16),
            lower_hex_digit((c as u32) % 16),
        ]
    } else {
        seq![c]
    }
}

/// The characters of `text`, each written as [`escaped_char`] writes it.
pub open spec fn escaped_text(text: Seq<char>) -> Seq<char>
    decreases text.len(),
{
    if text.len() == 0 {
        Seq::empty()
    } else {
        escaped_char(text[0]) + escaped_text(text.drop_first())
    }
}

/// The text that serde_json writes for the string `text`: in double
/// quotes, its characters escaped.
pub open spec fn json_quoted(text: Seq<char>) -> Seq<char> {
    "\""@ + escaped_text(text) + "\""@
}

/// The compact JSON text of `v`: no whitespace, members in the order the
/// object holds them.  For a well-formed document, whose members are in
/// the order of serde_json's map, this is what `serde_json::to_string`
/// writes.
pub open spec fn compact_text(v: JsonModel) -> Seq<char>
    decreases v,
{
    match v {
        JsonModel::Null => "null"@,
        JsonModel::Bool(b) => if b {
            "true"@
        } else {
            "false"@
        },
        JsonModel::Number(n) => n,
        JsonModel::Str(s) => json_quoted(s),
        JsonModel::Array(items) => "["@ + join(item_texts(items), ","@) + "]"@,
        JsonModel::Object(entries) => "{"@ + join(member_texts(entries), ","@) + "}"@,
    }
}

/// The compact text of each element of an array.
pub open spec fn item_texts(items: Seq<JsonModel>) -> Seq<Seq<char>>
    decreases items,
{
    Seq::new(
        items.len(),
        |i: int|
            if 0 <= i < items.len() {
                compact_text(items[i])
            } else {
                Seq::empty()
            },
    )
}

/// The compact text `"key":value` of each member of an object.
pub open spec fn member_texts(entries: Seq<(Seq<char>, JsonModel)>) -> Seq<Seq<char>>
    decreases entries,
{
    Seq::new(
        entries.len(),
        |i: int|
            if 0 <= i < entries.len() {
                json_quoted(entries[i].0) + ":"@ + compact_text(entries[i].1)
            } else {
                Seq::empty()
            },
    )
}

impl Json {
    /// A copy of this document.
    pub fn deep_copy(&self) -> (r: Json)
        ensures
            r@ == self@,
        decreases self,
    {
        match self {
            Json::Null => Json::Null,
            Json::Bool(b) => Json::Bool(*b),
            Json::Number(n) => Json::Number(n.clone()),
            Json::Str(s) => Json::Str(s.clone()),
            Json::Array(items) => {
                let mut out: Vec<Json> = Vec::new();
                let mut i: usize = 0;
                while i < items.len()
                    invariant
                        *self == Json::Array(*items),
                        i <= items@.len(),
                        out@.len() == i,
                        forall|k: int| 0 <= k < i ==> (#[trigger] out@[k])@ == items@[k]@,
                    decreases items@.len() - i,
                {
                    proof {
                        assert(decreases_to!(*self => self->Array_0));
                        assert(decreases_to!(*items => items@));
                        assert(decreases_to!(items@ => items@[i as int]));
                    }
                    let c = items[i].deep_copy();
                    out.push(c);
                    i = i + 1;
                }
                let r = Json::Array(out);
                assert(r@->Array_0 =~= self@->Array_0);
                r
            },
            Json::Object(entries) => {
                let mut out: Vec<(String, Json)> = Vec::new();
                let mut i: usize = 0;
                while i < entries.len()
                    invariant
                        *self == Json::Object(*entries),
                        i <= entries@.len(),
                        out@.len() == i,
                        forall|k: int|
                            0 <= k < i ==> (#[trigger] out@[k]).0@ == entries@[k].0@ && out@[k].1@
                                == entries@[k].1@,
                    decreases entries@.len() - i,
                {
                    proof {
                        assert(decreases_to!(*self => self->Object_0));
                        assert(decreases_to!(*entries => entries@));
                        assert(decreases_to!(entries@ => entries@[i as int]));
                    }
                    let c = entries[i].1.deep_copy();
                    out.push((entries[i].0.clone(), c));
                    i = i + 1;
                }
                let r = Json::Object(out);
                assert(r@->Object_0 =~= self@->Object_0);
                r
            },
        }
    }

    /// `Value::get` with a string key: the member `key` of an object,
    /// `None` for a missing key or for a value that is not an object.
    pub fn get(&self, key: &str) -> (r: Option<&Json>)
        ensures
            match r {
                Some(x) => self@.get(key@) == Some(x@),
                None => self@.get(key@) is None,
            },
    {
        match self {
            Json::Object(entries) => {
                let ghost m = self@->Object_0;
                let mut i: usize = 0;
                assert(m.skip(0) =~= m);
                while i < entries.len()
                    invariant
                        *self == Json::Object(*entries),
                        m == self@->Object_0,
                        i <= entries@.len(),
                        m.len() == entries@.len(),
                        forall|k: int|
                            0 <= k < m.len() ==> #[trigger] m[k] == (entries@[k].0@, entries@[k].1@),
                        lookup(m, key@) == lookup(m.skip(i as int), key@),
                    decreases entries@.len() - i,
                {
                    assert(m.skip(i as int)[0] == m[i as int]);
                    if crate::text::str_equals(entries[i].0.as_str(), key) {
                        assert(m.skip(i as int).len() > 0);
                        assert(m.skip(i as int)[0].0 == key@);
                        assert(lookup(m.skip(i as int), key@) == Some(entries@[i as int].1@));
                        return Some(&entries[i].1);
                    }
                    assert(m.skip(i as int).drop_first() =~= m.skip(i + 1));
                    i = i + 1;
                }
                None
            },
            _ => None,
        }
    }

    /// The member `key`, where it is a string.
    pub fn get_str(&self, key: &str) -> (r: Option<&String>)
        ensures
            match r {
                Some(s) => self@.str_member(key@) == Some(s@),
                None => self@.str_member(key@) is None,
            },
    {
        match self.get(key) {
            Some(Json::Str(s)) => Some(s),
            _ => None,
        }
    }

    /// Appends the compact JSON text of this document to `out`.
    #[verifier::spinoff_prover]
    #[verifier::rlimit(40)]
    pub fn write_compact(&self, out: &mut String)
        ensures
            final(out)@ == old(out)@ + compact_text(self@),
        decreases self,
    {
        match self {
            Json::Null => out.append("null"),
            Json::Bool(b) => if *b {
                out.append("true")
            } else {
                out.append("false")
            },
            Json::Number(n) => out.append(n.as_str()),
            Json::Str(s) => {
                let q = json_string_literal(s.as_str());
                out.append(q.as_str());
            },
            Json::Array(items) => {
                let ghost start = out@;
                let ghost parts = item_texts(self@->Array_0);
                out.append("[");
                let mut i: usize = 0;
                while i < items.len()
                    invariant
                        *self == Json::Array(*items),
                        i <= items@.len(),
                        parts.len() == items@.len(),
                        forall|k: int| 0 <= k < parts.len() ==> #[trigger] parts[k] == compact_text(items@[k]@),
                        out@ == start + "["@ + join(parts.take(i as int), ","@),
                    decreases items@.len() - i,
                {
                    proof {
                        lemma_join_step(parts, ","@, i as int);
                    }
                    if i > 0 {
                        out.append(",");
                    }
                    proof {
                        assert(decreases_to!(*self => self->Array_0));
                        assert(decreases_to!(*items => items@));
                        assert(decreases_to!(items@ => items@[i as int]));
                    }
                    items[i].write_compact(out);
                    i = i + 1;
                }
                out.append("]");
                assert(parts.take(items@.len() as int) =~= parts);
            },
            Json::Object(entries) => {
                let ghost start = out@;
                let ghost parts = member_texts(self@->Object_0);
                out.append("{");
                let mut i: usize = 0;
                while i < entries.len()
                    invariant
                        *self == Json::Object(*entries),
                        i <= entries@.len(),
                        parts.len() == entries@.len(),
                        forall|k: int|
                            0 <= k < parts.len() ==> #[trigger] parts[k] == json_quoted(entries@[k].0@)
                                + ":"@ + compact_text(entries@[k].1@),
                        out@ == start + "{"@ + join(parts.take(i as int), ","@),
                    decreases entries@.len() - i,
                {
                    proof {
                        lemma_join_step(parts, ","@, i as int);
                    }
                    if i > 0 {
                        out.append(",");
                    }
                    let q = json_string_literal(entries[i].0.as_str());
                    out.append(q.as_str());
                    out.append(":");
                    proof {
                        assert(decreases_to!(*self => self->Object_0));
                        assert(decreases_to!(*entries => entries@));
                        assert(decreases_to!(entries@ => entries@[i as int]));
                    }
                    entries[i].1.write_compact(out);
                    i = i + 1;
                }
                out.append("}");
                assert(parts.take(entries@.len() as int) =~= parts);
            },
        }
    }

    /// The compact JSON text of this document (for a well-formed one, the
    /// text that `serde_json::to_string` writes).
    pub fn to_compact_string(&self) -> (r: String)
        ensures
            r@ == compact_text(self@),
    {
        let mut out = String::new();
        self.write_compact(&mut out);
        out
    }
}

impl Clone for Json {
    fn clone(&self) -> (r: Self)
        ensures
            r@ == self@,
    {
        self.deep_copy()
    }
}

/// `serde_json::to_string` on a string: the string in double quotes, with
/// the characters that serde_json escapes (its `ESCAPE` table) escaped as
/// [`escaped_char`] states.
#[verifier::external_body]
fn json_string_literal(text: &str) -> (r: String)
    ensures
        r@ == json_quoted(text@),
{
    serde_json::to_string(text).unwrap_or_default()
}


/// serde_json's document tree, which the parsers below produce.
#[verifier::external_type_specification]
#[verifier::external_body]
pub struct ExJsonValue(serde_json::Value);

/// Turns serde_json's tree into a [`Json`], variant for variant: a
/// number becomes the text that `serde_json::Number` displays, an
/// object's members keep the order in which serde_json's map yields them.
#[verifier::external_body]
fn json_from_value(v: serde_json::Value) -> Json {
    match v {
        serde_json::Value::Null => Json::Null,
        serde_json::Value::Bool(b) => Json::Bool(b),
        serde_json::Value::Number(n) => Json::Number(n.to_string()),
        serde_json::Value::String(s) => Json::Str(s),
        serde_json::Value::Array(a) => Json::Array(a.into_iter().map(json_from_value).collect()),
        serde_json::Value::Object(m) => Json::Object(
            m.into_iter().map(|(k, x)| (k, json_from_value(x))).collect(),
        ),
    }
}

/// The document that serde_json reads from `text`, `None` where the text
/// is not JSON.
pub uninterp spec fn json_document(text: Seq<char>) -> Option<JsonModel>;

/// What serde_yaml reads from `text`: the document, or the message of its
/// error (as `serde_yaml::Error` displays it) where the text is not YAML
/// that maps onto a JSON value.
pub uninterp spec fn yaml_document(text: Seq<char>) -> Result<JsonModel, Seq<char>>;

/// `serde_json::from_str::<serde_json::Value>`: the result is named
/// (`json_document`), not spelled out.  serde_json's map is a `BTreeMap`,
/// whose keys come out once each and in increasing order, so the document
/// is well formed.
#[verifier::external_body]
pub(crate) fn parse_json_text(text: &str) -> (r: Option<Json>)
    ensures
        r matches Some(j) ==> json_document(text@) == Some(j@) && j@.wf(),
        r is None ==> json_document(text@) is None,
{
    serde_json::from_str::<serde_json::Value>(text).ok().map(json_from_value)
}

/// `serde_yaml::from_str::<serde_json::Value>`: the result is named
/// (`yaml_document`), not spelled out; an error is handed on as the text
/// it displays.  The document lands in serde_json's map, a `BTreeMap`,
/// so its keys come out once each and in increasing order.
#[verifier::external_body]
pub(crate) fn parse_yaml_text(text: &str) -> (r: Result<Json, String>)
    ensures
        match r {
            Ok(j) => yaml_document(text@) == Ok::<JsonModel, Seq<char>>(j@) && j@.wf(),
            Err(m) => yaml_document(text@) == Err::<JsonModel, Seq<char>>(m@),
        },
{
    match serde_yaml::from_str::<serde_json::Value>(text) {
        Ok(v) => Ok(json_from_value(v)),
        Err(e) => Err(e.to_string()),
    }
}

} // verus!
