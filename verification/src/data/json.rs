//! A data source of JSON objects: one object of names and values for each
//! version.

use vstd::prelude::*;
use vstd::string::StringExecFns;
use crate::layout::value::{DataValue, ValueSource};
use super::errors::{refused, wrapped, DataError, DataErrorModel};
use super::excel::{list_model, table_model, ListModel};
use super::DataSource;

verus! {

/// A JSON value.
///
/// A number is an integer that is not negative, a negative integer, or a
/// floating-point number, held as its IEEE-754 binary64 bit pattern. A text
/// comes with the numbers that it lists, where it is a list of numbers
/// separated by white space, commas or semicolons.
#[derive(Debug)]
pub enum JsonValue {
    Null,
    Bool(bool),
    PosInt(u64),
    NegInt(i64),
    Float(u64),
    Text { text: String, numbers: Option<Vec<DataValue>> },
    Array(Vec<JsonValue>),
    Object(Vec<(String, JsonValue)>),
}

/// The mathematical content of a `JsonValue`.
pub enum JsonModel {
    Null,
    Bool(bool),
    PosInt(u64),
    NegInt(i64),
    Float(u64),
    Text { text: Seq<char>, numbers: Option<Seq<DataValue>> },
    Array(Seq<JsonModel>),
    Object(Seq<(Seq<char>, JsonModel)>),
}

impl JsonValue {
    /// The content of the value.
    pub open spec fn model(self) -> JsonModel
        decreases self, 1nat, 0nat,
    {
        match self {
            JsonValue::Null => JsonModel::Null,
            JsonValue::Bool(b) => JsonModel::Bool(b),
            JsonValue::PosInt(n) => JsonModel::PosInt(n),
            JsonValue::NegInt(n) => JsonModel::NegInt(n),
            JsonValue::Float(b) => JsonModel::Float(b),
            JsonValue::Text { text, numbers } => JsonModel::Text {
                text: text@,
                numbers: match numbers {
                    Some(list) => Some(list@),
                    None => None,
                },
            },
            JsonValue::Array(items) => JsonModel::Array(self.first_items(items@.len())),
            JsonValue::Object(entries) => JsonModel::Object(self.first_entries(entries@.len())),
        }
    }

    /// The content of the first `count` items of an array.
    pub open spec fn first_items(self, count: nat) -> Seq<JsonModel>
        decreases self, 0nat, count,
    {
        if self is Array && 0 < count <= self->Array_0@.len() {
            self.first_items((count - 1) as nat).push(self->Array_0@[count - 1].model())
        } else {
            Seq::empty()
        }
    }

    /// The content of the first `count` entries of an object.
    pub open spec fn first_entries(self, count: nat) -> Seq<(Seq<char>, JsonModel)>
        decreases self, 0nat, count,
    {
        if self is Object && 0 < count <= self->Object_0@.len() {
            self.first_entries((count - 1) as nat).push(
                (self->Object_0@[count - 1].0@, self->Object_0@[count - 1].1.model()),
            )
        } else {
            Seq::empty()
        }
    }
}

impl View for JsonValue {
    type V = JsonModel;

    open spec fn view(&self) -> JsonModel {
        self.model()
    }
}

/// The contents of a list of JSON values.
pub open spec fn items_model(items: Seq<JsonValue>) -> Seq<JsonModel> {
    Seq::new(items.len(), |i: int| items[i]@)
}

/// The contents of the entries of an object.
pub open spec fn entries_model(entries: Seq<(String, JsonValue)>) -> Seq<(Seq<char>, JsonModel)> {
    Seq::new(entries.len(), |i: int| (entries[i].0@, entries[i].1@))
}

proof fn lemma_first_items(value: JsonValue, count: nat)
    requires
        value is Array,
        count <= value->Array_0@.len(),
    ensures
        value.first_items(count) == items_model(value->Array_0@.take(count as int)),
    decreases count,
{
    let items = value->Array_0@;
    if count > 0 {
        lemma_first_items(value, (count - 1) as nat);
        assert(items_model(items.take(count - 1)).push(items[count - 1]@) =~= items_model(
            items.take(count as int),
        ));
    } else {
        assert(items_model(items.take(0)) =~= Seq::empty());
    }
}

proof fn lemma_first_entries(value: JsonValue, count: nat)
    requires
        value is Object,
        count <= value->Object_0@.len(),
    ensures
        value.first_entries(count) == entries_model(value->Object_0@.take(count as int)),
    decreases count,
{
    let entries = value->Object_0@;
    if count > 0 {
        lemma_first_entries(value, (count - 1) as nat);
        assert(entries_model(entries.take(count - 1)).push(
            (entries[count - 1].0@, entries[count - 1].1@),
        ) =~= entries_model(entries.take(count as int)));
    } else {
        assert(entries_model(entries.take(0)) =~= Seq::empty());
    }
}

/// An array's content is the list of its items' contents.
pub proof fn lemma_model_of_array(items: Vec<JsonValue>)
    ensures
        JsonValue::Array(items)@ == JsonModel::Array(items_model(items@)),
{
    lemma_first_items(JsonValue::Array(items), items@.len());
    assert(items@.take(items@.len() as int) =~= items@);
}

/// An object's content is the list of its entries' names and contents.
pub proof fn lemma_model_of_object(entries: Vec<(String, JsonValue)>)
    ensures
        JsonValue::Object(entries)@ == JsonModel::Object(entries_model(entries@)),
{
    lemma_first_entries(JsonValue::Object(entries), entries@.len());
    assert(entries@.take(entries@.len() as int) =~= entries@);
}

/// A copy of a list of values.
pub fn copy_values(values: &Vec<DataValue>) -> (r: Vec<DataValue>)
    ensures
        r@ == values@,
{
    let mut out: Vec<DataValue> = Vec::new();
    let mut i: usize = 0;
    while i < values.len()
        invariant
            i <= values.len(),
            out@ == values@.take(i as int),
        decreases values.len() - i,
    {
        out.push(values[i].clone());
        proof {
            assert(out@ =~= values@.take(i + 1));
        }
        i = i + 1;
    }
    proof {
        assert(values@.take(values@.len() as int) =~= values@);
    }
    out
}

impl JsonValue {
    /// A copy of the value with the same content.
    pub fn duplicate(&self) -> (r: JsonValue)
        ensures
            r@ == self@,
        decreases self,
    {
        match self {
            JsonValue::Null => JsonValue::Null,
            JsonValue::Bool(b) => JsonValue::Bool(*b),
            JsonValue::PosInt(n) => JsonValue::PosInt(*n),
            JsonValue::NegInt(n) => JsonValue::NegInt(*n),
            JsonValue::Float(b) => JsonValue::Float(*b),
            JsonValue::Text { text, numbers } => JsonValue::Text {
                text: text.clone(),
                numbers: match numbers {
                    Some(list) => Some(copy_values(list)),
                    None => None,
                },
            },
            JsonValue::Array(items) => {
                let mut copies: Vec<JsonValue> = Vec::new();
                let mut i: usize = 0;
                while i < items.len()
                    invariant
                        i <= items.len(),
                        *self == JsonValue::Array(*items),
                        copies@.len() == i,
                        forall|j: int| 0 <= j < i ==> (#[trigger] copies@[j])@ == items@[j]@,
                    decreases items.len() - i,
                {
                    let item = &items[i];
                    proof {
                        assert(self->Array_0 == *items);
                        assert(decreases_to!(*self => self->Array_0@[i as int]));
                    }
                    copies.push(item.duplicate());
                    i = i + 1;
                }
                proof {
                    lemma_model_of_array(copies);
                    lemma_model_of_array(*items);
                    assert(items_model(copies@) =~= items_model(items@));
                }
                JsonValue::Array(copies)
            },
            JsonValue::Object(entries) => JsonValue::Object(copy_entries(entries)),
        }
    }
}

/// A copy of the entries of an object with the same content.
pub fn copy_entries(entries: &Vec<(String, JsonValue)>) -> (copies: Vec<(String, JsonValue)>)
    ensures
        entries_model(copies@) == entries_model(entries@),
        JsonValue::Object(copies)@ == JsonValue::Object(*entries)@,
    decreases entries,
{
    let mut copies: Vec<(String, JsonValue)> = Vec::new();
    let mut i: usize = 0;
    while i < entries.len()
        invariant
            i <= entries.len(),
            copies@.len() == i,
            forall|j: int|
                0 <= j < i ==> (#[trigger] copies@[j]).0@ == entries@[j].0@ && copies@[j].1@
                    == entries@[j].1@,
        decreases entries.len() - i,
    {
        let entry = &entries[i];
        proof {
            assert(decreases_to!(*entries => entries@[i as int].1));
        }
        copies.push((entry.0.clone(), entry.1.duplicate()));
        i = i + 1;
    }
    proof {
        lemma_model_of_object(copies);
        lemma_model_of_object(*entries);
        assert(entries_model(copies@) =~= entries_model(entries@));
    }
    copies
}

/// The place of the first entry called `key`.
pub open spec fn member_index(entries: Seq<(String, JsonValue)>, key: Seq<char>) -> Option<int>
    decreases entries.len(),
{
    if entries.len() == 0 {
        None
    } else if entries[0].0@ == key {
        Some(0)
    } else {
        match member_index(entries.drop_first(), key) {
            Some(i) => Some(i + 1),
            None => None,
        }
    }
}

proof fn lemma_member_index(entries: Seq<(String, JsonValue)>, key: Seq<char>)
    ensures
        match member_index(entries, key) {
            Some(i) => 0 <= i < entries.len() && entries[i].0@ == key && forall|j: int|
                0 <= j < i ==> (#[trigger] entries[j]).0@ != key,
            None => forall|j: int| 0 <= j < entries.len() ==> (#[trigger] entries[j]).0@ != key,
        },
    decreases entries.len(),
{
    if entries.len() > 0 && entries[0].0@ != key {
        lemma_member_index(entries.drop_first(), key);
        match member_index(entries.drop_first(), key) {
            Some(i) => {
                assert forall|j: int| 0 <= j < i + 1 implies (#[trigger] entries[j]).0@ != key by {
                    if j > 0 {
                        assert(entries.drop_first()[j - 1].0@ != key);
                    }
                }
            },
            None => {
                assert forall|j: int| 0 <= j < entries.len() implies (#[trigger] entries[j]).0@
                    != key by {
                    if j > 0 {
                        assert(entries.drop_first()[j - 1].0@ != key);
                    }
                }
            },
        }
    }
}

/// The value of the first entry called `key`.
pub open spec fn member(entries: Seq<(String, JsonValue)>, key: Seq<char>) -> Option<JsonValue> {
    match member_index(entries, key) {
        Some(i) => Some(entries[i].1),
        None => None,
    }
}

/// The value of the first entry called `key`.
pub fn find_member<'a>(entries: &'a Vec<(String, JsonValue)>, key: &String) -> (r: Option<
    &'a JsonValue,
>)
    ensures
        match r {
            Some(value) => member(entries@, key@) == Some(*value),
            None => member(entries@, key@) is None,
        },
{
    let mut i: usize = 0;
    while i < entries.len()
        invariant
            i <= entries.len(),
            forall|j: int| 0 <= j < i ==> (#[trigger] entries@[j]).0@ != key@,
        decreases entries.len() - i,
    {
        if entries[i].0 == *key {
            proof {
                lemma_member_index(entries@, key@);
            }
            return Some(&entries[i].1);
        }
        i = i + 1;
    }
    proof {
        lemma_member_index(entries@, key@);
    }
    None
}

/// The value at the end of a path of names that leads through objects,
/// from `value` on; the first name of the path that leads nowhere where
/// there is one.
pub open spec fn nested(value: JsonValue, path: Seq<String>, from: nat) -> Result<JsonValue, String>
    decreases path.len() - from,
{
    if from >= path.len() {
        Ok(value)
    } else {
        match value {
            JsonValue::Object(entries) => match member(entries@, path[from as int]@) {
                Some(inner) => nested(inner, path, from + 1),
                None => Err(path[from as int]),
            },
            _ => Err(path[from as int]),
        }
    }
}

/// The error for a name of a path that leads nowhere.
pub open spec fn nested_missing(key: Seq<char>) -> DataErrorModel {
    DataErrorModel::RetrievalError("nested key '"@ + key + "' not found in response"@)
}

/// Navigates into nested objects along a path of names. An empty path
/// gives the value itself.
pub fn extract_nested_value<'a>(value: &'a JsonValue, path: &[String]) -> (r: Result<
    &'a JsonValue,
    DataError,
>)
    ensures
        match r {
            Ok(found) => nested(*value, path@, 0) == Ok::<JsonValue, String>(*found),
            Err(e) => nested(*value, path@, 0) is Err && e.model() == nested_missing(
                nested(*value, path@, 0)->Err_0@,
            ),
        },
{
    let mut current: &JsonValue = value;
    let mut i: usize = 0;
    while i < path.len()
        invariant
            i <= path.len(),
            nested(*current, path@, i as nat) == nested(*value, path@, 0),
        decreases path.len() - i,
    {
        let next = match current {
            JsonValue::Object(entries) => find_member(entries, &path[i]),
            _ => None,
        };
        match next {
            Some(inner) => {
                current = inner;
            },
            None => {
                let mut text = String::from_str("nested key '");
                text.append(path[i].as_str());
                text.append("' not found in response");
                return Err(DataError::RetrievalError(text));
            },
        }
        i = i + 1;
    }
    Ok(current)
}

/// The number, truth value or text that a JSON value stands for; an array,
/// an object and null stand for none.
pub open spec fn scalar_of(value: JsonValue) -> Result<DataValue, DataErrorModel> {
    match value {
        JsonValue::Bool(b) => Ok(DataValue::Bool(b)),
        JsonValue::PosInt(n) => Ok(DataValue::U64(n)),
        JsonValue::NegInt(n) => Ok(DataValue::I64(n)),
        JsonValue::Float(b) => Ok(DataValue::F64(b)),
        JsonValue::Text { text, numbers } => Ok(DataValue::Str(text)),
        _ => Err(DataErrorModel::RetrievalError("expected scalar value"@)),
    }
}

/// What the values from `from` on stand for, or the error of the first
/// that stands for nothing.
pub open spec fn scalars_from(values: Seq<JsonValue>, from: nat) -> Result<
    Seq<DataValue>,
    DataErrorModel,
>
    decreases values.len() - from,
{
    if from >= values.len() {
        Ok(Seq::empty())
    } else {
        match scalar_of(values[from as int]) {
            Err(e) => Err(e),
            Ok(v) => match scalars_from(values, from + 1) {
                Err(e) => Err(e),
                Ok(rest) => Ok(seq![v] + rest),
            },
        }
    }
}

/// What the rows from `from` on stand for: every row an array of numbers,
/// truth values or texts.
pub open spec fn rows_from(rows: Seq<JsonValue>, from: nat) -> Result<
    Seq<Seq<DataValue>>,
    DataErrorModel,
>
    decreases rows.len() - from,
{
    if from >= rows.len() {
        Ok(Seq::empty())
    } else {
        match rows[from as int] {
            JsonValue::Array(inner) => match scalars_from(inner@, 0) {
                Err(e) => Err(e),
                Ok(values) => match rows_from(rows, from + 1) {
                    Err(e) => Err(e),
                    Ok(rest) => Ok(seq![values] + rest),
                },
            },
            _ => Err(DataErrorModel::RetrievalError("expected array for 2D array row"@)),
        }
    }
}

/// The number, truth value or text that a JSON value stands for.
pub fn value_to_data_value(value: &JsonValue) -> (r: Result<DataValue, DataError>)
    ensures
        match r {
            Ok(v) => scalar_of(*value) == Ok::<DataValue, DataErrorModel>(v),
            Err(e) => scalar_of(*value) == Err::<DataValue, DataErrorModel>(e.model()),
        },
{
    match value {
        JsonValue::Bool(b) => Ok(DataValue::Bool(*b)),
        JsonValue::PosInt(n) => Ok(DataValue::U64(*n)),
        JsonValue::NegInt(n) => Ok(DataValue::I64(*n)),
        JsonValue::Float(b) => Ok(DataValue::F64(*b)),
        JsonValue::Text { text, numbers } => Ok(DataValue::Str(text.clone())),
        _ => Err(DataError::retrieval("expected scalar value")),
    }
}

/// What the values of an array stand for: see `scalars_from`.
pub fn values_to_data_values(values: &Vec<JsonValue>) -> (r: Result<Vec<DataValue>, DataError>)
    ensures
        match r {
            Ok(out) => scalars_from(values@, 0) == Ok::<Seq<DataValue>, DataErrorModel>(out@),
            Err(e) => scalars_from(values@, 0) == Err::<Seq<DataValue>, DataErrorModel>(
                e.model(),
            ),
        },
{
    let mut out: Vec<DataValue> = Vec::new();
    let mut i: usize = 0;
    proof {
        assert(out@ + Seq::<DataValue>::empty() =~= out@);
    }
    while i < values.len()
        invariant
            i <= values.len(),
            scalars_from(values@, 0) == (match scalars_from(values@, i as nat) {
                Ok(rest) => Ok::<Seq<DataValue>, DataErrorModel>(out@ + rest),
                Err(e) => Err::<Seq<DataValue>, DataErrorModel>(e),
            }),
        decreases values.len() - i,
    {
        let ghost before = out@;
        match value_to_data_value(&values[i]) {
            Err(e) => {
                return Err(e);
            },
            Ok(v) => {
                out.push(v);
                proof {
                    match scalars_from(values@, (i + 1) as nat) {
                        Ok(rest) => {
                            assert(before + (seq![v] + rest) =~= out@ + rest);
                        },
                        Err(_) => {},
                    }
                }
            },
        }
        i = i + 1;
    }
    proof {
        assert(out@ + Seq::<DataValue>::empty() =~= out@);
    }
    Ok(out)
}

/// What the rows of a table stand for: see `rows_from`.
pub fn rows_to_data_values(rows: &Vec<JsonValue>) -> (r: Result<Vec<Vec<DataValue>>, DataError>)
    ensures
        match r {
            Ok(out) => rows_from(rows@, 0) == Ok::<Seq<Seq<DataValue>>, DataErrorModel>(
                table_model(out@),
            ),
            Err(e) => rows_from(rows@, 0) == Err::<Seq<Seq<DataValue>>, DataErrorModel>(
                e.model(),
            ),
        },
{
    let mut out: Vec<Vec<DataValue>> = Vec::new();
    let mut i: usize = 0;
    proof {
        assert(table_model(out@) + Seq::<Seq<DataValue>>::empty() =~= table_model(out@));
    }
    while i < rows.len()
        invariant
            i <= rows.len(),
            rows_from(rows@, 0) == (match rows_from(rows@, i as nat) {
                Ok(rest) => Ok::<Seq<Seq<DataValue>>, DataErrorModel>(table_model(out@) + rest),
                Err(e) => Err::<Seq<Seq<DataValue>>, DataErrorModel>(e),
            }),
        decreases rows.len() - i,
    {
        let ghost before = table_model(out@);
        let values = match &rows[i] {
            JsonValue::Array(inner) => match values_to_data_values(inner) {
                Ok(v) => v,
                Err(e) => {
                    return Err(e);
                },
            },
            _ => {
                return Err(DataError::retrieval("expected array for 2D array row"));
            },
        };
        let ghost content = values@;
        out.push(values);
        proof {
            assert(table_model(out@) =~= before.push(content));
            match rows_from(rows@, (i + 1) as nat) {
                Ok(rest) => {
                    assert(before + (seq![content] + rest) =~= table_model(out@) + rest);
                },
                Err(_) => {},
            }
        }
        i = i + 1;
    }
    proof {
        assert(table_model(out@) + Seq::<Seq<DataValue>>::empty() =~= table_model(out@));
    }
    Ok(out)
}

/// A data source of JSON objects, one for each version, in the order of
/// their priority.
#[derive(Debug)]
pub struct JsonDataSource {
    pub version_columns: Vec<Vec<(String, JsonValue)>>,
}

/// Values from a Postgres database: the JSON object that the query gives
/// for each version.
pub type PostgresDataSource = JsonDataSource;

/// Values from a REST service: the JSON object that it answers for each
/// version.
pub type RestDataSource = JsonDataSource;

/// The value of `name` in the first of the columns from `from` on that
/// has one other than null.
pub open spec fn looked_up(columns: Seq<Vec<(String, JsonValue)>>, name: Seq<char>, from: nat) -> Option<
    JsonValue,
>
    decreases columns.len() - from,
{
    if from >= columns.len() {
        None
    } else {
        match member(columns[from as int]@, name) {
            Some(value) => if value is Null {
                looked_up(columns, name, from + 1)
            } else {
                Some(value)
            },
            None => looked_up(columns, name, from + 1),
        }
    }
}

impl JsonDataSource {
    /// The value of `name`: that of the first version, in the order of
    /// priority, that has one other than null.
    pub open spec fn found(self, name: Seq<char>) -> Result<JsonValue, DataErrorModel> {
        match looked_up(self.version_columns@, name, 0) {
            Some(value) => Ok(value),
            None => Err(DataErrorModel::RetrievalError("key not found in any version"@)),
        }
    }

    /// The single value of `name`: a number or a truth value.
    pub open spec fn single_of(self, name: Seq<char>) -> Result<DataValue, DataErrorModel> {
        match self.found(name) {
            Err(e) => Err(wrapped(name, e)),
            Ok(value) => match scalar_of(value) {
                Err(e) => Err(wrapped(name, e)),
                Ok(DataValue::Str(_)) => Err(refused(name, "Found non-numeric single value"@)),
                Ok(v) => Ok(v),
            },
        }
    }

    /// The list or text of `name`: the values of an array; the numbers
    /// that a text lists, where it lists any; and else the text.
    pub open spec fn list_of(self, name: Seq<char>) -> Result<ListModel, DataErrorModel> {
        match self.found(name) {
            Err(e) => Err(wrapped(name, e)),
            Ok(JsonValue::Array(items)) => match scalars_from(items@, 0) {
                Err(e) => Err(wrapped(name, e)),
                Ok(values) => Ok(ListModel::Array(values)),
            },
            Ok(JsonValue::Text { text, numbers }) => match numbers {
                Some(list) => if list@.len() > 0 {
                    Ok(ListModel::Array(list@))
                } else {
                    Ok(ListModel::Single(DataValue::Str(text)))
                },
                None => Ok(ListModel::Single(DataValue::Str(text))),
            },
            Ok(_) => Err(refused(name, "expected array or string for 1D array"@)),
        }
    }

    /// The table of `name`: the rows of an array of arrays.
    pub open spec fn table_of(self, name: Seq<char>) -> Result<Seq<Seq<DataValue>>, DataErrorModel> {
        match self.found(name) {
            Err(e) => Err(wrapped(name, e)),
            Ok(JsonValue::Array(rows)) => match rows_from(rows@, 0) {
                Err(e) => Err(wrapped(name, e)),
                Ok(table) => Ok(table),
            },
            Ok(_) => Err(refused(name, "expected 2D array (array of arrays)"@)),
        }
    }

    /// The value of `name`: see `found`.
    pub fn lookup(&self, name: &str) -> (r: Result<&JsonValue, DataError>)
        ensures
            match r {
                Ok(value) => self.found(name@) == Ok::<JsonValue, DataErrorModel>(*value),
                Err(e) => self.found(name@) == Err::<JsonValue, DataErrorModel>(e.model()),
            },
    {
        let wanted = String::from_str(name);
        let mut c: usize = 0;
        while c < self.version_columns.len()
            invariant
                c <= self.version_columns.len(),
                wanted@ == name@,
                looked_up(self.version_columns@, name@, c as nat) == looked_up(
                    self.version_columns@,
                    name@,
                    0,
                ),
            decreases self.version_columns.len() - c,
        {
            match find_member(&self.version_columns[c], &wanted) {
                Some(value) => {
                    if !matches!(value, JsonValue::Null) {
                        return Ok(value);
                    }
                },
                None => {},
            }
            c = c + 1;
        }
        Err(DataError::retrieval("key not found in any version"))
    }

    fn single_value(&self, name: &str) -> (r: Result<DataValue, DataError>)
        ensures
            match r {
                Ok(v) => self.single_of(name@) == Ok::<DataValue, DataErrorModel>(v),
                Err(e) => self.single_of(name@) == Err::<DataValue, DataErrorModel>(e.model()),
            },
    {
        let value = match self.lookup(name) {
            Ok(v) => v,
            Err(e) => {
                return Err(DataError::while_retrieving(name, e));
            },
        };
        match value_to_data_value(value) {
            Err(e) => Err(DataError::while_retrieving(name, e)),
            Ok(DataValue::Str(_)) => Err(
                DataError::while_retrieving(
                    name,
                    DataError::retrieval("Found non-numeric single value"),
                ),
            ),
            Ok(v) => Ok(v),
        }
    }

    fn list(&self, name: &str) -> (r: Result<ValueSource, DataError>)
        ensures
            match r {
                Ok(v) => self.list_of(name@) == Ok::<ListModel, DataErrorModel>(list_model(v)),
                Err(e) => self.list_of(name@) == Err::<ListModel, DataErrorModel>(e.model()),
            },
    {
        let value = match self.lookup(name) {
            Ok(v) => v,
            Err(e) => {
                return Err(DataError::while_retrieving(name, e));
            },
        };
        match value {
            JsonValue::Array(items) => match values_to_data_values(items) {
                Ok(values) => Ok(ValueSource::Array(values)),
                Err(e) => Err(DataError::while_retrieving(name, e)),
            },
            JsonValue::Text { text, numbers } => match numbers {
                Some(list) => if list.len() > 0 {
                    Ok(ValueSource::Array(copy_values(list)))
                } else {
                    Ok(ValueSource::Single(DataValue::Str(text.clone())))
                },
                None => Ok(ValueSource::Single(DataValue::Str(text.clone()))),
            },
            _ => Err(
                DataError::while_retrieving(
                    name,
                    DataError::retrieval("expected array or string for 1D array"),
                ),
            ),
        }
    }

    fn table(&self, name: &str) -> (r: Result<Vec<Vec<DataValue>>, DataError>)
        ensures
            match r {
                Ok(rows) => self.table_of(name@) == Ok::<Seq<Seq<DataValue>>, DataErrorModel>(
                    table_model(rows@),
                ),
                Err(e) => self.table_of(name@) == Err::<Seq<Seq<DataValue>>, DataErrorModel>(
                    e.model(),
                ),
            },
    {
        let value = match self.lookup(name) {
            Ok(v) => v,
            Err(e) => {
                return Err(DataError::while_retrieving(name, e));
            },
        };
        match value {
            JsonValue::Array(rows) => match rows_to_data_values(rows) {
                Ok(table) => Ok(table),
                Err(e) => Err(DataError::while_retrieving(name, e)),
            },
            _ => Err(
                DataError::while_retrieving(
                    name,
                    DataError::retrieval("expected 2D array (array of arrays)"),
                ),
            ),
        }
    }
}

/// The text of the error for a version whose data cannot be reached.
pub open spec fn unreachable_text(version: Seq<char>, key: Seq<char>) -> Seq<char> {
    "failed to extract nested data for version '"@ + version + "': "@ + "Retrieval error: "@
        + "nested key '"@ + key + "' not found in response"@ + "."@
}

/// The text of the error for a version whose data is no object.
pub open spec fn no_object_text(version: Seq<char>) -> Seq<char> {
    "expected object at data_path for version '"@ + version + "'"@
}

/// The text of the error for a version that the data does not hold.
pub open spec fn no_version_text(version: Seq<char>) -> Seq<char> {
    "version '"@ + version + "' not found in JSON data"@
}

/// The names and values of one version in a response: the object at the
/// end of `path`.
pub fn version_column(response: &JsonValue, path: &[String], version: &str) -> (r: Result<
    Vec<(String, JsonValue)>,
    DataError,
>)
    ensures
        match nested(*response, path@, 0) {
            Err(key) => r is Err && r->Err_0.model() == DataErrorModel::RetrievalError(
                unreachable_text(version@, key@),
            ),
            Ok(JsonValue::Object(entries)) => r is Ok && entries_model(r->Ok_0@) == entries_model(
                entries@,
            ),
            Ok(_) => r is Err && r->Err_0.model() == DataErrorModel::RetrievalError(
                no_object_text(version@),
            ),
        },
{
    match extract_nested_value(response, path) {
        Err(e) => {
            let ghost key = nested(*response, path@, 0)->Err_0@;
            let mut text = String::from_str("failed to extract nested data for version '");
            text.append(version);
            text.append("': ");
            let inner = e.message();
            text.append(inner.as_str());
            proof {
                assert(e is RetrievalError);
                assert(e.message_text() =~= "Retrieval error: "@ + "nested key '"@ + key
                    + "' not found in response"@ + "."@);
                assert(text@ =~= unreachable_text(version@, key));
            }
            Err(DataError::RetrievalError(text))
        },
        Ok(JsonValue::Object(entries)) => Ok(copy_entries(entries)),
        Ok(_) => {
            let mut text = String::from_str("expected object at data_path for version '");
            text.append(version);
            text.append("'");
            Err(DataError::RetrievalError(text))
        },
    }
}

/// What a GraphQL response carries.
pub enum Payload<'a> {
    /// The value under `data`.
    Data(&'a JsonValue),
    /// The value under `errors`.
    Errors(&'a JsonValue),
    /// Neither.
    Nothing,
}

/// What a GraphQL response carries: its errors where it has any, and else
/// its data.
pub fn graphql_payload<'a>(response: &'a JsonValue) -> (r: Payload<'a>)
    ensures
        match response {
            JsonValue::Object(entries) => match member(entries@, "errors"@) {
                Some(errors) => r == Payload::Errors(&errors),
                None => match member(entries@, "data"@) {
                    Some(data) => r == Payload::Data(&data),
                    None => r is Nothing,
                },
            },
            _ => r is Nothing,
        },
{
    match response {
        JsonValue::Object(entries) => {
            match find_member(entries, &String::from_str("errors")) {
                Some(errors) => Payload::Errors(errors),
                None => match find_member(entries, &String::from_str("data")) {
                    Some(data) => Payload::Data(data),
                    None => Payload::Nothing,
                },
            }
        },
        _ => Payload::Nothing,
    }
}

/// What a result of `version_in` stands for: the content of a column, or
/// the text of a retrieval error.
pub open spec fn column_outcome(r: Result<Vec<(String, JsonValue)>, DataError>) -> Result<
    Seq<(Seq<char>, JsonModel)>,
    Seq<char>,
> {
    match r {
        Ok(column) => Ok(entries_model(column@)),
        Err(DataError::RetrievalError(text)) => Err(text@),
        Err(_) => Err(Seq::empty()),
    }
}

/// The names and values of `version` in data that holds one object for
/// each version.
pub open spec fn version_of(data: JsonValue, version: Seq<char>) -> Result<
    Seq<(Seq<char>, JsonModel)>,
    Seq<char>,
> {
    match data {
        JsonValue::Object(versions) => match member(versions@, version) {
            Some(JsonValue::Object(entries)) => Ok(entries_model(entries@)),
            Some(_) => Err(no_object_text(version)),
            None => Err(no_version_text(version)),
        },
        _ => Err(no_version_text(version)),
    }
}

/// The names and values of `version` in data that holds one object for
/// each version.
pub fn version_in(data: &JsonValue, version: &String) -> (r: Result<
    Vec<(String, JsonValue)>,
    DataError,
>)
    ensures
        r is Err ==> r->Err_0 is RetrievalError,
        column_outcome(r) == version_of(*data, version@),
{
    let found = match data {
        JsonValue::Object(versions) => find_member(versions, version),
        _ => None,
    };
    match found {
        Some(JsonValue::Object(entries)) => Ok(copy_entries(entries)),
        Some(_) => {
            let mut text = String::from_str("expected object at data_path for version '");
            text.append(version.as_str());
            text.append("'");
            Err(DataError::RetrievalError(text))
        },
        None => {
            let mut text = String::from_str("version '");
            text.append(version.as_str());
            text.append("' not found in JSON data");
            Err(DataError::RetrievalError(text))
        },
    }
}

/// The contents of the columns of a source.
pub open spec fn columns_model(columns: Seq<Vec<(String, JsonValue)>>) -> Seq<
    Seq<(Seq<char>, JsonModel)>,
> {
    Seq::new(columns.len(), |i: int| entries_model(columns[i]@))
}

/// The columns of the first `count` of `versions` in `data`, or the text
/// of the error of the first version that has none.
pub open spec fn versions_of(data: JsonValue, versions: Seq<String>, count: nat) -> Result<
    Seq<Seq<(Seq<char>, JsonModel)>>,
    Seq<char>,
>
    decreases count,
{
    if count == 0 || count > versions.len() {
        Ok(Seq::empty())
    } else {
        match versions_of(data, versions, (count - 1) as nat) {
            Err(e) => Err(e),
            Ok(columns) => match version_of(data, versions[count - 1]@) {
                Err(e) => Err(e),
                Ok(column) => Ok(columns.push(column)),
            },
        }
    }
}

/// Once a version has no column, the versions have none.
pub proof fn lemma_versions_error_stays(data: JsonValue, versions: Seq<String>, count: nat, more: nat)
    requires
        count <= more <= versions.len(),
        versions_of(data, versions, count) is Err,
    ensures
        versions_of(data, versions, more) == versions_of(data, versions, count),
    decreases more - count,
{
    if count < more {
        lemma_versions_error_stays(data, versions, count, (more - 1) as nat);
    }
}

impl JsonDataSource {
    /// The source of the given versions, in their order, from data that
    /// holds one object of names and values for each version.
    pub fn from_versions(data: &JsonValue, versions: &[String]) -> (r: Result<JsonDataSource, DataError>)
        ensures
            match r {
                Ok(source) => versions_of(*data, versions@, versions@.len()) == Ok::<
                    Seq<Seq<(Seq<char>, JsonModel)>>,
                    Seq<char>,
                >(columns_model(source.version_columns@)),
                Err(e) => e is RetrievalError && versions_of(*data, versions@, versions@.len())
                    == Err::<Seq<Seq<(Seq<char>, JsonModel)>>, Seq<char>>(e->RetrievalError_0@),
            },
    {
        let mut columns: Vec<Vec<(String, JsonValue)>> = Vec::new();
        let mut i: usize = 0;
        proof {
            assert(columns_model(columns@) =~= Seq::empty());
        }
        while i < versions.len()
            invariant
                i <= versions.len(),
                versions_of(*data, versions@, i as nat) == Ok::<
                    Seq<Seq<(Seq<char>, JsonModel)>>,
                    Seq<char>,
                >(columns_model(columns@)),
            decreases versions.len() - i,
        {
            let ghost before = columns_model(columns@);
            match version_in(data, &versions[i]) {
                Err(e) => {
                    proof {
                        lemma_versions_error_stays(
                            *data,
                            versions@,
                            (i + 1) as nat,
                            versions@.len(),
                        );
                    }
                    return Err(e);
                },
                Ok(column) => {
                    let ghost content = entries_model(column@);
                    columns.push(column);
                    proof {
                        assert(columns_model(columns@) =~= before.push(content));
                    }
                },
            }
            i = i + 1;
        }
        Ok(JsonDataSource { version_columns: columns })
    }
}

impl DataSource for JsonDataSource {
    /// The number or truth value of `name`: see `single_of`.
    fn retrieve_single_value(&self, name: &str) -> (r: Result<DataValue, DataError>)
        ensures
            match r {
                Ok(v) => self.single_of(name@) == Ok::<DataValue, DataErrorModel>(v),
                Err(e) => self.single_of(name@) == Err::<DataValue, DataErrorModel>(e.model()),
            },
    {
        self.single_value(name)
    }

    /// The list or text of `name`: see `list_of`.
    fn retrieve_1d_array_or_string(&self, name: &str) -> (r: Result<ValueSource, DataError>)
        ensures
            match r {
                Ok(v) => self.list_of(name@) == Ok::<ListModel, DataErrorModel>(list_model(v)),
                Err(e) => self.list_of(name@) == Err::<ListModel, DataErrorModel>(e.model()),
            },
    {
        self.list(name)
    }

    /// The table of `name`: see `table_of`.
    fn retrieve_2d_array(&self, name: &str) -> (r: Result<Vec<Vec<DataValue>>, DataError>)
        ensures
            match r {
                Ok(rows) => self.table_of(name@) == Ok::<Seq<Seq<DataValue>>, DataErrorModel>(
                    table_model(rows@),
                ),
                Err(e) => self.table_of(name@) == Err::<Seq<Seq<DataValue>>, DataErrorModel>(
                    e.model(),
                ),
            },
    {
        self.table(name)
    }
}

} // verus!
