use vstd::prelude::*;
use super::conversions::f64_is_finite;
use super::conversions::decode_f64;
use super::errors::{ExportFailure, LayoutError};
use super::value::DataValue;

verus! {

/// A value as it is exported: a number, a text, a list, or a group of named
/// values.
#[derive(Debug)]
pub enum ExportValue {
    /// An integer that is not negative.
    PosInt(u64),
    /// A negative integer.
    NegInt(i64),
    /// A finite binary64 number, as its bit pattern.
    Float(u64),
    Text(String),
    List(Vec<ExportValue>),
    Group(Vec<(String, ExportValue)>),
}

/// The mathematical content of an `ExportValue`.
pub enum ExportModel {
    PosInt(u64),
    NegInt(i64),
    Float(u64),
    Text(Seq<char>),
    List(Seq<ExportModel>),
    Group(Seq<(Seq<char>, ExportModel)>),
}

impl ExportValue {
    /// The content of the value.
    pub open spec fn model(self) -> ExportModel
        decreases self, 1nat, 0nat,
    {
        match self {
            ExportValue::PosInt(n) => ExportModel::PosInt(n),
            ExportValue::NegInt(n) => ExportModel::NegInt(n),
            ExportValue::Float(b) => ExportModel::Float(b),
            ExportValue::Text(s) => ExportModel::Text(s@),
            ExportValue::List(items) => ExportModel::List(self.first_items(items@.len())),
            ExportValue::Group(entries) => ExportModel::Group(self.first_entries(entries@.len())),
        }
    }

    /// The content of the first `count` items of a list.
    pub open spec fn first_items(self, count: nat) -> Seq<ExportModel>
        decreases self, 0nat, count,
    {
        if self is List && 0 < count <= self->List_0@.len() {
            self.first_items((count - 1) as nat).push(self->List_0@[count - 1].model())
        } else {
            Seq::empty()
        }
    }

    /// The content of the first `count` entries of a group.
    pub open spec fn first_entries(self, count: nat) -> Seq<(Seq<char>, ExportModel)>
        decreases self, 0nat, count,
    {
        if self is Group && 0 < count <= self->Group_0@.len() {
            self.first_entries((count - 1) as nat).push(
                (self->Group_0@[count - 1].0@, self->Group_0@[count - 1].1.model()),
            )
        } else {
            Seq::empty()
        }
    }
}

impl View for ExportValue {
    type V = ExportModel;

    open spec fn view(&self) -> ExportModel {
        self.model()
    }
}

/// The content of a list of exported values.
pub open spec fn list_model(items: Seq<ExportValue>) -> Seq<ExportModel> {
    Seq::new(items.len(), |i: int| items[i]@)
}

/// The content of a group's entries.
pub open spec fn group_model(entries: Seq<(String, ExportValue)>) -> Seq<(Seq<char>, ExportModel)> {
    Seq::new(entries.len(), |i: int| (entries[i].0@, entries[i].1@))
}

/// The names along a path.
pub open spec fn path_model(path: Seq<String>) -> Seq<Seq<char>> {
    Seq::new(path.len(), |i: int| path[i]@)
}

proof fn lemma_first_items(value: ExportValue, count: nat)
    requires
        value is List,
        count <= value->List_0@.len(),
    ensures
        value.first_items(count) == list_model(value->List_0@.take(count as int)),
    decreases count,
{
    let items = value->List_0@;
    if count > 0 {
        lemma_first_items(value, (count - 1) as nat);
        assert(list_model(items.take(count - 1)).push(items[count - 1]@) =~= list_model(
            items.take(count as int),
        ));
    } else {
        assert(list_model(items.take(0)) =~= Seq::empty());
    }
}

proof fn lemma_first_entries(value: ExportValue, count: nat)
    requires
        value is Group,
        count <= value->Group_0@.len(),
    ensures
        value.first_entries(count) == group_model(value->Group_0@.take(count as int)),
    decreases count,
{
    let entries = value->Group_0@;
    if count > 0 {
        lemma_first_entries(value, (count - 1) as nat);
        assert(group_model(entries.take(count - 1)).push(
            (entries[count - 1].0@, entries[count - 1].1@),
        ) =~= group_model(entries.take(count as int)));
    } else {
        assert(group_model(entries.take(0)) =~= Seq::empty());
    }
}

/// A list's content is the list of its items' contents.
pub proof fn lemma_view_of_list(items: Vec<ExportValue>)
    ensures
        ExportValue::List(items)@ == ExportModel::List(list_model(items@)),
{
    lemma_first_items(ExportValue::List(items), items@.len());
    assert(items@.take(items@.len() as int) =~= items@);
}

/// A group's content is the list of its entries' names and contents.
pub proof fn lemma_view_of_group(entries: Vec<(String, ExportValue)>)
    ensures
        ExportValue::Group(entries)@ == ExportModel::Group(group_model(entries@)),
{
    lemma_first_entries(ExportValue::Group(entries), entries@.len());
    assert(entries@.take(entries@.len() as int) =~= entries@);
}

impl Clone for ExportValue {
    fn clone(&self) -> (r: Self)
        ensures
            r@ == self@,
    {
        self.duplicate()
    }
}

impl ExportValue {
    /// A copy of the value with the same content.
    #[verifier::rlimit(40)]
    pub fn duplicate(&self) -> (r: ExportValue)
        ensures
            r@ == self@,
        decreases self,
    {
        match self {
            ExportValue::PosInt(n) => ExportValue::PosInt(*n),
            ExportValue::NegInt(n) => ExportValue::NegInt(*n),
            ExportValue::Float(b) => ExportValue::Float(*b),
            ExportValue::Text(s) => ExportValue::Text(s.clone()),
            ExportValue::List(items) => {
                let mut copies: Vec<ExportValue> = Vec::new();
                let mut i: usize = 0;
                while i < items.len()
                    invariant
                        i <= items.len(),
                        *self == ExportValue::List(*items),
                        copies@.len() == i,
                        forall|j: int| 0 <= j < i ==> (#[trigger] copies@[j])@ == items@[j]@,
                    decreases items.len() - i,
                {
                    let item = &items[i];
                    proof {
                        assert(self->List_0 == *items);
                        assert(decreases_to!(*self => self->List_0@[i as int]));
                    }
                    copies.push(item.duplicate());
                    i = i + 1;
                }
                proof {
                    lemma_view_of_list(copies);
                    lemma_view_of_list(*items);
                    assert(list_model(copies@) =~= list_model(items@));
                }
                ExportValue::List(copies)
            },
            ExportValue::Group(entries) => {
                let mut copies: Vec<(String, ExportValue)> = Vec::new();
                let mut i: usize = 0;
                while i < entries.len()
                    invariant
                        i <= entries.len(),
                        *self == ExportValue::Group(*entries),
                        copies@.len() == i,
                        forall|j: int|
                            0 <= j < i ==> (#[trigger] copies@[j]).0@ == entries@[j].0@
                                && copies@[j].1@ == entries@[j].1@,
                    decreases entries.len() - i,
                {
                    let entry = &entries[i];
                    proof {
                        assert(self->Group_0 == *entries);
                        assert(decreases_to!(*self => self->Group_0@[i as int].1));
                    }
                    copies.push((entry.0.clone(), entry.1.duplicate()));
                    i = i + 1;
                }
                proof {
                    lemma_view_of_group(copies);
                    lemma_view_of_group(*entries);
                    assert(group_model(copies@) =~= group_model(entries@));
                }
                ExportValue::Group(copies)
            },
        }
    }
}

/// Records resolved values for export.
///
/// What a sink holds is described by its `model`; `model_record` says what
/// recording a value at a path makes of it, or why the value is refused.
pub trait ValueSink {
    /// The mathematical content of a sink.
    type Model;

    spec fn model(&self) -> Self::Model;

    /// The content after a value has been recorded, or the error with which
    /// it is refused.
    spec fn model_record(model: Self::Model, path: Seq<Seq<char>>, value: ExportModel) -> Result<
        Self::Model,
        LayoutError,
    >;

    /// Insert a value at the given path. A refused value leaves the sink as
    /// it was.
    fn record_value(&mut self, path: &[String], value: ExportValue) -> (r: Result<(), LayoutError>)
        ensures
            match r {
                Ok(()) => Self::model_record(old(self).model(), path_model(path@), value@) == Ok::<
                    Self::Model,
                    LayoutError,
                >(final(self).model()),
                Err(e) => Self::model_record(old(self).model(), path_model(path@), value@) == Err::<
                    Self::Model,
                    LayoutError,
                >(e) && final(self).model() == old(self).model(),
            },
    ;
}

/// No-op sink for builds that don't export values.
pub struct NoopValueSink;

impl ValueSink for NoopValueSink {
    type Model = ();

    open spec fn model(&self) -> () {
        ()
    }

    open spec fn model_record(model: (), path: Seq<Seq<char>>, value: ExportModel) -> Result<
        (),
        LayoutError,
    > {
        Ok(())
    }

    fn record_value(&mut self, path: &[String], value: ExportValue) -> (r: Result<(), LayoutError>) {
        Ok(())
    }
}

/// The place of the first entry called `key`, if there is one.
pub open spec fn index_of_key(entries: Seq<(Seq<char>, ExportModel)>, key: Seq<char>) -> Option<int>
    decreases entries.len(),
{
    if entries.len() == 0 {
        None
    } else if entries[0].0 == key {
        Some(0)
    } else {
        match index_of_key(entries.drop_first(), key) {
            Some(i) => Some(i + 1),
            None => None,
        }
    }
}

/// The entries of a group after `value` has been put at `path`.
///
/// The last name of the path must be new in its group; the names before it
/// lead through groups, which are made where they are missing. A path that
/// is empty, that ends at a name in use, or that leads through a value that
/// is no group is refused.
pub open spec fn insert_at(
    entries: Seq<(Seq<char>, ExportModel)>,
    path: Seq<Seq<char>>,
    value: ExportModel,
) -> Result<Seq<(Seq<char>, ExportModel)>, LayoutError>
    decreases path.len(),
{
    if path.len() == 0 {
        Err(LayoutError::DataValueExportFailed(ExportFailure::EmptyPath))
    } else if path.len() == 1 {
        if index_of_key(entries, path[0]) is Some {
            Err(LayoutError::DataValueExportFailed(ExportFailure::DuplicatePath))
        } else {
            Ok(entries.push((path[0], value)))
        }
    } else {
        match index_of_key(entries, path[0]) {
            None => match insert_at(Seq::empty(), path.drop_first(), value) {
                Ok(child) => Ok(entries.push((path[0], ExportModel::Group(child)))),
                Err(e) => Err(e),
            },
            Some(i) => match entries[i].1 {
                ExportModel::Group(child) => match insert_at(child, path.drop_first(), value) {
                    Ok(changed) => Ok(entries.update(i, (path[0], ExportModel::Group(changed)))),
                    Err(e) => Err(e),
                },
                _ => Err(LayoutError::DataValueExportFailed(ExportFailure::PathCollision)),
            },
        }
    }
}

pub proof fn lemma_index_of_key(entries: Seq<(Seq<char>, ExportModel)>, key: Seq<char>)
    ensures
        match index_of_key(entries, key) {
            Some(i) => 0 <= i < entries.len() && entries[i].0 == key && forall|j: int|
                0 <= j < i ==> entries[j].0 != key,
            None => forall|j: int| 0 <= j < entries.len() ==> entries[j].0 != key,
        },
    decreases entries.len(),
{
    if entries.len() > 0 && entries[0].0 != key {
        lemma_index_of_key(entries.drop_first(), key);
        match index_of_key(entries.drop_first(), key) {
            Some(i) => {
                assert forall|j: int| 0 <= j < i + 1 implies entries[j].0 != key by {
                    if j > 0 {
                        assert(entries.drop_first()[j - 1].0 != key);
                    }
                }
            },
            None => {
                assert forall|j: int| 0 <= j < entries.len() implies entries[j].0 != key by {
                    if j > 0 {
                        assert(entries.drop_first()[j - 1].0 != key);
                    }
                }
            },
        }
    }
}

/// The place of the first entry called `key`.
fn find_entry(entries: &Vec<(String, ExportValue)>, key: &String) -> (r: Option<usize>)
    ensures
        match r {
            Some(i) => index_of_key(group_model(entries@), key@) == Some(i as int) && i
                < entries.len(),
            None => index_of_key(group_model(entries@), key@) is None,
        },
{
    let mut i: usize = 0;
    while i < entries.len()
        invariant
            i <= entries.len(),
            forall|j: int| 0 <= j < i ==> group_model(entries@)[j].0 != key@,
        decreases entries.len() - i,
    {
        if entries[i].0 == *key {
            proof {
                lemma_index_of_key(group_model(entries@), key@);
                assert(group_model(entries@)[i as int].0 == key@);
            }
            return Some(i);
        }
        i = i + 1;
    }
    proof {
        lemma_index_of_key(group_model(entries@), key@);
    }
    None
}

/// Puts `value` at the path `path[from..]` below `entries`: see `insert_at`.
#[verifier::rlimit(40)]
pub fn insert_value(
    entries: &mut Vec<(String, ExportValue)>,
    path: &[String],
    from: usize,
    value: ExportValue,
) -> (r: Result<(), LayoutError>)
    requires
        from <= path.len(),
    ensures
        match r {
            Ok(()) => insert_at(
                group_model(old(entries)@),
                path_model(path@).skip(from as int),
                value@,
            ) == Ok::<Seq<(Seq<char>, ExportModel)>, LayoutError>(group_model(final(entries)@)),
            Err(e) => insert_at(
                group_model(old(entries)@),
                path_model(path@).skip(from as int),
                value@,
            ) == Err::<Seq<(Seq<char>, ExportModel)>, LayoutError>(e) && group_model(
                final(entries)@,
            ) == group_model(old(entries)@),
        },
    decreases path.len() - from,
{
    let ghost names = path_model(path@).skip(from as int);
    let ghost before = group_model(entries@);
    if from >= path.len() {
        return Err(LayoutError::DataValueExportFailed(ExportFailure::EmptyPath));
    }
    let key = &path[from];
    assert(names[0] == key@);
    assert(names.drop_first() =~= path_model(path@).skip(from + 1));
    let found = find_entry(entries, key);
    proof {
        lemma_index_of_key(before, key@);
    }
    if from + 1 == path.len() {
        if found.is_some() {
            return Err(LayoutError::DataValueExportFailed(ExportFailure::DuplicatePath));
        }
        entries.push((key.clone(), value));
        proof {
            assert(group_model(entries@) =~= before.push((key@, value@)));
        }
        return Ok(());
    }
    match found {
        None => {
            let mut child: Vec<(String, ExportValue)> = Vec::new();
            proof {
                assert(group_model(child@) =~= Seq::empty());
            }
            let r = insert_value(&mut child, path, from + 1, value);
            match r {
                Ok(()) => {
                    proof {
                        lemma_view_of_group(child);
                    }
                    entries.push((key.clone(), ExportValue::Group(child)));
                    proof {
                        assert(group_model(entries@) =~= before.push(
                            (key@, ExportModel::Group(group_model(child@))),
                        ));
                    }
                    Ok(())
                },
                Err(e) => Err(e),
            }
        },
        Some(i) => {
            let (name, node) = entries.remove(i);
            match node {
                ExportValue::Group(mut child) => {
                    proof {
                        lemma_view_of_group(child);
                    }
                    let ghost child_before = group_model(child@);
                    let r = insert_value(&mut child, path, from + 1, value);
                    proof {
                        lemma_view_of_group(child);
                    }
                    entries.insert(i, (name, ExportValue::Group(child)));
                    proof {
                        match r {
                            Ok(()) => {
                                assert(group_model(entries@) =~= before.update(
                                    i as int,
                                    (key@, ExportModel::Group(group_model(child@))),
                                ));
                            },
                            Err(_) => {
                                assert(group_model(entries@) =~= before);
                            },
                        }
                    }
                    r
                },
                other => {
                    let ghost content = other@;
                    entries.insert(i, (name, other));
                    proof {
                        assert(group_model(entries@) =~= before);
                    }
                    Err(LayoutError::DataValueExportFailed(ExportFailure::PathCollision))
                },
            }
        },
    }
}

/// Collects used values into a tree of named groups.
#[derive(Debug)]
pub struct ValueCollector {
    pub root: Vec<(String, ExportValue)>,
}

impl ValueCollector {
    /// Create an empty collector.
    pub fn new() -> (r: Self)
        ensures
            r.model() == Seq::<(Seq<char>, ExportModel)>::empty(),
    {
        let r = ValueCollector { root: Vec::new() };
        proof {
            assert(group_model(r.root@) =~= Seq::empty());
        }
        r
    }

    /// Convert the collected values into one group.
    pub fn into_value(self) -> (r: ExportValue)
        ensures
            r@ == ExportModel::Group(self.model()),
    {
        proof {
            lemma_view_of_group(self.root);
        }
        ExportValue::Group(self.root)
    }
}

impl ValueSink for ValueCollector {
    type Model = Seq<(Seq<char>, ExportModel)>;

    open spec fn model(&self) -> Seq<(Seq<char>, ExportModel)> {
        group_model(self.root@)
    }

    open spec fn model_record(
        model: Seq<(Seq<char>, ExportModel)>,
        path: Seq<Seq<char>>,
        value: ExportModel,
    ) -> Result<Seq<(Seq<char>, ExportModel)>, LayoutError> {
        insert_at(model, path, value)
    }

    fn record_value(&mut self, path: &[String], value: ExportValue) -> (r: Result<(), LayoutError>) {
        proof {
            assert(path_model(path@).skip(0) =~= path_model(path@));
        }
        insert_value(&mut self.root, path, 0, value)
    }
}

/// What is exported for a value: numbers as numbers, a truth value as one
/// or zero, a string as text. A NaN or an infinity cannot be exported.
pub open spec fn export_of(value: DataValue) -> Result<ExportModel, LayoutError> {
    match value {
        DataValue::Bool(b) => Ok(
            ExportModel::PosInt(
                if b {
                    1
                } else {
                    0
                },
            ),
        ),
        DataValue::U64(n) => Ok(ExportModel::PosInt(n)),
        DataValue::I64(n) => if n >= 0 {
            Ok(ExportModel::PosInt(n as u64))
        } else {
            Ok(ExportModel::NegInt(n))
        },
        DataValue::F64(bits) => if f64_is_finite(bits) {
            Ok(ExportModel::Float(bits))
        } else {
            Err(LayoutError::DataValueExportFailed(ExportFailure::NonFiniteExport))
        },
        DataValue::Str(s) => Ok(ExportModel::Text(s@)),
    }
}

/// What is exported for an integer: the integer, where it lies between the
/// least `i64` and the greatest `u64`.
pub open spec fn export_of_integer(value: int) -> Result<ExportModel, LayoutError> {
    if 0 <= value <= u64::MAX {
        Ok(ExportModel::PosInt(value as u64))
    } else if i64::MIN <= value < 0 {
        Ok(ExportModel::NegInt(value as i64))
    } else {
        Err(LayoutError::DataValueExportFailed(ExportFailure::ExportOutOfRange))
    }
}

/// What is exported for the first `count` of `values`: their exports in
/// order, or the error of the first that has none.
pub open spec fn export_of_first(values: Seq<DataValue>, count: nat) -> Result<
    Seq<ExportModel>,
    LayoutError,
>
    decreases count,
{
    if count == 0 || count > values.len() {
        Ok(Seq::empty())
    } else {
        match export_of_first(values, (count - 1) as nat) {
            Err(e) => Err(e),
            Ok(done) => match export_of(values[count - 1]) {
                Err(e) => Err(e),
                Ok(v) => Ok(done.push(v)),
            },
        }
    }
}

/// What is exported for a list of values: the list of their exports.
pub open spec fn export_of_list(values: Seq<DataValue>) -> Result<ExportModel, LayoutError> {
    match export_of_first(values, values.len()) {
        Ok(items) => Ok(ExportModel::List(items)),
        Err(e) => Err(e),
    }
}

/// What is exported for the first `count` rows of a table.
pub open spec fn export_of_rows(rows: Seq<Vec<DataValue>>, count: nat) -> Result<
    Seq<ExportModel>,
    LayoutError,
>
    decreases count,
{
    if count == 0 || count > rows.len() {
        Ok(Seq::empty())
    } else {
        match export_of_rows(rows, (count - 1) as nat) {
            Err(e) => Err(e),
            Ok(done) => match export_of_list(rows[count - 1]@) {
                Err(e) => Err(e),
                Ok(v) => Ok(done.push(v)),
            },
        }
    }
}

/// What is exported for a table: the list of its rows' exports.
pub open spec fn export_of_table(rows: Seq<Vec<DataValue>>) -> Result<ExportModel, LayoutError> {
    match export_of_rows(rows, rows.len()) {
        Ok(items) => Ok(ExportModel::List(items)),
        Err(e) => Err(e),
    }
}

/// The exported form of a value.
pub fn data_value_to_json(value: &DataValue) -> (r: Result<ExportValue, LayoutError>)
    ensures
        match r {
            Ok(v) => export_of(*value) == Ok::<ExportModel, LayoutError>(v@),
            Err(e) => export_of(*value) == Err::<ExportModel, LayoutError>(e),
        },
{
    match value {
        DataValue::Bool(v) => Ok(
            ExportValue::PosInt(
                if *v {
                    1
                } else {
                    0
                },
            ),
        ),
        DataValue::U64(v) => Ok(ExportValue::PosInt(*v)),
        DataValue::I64(v) => if *v >= 0 {
            Ok(ExportValue::PosInt(*v as u64))
        } else {
            Ok(ExportValue::NegInt(*v))
        },
        DataValue::F64(v) => {
            let parts = decode_f64(*v);
            if parts.exponent_field != 2047 {
                Ok(ExportValue::Float(*v))
            } else {
                Err(LayoutError::DataValueExportFailed(ExportFailure::NonFiniteExport))
            }
        },
        DataValue::Str(v) => Ok(ExportValue::Text(v.clone())),
    }
}

/// The exported form of an integer.
pub fn i128_to_json(value: i128) -> (r: Result<ExportValue, LayoutError>)
    ensures
        match r {
            Ok(v) => export_of_integer(value as int) == Ok::<ExportModel, LayoutError>(v@),
            Err(e) => export_of_integer(value as int) == Err::<ExportModel, LayoutError>(e),
        },
{
    if value >= 0 {
        if value <= 0xFFFF_FFFF_FFFF_FFFF {
            Ok(ExportValue::PosInt(value as u64))
        } else {
            Err(LayoutError::DataValueExportFailed(ExportFailure::ExportOutOfRange))
        }
    } else if value >= -0x8000_0000_0000_0000 {
        Ok(ExportValue::NegInt(value as i64))
    } else {
        Err(LayoutError::DataValueExportFailed(ExportFailure::ExportOutOfRange))
    }
}

/// The exported form of a list of values.
pub fn array_to_json(values: &[DataValue]) -> (r: Result<ExportValue, LayoutError>)
    ensures
        match r {
            Ok(v) => export_of_list(values@) == Ok::<ExportModel, LayoutError>(v@),
            Err(e) => export_of_list(values@) == Err::<ExportModel, LayoutError>(e),
        },
{
    let mut out: Vec<ExportValue> = Vec::new();
    let mut i: usize = 0;
    proof {
        assert(list_model(out@) =~= Seq::empty());
    }
    while i < values.len()
        invariant
            i <= values.len(),
            export_of_first(values@, i as nat) == Ok::<Seq<ExportModel>, LayoutError>(
                list_model(out@),
            ),
        decreases values.len() - i,
    {
        let ghost done = list_model(out@);
        match data_value_to_json(&values[i]) {
            Err(e) => {
                proof {
                    lemma_export_error_stays(values@, (i + 1) as nat, values@.len());
                }
                return Err(e);
            },
            Ok(v) => {
                out.push(v);
                proof {
                    assert(list_model(out@) =~= done.push(v@));
                }
            },
        }
        i = i + 1;
    }
    proof {
        lemma_view_of_list(out);
    }
    Ok(ExportValue::List(out))
}

/// Once a value has no export, no longer prefix has one.
pub proof fn lemma_export_error_stays(values: Seq<DataValue>, count: nat, more: nat)
    requires
        count <= more <= values.len(),
        export_of_first(values, count) is Err,
    ensures
        export_of_first(values, more) == export_of_first(values, count),
    decreases more - count,
{
    if count < more {
        lemma_export_error_stays(values, count, (more - 1) as nat);
    }
}

/// Once a row has no export, no longer prefix of the table has one.
pub proof fn lemma_export_rows_error_stays(rows: Seq<Vec<DataValue>>, count: nat, more: nat)
    requires
        count <= more <= rows.len(),
        export_of_rows(rows, count) is Err,
    ensures
        export_of_rows(rows, more) == export_of_rows(rows, count),
    decreases more - count,
{
    if count < more {
        lemma_export_rows_error_stays(rows, count, (more - 1) as nat);
    }
}

/// The exported form of a table of values.
pub fn array_2d_to_json(values: &[Vec<DataValue>]) -> (r: Result<ExportValue, LayoutError>)
    ensures
        match r {
            Ok(v) => export_of_table(values@) == Ok::<ExportModel, LayoutError>(v@),
            Err(e) => export_of_table(values@) == Err::<ExportModel, LayoutError>(e),
        },
{
    let mut out: Vec<ExportValue> = Vec::new();
    let mut i: usize = 0;
    proof {
        assert(list_model(out@) =~= Seq::empty());
    }
    while i < values.len()
        invariant
            i <= values.len(),
            export_of_rows(values@, i as nat) == Ok::<Seq<ExportModel>, LayoutError>(
                list_model(out@),
            ),
        decreases values.len() - i,
    {
        let ghost done = list_model(out@);
        match array_to_json(values[i].as_slice()) {
            Err(e) => {
                proof {
                    lemma_export_rows_error_stays(values@, (i + 1) as nat, values@.len());
                }
                return Err(e);
            },
            Ok(v) => {
                out.push(v);
                proof {
                    assert(list_model(out@) =~= done.push(v@));
                }
            },
        }
        i = i + 1;
    }
    proof {
        lemma_view_of_list(out);
    }
    Ok(ExportValue::List(out))
}

} // verus!
