use vstd::prelude::*;
use vstd::arithmetic::power2::{pow2, lemma_pow2_pos, lemma_pow2_adds, lemma_pow2_strictly_increases};
use vstd::string::StringExecFns;
use crate::data::errors::DataError;
use crate::data::DataSource;
use super::block::BuildConfig;
use super::conversions::{
    bitfield_max, bitfield_min, bitfield_number, bitfield_pattern, clamp_bitfield,
    clamp_bitfield_value, field_pattern, lemma_pow2_127, power_of_two, saturate,
};
use super::errors::{ExportFailure, LayoutError, MissingData};
use super::settings::{endian_bytes, encode_pattern, radix, Endianness};
use super::text::{decimal_text, push_decimal};
use super::used_values::{
    array_2d_to_json, array_to_json, data_value_to_json, export_of, export_of_integer,
    export_of_list, export_of_table, i128_to_json, path_model, ExportModel, ExportValue,
    ValueSink,
};
use super::value::{DataValue, ValueSource};

verus! {

/// Scalar type of a leaf entry.
#[derive(Debug, Clone, Copy, PartialEq, Eq, Structural)]
pub enum ScalarType {
    U8,
    U16,
    U32,
    U64,
    I8,
    I16,
    I32,
    I64,
    F32,
    F64,
}

impl ScalarType {
    /// Width of the type in bytes.
    pub open spec fn spec_size_bytes(self) -> nat {
        match self {
            ScalarType::U8 | ScalarType::I8 => 1,
            ScalarType::U16 | ScalarType::I16 => 2,
            ScalarType::U32 | ScalarType::I32 | ScalarType::F32 => 4,
            ScalarType::U64 | ScalarType::I64 | ScalarType::F64 => 8,
        }
    }

    pub open spec fn spec_is_integer(self) -> bool {
        !(self is F32 || self is F64)
    }

    pub open spec fn spec_is_signed(self) -> bool {
        self is I8 || self is I16 || self is I32 || self is I64
    }

    /// The least value of an integer type.
    pub open spec fn min_value(self) -> int {
        if self.spec_is_signed() {
            -(radix(self.spec_size_bytes()) as int / 2)
        } else {
            0
        }
    }

    /// The greatest value of an integer type.
    pub open spec fn max_value(self) -> int {
        if self.spec_is_signed() {
            radix(self.spec_size_bytes()) as int / 2 - 1
        } else {
            radix(self.spec_size_bytes()) as int - 1
        }
    }

    /// Returns the size of the scalar type in bytes.
    pub fn size_bytes(&self) -> (n: usize)
        ensures
            n == self.spec_size_bytes(),
    {
        match self {
            ScalarType::U8 | ScalarType::I8 => 1,
            ScalarType::U16 | ScalarType::I16 => 2,
            ScalarType::U32 | ScalarType::I32 | ScalarType::F32 => 4,
            ScalarType::U64 | ScalarType::I64 | ScalarType::F64 => 8,
        }
    }

    /// Returns true if this is an integer type (not floating-point).
    pub fn is_integer(&self) -> (r: bool)
        ensures
            r == self.spec_is_integer(),
    {
        !matches!(self, ScalarType::F32 | ScalarType::F64)
    }

    /// Returns true if this is a signed type.
    pub fn is_signed(&self) -> (r: bool)
        ensures
            r == self.spec_is_signed(),
    {
        matches!(self, ScalarType::I8 | ScalarType::I16 | ScalarType::I32 | ScalarType::I64)
    }
}

/// Declared size of an array field: a count, or rows and columns.
#[derive(Debug, Clone, Copy)]
pub enum SizeSource {
    OneD(usize),
    TwoD([usize; 2]),
}

/// The two ways a size can be given: `size`, under which a shorter value is
/// padded, and `SIZE`, under which it is refused.
#[derive(Debug, Clone, Copy)]
pub struct SizeKeys {
    pub size: Option<SizeSource>,
    pub strict_size: Option<SizeSource>,
}

/// Source for a bitmap field (no arrays allowed).
#[derive(Debug)]
pub enum BitmapFieldSource {
    Name(String),
    Value(DataValue),
}

/// Single bitmap field within a bitmap entry.
#[derive(Debug)]
pub struct BitmapField {
    pub bits: usize,
    pub source: BitmapFieldSource,
}

/// Where a leaf takes its value from: a name looked up in the data source, a
/// value written in the layout, or a list of bit fields.
#[derive(Debug)]
pub enum EntrySource {
    Name(String),
    Value(ValueSource),
    Bitmap(Vec<BitmapField>),
}

/// Leaf entry representing an item to add to the block.
#[derive(Debug)]
pub struct LeafEntry {
    pub scalar_type: ScalarType,
    pub size_keys: SizeKeys,
    pub source: EntrySource,
}

/// `count` bytes of padding.
pub open spec fn padding_run(count: nat, padding: u8) -> Seq<u8> {
    Seq::new(count, |i: int| padding)
}

/// What recording an exported value makes of a sink's content; the error
/// where the value has no export or the sink refuses it.
pub open spec fn record_in<S: ValueSink>(
    sink: S::Model,
    path: Seq<Seq<char>>,
    value: Result<ExportModel, LayoutError>,
) -> Result<S::Model, LayoutError> {
    match value {
        Err(e) => Err(e),
        Ok(v) => S::model_record(sink, path, v),
    }
}

/// The sink after an attempt to record a value: with the value where it
/// is recorded, and as it was where the value has no export or the sink
/// refuses it.
pub open spec fn kept_or_recorded<S: ValueSink>(
    sink: S::Model,
    path: Seq<Seq<char>>,
    value: Result<ExportModel, LayoutError>,
) -> S::Model {
    match record_in::<S>(sink, path, value) {
        Ok(after) => after,
        Err(_) => sink,
    }
}

/// True where an emitting function's result `r` and the sink it leaves are
/// what `expected` says.
pub open spec fn emitted_as<M>(
    r: Result<Vec<u8>, LayoutError>,
    sink: M,
    expected: Result<(Seq<u8>, M), LayoutError>,
) -> bool {
    match r {
        Ok(bytes) => expected == Ok::<(Seq<u8>, M), LayoutError>((bytes@, sink)),
        Err(e) => expected == Err::<(Seq<u8>, M), LayoutError>(e),
    }
}

/// The bytes of the first `count` of `values`, one after the other, or the
/// error of the first that cannot be converted.
pub open spec fn values_bytes(
    values: Seq<DataValue>,
    count: nat,
    ty: ScalarType,
    endianness: Endianness,
    strict: bool,
) -> Result<Seq<u8>, LayoutError>
    decreases count,
{
    if count == 0 || count > values.len() {
        Ok(Seq::empty())
    } else {
        match values_bytes(values, (count - 1) as nat, ty, endianness, strict) {
            Err(e) => Err(e),
            Ok(done) => match values[count - 1].spec_to_bytes(ty, endianness, strict) {
                Err(e) => Err(e),
                Ok(bytes) => Ok(done + bytes),
            },
        }
    }
}

/// The bytes of the first `count` rows of a table, row after row.
pub open spec fn rows_bytes(
    rows: Seq<Vec<DataValue>>,
    count: nat,
    ty: ScalarType,
    endianness: Endianness,
    strict: bool,
) -> Result<Seq<u8>, LayoutError>
    decreases count,
{
    if count == 0 || count > rows.len() {
        Ok(Seq::empty())
    } else {
        match rows_bytes(rows, (count - 1) as nat, ty, endianness, strict) {
            Err(e) => Err(e),
            Ok(done) => match values_bytes(
                rows[count - 1]@,
                rows[count - 1]@.len(),
                ty,
                endianness,
                strict,
            ) {
                Err(e) => Err(e),
                Ok(bytes) => Ok(done + bytes),
            },
        }
    }
}

pub proof fn lemma_values_bytes_len(
    values: Seq<DataValue>,
    count: nat,
    ty: ScalarType,
    endianness: Endianness,
    strict: bool,
)
    requires
        count <= values.len(),
        values_bytes(values, count, ty, endianness, strict) is Ok,
    ensures
        values_bytes(values, count, ty, endianness, strict)->Ok_0.len() == count
            * ty.spec_size_bytes(),
    decreases count,
{
    if count > 0 {
        lemma_values_bytes_len(values, (count - 1) as nat, ty, endianness, strict);
        let v = values[count - 1];
        super::settings::lemma_le_bytes_len(0, 0);
        lemma_to_bytes_len(v, ty, endianness, strict);
        assert(count * ty.spec_size_bytes() == (count - 1) * ty.spec_size_bytes()
            + ty.spec_size_bytes()) by (nonlinear_arith)
            requires
                count > 0,
        ;
    }
}

/// A value's bytes are as many as its type is wide.
pub proof fn lemma_to_bytes_len(v: DataValue, ty: ScalarType, endianness: Endianness, strict: bool)
    requires
        v.spec_to_bytes(ty, endianness, strict) is Ok,
    ensures
        v.spec_to_bytes(ty, endianness, strict)->Ok_0.len() == ty.spec_size_bytes(),
{
    let size = ty.spec_size_bytes();
    if ty.spec_is_integer() {
        let n = super::conversions::to_integer(v, ty, strict)->Ok_0;
        super::settings::lemma_endian_round_trip(
            super::settings::twos_complement(n, size),
            size,
            endianness,
        );
    } else {
        let p = super::conversions::to_float(v, super::value::float_format(ty), strict)->Ok_0;
        super::settings::lemma_endian_round_trip(p, size, endianness);
    }
}

/// In the bytes of a list every value has its own place: the bytes of the
/// value at `index` stand at `index` times the width of the type, and so
/// reading that place back gives what was stored for that value.
pub proof fn lemma_list_element_bytes(
    values: Seq<DataValue>,
    count: nat,
    index: nat,
    ty: ScalarType,
    endianness: Endianness,
    strict: bool,
)
    requires
        index < count <= values.len(),
        values_bytes(values, count, ty, endianness, strict) is Ok,
    ensures
        values[index as int].spec_to_bytes(ty, endianness, strict) is Ok,
        (index + 1) * ty.spec_size_bytes() <= values_bytes(
            values,
            count,
            ty,
            endianness,
            strict,
        )->Ok_0.len(),
        values_bytes(values, count, ty, endianness, strict)->Ok_0.subrange(
            (index * ty.spec_size_bytes()) as int,
            ((index + 1) * ty.spec_size_bytes()) as int,
        ) == values[index as int].spec_to_bytes(ty, endianness, strict)->Ok_0,
    decreases count,
{
    let size = ty.spec_size_bytes();
    let all = values_bytes(values, count, ty, endianness, strict)->Ok_0;
    let before = values_bytes(values, (count - 1) as nat, ty, endianness, strict)->Ok_0;
    let last = values[count - 1].spec_to_bytes(ty, endianness, strict)->Ok_0;
    lemma_values_bytes_len(values, count, ty, endianness, strict);
    lemma_values_bytes_len(values, (count - 1) as nat, ty, endianness, strict);
    lemma_to_bytes_len(values[count - 1], ty, endianness, strict);
    assert((index + 1) * size <= count * size) by (nonlinear_arith)
        requires
            index + 1 <= count,
    ;
    if index + 1 == count {
        assert(all.subrange((index * size) as int, ((index + 1) * size) as int) =~= last);
    } else {
        lemma_list_element_bytes(values, (count - 1) as nat, index, ty, endianness, strict);
        assert((index + 1) * size <= (count - 1) * size) by (nonlinear_arith)
            requires
                index + 1 <= count - 1,
        ;
        assert(all.subrange((index * size) as int, ((index + 1) * size) as int) =~= before.subrange(
            (index * size) as int,
            ((index + 1) * size) as int,
        ));
    }
}

/// Once a value cannot be converted, no longer prefix can.
pub proof fn lemma_values_error_stays(
    values: Seq<DataValue>,
    count: nat,
    more: nat,
    ty: ScalarType,
    endianness: Endianness,
    strict: bool,
)
    requires
        count <= more <= values.len(),
        values_bytes(values, count, ty, endianness, strict) is Err,
    ensures
        values_bytes(values, more, ty, endianness, strict) == values_bytes(
            values,
            count,
            ty,
            endianness,
            strict,
        ),
    decreases more - count,
{
    if count < more {
        lemma_values_error_stays(values, count, (more - 1) as nat, ty, endianness, strict);
    }
}

/// Once a row cannot be converted, no longer prefix of the table can.
pub proof fn lemma_rows_error_stays(
    rows: Seq<Vec<DataValue>>,
    count: nat,
    more: nat,
    ty: ScalarType,
    endianness: Endianness,
    strict: bool,
)
    requires
        count <= more <= rows.len(),
        rows_bytes(rows, count, ty, endianness, strict) is Err,
    ensures
        rows_bytes(rows, more, ty, endianness, strict) == rows_bytes(
            rows,
            count,
            ty,
            endianness,
            strict,
        ),
    decreases more - count,
{
    if count < more {
        lemma_rows_error_stays(rows, count, (more - 1) as nat, ty, endianness, strict);
    }
}

/// Converts a list of values to bytes, one after the other.
pub fn encode_values(values: &[DataValue], ty: ScalarType, endianness: &Endianness, strict: bool) -> (r:
    Result<Vec<u8>, LayoutError>)
    ensures
        match r {
            Ok(bytes) => values_bytes(values@, values@.len(), ty, *endianness, strict) == Ok::<
                Seq<u8>,
                LayoutError,
            >(bytes@),
            Err(e) => values_bytes(values@, values@.len(), ty, *endianness, strict) == Err::<
                Seq<u8>,
                LayoutError,
            >(e),
        },
{
    let mut out: Vec<u8> = Vec::new();
    let mut i: usize = 0;
    while i < values.len()
        invariant
            i <= values.len(),
            values_bytes(values@, i as nat, ty, *endianness, strict) == Ok::<Seq<u8>, LayoutError>(
                out@,
            ),
        decreases values.len() - i,
    {
        match values[i].to_bytes(ty, endianness, strict) {
            Err(e) => {
                proof {
                    lemma_values_error_stays(
                        values@,
                        (i + 1) as nat,
                        values@.len(),
                        ty,
                        *endianness,
                        strict,
                    );
                }
                return Err(e);
            },
            Ok(mut bytes) => {
                out.append(&mut bytes);
            },
        }
        i = i + 1;
    }
    Ok(out)
}

/// Converts a table of values to bytes, row after row.
pub fn encode_rows(rows: &[Vec<DataValue>], ty: ScalarType, endianness: &Endianness, strict: bool) -> (r:
    Result<Vec<u8>, LayoutError>)
    ensures
        match r {
            Ok(bytes) => rows_bytes(rows@, rows@.len(), ty, *endianness, strict) == Ok::<
                Seq<u8>,
                LayoutError,
            >(bytes@),
            Err(e) => rows_bytes(rows@, rows@.len(), ty, *endianness, strict) == Err::<
                Seq<u8>,
                LayoutError,
            >(e),
        },
{
    let mut out: Vec<u8> = Vec::new();
    let mut i: usize = 0;
    while i < rows.len()
        invariant
            i <= rows.len(),
            rows_bytes(rows@, i as nat, ty, *endianness, strict) == Ok::<Seq<u8>, LayoutError>(
                out@,
            ),
        decreases rows.len() - i,
    {
        match encode_values(rows[i].as_slice(), ty, endianness, strict) {
            Err(e) => {
                proof {
                    lemma_rows_error_stays(
                        rows@,
                        (i + 1) as nat,
                        rows@.len(),
                        ty,
                        *endianness,
                        strict,
                    );
                }
                return Err(e);
            },
            Ok(mut bytes) => {
                out.append(&mut bytes);
            },
        }
        i = i + 1;
    }
    Ok(out)
}

/// Fills `out` with padding up to `total` bytes.
pub fn pad_to(out: &mut Vec<u8>, total: usize, padding: u8)
    ensures
        final(out)@ == old(out)@ + padding_run(
            if total > old(out)@.len() {
                (total - old(out)@.len()) as nat
            } else {
                0
            },
            padding,
        ),
{
    proof {
        assert(out@ =~= old(out)@ + padding_run(0, padding));
    }
    while out.len() < total
        invariant
            out@.len() >= old(out)@.len(),
            out@.len() <= total || out@.len() == old(out)@.len(),
            out@ == old(out)@ + padding_run((out@.len() - old(out)@.len()) as nat, padding),
        decreases total - out.len(),
    {
        let ghost before = out@;
        out.push(padding);
        proof {
            assert(out@ =~= old(out)@ + padding_run(
                (out@.len() - old(out)@.len()) as nat,
                padding,
            ));
        }
    }
}

impl SizeKeys {
    /// The size that the keys give, and whether it is strict. Both keys at
    /// once are refused.
    pub open spec fn spec_resolve(self) -> Result<(Option<SizeSource>, bool), LayoutError> {
        match (self.size, self.strict_size) {
            (Some(_), Some(_)) => Err(
                LayoutError::DataValueExportFailed(ExportFailure::SizeKeysConflict),
            ),
            (Some(s), None) => Ok((Some(s), false)),
            (None, Some(s)) => Ok((Some(s), true)),
            (None, None) => Ok((None, false)),
        }
    }

    pub fn resolve(&self) -> (r: Result<(Option<SizeSource>, bool), LayoutError>)
        ensures
            r == self.spec_resolve(),
    {
        match (&self.size, &self.strict_size) {
            (Some(_), Some(_)) => Err(
                LayoutError::DataValueExportFailed(ExportFailure::SizeKeysConflict),
            ),
            (Some(s), None) => Ok((Some(*s), false)),
            (None, Some(s)) => Ok((Some(*s), true)),
            (None, None) => Ok((None, false)),
        }
    }
}

/// What a data source answered for one field of a bitmap: nothing where it
/// was not asked.
pub type FieldAnswer = Option<Result<DataValue, DataError>>;

/// What a data source answered for a leaf.
#[derive(Debug)]
pub enum Fetched {
    /// Nothing was asked: the leaf names no value, it is refused before any
    /// value is looked up, or no data source is at hand.
    Nothing,
    /// The answer for a field without a size.
    Single(Result<DataValue, DataError>),
    /// The answer for a field with a one-dimensional size.
    List(Result<ValueSource, DataError>),
    /// The answer for a field with a two-dimensional size.
    Table(Result<Vec<Vec<DataValue>>, DataError>),
    /// The answers for the fields of a bitmap, one for each field.
    Fields(Vec<FieldAnswer>),
}

/// What a leaf asks of a data source: nothing, or the value, list or
/// table of a name, or, for a bitmap, the value of every field that names
/// one.
#[derive(Debug)]
pub enum Asked {
    Nothing,
    Single(String),
    List(String),
    Table(String),
    /// For each field of a bitmap, in order, the name it asks for.
    Fields(Vec<Option<String>>),
}

/// The mathematical content of an `Asked`.
pub enum AskedModel {
    Nothing,
    Single(Seq<char>),
    List(Seq<char>),
    Table(Seq<char>),
    Fields(Seq<Option<Seq<char>>>),
}

/// The content of a name that may be asked for.
pub open spec fn asked_name(name: Option<String>) -> Option<Seq<char>> {
    match name {
        Some(n) => Some(n@),
        None => None,
    }
}

impl View for Asked {
    type V = AskedModel;

    open spec fn view(&self) -> AskedModel {
        match *self {
            Asked::Nothing => AskedModel::Nothing,
            Asked::Single(name) => AskedModel::Single(name@),
            Asked::List(name) => AskedModel::List(name@),
            Asked::Table(name) => AskedModel::Table(name@),
            Asked::Fields(names) => AskedModel::Fields(
                Seq::new(names@.len(), |i: int| asked_name(names@[i])),
            ),
        }
    }
}

/// True where `answer` answers a bitmap field that asks for `name`: there
/// is an answer exactly where something was asked.
pub open spec fn answers_field(answer: FieldAnswer, name: Option<Seq<char>>) -> bool {
    answer is Some <==> name is Some
}

/// True where `fetched` answers what was asked: nothing where nothing was
/// asked, the answer of the one call that was asked for, and for a bitmap
/// one answer for every field that asked for a name.
pub open spec fn answers_asked(fetched: Fetched, asked: AskedModel) -> bool {
    match asked {
        AskedModel::Nothing => fetched is Nothing,
        AskedModel::Single(_) => fetched is Single,
        AskedModel::List(_) => fetched is List,
        AskedModel::Table(_) => fetched is Table,
        AskedModel::Fields(names) => {
            &&& fetched is Fields
            &&& fetched->Fields_0@.len() == names.len()
            &&& forall|i: int|
                0 <= i < names.len() ==> answers_field(#[trigger] fetched->Fields_0@[i], names[i])
        },
    }
}

/// Asks the data source for the value of a bitmap field's name, where the
/// field has one: one call of `retrieve_single_value` with that name.
pub fn ask_field<D: DataSource>(name: &Option<String>, source: &D) -> (answer: FieldAnswer)
    ensures
        answers_field(answer, asked_name(*name)),
{
    match name {
        Some(n) => Some(source.retrieve_single_value(n.as_str())),
        None => None,
    }
}

/// Asks the data source what was asked: for a single value, a list or a
/// table one call of the method of that kind, with the name; for a bitmap
/// one call for every field that names a value, in the order of the
/// fields; and no call where nothing is asked.
pub fn ask<D: DataSource>(asked: &Asked, source: &D) -> (fetched: Fetched)
    ensures
        answers_asked(fetched, asked@),
{
    match asked {
        Asked::Nothing => Fetched::Nothing,
        Asked::Single(name) => Fetched::Single(source.retrieve_single_value(name.as_str())),
        Asked::List(name) => Fetched::List(source.retrieve_1d_array_or_string(name.as_str())),
        Asked::Table(name) => Fetched::Table(source.retrieve_2d_array(name.as_str())),
        Asked::Fields(names) => {
            let mut answers: Vec<FieldAnswer> = Vec::new();
            let mut i: usize = 0;
            while i < names.len()
                invariant
                    i <= names.len(),
                    answers@.len() == i,
                    forall|j: int|
                        0 <= j < i ==> answers_field(
                            #[trigger] answers@[j],
                            asked_name(names@[j]),
                        ),
                decreases names.len() - i,
            {
                let answer = ask_field(&names[i], source);
                answers.push(answer);
                i = i + 1;
            }
            Fetched::Fields(answers)
        },
    }
}

/// The answer for the bitmap field at `index`; none where the answers do
/// not reach so far.
pub open spec fn answer_at(answers: Seq<FieldAnswer>, index: int) -> FieldAnswer {
    if 0 <= index < answers.len() {
        answers[index]
    } else {
        None
    }
}

/// The value that a bitmap field offers: the value written in the layout,
/// or what the data source answered for the field's name. A name without
/// an answer is refused.
pub open spec fn field_value(field: BitmapField, answer: FieldAnswer) -> Result<
    DataValue,
    LayoutError,
> {
    match field.source {
        BitmapFieldSource::Name(name) => match answer {
            None => Err(LayoutError::MissingDataSheet(MissingData::BitmapField(name))),
            Some(Ok(v)) => Ok(v),
            Some(Err(e)) => Err(LayoutError::Data(e)),
        },
        BitmapFieldSource::Value(v) => Ok(v),
    }
}

/// The name under which a bitmap field's value is recorded: the name it is
/// looked up by, or `reserved_` with the field's bit offset and width.
pub open spec fn field_key(field: BitmapField, offset: nat) -> Seq<char> {
    match field.source {
        BitmapFieldSource::Name(name) => name@,
        BitmapFieldSource::Value(_) => "reserved_"@ + decimal_text(offset) + "_"@ + decimal_text(
            field.bits as nat,
        ),
    }
}

impl BitmapField {
    /// The name that the field asks a data source for: its own, where it
    /// names a value; none where its value is written in the layout.
    pub open spec fn spec_asked(self) -> Option<Seq<char>> {
        match self.source {
            BitmapFieldSource::Name(name) => Some(name@),
            BitmapFieldSource::Value(_) => None,
        }
    }

    /// The name that the field asks a data source for.
    pub fn asked(&self) -> (name: Option<String>)
        ensures
            asked_name(name) == self.spec_asked(),
    {
        match &self.source {
            BitmapFieldSource::Name(name) => Some(name.clone()),
            BitmapFieldSource::Value(_) => None,
        }
    }

    /// Asks the data source for the field's value, where the field names
    /// one and a data source is at hand: what is asked is `asked`.
    pub fn fetch<D: DataSource>(&self, data_source: Option<&D>) -> (answer: FieldAnswer)
        ensures
            answer is Some <==> (self.source is Name && data_source is Some),
            data_source is Some ==> answers_field(answer, self.spec_asked()),
    {
        match data_source {
            None => None,
            Some(ds) => ask_field(&self.asked(), ds),
        }
    }

    /// The value of the field, given what the data source answered: see
    /// `field_value`.
    pub fn resolve_fetched(&self, answer: &FieldAnswer) -> (r: Result<DataValue, LayoutError>)
        ensures
            r == field_value(*self, *answer),
    {
        match &self.source {
            BitmapFieldSource::Name(name) => match answer {
                None => Err(LayoutError::MissingDataSheet(MissingData::BitmapField(name.clone()))),
                Some(Ok(v)) => Ok(v.clone()),
                Some(Err(e)) => Err(LayoutError::Data(e.clone())),
            },
            BitmapFieldSource::Value(v) => Ok(v.clone()),
        }
    }

    /// The value of the field: looked up by its name, or as written. The
    /// result is what `field_value` gives for the data source's answer.
    pub fn resolve_value<D: DataSource>(&self, data_source: Option<&D>) -> (r: Result<
        DataValue,
        LayoutError,
    >)
        ensures
            exists|answer: FieldAnswer|
                (answer is Some <==> (self.source is Name && data_source is Some)) && r
                    == #[trigger] field_value(*self, answer),
    {
        let answer = self.fetch(data_source);
        self.resolve_fetched(&answer)
    }
}

/// The name under which a bitmap field's value is recorded.
pub fn bitmap_field_key(field: &BitmapField, offset: usize) -> (r: String)
    ensures
        r@ == field_key(*field, offset as nat),
{
    match &field.source {
        BitmapFieldSource::Name(name) => name.clone(),
        BitmapFieldSource::Value(_) => {
            let mut key = String::from_str("reserved_");
            push_decimal(&mut key, offset as u128);
            key.append("_");
            push_decimal(&mut key, field.bits as u128);
            key
        },
    }
}

/// The sum of the widths of the first `count` fields.
pub open spec fn total_bits(fields: Seq<BitmapField>, count: nat) -> nat
    decreases count,
{
    if count == 0 || count > fields.len() {
        0
    } else {
        total_bits(fields, (count - 1) as nat) + fields[count - 1].bits as nat
    }
}

/// What a bitmap has gathered: the bits so far, their number, and the sink.
pub struct BitmapState<M> {
    pub accumulator: nat,
    pub offset: nat,
    pub sink: M,
}

/// The state of a bitmap after its first `count` fields. Each field's value
/// is held or fitted to its width, placed above the fields before it, and
/// recorded under the field's name.
pub open spec fn bitmap_fold<S: ValueSink>(
    fields: Seq<BitmapField>,
    count: nat,
    signed: bool,
    answers: Seq<FieldAnswer>,
    strict: bool,
    sink: S::Model,
    path: Seq<Seq<char>>,
) -> Result<BitmapState<S::Model>, LayoutError>
    decreases count,
{
    if count == 0 || count > fields.len() {
        Ok(BitmapState { accumulator: 0, offset: 0, sink })
    } else {
        match bitmap_fold::<S>(fields, (count - 1) as nat, signed, answers, strict, sink, path) {
            Err(e) => Err(e),
            Ok(state) => {
                let field = fields[count - 1];
                match field_value(field, answer_at(answers, count - 1)) {
                    Err(e) => Err(e),
                    Ok(v) => match clamp_bitfield(v, field.bits, signed, strict) {
                        Err(e) => Err(e),
                        Ok(stored) => match record_in::<S>(
                            state.sink,
                            path.push(field_key(field, state.offset)),
                            export_of_integer(stored),
                        ) {
                            Err(e) => Err(e),
                            Ok(sink_after) => Ok(
                                BitmapState {
                                    accumulator: state.accumulator + bitfield_pattern(
                                        stored,
                                        field.bits as nat,
                                    ) * pow2(state.offset),
                                    offset: state.offset + field.bits as nat,
                                    sink: sink_after,
                                },
                            ),
                        },
                    },
                }
            },
        }
    }
}

/// The integer that the bitmap field at `index` is offered: the number of
/// the value written in the layout or answered for the field's name.
pub open spec fn offered(
    fields: Seq<BitmapField>,
    answers: Seq<FieldAnswer>,
    strict: bool,
    index: int,
) -> Result<int, LayoutError> {
    match field_value(fields[index], answer_at(answers, index)) {
        Err(e) => Err(e),
        Ok(v) => match bitfield_number(v, strict) {
            Err(f) => Err(LayoutError::DataValueExportFailed(f)),
            Ok(n) => Ok(n),
        },
    }
}

/// The bits of the bitmap field at `index`: what it is offered, held to
/// the range of the field, modulo two to the power of the field's width.
pub open spec fn field_bits(
    fields: Seq<BitmapField>,
    answers: Seq<FieldAnswer>,
    signed: bool,
    strict: bool,
    index: int,
) -> nat {
    let bits = fields[index].bits as nat;
    bitfield_pattern(
        saturate(
            offered(fields, answers, strict, index)->Ok_0,
            bitfield_min(bits, signed),
            bitfield_max(bits, signed),
        ),
        bits,
    )
}

/// The sum, over the first `count` fields, of each field's bits shifted
/// left by the widths of the fields before it.
pub open spec fn bitmap_sum(
    fields: Seq<BitmapField>,
    answers: Seq<FieldAnswer>,
    signed: bool,
    strict: bool,
    count: nat,
) -> nat
    decreases count,
{
    if count == 0 || count > fields.len() {
        0
    } else {
        bitmap_sum(fields, answers, signed, strict, (count - 1) as nat) + field_bits(
            fields,
            answers,
            signed,
            strict,
            count - 1,
        ) * pow2(total_bits(fields, (count - 1) as nat))
    }
}

/// A bitmap packs to the sum of its fields.
///
/// Where the first `count` fields of a bitmap succeed, every one of them
/// was offered an integer, in strict mode one within the range of the
/// field; the bits gathered are as many as the fields are wide together;
/// and their value is the sum of the fields' bits, each shifted left by
/// the widths of the fields before it, where the bits of a field are what
/// it was offered, held to the field's range, modulo two to the power of
/// its width.
pub proof fn lemma_bitmap_is_sum<S: ValueSink>(
    fields: Seq<BitmapField>,
    count: nat,
    signed: bool,
    answers: Seq<FieldAnswer>,
    strict: bool,
    sink: S::Model,
    path: Seq<Seq<char>>,
)
    requires
        count <= fields.len(),
        bitmap_fold::<S>(fields, count, signed, answers, strict, sink, path) is Ok,
    ensures
        bitmap_fold::<S>(fields, count, signed, answers, strict, sink, path)->Ok_0.offset
            == total_bits(fields, count),
        bitmap_fold::<S>(fields, count, signed, answers, strict, sink, path)->Ok_0.accumulator
            == bitmap_sum(fields, answers, signed, strict, count),
        forall|k: int|
            0 <= k < count ==> {
                &&& (#[trigger] offered(fields, answers, strict, k)) is Ok
                &&& strict ==> bitfield_min(fields[k].bits as nat, signed) <= offered(
                    fields,
                    answers,
                    strict,
                    k,
                )->Ok_0 <= bitfield_max(fields[k].bits as nat, signed)
            },
    decreases count,
{
    if count > 0 {
        lemma_bitmap_is_sum::<S>(fields, (count - 1) as nat, signed, answers, strict, sink, path);
    }
}

/// In strict mode a bitmap with a field that is offered an integer outside
/// its range is refused.
pub proof fn lemma_strict_bitmap_refuses<S: ValueSink>(
    fields: Seq<BitmapField>,
    count: nat,
    signed: bool,
    answers: Seq<FieldAnswer>,
    sink: S::Model,
    path: Seq<Seq<char>>,
    index: int,
)
    requires
        0 <= index < count <= fields.len(),
        offered(fields, answers, true, index) is Ok,
        !(bitfield_min(fields[index].bits as nat, signed) <= offered(
            fields,
            answers,
            true,
            index,
        )->Ok_0 <= bitfield_max(fields[index].bits as nat, signed)),
    ensures
        bitmap_fold::<S>(fields, count, signed, answers, true, sink, path) is Err,
{
    assert(bitmap_fold::<S>(fields, (index + 1) as nat, signed, answers, true, sink, path) is Err);
    lemma_bitmap_error_stays::<S>(
        fields,
        (index + 1) as nat,
        count,
        signed,
        answers,
        true,
        sink,
        path,
    );
}

/// True where the bitmap field at `index` is offered an integer that it
/// takes: any integer in lossy mode, and in strict mode one within the
/// range of the field.
pub open spec fn field_takes(
    fields: Seq<BitmapField>,
    answers: Seq<FieldAnswer>,
    signed: bool,
    strict: bool,
    index: int,
) -> bool {
    &&& offered(fields, answers, strict, index) is Ok
    &&& strict ==> bitfield_min(fields[index].bits as nat, signed) <= offered(
        fields,
        answers,
        strict,
        index,
    )->Ok_0 <= bitfield_max(fields[index].bits as nat, signed)
}

/// True for a kind of sink that accepts whatever is recorded.
pub open spec fn accepts_all<S: ValueSink>() -> bool {
    forall|model: S::Model, at: Seq<Seq<char>>, value: ExportModel|
        (#[trigger] S::model_record(model, at, value)) is Ok
}

/// The sink that records nothing accepts whatever is recorded.
pub proof fn lemma_noop_accepts_all()
    ensures
        accepts_all::<super::used_values::NoopValueSink>(),
{
}

/// A bitmap whose fields all take what they are offered is packed, as
/// long as the sink accepts what is recorded. In lossy mode that is every
/// bitmap whose fields are offered integers: a value outside a field's
/// range is held to the nearest bound.
pub proof fn lemma_bitmap_succeeds<S: ValueSink>(
    fields: Seq<BitmapField>,
    count: nat,
    signed: bool,
    answers: Seq<FieldAnswer>,
    strict: bool,
    sink: S::Model,
    path: Seq<Seq<char>>,
)
    requires
        count <= fields.len(),
        forall|k: int| 0 <= k < count ==> #[trigger] field_takes(fields, answers, signed, strict, k),
        forall|k: int| 0 <= k < count ==> 1 <= (#[trigger] fields[k]).bits <= 64,
        accepts_all::<S>(),
    ensures
        bitmap_fold::<S>(fields, count, signed, answers, strict, sink, path) is Ok,
    decreases count,
{
    if count > 0 {
        lemma_bitmap_succeeds::<S>(
            fields,
            (count - 1) as nat,
            signed,
            answers,
            strict,
            sink,
            path,
        );
        let state = bitmap_fold::<S>(
            fields,
            (count - 1) as nat,
            signed,
            answers,
            strict,
            sink,
            path,
        )->Ok_0;
        let field = fields[count - 1];
        let bits = field.bits as nat;
        assert(field_takes(fields, answers, signed, strict, count - 1));
        let v = field_value(field, answer_at(answers, count - 1))->Ok_0;
        let stored = clamp_bitfield(v, field.bits, signed, strict)->Ok_0;
        vstd::arithmetic::power2::lemma2_to64();
        vstd::arithmetic::power2::lemma2_to64_rest();
        if bits < 64 {
            lemma_pow2_strictly_increases(bits, 64);
        }
        if bits - 1 < 63 {
            lemma_pow2_strictly_increases((bits - 1) as nat, 63);
        }
        assert(clamp_bitfield(v, field.bits, signed, strict) is Ok);
        assert(bitfield_min(bits, signed) <= stored <= bitfield_max(bits, signed));
        assert(export_of_integer(stored) is Ok);
        assert(S::model_record(
            state.sink,
            path.push(field_key(field, state.offset)),
            export_of_integer(stored)->Ok_0,
        ) is Ok);
    }
}

/// No field of a bitmap is wider than the fields together.
pub proof fn lemma_field_within_total(fields: Seq<BitmapField>, index: int)
    requires
        0 <= index < fields.len(),
    ensures
        fields[index].bits <= total_bits(fields, fields.len()),
{
    lemma_total_bits_grows(fields, (index + 1) as nat, fields.len());
}

/// The packing of a bitmap.
///
/// Take a valid bitmap whose fields are all offered an integer, and a sink
/// that accepts what is recorded. In strict mode the bitmap is refused if
/// and only if some field is offered an integer outside its range. In
/// lossy mode it is never refused. Whenever it is not refused, its bytes
/// are as many as the storage type is wide, and read back in the layout's
/// byte order they give the sum, over the fields, of what the field is
/// offered, held to the field's range, modulo two to the power of the
/// field's width, shifted left by the widths of the fields before it.
pub proof fn lemma_bitmap_packing<S: ValueSink>(
    leaf: LeafEntry,
    fields: Seq<BitmapField>,
    answers: Seq<FieldAnswer>,
    config: BuildConfig,
    sink: S::Model,
    path: Seq<Seq<char>>,
)
    requires
        leaf.spec_validate_bitmap(fields) is Ok,
        forall|k: int|
            0 <= k < fields.len() ==> (#[trigger] offered(fields, answers, config.strict, k)) is Ok,
        accepts_all::<S>(),
    ensures
        leaf.spec_bitmap::<S>(fields, answers, config, sink, path) is Err <==> (config.strict
            && exists|k: int|
            0 <= k < fields.len() && !#[trigger] field_takes(
                fields,
                answers,
                leaf.scalar_type.spec_is_signed(),
                config.strict,
                k,
            )),
        leaf.spec_bitmap::<S>(fields, answers, config, sink, path) is Ok ==> {
            &&& leaf.spec_bitmap::<S>(fields, answers, config, sink, path)->Ok_0.0.len()
                == leaf.scalar_type.spec_size_bytes()
            &&& super::settings::endian_value(
                leaf.spec_bitmap::<S>(fields, answers, config, sink, path)->Ok_0.0,
                config.endianness,
            ) == bitmap_sum(
                fields,
                answers,
                leaf.scalar_type.spec_is_signed(),
                config.strict,
                fields.len(),
            )
        },
{
    let signed = leaf.scalar_type.spec_is_signed();
    let strict = config.strict;
    let refused = exists|k: int|
        0 <= k < fields.len() && !#[trigger] field_takes(fields, answers, signed, strict, k);
    assert forall|k: int| 0 <= k < fields.len() implies 1 <= (#[trigger] fields[k]).bits
        <= 64 by {
        lemma_field_within_total(fields, k);
    }
    if strict && refused {
        let k = choose|k: int|
            0 <= k < fields.len() && !#[trigger] field_takes(fields, answers, signed, strict, k);
        assert(offered(fields, answers, strict, k) is Ok);
        lemma_strict_bitmap_refuses::<S>(fields, fields.len(), signed, answers, sink, path, k);
    } else {
        assert forall|k: int| 0 <= k < fields.len() implies #[trigger] field_takes(
            fields,
            answers,
            signed,
            strict,
            k,
        ) by {
            assert(offered(fields, answers, strict, k) is Ok);
        }
        lemma_bitmap_succeeds::<S>(fields, fields.len(), signed, answers, strict, sink, path);
    }
    if leaf.spec_bitmap::<S>(fields, answers, config, sink, path) is Ok {
        lemma_bitmap_round_trip::<S>(leaf, fields, answers, config, sink, path);
    }
}

/// The sink that a bitmap leaves after its first `count` fields, whether
/// or not all of them succeed: the sink after the fields before the first
/// that fails, each of them recorded.
pub open spec fn bitmap_sink<S: ValueSink>(
    fields: Seq<BitmapField>,
    count: nat,
    signed: bool,
    answers: Seq<FieldAnswer>,
    strict: bool,
    sink: S::Model,
    path: Seq<Seq<char>>,
) -> S::Model
    decreases count,
{
    if count == 0 || count > fields.len() {
        sink
    } else {
        match bitmap_fold::<S>(fields, count, signed, answers, strict, sink, path) {
            Ok(state) => state.sink,
            Err(_) => bitmap_sink::<S>(
                fields,
                (count - 1) as nat,
                signed,
                answers,
                strict,
                sink,
                path,
            ),
        }
    }
}

/// Once a field fails, the sink stays as the fields before it left it.
pub proof fn lemma_bitmap_sink_stays<S: ValueSink>(
    fields: Seq<BitmapField>,
    count: nat,
    more: nat,
    signed: bool,
    answers: Seq<FieldAnswer>,
    strict: bool,
    sink: S::Model,
    path: Seq<Seq<char>>,
)
    requires
        count <= more <= fields.len(),
        bitmap_fold::<S>(fields, count, signed, answers, strict, sink, path) is Err,
    ensures
        bitmap_sink::<S>(fields, more, signed, answers, strict, sink, path) == bitmap_sink::<S>(
            fields,
            count,
            signed,
            answers,
            strict,
            sink,
            path,
        ),
    decreases more - count,
{
    if count < more {
        lemma_bitmap_sink_stays::<S>(
            fields,
            count,
            (more - 1) as nat,
            signed,
            answers,
            strict,
            sink,
            path,
        );
        lemma_bitmap_error_stays::<S>(fields, count, more, signed, answers, strict, sink, path);
    }
}

/// Once a field fails, the bitmap fails with its error.
pub proof fn lemma_bitmap_error_stays<S: ValueSink>(
    fields: Seq<BitmapField>,
    count: nat,
    more: nat,
    signed: bool,
    answers: Seq<FieldAnswer>,
    strict: bool,
    sink: S::Model,
    path: Seq<Seq<char>>,
)
    requires
        count <= more <= fields.len(),
        bitmap_fold::<S>(fields, count, signed, answers, strict, sink, path) is Err,
    ensures
        bitmap_fold::<S>(fields, more, signed, answers, strict, sink, path) == bitmap_fold::<S>(
            fields,
            count,
            signed,
            answers,
            strict,
            sink,
            path,
        ),
    decreases more - count,
{
    if count < more {
        lemma_bitmap_error_stays::<S>(
            fields,
            count,
            (more - 1) as nat,
            signed,
            answers,
            strict,
            sink,
            path,
        );
    }
}

/// A copy of a path.
pub fn clone_path(path: &[String]) -> (r: Vec<String>)
    ensures
        r@ == path@,
{
    let mut out: Vec<String> = Vec::new();
    let mut i: usize = 0;
    while i < path.len()
        invariant
            i <= path.len(),
            out@ == path@.take(i as int),
        decreases path.len() - i,
    {
        out.push(path[i].clone());
        proof {
            assert(out@ =~= path@.take(i + 1));
        }
        i = i + 1;
    }
    proof {
        assert(path@.take(path@.len() as int) =~= path@);
    }
    out
}

impl LeafEntry {
    /// The alignment of the leaf: the width of its type.
    pub open spec fn spec_alignment(self) -> nat {
        self.scalar_type.spec_size_bytes()
    }

    /// Returns the alignment of the leaf entry.
    pub fn get_alignment(&self) -> (r: usize)
        ensures
            r == self.spec_alignment(),
            r == 1 || r == 2 || r == 4 || r == 8,
    {
        self.scalar_type.size_bytes()
    }

    /// The rules a bitmap must meet: no size, an integer storage type, no
    /// field of zero bits, and widths that add up to the storage width.
    pub open spec fn spec_validate_bitmap(self, fields: Seq<BitmapField>) -> Result<(), LayoutError> {
        let expected = (self.scalar_type.spec_size_bytes() * 8) as usize;
        let total = total_bits(fields, fields.len());
        if self.size_keys.size is Some || self.size_keys.strict_size is Some {
            Err(LayoutError::DataValueExportFailed(ExportFailure::BitmapWithSize))
        } else if !self.scalar_type.spec_is_integer() {
            Err(LayoutError::DataValueExportFailed(ExportFailure::BitmapNotInteger))
        } else if exists|i: int| 0 <= i < fields.len() && fields[i].bits == 0 {
            Err(LayoutError::DataValueExportFailed(ExportFailure::BitmapZeroBits))
        } else if total != expected {
            Err(
                LayoutError::DataValueExportFailed(
                    ExportFailure::BitmapBitSum {
                        total: if total > usize::MAX {
                            usize::MAX
                        } else {
                            total as usize
                        },
                        expected,
                    },
                ),
            )
        } else {
            Ok(())
        }
    }

    /// Validates bitmap entry rules.
    #[verifier::rlimit(40)]
    pub fn validate_bitmap(&self, fields: &[BitmapField]) -> (r: Result<(), LayoutError>)
        ensures
            r == self.spec_validate_bitmap(fields@),
    {
        if self.size_keys.size.is_some() || self.size_keys.strict_size.is_some() {
            return Err(LayoutError::DataValueExportFailed(ExportFailure::BitmapWithSize));
        }
        if !self.scalar_type.is_integer() {
            return Err(LayoutError::DataValueExportFailed(ExportFailure::BitmapNotInteger));
        }
        let mut total: usize = 0;
        let mut i: usize = 0;
        while i < fields.len()
            invariant
                i <= fields.len(),
                self.size_keys.size is None,
                self.size_keys.strict_size is None,
                self.scalar_type.spec_is_integer(),
                forall|j: int| 0 <= j < i ==> fields@[j].bits != 0,
                total == (if total_bits(fields@, i as nat) > usize::MAX {
                    usize::MAX as nat
                } else {
                    total_bits(fields@, i as nat)
                }),
            decreases fields.len() - i,
        {
            if fields[i].bits == 0 {
                proof {
                    assert(0 <= i < fields@.len() && fields@[i as int].bits == 0);
                }
                return Err(LayoutError::DataValueExportFailed(ExportFailure::BitmapZeroBits));
            }
            total = total.saturating_add(fields[i].bits);
            i = i + 1;
        }
        let expected: usize = self.scalar_type.size_bytes() * 8;
        if total != expected {
            return Err(
                LayoutError::DataValueExportFailed(ExportFailure::BitmapBitSum { total, expected }),
            );
        }
        Ok(())
    }

    /// The bytes of a bitmap and the sink after it: the fields' bits, the
    /// first field lowest, written as one value of the storage type.
    pub open spec fn spec_bitmap<S: ValueSink>(
        self,
        fields: Seq<BitmapField>,
        answers: Seq<FieldAnswer>,
        config: BuildConfig,
        sink: S::Model,
        path: Seq<Seq<char>>,
    ) -> Result<(Seq<u8>, S::Model), LayoutError> {
        match bitmap_fold::<S>(
            fields,
            fields.len(),
            self.scalar_type.spec_is_signed(),
            answers,
            config.strict,
            sink,
            path,
        ) {
            Err(e) => Err(e),
            Ok(state) => Ok(
                (
                    endian_bytes(
                        state.accumulator,
                        self.scalar_type.spec_size_bytes(),
                        config.endianness,
                    ),
                    state.sink,
                ),
            ),
        }
    }

    /// Emits bytes for a bitmap entry that `validate_bitmap` has accepted,
    /// given what the data source answered for its fields.
    #[verifier::rlimit(40)]
    pub fn emit_bitmap<S: ValueSink>(
        &self,
        fields: &[BitmapField],
        answers: &[FieldAnswer],
        config: &BuildConfig,
        value_sink: &mut S,
        field_path: &[String],
    ) -> (r: Result<Vec<u8>, LayoutError>)
        requires
            self.spec_validate_bitmap(fields@) is Ok,
        ensures
            emitted_as(
                r,
                final(value_sink).model(),
                self.spec_bitmap::<S>(
                    fields@,
                    answers@,
                    *config,
                    old(value_sink).model(),
                    path_model(field_path@),
                ),
            ),
            final(value_sink).model() == bitmap_sink::<S>(
                fields@,
                fields@.len(),
                self.scalar_type.spec_is_signed(),
                answers@,
                config.strict,
                old(value_sink).model(),
                path_model(field_path@),
            ),
    {
        let signed = self.scalar_type.is_signed();
        let size = self.scalar_type.size_bytes();
        let mut accumulator: u64 = 0;
        let mut offset: usize = 0;
        let mut i: usize = 0;
        let ghost sink0 = value_sink.model();
        let ghost path = path_model(field_path@);
        proof {
            lemma_pow2_127();
            vstd::arithmetic::power2::lemma2_to64();
        }
        while i < fields.len()
            invariant
                i <= fields.len(),
                self.spec_validate_bitmap(fields@) is Ok,
                signed == self.scalar_type.spec_is_signed(),
                size == self.scalar_type.spec_size_bytes(),
                path == path_model(field_path@),
                sink0 == old(value_sink).model(),
                offset == total_bits(fields@, i as nat),
                offset <= 64,
                accumulator < pow2(offset as nat),
                bitmap_fold::<S>(fields@, i as nat, signed, answers@, config.strict, sink0, path)
                    == Ok::<BitmapState<S::Model>, LayoutError>(
                    BitmapState {
                        accumulator: accumulator as nat,
                        offset: offset as nat,
                        sink: value_sink.model(),
                    },
                ),
            decreases fields.len() - i,
        {
            let field = &fields[i];
            proof {
                lemma_total_bits_grows(fields@, (i + 1) as nat, fields@.len());
                assert(field.bits != 0);
                if bitmap_fold::<S>(
                    fields@,
                    (i + 1) as nat,
                    signed,
                    answers@,
                    config.strict,
                    sink0,
                    path,
                ) is Err {
                    lemma_bitmap_error_stays::<S>(
                        fields@,
                        (i + 1) as nat,
                        fields@.len(),
                        signed,
                        answers@,
                        config.strict,
                        sink0,
                        path,
                    );
                    lemma_bitmap_sink_stays::<S>(
                        fields@,
                        (i + 1) as nat,
                        fields@.len(),
                        signed,
                        answers@,
                        config.strict,
                        sink0,
                        path,
                    );
                    assert(bitmap_sink::<S>(
                        fields@,
                        (i + 1) as nat,
                        signed,
                        answers@,
                        config.strict,
                        sink0,
                        path,
                    ) == bitmap_sink::<S>(
                        fields@,
                        i as nat,
                        signed,
                        answers@,
                        config.strict,
                        sink0,
                        path,
                    ));
                    assert(bitmap_sink::<S>(
                        fields@,
                        i as nat,
                        signed,
                        answers@,
                        config.strict,
                        sink0,
                        path,
                    ) == value_sink.model());
                }
            }
            let none: FieldAnswer = None;
            let answer: &FieldAnswer = if i < answers.len() {
                &answers[i]
            } else {
                &none
            };
            let value = match field.resolve_fetched(answer) {
                Ok(v) => v,
                Err(e) => {
                    return Err(e);
                },
            };
            let stored = match clamp_bitfield_value(&value, field.bits, signed, config.strict) {
                Ok(v) => v,
                Err(e) => {
                    return Err(e);
                },
            };
            let pattern = field_pattern(stored, field.bits, signed);
            let mut bitmap_path = clone_path(field_path);
            bitmap_path.push(bitmap_field_key(field, offset));
            proof {
                assert(path_model(bitmap_path@) =~= path.push(field_key(*field, offset as nat)));
            }
            let exported = match i128_to_json(stored) {
                Ok(v) => v,
                Err(e) => {
                    return Err(e);
                },
            };
            match value_sink.record_value(bitmap_path.as_slice(), exported) {
                Ok(()) => {},
                Err(e) => {
                    return Err(e);
                },
            }
            let weight = power_of_two(offset as u32);
            proof {
                let b = field.bits as nat;
                let o = offset as nat;
                lemma_pow2_adds(b, o);
                lemma_pow2_pos(o);
                lemma_pow2_127();
                if o + b < 64 {
                    lemma_pow2_strictly_increases(o + b, 64);
                }
                if o < 64 {
                    lemma_pow2_strictly_increases(o, 64);
                }
                assert((pattern as nat) * pow2(o) + accumulator < pow2(b) * pow2(o))
                    by (nonlinear_arith)
                    requires
                        (pattern as nat) < pow2(b),
                        (accumulator as nat) < pow2(o),
                ;
                assert((pattern as nat) * pow2(o) >= 0) by (nonlinear_arith);
            }
            let placed: u128 = (pattern as u128) * weight;
            accumulator = (accumulator as u128 + placed) as u64;
            offset = offset + field.bits;
            i = i + 1;
        }
        proof {
            super::settings::lemma_radix_values();
        }
        Ok(encode_pattern(accumulator, size, config.endianness))
    }
}

impl LeafEntry {
    /// The one value of a field without a size: what the data source
    /// answered for the field's name, or the value written in the layout.
    /// A name without an answer is refused.
    pub open spec fn single_source(self, fetched: Fetched) -> Result<DataValue, LayoutError> {
        match self.source {
            EntrySource::Name(name) => match fetched {
                Fetched::Single(Ok(v)) => Ok(v),
                Fetched::Single(Err(e)) => Err(LayoutError::Data(e)),
                _ => Err(LayoutError::MissingDataSheet(MissingData::Field(name))),
            },
            EntrySource::Value(ValueSource::Single(v)) => Ok(v),
            _ => Err(LayoutError::DataValueExportFailed(ExportFailure::SingleValueExpected)),
        }
    }

    /// The bytes of a field without a size, and the sink after it: the value
    /// is recorded, then converted.
    pub open spec fn spec_single<S: ValueSink>(
        self,
        fetched: Fetched,
        config: BuildConfig,
        sink: S::Model,
        path: Seq<Seq<char>>,
    ) -> Result<(Seq<u8>, S::Model), LayoutError> {
        match self.single_source(fetched) {
            Err(e) => Err(e),
            Ok(v) => match record_in::<S>(sink, path, export_of(v)) {
                Err(e) => Err(e),
                Ok(sink_after) => match v.spec_to_bytes(
                    self.scalar_type,
                    config.endianness,
                    config.strict,
                ) {
                    Err(e) => Err(e),
                    Ok(bytes) => Ok((bytes, sink_after)),
                },
            },
        }
    }

    /// The bytes of a list or a string in a field of `total` bytes, and the
    /// sink after it. A string is only taken by a `u8` field and written as
    /// its UTF-8 bytes; a list is written value by value. What is longer
    /// than the field is refused; what is shorter is refused under a strict
    /// size and padded otherwise.
    pub open spec fn spec_list<S: ValueSink>(
        self,
        content: ValueSource,
        total: nat,
        strict_len: bool,
        config: BuildConfig,
        sink: S::Model,
        path: Seq<Seq<char>>,
    ) -> Result<(Seq<u8>, S::Model), LayoutError> {
        let exported = match content {
            ValueSource::Single(v) => export_of(v),
            ValueSource::Array(vs) => export_of_list(vs@),
        };
        let converted = match content {
            ValueSource::Single(v) => v.spec_string_bytes(),
            ValueSource::Array(vs) => values_bytes(
                vs@,
                vs@.len(),
                self.scalar_type,
                config.endianness,
                config.strict,
            ),
        };
        if content is Single && self.scalar_type != ScalarType::U8 {
            Err(LayoutError::DataValueExportFailed(ExportFailure::StringNeedsU8))
        } else {
            match record_in::<S>(sink, path, exported) {
                Err(e) => Err(e),
                Ok(sink_after) => match converted {
                    Err(e) => Err(e),
                    Ok(bytes) => if bytes.len() > total {
                        Err(LayoutError::DataValueExportFailed(ExportFailure::ArrayTooLarge))
                    } else if strict_len && bytes.len() < total {
                        Err(LayoutError::DataValueExportFailed(ExportFailure::ArrayTooSmall))
                    } else {
                        Ok(
                            (
                                bytes + padding_run((total - bytes.len()) as nat, config.padding),
                                sink_after,
                            ),
                        )
                    },
                },
            }
        }
    }

    /// The bytes of a field of `size` elements, and the sink after it.
    pub open spec fn spec_one_d<S: ValueSink>(
        self,
        size: usize,
        strict_len: bool,
        fetched: Fetched,
        config: BuildConfig,
        sink: S::Model,
        path: Seq<Seq<char>>,
    ) -> Result<(Seq<u8>, S::Model), LayoutError> {
        let total = size * self.scalar_type.spec_size_bytes();
        if total > usize::MAX {
            Err(LayoutError::DataValueExportFailed(ExportFailure::ArraySizeOverflow))
        } else {
            match self.source {
                EntrySource::Name(name) => match fetched {
                    Fetched::List(Ok(content)) => self.spec_list::<S>(
                        content,
                        total as nat,
                        strict_len,
                        config,
                        sink,
                        path,
                    ),
                    Fetched::List(Err(e)) => Err(LayoutError::Data(e)),
                    _ => Err(LayoutError::MissingDataSheet(MissingData::Field(name))),
                },
                EntrySource::Value(content) => self.spec_list::<S>(
                    content,
                    total as nat,
                    strict_len,
                    config,
                    sink,
                    path,
                ),
                EntrySource::Bitmap(_) => Err(
                    LayoutError::DataValueExportFailed(ExportFailure::BitmapWithSize),
                ),
            }
        }
    }

    /// The bytes of a table in a field of `rows` by `columns` elements, and
    /// the sink after it. Every row must have `columns` values; rows may be
    /// missing unless the size is strict, and are then padded.
    pub open spec fn spec_table<S: ValueSink>(
        self,
        data: Seq<Vec<DataValue>>,
        rows: usize,
        columns: usize,
        strict_len: bool,
        config: BuildConfig,
        sink: S::Model,
        path: Seq<Seq<char>>,
    ) -> Result<(Seq<u8>, S::Model), LayoutError> {
        let total = rows * columns * self.scalar_type.spec_size_bytes();
        if rows * columns > usize::MAX {
            Err(LayoutError::DataValueExportFailed(ExportFailure::TableSizeOverflow))
        } else if total > usize::MAX {
            Err(LayoutError::DataValueExportFailed(ExportFailure::TableByteCountOverflow))
        } else if exists|i: int| 0 <= i < data.len() && data[i]@.len() != columns {
            Err(LayoutError::DataValueExportFailed(ExportFailure::ColumnCountMismatch))
        } else if data.len() > rows {
            Err(LayoutError::DataValueExportFailed(ExportFailure::TooManyRows))
        } else if strict_len && data.len() < rows {
            Err(LayoutError::DataValueExportFailed(ExportFailure::TooFewRows))
        } else {
            match record_in::<S>(sink, path, export_of_table(data)) {
                Err(e) => Err(e),
                Ok(sink_after) => match rows_bytes(
                    data,
                    data.len(),
                    self.scalar_type,
                    config.endianness,
                    config.strict,
                ) {
                    Err(e) => Err(e),
                    Ok(bytes) => Ok(
                        (
                            bytes + padding_run(
                                if total > bytes.len() {
                                    (total - bytes.len()) as nat
                                } else {
                                    0
                                },
                                config.padding,
                            ),
                            sink_after,
                        ),
                    ),
                },
            }
        }
    }

    /// The bytes of a two-dimensional field, and the sink after it. Its table
    /// comes from the data source; one written in the layout is refused.
    pub open spec fn spec_two_d<S: ValueSink>(
        self,
        size: [usize; 2],
        strict_len: bool,
        fetched: Fetched,
        config: BuildConfig,
        sink: S::Model,
        path: Seq<Seq<char>>,
    ) -> Result<(Seq<u8>, S::Model), LayoutError> {
        match self.source {
            EntrySource::Name(name) => match fetched {
                Fetched::Table(Ok(data)) => self.spec_table::<S>(
                    data@,
                    size@[0],
                    size@[1],
                    strict_len,
                    config,
                    sink,
                    path,
                ),
                Fetched::Table(Err(e)) => Err(LayoutError::Data(e)),
                _ => Err(LayoutError::MissingDataSheet(MissingData::Field(name))),
            },
            _ => Err(LayoutError::DataValueExportFailed(ExportFailure::LiteralTableUnsupported)),
        }
    }

    /// The sink after a field without a size, whether or not its bytes
    /// result: with the value recorded, where there is one and it is
    /// accepted, and as it was otherwise.
    pub open spec fn single_sink<S: ValueSink>(
        self,
        fetched: Fetched,
        sink: S::Model,
        path: Seq<Seq<char>>,
    ) -> S::Model {
        match self.single_source(fetched) {
            Err(_) => sink,
            Ok(v) => kept_or_recorded::<S>(sink, path, export_of(v)),
        }
    }

    /// The sink after a list or a string, whether or not its bytes result:
    /// as it was for a string in a field of another type than `u8`, and
    /// else with the content recorded where it is accepted.
    pub open spec fn list_sink<S: ValueSink>(
        self,
        content: ValueSource,
        sink: S::Model,
        path: Seq<Seq<char>>,
    ) -> S::Model {
        match content {
            ValueSource::Single(v) => if self.scalar_type != ScalarType::U8 {
                sink
            } else {
                kept_or_recorded::<S>(sink, path, export_of(v))
            },
            ValueSource::Array(vs) => kept_or_recorded::<S>(sink, path, export_of_list(vs@)),
        }
    }

    /// The sink after a field of `size` elements, whether or not its bytes
    /// result: as it was where the field is refused before it has a
    /// content, and else what `list_sink` says.
    pub open spec fn one_d_sink<S: ValueSink>(
        self,
        size: usize,
        fetched: Fetched,
        sink: S::Model,
        path: Seq<Seq<char>>,
    ) -> S::Model {
        if size * self.scalar_type.spec_size_bytes() > usize::MAX {
            sink
        } else {
            match self.source {
                EntrySource::Name(_) => match fetched {
                    Fetched::List(Ok(content)) => self.list_sink::<S>(content, sink, path),
                    _ => sink,
                },
                EntrySource::Value(content) => self.list_sink::<S>(content, sink, path),
                EntrySource::Bitmap(_) => sink,
            }
        }
    }

    /// The sink after a table, whether or not its bytes result: as it was
    /// where the table does not fit the field's rows and columns, and else
    /// with the table recorded where it is accepted.
    pub open spec fn table_sink<S: ValueSink>(
        self,
        data: Seq<Vec<DataValue>>,
        rows: usize,
        columns: usize,
        strict_len: bool,
        sink: S::Model,
        path: Seq<Seq<char>>,
    ) -> S::Model {
        if rows * columns > usize::MAX || rows * columns * self.scalar_type.spec_size_bytes()
            > usize::MAX || (exists|i: int| 0 <= i < data.len() && data[i]@.len() != columns)
            || data.len() > rows || (strict_len && data.len() < rows) {
            sink
        } else {
            kept_or_recorded::<S>(sink, path, export_of_table(data))
        }
    }

    /// The sink after a two-dimensional field, whether or not its bytes
    /// result: as it was without a table from the data source, and else
    /// what `table_sink` says.
    pub open spec fn two_d_sink<S: ValueSink>(
        self,
        size: [usize; 2],
        strict_len: bool,
        fetched: Fetched,
        sink: S::Model,
        path: Seq<Seq<char>>,
    ) -> S::Model {
        match self.source {
            EntrySource::Name(_) => match fetched {
                Fetched::Table(Ok(data)) => self.table_sink::<S>(
                    data@,
                    size@[0],
                    size@[1],
                    strict_len,
                    sink,
                    path,
                ),
                _ => sink,
            },
            _ => sink,
        }
    }

    /// The sink that the leaf leaves, whether or not its bytes result.
    ///
    /// A leaf that is refused before it has a value leaves the sink as it
    /// was: a one-byte type under word addressing, a bitmap that is not
    /// valid, both size keys, a name without an answer or with an error for
    /// an answer, a value without an export, a value that the sink refuses.
    /// A value that is recorded and then fails to convert stays recorded.
    #[verifier::opaque]
    pub open spec fn spec_sink<S: ValueSink>(
        self,
        fetched: Fetched,
        config: BuildConfig,
        sink: S::Model,
        path: Seq<Seq<char>>,
    ) -> S::Model {
        if config.word_addressing && self.scalar_type.spec_size_bytes() == 1 {
            sink
        } else {
            match self.source {
                EntrySource::Bitmap(fields) => match self.spec_validate_bitmap(fields@) {
                    Err(_) => sink,
                    Ok(()) => bitmap_sink::<S>(
                        fields@,
                        fields@.len(),
                        self.scalar_type.spec_is_signed(),
                        Self::field_answers(fetched),
                        config.strict,
                        sink,
                        path,
                    ),
                },
                _ => match self.size_keys.spec_resolve() {
                    Err(_) => sink,
                    Ok((None, _)) => self.single_sink::<S>(fetched, sink, path),
                    Ok((Some(SizeSource::OneD(size)), _)) => self.one_d_sink::<S>(
                        size,
                        fetched,
                        sink,
                        path,
                    ),
                    Ok((Some(SizeSource::TwoD(size)), strict_len)) => self.two_d_sink::<S>(
                        size,
                        strict_len,
                        fetched,
                        sink,
                        path,
                    ),
                },
            }
        }
    }

    /// The answers for the fields of a bitmap that a `Fetched` holds.
    pub open spec fn field_answers(fetched: Fetched) -> Seq<FieldAnswer> {
        match fetched {
            Fetched::Fields(answers) => answers@,
            _ => Seq::empty(),
        }
    }

    /// The bytes that the leaf emits, and the sink after it, given what the
    /// data source answered.
    ///
    /// Under word addressing a one-byte type is refused. A bitmap is checked
    /// and packed. Any other leaf is a single value, a list or a table, as
    /// its size says.
    #[verifier::opaque]
    pub open spec fn spec_emit<S: ValueSink>(
        self,
        fetched: Fetched,
        config: BuildConfig,
        sink: S::Model,
        path: Seq<Seq<char>>,
    ) -> Result<(Seq<u8>, S::Model), LayoutError> {
        if config.word_addressing && self.scalar_type.spec_size_bytes() == 1 {
            Err(LayoutError::DataValueExportFailed(ExportFailure::ByteTypeWithWordAddressing))
        } else {
            match self.source {
                EntrySource::Bitmap(fields) => match self.spec_validate_bitmap(fields@) {
                    Err(e) => Err(e),
                    Ok(()) => self.spec_bitmap::<S>(
                        fields@,
                        Self::field_answers(fetched),
                        config,
                        sink,
                        path,
                    ),
                },
                _ => match self.size_keys.spec_resolve() {
                    Err(e) => Err(e),
                    Ok((None, _)) => self.spec_single::<S>(fetched, config, sink, path),
                    Ok((Some(SizeSource::OneD(size)), strict_len)) => self.spec_one_d::<S>(
                        size,
                        strict_len,
                        fetched,
                        config,
                        sink,
                        path,
                    ),
                    Ok((Some(SizeSource::TwoD(size)), strict_len)) => self.spec_two_d::<S>(
                        size,
                        strict_len,
                        fetched,
                        config,
                        sink,
                        path,
                    ),
                },
            }
        }
    }

    /// The names that the fields of a bitmap ask for, in order.
    pub open spec fn field_names(fields: Seq<BitmapField>) -> Seq<Option<Seq<char>>> {
        Seq::new(fields.len(), |i: int| fields[i].spec_asked())
    }

    /// What the leaf asks of a data source.
    ///
    /// Nothing, where the leaf is refused before any value is looked up (a
    /// one-byte type under word addressing, a bitmap that is not valid,
    /// both size keys) or where its value is written in the layout. A leaf
    /// that names a value asks for that name: a single value without a
    /// size, a list with a one-dimensional and a table with a
    /// two-dimensional size. A valid bitmap asks for the name of every
    /// field that has one.
    pub open spec fn spec_asked(self, config: BuildConfig) -> AskedModel {
        if config.word_addressing && self.scalar_type.spec_size_bytes() == 1 {
            AskedModel::Nothing
        } else {
            match self.source {
                EntrySource::Bitmap(fields) => if self.spec_validate_bitmap(fields@) is Ok {
                    AskedModel::Fields(Self::field_names(fields@))
                } else {
                    AskedModel::Nothing
                },
                EntrySource::Name(name) => match self.size_keys.spec_resolve() {
                    Err(_) => AskedModel::Nothing,
                    Ok((None, _)) => AskedModel::Single(name@),
                    Ok((Some(SizeSource::OneD(_)), _)) => AskedModel::List(name@),
                    Ok((Some(SizeSource::TwoD(_)), _)) => AskedModel::Table(name@),
                },
                EntrySource::Value(_) => AskedModel::Nothing,
            }
        }
    }

    /// True where `fetched` is an answer to what the leaf asks of a data
    /// source: see `spec_asked` and `answers_asked`.
    pub open spec fn answered_by(self, fetched: Fetched, config: BuildConfig) -> bool {
        answers_asked(fetched, self.spec_asked(config))
    }

    /// What the leaf asks of a data source: see `spec_asked`.
    pub fn asked(&self, config: &BuildConfig) -> (a: Asked)
        ensures
            a@ == self.spec_asked(*config),
    {
        if config.word_addressing && self.scalar_type.size_bytes() == 1 {
            return Asked::Nothing;
        }
        match &self.source {
            EntrySource::Bitmap(fields) => {
                if self.validate_bitmap(fields.as_slice()).is_err() {
                    return Asked::Nothing;
                }
                let mut names: Vec<Option<String>> = Vec::new();
                let mut i: usize = 0;
                while i < fields.len()
                    invariant
                        i <= fields.len(),
                        names@.len() == i,
                        forall|j: int|
                            0 <= j < i ==> asked_name(#[trigger] names@[j])
                                == fields@[j].spec_asked(),
                    decreases fields.len() - i,
                {
                    let name = fields[i].asked();
                    names.push(name);
                    i = i + 1;
                }
                let a = Asked::Fields(names);
                proof {
                    assert(a@->Fields_0 =~= Self::field_names(fields@));
                }
                a
            },
            EntrySource::Name(name) => match self.size_keys.resolve() {
                Err(_) => Asked::Nothing,
                Ok((None, _)) => Asked::Single(name.clone()),
                Ok((Some(SizeSource::OneD(_)), _)) => Asked::List(name.clone()),
                Ok((Some(SizeSource::TwoD(_)), _)) => Asked::Table(name.clone()),
            },
            EntrySource::Value(_) => Asked::Nothing,
        }
    }

    /// Asks the data source for what the leaf asks of it: see `asked` and
    /// `ask`. Without a data source nothing is asked.
    pub fn fetch<D: DataSource>(&self, data_source: Option<&D>, config: &BuildConfig) -> (fetched:
        Fetched)
        ensures
            data_source is None ==> fetched is Nothing,
            data_source is Some ==> self.answered_by(fetched, *config),
    {
        match data_source {
            None => Fetched::Nothing,
            Some(ds) => {
                let asked = self.asked(config);
                ask(&asked, ds)
            },
        }
    }

    /// Emits the bytes of a field without a size.
    pub fn emit_bytes_single<S: ValueSink>(
        &self,
        fetched: &Fetched,
        config: &BuildConfig,
        value_sink: &mut S,
        field_path: &[String],
    ) -> (r: Result<Vec<u8>, LayoutError>)
        ensures
            emitted_as(
                r,
                final(value_sink).model(),
                self.spec_single::<S>(
                    *fetched,
                    *config,
                    old(value_sink).model(),
                    path_model(field_path@),
                ),
            ),
            final(value_sink).model() == self.single_sink::<S>(
                *fetched,
                old(value_sink).model(),
                path_model(field_path@),
            ),
    {
        let value: DataValue = match &self.source {
            EntrySource::Name(name) => match fetched {
                Fetched::Single(Ok(v)) => v.clone(),
                Fetched::Single(Err(e)) => {
                    return Err(LayoutError::Data(e.clone()));
                },
                _ => {
                    return Err(LayoutError::MissingDataSheet(MissingData::Field(name.clone())));
                },
            },
            EntrySource::Value(ValueSource::Single(v)) => v.clone(),
            _ => {
                return Err(
                    LayoutError::DataValueExportFailed(ExportFailure::SingleValueExpected),
                );
            },
        };
        let exported = match data_value_to_json(&value) {
            Ok(v) => v,
            Err(e) => {
                return Err(e);
            },
        };
        match value_sink.record_value(field_path, exported) {
            Ok(()) => {},
            Err(e) => {
                return Err(e);
            },
        }
        value.to_bytes(self.scalar_type, &config.endianness, config.strict)
    }

    /// Emits the bytes of a list or a string in a field of `total` bytes.
    #[verifier::rlimit(40)]
    fn emit_list<S: ValueSink>(
        &self,
        content: &ValueSource,
        total: usize,
        strict_len: bool,
        config: &BuildConfig,
        value_sink: &mut S,
        field_path: &[String],
    ) -> (r: Result<Vec<u8>, LayoutError>)
        ensures
            emitted_as(
                r,
                final(value_sink).model(),
                self.spec_list::<S>(
                    *content,
                    total as nat,
                    strict_len,
                    *config,
                    old(value_sink).model(),
                    path_model(field_path@),
                ),
            ),
            final(value_sink).model() == self.list_sink::<S>(
                *content,
                old(value_sink).model(),
                path_model(field_path@),
            ),
    {
        let mut out: Vec<u8> = match content {
            ValueSource::Single(v) => {
                if !matches!(self.scalar_type, ScalarType::U8) {
                    return Err(LayoutError::DataValueExportFailed(ExportFailure::StringNeedsU8));
                }
                let exported = match data_value_to_json(v) {
                    Ok(x) => x,
                    Err(e) => {
                        return Err(e);
                    },
                };
                match value_sink.record_value(field_path, exported) {
                    Ok(()) => {},
                    Err(e) => {
                        return Err(e);
                    },
                }
                match v.string_to_bytes() {
                    Ok(bytes) => bytes,
                    Err(e) => {
                        return Err(e);
                    },
                }
            },
            ValueSource::Array(values) => {
                let exported = match array_to_json(values.as_slice()) {
                    Ok(x) => x,
                    Err(e) => {
                        return Err(e);
                    },
                };
                match value_sink.record_value(field_path, exported) {
                    Ok(()) => {},
                    Err(e) => {
                        return Err(e);
                    },
                }
                match encode_values(
                    values.as_slice(),
                    self.scalar_type,
                    &config.endianness,
                    config.strict,
                ) {
                    Ok(bytes) => bytes,
                    Err(e) => {
                        return Err(e);
                    },
                }
            },
        };
        if out.len() > total {
            return Err(LayoutError::DataValueExportFailed(ExportFailure::ArrayTooLarge));
        }
        if strict_len && out.len() < total {
            return Err(LayoutError::DataValueExportFailed(ExportFailure::ArrayTooSmall));
        }
        pad_to(&mut out, total, config.padding);
        Ok(out)
    }

    /// Emits the bytes of a field of `size` elements.
    pub fn emit_bytes_1d<S: ValueSink>(
        &self,
        fetched: &Fetched,
        size: usize,
        config: &BuildConfig,
        strict_len: bool,
        value_sink: &mut S,
        field_path: &[String],
    ) -> (r: Result<Vec<u8>, LayoutError>)
        ensures
            emitted_as(
                r,
                final(value_sink).model(),
                self.spec_one_d::<S>(
                    size,
                    strict_len,
                    *fetched,
                    *config,
                    old(value_sink).model(),
                    path_model(field_path@),
                ),
            ),
            final(value_sink).model() == self.one_d_sink::<S>(
                size,
                *fetched,
                old(value_sink).model(),
                path_model(field_path@),
            ),
    {
        let elem = self.scalar_type.size_bytes();
        let total_bytes = match size.checked_mul(elem) {
            Some(t) => t,
            None => {
                return Err(LayoutError::DataValueExportFailed(ExportFailure::ArraySizeOverflow));
            },
        };
        match &self.source {
            EntrySource::Name(name) => match fetched {
                Fetched::List(Ok(content)) => self.emit_list(
                    content,
                    total_bytes,
                    strict_len,
                    config,
                    value_sink,
                    field_path,
                ),
                Fetched::List(Err(e)) => Err(LayoutError::Data(e.clone())),
                _ => Err(LayoutError::MissingDataSheet(MissingData::Field(name.clone()))),
            },
            EntrySource::Value(content) => self.emit_list(
                content,
                total_bytes,
                strict_len,
                config,
                value_sink,
                field_path,
            ),
            EntrySource::Bitmap(_) => Err(
                LayoutError::DataValueExportFailed(ExportFailure::BitmapWithSize),
            ),
        }
    }

    /// Emits the bytes of a table in a field of `rows` by `columns` elements.
    #[verifier::rlimit(40)]
    fn emit_table<S: ValueSink>(
        &self,
        data: &Vec<Vec<DataValue>>,
        rows: usize,
        columns: usize,
        strict_len: bool,
        config: &BuildConfig,
        value_sink: &mut S,
        field_path: &[String],
    ) -> (r: Result<Vec<u8>, LayoutError>)
        ensures
            emitted_as(
                r,
                final(value_sink).model(),
                self.spec_table::<S>(
                    data@,
                    rows,
                    columns,
                    strict_len,
                    *config,
                    old(value_sink).model(),
                    path_model(field_path@),
                ),
            ),
            final(value_sink).model() == self.table_sink::<S>(
                data@,
                rows,
                columns,
                strict_len,
                old(value_sink).model(),
                path_model(field_path@),
            ),
    {
        let elem = self.scalar_type.size_bytes();
        let total_elems = match rows.checked_mul(columns) {
            Some(t) => t,
            None => {
                return Err(LayoutError::DataValueExportFailed(ExportFailure::TableSizeOverflow));
            },
        };
        let total_bytes = match total_elems.checked_mul(elem) {
            Some(t) => t,
            None => {
                return Err(
                    LayoutError::DataValueExportFailed(ExportFailure::TableByteCountOverflow),
                );
            },
        };
        let mut i: usize = 0;
        while i < data.len()
            invariant
                i <= data.len(),
                total_elems == rows * columns,
                total_bytes == rows * columns * self.scalar_type.spec_size_bytes(),
                forall|j: int| 0 <= j < i ==> data@[j]@.len() == columns,
            decreases data.len() - i,
        {
            if data[i].len() != columns {
                proof {
                    assert(0 <= i < data@.len() && data@[i as int]@.len() != columns);
                }
                return Err(LayoutError::DataValueExportFailed(ExportFailure::ColumnCountMismatch));
            }
            i = i + 1;
        }
        if data.len() > rows {
            return Err(LayoutError::DataValueExportFailed(ExportFailure::TooManyRows));
        }
        if strict_len && data.len() < rows {
            return Err(LayoutError::DataValueExportFailed(ExportFailure::TooFewRows));
        }
        let exported = match array_2d_to_json(data.as_slice()) {
            Ok(x) => x,
            Err(e) => {
                return Err(e);
            },
        };
        match value_sink.record_value(field_path, exported) {
            Ok(()) => {},
            Err(e) => {
                return Err(e);
            },
        }
        let mut out = match encode_rows(
            data.as_slice(),
            self.scalar_type,
            &config.endianness,
            config.strict,
        ) {
            Ok(bytes) => bytes,
            Err(e) => {
                return Err(e);
            },
        };
        pad_to(&mut out, total_bytes, config.padding);
        Ok(out)
    }

    /// Emits the bytes of a two-dimensional field.
    pub fn emit_bytes_2d<S: ValueSink>(
        &self,
        fetched: &Fetched,
        size: [usize; 2],
        config: &BuildConfig,
        strict_len: bool,
        value_sink: &mut S,
        field_path: &[String],
    ) -> (r: Result<Vec<u8>, LayoutError>)
        ensures
            emitted_as(
                r,
                final(value_sink).model(),
                self.spec_two_d::<S>(
                    size,
                    strict_len,
                    *fetched,
                    *config,
                    old(value_sink).model(),
                    path_model(field_path@),
                ),
            ),
            final(value_sink).model() == self.two_d_sink::<S>(
                size,
                strict_len,
                *fetched,
                old(value_sink).model(),
                path_model(field_path@),
            ),
    {
        match &self.source {
            EntrySource::Name(name) => match fetched {
                Fetched::Table(Ok(data)) => self.emit_table(
                    data,
                    size[0],
                    size[1],
                    strict_len,
                    config,
                    value_sink,
                    field_path,
                ),
                Fetched::Table(Err(e)) => Err(LayoutError::Data(e.clone())),
                _ => Err(LayoutError::MissingDataSheet(MissingData::Field(name.clone()))),
            },
            _ => Err(LayoutError::DataValueExportFailed(ExportFailure::LiteralTableUnsupported)),
        }
    }

    /// Emits the bytes of the leaf from what the data source answered,
    /// recording the values it resolves at `field_path`: see `spec_emit`.
    #[verifier::rlimit(40)]
    pub fn emit_fetched<S: ValueSink>(
        &self,
        fetched: &Fetched,
        config: &BuildConfig,
        value_sink: &mut S,
        field_path: &[String],
    ) -> (r: Result<Vec<u8>, LayoutError>)
        ensures
            emitted_as(
                r,
                final(value_sink).model(),
                self.spec_emit::<S>(
                    *fetched,
                    *config,
                    old(value_sink).model(),
                    path_model(field_path@),
                ),
            ),
            final(value_sink).model() == self.spec_sink::<S>(
                *fetched,
                *config,
                old(value_sink).model(),
                path_model(field_path@),
            ),
    {
        reveal(LeafEntry::spec_emit);
        reveal(LeafEntry::spec_sink);
        if config.word_addressing && self.scalar_type.size_bytes() == 1 {
            return Err(
                LayoutError::DataValueExportFailed(ExportFailure::ByteTypeWithWordAddressing),
            );
        }
        if let EntrySource::Bitmap(fields) = &self.source {
            match self.validate_bitmap(fields.as_slice()) {
                Ok(()) => {},
                Err(e) => {
                    return Err(e);
                },
            }
            let none: Vec<FieldAnswer> = Vec::new();
            let answers: &Vec<FieldAnswer> = match fetched {
                Fetched::Fields(answers) => answers,
                _ => &none,
            };
            return self.emit_bitmap(
                fields.as_slice(),
                answers.as_slice(),
                config,
                value_sink,
                field_path,
            );
        }
        let (size, strict_len) = match self.size_keys.resolve() {
            Ok(p) => p,
            Err(e) => {
                return Err(e);
            },
        };
        match size {
            None => self.emit_bytes_single(fetched, config, value_sink, field_path),
            Some(SizeSource::OneD(size)) => self.emit_bytes_1d(
                fetched,
                size,
                config,
                strict_len,
                value_sink,
                field_path,
            ),
            Some(SizeSource::TwoD(size)) => self.emit_bytes_2d(
                fetched,
                size,
                config,
                strict_len,
                value_sink,
                field_path,
            ),
        }
    }

    /// Emits the bytes of the leaf, recording the values it resolves at
    /// `field_path`. The data source is asked for what the leaf needs, and
    /// the result is what `spec_emit` gives for its answer; without a data
    /// source, for no answer.
    pub fn emit_bytes<D: DataSource, S: ValueSink>(
        &self,
        data_source: Option<&D>,
        config: &BuildConfig,
        value_sink: &mut S,
        field_path: &[String],
    ) -> (r: Result<Vec<u8>, LayoutError>)
        ensures
            exists|fetched: Fetched|
                {
                    &&& data_source is None ==> fetched is Nothing
                    &&& data_source is Some ==> self.answered_by(fetched, *config)
                    &&& emitted_as(
                        r,
                        final(value_sink).model(),
                        #[trigger] self.spec_emit::<S>(
                            fetched,
                            *config,
                            old(value_sink).model(),
                            path_model(field_path@),
                        ),
                    )
                    &&& final(value_sink).model() == self.spec_sink::<S>(
                        fetched,
                        *config,
                        old(value_sink).model(),
                        path_model(field_path@),
                    )
                },
    {
        let fetched = self.fetch(data_source, config);
        self.emit_fetched(&fetched, config, value_sink, field_path)
    }
}

/// The sum of the first fields of a bitmap fits the bits of those fields.
pub proof fn lemma_bitmap_sum_fits(
    fields: Seq<BitmapField>,
    answers: Seq<FieldAnswer>,
    signed: bool,
    strict: bool,
    count: nat,
)
    requires
        count <= fields.len(),
    ensures
        bitmap_sum(fields, answers, signed, strict, count) < pow2(total_bits(fields, count)),
    decreases count,
{
    if count == 0 {
        vstd::arithmetic::power2::lemma2_to64();
    } else {
        lemma_bitmap_sum_fits(fields, answers, signed, strict, (count - 1) as nat);
        let before = bitmap_sum(fields, answers, signed, strict, (count - 1) as nat);
        let offset = total_bits(fields, (count - 1) as nat);
        let bits = fields[count - 1].bits as nat;
        let pattern = field_bits(fields, answers, signed, strict, count - 1);
        lemma_pow2_pos(bits);
        lemma_pow2_pos(offset);
        lemma_pow2_adds(bits, offset);
        let held = saturate(
            offered(fields, answers, strict, count - 1)->Ok_0,
            bitfield_min(bits, signed),
            bitfield_max(bits, signed),
        );
        vstd::arithmetic::div_mod::lemma_mod_bound(held, pow2(bits) as int);
        assert(before + pattern * pow2(offset) < pow2(bits) * pow2(offset)) by (nonlinear_arith)
            requires
                pattern < pow2(bits),
                before < pow2(offset),
        ;
    }
}

/// The bytes of a bitmap read back as the sum of its fields.
///
/// Where a valid bitmap emits bytes, they are as many as the storage type
/// is wide, and read back in the layout's byte order they give the sum of
/// the fields' bits, each shifted left by the widths of the fields before
/// it: see `lemma_bitmap_is_sum`.
pub proof fn lemma_bitmap_round_trip<S: ValueSink>(
    leaf: LeafEntry,
    fields: Seq<BitmapField>,
    answers: Seq<FieldAnswer>,
    config: BuildConfig,
    sink: S::Model,
    path: Seq<Seq<char>>,
)
    requires
        leaf.spec_validate_bitmap(fields) is Ok,
        leaf.spec_bitmap::<S>(fields, answers, config, sink, path) is Ok,
    ensures
        leaf.spec_bitmap::<S>(fields, answers, config, sink, path)->Ok_0.0.len()
            == leaf.scalar_type.spec_size_bytes(),
        super::settings::endian_value(
            leaf.spec_bitmap::<S>(fields, answers, config, sink, path)->Ok_0.0,
            config.endianness,
        ) == bitmap_sum(
            fields,
            answers,
            leaf.scalar_type.spec_is_signed(),
            config.strict,
            fields.len(),
        ),
{
    let signed = leaf.scalar_type.spec_is_signed();
    let size = leaf.scalar_type.spec_size_bytes();
    lemma_bitmap_is_sum::<S>(fields, fields.len(), signed, answers, config.strict, sink, path);
    lemma_bitmap_sum_fits(fields, answers, signed, config.strict, fields.len());
    let sum = bitmap_sum(fields, answers, signed, config.strict, fields.len());
    super::settings::lemma_radix_values();
    vstd::arithmetic::power2::lemma2_to64();
    vstd::arithmetic::power2::lemma2_to64_rest();
    assert(total_bits(fields, fields.len()) == size * 8);
    assert(pow2(total_bits(fields, fields.len())) == radix(size));
    super::settings::lemma_endian_round_trip(sum, size, config.endianness);
    vstd::arithmetic::div_mod::lemma_small_mod(sum, radix(size));
}

/// A scalar field gives back its value.
///
/// Where a field without a size emits bytes, its value is the one written
/// in the layout or answered for its name, the bytes are as many as its
/// type is wide, and reading them back in the layout's byte order gives
/// what the type stores for the value: for an integer that the type can
/// hold, the integer itself, in strict and in lossy mode.
pub proof fn lemma_single_field_round_trip<S: ValueSink>(
    leaf: LeafEntry,
    fetched: Fetched,
    config: BuildConfig,
    sink: S::Model,
    path: Seq<Seq<char>>,
)
    requires
        leaf.spec_single::<S>(fetched, config, sink, path) is Ok,
    ensures
        leaf.single_source(fetched) is Ok,
        ({
            let value = leaf.single_source(fetched)->Ok_0;
            let ty = leaf.scalar_type;
            let bytes = leaf.spec_single::<S>(fetched, config, sink, path)->Ok_0.0;
            &&& bytes.len() == ty.spec_size_bytes()
            &&& Ok::<Seq<u8>, LayoutError>(bytes) == value.spec_to_bytes(
                ty,
                config.endianness,
                config.strict,
            )
            &&& ty.spec_is_integer() ==> super::value::decode_integer(bytes, ty, config.endianness)
                == super::conversions::to_integer(value, ty, config.strict)->Ok_0
            &&& (ty.spec_is_integer() && super::value::integer_of(value) is Some && ty.min_value()
                <= super::value::integer_of(value)->Some_0 <= ty.max_value())
                ==> super::value::decode_integer(bytes, ty, config.endianness)
                == super::value::integer_of(value)->Some_0
            &&& !ty.spec_is_integer() ==> super::settings::endian_value(bytes, config.endianness)
                == super::conversions::to_float(
                value,
                super::value::float_format(ty),
                config.strict,
            )->Ok_0
        }),
{
    let value = leaf.single_source(fetched)->Ok_0;
    let ty = leaf.scalar_type;
    super::value::lemma_scalar_round_trip(value, ty, config.endianness, config.strict);
    if ty.spec_is_integer() && super::value::integer_of(value) is Some && ty.min_value()
        <= super::value::integer_of(value)->Some_0 <= ty.max_value() {
        super::value::lemma_representable_round_trip(value, ty, config.endianness, config.strict);
    }
}

/// A scalar field whose value fits is written.
///
/// A field of an integer type without a size, whose value is an integer
/// that the type can hold, emits its bytes whenever the sink accepts the
/// value, in strict and in lossy mode.
pub proof fn lemma_single_field_succeeds<S: ValueSink>(
    leaf: LeafEntry,
    fetched: Fetched,
    config: BuildConfig,
    sink: S::Model,
    path: Seq<Seq<char>>,
)
    requires
        leaf.scalar_type.spec_is_integer(),
        leaf.single_source(fetched) is Ok,
        super::value::integer_of(leaf.single_source(fetched)->Ok_0) is Some,
        leaf.scalar_type.min_value() <= super::value::integer_of(
            leaf.single_source(fetched)->Ok_0,
        )->Some_0 <= leaf.scalar_type.max_value(),
        record_in::<S>(sink, path, export_of(leaf.single_source(fetched)->Ok_0)) is Ok,
    ensures
        leaf.spec_single::<S>(fetched, config, sink, path) is Ok,
{
    super::value::lemma_representable_round_trip(
        leaf.single_source(fetched)->Ok_0,
        leaf.scalar_type,
        config.endianness,
        config.strict,
    );
}

/// The widths of more fields add up to no less.
pub proof fn lemma_total_bits_grows(fields: Seq<BitmapField>, count: nat, more: nat)
    requires
        count <= more <= fields.len(),
    ensures
        total_bits(fields, count) <= total_bits(fields, more),
    decreases more - count,
{
    if count < more {
        lemma_total_bits_grows(fields, count, (more - 1) as nat);
    }
}

} // verus!
