//! A data source of sheets: a main sheet that lists names with their values
//! in one column for each version, and further sheets that hold lists and
//! tables.

use vstd::prelude::*;
use vstd::string::StringExecFns;
use crate::layout::text::{
    folded_text, is_blank, matches_ignoring_case, reference_of, strip_hash, trimmed,
};
use crate::layout::value::{DataValue, ValueSource};
use crate::order::deduplicated;
use super::errors::{refused, wrapped, DataError, DataErrorModel};
use super::DataSource;

verus! {

/// What a cell of a sheet holds. A floating-point number is held as its
/// IEEE-754 binary64 bit pattern.
#[derive(Debug)]
pub enum Cell {
    Empty,
    Int(i64),
    Float(u64),
    Bool(bool),
    Text(String),
    /// A date, a duration or an error.
    Other,
}

impl Clone for Cell {
    fn clone(&self) -> (r: Self)
        ensures
            r == *self,
    {
        match self {
            Cell::Empty => Cell::Empty,
            Cell::Int(v) => Cell::Int(*v),
            Cell::Float(v) => Cell::Float(*v),
            Cell::Bool(v) => Cell::Bool(*v),
            Cell::Text(v) => Cell::Text(v.clone()),
            Cell::Other => Cell::Other,
        }
    }
}

impl Cell {
    /// True for a cell that holds nothing, or text of nothing but white
    /// space.
    pub open spec fn spec_is_empty(self) -> bool {
        match self {
            Cell::Empty => true,
            Cell::Text(text) => trimmed(text@).len() == 0,
            _ => false,
        }
    }

    /// True for a cell that holds the text `target`, up to white space
    /// around it and to the case of ASCII letters.
    pub open spec fn spec_matches(self, target: Seq<char>) -> bool {
        match self {
            Cell::Text(text) => folded_text(trimmed(text@)) == folded_text(target),
            _ => false,
        }
    }

    /// The number that the cell holds, where it holds one.
    pub open spec fn number(self) -> Option<DataValue> {
        match self {
            Cell::Int(v) => Some(DataValue::I64(v)),
            Cell::Float(v) => Some(DataValue::F64(v)),
            Cell::Bool(v) => Some(DataValue::Bool(v)),
            _ => None,
        }
    }

    /// The value that the cell gives to a list: its number or its text.
    pub open spec fn list_value(self) -> Option<DataValue> {
        match self {
            Cell::Text(text) => Some(DataValue::Str(text)),
            _ => self.number(),
        }
    }

    /// Tells whether the cell holds nothing.
    pub fn cell_is_empty(&self) -> (r: bool)
        ensures
            r == self.spec_is_empty(),
    {
        match self {
            Cell::Empty => true,
            Cell::Text(text) => is_blank(text.as_str()),
            _ => false,
        }
    }

    /// Tells whether the cell holds the text `target`, up to white space
    /// and the case of ASCII letters.
    pub fn cell_eq_ascii(&self, target: &str) -> (r: bool)
        ensures
            r == self.spec_matches(target@),
    {
        match self {
            Cell::Text(text) => matches_ignoring_case(text.as_str(), target),
            _ => false,
        }
    }

    /// The number that the cell holds.
    pub fn to_number(&self) -> (r: Option<DataValue>)
        ensures
            r == self.number(),
    {
        match self {
            Cell::Int(v) => Some(DataValue::I64(*v)),
            Cell::Float(v) => Some(DataValue::F64(*v)),
            Cell::Bool(v) => Some(DataValue::Bool(*v)),
            _ => None,
        }
    }

    /// The value that the cell gives to a list.
    pub fn to_list_value(&self) -> (r: Option<DataValue>)
        ensures
            r == self.list_value(),
    {
        match self {
            Cell::Text(text) => Some(DataValue::Str(text.clone())),
            _ => self.to_number(),
        }
    }
}

/// A sheet: its name and its rows of cells.
#[derive(Debug)]
pub struct Sheet {
    pub name: String,
    pub rows: Vec<Vec<Cell>>,
}

/// The place of the first header that reads `target`.
pub open spec fn header_index(headers: Seq<Cell>, target: Seq<char>) -> Option<int>
    decreases headers.len(),
{
    if headers.len() == 0 {
        None
    } else if headers[0].spec_matches(target) {
        Some(0)
    } else {
        match header_index(headers.drop_first(), target) {
            Some(i) => Some(i + 1),
            None => None,
        }
    }
}

proof fn lemma_header_index(headers: Seq<Cell>, target: Seq<char>)
    ensures
        match header_index(headers, target) {
            Some(i) => 0 <= i < headers.len() && headers[i].spec_matches(target) && forall|j: int|
                0 <= j < i ==> !(#[trigger] headers[j]).spec_matches(target),
            None => forall|j: int|
                0 <= j < headers.len() ==> !(#[trigger] headers[j]).spec_matches(target),
        },
    decreases headers.len(),
{
    if headers.len() > 0 && !headers[0].spec_matches(target) {
        lemma_header_index(headers.drop_first(), target);
        match header_index(headers.drop_first(), target) {
            Some(i) => {
                assert forall|j: int| 0 <= j < i + 1 implies !(#[trigger] headers[j]).spec_matches(
                    target,
                ) by {
                    if j > 0 {
                        assert(!headers.drop_first()[j - 1].spec_matches(target));
                    }
                }
            },
            None => {
                assert forall|j: int| 0 <= j < headers.len() implies !(
                #[trigger] headers[j]).spec_matches(target) by {
                    if j > 0 {
                        assert(!headers.drop_first()[j - 1].spec_matches(target));
                    }
                }
            },
        }
    }
}

/// The place of the first header that reads `target`, up to white space
/// and the case of ASCII letters.
pub fn find_header(headers: &[Cell], target: &str) -> (r: Option<usize>)
    ensures
        match r {
            Some(i) => header_index(headers@, target@) == Some(i as int) && i < headers@.len(),
            None => header_index(headers@, target@) is None,
        },
{
    let mut i: usize = 0;
    while i < headers.len()
        invariant
            i <= headers.len(),
            forall|j: int| 0 <= j < i ==> !(#[trigger] headers@[j]).spec_matches(target@),
        decreases headers.len() - i,
    {
        if headers[i].cell_eq_ascii(target) {
            proof {
                lemma_header_index(headers@, target@);
            }
            return Some(i);
        }
        i = i + 1;
    }
    proof {
        lemma_header_index(headers@, target@);
    }
    None
}

/// The cell at `index` of a row; an empty cell where the row is shorter.
pub open spec fn cell_or_empty(row: Seq<Cell>, index: int) -> Cell {
    if 0 <= index < row.len() {
        row[index]
    } else {
        Cell::Empty
    }
}

/// The column at `index` of the rows behind the first, which holds the
/// headers.
pub open spec fn column_of(rows: Seq<Vec<Cell>>, index: int) -> Seq<Cell> {
    Seq::new(
        if rows.len() > 0 {
            (rows.len() - 1) as nat
        } else {
            0
        },
        |i: int| cell_or_empty(rows[i + 1]@, index),
    )
}

/// The column at `index` of the rows behind the header row.
pub fn collect_column(rows: &[Vec<Cell>], index: usize) -> (column: Vec<Cell>)
    ensures
        column@ == column_of(rows@, index as int),
{
    let mut column: Vec<Cell> = Vec::new();
    let mut i: usize = 1;
    while i < rows.len()
        invariant
            1 <= i,
            i <= rows.len() || i == 1,
            column@.len() == i - 1,
            forall|j: int|
                0 <= j < column@.len() ==> #[trigger] column@[j] == cell_or_empty(
                    rows@[j + 1]@,
                    index as int,
                ),
        decreases rows.len() - i,
    {
        let row = &rows[i];
        if index < row.len() {
            column.push(row[index].clone());
        } else {
            column.push(Cell::Empty);
        }
        i = i + 1;
    }
    proof {
        assert(column@ =~= column_of(rows@, index as int));
    }
    column
}

/// The columns of the first `count` of `versions`, each the column under
/// the header that reads the version; the error of the first version that
/// no header reads.
pub open spec fn columns_of(
    headers: Seq<Cell>,
    rows: Seq<Vec<Cell>>,
    versions: Seq<Seq<char>>,
    count: nat,
) -> Result<Seq<Seq<Cell>>, DataErrorModel>
    decreases count,
{
    if count == 0 || count > versions.len() {
        Ok(Seq::empty())
    } else {
        match columns_of(headers, rows, versions, (count - 1) as nat) {
            Err(e) => Err(e),
            Ok(columns) => match header_index(headers, versions[count - 1]) {
                None => Err(DataErrorModel::ColumnNotFound(versions[count - 1])),
                Some(i) => Ok(columns.push(column_of(rows, i))),
            },
        }
    }
}

/// Once a version has no column, the versions have none.
pub proof fn lemma_columns_error_stays(
    headers: Seq<Cell>,
    rows: Seq<Vec<Cell>>,
    versions: Seq<Seq<char>>,
    count: nat,
    more: nat,
)
    requires
        count <= more <= versions.len(),
        columns_of(headers, rows, versions, count) is Err,
    ensures
        columns_of(headers, rows, versions, more) == columns_of(headers, rows, versions, count),
    decreases more - count,
{
    if count < more {
        lemma_columns_error_stays(headers, rows, versions, count, (more - 1) as nat);
    }
}

/// The texts of a list of strings.
pub open spec fn version_texts(versions: Seq<String>) -> Seq<Seq<char>> {
    Seq::new(versions.len(), |i: int| versions[i]@)
}

/// The contents of a list of columns.
pub open spec fn column_views(columns: Seq<Vec<Cell>>) -> Seq<Seq<Cell>> {
    Seq::new(columns.len(), |i: int| columns[i]@)
}

/// The versions, each once, the first occurrence in its place.
pub fn distinct_versions(versions: &[String]) -> (distinct: Vec<String>)
    ensures
        version_texts(distinct@) == deduplicated(version_texts(versions@)),
{
    let ghost wanted = version_texts(versions@);
    let mut distinct: Vec<String> = Vec::new();
    let mut i: usize = 0;
    proof {
        assert(version_texts(distinct@) =~= deduplicated(wanted.take(0)));
    }
    while i < versions.len()
        invariant
            i <= versions.len(),
            wanted == version_texts(versions@),
            version_texts(distinct@) == deduplicated(wanted.take(i as int)),
        decreases versions.len() - i,
    {
        let ghost before = version_texts(distinct@);
        proof {
            assert(wanted.take(i + 1).drop_last() =~= wanted.take(i as int));
            assert(wanted.take(i + 1).last() == versions@[i as int]@);
        }
        let mut known = false;
        let mut k: usize = 0;
        while k < distinct.len()
            invariant
                k <= distinct.len(),
                i < versions.len(),
                known == exists|j: int|
                    0 <= j < k && #[trigger] version_texts(distinct@)[j] == versions@[i as int]@,
            decreases distinct.len() - k,
        {
            if distinct[k] == versions[i] {
                proof {
                    assert(version_texts(distinct@)[k as int] == versions@[i as int]@);
                }
                known = true;
            }
            k = k + 1;
        }
        if !known {
            distinct.push(versions[i].clone());
            proof {
                assert(version_texts(distinct@) =~= before.push(versions@[i as int]@));
            }
        }
        i = i + 1;
    }
    proof {
        assert(wanted.take(versions@.len() as int) =~= wanted);
    }
    distinct
}

/// For every one of `versions`, in order, the column under the header that
/// reads it.
fn columns_for(headers: &[Cell], rows: &[Vec<Cell>], versions: &Vec<String>) -> (r: Result<
    Vec<Vec<Cell>>,
    DataError,
>)
    ensures
        match r {
            Ok(columns) => columns_of(
                headers@,
                rows@,
                version_texts(versions@),
                versions@.len(),
            ) == Ok::<Seq<Seq<Cell>>, DataErrorModel>(column_views(columns@)),
            Err(e) => columns_of(headers@, rows@, version_texts(versions@), versions@.len())
                == Err::<Seq<Seq<Cell>>, DataErrorModel>(e.model()),
        },
{
    let ghost names = version_texts(versions@);
    let mut columns: Vec<Vec<Cell>> = Vec::new();
    let mut v: usize = 0;
    proof {
        assert(column_views(columns@) =~= Seq::empty());
    }
    while v < versions.len()
        invariant
            v <= versions.len(),
            names == version_texts(versions@),
            columns_of(headers@, rows@, names, v as nat) == Ok::<Seq<Seq<Cell>>, DataErrorModel>(
                column_views(columns@),
            ),
        decreases versions.len() - v,
    {
        let ghost before = column_views(columns@);
        match find_header(headers, versions[v].as_str()) {
            None => {
                proof {
                    lemma_columns_error_stays(
                        headers@,
                        rows@,
                        names,
                        (v + 1) as nat,
                        names.len(),
                    );
                }
                return Err(DataError::ColumnNotFound(versions[v].clone()));
            },
            Some(index) => {
                let column = collect_column(rows, index);
                columns.push(column);
                proof {
                    assert(column_views(columns@) =~= before.push(column_of(rows@, index as int)));
                }
            },
        }
        v = v + 1;
    }
    Ok(columns)
}

/// The version columns of a main sheet: for every version, once, in the
/// order of `versions`, the column under the header that reads it. The
/// first row of `rows` holds the headers.
pub fn collect_version_columns(headers: &[Cell], rows: &[Vec<Cell>], versions: &[String]) -> (r:
    Result<Vec<Vec<Cell>>, DataError>)
    ensures
        match r {
            Ok(columns) => columns_of(
                headers@,
                rows@,
                deduplicated(version_texts(versions@)),
                deduplicated(version_texts(versions@)).len(),
            ) == Ok::<Seq<Seq<Cell>>, DataErrorModel>(column_views(columns@)),
            Err(e) => columns_of(
                headers@,
                rows@,
                deduplicated(version_texts(versions@)),
                deduplicated(version_texts(versions@)).len(),
            ) == Err::<Seq<Seq<Cell>>, DataErrorModel>(e.model()),
        },
{
    let distinct = distinct_versions(versions);
    columns_for(headers, rows, &distinct)
}

/// What a main sheet gives for `versions`: the place of the column of
/// names, under the header `Name`, and the version columns. A sheet without
/// rows, without that header, or without a column for a version gives an
/// error, the first of these that applies.
pub open spec fn main_sheet_of(rows: Seq<Vec<Cell>>, versions: Seq<Seq<char>>) -> Result<
    (int, Seq<Seq<Cell>>),
    DataErrorModel,
> {
    if rows.len() == 0 {
        Err(DataErrorModel::RetrievalError("invalid main sheet format."@))
    } else {
        match header_index(rows[0]@, "Name"@) {
            None => Err(DataErrorModel::ColumnNotFound("Name"@)),
            Some(i) => match columns_of(rows[0]@, rows, versions, versions.len()) {
                Err(e) => Err(e),
                Ok(columns) => Ok((i, columns)),
            },
        }
    }
}

/// Reads a main sheet, whose first row holds the headers: the place of
/// the column of names and, for every version once, in the order of
/// `versions`, its column.
pub fn read_main_sheet(rows: &[Vec<Cell>], versions: &[String]) -> (r: Result<
    (usize, Vec<Vec<Cell>>),
    DataError,
>)
    ensures
        match r {
            Ok((index, columns)) => main_sheet_of(
                rows@,
                deduplicated(version_texts(versions@)),
            ) == Ok::<(int, Seq<Seq<Cell>>), DataErrorModel>(
                (index as int, column_views(columns@)),
            ),
            Err(e) => main_sheet_of(rows@, deduplicated(version_texts(versions@))) == Err::<
                (int, Seq<Seq<Cell>>),
                DataErrorModel,
            >(e.model()),
        },
{
    if rows.len() == 0 {
        return Err(DataError::retrieval("invalid main sheet format."));
    }
    let headers = rows[0].as_slice();
    let index = match find_header(headers, "Name") {
        Some(index) => index,
        None => {
            return Err(DataError::ColumnNotFound(String::from_str("Name")));
        },
    };
    match collect_version_columns(headers, rows, versions) {
        Ok(columns) => Ok((index, columns)),
        Err(e) => Err(e),
    }
}

/// A data source of sheets.
///
/// `names` lists the names of the main sheet, row by row; every version
/// column holds, row by row, the values of one version, the columns in the
/// order of their priority; and `sheets` are the other sheets, which cells
/// of the main sheet refer to with `#` and a sheet's name.
#[derive(Debug)]
pub struct ExcelDataSource {
    pub names: Vec<String>,
    pub version_columns: Vec<Vec<Cell>>,
    pub sheets: Vec<Sheet>,
}

/// The place of the first of `names` that is `name`.
pub open spec fn name_index(names: Seq<String>, name: Seq<char>) -> Option<int>
    decreases names.len(),
{
    if names.len() == 0 {
        None
    } else if names[0]@ == name {
        Some(0)
    } else {
        match name_index(names.drop_first(), name) {
            Some(i) => Some(i + 1),
            None => None,
        }
    }
}

proof fn lemma_name_index(names: Seq<String>, name: Seq<char>)
    ensures
        match name_index(names, name) {
            Some(i) => 0 <= i < names.len() && names[i]@ == name && forall|j: int|
                0 <= j < i ==> (#[trigger] names[j])@ != name,
            None => forall|j: int| 0 <= j < names.len() ==> (#[trigger] names[j])@ != name,
        },
    decreases names.len(),
{
    if names.len() > 0 && names[0]@ != name {
        lemma_name_index(names.drop_first(), name);
        match name_index(names.drop_first(), name) {
            Some(i) => {
                assert forall|j: int| 0 <= j < i + 1 implies (#[trigger] names[j])@ != name by {
                    if j > 0 {
                        assert(names.drop_first()[j - 1]@ != name);
                    }
                }
            },
            None => {
                assert forall|j: int| 0 <= j < names.len() implies (#[trigger] names[j])@
                    != name by {
                    if j > 0 {
                        assert(names.drop_first()[j - 1]@ != name);
                    }
                }
            },
        }
    }
}

/// The place of the first of `names` that is `name`.
pub fn find_name(names: &Vec<String>, name: &String) -> (r: Option<usize>)
    ensures
        match r {
            Some(i) => name_index(names@, name@) == Some(i as int) && i < names@.len(),
            None => name_index(names@, name@) is None,
        },
{
    let mut i: usize = 0;
    while i < names.len()
        invariant
            i <= names.len(),
            forall|j: int| 0 <= j < i ==> (#[trigger] names@[j])@ != name@,
        decreases names.len() - i,
    {
        if names[i] == *name {
            proof {
                lemma_name_index(names@, name@);
            }
            return Some(i);
        }
        i = i + 1;
    }
    proof {
        lemma_name_index(names@, name@);
    }
    None
}

/// The first cell at row `index` that holds something, in the columns from
/// `from` on.
pub open spec fn first_value(columns: Seq<Vec<Cell>>, index: int, from: nat) -> Option<Cell>
    decreases columns.len() - from,
{
    if from >= columns.len() {
        None
    } else if 0 <= index < columns[from as int]@.len()
        && !columns[from as int]@[index].spec_is_empty() {
        Some(columns[from as int]@[index])
    } else {
        first_value(columns, index, from + 1)
    }
}

/// The place of the first sheet called `name`.
pub open spec fn sheet_index(sheets: Seq<Sheet>, name: Seq<char>) -> Option<int>
    decreases sheets.len(),
{
    if sheets.len() == 0 {
        None
    } else if sheets[0].name@ == name {
        Some(0)
    } else {
        match sheet_index(sheets.drop_first(), name) {
            Some(i) => Some(i + 1),
            None => None,
        }
    }
}

proof fn lemma_sheet_index(sheets: Seq<Sheet>, name: Seq<char>)
    ensures
        match sheet_index(sheets, name) {
            Some(i) => 0 <= i < sheets.len() && sheets[i].name@ == name && forall|j: int|
                0 <= j < i ==> (#[trigger] sheets[j]).name@ != name,
            None => forall|j: int| 0 <= j < sheets.len() ==> (#[trigger] sheets[j]).name@ != name,
        },
    decreases sheets.len(),
{
    if sheets.len() > 0 && sheets[0].name@ != name {
        lemma_sheet_index(sheets.drop_first(), name);
        match sheet_index(sheets.drop_first(), name) {
            Some(i) => {
                assert forall|j: int| 0 <= j < i + 1 implies (#[trigger] sheets[j]).name@
                    != name by {
                    if j > 0 {
                        assert(sheets.drop_first()[j - 1].name@ != name);
                    }
                }
            },
            None => {
                assert forall|j: int| 0 <= j < sheets.len() implies (#[trigger] sheets[j]).name@
                    != name by {
                    if j > 0 {
                        assert(sheets.drop_first()[j - 1].name@ != name);
                    }
                }
            },
        }
    }
}

/// The names of the first `count` sheets, separated by a comma and a
/// space.
pub open spec fn sheet_names(sheets: Seq<Sheet>, count: nat) -> Seq<char>
    decreases count,
{
    if count == 0 || count > sheets.len() {
        Seq::empty()
    } else if count == 1 {
        sheets[0].name@
    } else {
        sheet_names(sheets, (count - 1) as nat) + ", "@ + sheets[count - 1].name@
    }
}

/// The text of the error for a sheet that is not there.
pub open spec fn sheet_missing(sheets: Seq<Sheet>, name: Seq<char>) -> DataErrorModel {
    DataErrorModel::RetrievalError(
        "Sheet not found: '"@ + name + "'. Available sheets: "@ + sheet_names(
            sheets,
            sheets.len(),
        ),
    )
}

/// The values of the first column of the rows from `from` on, down to the
/// first row whose first cell holds nothing. A cell that holds neither a
/// number nor text is refused.
pub open spec fn list_from(rows: Seq<Vec<Cell>>, from: nat) -> Result<Seq<DataValue>, DataErrorModel>
    decreases rows.len() - from,
{
    if from >= rows.len() || rows[from as int]@.len() == 0
        || rows[from as int]@[0].spec_is_empty() {
        Ok(Seq::empty())
    } else {
        match rows[from as int]@[0].list_value() {
            None => Err(DataErrorModel::RetrievalError("Unsupported data type in 1D array"@)),
            Some(v) => match list_from(rows, from + 1) {
                Err(e) => Err(e),
                Ok(rest) => Ok(seq![v] + rest),
            },
        }
    }
}

/// The number of cells at the start of a header row that hold something.
pub open spec fn header_width(headers: Seq<Cell>) -> nat
    decreases headers.len(),
{
    if headers.len() == 0 || headers[0].spec_is_empty() {
        0
    } else {
        1 + header_width(headers.drop_first())
    }
}

/// How the reading of a row of a table ends.
pub enum RowOutcome {
    /// The row has a cell that holds nothing: the table ends before it.
    Stop,
    /// The row has a cell that holds no number.
    Refused,
    /// The numbers of the row.
    Row(Seq<DataValue>),
}

/// The numbers of the cells of `row` from `from` up to `width`.
pub open spec fn row_from(row: Seq<Cell>, from: nat, width: nat) -> RowOutcome
    decreases width - from,
{
    if from >= width {
        RowOutcome::Row(Seq::empty())
    } else if from >= row.len() || row[from as int].spec_is_empty() {
        RowOutcome::Stop
    } else {
        match row[from as int].number() {
            None => RowOutcome::Refused,
            Some(v) => match row_from(row, from + 1, width) {
                RowOutcome::Row(rest) => RowOutcome::Row(seq![v] + rest),
                other => other,
            },
        }
    }
}

/// The rows of a table of `width` columns from the row at `from` on, down
/// to the first row that has a cell which holds nothing.
pub open spec fn table_from(rows: Seq<Vec<Cell>>, from: nat, width: nat) -> Result<
    Seq<Seq<DataValue>>,
    DataErrorModel,
>
    decreases rows.len() - from,
{
    if from >= rows.len() || rows[from as int]@.len() == 0
        || rows[from as int]@[0].spec_is_empty() {
        Ok(Seq::empty())
    } else {
        match row_from(rows[from as int]@, 0, width) {
            RowOutcome::Stop => Ok(Seq::empty()),
            RowOutcome::Refused => Err(
                DataErrorModel::RetrievalError("Unsupported data type in 2D array"@),
            ),
            RowOutcome::Row(values) => match table_from(rows, from + 1, width) {
                Err(e) => Err(e),
                Ok(rest) => Ok(seq![values] + rest),
            },
        }
    }
}

/// A list or a text as a data source gives it.
pub enum ListModel {
    Single(DataValue),
    Array(Seq<DataValue>),
}

/// The content of a `ValueSource`.
pub open spec fn list_model(source: ValueSource) -> ListModel {
    match source {
        ValueSource::Single(v) => ListModel::Single(v),
        ValueSource::Array(vs) => ListModel::Array(vs@),
    }
}

/// The contents of the rows of a table.
pub open spec fn table_model(rows: Seq<Vec<DataValue>>) -> Seq<Seq<DataValue>> {
    Seq::new(rows.len(), |i: int| rows[i]@)
}

/// The first cell at row `index` that holds something, in the order of the
/// columns.
fn first_in_columns(columns: &Vec<Vec<Cell>>, index: usize) -> (r: Option<&Cell>)
    ensures
        match r {
            Some(cell) => first_value(columns@, index as int, 0) == Some(*cell),
            None => first_value(columns@, index as int, 0) is None,
        },
{
    let mut c: usize = 0;
    while c < columns.len()
        invariant
            c <= columns.len(),
            first_value(columns@, index as int, c as nat) == first_value(columns@, index as int, 0),
        decreases columns.len() - c,
    {
        let column = &columns[c];
        if index < column.len() && !column[index].cell_is_empty() {
            return Some(&column[index]);
        }
        c = c + 1;
    }
    None
}

/// The list in the first column of a sheet, below its header: see
/// `list_from`.
fn read_list(rows: &Vec<Vec<Cell>>) -> (r: Result<Vec<DataValue>, DataError>)
    ensures
        match r {
            Ok(values) => list_from(rows@, 1) == Ok::<Seq<DataValue>, DataErrorModel>(values@),
            Err(e) => list_from(rows@, 1) == Err::<Seq<DataValue>, DataErrorModel>(e.model()),
        },
{
    let mut out: Vec<DataValue> = Vec::new();
    let mut i: usize = 1;
    proof {
        assert(out@ + Seq::<DataValue>::empty() =~= out@);
    }
    while i < rows.len()
        invariant
            1 <= i,
            list_from(rows@, 1) == (match list_from(rows@, i as nat) {
                Ok(rest) => Ok::<Seq<DataValue>, DataErrorModel>(out@ + rest),
                Err(e) => Err::<Seq<DataValue>, DataErrorModel>(e),
            }),
        decreases rows.len() - i,
    {
        let row = &rows[i];
        if row.len() == 0 || row[0].cell_is_empty() {
            proof {
                assert(out@ + Seq::<DataValue>::empty() =~= out@);
            }
            return Ok(out);
        }
        let ghost before = out@;
        match row[0].to_list_value() {
            None => {
                return Err(DataError::retrieval("Unsupported data type in 1D array"));
            },
            Some(v) => {
                out.push(v);
                proof {
                    match list_from(rows@, (i + 1) as nat) {
                        Ok(rest) => {
                            assert(before + (seq![v] + rest) =~= out@ + rest);
                        },
                        Err(_) => {},
                    }
                }
            },
        }
        i = i + 1;
    }
    proof {
        assert(out@ + Seq::<DataValue>::empty() =~= out@);
    }
    Ok(out)
}

/// The table of `width` columns in a sheet, below its header: see
/// `table_from`.
fn read_table(rows: &Vec<Vec<Cell>>, width: usize) -> (r: Result<Vec<Vec<DataValue>>, DataError>)
    ensures
        match r {
            Ok(table) => table_from(rows@, 1, width as nat) == Ok::<
                Seq<Seq<DataValue>>,
                DataErrorModel,
            >(table_model(table@)),
            Err(e) => table_from(rows@, 1, width as nat) == Err::<
                Seq<Seq<DataValue>>,
                DataErrorModel,
            >(e.model()),
        },
{
    let mut out: Vec<Vec<DataValue>> = Vec::new();
    let mut i: usize = 1;
    proof {
        assert(table_model(out@) + Seq::<Seq<DataValue>>::empty() =~= table_model(out@));
    }
    while i < rows.len()
        invariant
            1 <= i,
            table_from(rows@, 1, width as nat) == (match table_from(rows@, i as nat, width as nat) {
                Ok(rest) => Ok::<Seq<Seq<DataValue>>, DataErrorModel>(table_model(out@) + rest),
                Err(e) => Err::<Seq<Seq<DataValue>>, DataErrorModel>(e),
            }),
        decreases rows.len() - i,
    {
        let row = &rows[i];
        if row.len() == 0 || row[0].cell_is_empty() {
            proof {
                assert(table_model(out@) + Seq::<Seq<DataValue>>::empty() =~= table_model(out@));
            }
            return Ok(out);
        }
        let ghost before = table_model(out@);
        match ExcelDataSource::table_row(row, width) {
            None => {
                return Err(DataError::retrieval("Unsupported data type in 2D array"));
            },
            Some(None) => {
                proof {
                    assert(table_model(out@) + Seq::<Seq<DataValue>>::empty() =~= table_model(
                        out@,
                    ));
                }
                return Ok(out);
            },
            Some(Some(values)) => {
                let ghost content = values@;
                out.push(values);
                proof {
                    assert(table_model(out@) =~= before.push(content));
                    match table_from(rows@, (i + 1) as nat, width as nat) {
                        Ok(rest) => {
                            assert(before + (seq![content] + rest) =~= table_model(out@) + rest);
                        },
                        Err(_) => {},
                    }
                }
            },
        }
        i = i + 1;
    }
    proof {
        assert(table_model(out@) + Seq::<Seq<DataValue>>::empty() =~= table_model(out@));
    }
    Ok(out)
}

impl ExcelDataSource {
    /// The cell that holds the value of `name`: at the row of `name` in the
    /// main sheet, the first cell in the order of the version columns that
    /// holds something.
    pub open spec fn found_cell(self, name: Seq<char>) -> Result<Cell, DataErrorModel> {
        match name_index(self.names@, name) {
            None => Err(DataErrorModel::RetrievalError("index not found in data sheet"@)),
            Some(i) => match first_value(self.version_columns@, i, 0) {
                Some(cell) => Ok(cell),
                None => Err(
                    DataErrorModel::RetrievalError("data not found in any version column"@),
                ),
            },
        }
    }

    /// The sheet called `name`.
    pub open spec fn found_sheet(self, name: Seq<char>) -> Result<Sheet, DataErrorModel> {
        match sheet_index(self.sheets@, name) {
            Some(i) => Ok(self.sheets@[i]),
            None => Err(sheet_missing(self.sheets@, name)),
        }
    }

    /// The single value of `name`: the number in its cell.
    pub open spec fn single_of(self, name: Seq<char>) -> Result<DataValue, DataErrorModel> {
        match self.found_cell(name) {
            Err(e) => Err(wrapped(name, e)),
            Ok(cell) => match cell.number() {
                Some(v) => Ok(v),
                None => Err(refused(name, "Found non-numeric single value"@)),
            },
        }
    }

    /// The list or text of `name`. Its cell holds a text: with a leading
    /// `#` the name of the sheet whose first column, below the header, is
    /// the list; and else the text itself.
    pub open spec fn list_of(self, name: Seq<char>) -> Result<ListModel, DataErrorModel> {
        match self.found_cell(name) {
            Err(e) => Err(wrapped(name, e)),
            Ok(Cell::Text(text)) => match reference_of(text@) {
                None => Ok(ListModel::Single(DataValue::Str(text))),
                Some(sheet_name) => match self.found_sheet(sheet_name) {
                    Err(e) => Err(wrapped(name, e)),
                    Ok(sheet) => match list_from(sheet.rows@, 1) {
                        Err(e) => Err(wrapped(name, e)),
                        Ok(values) => Ok(ListModel::Array(values)),
                    },
                },
            },
            Ok(_) => Err(refused(name, "Expected string value for 1D array or string"@)),
        }
    }

    /// The table of `name`. Its cell holds `#` and the name of a sheet; the
    /// table is as wide as the sheet has headers, and holds the rows below
    /// them.
    pub open spec fn table_of(self, name: Seq<char>) -> Result<Seq<Seq<DataValue>>, DataErrorModel> {
        match self.found_cell(name) {
            Err(e) => Err(wrapped(name, e)),
            Ok(Cell::Text(text)) => match reference_of(text@) {
                None => Err(
                    refused(
                        name,
                        "2D array reference must start with '#' prefix, got: "@ + text@,
                    ),
                ),
                Some(sheet_name) => match self.found_sheet(sheet_name) {
                    Err(e) => Err(wrapped(name, e)),
                    Ok(sheet) => if sheet.rows@.len() == 0 {
                        Err(refused(name, "No headers found in 2D array"@))
                    } else if header_width(sheet.rows@[0]@) == 0 {
                        Err(refused(name, "Detected zero width 2D array"@))
                    } else {
                        match table_from(sheet.rows@, 1, header_width(sheet.rows@[0]@)) {
                            Err(e) => Err(wrapped(name, e)),
                            Ok(rows) => Ok(rows),
                        }
                    },
                },
            },
            Ok(_) => Err(refused(name, "Expected string value for 2D array"@)),
        }
    }

    /// The cell that holds the value of `name`: see `found_cell`.
    pub fn retrieve_cell(&self, name: &str) -> (r: Result<&Cell, DataError>)
        ensures
            match r {
                Ok(cell) => self.found_cell(name@) == Ok::<Cell, DataErrorModel>(*cell),
                Err(e) => self.found_cell(name@) == Err::<Cell, DataErrorModel>(e.model()),
            },
    {
        let wanted = String::from_str(name);
        let index = match find_name(&self.names, &wanted) {
            Some(i) => i,
            None => {
                return Err(DataError::retrieval("index not found in data sheet"));
            },
        };
        match first_in_columns(&self.version_columns, index) {
            Some(cell) => Ok(cell),
            None => Err(DataError::retrieval("data not found in any version column")),
        }
    }

    /// The sheet called `name`.
    pub fn find_sheet(&self, name: &String) -> (r: Result<&Sheet, DataError>)
        ensures
            match r {
                Ok(sheet) => self.found_sheet(name@) == Ok::<Sheet, DataErrorModel>(*sheet),
                Err(e) => self.found_sheet(name@) == Err::<Sheet, DataErrorModel>(e.model()),
            },
    {
        let mut i: usize = 0;
        while i < self.sheets.len()
            invariant
                i <= self.sheets.len(),
                forall|j: int| 0 <= j < i ==> (#[trigger] self.sheets@[j]).name@ != name@,
            decreases self.sheets.len() - i,
        {
            if self.sheets[i].name == *name {
                proof {
                    lemma_sheet_index(self.sheets@, name@);
                }
                return Ok(&self.sheets[i]);
            }
            i = i + 1;
        }
        proof {
            lemma_sheet_index(self.sheets@, name@);
        }
        let mut text = String::from_str("Sheet not found: '");
        text.append(name.as_str());
        text.append("'. Available sheets: ");
        let ghost head = text@;
        let mut k: usize = 0;
        while k < self.sheets.len()
            invariant
                k <= self.sheets.len(),
                text@ == head + sheet_names(self.sheets@, k as nat),
            decreases self.sheets.len() - k,
        {
            if k > 0 {
                text.append(", ");
            }
            text.append(self.sheets[k].name.as_str());
            proof {
                if k == 0 {
                    assert(text@ =~= head + sheet_names(self.sheets@, 1));
                } else {
                    assert(text@ =~= head + sheet_names(self.sheets@, (k + 1) as nat));
                }
            }
            k = k + 1;
        }
        Err(DataError::RetrievalError(text))
    }

    fn single_value(&self, name: &str) -> (r: Result<DataValue, DataError>)
        ensures
            match r {
                Ok(v) => self.single_of(name@) == Ok::<DataValue, DataErrorModel>(v),
                Err(e) => self.single_of(name@) == Err::<DataValue, DataErrorModel>(e.model()),
            },
    {
        match self.retrieve_cell(name) {
            Err(e) => Err(DataError::while_retrieving(name, e)),
            Ok(cell) => match cell.to_number() {
                Some(v) => Ok(v),
                None => Err(
                    DataError::while_retrieving(
                        name,
                        DataError::retrieval("Found non-numeric single value"),
                    ),
                ),
            },
        }
    }

    fn list(&self, name: &str) -> (r: Result<ValueSource, DataError>)
        ensures
            match r {
                Ok(v) => self.list_of(name@) == Ok::<ListModel, DataErrorModel>(list_model(v)),
                Err(e) => self.list_of(name@) == Err::<ListModel, DataErrorModel>(e.model()),
            },
    {
        let cell = match self.retrieve_cell(name) {
            Ok(c) => c,
            Err(e) => {
                return Err(DataError::while_retrieving(name, e));
            },
        };
        let text = match cell {
            Cell::Text(text) => text,
            _ => {
                return Err(
                    DataError::while_retrieving(
                        name,
                        DataError::retrieval("Expected string value for 1D array or string"),
                    ),
                );
            },
        };
        let sheet_name = match strip_hash(text.as_str()) {
            Some(n) => n,
            None => {
                return Ok(ValueSource::Single(DataValue::Str(text.clone())));
            },
        };
        let sheet = match self.find_sheet(&sheet_name) {
            Ok(s) => s,
            Err(e) => {
                return Err(DataError::while_retrieving(name, e));
            },
        };
        match read_list(&sheet.rows) {
            Ok(values) => Ok(ValueSource::Array(values)),
            Err(e) => Err(DataError::while_retrieving(name, e)),
        }
    }

    /// The numbers of a row of a table: see `row_from`.
    fn table_row(row: &Vec<Cell>, width: usize) -> (r: Option<Option<Vec<DataValue>>>)
        ensures
            match r {
                None => row_from(row@, 0, width as nat) is Refused,
                Some(None) => row_from(row@, 0, width as nat) is Stop,
                Some(Some(values)) => row_from(row@, 0, width as nat) == RowOutcome::Row(values@),
            },
    {
        let mut values: Vec<DataValue> = Vec::new();
        let mut col: usize = 0;
        proof {
            assert(values@ + Seq::<DataValue>::empty() =~= values@);
        }
        while col < width
            invariant
                col <= width,
                row_from(row@, 0, width as nat) == (match row_from(row@, col as nat, width as nat) {
                    RowOutcome::Row(rest) => RowOutcome::Row(values@ + rest),
                    other => other,
                }),
            decreases width - col,
        {
            if col >= row.len() || row[col].cell_is_empty() {
                return Some(None);
            }
            let ghost before = values@;
            match row[col].to_number() {
                None => {
                    return None;
                },
                Some(v) => {
                    values.push(v);
                    proof {
                        match row_from(row@, (col + 1) as nat, width as nat) {
                            RowOutcome::Row(rest) => {
                                assert(before + (seq![v] + rest) =~= values@ + rest);
                            },
                            _ => {},
                        }
                    }
                },
            }
            col = col + 1;
        }
        proof {
            assert(values@ + Seq::<DataValue>::empty() =~= values@);
        }
        Some(Some(values))
    }

    /// The number of cells at the start of a header row that hold
    /// something.
    fn width_of(headers: &Vec<Cell>) -> (width: usize)
        ensures
            width == header_width(headers@),
    {
        let mut width: usize = 0;
        proof {
            assert(headers@.skip(0) =~= headers@);
        }
        while width < headers.len() && !headers[width].cell_is_empty()
            invariant
                width <= headers.len(),
                header_width(headers@) == width + header_width(headers@.skip(width as int)),
            decreases headers.len() - width,
        {
            proof {
                assert(headers@.skip(width as int).drop_first() =~= headers@.skip(width + 1));
            }
            width = width + 1;
        }
        width
    }

    fn table(&self, name: &str) -> (r: Result<Vec<Vec<DataValue>>, DataError>)
        ensures
            match r {
                Ok(rows) => self.table_of(name@) == Ok::<Seq<Seq<DataValue>>, DataErrorModel>(
                    table_model(rows@),
                ),
                Err(e) => self.table_of(name@) == Err::<Seq<Seq<DataValue>>, DataErrorModel>(
                    e.model(),
                ),
            },
    {
        let cell = match self.retrieve_cell(name) {
            Ok(c) => c,
            Err(e) => {
                return Err(DataError::while_retrieving(name, e));
            },
        };
        let text = match cell {
            Cell::Text(text) => text,
            _ => {
                return Err(
                    DataError::while_retrieving(
                        name,
                        DataError::retrieval("Expected string value for 2D array"),
                    ),
                );
            },
        };
        let sheet_name = match strip_hash(text.as_str()) {
            Some(n) => n,
            None => {
                let mut message = String::from_str(
                    "2D array reference must start with '#' prefix, got: ",
                );
                message.append(text.as_str());
                return Err(
                    DataError::while_retrieving(name, DataError::RetrievalError(message)),
                );
            },
        };
        let sheet = match self.find_sheet(&sheet_name) {
            Ok(s) => s,
            Err(e) => {
                return Err(DataError::while_retrieving(name, e));
            },
        };
        let rows = &sheet.rows;
        if rows.len() == 0 {
            return Err(
                DataError::while_retrieving(
                    name,
                    DataError::retrieval("No headers found in 2D array"),
                ),
            );
        }
        let width = Self::width_of(&rows[0]);
        if width == 0 {
            return Err(
                DataError::while_retrieving(
                    name,
                    DataError::retrieval("Detected zero width 2D array"),
                ),
            );
        }
        match read_table(rows, width) {
            Ok(table) => Ok(table),
            Err(e) => Err(DataError::while_retrieving(name, e)),
        }
    }
}

impl DataSource for ExcelDataSource {
    /// The number in the cell of `name`: see `single_of`.
    fn retrieve_single_value(&self, name: &str) -> (r: Result<DataValue, DataError>)
        ensures
            match r {
                Ok(v) => self.single_of(name@) == Ok::<DataValue, DataErrorModel>(v),
                Err(e) => self.single_of(name@) == Err::<DataValue, DataErrorModel>(e.model()),
            },
    {
        self.single_value(name)
    }

    /// The list or text of `name`: see `list_of`.
    fn retrieve_1d_array_or_string(&self, name: &str) -> (r: Result<ValueSource, DataError>)
        ensures
            match r {
                Ok(v) => self.list_of(name@) == Ok::<ListModel, DataErrorModel>(list_model(v)),
                Err(e) => self.list_of(name@) == Err::<ListModel, DataErrorModel>(e.model()),
            },
    {
        self.list(name)
    }

    /// The table of `name`: see `table_of`.
    fn retrieve_2d_array(&self, name: &str) -> (r: Result<Vec<Vec<DataValue>>, DataError>)
        ensures
            match r {
                Ok(rows) => self.table_of(name@) == Ok::<Seq<Seq<DataValue>>, DataErrorModel>(
                    table_model(rows@),
                ),
                Err(e) => self.table_of(name@) == Err::<Seq<Seq<DataValue>>, DataErrorModel>(
                    e.model(),
                ),
            },
    {
        self.table(name)
    }
}

} // verus!
