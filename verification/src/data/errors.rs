use vstd::prelude::*;
use vstd::string::StringExecFns;

verus! {

/// Why a data source could not supply a value.
#[derive(Debug)]
pub enum DataError {
    FileError(String),
    MiscError(String),
    RetrievalError(String),
    ColumnNotFound(String),
    /// The error `source`, met while the value called `name` was fetched.
    WhileRetrieving { name: String, source: Box<DataError> },
}

/// The mathematical content of a `DataError`.
pub enum DataErrorModel {
    FileError(Seq<char>),
    MiscError(Seq<char>),
    RetrievalError(Seq<char>),
    ColumnNotFound(Seq<char>),
    WhileRetrieving { name: Seq<char>, source: Box<DataErrorModel> },
}

impl DataError {
    /// The content of the error.
    pub open spec fn model(self) -> DataErrorModel
        decreases self,
    {
        match self {
            DataError::FileError(text) => DataErrorModel::FileError(text@),
            DataError::MiscError(text) => DataErrorModel::MiscError(text@),
            DataError::RetrievalError(text) => DataErrorModel::RetrievalError(text@),
            DataError::ColumnNotFound(text) => DataErrorModel::ColumnNotFound(text@),
            DataError::WhileRetrieving { name, source } => DataErrorModel::WhileRetrieving {
                name: name@,
                source: Box::new(source.model()),
            },
        }
    }

    /// A retrieval error with the given text.
    pub fn retrieval(text: &str) -> (r: DataError)
        ensures
            r.model() == DataErrorModel::RetrievalError(text@),
    {
        DataError::RetrievalError(String::from_str(text))
    }

    /// The error `source`, met while the value called `name` was fetched.
    pub fn while_retrieving(name: &str, source: DataError) -> (r: DataError)
        ensures
            r.model() == (DataErrorModel::WhileRetrieving {
                name: name@,
                source: Box::new(source.model()),
            }),
    {
        DataError::WhileRetrieving { name: String::from_str(name), source: Box::new(source) }
    }
}

/// The error `source`, met while the value called `name` was fetched.
pub open spec fn wrapped(name: Seq<char>, source: DataErrorModel) -> DataErrorModel {
    DataErrorModel::WhileRetrieving { name, source: Box::new(source) }
}

/// A failed retrieval of the value called `name`, with the given text.
pub open spec fn refused(name: Seq<char>, text: Seq<char>) -> DataErrorModel {
    wrapped(name, DataErrorModel::RetrievalError(text))
}

impl Clone for DataError {
    fn clone(&self) -> (r: Self)
        ensures
            r == *self,
        decreases self,
    {
        match self {
            DataError::FileError(text) => DataError::FileError(text.clone()),
            DataError::MiscError(text) => DataError::MiscError(text.clone()),
            DataError::RetrievalError(text) => DataError::RetrievalError(text.clone()),
            DataError::ColumnNotFound(text) => DataError::ColumnNotFound(text.clone()),
            DataError::WhileRetrieving { name, source } => DataError::WhileRetrieving {
                name: name.clone(),
                source: Box::new((**source).clone()),
            },
        }
    }
}

impl DataError {
    /// The text of the error.
    pub open spec fn message_text(self) -> Seq<char>
        decreases self,
    {
        match self {
            DataError::FileError(text) => "File error: "@ + text@ + "."@,
            DataError::MiscError(text) => "Miscellaneous error: "@ + text@ + "."@,
            DataError::RetrievalError(text) => "Retrieval error: "@ + text@ + "."@,
            DataError::ColumnNotFound(text) => "Column not found: "@ + text@ + "."@,
            DataError::WhileRetrieving { name, source } => "While retrieving '"@ + name@ + "': "@
                + source.message_text(),
        }
    }

    /// The text of the error.
    pub fn message(&self) -> (r: String)
        ensures
            r@ == self.message_text(),
        decreases self,
    {
        match self {
            DataError::FileError(text) => {
                let mut out = String::from_str("File error: ");
                out.append(text.as_str());
                out.append(".");
                out
            },
            DataError::MiscError(text) => {
                let mut out = String::from_str("Miscellaneous error: ");
                out.append(text.as_str());
                out.append(".");
                out
            },
            DataError::RetrievalError(text) => {
                let mut out = String::from_str("Retrieval error: ");
                out.append(text.as_str());
                out.append(".");
                out
            },
            DataError::ColumnNotFound(text) => {
                let mut out = String::from_str("Column not found: ");
                out.append(text.as_str());
                out.append(".");
                out
            },
            DataError::WhileRetrieving { name, source } => {
                let mut out = String::from_str("While retrieving '");
                out.append(name.as_str());
                out.append("': ");
                let inner = source.message();
                out.append(inner.as_str());
                out
            },
        }
    }
}

} // verus!
