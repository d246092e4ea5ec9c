use vstd::prelude::*;
use crate::layout::text::{listed_names, split_names, texts_of};

verus! {

/// The kinds of source that values can come from.
#[derive(Debug, Clone, Copy, PartialEq, Eq)]
pub enum SourceKind {
    /// A workbook.
    Xlsx,
    /// A Postgres database.
    Postgres,
    /// A REST service.
    Rest,
    /// A GraphQL service.
    Graphql,
    /// A JSON text with the values by version.
    Json,
}

/// The first kind of source that is given, in the order workbook,
/// database, REST service, GraphQL service, JSON text.
pub open spec fn first_given(
    xlsx: bool,
    postgres: bool,
    rest: bool,
    graphql: bool,
    json: bool,
) -> Option<SourceKind> {
    if xlsx {
        Some(SourceKind::Xlsx)
    } else if postgres {
        Some(SourceKind::Postgres)
    } else if rest {
        Some(SourceKind::Rest)
    } else if graphql {
        Some(SourceKind::Graphql)
    } else if json {
        Some(SourceKind::Json)
    } else {
        None
    }
}

/// Where the values come from, and for which versions.
#[derive(Debug, Clone)]
pub struct DataArgs {
    /// Path to the Excel versions file.
    pub xlsx: Option<String>,
    /// Main sheet name in Excel.
    pub main_sheet: Option<String>,
    /// Path to a JSON file, or a JSON text, with the Postgres configuration.
    pub postgres: Option<String>,
    /// Path to a JSON file, or a JSON text, with the REST configuration.
    pub rest: Option<String>,
    /// Path to a JSON file, or a JSON text, with the GraphQL configuration.
    pub graphql: Option<String>,
    /// Path to a JSON file, or a JSON text, with the values by version.
    pub json: Option<String>,
    /// Version columns to use in priority order, separated by `/`.
    pub version: Option<String>,
    /// The older name of `version`, used where `version` is not given.
    pub variant: Option<String>,
}

impl Default for DataArgs {
    fn default() -> (r: Self)
        ensures
            r.xlsx is None,
            r.main_sheet is None,
            r.postgres is None,
            r.rest is None,
            r.graphql is None,
            r.json is None,
            r.version is None,
            r.variant is None,
    {
        DataArgs {
            xlsx: None,
            main_sheet: None,
            postgres: None,
            rest: None,
            graphql: None,
            json: None,
            version: None,
            variant: None,
        }
    }
}

impl DataArgs {
    /// The kind of source that these arguments select.
    pub open spec fn spec_source_kind(self) -> Option<SourceKind> {
        first_given(
            self.xlsx is Some,
            self.postgres is Some,
            self.rest is Some,
            self.graphql is Some,
            self.json is Some,
        )
    }

    /// The kind of source that these arguments select: the first that is
    /// given, in the order workbook, database, REST service, GraphQL
    /// service, JSON text; none where none is given.
    pub fn source_kind(&self) -> (r: Option<SourceKind>)
        ensures
            r == self.spec_source_kind(),
    {
        if self.xlsx.is_some() {
            Some(SourceKind::Xlsx)
        } else if self.postgres.is_some() {
            Some(SourceKind::Postgres)
        } else if self.rest.is_some() {
            Some(SourceKind::Rest)
        } else if self.graphql.is_some() {
            Some(SourceKind::Graphql)
        } else if self.json.is_some() {
            Some(SourceKind::Json)
        } else {
            None
        }
    }

    /// The list of versions as it was given: `version`, or `variant` where
    /// there is no `version`.
    pub open spec fn raw_versions(self) -> Option<String> {
        if self.version is Some {
            self.version
        } else {
            self.variant
        }
    }

    /// The versions in priority order: the names between the `/` of the
    /// list, without the white space around them and without empty names.
    /// No list gives no version.
    pub fn get_version_list(&self) -> (versions: Vec<String>)
        ensures
            texts_of(versions@) == (match self.raw_versions() {
                Some(raw) => listed_names(raw@, '/'),
                None => Seq::empty(),
            }),
    {
        let raw = match &self.version {
            Some(v) => Some(v),
            None => match &self.variant {
                Some(v) => Some(v),
                None => None,
            },
        };
        names_of(raw)
    }
}

/// The data arguments of a program that knows no GraphQL service.
#[derive(Debug, Clone)]
pub struct VersionArgs {
    /// Path to the Excel versions file.
    pub xlsx: Option<String>,
    /// Main sheet name in Excel.
    pub main_sheet: Option<String>,
    /// Path to a JSON file, or a JSON text, with the Postgres configuration.
    pub postgres: Option<String>,
    /// Path to a JSON file, or a JSON text, with the REST configuration.
    pub rest: Option<String>,
    /// Path to a JSON file, or a JSON text, with the values by version.
    pub json: Option<String>,
    /// Version columns to use in priority order, separated by `/`.
    pub version: Option<String>,
    /// The older name of `version`, used where `version` is not given.
    pub variant: Option<String>,
}

impl Default for VersionArgs {
    fn default() -> (r: Self)
        ensures
            r.xlsx is None,
            r.main_sheet is None,
            r.postgres is None,
            r.rest is None,
            r.json is None,
            r.version is None,
            r.variant is None,
    {
        VersionArgs {
            xlsx: None,
            main_sheet: None,
            postgres: None,
            rest: None,
            json: None,
            version: None,
            variant: None,
        }
    }
}

impl VersionArgs {
    /// The list of versions as it was given: `version`, or `variant` where
    /// there is no `version`.
    pub open spec fn raw_versions(self) -> Option<String> {
        if self.version is Some {
            self.version
        } else {
            self.variant
        }
    }

    /// The kind of source that these arguments select.
    pub open spec fn spec_source_kind(self) -> Option<SourceKind> {
        first_given(
            self.xlsx is Some,
            self.postgres is Some,
            self.rest is Some,
            false,
            self.json is Some,
        )
    }

    /// The same arguments with no GraphQL service.
    pub fn into_data_args(self) -> (r: DataArgs)
        ensures
            r.xlsx == self.xlsx,
            r.main_sheet == self.main_sheet,
            r.postgres == self.postgres,
            r.rest == self.rest,
            r.graphql is None,
            r.json == self.json,
            r.version == self.version,
            r.variant == self.variant,
            r.raw_versions() == self.raw_versions(),
            r.spec_source_kind() == self.spec_source_kind(),
    {
        DataArgs {
            xlsx: self.xlsx,
            main_sheet: self.main_sheet,
            postgres: self.postgres,
            rest: self.rest,
            graphql: None,
            json: self.json,
            version: self.version,
            variant: self.variant,
        }
    }

    /// The versions in priority order: the names between the `/` of the
    /// list, without the white space around them and without empty names.
    /// No list gives no version.
    pub fn get_version_list(&self) -> (versions: Vec<String>)
        ensures
            texts_of(versions@) == (match self.raw_versions() {
                Some(raw) => listed_names(raw@, '/'),
                None => Seq::empty(),
            }),
    {
        let raw = match &self.version {
            Some(v) => Some(v),
            None => match &self.variant {
                Some(v) => Some(v),
                None => None,
            },
        };
        names_of(raw)
    }
}

/// The data arguments of a program that selects by variant alone.
#[derive(Debug, Clone)]
pub struct VariantArgs {
    /// Path to the Excel variants file.
    pub xlsx: Option<String>,
    /// Main sheet name in Excel.
    pub main_sheet: Option<String>,
    /// Path to a JSON file, or a JSON text, with the Postgres configuration.
    pub postgres: Option<String>,
    /// Path to a JSON file, or a JSON text, with the REST configuration.
    pub rest: Option<String>,
    /// Path to a JSON file, or a JSON text, with the values by variant.
    pub json: Option<String>,
    /// Variant columns to use in priority order, separated by `/`.
    pub variant: Option<String>,
}

impl Default for VariantArgs {
    fn default() -> (r: Self)
        ensures
            r.xlsx is None,
            r.main_sheet is None,
            r.postgres is None,
            r.rest is None,
            r.json is None,
            r.variant is None,
    {
        VariantArgs {
            xlsx: None,
            main_sheet: None,
            postgres: None,
            rest: None,
            json: None,
            variant: None,
        }
    }
}

impl VariantArgs {
    /// The kind of source that these arguments select.
    pub open spec fn spec_source_kind(self) -> Option<SourceKind> {
        first_given(
            self.xlsx is Some,
            self.postgres is Some,
            self.rest is Some,
            false,
            self.json is Some,
        )
    }

    /// The same arguments, the variants taken as versions.
    pub fn into_data_args(self) -> (r: DataArgs)
        ensures
            r.xlsx == self.xlsx,
            r.main_sheet == self.main_sheet,
            r.postgres == self.postgres,
            r.rest == self.rest,
            r.graphql is None,
            r.json == self.json,
            r.version is None,
            r.variant == self.variant,
            r.raw_versions() == self.variant,
            r.spec_source_kind() == self.spec_source_kind(),
    {
        DataArgs {
            xlsx: self.xlsx,
            main_sheet: self.main_sheet,
            postgres: self.postgres,
            rest: self.rest,
            graphql: None,
            json: self.json,
            version: None,
            variant: self.variant,
        }
    }

    /// The variants in priority order: the names between the `/` of the
    /// list, without the white space around them and without empty names.
    /// No list gives no variant.
    pub fn get_variant_list(&self) -> (variants: Vec<String>)
        ensures
            texts_of(variants@) == (match self.variant {
                Some(raw) => listed_names(raw@, '/'),
                None => Seq::empty(),
            }),
    {
        let raw = match &self.variant {
            Some(v) => Some(v),
            None => None,
        };
        names_of(raw)
    }
}

/// The names that a list gives, and none where there is no list.
fn names_of(raw: Option<&String>) -> (names: Vec<String>)
    ensures
        texts_of(names@) == (match raw {
            Some(text) => listed_names(text@, '/'),
            None => Seq::empty(),
        }),
{
    match raw {
        Some(text) => split_names(text.as_str(), '/'),
        None => {
            let names: Vec<String> = Vec::new();
            proof {
                assert(texts_of(names@) =~= Seq::empty());
            }
            names
        },
    }
}

} // verus!
