//! The data formats that the engine reads and writes.

use vstd::prelude::*;

verus! {

/// A format in which the engine reads input.
#[derive(Clone, Copy, Debug, PartialEq, Eq, Structural)]
pub enum InputFormat {
    TabSeparated,
    CSV,
    JSONEachRow,
    RowBinary,
    Native,
    Parquet,
}

/// A format in which the engine writes a result.
#[derive(Clone, Copy, Debug, PartialEq, Eq, Structural)]
pub enum OutputFormat {
    TabSeparated,
    CSV,
    JSON,
    JSONEachRow,
    RowBinary,
    Native,
    Parquet,
    Pretty,
}

impl InputFormat {
    /// The format as the engine spells it.
    pub open spec fn name(self) -> Seq<char> {
        match self {
            InputFormat::TabSeparated => "TabSeparated"@,
            InputFormat::CSV => "CSV"@,
            InputFormat::JSONEachRow => "JSONEachRow"@,
            InputFormat::RowBinary => "RowBinary"@,
            InputFormat::Native => "Native"@,
            InputFormat::Parquet => "Parquet"@,
        }
    }

    pub fn as_str(self) -> (text: &'static str)
        ensures
            text@ == self.name(),
    {
        match self {
            InputFormat::TabSeparated => "TabSeparated",
            InputFormat::CSV => "CSV",
            InputFormat::JSONEachRow => "JSONEachRow",
            InputFormat::RowBinary => "RowBinary",
            InputFormat::Native => "Native",
            InputFormat::Parquet => "Parquet",
        }
    }
}

impl OutputFormat {
    /// The format as the engine spells it.
    pub open spec fn name(self) -> Seq<char> {
        match self {
            OutputFormat::TabSeparated => "TabSeparated"@,
            OutputFormat::CSV => "CSV"@,
            OutputFormat::JSON => "JSON"@,
            OutputFormat::JSONEachRow => "JSONEachRow"@,
            OutputFormat::RowBinary => "RowBinary"@,
            OutputFormat::Native => "Native"@,
            OutputFormat::Parquet => "Parquet"@,
            OutputFormat::Pretty => "Pretty"@,
        }
    }

    pub fn as_str(self) -> (text: &'static str)
        ensures
            text@ == self.name(),
    {
        match self {
            OutputFormat::TabSeparated => "TabSeparated",
            OutputFormat::CSV => "CSV",
            OutputFormat::JSON => "JSON",
            OutputFormat::JSONEachRow => "JSONEachRow",
            OutputFormat::RowBinary => "RowBinary",
            OutputFormat::Native => "Native",
            OutputFormat::Parquet => "Parquet",
            OutputFormat::Pretty => "Pretty",
        }
    }
}

} // verus!
