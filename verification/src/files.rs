//! What the converters decide from the names of their files: whether the
//! names fit the formats, and what the table of a script is called.

use crate::text::{chars_of, has_suffix, occurs_at, push_all, slice, string_of};
use vstd::prelude::*;

verus! {

/// The three formats.
#[derive(Clone, Copy, Debug, PartialEq, Eq, Structural)]
pub enum Format {
    /// Delimited text.
    Csv,
    /// Line-delimited typed JSON documents.
    Json,
    /// A relational dump script.
    Sql,
}

/// What is wrong with the files that a converter was given. The checks are
/// made in the order of the variants, and the first that fails is reported:
/// the endings of the names are looked at before it is asked whether a name
/// was given at all, so that a name that was not given is reported as a
/// wrong ending unless the endings are ignored.
#[derive(Clone, Copy, Debug, PartialEq, Eq, Structural)]
pub enum UsageError {
    /// The name of the input file does not end as its format asks.
    InputExtension,
    /// The name of the output file does not end as its format asks.
    OutputExtension,
    /// No input file was named.
    MissingInput,
    /// No output file was named.
    MissingOutput,
}

/// The ending of a file name of the format, the point included.
pub open spec fn extension(format: Format) -> Seq<char> {
    match format {
        Format::Csv => ".csv"@,
        Format::Json => ".json"@,
        Format::Sql => ".sql"@,
    }
}

/// The name of the format as messages show it.
pub open spec fn label(format: Format) -> Seq<char> {
    match format {
        Format::Csv => "CSV"@,
        Format::Json => "JSON"@,
        Format::Sql => "SQL"@,
    }
}

/// Whether `path` ends as `format` asks.
pub open spec fn has_extension(path: Seq<char>, format: Format) -> bool {
    has_suffix(path, extension(format))
}

/// What is wrong with the files, if anything is. The endings are looked at
/// first, and only where `check` is set.
pub open spec fn usage_error(
    input: Seq<char>,
    output: Seq<char>,
    from: Format,
    to: Format,
    check: bool,
) -> Option<UsageError> {
    if check && !has_extension(input, from) {
        Some(UsageError::InputExtension)
    } else if check && !has_extension(output, to) {
        Some(UsageError::OutputExtension)
    } else if input.len() == 0 {
        Some(UsageError::MissingInput)
    } else if output.len() == 0 {
        Some(UsageError::MissingOutput)
    } else {
        None
    }
}

/// The index of the last point of `s` at or before `i`, and -1 where there
/// is none.
pub open spec fn last_point(s: Seq<char>, i: int) -> int
    decreases i + 1,
{
    if i < 0 || i >= s.len() {
        -1
    } else if s[i] == '.' {
        i
    } else {
        last_point(s, i - 1)
    }
}

/// The name of the table that is written for the input file `path`: the path
/// up to its last point that has three characters or more after it, and the
/// empty name where it has no such point.
pub open spec fn table_name(path: Seq<char>) -> Seq<char> {
    let d = last_point(path, path.len() - 4);
    if 0 <= d <= path.len() {
        path.subrange(0, d)
    } else {
        Seq::empty()
    }
}

/// What is said of a file whose name does not end as `format` asks, as in
/// `Input file 'rows.txt' is not CSV`.
pub open spec fn extension_message(role: Seq<char>, path: Seq<char>, format: Format) -> Seq<char> {
    role + " file '"@ + path + "' is not "@ + label(format)
}

/// What is said of `error`.
pub open spec fn usage_message(
    error: UsageError,
    input: Seq<char>,
    output: Seq<char>,
    from: Format,
    to: Format,
) -> Seq<char> {
    match error {
        UsageError::MissingInput => "No input file specified"@,
        UsageError::MissingOutput => "No output file specified"@,
        UsageError::InputExtension => extension_message("Input"@, input, from),
        UsageError::OutputExtension => extension_message("Output"@, output, to),
    }
}

/// The ending of a file name of the format.
pub fn extension_of(format: Format) -> (out: Vec<char>)
    ensures
        out@ == extension(format),
{
    match format {
        Format::Csv => chars_of(".csv"),
        Format::Json => chars_of(".json"),
        Format::Sql => chars_of(".sql"),
    }
}

/// Whether the name `path` ends as `format` asks.
pub fn check_extension(path: &str, format: Format) -> (b: bool)
    ensures
        b == has_extension(path@, format),
{
    let p = chars_of(path);
    let e = extension_of(format);
    if e.len() > p.len() {
        return false;
    }
    occurs_at(&p, p.len() - e.len(), &e)
}

/// Checks the files that a converter was given: where `check` is set the
/// name of each must end as its format asks, the input first; and both must
/// be named.
pub fn check_files(input: &str, output: &str, from: Format, to: Format, check: bool) -> (result:
    Result<(), UsageError>)
    ensures
        result.is_ok() <==> usage_error(input@, output@, from, to, check).is_none(),
        result matches Err(e) ==> usage_error(input@, output@, from, to, check) == Some(e),
{
    if check && !check_extension(input, from) {
        Err(UsageError::InputExtension)
    } else if check && !check_extension(output, to) {
        Err(UsageError::OutputExtension)
    } else if input.is_empty() {
        Err(UsageError::MissingInput)
    } else if output.is_empty() {
        Err(UsageError::MissingOutput)
    } else {
        Ok(())
    }
}

/// Checks that the names of the input and of the output end as their
/// formats ask, the input first.
pub fn check_extensions(input: &str, output: &str, from: Format, to: Format) -> (result: Result<
    (),
    UsageError,
>)
    ensures
        result == if !has_extension(input@, from) {
            Err::<(), UsageError>(UsageError::InputExtension)
        } else if !has_extension(output@, to) {
            Err::<(), UsageError>(UsageError::OutputExtension)
        } else {
            Ok::<(), UsageError>(())
        },
{
    if !check_extension(input, from) {
        Err(UsageError::InputExtension)
    } else if !check_extension(output, to) {
        Err(UsageError::OutputExtension)
    } else {
        Ok(())
    }
}

/// What is said of `error`, for the files and formats that were checked.
pub fn describe(error: UsageError, input: &str, output: &str, from: Format, to: Format) -> (out:
    String)
    ensures
        out@ == usage_message(error, input@, output@, from, to),
{
    let text = match error {
        UsageError::MissingInput => chars_of("No input file specified"),
        UsageError::MissingOutput => chars_of("No output file specified"),
        UsageError::InputExtension => extension_message_of("Input", input, from),
        UsageError::OutputExtension => extension_message_of("Output", output, to),
    };
    string_of(&text)
}

/// What is said of a file whose name does not end as `format` asks.
pub fn extension_message_of(role: &str, path: &str, format: Format) -> (out: Vec<char>)
    ensures
        out@ == extension_message(role@, path@, format),
{
    let mut out = chars_of(role);
    push_all(&mut out, &chars_of(" file '"));
    push_all(&mut out, &chars_of(path));
    push_all(&mut out, &chars_of("' is not "));
    let name = match format {
        Format::Csv => chars_of("CSV"),
        Format::Json => chars_of("JSON"),
        Format::Sql => chars_of("SQL"),
    };
    push_all(&mut out, &name);
    out
}

/// The name of the table that is written for the input file `path`.
pub fn table_name_of(path: &str) -> (out: String)
    ensures
        out@ == table_name(path@),
{
    let p = chars_of(path);
    if p.len() < 4 {
        return String::new();
    }
    let mut i: usize = p.len() - 4;
    loop
        invariant
            i <= p.len() - 4,
            p.len() >= 4,
            p@ == path@,
            last_point(p@, p@.len() - 4) == last_point(p@, i as int),
        decreases i,
    {
        if p[i] == '.' {
            let name = slice(&p, 0, i);
            return string_of(&name);
        }
        if i == 0 {
            assert(last_point(p@, -1) == -1);
            return String::new();
        }
        i -= 1;
    }
}

} // verus!
