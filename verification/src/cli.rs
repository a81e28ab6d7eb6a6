use vstd::prelude::*;
use vstd::string::StringExecFns;
use crate::error::{Error, ErrorKind};

verus! {

/// What the command line gave, before any default is filled in: the input
/// path with its three parts as far as it has them, and the options as far as
/// they were given.
#[derive(Debug)]
pub struct Args {
    pub file: String,
    pub parent: Option<String>,
    pub file_stem: Option<String>,
    pub extension: Option<String>,
    pub new_file_name: Option<String>,
    pub lines: Option<usize>,
    pub include_headers: Option<bool>,
}

/// The settings of one run, every default filled in.
#[derive(Debug)]
pub struct Cli {
    pub input_path: String,
    pub working_directory: String,
    pub extension: String,
    pub new_name_base: String,
    pub lines: usize,
    pub include_headers: bool,
}

/// Whether the input path has the three parts that a run needs.
pub open spec fn path_is_complete(args: Args) -> bool {
    args.parent is Some && args.file_stem is Some && args.extension is Some
}

/// The base name of the output: the one given, or the input's stem followed
/// by `-split`.
pub open spec fn name_base_of(args: Args) -> Seq<char>
    recommends
        args.file_stem is Some,
{
    match args.new_file_name {
        Some(name) => name@,
        None => args.file_stem->0@ + "-split"@,
    }
}

/// The number of lines per file: the one given, or 1.
pub open spec fn lines_of_args(args: Args) -> usize {
    match args.lines {
        Some(lines) => lines,
        None => 1,
    }
}

/// Whether the first line is a header: as given, or by default exactly when
/// the input's extension is `csv`.
pub open spec fn headers_of(args: Args) -> bool
    recommends
        args.extension is Some,
{
    match args.include_headers {
        Some(flag) => flag,
        None => args.extension->0@ == "csv"@,
    }
}

fn same_text(a: &str, b: &str) -> (same: bool)
    ensures
        same == (a@ == b@),
{
    String::from_str(a) == String::from_str(b)
}

impl Cli {
    /// Fills in the defaults.
    ///
    /// Fails, with a path error, exactly when the input path lacks a parent
    /// directory, a stem or an extension.
    pub fn from_args(args: Args) -> (r: Result<Cli, Error>)
        ensures
            r is Ok <==> path_is_complete(args),
            r is Err ==> r->Err_0.kind == ErrorKind::Path && r->Err_0.msg@
                == "required value of argument '--file <file>' missing or invalid"@,
            r is Ok ==> {
                &&& r->Ok_0.input_path@ == args.file@
                &&& r->Ok_0.working_directory@ == args.parent->0@
                &&& r->Ok_0.extension@ == args.extension->0@
                &&& r->Ok_0.new_name_base@ == name_base_of(args)
                &&& r->Ok_0.lines == lines_of_args(args)
                &&& r->Ok_0.include_headers == headers_of(args)
            },
    {
        let Args { file, parent, file_stem, extension, new_file_name, lines, include_headers } =
            args;
        let (working_directory, file_stem, extension) = match (parent, file_stem, extension) {
            (Some(parent), Some(file_stem), Some(extension)) => (parent, file_stem, extension),
            _ => {
                return Err(
                    Error::with_kind(
                        ErrorKind::Path,
                        "required value of argument '--file <file>' missing or invalid",
                    ),
                );
            },
        };
        let new_name_base = match new_file_name {
            Some(name) => name,
            None => file_stem.concat("-split"),
        };
        let lines: usize = match lines {
            Some(lines) => lines,
            None => 1,
        };
        let include_headers = match include_headers {
            Some(flag) => flag,
            None => same_text(extension.as_str(), "csv"),
        };
        Ok(
            Cli {
                input_path: file,
                working_directory,
                extension,
                new_name_base,
                lines,
                include_headers,
            },
        )
    }
}

} // verus!
