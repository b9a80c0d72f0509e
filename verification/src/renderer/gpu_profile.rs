//! Where GPU profiling output goes.
//!
//! A profiling run writes its report to a file the user names, and a Chrome
//! trace beside it: same directory, the report's stem, `.trace.json`.

use vstd::prelude::*;
use vstd::string::StringExecFns;

verus! {

/// Stem used when the report path has no usable file name.
pub const DEFAULT_TRACE_STEM: &'static str = "gpu-profile";

/// Suffix of the trace file's name.
pub const TRACE_SUFFIX: &'static str = ".trace.json";

/// What `Path::file_stem` gives for `path`, as text. Paths are parsed with
/// the separator rules of the platform the crate is built for; for one build
/// the result depends on the text alone.
pub uninterp spec fn path_file_stem(path: Seq<char>) -> Option<Seq<char>>;

/// What `Path::with_file_name` gives for `path` and `name`, as text (parsed
/// like [`path_file_stem`]).
pub uninterp spec fn path_with_file_name(path: Seq<char>, name: Seq<char>) -> Seq<char>;

/// `Path::file_stem` of `path`: the final component without its last
/// extension, or `None` when the path has no file name. The stem of a UTF-8
/// path is UTF-8, so nothing is lost converting it back to a `String`.
#[verifier::external_body]
fn file_stem(path: &str) -> (r: Option<String>)
    ensures
        match r {
            Some(s) => path_file_stem(path@) == Some(s@),
            None => path_file_stem(path@) is None,
        },
{
    match std::path::Path::new(path).file_stem() {
        Some(stem) => match stem.to_str() {
            Some(s) => Some(s.to_string()),
            None => None,
        },
        None => None,
    }
}

/// `Path::with_file_name`: `path` with its final component replaced by
/// `name` (or `name` appended when there is none). Both inputs are UTF-8,
/// so the result is too and converts back without loss.
#[verifier::external_body]
fn with_file_name(path: &str, name: &str) -> (r: String)
    ensures
        r@ == path_with_file_name(path@, name@),
{
    std::path::Path::new(path).with_file_name(name).to_string_lossy().into_owned()
}

/// Name of the trace file for a report whose stem is `stem`.
pub open spec fn spec_trace_file_name(stem: Option<Seq<char>>) -> Seq<char> {
    let base = match stem {
        Some(s) => s,
        None => DEFAULT_TRACE_STEM@,
    };
    base + TRACE_SUFFIX@
}

/// The trace file's name: the report's stem (or [`DEFAULT_TRACE_STEM`])
/// followed by [`TRACE_SUFFIX`].
pub fn trace_file_name(stem: Option<&str>) -> (r: String)
    ensures
        r@ == spec_trace_file_name(
            match stem {
                Some(s) => Some(s@),
                None => None,
            },
        ),
{
    let mut name = match stem {
        Some(s) => s.to_owned(),
        None => DEFAULT_TRACE_STEM.to_owned(),
    };
    name.append(TRACE_SUFFIX);
    name
}

/// Path of the Chrome trace written beside the report at `report_path`.
pub fn trace_path(report_path: &str) -> (r: String)
    ensures
        r@ == path_with_file_name(
            report_path@,
            spec_trace_file_name(path_file_stem(report_path@)),
        ),
{
    let stem = file_stem(report_path);
    let name = match &stem {
        Some(s) => trace_file_name(Some(s.as_str())),
        None => trace_file_name(None),
    };
    with_file_name(report_path, name.as_str())
}

} // verus!
