//! Loading of the streaming recogniser's runtime library: its error type and
//! the message given when no candidate location loads.
use vstd::prelude::*;

use crate::strings::{copy_str, push_str, push_tried, tried_block};

verus! {

/// An error of the streaming recogniser's wrapper.
#[derive(Clone, Debug)]
pub struct SherpaError {
    /// A human-readable error message.
    pub message: String,
}

/// The hint closing a load failure.
pub open spec fn load_hint() -> Seq<char> {
    "Hint: Run `cargo make setup-macos` to build the native libraries, or set INKFLOW_SHERPA_ONNX_DYLIB to an absolute path."@
}

/// The message of a load failure: a heading, the candidates that failed with
/// their errors, and a hint.
pub open spec fn load_failure_text(errors: Seq<Seq<char>>) -> Seq<char> {
    "Failed to load the sherpa-onnx C API dynamic library.\n"@ + tried_block(errors) + load_hint()
}

/// The error when no candidate location of the library loads; `errors` holds
/// one line per candidate tried.
pub fn load_failure(errors: &[String]) -> (r: SherpaError)
    ensures
        r.message@ == load_failure_text(errors@.map_values(|e: String| e@)),
{
    let mut message = copy_str("Failed to load the sherpa-onnx C API dynamic library.\n");
    push_tried(&mut message, errors);
    push_str(
        &mut message,
        "Hint: Run `cargo make setup-macos` to build the native libraries, or set INKFLOW_SHERPA_ONNX_DYLIB to an absolute path.",
    );
    SherpaError { message }
}

/// An optional item as a sequence of zero or one items.
pub open spec fn opt_seq<T>(o: Option<T>) -> Seq<T> {
    match o {
        Some(x) => seq![x],
        None => seq![],
    }
}

/// The places where the runtime library is looked for, in order: an
/// explicit path from the environment, the app bundle's Frameworks
/// directory, the executable's own directory, a build prefix found above
/// it, and last the bare library name for the system's own search. Absent
/// places are skipped.
pub fn library_candidate_order<T>(
    explicit: Option<T>,
    bundled: Option<T>,
    beside_exe: Option<T>,
    build_prefix: Option<T>,
    bare_name: T,
) -> (r: Vec<T>)
    ensures
        r@ == opt_seq(explicit) + opt_seq(bundled) + opt_seq(beside_exe) + opt_seq(build_prefix)
            + seq![bare_name],
{
    let mut candidates: Vec<T> = Vec::new();
    let ghost e = opt_seq(explicit);
    let ghost b = opt_seq(bundled);
    let ghost x = opt_seq(beside_exe);
    let ghost p = opt_seq(build_prefix);
    if let Some(c) = explicit {
        candidates.push(c);
    }
    assert(candidates@ =~= e);
    if let Some(c) = bundled {
        candidates.push(c);
    }
    assert(candidates@ =~= e + b);
    if let Some(c) = beside_exe {
        candidates.push(c);
    }
    assert(candidates@ =~= e + b + x);
    if let Some(c) = build_prefix {
        candidates.push(c);
    }
    assert(candidates@ =~= e + b + x + p);
    candidates.push(bare_name);
    candidates
}

} // verus!
