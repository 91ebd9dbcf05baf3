//! What the end of a worker means for the whole program.

use vstd::prelude::*;

verus! {

/// The payload of an unwinding panic, as text. A payload is looked at as a
/// string slice first and as an owned string second; each argument is what
/// that look found.
pub fn panic_message(slice: Option<&str>, owned: Option<&str>) -> (r: String)
    ensures
        r@ == (match (slice, owned) {
            (Some(s), _) => s@,
            (None, Some(s)) => s@,
            (None, None) => "unknown panic payload"@,
        }),
{
    if let Some(s) = slice {
        s.to_owned()
    } else if let Some(s) = owned {
        s.to_owned()
    } else {
        "unknown panic payload".to_owned()
    }
}

/// Why the program ends.
#[derive(Clone, Copy, Debug, PartialEq, Eq, Structural)]
pub enum Exit {
    /// A worker returned without an error.
    Unexpected { worker: usize },
    /// A worker returned an error.
    Failed { worker: usize },
    /// Every worker is gone and none reported.
    Silent,
}

/// Any worker exit is fatal: the service must not be left running at reduced
/// capacity. `first` is the first report of a worker, if one came: which
/// worker, and whether it failed.
pub fn exit_cause(first: Option<(usize, bool)>) -> (r: Exit)
    ensures
        r == (match first {
            Some((worker, false)) => Exit::Unexpected { worker },
            Some((worker, true)) => Exit::Failed { worker },
            None => Exit::Silent,
        }),
{
    match first {
        Some((worker, failed)) => if failed {
            Exit::Failed { worker }
        } else {
            Exit::Unexpected { worker }
        },
        None => Exit::Silent,
    }
}

/// Whatever a worker reports, the program ends, and the cause names that very
/// worker and whether it failed; without a report the cause names none.
pub proof fn law_every_exit_names_its_worker(first: Option<(usize, bool)>, r: Exit)
    requires
        call_ensures(exit_cause, (first,), r),
    ensures
        first matches Some((worker, failed)) ==> match r {
            Exit::Failed { worker: named } => failed && named == worker,
            Exit::Unexpected { worker: named } => !failed && named == worker,
            Exit::Silent => false,
        },
        first is None <==> r is Silent,
{
}

/// A panic payload that is text is told as it is, and anything else as unknown.
pub proof fn law_panic_text_is_told_as_it_is(
    slice: Option<&str>,
    owned: Option<&str>,
    r: String,
)
    requires
        call_ensures(panic_message, (slice, owned), r),
    ensures
        slice matches Some(s) ==> r@ == s@,
        slice is None ==> (owned matches Some(s) ==> r@ == s@),
        slice is None && owned is None ==> r@ == "unknown panic payload"@,
{
}

} // verus!
