use vstd::prelude::*;
use crate::error::AppError;
use crate::text::str_eq;

verus! {

/// The class of a GDB/MI result record.
#[derive(Clone, Copy, Debug, PartialEq, Eq, Structural)]
pub enum ResultClass {
    Done,
    Running,
    Connected,
    Error,
    Exit,
}

/// The kind of access a watchpoint triggers on.
#[derive(Clone, Copy, Debug, PartialEq, Eq, Structural)]
pub enum WatchMode {
    Write,
    Read,
    Access,
}

/// The watch mode a user names: "read" and "access" select those modes, anything else
/// watches writes.
pub open spec fn spec_watch_mode(mode: Seq<char>) -> WatchMode {
    if mode == "read"@ {
        WatchMode::Read
    } else if mode == "access"@ {
        WatchMode::Access
    } else {
        WatchMode::Write
    }
}

/// Chooses the watch mode a user names.
pub fn watch_mode_from_str(mode: &str) -> (m: WatchMode)
    ensures
        m == spec_watch_mode(mode@),
{
    if str_eq(mode, "read") {
        WatchMode::Read
    } else if str_eq(mode, "access") {
        WatchMode::Access
    } else {
        WatchMode::Write
    }
}

/// A command that must complete with class `Done`: any other class is a GDB error
/// carrying the rendered results of the record.
pub fn require_done(class: ResultClass, results_text: String) -> (r: Result<(), AppError>)
    ensures
        (class == ResultClass::Done) <==> r is Ok,
        class != ResultClass::Done ==> (r matches Err(AppError::GDBError(m)) && m@ == results_text@),
{
    if class == ResultClass::Done {
        Ok(())
    } else {
        Err(AppError::GDBError(results_text))
    }
}

/// A field that an answer of GDB must hold: where it is missing, the error names what
/// was expected.
pub fn expect_field<T>(found: Option<T>, missing: &str) -> (r: Result<T, AppError>)
    ensures
        match found {
            Some(v) => r matches Ok(x) && x == v,
            None => r matches Err(AppError::NotFound(m)) && m@ == missing@,
        },
{
    match found {
        Some(v) => Ok(v),
        None => Err(AppError::NotFound(missing.to_owned())),
    }
}

/// The name of the register numbered `n`: the `n`-th of the names GDB listed, if there
/// are that many.
pub open spec fn register_name(names: Seq<String>, n: usize) -> Option<Seq<char>> {
    if n < names.len() { Some(names[n as int]@) } else { None }
}

/// Names each register by its number, looking the number up in the list of names.
pub fn name_registers(numbers: &Vec<usize>, names: &Vec<String>) -> (r: Vec<Option<String>>)
    ensures
        r@.len() == numbers@.len(),
        forall|i: int| 0 <= i < r@.len() ==> match (#[trigger] r@[i]) {
            Some(s) => register_name(names@, numbers@[i]) == Some(s@),
            None => register_name(names@, numbers@[i]) is None,
        },
{
    let mut out: Vec<Option<String>> = Vec::new();
    let mut i: usize = 0;
    while i < numbers.len()
        invariant
            i <= numbers@.len(),
            out@.len() == i,
            forall|j: int| 0 <= j < i ==> match (#[trigger] out@[j]) {
                Some(s) => register_name(names@, numbers@[j]) == Some(s@),
                None => register_name(names@, numbers@[j]) is None,
            },
        decreases numbers@.len() - i,
    {
        let n = numbers[i];
        if n < names.len() {
            out.push(Some(names[n].clone()));
        } else {
            out.push(None);
        }
        i = i + 1;
    }
    out
}

} // verus!
