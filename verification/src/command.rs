//! Command dispatch.
//!
//! The tool takes a command word and a path. Only the literal command
//! `ingest`, applied to a path that is a directory, starts ingestion;
//! any other command, or a non-directory path, falls back to echoing the
//! path, with the store never touched.

use vstd::prelude::*;

verus! {

/// What the tool does for a given invocation.
#[derive(Clone, Copy, PartialEq, Eq, Debug)]
pub enum Action {
    /// Walk the directory tree and record image paths.
    Ingest,
    /// Echo the path argument verbatim; the store is not opened.
    PrintPath,
}

/// Character-for-character string equality.
fn str_eq(a: &str, b: &str) -> (r: bool)
    ensures
        r == (a@ == b@),
{
    let n = a.unicode_len();
    let m = b.unicode_len();
    if n != m {
        return false;
    }
    let mut i: usize = 0;
    while i < n
        invariant
            i <= n,
            n == a@.len(),
            n == b@.len(),
            forall|j: int| 0 <= j < i ==> a@[j] == b@[j],
        decreases n - i,
    {
        if a.get_char(i) != b.get_char(i) {
            return false;
        }
        i += 1;
    }
    proof {
        assert(a@ =~= b@);
    }
    true
}

/// The dispatch rule: ingestion runs exactly when the command is the
/// literal `ingest` and the path is a directory; everything else is the
/// permissive fallback that just prints the path.
pub fn choose_action(command: &str, path_is_dir: bool) -> (r: Action)
    ensures
        r == Action::Ingest <==> (command@ == "ingest"@ && path_is_dir),
{
    if str_eq(command, "ingest") && path_is_dir {
        Action::Ingest
    } else {
        Action::PrintPath
    }
}

} // verus!
