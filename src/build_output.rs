//! Reading a build tool's output: which lines report an error.
use vstd::prelude::*;
use vstd::utf8::encode_utf8;
use crate::metadata::{ascii_bytes, find_subsequence, occurs_at, push_ascii};
use crate::text::views;

verus! {

pub open spec fn has_text(h: Seq<u8>, lit: Seq<char>) -> bool {
    exists|k: int| occurs_at(h, ascii_bytes(lit), k)
}

/// A line reports an error when it holds `error:`, `Error ` or `make:***`,
/// unless it also holds `is up to date`.
pub open spec fn is_error_line_spec(line: Seq<char>) -> bool {
    let b = encode_utf8(line);
    (has_text(b, "error:"@) || has_text(b, "Error "@) || has_text(b, "make:***"@)) && !has_text(b, "is up to date"@)
}

pub open spec fn all_clean(lines: Seq<Seq<char>>) -> bool {
    forall|i: int| 0 <= i < lines.len() ==> !is_error_line_spec(#[trigger] lines[i])
}

fn holds(line: &str, lit: &str) -> (r: bool)
    requires
        vstd::utf8::is_ascii_chars(lit@),
        lit@.len() > 0,
    ensures
        r == has_text(encode_utf8(line@), lit@),
{
    let mut pat: Vec<u8> = Vec::new();
    push_ascii(&mut pat, lit);
    match find_subsequence(line.as_bytes(), pat.as_slice()) {
        Some(_) => true,
        None => false,
    }
}

/// Whether a line of build output reports an error.
pub fn is_error_line(line: &str) -> (r: bool)
    ensures
        r == is_error_line_spec(line@),
{
    proof {
        reveal_strlit("error:");
        reveal_strlit("Error ");
        reveal_strlit("make:***");
        reveal_strlit("is up to date");
    }
    (holds(line, "error:") || holds(line, "Error ") || holds(line, "make:***")) && !holds(line, "is up to date")
}

/// A build succeeded when none of its output lines reports an error.
pub fn build_succeeded(lines: &Vec<String>) -> (r: bool)
    ensures
        r == all_clean(views(lines@)),
{
    let mut k: usize = 0;
    while k < lines.len()
        invariant
            k <= lines@.len(),
            forall|i: int| 0 <= i < k ==> !is_error_line_spec(#[trigger] views(lines@)[i]),
        decreases lines@.len() - k,
    {
        if is_error_line(lines[k].as_str()) {
            assert(is_error_line_spec(views(lines@)[k as int]));
            return false;
        }
        k += 1;
    }
    true
}

} // verus!
