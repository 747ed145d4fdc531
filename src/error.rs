//! The library's error kinds and their console wording.
use vstd::prelude::*;
use crate::text::{chars_of, push_all, push_str, string_of, views};

verus! {

#[derive(Debug, Clone)]
pub enum ArkhamError {
    /// A filesystem or process failure, with the system's description.
    IoError(String),
    /// Malformed version text, carrying the offending text.
    InvalidVersion(String),
    NoVersionSpecified,
    VersionNotFound(String),
    /// Independent failures collected before reporting, one message each.
    MultipleVersionErrors(Vec<String>),
    CorruptVersionInfo(String),
    MissingVersionInfo,
    BuildError(String),
    BackupError(String),
}

pub open spec fn invalid_version_message(v: Seq<char>) -> Seq<char> {
    "Invalid version format '"@ + v + "'. Expected format: X.YY (e.g., 3.53, 2.05)"@
}

pub open spec fn not_found_message(v: Seq<char>) -> Seq<char> {
    "Version "@ + v + " not found in logs"@
}

pub fn invalid_version_text(v: &Vec<char>) -> (r: Vec<char>)
    ensures
        r@ == invalid_version_message(v@),
{
    let mut out: Vec<char> = Vec::new();
    push_str(&mut out, "Invalid version format '");
    push_all(&mut out, v);
    push_str(&mut out, "'. Expected format: X.YY (e.g., 3.53, 2.05)");
    assert(out@ =~= invalid_version_message(v@));
    out
}

pub fn not_found_text(v: &Vec<char>) -> (r: Vec<char>)
    ensures
        r@ == not_found_message(v@),
{
    let mut out: Vec<char> = Vec::new();
    push_str(&mut out, "Version ");
    push_all(&mut out, v);
    push_str(&mut out, " not found in logs");
    assert(out@ =~= not_found_message(v@));
    out
}

/// The lines of an aggregate report, one per message.
pub open spec fn listed_text(errs: Seq<Seq<char>>) -> Seq<char>
    decreases errs.len(),
{
    if errs.len() == 0 {
        Seq::empty()
    } else {
        listed_text(errs.drop_last()) + "  - "@ + errs.last() + "\n"@
    }
}

/// How an error reads on the console.
pub open spec fn error_text(e: ArkhamError) -> Seq<char> {
    match e {
        ArkhamError::IoError(m) => "IO Error: "@ + m@,
        ArkhamError::InvalidVersion(v) => invalid_version_message(v@),
        ArkhamError::NoVersionSpecified =>
            "No version specified. Usage: arkham archive-entry <version1> [version2] ..."@,
        ArkhamError::VersionNotFound(v) => not_found_message(v@),
        ArkhamError::MultipleVersionErrors(errs) => "Multiple version errors! :\n"@ + listed_text(views(errs@)),
        ArkhamError::CorruptVersionInfo(d) => "Corrupt version info: "@ + d@,
        ArkhamError::MissingVersionInfo => "Version Information missing"@,
        ArkhamError::BuildError(m) => "Build error: "@ + m@,
        ArkhamError::BackupError(m) => "Error occurred during saving/restoring state!: "@ + m@,
    }
}

fn prefixed(prefix: &str, body: &String) -> (r: String)
    ensures
        r@ == prefix@ + body@,
{
    let mut out: Vec<char> = Vec::new();
    push_str(&mut out, prefix);
    push_str(&mut out, body.as_str());
    string_of(&out)
}

impl ArkhamError {
    /// The console wording of the error.
    pub fn message(&self) -> (r: String)
        ensures
            r@ == error_text(*self),
    {
        match self {
            ArkhamError::IoError(m) => prefixed("IO Error: ", m),
            ArkhamError::InvalidVersion(v) => string_of(&invalid_version_text(&chars_of(v.as_str()))),
            ArkhamError::NoVersionSpecified => String::from_str(
                "No version specified. Usage: arkham archive-entry <version1> [version2] ...",
            ),
            ArkhamError::VersionNotFound(v) => string_of(&not_found_text(&chars_of(v.as_str()))),
            ArkhamError::MultipleVersionErrors(errs) => {
                let mut out: Vec<char> = Vec::new();
                push_str(&mut out, "Multiple version errors! :\n");
                let ghost head = out@;
                let mut k: usize = 0;
                while k < errs.len()
                    invariant
                        k <= errs@.len(),
                        out@ == head + listed_text(views(errs@).take(k as int)),
                    decreases errs@.len() - k,
                {
                    assert(views(errs@).take(k + 1).drop_last() =~= views(errs@).take(k as int));
                    assert(views(errs@).take(k + 1).last() == errs@[k as int]@);
                    push_str(&mut out, "  - ");
                    push_str(&mut out, errs[k].as_str());
                    push_str(&mut out, "\n");
                    k += 1;
                    assert(out@ =~= head + listed_text(views(errs@).take(k as int)));
                }
                assert(views(errs@).take(k as int) =~= views(errs@));
                string_of(&out)
            },
            ArkhamError::CorruptVersionInfo(d) => prefixed("Corrupt version info: ", d),
            ArkhamError::MissingVersionInfo => String::from_str("Version Information missing"),
            ArkhamError::BuildError(m) => prefixed("Build error: ", m),
            ArkhamError::BackupError(m) => prefixed("Error occurred during saving/restoring state!: ", m),
        }
    }
}

} // verus!
