//! Decisions of the command-line flows, from the answers and records they are given.
use vstd::prelude::*;
use crate::clock::{BuildTime, timestamp_text};
use crate::error::ArkhamError;
use crate::info::ProjectInfo;
use crate::log::VersionLogEntry;
use crate::text::{chars_of, push_str, string_of, trim, trimmed};
use crate::version::{increment, increment_text, spec_parse, UpdateKind};

verus! {

/// `c` is `w` or, for a lower-case ASCII letter `w`, its upper-case form.
pub open spec fn same_letter(c: char, w: char) -> bool {
    c == w || ('a' <= w <= 'z' && c as u32 == w as u32 - 32)
}

/// `s` spells `w` with ASCII letters in either case.
pub open spec fn spells(s: Seq<char>, w: Seq<char>) -> bool {
    s.len() == w.len() && forall|i: int| 0 <= i < s.len() ==> same_letter(#[trigger] s[i], w[i])
}

pub open spec fn answer_kind(a: Seq<char>) -> Option<UpdateKind> {
    let t = trim(a);
    if spells(t, "major"@) || spells(t, "1"@) {
        Some(UpdateKind::Major)
    } else if spells(t, "minor"@) || spells(t, "0"@) {
        Some(UpdateKind::Minor)
    } else {
        None
    }
}

pub open spec fn commit_message_text(version: Seq<char>) -> Seq<char> {
    "v_"@ + version
}

pub open spec fn placeholder_text(msg: Seq<char>) -> Seq<char> {
    "[not_implemented_yet]: "@ + msg
}

fn spells_word(s: &Vec<char>, w: &str) -> (r: bool)
    ensures
        r == spells(s@, w@),
{
    let wc = chars_of(w);
    if s.len() != wc.len() {
        return false;
    }
    let mut i: usize = 0;
    while i < s.len()
        invariant
            s@.len() == wc@.len(),
            wc@ == w@,
            i <= s@.len(),
            forall|k: int| 0 <= k < i ==> same_letter(#[trigger] s@[k], wc@[k]),
        decreases s@.len() - i,
    {
        let c = s[i];
        let d = wc[i];
        let ok = c == d || ('a' <= d && d <= 'z' && (c as u32) == (d as u32) - 32);
        if !ok {
            assert(!same_letter(s@[i as int], wc@[i as int]));
            return false;
        }
        assert(same_letter(s@[i as int], wc@[i as int]));
        i += 1;
    }
    true
}

/// Whether an answer to "update the version?" is yes: `yes` or `y` in any
/// letter case, with surrounding white space ignored.
pub fn wants_update(answer: &str) -> (r: bool)
    ensures
        r == (spells(trim(answer@), "yes"@) || spells(trim(answer@), "y"@)),
{
    let t = trimmed(&chars_of(answer));
    spells_word(&t, "yes") || spells_word(&t, "y")
}

impl UpdateKind {
    /// Reads an answer to "major or minor?": `major` or `1`, `minor` or `0`,
    /// in any letter case, with surrounding white space ignored.
    pub fn from_answer(answer: &str) -> (r: Result<UpdateKind, ArkhamError>)
        ensures
            match r {
                Ok(k) => answer_kind(answer@) == Some(k),
                Err(e) => answer_kind(answer@) is None && e is InvalidVersion
                    && e->InvalidVersion_0@ == "Invalid update type"@,
            },
    {
        let t = trimmed(&chars_of(answer));
        if spells_word(&t, "major") || spells_word(&t, "1") {
            Ok(UpdateKind::Major)
        } else if spells_word(&t, "minor") || spells_word(&t, "0") {
            Ok(UpdateKind::Minor)
        } else {
            Err(ArkhamError::InvalidVersion(String::from_str("Invalid update type")))
        }
    }
}

/// Whether the build command goes on after a build: only a successful build
/// is published.
pub fn build_outcome(succeeded: bool) -> (r: Result<(), ArkhamError>)
    ensures
        succeeded ==> r is Ok,
        !succeeded ==> (r matches Err(ArkhamError::BuildError(m)) && m@ == "Build failed"@),
{
    if succeeded {
        Ok(())
    } else {
        Err(ArkhamError::BuildError(String::from_str("Build failed")))
    }
}

/// The version to publish after a successful build, from the answers to
/// "update the version?" and "major or minor?"; the second answer is read
/// only when the first is yes.
pub fn version_to_publish(current: &str, update_answer: &str, kind_answer: &str) -> (r: Result<String, ArkhamError>)
    ensures
        !(spells(trim(update_answer@), "yes"@) || spells(trim(update_answer@), "y"@)) ==> (r matches Ok(v)
            && v@ == current@),
        (spells(trim(update_answer@), "yes"@) || spells(trim(update_answer@), "y"@)) ==> match answer_kind(
            kind_answer@,
        ) {
            None => r matches Err(ArkhamError::InvalidVersion(m)) && m@ == "Invalid update type"@,
            Some(k) => match spec_parse(current@) {
                None => r matches Err(ArkhamError::InvalidVersion(m)) && m@ == current@,
                Some(v) => r matches Ok(t) && t@ == increment_text(v, k),
            },
        },
{
    if !wants_update(update_answer) {
        return Ok(String::from_str(current));
    }
    let kind = UpdateKind::from_answer(kind_answer)?;
    increment(current, kind)
}

/// The commit message of a saved state: `v_{version}`.
pub fn commit_message(version: &str) -> (r: String)
    ensures
        r@ == commit_message_text(version@),
{
    let mut out: Vec<char> = Vec::new();
    push_str(&mut out, "v_");
    push_str(&mut out, version);
    string_of(&out)
}

/// The commit id in the version-control tool's output: the output without
/// surrounding white space.
pub fn commit_id_from_output(output: &str) -> (r: String)
    ensures
        r@ == trim(output@),
{
    string_of(&trimmed(&chars_of(output)))
}

/// The log entry recorded after a commit of the project's current version.
pub fn backup_entry(info: &ProjectInfo, log_message: &str, builder: &str, commit_id: &str, at: &BuildTime) -> (r: VersionLogEntry)
    ensures
        r.version@ == info.current_version@,
        r.log_message@ == log_message@,
        r.build_date@ == timestamp_text(*at),
        r.builder@ == builder@,
        r.commit_id@ == commit_id@,
{
    VersionLogEntry {
        version: info.current_version.clone(),
        log_message: String::from_str(log_message),
        build_date: at.timestamp_string(),
        builder: String::from_str(builder),
        commit_id: String::from_str(commit_id),
    }
}

/// The banner text for a feature that is announced but not offered.
pub fn not_implemented_yet(debug_message: &str) -> (r: String)
    ensures
        r@ == placeholder_text(debug_message@),
{
    let mut out: Vec<char> = Vec::new();
    push_str(&mut out, "[not_implemented_yet]: ");
    push_str(&mut out, debug_message);
    string_of(&out)
}

/// Rolling the project back to a saved version is not offered: it always fails.
pub fn _restore_to_state(_version: &str) -> (r: Result<bool, ArkhamError>)
    ensures
        r matches Err(ArkhamError::BackupError(m)) && m@ == "restoring a saved state is not offered"@,
{
    Err(ArkhamError::BackupError(String::from_str("restoring a saved state is not offered")))
}

} // verus!
