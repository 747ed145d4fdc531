//! The publish cycle of a built executable: a versioned copy, a stable link to
//! it, and an archive of earlier copies kept to a bounded size.
use vstd::prelude::*;
use vstd::utf8::encode_utf8;
use crate::error::ArkhamError;
use crate::metadata::{
    carries_version, embed_metadata, free_of_byte, law_republish_has_exactly_one_marker, marker, metadata_block, occurs_at,
    stripped, version_tag,
};
use crate::text::{chars_of, ends_with_chars, is_prefix_of, is_suffix_of, push_str, starts_with_chars, string_of, views};

verus! {

/// How many archived builds are kept.
pub const KEPT_BUILDS: usize = 10;

/// The directory that holds superseded builds.
pub open spec fn archive_dir_text() -> Seq<char> {
    "prev_builds"@
}

pub open spec fn artifact_prefix(project: Seq<char>) -> Seq<char> {
    project + "_v_"@
}

/// The file name of the build of `project` at `version`.
pub open spec fn artifact_name_text(project: Seq<char>, version: Seq<char>) -> Seq<char> {
    artifact_prefix(project) + version
}

pub open spec fn sidecar_text(name: Seq<char>) -> Seq<char> {
    name + ".version"@
}

/// The names of a listing that migration moves to the archive: earlier builds,
/// in listing order.
pub open spec fn moves_spec(names: Seq<Seq<char>>, prefix: Seq<char>, current: Seq<char>) -> Seq<Seq<char>>
    decreases names.len(),
{
    if names.len() == 0 {
        Seq::empty()
    } else {
        let rest = moves_spec(names.drop_last(), prefix, current);
        let n = names.last();
        if is_prefix_of(prefix, n) && n != current {
            rest.push(n)
        } else {
            rest
        }
    }
}

/// An archived file and its modification time.
#[derive(Debug, Clone)]
pub struct ArchiveEntry {
    pub name: String,
    pub modified: u128,
}

pub open spec fn is_build_candidate(name: Seq<char>, base: Seq<char>) -> bool {
    is_prefix_of(base + "_"@, name) && !is_suffix_of(".version"@, name)
}

/// `es[j]` sorts before `es[i]`: newer, or equally new and listed earlier.
pub open spec fn sorts_before(es: Seq<ArchiveEntry>, j: int, i: int) -> bool {
    es[j].modified > es[i].modified || (es[j].modified == es[i].modified && j < i)
}

/// How many candidates among the first `upto` entries sort before `es[i]`.
pub open spec fn rank_upto(es: Seq<ArchiveEntry>, base: Seq<char>, i: int, upto: int) -> nat
    decreases upto,
{
    if upto <= 0 {
        0
    } else {
        rank_upto(es, base, i, upto - 1) + if is_build_candidate(es[upto - 1].name@, base)
            && sorts_before(es, upto - 1, i) { 1nat } else { 0nat }
    }
}

pub open spec fn rank(es: Seq<ArchiveEntry>, base: Seq<char>, i: int) -> nat {
    rank_upto(es, base, i, es.len() as int)
}

/// The builds that pruning deletes among the first `upto` entries, in listing
/// order: every candidate with at least `KEPT_BUILDS` candidates sorting before it.
pub open spec fn pruned_upto(es: Seq<ArchiveEntry>, base: Seq<char>, upto: int) -> Seq<Seq<char>>
    decreases upto,
{
    if upto <= 0 {
        Seq::empty()
    } else {
        let rest = pruned_upto(es, base, upto - 1);
        if is_build_candidate(es[upto - 1].name@, base) && rank(es, base, upto - 1) >= KEPT_BUILDS {
            rest.push(es[upto - 1].name@)
        } else {
            rest
        }
    }
}

pub open spec fn pruned(es: Seq<ArchiveEntry>, base: Seq<char>) -> Seq<Seq<char>> {
    pruned_upto(es, base, es.len() as int)
}

/// The file name of the build of `project` at `version`.
pub fn artifact_name(project: &str, version: &str) -> (r: String)
    ensures
        r@ == artifact_name_text(project@, version@),
{
    let mut out: Vec<char> = Vec::new();
    push_str(&mut out, project);
    push_str(&mut out, "_v_");
    push_str(&mut out, version);
    assert(out@ =~= artifact_name_text(project@, version@));
    string_of(&out)
}

/// The metadata file that may accompany an archived build.
pub fn sidecar_name(name: &str) -> (r: String)
    ensures
        r@ == sidecar_text(name@),
{
    let mut out: Vec<char> = Vec::new();
    push_str(&mut out, name);
    push_str(&mut out, ".version");
    string_of(&out)
}

pub open spec fn sidecars_of(names: Seq<Seq<char>>) -> Seq<Seq<char>> {
    names.map_values(|x: Seq<char>| sidecar_text(x))
}

/// The sidecar of each of `names`, in order.
pub fn sidecar_names(names: &Vec<String>) -> (r: Vec<String>)
    ensures
        views(r@) == sidecars_of(views(names@)),
{
    let mut out: Vec<String> = Vec::new();
    let mut k: usize = 0;
    while k < names.len()
        invariant
            k <= names@.len(),
            views(out@) == sidecars_of(views(names@).take(k as int)),
        decreases names@.len() - k,
    {
        let ghost before = out@;
        out.push(sidecar_name(names[k].as_str()));
        assert(views(out@) =~= views(before).push(sidecar_text(names@[k as int]@)));
        assert(views(names@).take(k + 1) =~= views(names@).take(k as int).push(names@[k as int]@));
        assert(sidecars_of(views(names@).take(k + 1)) =~= sidecars_of(views(names@).take(k as int)).push(
            sidecar_text(names@[k as int]@),
        ));
        k += 1;
    }
    assert(views(names@).take(k as int) =~= views(names@));
    out
}

/// The names of the live directory to move into the archive: every build of
/// `project` but the one at `version`.
pub fn archive_moves(names: &Vec<String>, project: &str, version: &str) -> (r: Vec<String>)
    ensures
        views(r@) == moves_spec(views(names@), artifact_prefix(project@), artifact_name_text(project@, version@)),
{
    let current = artifact_name(project, version);
    let current_chars = chars_of(current.as_str());
    let mut prefix: Vec<char> = Vec::new();
    push_str(&mut prefix, project);
    push_str(&mut prefix, "_v_");
    let ghost ns = views(names@);
    let mut out: Vec<String> = Vec::new();
    let mut k: usize = 0;
    while k < names.len()
        invariant
            k <= names@.len(),
            ns == views(names@),
            prefix@ == artifact_prefix(project@),
            current@ == artifact_name_text(project@, version@),
            views(out@) == moves_spec(ns.take(k as int), prefix@, current@),
        decreases names@.len() - k,
    {
        let ghost old_out = out@;
        assert(ns.take(k + 1).drop_last() =~= ns.take(k as int));
        assert(ns.take(k + 1).last() == names@[k as int]@);
        let n = chars_of(names[k].as_str());
        if starts_with_chars(&n, &prefix) && names[k] != current {
            out.push(names[k].clone());
            assert(views(out@) =~= views(old_out).push(names@[k as int]@));
        }
        k += 1;
    }
    assert(ns.take(k as int) =~= ns);
    out
}

/// The archived builds to delete so that at most `KEPT_BUILDS` of `base`'s
/// builds remain, the most recently modified ones.
pub fn prune_plan(entries: &Vec<ArchiveEntry>, base: &str) -> (r: Vec<String>)
    ensures
        views(r@) == pruned(entries@, base@),
{
    let mut prefix: Vec<char> = Vec::new();
    push_str(&mut prefix, base);
    push_str(&mut prefix, "_");
    let suffix = chars_of(".version");
    let n = entries.len();
    let mut candidate: Vec<bool> = Vec::new();
    let mut k: usize = 0;
    while k < n
        invariant
            n == entries@.len(),
            k <= n,
            prefix@ == base@ + "_"@,
            suffix@ == ".version"@,
            candidate@.len() == k,
            forall|t: int| 0 <= t < k ==> candidate@[t] == is_build_candidate(entries@[t].name@, base@),
        decreases n - k,
    {
        let cs = chars_of(entries[k].name.as_str());
        candidate.push(starts_with_chars(&cs, &prefix) && !ends_with_chars(&cs, &suffix));
        k += 1;
    }
    let mut out: Vec<String> = Vec::new();
    let mut i: usize = 0;
    while i < n
        invariant
            n == entries@.len(),
            i <= n,
            candidate@.len() == n,
            forall|t: int| 0 <= t < n ==> candidate@[t] == is_build_candidate(entries@[t].name@, base@),
            views(out@) == pruned_upto(entries@, base@, i as int),
        decreases n - i,
    {
        if candidate[i] {
            let mut before: usize = 0;
            let mut j: usize = 0;
            while j < n
                invariant
                    n == entries@.len(),
                    i < n,
                    j <= n,
                    before <= j,
                    candidate@.len() == n,
                    forall|t: int| 0 <= t < n ==> candidate@[t] == is_build_candidate(entries@[t].name@, base@),
                    before as nat == rank_upto(entries@, base@, i as int, j as int),
                decreases n - j,
            {
                if candidate[j] && (entries[j].modified > entries[i].modified
                    || (entries[j].modified == entries[i].modified && j < i)) {
                    before += 1;
                }
                j += 1;
            }
            if before >= KEPT_BUILDS {
                let ghost old_out = out@;
                out.push(entries[i].name.clone());
                assert(views(out@) =~= views(old_out).push(entries@[i as int].name@));
            }
        }
        i += 1;
    }
    out
}

/// Of any listing, migration moves exactly the earlier builds; afterwards the
/// only build left beside the stable link is the current one, and planning
/// migration again on such a listing moves nothing, so a retried publish
/// neither duplicates the link's target nor moves it away.
pub proof fn law_migration_retry(names: Seq<Seq<char>>, prefix: Seq<char>, current: Seq<char>, again: Seq<Seq<char>>)
    requires
        forall|i: int| 0 <= i < again.len() && is_prefix_of(prefix, #[trigger] again[i]) ==> again[i] == current,
    ensures
        forall|n: Seq<char>|
            #![trigger moves_spec(names, prefix, current).contains(n)]
            #![trigger names.contains(n)]
            moves_spec(names, prefix, current).contains(n)
            <==> (names.contains(n) && is_prefix_of(prefix, n) && n != current),
        forall|n: Seq<char>| names.contains(n) && !moves_spec(names, prefix, current).contains(n)
            && is_prefix_of(prefix, n) ==> n == current,
        moves_spec(again, prefix, current).len() == 0,
{
    lemma_moves_members(names, prefix, current);
    lemma_moves_none(again, prefix, current);
}

/// A publish retried for the same version after a crash that followed the
/// relink: the stable link still names the one artifact of that version,
/// migration never moves the link or that artifact, it moves every other
/// build of the project, a further pass moves nothing, and the rewritten
/// artifact carries exactly one metadata block.
pub proof fn law_retried_publish(
    project: Seq<char>,
    version: Seq<char>,
    date: Seq<char>,
    stable_content: Seq<u8>,
    first_date: Seq<char>,
    names: Seq<Seq<char>>,
    again: Seq<Seq<char>>,
)
    requires
        free_of_byte(encode_utf8(version), 10u8),
        free_of_byte(encode_utf8(date), 10u8),
        forall|k: int| !occurs_at(encode_utf8(version), marker(), k),
        forall|k: int| !occurs_at(encode_utf8(date), marker(), k),
        forall|i: int| 0 <= i < again.len() && is_prefix_of(artifact_prefix(project), #[trigger] again[i])
            ==> again[i] == artifact_name_text(project, version),
    ensures
        ({
            let art = artifact_name_text(project, version);
            let moved = moves_spec(names, artifact_prefix(project), art);
            &&& !moved.contains(art)
            &&& !moved.contains(project)
            &&& forall|x: Seq<char>| moved.contains(x)
                <==> (names.contains(x) && is_prefix_of(artifact_prefix(project), x) && x != art)
            &&& moves_spec(again, artifact_prefix(project), art).len() == 0
        }),
        ({
            let once = stripped(stable_content) + metadata_block(encode_utf8(version), encode_utf8(first_date));
            let twice = stripped(once) + metadata_block(encode_utf8(version), encode_utf8(date));
            forall|k: int| occurs_at(twice, marker(), k) <==> k == stripped(stable_content).len() + 2
        }),
{
    let art = artifact_name_text(project, version);
    reveal_strlit("_v_");
    law_migration_retry(names, artifact_prefix(project), art, again);
    assert(artifact_prefix(project).len() == project.len() + 3);
    assert(!is_prefix_of(artifact_prefix(project), project));
    let moved = moves_spec(names, artifact_prefix(project), art);
    assert(!moved.contains(art)) by {
        if moved.contains(art) {
            assert(names.contains(art));
        }
    }
    assert(!moved.contains(project)) by {
        if moved.contains(project) {
            assert(names.contains(project));
        }
    }
    law_republish_has_exactly_one_marker(
        stable_content,
        encode_utf8(version),
        encode_utf8(first_date),
        encode_utf8(version),
        encode_utf8(date),
    );
}

proof fn lemma_moves_members(names: Seq<Seq<char>>, prefix: Seq<char>, current: Seq<char>)
    ensures
        forall|n: Seq<char>|
            #![trigger moves_spec(names, prefix, current).contains(n)]
            #![trigger names.contains(n)]
            moves_spec(names, prefix, current).contains(n)
            <==> (names.contains(n) && is_prefix_of(prefix, n) && n != current),
    decreases names.len(),
{
    if names.len() > 0 {
        let init = names.drop_last();
        lemma_moves_members(init, prefix, current);
        assert forall|n: Seq<char>| moves_spec(names, prefix, current).contains(n)
            <==> (names.contains(n) && is_prefix_of(prefix, n) && n != current) by {
            if names.contains(n) {
                let i = choose|i: int| 0 <= i < names.len() && names[i] == n;
                if i < names.len() - 1 {
                    assert(init[i] == n);
                }
            }
            if init.contains(n) {
                let i = choose|i: int| 0 <= i < init.len() && init[i] == n;
                assert(names[i] == n);
            }
            let rest = moves_spec(init, prefix, current);
            if rest.push(names.last()).contains(n) && !rest.contains(n) {
                let i = choose|i: int| 0 <= i < rest.len() + 1 && rest.push(names.last())[i] == n;
                if i < rest.len() {
                    assert(rest[i] == n);
                }
            }
            if rest.contains(n) {
                let i = choose|i: int| 0 <= i < rest.len() && rest[i] == n;
                assert(rest.push(names.last())[i] == n);
            }
            assert(rest.push(names.last())[rest.len() as int] == names.last());
            assert(names[names.len() - 1] == names.last());
        }
    }
}

proof fn lemma_moves_none(names: Seq<Seq<char>>, prefix: Seq<char>, current: Seq<char>)
    requires
        forall|i: int| 0 <= i < names.len() && is_prefix_of(prefix, #[trigger] names[i]) ==> names[i] == current,
    ensures
        moves_spec(names, prefix, current).len() == 0,
    decreases names.len(),
{
    if names.len() > 0 {
        let init = names.drop_last();
        assert forall|i: int| 0 <= i < init.len() && is_prefix_of(prefix, #[trigger] init[i]) implies init[i] == current by {
            assert(init[i] == names[i]);
        }
        lemma_moves_none(init, prefix, current);
        assert(names[names.len() - 1] == names.last());
    }
}

/// How many candidates among the first `upto` entries have a rank below `m`.
pub open spec fn ranked_below(es: Seq<ArchiveEntry>, base: Seq<char>, m: nat, upto: int) -> nat
    decreases upto,
{
    if upto <= 0 {
        0
    } else {
        ranked_below(es, base, m, upto - 1) + if is_build_candidate(es[upto - 1].name@, base)
            && rank(es, base, upto - 1) < m { 1nat } else { 0nat }
    }
}

/// How many candidates among the first `upto` entries have rank `m`.
pub open spec fn ranked_at(es: Seq<ArchiveEntry>, base: Seq<char>, m: nat, upto: int) -> nat
    decreases upto,
{
    if upto <= 0 {
        0
    } else {
        ranked_at(es, base, m, upto - 1) + if is_build_candidate(es[upto - 1].name@, base)
            && rank(es, base, upto - 1) == m { 1nat } else { 0nat }
    }
}

proof fn lemma_rank_step(es: Seq<ArchiveEntry>, base: Seq<char>, i: int, j: int, upto: int)
    requires
        0 <= i < es.len(),
        0 <= j < es.len(),
        is_build_candidate(es[j].name@, base),
        sorts_before(es, j, i),
        upto <= es.len(),
    ensures
        rank_upto(es, base, j, upto) + (if j < upto { 1nat } else { 0nat }) <= rank_upto(es, base, i, upto),
    decreases upto,
{
    if upto > 0 {
        lemma_rank_step(es, base, i, j, upto - 1);
    }
}

proof fn lemma_ranks_distinct(es: Seq<ArchiveEntry>, base: Seq<char>, i: int, j: int)
    requires
        0 <= i < es.len(),
        0 <= j < es.len(),
        i != j,
        is_build_candidate(es[i].name@, base),
        is_build_candidate(es[j].name@, base),
    ensures
        rank(es, base, i) != rank(es, base, j),
{
    if sorts_before(es, j, i) {
        lemma_rank_step(es, base, i, j, es.len() as int);
    } else {
        lemma_rank_step(es, base, j, i, es.len() as int);
    }
}

proof fn lemma_ranked_at_witness(es: Seq<ArchiveEntry>, base: Seq<char>, m: nat, upto: int)
    requires
        ranked_at(es, base, m, upto) > 0,
    ensures
        exists|t: int| 0 <= t < upto && is_build_candidate(es[t].name@, base) && rank(es, base, t) == m,
    decreases upto,
{
    if upto > 0 && ranked_at(es, base, m, upto - 1) > 0 {
        lemma_ranked_at_witness(es, base, m, upto - 1);
    }
}

proof fn lemma_ranked_at_most_one(es: Seq<ArchiveEntry>, base: Seq<char>, m: nat, upto: int)
    requires
        upto <= es.len(),
    ensures
        ranked_at(es, base, m, upto) <= 1,
    decreases upto,
{
    if upto > 0 {
        lemma_ranked_at_most_one(es, base, m, upto - 1);
        let k = upto - 1;
        if ranked_at(es, base, m, k) > 0 && is_build_candidate(es[k].name@, base) && rank(es, base, k) == m {
            lemma_ranked_at_witness(es, base, m, k);
            let t = choose|t: int| 0 <= t < k && is_build_candidate(es[t].name@, base) && rank(es, base, t) == m;
            lemma_ranks_distinct(es, base, t, k);
        }
    }
}

proof fn lemma_ranked_below_split(es: Seq<ArchiveEntry>, base: Seq<char>, m: nat, upto: int)
    ensures
        ranked_below(es, base, m + 1, upto) == ranked_below(es, base, m, upto) + ranked_at(es, base, m, upto),
    decreases upto,
{
    if upto > 0 {
        lemma_ranked_below_split(es, base, m, upto - 1);
    }
}

proof fn lemma_ranked_below_bound(es: Seq<ArchiveEntry>, base: Seq<char>, m: nat)
    ensures
        ranked_below(es, base, m, es.len() as int) <= m,
    decreases m,
{
    if m == 0 {
        lemma_ranked_below_zero(es, base, es.len() as int);
    } else {
        lemma_ranked_below_bound(es, base, (m - 1) as nat);
        lemma_ranked_below_split(es, base, (m - 1) as nat, es.len() as int);
        lemma_ranked_at_most_one(es, base, (m - 1) as nat, es.len() as int);
    }
}

proof fn lemma_ranked_below_zero(es: Seq<ArchiveEntry>, base: Seq<char>, upto: int)
    ensures
        ranked_below(es, base, 0, upto) == 0,
    decreases upto,
{
    if upto > 0 {
        lemma_ranked_below_zero(es, base, upto - 1);
    }
}

/// After pruning, at most `KEPT_BUILDS` of `base`'s builds stay in the archive:
/// the candidates that pruning leaves are those with a rank below `KEPT_BUILDS`,
/// and no two candidates share a rank.
pub proof fn law_retention_bound(es: Seq<ArchiveEntry>, base: Seq<char>)
    ensures
        ranked_below(es, base, KEPT_BUILDS as nat, es.len() as int) <= KEPT_BUILDS,
{
    lemma_ranked_below_bound(es, base, KEPT_BUILDS as nat);
}

/// How many candidates among the first `upto` entries were modified strictly later than `es[i]`.
pub open spec fn newer_upto(es: Seq<ArchiveEntry>, base: Seq<char>, i: int, upto: int) -> nat
    decreases upto,
{
    if upto <= 0 {
        0
    } else {
        newer_upto(es, base, i, upto - 1) + if is_build_candidate(es[upto - 1].name@, base)
            && es[upto - 1].modified > es[i].modified { 1nat } else { 0nat }
    }
}

pub open spec fn distinct_times(es: Seq<ArchiveEntry>, base: Seq<char>) -> bool {
    forall|a: int, b: int|
        0 <= a < es.len() && 0 <= b < es.len() && a != b && is_build_candidate(es[a].name@, base)
            && is_build_candidate(es[b].name@, base) ==> #[trigger] es[a].modified != #[trigger] es[b].modified
}

proof fn lemma_rank_is_newer_count(es: Seq<ArchiveEntry>, base: Seq<char>, i: int, upto: int)
    requires
        distinct_times(es, base),
        0 <= i < es.len(),
        is_build_candidate(es[i].name@, base),
        upto <= es.len(),
    ensures
        rank_upto(es, base, i, upto) == newer_upto(es, base, i, upto),
    decreases upto,
{
    if upto > 0 {
        lemma_rank_is_newer_count(es, base, i, upto - 1);
        let t = upto - 1;
        if t != i && is_build_candidate(es[t].name@, base) {
            assert(es[t].modified != es[i].modified);
        }
    }
}

/// With distinct modification times, pruning deletes a build exactly when at
/// least `KEPT_BUILDS` builds were modified later: the most recent ones stay.
pub proof fn law_retention_keeps_newest(es: Seq<ArchiveEntry>, base: Seq<char>, i: int)
    requires
        distinct_times(es, base),
        0 <= i < es.len(),
        is_build_candidate(es[i].name@, base),
    ensures
        rank(es, base, i) >= KEPT_BUILDS <==> newer_upto(es, base, i, es.len() as int) >= KEPT_BUILDS,
{
    lemma_rank_is_newer_count(es, base, i, es.len() as int);
}

/// Where a publish cycle stands.
#[derive(Debug, Clone, Copy, PartialEq, Eq)]
pub enum PublishPhase {
    Start,
    AwaitStable,
    AwaitContent,
    AwaitWrite,
    AwaitInspection,
    AwaitLink,
    AwaitListing,
    AwaitArchive,
    AwaitPruning,
    AwaitFinal,
    Finished,
    Failed,
}

/// What the caller observed after carrying out the previous action.
#[derive(Debug, Clone)]
pub enum PublishEvent {
    Begin,
    /// Whether the path (or all paths) asked about exist.
    Exists(bool),
    /// The bytes of the stable executable.
    Content(Vec<u8>),
    /// The previous action completed.
    Done,
    /// The text read back from the new artifact.
    Inspected(Vec<u8>),
    /// The names in the live directory.
    Listing(Vec<String>),
    /// The entries of the archive directory.
    ArchiveListing(Vec<ArchiveEntry>),
}

/// What the caller must do next.
#[derive(Debug, Clone)]
pub enum PublishAction {
    /// Report whether `path` exists.
    CheckStable { path: String },
    /// Read the whole file at `path`.
    ReadStable { path: String },
    /// Write `bytes` to `name`, make it readable, writable and executable by
    /// all, and report completion.
    WriteArtifact { name: String, bytes: Vec<u8> },
    /// Read back the text embedded in `name`.
    InspectArtifact { name: String },
    /// Remove `link` if present, make it a symbolic link to `target`, and
    /// report whether `link` exists afterwards.
    Relink { link: String, target: String },
    /// List the names in the live directory.
    ListLive,
    /// Create `dir` if absent, move each of `names` into it, and list it.
    Archive { names: Vec<String>, dir: String },
    /// Delete each of `names` in `dir`, then each of `sidecars` that is
    /// present there, and report completion.
    Prune { names: Vec<String>, sidecars: Vec<String>, dir: String },
    /// Report whether every one of `paths` exists.
    CheckFinal { paths: Vec<String> },
    /// Delete `name`, then stop with `error`.
    DiscardAndFail { name: String, error: ArkhamError },
    Finish,
    Fail(ArkhamError),
}

/// One publish cycle of `project`'s executable at `version`, built on `date`.
pub struct Publisher {
    pub project: String,
    pub version: String,
    pub date: String,
    pub phase: PublishPhase,
}

pub open spec fn build_error_is(a: PublishAction, msg: Seq<char>) -> bool {
    a matches PublishAction::Fail(ArkhamError::BuildError(m)) && m@ == msg
}

pub open spec fn unexpected_text() -> Seq<char> {
    "unexpected event in the publish cycle"@
}

impl Publisher {
    pub fn new(project: String, version: String, date: String) -> (r: Publisher)
        ensures
            r.project == project,
            r.version == version,
            r.date == date,
            r.phase == PublishPhase::Start,
    {
        Publisher { project, version, date, phase: PublishPhase::Start }
    }

    /// Decides the next action from the current phase and what was observed.
    pub fn step(&mut self, event: PublishEvent) -> (r: PublishAction)
        ensures
            final(self).project == old(self).project,
            final(self).version == old(self).version,
            final(self).date == old(self).date,
            ({
                let n = old(self).project@;
                let v = old(self).version@;
                let art = artifact_name_text(n, v);
                match (old(self).phase, event) {
                    (PublishPhase::Start, PublishEvent::Begin) =>
                        final(self).phase == PublishPhase::AwaitStable
                        && (r matches PublishAction::CheckStable { path } && path@ == n),
                    (PublishPhase::AwaitStable, PublishEvent::Exists(true)) =>
                        final(self).phase == PublishPhase::AwaitContent
                        && (r matches PublishAction::ReadStable { path } && path@ == n),
                    (PublishPhase::AwaitStable, PublishEvent::Exists(false)) =>
                        final(self).phase == PublishPhase::Failed
                        && build_error_is(r, "Executable "@ + n + " not found"@),
                    (PublishPhase::AwaitContent, PublishEvent::Content(b)) =>
                        final(self).phase == PublishPhase::AwaitWrite
                        && (r matches PublishAction::WriteArtifact { name, bytes } && name@ == art
                        && bytes@ == stripped(b@) + metadata_block(encode_utf8(v), encode_utf8(old(self).date@))),
                    (PublishPhase::AwaitWrite, PublishEvent::Done) =>
                        final(self).phase == PublishPhase::AwaitInspection
                        && (r matches PublishAction::InspectArtifact { name } && name@ == art),
                    (PublishPhase::AwaitInspection, PublishEvent::Inspected(out)) =>
                        if exists|k: int| occurs_at(out@, version_tag(encode_utf8(v)), k) {
                            final(self).phase == PublishPhase::AwaitLink
                            && (r matches PublishAction::Relink { link, target } && link@ == n && target@ == art)
                        } else {
                            final(self).phase == PublishPhase::Failed
                            && (r matches PublishAction::DiscardAndFail { name, error: ArkhamError::BuildError(m) }
                            && name@ == art && m@ == "Failed to write version info to executable!"@)
                        },
                    (PublishPhase::AwaitLink, PublishEvent::Exists(true)) =>
                        final(self).phase == PublishPhase::AwaitListing && r is ListLive,
                    (PublishPhase::AwaitLink, PublishEvent::Exists(false)) =>
                        final(self).phase == PublishPhase::Failed
                        && build_error_is(r, "Failed to create Symlink!"@),
                    (PublishPhase::AwaitListing, PublishEvent::Listing(ns)) =>
                        final(self).phase == PublishPhase::AwaitArchive
                        && (r matches PublishAction::Archive { names, dir }
                        && views(names@) == moves_spec(views(ns@), artifact_prefix(n), art)
                        && dir@ == archive_dir_text()),
                    (PublishPhase::AwaitArchive, PublishEvent::ArchiveListing(es)) =>
                        final(self).phase == PublishPhase::AwaitPruning
                        && (r matches PublishAction::Prune { names, sidecars, dir }
                        && views(names@) == pruned(es@, n) && dir@ == archive_dir_text()
                        && views(sidecars@) == sidecars_of(pruned(es@, n))),
                    (PublishPhase::AwaitPruning, PublishEvent::Done) =>
                        final(self).phase == PublishPhase::AwaitFinal
                        && (r matches PublishAction::CheckFinal { paths } && views(paths@) == seq![art, n]),
                    (PublishPhase::AwaitFinal, PublishEvent::Exists(true)) =>
                        final(self).phase == PublishPhase::Finished && r is Finish,
                    (PublishPhase::AwaitFinal, PublishEvent::Exists(false)) =>
                        final(self).phase == PublishPhase::Failed
                        && build_error_is(r, "Failed to verify final executable state"@),
                    _ => final(self).phase == PublishPhase::Failed && build_error_is(r, unexpected_text()),
                }
            }),
    {
        let phase = self.phase;
        match (phase, event) {
            (PublishPhase::Start, PublishEvent::Begin) => {
                self.phase = PublishPhase::AwaitStable;
                PublishAction::CheckStable { path: self.project.clone() }
            },
            (PublishPhase::AwaitStable, PublishEvent::Exists(present)) => {
                if present {
                    self.phase = PublishPhase::AwaitContent;
                    PublishAction::ReadStable { path: self.project.clone() }
                } else {
                    self.phase = PublishPhase::Failed;
                    let mut m: Vec<char> = Vec::new();
                    push_str(&mut m, "Executable ");
                    push_str(&mut m, self.project.as_str());
                    push_str(&mut m, " not found");
                    PublishAction::Fail(ArkhamError::BuildError(string_of(&m)))
                }
            },
            (PublishPhase::AwaitContent, PublishEvent::Content(b)) => {
                self.phase = PublishPhase::AwaitWrite;
                let bytes = embed_metadata(&b, self.version.as_str(), self.date.as_str());
                PublishAction::WriteArtifact { name: artifact_name(self.project.as_str(), self.version.as_str()), bytes }
            },
            (PublishPhase::AwaitWrite, PublishEvent::Done) => {
                self.phase = PublishPhase::AwaitInspection;
                PublishAction::InspectArtifact { name: artifact_name(self.project.as_str(), self.version.as_str()) }
            },
            (PublishPhase::AwaitInspection, PublishEvent::Inspected(out)) => {
                let name = artifact_name(self.project.as_str(), self.version.as_str());
                if carries_version(&out, self.version.as_str()) {
                    self.phase = PublishPhase::AwaitLink;
                    PublishAction::Relink { link: self.project.clone(), target: name }
                } else {
                    self.phase = PublishPhase::Failed;
                    PublishAction::DiscardAndFail {
                        name,
                        error: ArkhamError::BuildError(String::from_str("Failed to write version info to executable!")),
                    }
                }
            },
            (PublishPhase::AwaitLink, PublishEvent::Exists(present)) => {
                if present {
                    self.phase = PublishPhase::AwaitListing;
                    PublishAction::ListLive
                } else {
                    self.phase = PublishPhase::Failed;
                    PublishAction::Fail(ArkhamError::BuildError(String::from_str("Failed to create Symlink!")))
                }
            },
            (PublishPhase::AwaitListing, PublishEvent::Listing(ns)) => {
                self.phase = PublishPhase::AwaitArchive;
                let names = archive_moves(&ns, self.project.as_str(), self.version.as_str());
                PublishAction::Archive { names, dir: String::from_str("prev_builds") }
            },
            (PublishPhase::AwaitArchive, PublishEvent::ArchiveListing(es)) => {
                self.phase = PublishPhase::AwaitPruning;
                let names = prune_plan(&es, self.project.as_str());
                let sidecars = sidecar_names(&names);
                PublishAction::Prune { names, sidecars, dir: String::from_str("prev_builds") }
            },
            (PublishPhase::AwaitPruning, PublishEvent::Done) => {
                self.phase = PublishPhase::AwaitFinal;
                let mut paths: Vec<String> = Vec::new();
                paths.push(artifact_name(self.project.as_str(), self.version.as_str()));
                paths.push(self.project.clone());
                assert(views(paths@) =~= seq![artifact_name_text(self.project@, self.version@), self.project@]);
                PublishAction::CheckFinal { paths }
            },
            (PublishPhase::AwaitFinal, PublishEvent::Exists(present)) => {
                if present {
                    self.phase = PublishPhase::Finished;
                    PublishAction::Finish
                } else {
                    self.phase = PublishPhase::Failed;
                    PublishAction::Fail(ArkhamError::BuildError(String::from_str("Failed to verify final executable state")))
                }
            },
            _ => {
                self.phase = PublishPhase::Failed;
                PublishAction::Fail(ArkhamError::BuildError(String::from_str("unexpected event in the publish cycle")))
            },
        }
    }
}

} // verus!
