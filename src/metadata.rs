//! The version block embedded at the end of a built executable.
use vstd::prelude::*;
use vstd::utf8::encode_utf8;

verus! {

broadcast use vstd::string::group_string_axioms;

/// The bytes of ASCII text.
pub open spec fn ascii_bytes(s: Seq<char>) -> Seq<u8> {
    s.map_values(|c: char| c as u8)
}

/// The sentinel that opens an embedded block.
pub open spec fn marker() -> Seq<u8> {
    ascii_bytes("--VERSION_INFO_START--"@)
}

pub open spec fn block_head() -> Seq<u8> {
    ascii_bytes("\n--VERSION_INFO_START--\nVersion: "@)
}

pub open spec fn block_mid() -> Seq<u8> {
    ascii_bytes("\nBuild Date: "@)
}

pub open spec fn block_tail() -> Seq<u8> {
    ascii_bytes("\n--VERSION_INFO_END--\n"@)
}

/// The block appended to an artifact for a version and a build date.
pub open spec fn metadata_block(version: Seq<u8>, date: Seq<u8>) -> Seq<u8> {
    block_head() + version + block_mid() + date + block_tail()
}

pub open spec fn occurs_at(h: Seq<u8>, n: Seq<u8>, i: int) -> bool {
    0 <= i && i + n.len() <= h.len() && h.subrange(i, i + n.len()) == n
}

pub open spec fn first_at(h: Seq<u8>, n: Seq<u8>, i: int) -> bool {
    occurs_at(h, n, i) && forall|j: int| 0 <= j < i ==> !occurs_at(h, n, j)
}

/// The content with everything from the first marker onward removed.
pub open spec fn stripped(h: Seq<u8>) -> Seq<u8> {
    if exists|i: int| first_at(h, marker(), i) {
        h.take(choose|i: int| first_at(h, marker(), i))
    } else {
        h
    }
}

/// The text that self-verification looks for in a published artifact.
pub open spec fn version_tag(version: Seq<u8>) -> Seq<u8> {
    ascii_bytes("Version: "@) + version
}

/// Position of the first occurrence of `needle` in `haystack`.
pub fn find_subsequence(haystack: &[u8], needle: &[u8]) -> (r: Option<usize>)
    requires
        needle@.len() > 0,
    ensures
        match r {
            Some(i) => first_at(haystack@, needle@, i as int),
            None => forall|j: int| !occurs_at(haystack@, needle@, j),
        },
{
    let hl = haystack.len();
    let nl = needle.len();
    if nl > hl {
        return None;
    }
    let mut i: usize = 0;
    while i <= hl - nl
        invariant
            hl == haystack@.len(),
            nl == needle@.len(),
            nl <= hl,
            i <= hl - nl + 1,
            forall|j: int| 0 <= j < i ==> !occurs_at(haystack@, needle@, j),
        decreases hl - i,
    {
        let mut k: usize = 0;
        let mut same = true;
        while k < nl
            invariant
                i + nl <= hl,
                hl == haystack@.len(),
                nl == needle@.len(),
                k <= nl,
                same == forall|t: int| 0 <= t < k ==> haystack@[i + t] == needle@[t],
            decreases nl - k,
        {
            if haystack[i + k] != needle[k] {
                same = false;
            }
            k += 1;
        }
        if same {
            assert(haystack@.subrange(i as int, i + nl) =~= needle@);
            return Some(i);
        }
        proof {
            let t = choose|t: int| 0 <= t < nl && haystack@[i + t] != needle@[t];
            assert(haystack@.subrange(i as int, i + nl)[t] != needle@[t]);
        }
        i += 1;
    }
    None
}

proof fn lemma_first_unique(h: Seq<u8>, n: Seq<u8>, i: int, j: int)
    requires
        first_at(h, n, i),
        first_at(h, n, j),
    ensures
        i == j,
{
}

pub(crate) fn push_ascii(out: &mut Vec<u8>, s: &str)
    requires
        vstd::utf8::is_ascii_chars(s@),
    ensures
        final(out)@ == old(out)@ + ascii_bytes(s@),
{
    proof {
        vstd::utf8::is_ascii_chars_encode_utf8(s@);
    }
    push_bytes(out, s.as_bytes());
    assert(final(out)@ =~= old(out)@ + ascii_bytes(s@));
}

fn push_bytes(out: &mut Vec<u8>, b: &[u8])
    ensures
        final(out)@ == old(out)@ + b@,
{
    let mut i: usize = 0;
    while i < b.len()
        invariant
            i <= b@.len(),
            out@ == old(out)@ + b@.take(i as int),
        decreases b@.len() - i,
    {
        out.push(b[i]);
        i += 1;
        assert(out@ =~= old(out)@ + b@.take(i as int));
    }
    assert(b@.take(i as int) =~= b@);
}

fn marker_bytes() -> (r: Vec<u8>)
    ensures
        r@ == marker(),
{
    let mut out: Vec<u8> = Vec::new();
    proof { reveal_strlit("--VERSION_INFO_START--"); }
    push_ascii(&mut out, "--VERSION_INFO_START--");
    assert(out@ =~= marker());
    out
}

/// The content with any earlier block removed.
pub fn strip_metadata(content: &Vec<u8>) -> (r: Vec<u8>)
    ensures
        r@ == stripped(content@),
{
    let m = marker_bytes();
    proof { reveal_strlit("--VERSION_INFO_START--"); }
    assert(m@.len() == 22);
    let mut out = content.clone();
    match find_subsequence(content.as_slice(), m.as_slice()) {
        Some(pos) => {
            proof {
                let i = choose|i: int| first_at(content@, marker(), i);
                lemma_first_unique(content@, marker(), i, pos as int);
            }
            out.truncate(pos);
            assert(out@ =~= stripped(content@));
        },
        None => {
            assert(out@ =~= stripped(content@));
        },
    }
    out
}

/// The content with any earlier block removed and a fresh block for `version`
/// and `date` appended.
pub fn embed_metadata(content: &Vec<u8>, version: &str, date: &str) -> (r: Vec<u8>)
    ensures
        r@ == stripped(content@) + metadata_block(encode_utf8(version@), encode_utf8(date@)),
{
    let mut out = strip_metadata(content);
    proof {
        reveal_strlit("\n--VERSION_INFO_START--\nVersion: ");
        reveal_strlit("\nBuild Date: ");
        reveal_strlit("\n--VERSION_INFO_END--\n");
    }
    push_ascii(&mut out, "\n--VERSION_INFO_START--\nVersion: ");
    push_bytes(&mut out, version.as_bytes());
    push_ascii(&mut out, "\nBuild Date: ");
    push_bytes(&mut out, date.as_bytes());
    push_ascii(&mut out, "\n--VERSION_INFO_END--\n");
    assert(out@ =~= stripped(content@) + metadata_block(encode_utf8(version@), encode_utf8(date@)));
    out
}

/// Whether the text read back from an artifact names `version`.
pub fn carries_version(output: &Vec<u8>, version: &str) -> (r: bool)
    ensures
        r == exists|k: int| occurs_at(output@, version_tag(encode_utf8(version@)), k),
{
    let mut tag: Vec<u8> = Vec::new();
    proof { reveal_strlit("Version: "); }
    push_ascii(&mut tag, "Version: ");
    push_bytes(&mut tag, version.as_bytes());
    assert(tag@ =~= version_tag(encode_utf8(version@)));
    match find_subsequence(output.as_slice(), tag.as_slice()) {
        Some(_) => true,
        None => false,
    }
}

proof fn lemma_stripped_has_no_marker(h: Seq<u8>)
    ensures
        forall|k: int| !occurs_at(stripped(h), marker(), k),
{
    reveal_strlit("--VERSION_INFO_START--");
    if exists|i: int| first_at(h, marker(), i) {
        let p = choose|i: int| first_at(h, marker(), i);
        assert(stripped(h) == h.take(p));
        assert forall|k: int| !occurs_at(stripped(h), marker(), k) by {
            if occurs_at(stripped(h), marker(), k) {
                assert(k < p);
                assert(h.subrange(k, k + marker().len()) =~= stripped(h).subrange(k, k + marker().len()));
                assert(occurs_at(h, marker(), k));
            }
        }
    } else {
        assert forall|k: int| !occurs_at(h, marker(), k) by {
            if occurs_at(h, marker(), k) {
                lemma_some_occurrence_has_first(h, k);
            }
        }
    }
}

proof fn lemma_some_occurrence_has_first(h: Seq<u8>, k: int)
    requires
        occurs_at(h, marker(), k),
    ensures
        exists|i: int| first_at(h, marker(), i),
    decreases k,
{
    if !first_at(h, marker(), k) {
        let j = choose|j: int| 0 <= j < k && occurs_at(h, marker(), j);
        lemma_some_occurrence_has_first(h, j);
    }
}

proof fn lemma_block_shape(version: Seq<u8>, date: Seq<u8>)
    ensures
        metadata_block(version, date).len() >= 23,
        metadata_block(version, date)[0] == 10u8,
        metadata_block(version, date).subrange(1, 23) == marker(),
        forall|t: int| 0 <= t < 22 ==> marker()[t] != 10u8,
        marker().len() == 22,
{
    reveal_strlit("--VERSION_INFO_START--");
    reveal_strlit("\n--VERSION_INFO_START--\nVersion: ");
    let b = metadata_block(version, date);
    assert(b.subrange(1, 23) =~= marker());
}

/// Appending a block to a body without a marker puts the first marker at the
/// block's start, and stripping the result gives the body back with the
/// newline that opens the block.
proof fn lemma_first_marker_in_block(body: Seq<u8>, version: Seq<u8>, date: Seq<u8>)
    requires
        forall|k: int| !occurs_at(body, marker(), k),
    ensures
        first_at(body + metadata_block(version, date), marker(), body.len() + 1int),
        stripped(body + metadata_block(version, date)) == body.push(10u8),
{
    let b = metadata_block(version, date);
    let h = body + b;
    let n = body.len() as int;
    lemma_block_shape(version, date);
    assert(h.subrange(n + 1, n + 23) =~= b.subrange(1, 23));
    assert(occurs_at(h, marker(), n + 1));
    assert forall|j: int| 0 <= j < n + 1 implies !occurs_at(h, marker(), j) by {
        if occurs_at(h, marker(), j) {
            if j + 22 <= n {
                assert(body.subrange(j, j + 22) =~= h.subrange(j, j + 22));
                assert(occurs_at(body, marker(), j));
            } else {
                assert(h.subrange(j, j + 22)[n - j] == h[n]);
                assert(h[n] == 10u8);
            }
        }
    }
    assert(first_at(h, marker(), n + 1));
    let p = choose|i: int| first_at(h, marker(), i);
    lemma_first_unique(h, marker(), p, n + 1);
    assert(h.take(n + 1) =~= body.push(10u8));
}

/// Republishing replaces the embedded block instead of adding to it: after a
/// second embed the content holds the body it started with, the newline that opened
/// the first block, and the new block, whose marker is the first one present.
pub proof fn law_republish_keeps_one_block(
    content: Seq<u8>,
    v1: Seq<u8>,
    d1: Seq<u8>,
    v2: Seq<u8>,
    d2: Seq<u8>,
)
    ensures
        stripped(stripped(content) + metadata_block(v1, d1)) == stripped(content).push(10u8),
        forall|k: int| !occurs_at(stripped(content).push(10u8), marker(), k),
        first_at(
            stripped(stripped(content) + metadata_block(v1, d1)) + metadata_block(v2, d2),
            marker(),
            stripped(content).len() + 2int,
        ),
{
    let body = stripped(content);
    lemma_stripped_has_no_marker(content);
    lemma_first_marker_in_block(body, v1, d1);
    let once = body + metadata_block(v1, d1);
    lemma_stripped_has_no_marker(once);
    lemma_first_marker_in_block(body.push(10u8), v2, d2);
}

/// An artifact just given a block for `version` names that version, so the
/// self-verification of a correctly written artifact passes.
pub proof fn law_embedded_version_is_found(content: Seq<u8>, version: Seq<u8>, date: Seq<u8>)
    ensures
        occurs_at(
            stripped(content) + metadata_block(version, date),
            version_tag(version),
            stripped(content).len() + 24int,
        ),
{
    reveal_strlit("\n--VERSION_INFO_START--\nVersion: ");
    reveal_strlit("Version: ");
    let body = stripped(content);
    let h = body + metadata_block(version, date);
    let k = body.len() + 24int;
    let t = version_tag(version);
    assert(block_head().len() == 33);
    assert(h.subrange(k, k + t.len()) =~= t) by {
        assert forall|i: int| 0 <= i < t.len() implies h.subrange(k, k + t.len())[i] == t[i] by {
            if i < 9 {
                assert(h[k + i] == block_head()[24 + i]);
            } else {
                assert(h[k + i] == version[i - 9]);
            }
        }
    }
}

pub open spec fn free_of_byte(x: Seq<u8>, b: u8) -> bool {
    forall|i: int| 0 <= i < x.len() ==> x[i] != b
}

/// Within a block whose version and date hold no newline and no marker, the
/// only marker is the one that opens it.
proof fn lemma_block_has_one_marker(version: Seq<u8>, date: Seq<u8>, j: int)
    requires
        free_of_byte(version, 10u8),
        free_of_byte(date, 10u8),
        forall|k: int| !occurs_at(version, marker(), k),
        forall|k: int| !occurs_at(date, marker(), k),
        j != 1,
    ensures
        !occurs_at(metadata_block(version, date), marker(), j),
{
    reveal_strlit("--VERSION_INFO_START--");
    reveal_strlit("\n--VERSION_INFO_START--\nVersion: ");
    reveal_strlit("\nBuild Date: ");
    reveal_strlit("\n--VERSION_INFO_END--\n");
    lemma_block_shape(version, date);
    let bl = metadata_block(version, date);
    let m = marker();
    let a: int = 33 + version.len() as int;
    let b: int = a + 13 + date.len() as int;
    assert(block_head().len() == 33 && block_mid().len() == 13 && block_tail().len() == 22);
    assert(bl.len() == b + 22);
    assert(forall|i: int| 0 <= i < 33 ==> bl[i] == block_head()[i]);
    assert(forall|i: int| 0 <= i < version.len() ==> bl[33 + i] == version[i]);
    assert(forall|i: int| 0 <= i < 13 ==> bl[a + i] == block_mid()[i]);
    assert(forall|i: int| 0 <= i < date.len() ==> bl[a + 13 + i] == date[i]);
    assert(forall|i: int| 0 <= i < 22 ==> bl[b + i] == block_tail()[i]);
    assert(m[0] == 45u8);
    if occurs_at(bl, m, j) {
        assert(forall|t: int| 0 <= t < 22 ==> bl[j + t] == m[t]);
        if j == 0 {
            assert(bl[0] == 10u8);
        } else if j <= 23 {
            assert(bl[23] == 10u8);
            assert(bl[j + (23 - j)] == m[23 - j]);
        } else if j < 33 {
            assert(bl[j] != 45u8);
        } else if j < a {
            if j + 22 <= a {
                assert(version.subrange(j - 33, j - 33 + 22) =~= bl.subrange(j, j + 22));
                assert(occurs_at(version, m, j - 33));
            } else {
                assert(bl[a] == 10u8);
                assert(bl[j + (a - j)] == m[a - j]);
            }
        } else if j < a + 13 {
            assert(bl[j] != 45u8);
        } else if j < b {
            if j + 22 <= b {
                assert(date.subrange(j - a - 13, j - a - 13 + 22) =~= bl.subrange(j, j + 22));
                assert(occurs_at(date, m, j - a - 13));
            } else {
                assert(bl[b] == 10u8);
                assert(bl[j + (b - j)] == m[b - j]);
            }
        } else if j == b {
            assert(bl[b] == 10u8);
        }
    }
}

/// Embedding into any content leaves exactly one metadata block: whatever
/// blocks the content held are gone, and when the version and date texts hold
/// no newline and no marker, the marker occurs once, at the start of the new block.
pub proof fn law_embed_has_exactly_one_marker(content: Seq<u8>, version: Seq<u8>, date: Seq<u8>)
    requires
        free_of_byte(version, 10u8),
        free_of_byte(date, 10u8),
        forall|k: int| !occurs_at(version, marker(), k),
        forall|k: int| !occurs_at(date, marker(), k),
    ensures
        forall|k: int| occurs_at(stripped(content) + metadata_block(version, date), marker(), k)
            <==> k == stripped(content).len() + 1,
{
    let body = stripped(content);
    let bl = metadata_block(version, date);
    let h = body + bl;
    let n = body.len() as int;
    lemma_stripped_has_no_marker(content);
    lemma_first_marker_in_block(body, version, date);
    lemma_block_shape(version, date);
    assert forall|k: int| occurs_at(h, marker(), k) implies k == n + 1 by {
        if k > n + 1 {
            assert(bl.subrange(k - n, k - n + 22) =~= h.subrange(k, k + 22));
            lemma_block_has_one_marker(version, date, k - n);
        }
    }
}

/// A republished artifact holds exactly one metadata block: when the version
/// and date texts hold no newline and no marker, the marker occurs once, at the
/// start of the new block.
pub proof fn law_republish_has_exactly_one_marker(
    content: Seq<u8>,
    v1: Seq<u8>,
    d1: Seq<u8>,
    v2: Seq<u8>,
    d2: Seq<u8>,
)
    requires
        free_of_byte(v2, 10u8),
        free_of_byte(d2, 10u8),
        forall|k: int| !occurs_at(v2, marker(), k),
        forall|k: int| !occurs_at(d2, marker(), k),
    ensures
        ({
            let twice = stripped(stripped(content) + metadata_block(v1, d1)) + metadata_block(v2, d2);
            forall|k: int| occurs_at(twice, marker(), k) <==> k == stripped(content).len() + 2
        }),
{
    law_republish_keeps_one_block(content, v1, d1, v2, d2);
    let body = stripped(stripped(content) + metadata_block(v1, d1));
    let bl = metadata_block(v2, d2);
    let twice = body + bl;
    let n = body.len() as int;
    lemma_block_shape(v2, d2);
    assert forall|k: int| occurs_at(twice, marker(), k) implies k == n + 1 by {
        if k > n + 1 {
            assert(bl.subrange(k - n, k - n + 22) =~= twice.subrange(k, k + 22));
            lemma_block_has_one_marker(v2, d2, k - n);
        }
    }
}

} // verus!
