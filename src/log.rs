//! The append-only version log: one CSV row per recorded build.
use vstd::prelude::*;
use crate::error::{ArkhamError, invalid_version_message, invalid_version_text, not_found_message, not_found_text};
use crate::text::{chars_of, decimal, push_all, push_decimal, push_str, string_of, trim, trimmed, views};
use crate::version::{validate_version, version_text_ok};

verus! {

/// One recorded build.
#[derive(Debug, Clone)]
pub struct VersionLogEntry {
    pub version: String,
    pub log_message: String,
    pub build_date: String,
    pub builder: String,
    pub commit_id: String,
}

pub open spec fn entry_fields(e: VersionLogEntry) -> Seq<Seq<char>> {
    seq![e.version@, e.log_message@, e.build_date@, e.builder@, e.commit_id@]
}

pub open spec fn entries_fields(es: Seq<VersionLogEntry>) -> Seq<Seq<Seq<char>>> {
    es.map_values(|e: VersionLogEntry| entry_fields(e))
}

pub open spec fn quoted(s: Seq<char>) -> Seq<char> {
    seq!['"'] + s + seq!['"']
}

/// A stored row: the version and the date bare, the other fields quoted.
pub open spec fn row_text(f: Seq<Seq<char>>) -> Seq<char> {
    f[0] + seq![','] + quoted(f[1]) + seq![','] + f[2] + seq![','] + quoted(f[3]) + seq![','] + quoted(f[4])
}

pub open spec fn log_header_text() -> Seq<char> {
    "version_name,version_log,build_date,built_by,commit_id"@
}

/// Fields finished so far, the field being read, and whether a quote is open.
pub type ScanState = (Seq<Seq<char>>, Seq<char>, bool);

pub open spec fn scan_step(st: ScanState, c: char) -> ScanState {
    if c == '"' {
        (st.0, st.1.push(c), !st.2)
    } else if c == ',' && !st.2 {
        (st.0.push(st.1), Seq::empty(), st.2)
    } else {
        (st.0, st.1.push(c), st.2)
    }
}

pub open spec fn scan(st: ScanState, s: Seq<char>) -> ScanState
    decreases s.len(),
{
    if s.len() == 0 {
        st
    } else {
        scan_step(scan(st, s.drop_last()), s.last())
    }
}

pub open spec fn scan_start() -> ScanState {
    (Seq::empty(), Seq::empty(), false)
}

/// The fields of a row before trimming: a quote toggles the quoted state and is
/// kept, and a comma ends a field only outside quotes.
pub open spec fn raw_fields(s: Seq<char>) -> Seq<Seq<char>> {
    let e = scan(scan_start(), s);
    e.0.push(e.1)
}

/// The text without one layer of enclosing quotes, if it has one.
pub open spec fn unquote(s: Seq<char>) -> Seq<char> {
    if s.len() >= 2 && s[0] == '"' && s.last() == '"' {
        s.subrange(1, s.len() - 1)
    } else {
        s
    }
}

pub open spec fn field_value(f: Seq<char>) -> Seq<char> {
    unquote(trim(f))
}

/// The fields of a row: split, trimmed, and stripped of one layer of quotes.
pub open spec fn csv_fields(s: Seq<char>) -> Seq<Seq<char>> {
    raw_fields(s).map_values(|f: Seq<char>| field_value(f))
}

pub open spec fn field_count_message(line_no: nat, count: nat) -> Seq<char> {
    "Corrupt version info at line "@ + decimal(line_no) + ": Expected 5 fields, found "@ + decimal(count)
}

pub open spec fn bad_version_message(line_no: nat, v: Seq<char>) -> Seq<char> {
    "Invalid version at line "@ + decimal(line_no) + ": "@ + invalid_version_message(v)
}

/// Records and error messages from the data rows `1..upto` of the whole log.
pub open spec fn list_outcome(lines: Seq<Seq<char>>, upto: int) -> (Seq<Seq<Seq<char>>>, Seq<Seq<char>>)
    decreases upto,
{
    if upto <= 1 {
        (Seq::empty(), Seq::empty())
    } else {
        let prev = list_outcome(lines, upto - 1);
        let f = csv_fields(lines[upto - 1]);
        if f.len() != 5 {
            (prev.0, prev.1.push(field_count_message(upto as nat, f.len())))
        } else if !version_text_ok(f[0]) {
            (prev.0, prev.1.push(bad_version_message(upto as nat, f[0])))
        } else {
            (prev.0.push(f), prev.1)
        }
    }
}

/// One message for each requested version that is not well-formed.
pub open spec fn prevalidation_errors(vs: Seq<Seq<char>>) -> Seq<Seq<char>>
    decreases vs.len(),
{
    if vs.len() == 0 {
        Seq::empty()
    } else {
        let p = prevalidation_errors(vs.drop_last());
        if version_text_ok(vs.last()) {
            p
        } else {
            p.push(invalid_version_message(vs.last()))
        }
    }
}

/// Records and error messages from the data rows `1..upto` whose version is requested.
pub open spec fn lookup_outcome(vs: Seq<Seq<char>>, lines: Seq<Seq<char>>, upto: int) -> (Seq<Seq<Seq<char>>>, Seq<Seq<char>>)
    decreases upto,
{
    if upto <= 1 {
        (Seq::empty(), Seq::empty())
    } else {
        let prev = lookup_outcome(vs, lines, upto - 1);
        let f = csv_fields(lines[upto - 1]);
        if !vs.contains(f[0]) {
            prev
        } else if f.len() != 5 {
            (prev.0, prev.1.push(field_count_message(upto as nat, f.len())))
        } else {
            (prev.0.push(f), prev.1)
        }
    }
}

pub open spec fn not_found_errors(vs: Seq<Seq<char>>) -> Seq<Seq<char>> {
    vs.map_values(|v: Seq<char>| not_found_message(v))
}

/// A commit id as shown to a reader: at most eight characters, then `...`.
pub open spec fn shown_commit(c: Seq<char>) -> Seq<char> {
    if c.len() > 8 {
        c.take(8) + "..."@
    } else {
        c
    }
}

/// Splits a row into trimmed fields, honouring quotes.
pub fn split_fields(line: &str) -> (r: Vec<String>)
    ensures
        views(r@) == csv_fields(line@),
{
    let cs = chars_of(line);
    let mut out: Vec<String> = Vec::new();
    let mut cur: Vec<char> = Vec::new();
    let mut inq = false;
    let mut i: usize = 0;
    while i < cs.len()
        invariant
            i <= cs@.len(),
            cs@ == line@,
            views(out@) == scan(scan_start(), cs@.take(i as int)).0.map_values(|f: Seq<char>| field_value(f)),
            cur@ == scan(scan_start(), cs@.take(i as int)).1,
            inq == scan(scan_start(), cs@.take(i as int)).2,
        decreases cs@.len() - i,
    {
        let c = cs[i];
        let ghost before = scan(scan_start(), cs@.take(i as int));
        assert(cs@.take(i + 1).drop_last() =~= cs@.take(i as int));
        if c == '"' {
            cur.push(c);
            inq = !inq;
        } else if c == ',' && !inq {
            let t = unquoted(&trimmed(&cur));
            let ghost old_out = out@;
            out.push(string_of(&t));
            assert(views(out@) =~= views(old_out).push(field_value(before.1)));
            assert(before.0.push(before.1).map_values(|f: Seq<char>| field_value(f)) =~= before.0.map_values(
                |f: Seq<char>| field_value(f),
            ).push(field_value(before.1)));
            cur = Vec::new();
        } else {
            cur.push(c);
        }
        i += 1;
    }
    assert(cs@.take(i as int) =~= line@);
    let t = unquoted(&trimmed(&cur));
    let ghost old_out = out@;
    let ghost e = scan(scan_start(), line@);
    out.push(string_of(&t));
    assert(views(out@) =~= views(old_out).push(field_value(e.1)));
    assert(e.0.push(e.1).map_values(|f: Seq<char>| field_value(f)) =~= e.0.map_values(|f: Seq<char>| field_value(f)).push(
        field_value(e.1),
    ));
    out
}

fn unquoted(s: &Vec<char>) -> (r: Vec<char>)
    ensures
        r@ == unquote(s@),
{
    let n = s.len();
    if n >= 2 && s[0] == '"' && s[n - 1] == '"' {
        let mut r: Vec<char> = Vec::new();
        let mut i: usize = 1;
        while i < n - 1
            invariant
                n == s@.len(),
                n >= 2,
                1 <= i <= n - 1,
                r@ == s@.subrange(1, i as int),
            decreases n - 1 - i,
        {
            r.push(s[i]);
            i += 1;
            assert(r@ =~= s@.subrange(1, i as int));
        }
        r
    } else {
        s.clone()
    }
}

fn push_quoted(out: &mut Vec<char>, s: &String)
    ensures
        final(out)@ == old(out)@ + quoted(s@),
{
    out.push('"');
    push_str(out, s.as_str());
    out.push('"');
    assert(final(out)@ =~= old(out)@ + quoted(s@));
}

impl VersionLogEntry {
    /// The row that stores this entry.
    pub fn encode_row(&self) -> (r: String)
        ensures
            r@ == row_text(entry_fields(*self)),
    {
        let mut out: Vec<char> = Vec::new();
        push_str(&mut out, self.version.as_str());
        out.push(',');
        push_quoted(&mut out, &self.log_message);
        out.push(',');
        push_str(&mut out, self.build_date.as_str());
        out.push(',');
        push_quoted(&mut out, &self.builder);
        out.push(',');
        push_quoted(&mut out, &self.commit_id);
        assert(out@ =~= row_text(entry_fields(*self)));
        string_of(&out)
    }

    /// Reads a data row; `line_no` is its line in the log, counting the header as line 1.
    pub fn parse_row(line: &str, line_no: u64) -> (r: Result<VersionLogEntry, ArkhamError>)
        ensures
            match r {
                Ok(e) => csv_fields(line@).len() == 5 && entry_fields(e) == csv_fields(line@),
                Err(e) => csv_fields(line@).len() != 5 && e is CorruptVersionInfo
                    && e->CorruptVersionInfo_0@ == field_count_message(line_no as nat, csv_fields(line@).len()),
            },
    {
        let f = split_fields(line);
        if f.len() != 5 {
            let msg = field_count_text(line_no, f.len() as u64);
            return Err(ArkhamError::CorruptVersionInfo(string_of(&msg)));
        }
        let e = VersionLogEntry {
            version: f[0].clone(),
            log_message: f[1].clone(),
            build_date: f[2].clone(),
            builder: f[3].clone(),
            commit_id: f[4].clone(),
        };
        assert(entry_fields(e) =~= csv_fields(line@));
        Ok(e)
    }

    /// The commit id as shown in listings.
    pub fn shown_commit(&self) -> (r: String)
        ensures
            r@ == shown_commit(self.commit_id@),
    {
        let cs = chars_of(self.commit_id.as_str());
        if cs.len() > 8 {
            let mut out: Vec<char> = Vec::new();
            let mut i: usize = 0;
            while i < 8
                invariant
                    i <= 8 < cs@.len(),
                    out@ == cs@.take(i as int),
                decreases 8 - i,
            {
                out.push(cs[i]);
                i += 1;
                assert(out@ =~= cs@.take(i as int));
            }
            push_str(&mut out, "...");
            string_of(&out)
        } else {
            self.commit_id.clone()
        }
    }
}

/// The header row of the log.
pub fn log_header() -> (r: String)
    ensures
        r@ == log_header_text(),
{
    String::from_str("version_name,version_log,build_date,built_by,commit_id")
}

fn field_count_text(line_no: u64, count: u64) -> (r: Vec<char>)
    ensures
        r@ == field_count_message(line_no as nat, count as nat),
{
    let mut out: Vec<char> = Vec::new();
    push_str(&mut out, "Corrupt version info at line ");
    push_decimal(&mut out, line_no);
    push_str(&mut out, ": Expected 5 fields, found ");
    push_decimal(&mut out, count);
    assert(out@ =~= field_count_message(line_no as nat, count as nat));
    out
}

fn bad_version_text(line_no: u64, v: &String) -> (r: Vec<char>)
    ensures
        r@ == bad_version_message(line_no as nat, v@),
{
    let mut out: Vec<char> = Vec::new();
    push_str(&mut out, "Invalid version at line ");
    push_decimal(&mut out, line_no);
    push_str(&mut out, ": ");
    let msg = invalid_version_text(&chars_of(v.as_str()));
    push_all(&mut out, &msg);
    assert(out@ =~= bad_version_message(line_no as nat, v@));
    out
}

/// Every entry of the log, whose first line is the header; fails with every
/// malformed row's message if there is any.
pub fn list_entries(lines: &Vec<String>) -> (r: Result<Vec<VersionLogEntry>, ArkhamError>)
    ensures
        ({
            let o = list_outcome(views(lines@), lines@.len() as int);
            match r {
                Ok(es) => o.1.len() == 0 && entries_fields(es@) == o.0,
                Err(e) => o.1.len() > 0 && e is MultipleVersionErrors && views(e->MultipleVersionErrors_0@) == o.1,
            }
        }),
{
    let ghost ls = views(lines@);
    let mut records: Vec<VersionLogEntry> = Vec::new();
    let mut errors: Vec<String> = Vec::new();
    let mut j: usize = 1;
    while j < lines.len()
        invariant
            ls == views(lines@),
            1 <= j,
            j <= lines@.len() || lines@.len() == 0,
            lines@.len() == 0 ==> j == 1,
            entries_fields(records@) == list_outcome(ls, j as int).0,
            views(errors@) == list_outcome(ls, j as int).1,
        decreases lines@.len() - j,
    {
        let f = split_fields(lines[j].as_str());
        let ghost old_records = records@;
        let ghost old_errors = errors@;
        assert(ls[j as int] == lines@[j as int]@);
        if f.len() != 5 {
            let msg = field_count_text((j + 1) as u64, f.len() as u64);
            errors.push(string_of(&msg));
            assert(views(errors@) =~= views(old_errors).push(msg@));
        } else if validate_version(f[0].as_str()).is_err() {
            let msg = bad_version_text((j + 1) as u64, &f[0]);
            errors.push(string_of(&msg));
            assert(views(errors@) =~= views(old_errors).push(msg@));
        } else {
            let e = VersionLogEntry {
                version: f[0].clone(),
                log_message: f[1].clone(),
                build_date: f[2].clone(),
                builder: f[3].clone(),
                commit_id: f[4].clone(),
            };
            assert(entry_fields(e) =~= csv_fields(ls[j as int]));
            records.push(e);
            assert(entries_fields(records@) =~= entries_fields(old_records).push(entry_fields(e)));
        }
        j += 1;
    }
    proof {
        if lines@.len() == 0 {
            assert(list_outcome(ls, 1int) == list_outcome(ls, 0int));
        } else {
            assert(j == lines@.len());
        }
        assert(views(errors@).len() == errors@.len());
        assert(list_outcome(views(lines@), lines@.len() as int) == list_outcome(ls, j as int));
    }
    if errors.len() > 0 {
        Err(ArkhamError::MultipleVersionErrors(errors))
    } else {
        Ok(records)
    }
}

fn prevalidate(versions: &Vec<String>) -> (r: Vec<String>)
    ensures
        views(r@) == prevalidation_errors(views(versions@)),
{
    let mut errs: Vec<String> = Vec::new();
    let mut k: usize = 0;
    while k < versions.len()
        invariant
            k <= versions@.len(),
            views(errs@) == prevalidation_errors(views(versions@).take(k as int)),
        decreases versions@.len() - k,
    {
        let ghost old_errs = errs@;
        assert(views(versions@).take(k + 1).drop_last() =~= views(versions@).take(k as int));
        if validate_version(versions[k].as_str()).is_err() {
            let msg = invalid_version_text(&chars_of(versions[k].as_str()));
            errs.push(string_of(&msg));
            assert(views(errs@) =~= views(old_errs).push(msg@));
        }
        k += 1;
    }
    assert(views(versions@).take(k as int) =~= views(versions@));
    errs
}

fn is_requested(versions: &Vec<String>, v: &String) -> (r: bool)
    ensures
        r == views(versions@).contains(v@),
{
    let mut k: usize = 0;
    while k < versions.len()
        invariant
            k <= versions@.len(),
            forall|t: int| 0 <= t < k ==> versions@[t]@ != v@,
        decreases versions@.len() - k,
    {
        if versions[k] == *v {
            assert(views(versions@)[k as int] == v@);
            return true;
        }
        k += 1;
    }
    proof {
        if views(versions@).contains(v@) {
            let t = choose|t: int| 0 <= t < views(versions@).len() && views(versions@)[t] == v@;
            assert(versions@[t]@ == v@);
        }
    }
    false
}

/// The entries of the requested versions. With no version requested it fails
/// with `NoVersionSpecified`; malformed requests fail together, before the log
/// is read; `None` stands for a log that does not exist yet.
pub fn lookup(versions: &Vec<String>, lines: Option<&Vec<String>>) -> (r: Result<Vec<VersionLogEntry>, ArkhamError>)
    ensures
        ({
            let vs = views(versions@);
            if vs.len() == 0 {
                r matches Err(ArkhamError::NoVersionSpecified)
            } else if prevalidation_errors(vs).len() > 0 {
                r matches Err(e) && e is MultipleVersionErrors
                    && views(e->MultipleVersionErrors_0@) == prevalidation_errors(vs)
            } else if lines is None {
                r matches Ok(es) && es@.len() == 0
            } else {
                let o = lookup_outcome(vs, views(lines->0@), lines->0@.len() as int);
                if o.1.len() > 0 {
                    r matches Err(e) && e is MultipleVersionErrors && views(e->MultipleVersionErrors_0@) == o.1
                } else if o.0.len() == 0 {
                    r matches Err(e) && e is MultipleVersionErrors
                        && views(e->MultipleVersionErrors_0@) == not_found_errors(vs)
                } else {
                    r matches Ok(es) && entries_fields(es@) == o.0
                }
            }
        }),
{
    if versions.len() == 0 {
        return Err(ArkhamError::NoVersionSpecified);
    }
    let pre = prevalidate(versions);
    if pre.len() > 0 {
        assert(views(pre@).len() == pre@.len());
        return Err(ArkhamError::MultipleVersionErrors(pre));
    }
    assert(views(pre@).len() == pre@.len());
    let lines = match lines {
        None => return Ok(Vec::new()),
        Some(l) => l,
    };
    let ghost vs = views(versions@);
    let ghost ls = views(lines@);
    let mut records: Vec<VersionLogEntry> = Vec::new();
    let mut errors: Vec<String> = Vec::new();
    let mut j: usize = 1;
    while j < lines.len()
        invariant
            ls == views(lines@),
            vs == views(versions@),
            1 <= j,
            j <= lines@.len() || lines@.len() == 0,
            lines@.len() == 0 ==> j == 1,
            entries_fields(records@) == lookup_outcome(vs, ls, j as int).0,
            views(errors@) == lookup_outcome(vs, ls, j as int).1,
        decreases lines@.len() - j,
    {
        let f = split_fields(lines[j].as_str());
        let ghost old_records = records@;
        let ghost old_errors = errors@;
        assert(ls[j as int] == lines@[j as int]@);
        assert(views(f@).len() == f@.len());
        if !is_requested(versions, &f[0]) {
        } else if f.len() != 5 {
            let msg = field_count_text((j + 1) as u64, f.len() as u64);
            errors.push(string_of(&msg));
            assert(views(errors@) =~= views(old_errors).push(msg@));
        } else {
            let e = VersionLogEntry {
                version: f[0].clone(),
                log_message: f[1].clone(),
                build_date: f[2].clone(),
                builder: f[3].clone(),
                commit_id: f[4].clone(),
            };
            assert(entry_fields(e) =~= csv_fields(ls[j as int]));
            records.push(e);
            assert(entries_fields(records@) =~= entries_fields(old_records).push(entry_fields(e)));
        }
        j += 1;
    }
    proof {
        if lines@.len() == 0 {
            assert(lookup_outcome(vs, ls, 1int) == lookup_outcome(vs, ls, 0int));
        }
        assert(views(errors@).len() == errors@.len());
        assert(entries_fields(records@).len() == records@.len());
        assert(lookup_outcome(vs, views(lines@), lines@.len() as int) == lookup_outcome(vs, ls, j as int));
    }
    if errors.len() > 0 {
        return Err(ArkhamError::MultipleVersionErrors(errors));
    }
    if records.len() == 0 {
        let mut missing: Vec<String> = Vec::new();
        let mut k: usize = 0;
        while k < versions.len()
            invariant
                k <= versions@.len(),
                vs == views(versions@),
                views(missing@) == not_found_errors(vs.take(k as int)),
            decreases versions@.len() - k,
        {
            let ghost old_missing = missing@;
            let msg = not_found_text(&chars_of(versions[k].as_str()));
            missing.push(string_of(&msg));
            assert(vs[k as int] == versions@[k as int]@);
            assert(vs.take(k + 1) =~= vs.take(k as int).push(vs[k as int]));
            assert(views(missing@) =~= views(old_missing).push(msg@));
            assert(views(missing@) =~= not_found_errors(vs.take(k + 1)));
            k += 1;
        }
        assert(vs.take(k as int) =~= vs);
        return Err(ArkhamError::MultipleVersionErrors(missing));
    }
    Ok(records)
}

proof fn lemma_scan_one(st: ScanState, c: char)
    ensures
        scan(st, seq![c]) == scan_step(st, c),
{
    assert(seq![c].drop_last() =~= Seq::<char>::empty());
    assert(seq![c].last() == c);
    assert(scan(st, Seq::<char>::empty()) == st);
}

proof fn lemma_scan_concat(st: ScanState, a: Seq<char>, b: Seq<char>)
    ensures
        scan(st, a + b) == scan(scan(st, a), b),
    decreases b.len(),
{
    if b.len() == 0 {
        assert(a + b =~= a);
    } else {
        assert((a + b).drop_last() =~= a + b.drop_last());
        assert((a + b).last() == b.last());
        lemma_scan_concat(st, a, b.drop_last());
    }
}

pub open spec fn free_of(s: Seq<char>, c: char) -> bool {
    forall|i: int| 0 <= i < s.len() ==> s[i] != c
}

/// Whether `x` holds an odd number of quote characters.
pub open spec fn odd_quotes(x: Seq<char>) -> bool
    decreases x.len(),
{
    if x.len() == 0 {
        false
    } else {
        odd_quotes(x.drop_last()) != (x.last() == '"')
    }
}

/// Every comma of `x` stands inside quotes when reading starts with the quoted
/// state `q`.
pub open spec fn commas_quoted(q: bool, x: Seq<char>) -> bool {
    forall|i: int| 0 <= i < x.len() && x[i] == ',' ==> q != odd_quotes(#[trigger] x.take(i))
}

/// Text whose commas are all inside quotes joins the current field whole.
proof fn lemma_scan_content(st: ScanState, x: Seq<char>)
    requires
        commas_quoted(st.2, x),
    ensures
        scan(st, x) == (st.0, st.1 + x, st.2 != odd_quotes(x)),
    decreases x.len(),
{
    if x.len() == 0 {
        assert(st.1 + x =~= st.1);
    } else {
        let y = x.drop_last();
        assert forall|i: int| 0 <= i < y.len() && y[i] == ',' implies st.2 != odd_quotes(#[trigger] y.take(i)) by {
            assert(y.take(i) =~= x.take(i));
            assert(x[i] == y[i]);
        }
        lemma_scan_content(st, y);
        assert(x.take(x.len() - 1) =~= y);
        assert(x.last() == x[x.len() - 1]);
        assert(st.1 + y.push(x.last()) =~= st.1 + x);
        assert(y.push(x.last()) =~= x);
    }
}

proof fn lemma_no_quotes_even(x: Seq<char>)
    requires
        free_of(x, '"'),
    ensures
        !odd_quotes(x),
    decreases x.len(),
{
    if x.len() > 0 {
        assert(free_of(x.drop_last(), '"'));
        lemma_no_quotes_even(x.drop_last());
        assert(x.last() == x[x.len() - 1]);
    }
}

pub open spec fn is_trimmed(s: Seq<char>) -> bool {
    s.len() == 0 || (!crate::text::white_space(s[0]) && !crate::text::white_space(s.last()))
}

/// A field written bare: no quotes, no commas, no surrounding white space.
pub open spec fn bare_field_ok(x: Seq<char>) -> bool {
    free_of(x, '"') && free_of(x, ',') && is_trimmed(x)
}

/// A field written inside quotes: its quotes are balanced and none of its
/// commas falls between a pair of them.
pub open spec fn quoted_field_ok(m: Seq<char>) -> bool {
    commas_quoted(true, m) && !odd_quotes(m)
}

/// Reading a field and the comma after it, from the start of a field.
proof fn lemma_field_comma(fs: Seq<Seq<char>>, x: Seq<char>)
    requires
        commas_quoted(false, x),
        !odd_quotes(x),
    ensures
        scan((fs, Seq::empty(), false), x) == (fs, x, false),
        scan((fs, Seq::empty(), false), x + seq![',']) == (fs.push(x), Seq::<char>::empty(), false),
{
    let st = (fs, Seq::<char>::empty(), false);
    lemma_scan_content(st, x);
    assert(Seq::<char>::empty() + x =~= x);
    lemma_scan_concat(st, x, seq![',']);
    lemma_scan_one((fs, x, false), ',');
}

proof fn lemma_quoted_reads_whole(m: Seq<char>)
    requires
        quoted_field_ok(m),
    ensures
        commas_quoted(false, quoted(m)),
        !odd_quotes(quoted(m)),
        field_value(quoted(m)) == m,
{
    let q = quoted(m);
    let n = q.len();
    assert(q[0] == '"' && q.last() == '"');
    // Parity of the quote count through the opening quote and the content.
    assert forall|i: int| 1 <= i <= m.len() + 1 implies odd_quotes(#[trigger] q.take(i)) == !odd_quotes(m.take(i - 1)) by {
        lemma_prefix_parity(m, i);
    }
    assert forall|i: int| 0 <= i < n && q[i] == ',' implies false != odd_quotes(#[trigger] q.take(i)) by {
        assert(1 <= i <= m.len());
        assert(q[i] == m[i - 1]);
    }
    assert(q.take(m.len() + 1int) =~= q.drop_last());
    assert(odd_quotes(q.drop_last()) == !odd_quotes(m.take(m.len() as int)));
    assert(m.take(m.len() as int) =~= m);
    crate::text::lemma_trim_of_trimmed(q);
    assert(q.subrange(1, q.len() - 1) =~= m);
}

proof fn lemma_prefix_parity(m: Seq<char>, i: int)
    requires
        1 <= i <= m.len() + 1,
    ensures
        odd_quotes(quoted(m).take(i)) == !odd_quotes(m.take(i - 1)),
    decreases i,
{
    let q = quoted(m);
    if i == 1 {
        assert(q.take(1).drop_last() =~= Seq::<char>::empty());
        assert(m.take(0) =~= Seq::<char>::empty());
    } else {
        lemma_prefix_parity(m, i - 1);
        assert(q.take(i).drop_last() =~= q.take(i - 1));
        assert(m.take(i - 1).drop_last() =~= m.take(i - 2));
        assert(q.take(i).last() == m.take(i - 1).last());
    }
}

/// Encoding an entry and splitting the row gives its fields back. The version
/// and the date are written bare, so they hold no quote, comma or surrounding
/// white space; the other fields may hold commas and quotes as long as their
/// quotes are balanced and no comma falls between a pair of them.
pub proof fn law_row_round_trip(f: Seq<Seq<char>>)
    requires
        f.len() == 5,
        bare_field_ok(f[0]),
        bare_field_ok(f[2]),
        quoted_field_ok(f[1]),
        quoted_field_ok(f[3]),
        quoted_field_ok(f[4]),
    ensures
        csv_fields(row_text(f)) == f,
{
    let c = seq![','];
    let e: Seq<Seq<char>> = Seq::empty();
    let s0 = scan_start();
    lemma_no_quotes_even(f[0]);
    lemma_no_quotes_even(f[2]);
    lemma_quoted_reads_whole(f[1]);
    lemma_quoted_reads_whole(f[3]);
    lemma_quoted_reads_whole(f[4]);
    let (q1, q3, q4) = (quoted(f[1]), quoted(f[3]), quoted(f[4]));
    // After each field and its comma the finished fields grow by that field.
    lemma_field_comma(e, f[0]);
    let p1 = f[0] + c;
    let fs1 = e.push(f[0]);
    lemma_field_comma(fs1, q1);
    lemma_scan_concat(s0, p1, q1 + c);
    let p2 = p1 + (q1 + c);
    let fs2 = fs1.push(q1);
    lemma_field_comma(fs2, f[2]);
    lemma_scan_concat(s0, p2, f[2] + c);
    let p3 = p2 + (f[2] + c);
    let fs3 = fs2.push(f[2]);
    lemma_field_comma(fs3, q3);
    lemma_scan_concat(s0, p3, q3 + c);
    let p4 = p3 + (q3 + c);
    let fs4 = fs3.push(q3);
    lemma_field_comma(fs4, q4);
    lemma_scan_concat(s0, p4, q4);
    assert(p4 + q4 =~= row_text(f));
    assert(raw_fields(row_text(f)) =~= fs4.push(q4));
    assert forall|i: int| 0 <= i < 5 implies field_value(#[trigger] fs4.push(q4)[i]) == f[i] by {
        if i == 0 || i == 2 {
            crate::text::lemma_trim_of_trimmed(f[i]);
            if f[i].len() > 0 {
                assert(f[i][0] != '"');
            }
        }
    }
    assert(csv_fields(row_text(f)) =~= f);
}

/// Of two requested versions, one well-formed and one not, exactly the
/// malformed one is reported, in either order.
pub proof fn law_one_malformed_request(good: Seq<char>, bad: Seq<char>)
    requires
        version_text_ok(good),
        !version_text_ok(bad),
    ensures
        prevalidation_errors(seq![good, bad]) == seq![invalid_version_message(bad)],
        prevalidation_errors(seq![bad, good]) == seq![invalid_version_message(bad)],
{
    assert(seq![good, bad].drop_last() =~= seq![good]);
    assert(seq![good].drop_last() =~= Seq::<Seq<char>>::empty());
    assert(seq![bad, good].drop_last() =~= seq![bad]);
    assert(seq![bad].drop_last() =~= Seq::<Seq<char>>::empty());
    assert(seq![good].last() == good);
    assert(seq![bad].last() == bad);
    assert(seq![good, bad].last() == bad);
    assert(seq![bad, good].last() == good);
    assert(prevalidation_errors(Seq::<Seq<char>>::empty()) == Seq::<Seq<char>>::empty());
    assert(prevalidation_errors(seq![good]) == Seq::<Seq<char>>::empty());
    assert(prevalidation_errors(seq![bad]) == Seq::<Seq<char>>::empty().push(invalid_version_message(bad)));
    assert(Seq::<Seq<char>>::empty().push(invalid_version_message(bad)) =~= seq![invalid_version_message(bad)]);
}

} // verus!
