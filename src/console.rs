//! Text for the console: the title banner and the build-history table.
use vstd::prelude::*;
use vstd::utf8::{encode_scalar, encode_utf8};
use figlet_rs::FIGfont;
use tabled::builder::Builder;
use tabled::settings::{object::Segment, Alignment, Modify, Padding, Style, Width};
use crate::log::{shown_commit, VersionLogEntry};
use crate::text::{chars_of, push_all, string_of, views};

verus! {

/// How many characters a table cell holds before its text wraps.
pub const CELL_WIDTH: usize = 20;

/// The standard FIGlet rendering of a text.
pub uninterp spec fn figlet_banner(text: Seq<char>) -> Seq<char>;

/// A table in tabled's ASCII style, one space of padding left and right,
/// cells centred and wrapped at `width` characters; the first row is the header.
pub uninterp spec fn ascii_table(rows: Seq<Seq<Seq<char>>>, width: nat) -> Seq<char>;

pub open spec fn rows_view(rows: Seq<Vec<String>>) -> Seq<Seq<Seq<char>>> {
    rows.map_values(|r: Vec<String>| views(r@))
}

pub open spec fn history_header() -> Seq<Seq<char>> {
    seq![
        "Version Name\n(oldest to newest)"@,
        "Version Log"@,
        "Build Date"@,
        "Built By"@,
        "Commit ID(Truncated)"@,
    ]
}

/// How an entry reads in the history table: its commit id shortened.
pub open spec fn display_row(e: VersionLogEntry) -> Seq<Seq<char>> {
    seq![e.version@, e.log_message@, e.build_date@, e.builder@, shown_commit(e.commit_id@)]
}

pub open spec fn history_rows(es: Seq<VersionLogEntry>) -> Seq<Seq<Seq<char>>> {
    seq![history_header()] + es.map_values(|e: VersionLogEntry| display_row(e))
}

/// Every character of `s` is printable ASCII, which the standard font covers.
pub open spec fn printable_ascii(s: Seq<char>) -> bool {
    forall|i: int| 0 <= i < s.len() ==> ' ' <= #[trigger] s[i] <= '~'
}

/// Relies on figlet-rs: `FIGfont::standard` loads the font bundled with the
/// crate, whose required characters are the codes 32 to 126, and
/// `FIGfont::convert` renders the text, giving nothing for an empty text or a
/// text with no character of the font.
#[verifier::external_body]
fn figlet_render(text: &str) -> (r: Option<String>)
    ensures
        text@.len() == 0 ==> r is None,
        text@.len() > 0 && printable_ascii(text@) ==> r is Some,
        r matches Some(b) ==> b@ == figlet_banner(text@),
{
    match FIGfont::standard() {
        Ok(font) => match font.convert(text) {
            Some(figure) => Some(figure.to_string()),
            None => None,
        },
        Err(_) => None,
    }
}

/// Relies on tabled's `Builder` and the `Style::ascii`, `Padding`, `Width::wrap`
/// and `Alignment::center` settings: the rendering depends on the rows and the width alone.
#[verifier::external_body]
fn tabled_render(rows: &Vec<Vec<String>>, width: usize) -> (r: String)
    ensures
        r@ == ascii_table(rows_view(rows@), width as nat),
{
    let mut builder = Builder::new();
    for row in rows {
        builder.push_record(row.iter().cloned());
    }
    let mut table = builder.build();
    table.with(Style::ascii()).with(Padding::new(1, 1, 0, 0)).with(
        Modify::new(Segment::all()).with(Width::wrap(width)).with(Alignment::center()),
    );
    table.to_string()
}

/// The program's title in large letters, if the font renders it.
pub fn title_banner() -> (r: Option<String>)
    ensures
        r matches Some(b) && b@ == figlet_banner("Arkham"@),
{
    proof {
        reveal_strlit("Arkham");
    }
    figlet_render("Arkham")
}

/// The build history as a table, oldest entry first, under a header row.
pub fn history_table(entries: &Vec<VersionLogEntry>) -> (r: String)
    ensures
        r@ == ascii_table(history_rows(entries@), CELL_WIDTH as nat),
{
    let mut rows: Vec<Vec<String>> = Vec::new();
    let mut header: Vec<String> = Vec::new();
    header.push(String::from_str("Version Name\n(oldest to newest)"));
    header.push(String::from_str("Version Log"));
    header.push(String::from_str("Build Date"));
    header.push(String::from_str("Built By"));
    header.push(String::from_str("Commit ID(Truncated)"));
    assert(views(header@) =~= history_header());
    rows.push(header);
    let mut k: usize = 0;
    while k < entries.len()
        invariant
            k <= entries@.len(),
            rows_view(rows@) == history_rows(entries@.take(k as int)),
        decreases entries@.len() - k,
    {
        let e = &entries[k];
        let mut row: Vec<String> = Vec::new();
        row.push(e.version.clone());
        row.push(e.log_message.clone());
        row.push(e.build_date.clone());
        row.push(e.builder.clone());
        row.push(e.shown_commit());
        assert(views(row@) =~= display_row(*e));
        let ghost before = rows@;
        rows.push(row);
        assert(entries@.take(k + 1) =~= entries@.take(k as int).push(*e));
        assert(rows_view(rows@) =~= rows_view(before).push(display_row(*e)));
        assert(history_rows(entries@.take(k + 1)) =~= history_rows(entries@.take(k as int)).push(display_row(*e)));
        k += 1;
    }
    assert(entries@.take(k as int) =~= entries@);
    tabled_render(&rows, CELL_WIDTH)
}

/// Width of a header box, borders included.
pub const BOX_WIDTH: usize = 80;

/// A line without the carriage return that ended it, if any.
pub open spec fn without_cr(l: Seq<char>) -> Seq<char> {
    if l.len() > 0 && l.last() == '\r' {
        l.drop_last()
    } else {
        l
    }
}

/// Lines finished so far and the line being read.
pub open spec fn line_scan(s: Seq<char>) -> (Seq<Seq<char>>, Seq<char>)
    decreases s.len(),
{
    if s.len() == 0 {
        (Seq::empty(), Seq::empty())
    } else {
        let prev = line_scan(s.drop_last());
        if s.last() == '\n' {
            (prev.0.push(without_cr(prev.1)), Seq::empty())
        } else {
            (prev.0, prev.1.push(s.last()))
        }
    }
}

/// The lines of a text separated by `\n` or `\r\n`; a final line ending ends the
/// last line.
pub open spec fn text_lines(s: Seq<char>) -> Seq<Seq<char>> {
    let e = line_scan(s);
    if e.1.len() == 0 {
        e.0
    } else {
        e.0.push(e.1)
    }
}

pub open spec fn repeated(c: char, n: nat) -> Seq<char> {
    Seq::new(n, |i: int| c)
}

/// A message line centred between the box's side borders, measured in UTF-8
/// bytes; a line too long for the box gets one space on each side.
pub open spec fn boxed_line(line: Seq<char>) -> Seq<char> {
    let inner = BOX_WIDTH - 4;
    let len = encode_utf8(line).len();
    let total: nat = if len >= inner { 0 } else { (inner - len) as nat };
    let left: nat = total / 2;
    let right: nat = (total - left) as nat;
    seq!['║'] + repeated(' ', left + 1) + line + repeated(' ', right + 1) + seq!['║']
}

pub open spec fn box_rows(message: Seq<char>) -> Seq<Seq<char>> {
    seq![seq!['╔'] + repeated('═', (BOX_WIDTH - 2) as nat) + seq!['╗']]
        + text_lines(message).map_values(|l: Seq<char>| boxed_line(l))
        + seq![seq!['╚'] + repeated('═', (BOX_WIDTH - 2) as nat) + seq!['╝']]
}

fn push_repeated(out: &mut Vec<char>, c: char, n: usize)
    ensures
        final(out)@ == old(out)@ + repeated(c, n as nat),
{
    let mut k: usize = 0;
    while k < n
        invariant
            k <= n,
            out@ == old(out)@ + repeated(c, k as nat),
        decreases n - k,
    {
        out.push(c);
        k += 1;
        assert(out@ =~= old(out)@ + repeated(c, k as nat));
    }
}

fn border(left: char, right: char) -> (r: String)
    ensures
        r@ == seq![left] + repeated('═', (BOX_WIDTH - 2) as nat) + seq![right],
{
    let mut out: Vec<char> = Vec::new();
    out.push(left);
    push_repeated(&mut out, '═', BOX_WIDTH - 2);
    out.push(right);
    assert(out@ =~= seq![left] + repeated('═', (BOX_WIDTH - 2) as nat) + seq![right]);
    string_of(&out)
}

proof fn lemma_encode_concat(a: Seq<char>, b: Seq<char>)
    ensures
        encode_utf8(a + b) == encode_utf8(a) + encode_utf8(b),
    decreases a.len(),
{
    if a.len() == 0 {
        assert(a + b =~= b);
        assert(encode_utf8(a) + encode_utf8(b) =~= encode_utf8(b));
    } else {
        assert((a + b)[0] == a[0]);
        assert((a + b).drop_first() =~= a.drop_first() + b);
        lemma_encode_concat(a.drop_first(), b);
        assert(encode_utf8(a + b) =~= encode_utf8(a) + encode_utf8(b));
    }
}

/// The number of bytes in the UTF-8 encoding of `c`.
fn utf8_width(c: char) -> (r: usize)
    ensures
        r == encode_scalar(c as u32).len(),
{
    proof {
        vstd::utf8::char_is_scalar(c);
    }
    let u = c as u32;
    if u <= 0x7F {
        1
    } else if u <= 0x7FF {
        2
    } else if u <= 0xFFFF {
        3
    } else {
        4
    }
}

/// The UTF-8 length of `line` when it is below `limit`, and otherwise some
/// count of at least `limit`.
fn utf8_len_up_to(line: &Vec<char>, limit: usize) -> (r: usize)
    requires
        limit <= 1000,
    ensures
        encode_utf8(line@).len() < limit ==> r == encode_utf8(line@).len(),
        encode_utf8(line@).len() >= limit ==> r >= limit,
{
    let mut acc: usize = 0;
    let mut i: usize = 0;
    while i < line.len() && acc < limit
        invariant
            i <= line@.len(),
            limit <= 1000,
            acc <= limit + 4,
            acc == encode_utf8(line@.take(i as int)).len(),
        decreases line@.len() - i,
    {
        let w = utf8_width(line[i]);
        proof {
            let c = line@[i as int];
            assert(line@.take(i + 1) =~= line@.take(i as int) + seq![c]);
            lemma_encode_concat(line@.take(i as int), seq![c]);
            vstd::utf8::char_is_scalar(c);
            assert(seq![c].drop_first() =~= Seq::<char>::empty());
            assert(seq![c][0] == c);
            assert(encode_utf8(Seq::<char>::empty()) =~= Seq::<u8>::empty());
            assert(encode_utf8(seq![c]) =~= encode_scalar(c as u32));
        }
        acc = acc + w;
        i = i + 1;
    }
    proof {
        assert(line@ =~= line@.take(i as int) + line@.skip(i as int));
        lemma_encode_concat(line@.take(i as int), line@.skip(i as int));
        if i == line@.len() {
            assert(line@.take(i as int) =~= line@);
        }
    }
    acc
}

fn boxed(line: &Vec<char>) -> (r: String)
    ensures
        r@ == boxed_line(line@),
{
    let inner: usize = BOX_WIDTH - 4;
    let len = utf8_len_up_to(line, inner);
    let total: usize = if len >= inner { 0 } else { inner - len };
    let left: usize = total / 2;
    let right: usize = total - left;
    let mut out: Vec<char> = Vec::new();
    out.push('║');
    push_repeated(&mut out, ' ', left + 1);
    push_all(&mut out, line);
    push_repeated(&mut out, ' ', right + 1);
    out.push('║');
    assert(out@ =~= boxed_line(line@));
    string_of(&out)
}

/// The rows of a header box around `message`, top border first.
pub fn header_box(message: &str) -> (r: Vec<String>)
    ensures
        views(r@) == box_rows(message@),
{
    let s = chars_of(message);
    let mut rows: Vec<String> = Vec::new();
    rows.push(border('╔', '╗'));
    let ghost top = views(rows@);
    let mut cur: Vec<char> = Vec::new();
    let mut i: usize = 0;
    while i < s.len()
        invariant
            i <= s@.len(),
            s@ == message@,
            top.len() == 1,
            views(rows@) == top + line_scan(s@.take(i as int)).0.map_values(|l: Seq<char>| boxed_line(l)),
            cur@ == line_scan(s@.take(i as int)).1,
        decreases s@.len() - i,
    {
        let ghost before = line_scan(s@.take(i as int));
        assert(s@.take(i + 1).drop_last() =~= s@.take(i as int));
        if s[i] == '\n' {
            let ghost old_rows = views(rows@);
            if cur.len() > 0 && cur[cur.len() - 1] == '\r' {
                cur.pop();
            }
            assert(cur@ =~= without_cr(before.1));
            rows.push(boxed(&cur));
            assert(views(rows@) =~= old_rows.push(boxed_line(cur@)));
            assert(before.0.push(cur@).map_values(|l: Seq<char>| boxed_line(l)) =~= before.0.map_values(
                |l: Seq<char>| boxed_line(l),
            ).push(boxed_line(cur@)));
            assert(views(rows@) =~= top + before.0.push(cur@).map_values(|l: Seq<char>| boxed_line(l)));
            cur = Vec::new();
        } else {
            cur.push(s[i]);
        }
        i += 1;
    }
    assert(s@.take(i as int) =~= message@);
    let ghost e = line_scan(message@);
    if cur.len() > 0 {
        let ghost old_rows = views(rows@);
        rows.push(boxed(&cur));
        assert(views(rows@) =~= old_rows.push(boxed_line(e.1)));
        assert(e.0.push(e.1).map_values(|l: Seq<char>| boxed_line(l)) =~= e.0.map_values(
            |l: Seq<char>| boxed_line(l),
        ).push(boxed_line(e.1)));
        assert(views(rows@) =~= top + text_lines(message@).map_values(|l: Seq<char>| boxed_line(l)));
    }
    let ghost mid = views(rows@);
    rows.push(border('╚', '╝'));
    assert(views(rows@) =~= mid.push(seq!['╚'] + repeated('═', (BOX_WIDTH - 2) as nat) + seq!['╝']));
    assert(views(rows@) =~= box_rows(message@));
    rows
}

} // verus!
