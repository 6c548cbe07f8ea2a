//! Exporting node results: file names, the flattening of node results into
//! CSV rows (one row per hot item), and their JSON and JSON Lines text.
use vstd::prelude::*;
use crate::json::{
    Json, JsonView, get, str_or, text_or_empty, text_of, str_or_default, pretty_json, json_lines,
    to_json_lines, to_pretty_text, items_view, lemma_fields_view, lemma_items_view, compact_json,
    compact_layout, compact_members, pretty_members, pretty_layout, json_canonical, items_canonical, fields_canonical,
    keys_ascending, quoted, indent, closing, lemma_pretty_array_push, plain_char,
    lemma_escaped_keeps_characters,
};
use crate::text::{chars_of, digit_char, digit_text};

verus! {

/// The formats that node results can be exported in.
#[derive(PartialEq, Eq, Structural, Clone, Copy, Debug)]
pub enum DumpFormat {
    Csv,
    Json,
    Jsonl,
}

/// The file extension of each format.
pub open spec fn format_extension(format: DumpFormat) -> Seq<char> {
    match format {
        DumpFormat::Csv => "csv"@,
        DumpFormat::Json => "json"@,
        DumpFormat::Jsonl => "jsonl"@,
    }
}

impl DumpFormat {
    /// The file extension of this format: `csv`, `json` or `jsonl`.
    pub fn extension(&self) -> (r: String)
        ensures
            r@ == format_extension(*self),
    {
        match self {
            DumpFormat::Csv => String::from_str("csv"),
            DumpFormat::Json => String::from_str("json"),
            DumpFormat::Jsonl => String::from_str("jsonl"),
        }
    }
}

/// A local date and time, as read from the clock.
pub struct LocalTime {
    pub year: i32,
    pub month: u32,
    pub day: u32,
    pub hour: u32,
    pub minute: u32,
    pub second: u32,
}

/// Whether each field of a time is in its range (a second may be 60, for a
/// leap second; the year has at most four digits).
pub open spec fn valid_time(t: LocalTime) -> bool {
    &&& 0 <= t.year <= 9999
    &&& 1 <= t.month <= 12
    &&& 1 <= t.day <= 31
    &&& t.hour < 24
    &&& t.minute < 60
    &&& t.second < 61
}

/// The last `width` decimal digits of `n`, so `n` zero-padded to `width`
/// digits when it has no more.
pub open spec fn padded(n: nat, width: nat) -> Seq<char>
    decreases width,
{
    if width == 0 {
        Seq::<char>::empty()
    } else {
        padded(n / 10, (width - 1) as nat).push(digit_char((n % 10) as int))
    }
}

/// The time stamp of export file names: `YYYY-MM-DD-HH-MM-SS`, each field
/// zero-padded.
pub open spec fn stamp_text(t: LocalTime) -> Seq<char> {
    padded(t.year as nat, 4) + "-"@ + padded(t.month as nat, 2) + "-"@ + padded(t.day as nat, 2)
        + "-"@ + padded(t.hour as nat, 2) + "-"@ + padded(t.minute as nat, 2) + "-"@ + padded(
        t.second as nat,
        2,
    )
}

/// `n` zero-padded to `width` digits (see `padded`).
fn padded_text(n: u32, width: u32) -> (r: String)
    ensures
        r@ == padded(n as nat, width as nat),
    decreases width,
{
    if width == 0 {
        String::new()
    } else {
        let mut r = padded_text(n / 10, width - 1);
        let d = digit_text((n % 10) as u64);
        r.append(d.as_str());
        r
    }
}

/// Appends `piece` and then a dash.
fn append_with_dash(r: &mut String, piece: &String)
    ensures
        final(r)@ == old(r)@ + piece@ + "-"@,
{
    r.append(piece.as_str());
    r.append("-");
}

/// The time stamp of a time (see `stamp_text`).
pub fn time_stamp(now: &LocalTime) -> (r: String)
    requires
        valid_time(*now),
    ensures
        r@ == stamp_text(*now),
        r@.len() == 19,
{
    let mut r = String::new();
    append_with_dash(&mut r, &padded_text(now.year as u32, 4));
    append_with_dash(&mut r, &padded_text(now.month, 2));
    append_with_dash(&mut r, &padded_text(now.day, 2));
    append_with_dash(&mut r, &padded_text(now.hour, 2));
    append_with_dash(&mut r, &padded_text(now.minute, 2));
    let s = padded_text(now.second, 2);
    r.append(s.as_str());
    proof {
        reveal_strlit("-");
        lemma_padded_len(now.year as nat, 4);
        lemma_padded_len(now.month as nat, 2);
        lemma_padded_len(now.day as nat, 2);
        lemma_padded_len(now.hour as nat, 2);
        lemma_padded_len(now.minute as nat, 2);
        lemma_padded_len(now.second as nat, 2);
    }
    assert(r@ =~= stamp_text(*now));
    r
}

/// `padded` gives exactly `width` characters.
pub proof fn lemma_padded_len(n: nat, width: nat)
    ensures
        padded(n, width).len() == width,
    decreases width,
{
    if width > 0 {
        lemma_padded_len(n / 10, (width - 1) as nat);
    }
}

/// `10` to the power `width`.
pub open spec fn pow10(width: nat) -> nat
    decreases width,
{
    if width == 0 {
        1
    } else {
        10 * pow10((width - 1) as nat)
    }
}

/// Numbers below `10^width` are told apart by their padded texts.
pub proof fn lemma_padded_injective(n: nat, m: nat, width: nat)
    requires
        n < pow10(width),
        m < pow10(width),
        padded(n, width) == padded(m, width),
    ensures
        n == m,
    decreases width,
{
    if width > 0 {
        let w1 = (width - 1) as nat;
        let p = pow10(w1);
        assert(padded(n, width).drop_last() =~= padded(n / 10, w1));
        assert(padded(m, width).drop_last() =~= padded(m / 10, w1));
        assert(n / 10 < p) by (nonlinear_arith)
            requires
                n < 10 * p,
        ;
        assert(m / 10 < p) by (nonlinear_arith)
            requires
                m < 10 * p,
        ;
        lemma_padded_injective(n / 10, m / 10, w1);
        let dn = digit_char((n % 10) as int);
        let dm = digit_char((m % 10) as int);
        assert(dn == padded(n, width).last());
        assert(dm == padded(m, width).last());
        assert((dn as int) == 48 + n % 10);
        assert((dm as int) == 48 + m % 10);
    }
}

/// Two valid times with the same time stamp are the same time: export
/// files named by the clock differ whenever their seconds differ.
pub proof fn lemma_stamps_distinguish_times(a: LocalTime, b: LocalTime)
    requires
        valid_time(a),
        valid_time(b),
        stamp_text(a) == stamp_text(b),
    ensures
        a == b,
{
    reveal_strlit("-");
    let sa = stamp_text(a);
    let sb = stamp_text(b);
    lemma_padded_len(a.year as nat, 4);
    lemma_padded_len(b.year as nat, 4);
    lemma_padded_len(a.month as nat, 2);
    lemma_padded_len(b.month as nat, 2);
    lemma_padded_len(a.day as nat, 2);
    lemma_padded_len(b.day as nat, 2);
    lemma_padded_len(a.hour as nat, 2);
    lemma_padded_len(b.hour as nat, 2);
    lemma_padded_len(a.minute as nat, 2);
    lemma_padded_len(b.minute as nat, 2);
    lemma_padded_len(a.second as nat, 2);
    lemma_padded_len(b.second as nat, 2);
    assert(sa.subrange(0, 4) =~= padded(a.year as nat, 4));
    assert(sb.subrange(0, 4) =~= padded(b.year as nat, 4));
    assert(sa.subrange(5, 7) =~= padded(a.month as nat, 2));
    assert(sb.subrange(5, 7) =~= padded(b.month as nat, 2));
    assert(sa.subrange(8, 10) =~= padded(a.day as nat, 2));
    assert(sb.subrange(8, 10) =~= padded(b.day as nat, 2));
    assert(sa.subrange(11, 13) =~= padded(a.hour as nat, 2));
    assert(sb.subrange(11, 13) =~= padded(b.hour as nat, 2));
    assert(sa.subrange(14, 16) =~= padded(a.minute as nat, 2));
    assert(sb.subrange(14, 16) =~= padded(b.minute as nat, 2));
    assert(sa.subrange(17, 19) =~= padded(a.second as nat, 2));
    assert(sb.subrange(17, 19) =~= padded(b.second as nat, 2));
    assert(pow10(2) == 100) by {
        reveal_with_fuel(pow10, 3);
    }
    assert(pow10(4) == 10000) by {
        reveal_with_fuel(pow10, 5);
    }
    lemma_padded_injective(a.year as nat, b.year as nat, 4);
    lemma_padded_injective(a.month as nat, b.month as nat, 2);
    lemma_padded_injective(a.day as nat, b.day as nat, 2);
    lemma_padded_injective(a.hour as nat, b.hour as nat, 2);
    lemma_padded_injective(a.minute as nat, b.minute as nat, 2);
    lemma_padded_injective(a.second as nat, b.second as nat, 2);
}

/// Whether `a` comes before `b` in lexicographic order of their characters'
/// codes (for UTF-8 text, the order of its bytes): at the first place where
/// they differ `a` has the smaller character, or `a` is a proper prefix of
/// `b`.
pub open spec fn text_before(a: Seq<char>, b: Seq<char>) -> bool
    decreases a.len(),
{
    if a.len() == 0 {
        b.len() > 0
    } else if b.len() == 0 {
        false
    } else if a[0] != b[0] {
        (a[0] as u32) < (b[0] as u32)
    } else {
        text_before(a.drop_first(), b.drop_first())
    }
}

/// Whether time `a` is earlier than time `b`: year, then month, day, hour,
/// minute and second decide, in that order.
pub open spec fn time_before(a: LocalTime, b: LocalTime) -> bool {
    ||| a.year < b.year
    ||| a.year == b.year && a.month < b.month
    ||| a.year == b.year && a.month == b.month && a.day < b.day
    ||| a.year == b.year && a.month == b.month && a.day == b.day && a.hour < b.hour
    ||| a.year == b.year && a.month == b.month && a.day == b.day && a.hour == b.hour && a.minute
        < b.minute
    ||| a.year == b.year && a.month == b.month && a.day == b.day && a.hour == b.hour && a.minute
        == b.minute && a.second < b.second
}

/// Two texts with heads of one length compare as their heads do, or, where
/// the heads are equal, as their tails do.
pub proof fn lemma_text_before_concat(x1: Seq<char>, x2: Seq<char>, y1: Seq<char>, y2: Seq<char>)
    requires
        x1.len() == x2.len(),
    ensures
        text_before(x1, x2) ==> text_before(x1 + y1, x2 + y2),
        x1 == x2 ==> (text_before(x1 + y1, x2 + y2) == text_before(y1, y2)),
    decreases x1.len(),
{
    if x1.len() == 0 {
        assert(x1 + y1 =~= y1);
        assert(x2 + y2 =~= y2);
    } else {
        assert((x1 + y1)[0] == x1[0]);
        assert((x2 + y2)[0] == x2[0]);
        assert((x1 + y1).drop_first() =~= x1.drop_first() + y1);
        assert((x2 + y2).drop_first() =~= x2.drop_first() + y2);
        lemma_text_before_concat(x1.drop_first(), x2.drop_first(), y1, y2);
    }
}

/// Of two numbers below `10^width`, the smaller has the earlier padded text.
pub proof fn lemma_padded_before(n: nat, m: nat, width: nat)
    requires
        n < m,
        m < pow10(width),
    ensures
        text_before(padded(n, width), padded(m, width)),
    decreases width,
{
    let w1 = (width - 1) as nat;
    let p = pow10(w1);
    lemma_padded_len(n / 10, w1);
    lemma_padded_len(m / 10, w1);
    assert(m / 10 < p) by (nonlinear_arith)
        requires
            m < 10 * p,
    ;
    let dn = seq![digit_char((n % 10) as int)];
    let dm = seq![digit_char((m % 10) as int)];
    assert(padded(n, width) =~= padded(n / 10, w1) + dn);
    assert(padded(m, width) =~= padded(m / 10, w1) + dm);
    lemma_text_before_concat(padded(n / 10, w1), padded(m / 10, w1), dn, dm);
    if n / 10 < m / 10 {
        lemma_padded_before(n / 10, m / 10, w1);
    } else {
        assert(n % 10 < m % 10);
        assert(text_before(dn, dm)) by {
            assert(dn.drop_first() =~= Seq::<char>::empty());
            assert(dm.drop_first() =~= Seq::<char>::empty());
        }
    }
}

/// A field of the time stamp, zero-padded to `width` digits, then a dash
/// and the rest of the stamp.
pub open spec fn field_then(n: nat, width: nat, rest: Seq<char>) -> Seq<char> {
    padded(n, width) + ("-"@ + rest)
}

/// Texts led by a field compare as the fields do, or, where the fields are
/// equal, as the rests do.
pub proof fn lemma_field_then_before(n: nat, m: nat, width: nat, r1: Seq<char>, r2: Seq<char>)
    requires
        n < pow10(width),
        m < pow10(width),
    ensures
        n < m || (n == m && text_before(r1, r2)) ==> text_before(
            field_then(n, width, r1),
            field_then(m, width, r2),
        ),
{
    lemma_padded_len(n, width);
    lemma_padded_len(m, width);
    lemma_text_before_concat(padded(n, width), padded(m, width), "-"@ + r1, "-"@ + r2);
    lemma_text_before_concat("-"@, "-"@, r1, r2);
    if n < m {
        lemma_padded_before(n, m, width);
    }
}

/// The time stamp, read as its leading field followed by the rest.
pub open spec fn stamp_fields(t: LocalTime) -> Seq<char> {
    field_then(
        t.year as nat,
        4,
        field_then(
            t.month as nat,
            2,
            field_then(
                t.day as nat,
                2,
                field_then(
                    t.hour as nat,
                    2,
                    field_then(t.minute as nat, 2, padded(t.second as nat, 2)),
                ),
            ),
        ),
    )
}

/// `stamp_fields` is the time stamp.
proof fn lemma_stamp_fields(t: LocalTime)
    ensures
        stamp_text(t) == stamp_fields(t),
{
    assert(stamp_text(t) =~= stamp_fields(t));
}

/// The time stamp of an earlier time comes first.
proof fn lemma_stamp_before(a: LocalTime, b: LocalTime)
    requires
        valid_time(a),
        valid_time(b),
        time_before(a, b),
    ensures
        text_before(stamp_fields(a), stamp_fields(b)),
{
    assert(pow10(2) == 100) by {
        reveal_with_fuel(pow10, 3);
    }
    assert(pow10(4) == 10000) by {
        reveal_with_fuel(pow10, 5);
    }
    let sa5 = padded(a.second as nat, 2);
    let sb5 = padded(b.second as nat, 2);
    let sa4 = field_then(a.minute as nat, 2, sa5);
    let sb4 = field_then(b.minute as nat, 2, sb5);
    let sa3 = field_then(a.hour as nat, 2, sa4);
    let sb3 = field_then(b.hour as nat, 2, sb4);
    let sa2 = field_then(a.day as nat, 2, sa3);
    let sb2 = field_then(b.day as nat, 2, sb3);
    let sa1 = field_then(a.month as nat, 2, sa2);
    let sb1 = field_then(b.month as nat, 2, sb2);
    if a.second < b.second {
        lemma_padded_before(a.second as nat, b.second as nat, 2);
    }
    lemma_field_then_before(a.minute as nat, b.minute as nat, 2, sa5, sb5);
    lemma_field_then_before(a.hour as nat, b.hour as nat, 2, sa4, sb4);
    lemma_field_then_before(a.day as nat, b.day as nat, 2, sa3, sb3);
    lemma_field_then_before(a.month as nat, b.month as nat, 2, sa2, sb2);
    lemma_field_then_before(a.year as nat, b.year as nat, 4, sa1, sb1);
}

/// Export files named by the clock sort in the order of their times: the
/// time stamp, and the file name of the stamp with any extension, of an
/// earlier time come first.
pub proof fn lemma_stamps_sort_by_time(a: LocalTime, b: LocalTime, ext: Seq<char>)
    requires
        valid_time(a),
        valid_time(b),
        time_before(a, b),
    ensures
        text_before(stamp_text(a), stamp_text(b)),
        text_before(stamp_text(a) + "."@ + ext, stamp_text(b) + "."@ + ext),
{
    lemma_stamp_fields(a);
    lemma_stamp_fields(b);
    lemma_stamp_before(a, b);
    reveal_strlit("-");
    lemma_padded_len(a.second as nat, 2);
    lemma_padded_len(b.second as nat, 2);
    lemma_padded_len(a.minute as nat, 2);
    lemma_padded_len(b.minute as nat, 2);
    lemma_padded_len(a.hour as nat, 2);
    lemma_padded_len(b.hour as nat, 2);
    lemma_padded_len(a.day as nat, 2);
    lemma_padded_len(b.day as nat, 2);
    lemma_padded_len(a.month as nat, 2);
    lemma_padded_len(b.month as nat, 2);
    lemma_padded_len(a.year as nat, 4);
    lemma_padded_len(b.year as nat, 4);
    lemma_text_before_concat(stamp_text(a), stamp_text(b), "."@ + ext, "."@ + ext);
    assert(stamp_text(a) + "."@ + ext =~= stamp_text(a) + ("."@ + ext));
    assert(stamp_text(b) + "."@ + ext =~= stamp_text(b) + ("."@ + ext));
}

/// The name of an export file: the time stamp of `now`, a dot and the
/// extension.
pub fn timestamp_filename(now: &LocalTime, ext: &str) -> (r: String)
    requires
        valid_time(*now),
    ensures
        r@ == stamp_text(*now) + "."@ + ext@,
{
    let mut r = time_stamp(now);
    r.append(".");
    r.append(ext);
    r
}

/// A chosen name, a dot and the extension.
fn dotted_name(name: &str, ext: &str) -> (r: String)
    ensures
        r@ == name@ + "."@ + ext@,
{
    let mut r = String::from_str(name);
    r.append(".");
    r.append(ext);
    r
}

/// Whether `s` ends with `suffix`.
pub open spec fn ends_with(s: Seq<char>, suffix: Seq<char>) -> bool {
    suffix.len() <= s.len() && s.subrange(s.len() - suffix.len(), s.len() as int) == suffix
}

/// The name of an export file: the name the user chose, with the format's
/// extension added unless it already ends with it; without a chosen name,
/// the time stamp and the extension.
pub open spec fn export_name(chosen: Option<Seq<char>>, stamp: Seq<char>, ext: Seq<char>) -> Seq<
    char,
> {
    match chosen {
        Some(n) => if ends_with(n, "."@ + ext) {
            n
        } else {
            n + "."@ + ext
        },
        None => stamp + "."@ + ext,
    }
}

/// Every export file name ends with a dot and the format's extension, and a
/// chosen name that already ends so is kept as it is.
pub proof fn lemma_export_name_extension(chosen: Option<Seq<char>>, stamp: Seq<char>, ext: Seq<char>)
    ensures
        ends_with(export_name(chosen, stamp, ext), "."@ + ext),
        chosen matches Some(n) ==> (ends_with(n, "."@ + ext) ==> export_name(chosen, stamp, ext)
            == n),
{
    let suffix = "."@ + ext;
    let name = export_name(chosen, stamp, ext);
    let base = match chosen {
        Some(n) => n,
        None => stamp,
    };
    if !(chosen matches Some(n) && ends_with(n, suffix)) {
        assert(name == base + suffix);
        assert(name.subrange(name.len() - suffix.len(), name.len() as int) =~= suffix);
    }
}

/// Tests whether `s` ends with `suffix`.
pub fn text_ends_with(s: &str, suffix: &str) -> (r: bool)
    ensures
        r == ends_with(s@, suffix@),
{
    let a = chars_of(s);
    let b = chars_of(suffix);
    if b.len() > a.len() {
        return false;
    }
    let off = a.len() - b.len();
    let mut i: usize = 0;
    while i < b.len()
        invariant
            a@ == s@,
            b@ == suffix@,
            off + b@.len() == a@.len(),
            a@.len() == a.len(),
            i <= b@.len(),
            forall|k: int| 0 <= k < i ==> a@[off + k] == b@[k],
        decreases b@.len() - i,
    {
        if a[off + i] != b[i] {
            assert(s@.subrange(off as int, s@.len() as int)[i as int] != suffix@[i as int]);
            return false;
        }
        i = i + 1;
    }
    assert(s@.subrange(off as int, s@.len() as int) =~= suffix@);
    true
}

/// The name of an export file (see `export_name`): `--name` if given, with
/// the extension completed, else the time stamp of `now` and the extension.
pub fn export_file_name(chosen: Option<&str>, now: &LocalTime, ext: &str) -> (r: String)
    requires
        valid_time(*now),
    ensures
        r@ == export_name(
            match chosen {
                Some(n) => Some(n@),
                None => None,
            },
            stamp_text(*now),
            ext@,
        ),
{
    match chosen {
        Some(n) => {
            let mut dotted = String::from_str(".");
            dotted.append(ext);
            if text_ends_with(n, dotted.as_str()) {
                String::from_str(n)
            } else {
                dotted_name(n, ext)
            }
        },
        None => timestamp_filename(now, ext),
    }
}

/// The result of one node query, as exported: the hashid it was asked for
/// and the API's answer.
pub struct NodeItem {
    pub hashid: String,
    pub data: Json,
}

/// The mathematical form of a node result.
pub struct NodeItemView {
    pub hashid: Seq<char>,
    pub data: JsonView,
}

impl View for NodeItem {
    type V = NodeItemView;

    open spec fn view(&self) -> NodeItemView {
        NodeItemView { hashid: self.hashid@, data: self.data@ }
    }
}

/// The number of columns of the CSV export.
pub const CSV_COLUMNS: usize = 13;

/// The header row of the CSV export.
pub open spec fn csv_header_spec() -> Seq<Seq<char>> {
    seq![
        "hashid"@,
        "name"@,
        "display"@,
        "domain"@,
        "logo"@,
        "latest_update_timestamp"@,
        "rank"@,
        "title"@,
        "description"@,
        "url"@,
        "extra"@,
        "thumbnail"@,
        "time"@,
    ]
}

/// The mathematical form of a row of cells.
pub open spec fn row_view(row: Vec<String>) -> Seq<Seq<char>> {
    row@.map_values(|c: String| c@)
}

/// The mathematical form of a list of rows.
pub open spec fn rows_view(rows: Vec<Vec<String>>) -> Seq<Seq<Seq<char>>> {
    rows@.map_values(|r: Vec<String>| row_view(r))
}

/// The header row of the CSV export.
pub fn csv_header() -> (r: Vec<String>)
    ensures
        row_view(r) == csv_header_spec(),
        r@.len() == CSV_COLUMNS,
{
    let mut r: Vec<String> = Vec::new();
    r.push(String::from_str("hashid"));
    r.push(String::from_str("name"));
    r.push(String::from_str("display"));
    r.push(String::from_str("domain"));
    r.push(String::from_str("logo"));
    r.push(String::from_str("latest_update_timestamp"));
    r.push(String::from_str("rank"));
    r.push(String::from_str("title"));
    r.push(String::from_str("description"));
    r.push(String::from_str("url"));
    r.push(String::from_str("extra"));
    r.push(String::from_str("thumbnail"));
    r.push(String::from_str("time"));
    assert(row_view(r) =~= csv_header_spec());
    r
}

/// The node that a result describes: the `data` member of the answer, or the
/// answer itself when it has none.
pub open spec fn node_data(data: JsonView) -> JsonView {
    match get(data, "data"@) {
        Some(d) => d,
        None => data,
    }
}

/// The six cells that every row of a node result starts with: the node's
/// hashid (the one asked for when the node names none), its name, display
/// name, domain and logo, and the time of its latest update.
pub open spec fn node_cells(item: NodeItemView) -> Seq<Seq<char>> {
    let node = node_data(item.data);
    seq![
        str_or(get(node, "hashid"@), item.hashid),
        str_or(get(node, "name"@), Seq::<char>::empty()),
        str_or(get(node, "display"@), Seq::<char>::empty()),
        str_or(get(node, "domain"@), Seq::<char>::empty()),
        str_or(get(node, "logo"@), Seq::<char>::empty()),
        text_or_empty(get(node, "latest_update_timestamp"@)),
    ]
}

/// The seven cells that describe a hot item.
pub open spec fn hot_cells(hot: JsonView) -> Seq<Seq<char>> {
    seq![
        text_or_empty(get(hot, "rank"@)),
        text_or_empty(get(hot, "title"@)),
        text_or_empty(get(hot, "description"@)),
        text_or_empty(get(hot, "url"@)),
        text_or_empty(get(hot, "extra"@)),
        text_or_empty(get(hot, "thumbnail"@)),
        text_or_empty(get(hot, "time"@)),
    ]
}

/// The hot items of a node result: the members of the node's `items` array,
/// or none when it has no such array.
pub open spec fn node_hots(item: NodeItemView) -> Seq<JsonView> {
    match get(node_data(item.data), "items"@) {
        Some(JsonView::Array(hots)) => hots,
        _ => Seq::<JsonView>::empty(),
    }
}

/// The CSV rows of one node result: one per hot item, in order.
pub open spec fn node_rows(item: NodeItemView) -> Seq<Seq<Seq<char>>> {
    let hots = node_hots(item);
    Seq::new(hots.len(), |i: int| node_cells(item) + hot_cells(hots[i]))
}

/// The CSV rows of a list of node results, in order.
pub open spec fn csv_rows(items: Seq<NodeItemView>) -> Seq<Seq<Seq<char>>>
    decreases items.len(),
{
    if items.len() == 0 {
        Seq::<Seq<Seq<char>>>::empty()
    } else {
        csv_rows(items.drop_last()) + node_rows(items.last())
    }
}

/// The mathematical forms of a list of node results.
pub open spec fn node_items_view(items: Seq<NodeItem>) -> Seq<NodeItemView> {
    items.map_values(|item: NodeItem| item@)
}

/// The six leading cells of the rows of one node result.
fn node_cells_of(item: &NodeItem) -> (r: Vec<String>)
    ensures
        row_view(r) == node_cells(item@),
{
    let top = item.data.get("data");
    let node = match top {
        Some(d) => d,
        None => &item.data,
    };
    assert(node@ == node_data(item@.data));
    let mut r: Vec<String> = Vec::new();
    r.push(str_or_default(node.get("hashid"), item.hashid.as_str()));
    r.push(str_or_default(node.get("name"), ""));
    r.push(str_or_default(node.get("display"), ""));
    r.push(str_or_default(node.get("domain"), ""));
    r.push(str_or_default(node.get("logo"), ""));
    r.push(text_of(node.get("latest_update_timestamp")));
    proof {
        reveal_strlit("");
    }
    assert(""@ =~= Seq::<char>::empty());
    assert(row_view(r) =~= node_cells(item@));
    r
}

/// One CSV row: the leading cells of the node, then the cells of a hot item.
fn hot_row(cells: &Vec<String>, hot: &Json) -> (r: Vec<String>)
    ensures
        row_view(r) == row_view(*cells) + hot_cells(hot@),
{
    let mut r: Vec<String> = Vec::new();
    let n = cells.len();
    let mut i: usize = 0;
    while i < n
        invariant
            n == cells@.len(),
            i <= n,
            row_view(r) == row_view(*cells).take(i as int),
        decreases n - i,
    {
        let ghost before = row_view(r);
        r.push(cells[i].clone());
        assert(row_view(r) =~= before.push(cells@[i as int]@));
        assert(row_view(*cells).take(i + 1) =~= row_view(*cells).take(i as int).push(
            cells@[i as int]@,
        ));
        i = i + 1;
    }
    assert(row_view(*cells).take(n as int) =~= row_view(*cells));
    let ghost lead = row_view(r);
    r.push(text_of(hot.get("rank")));
    r.push(text_of(hot.get("title")));
    r.push(text_of(hot.get("description")));
    r.push(text_of(hot.get("url")));
    r.push(text_of(hot.get("extra")));
    r.push(text_of(hot.get("thumbnail")));
    r.push(text_of(hot.get("time")));
    assert(row_view(r) =~= lead + hot_cells(hot@));
    r
}

/// Appends the CSV rows of one node result to `rows`.
fn push_node_rows(rows: &mut Vec<Vec<String>>, item: &NodeItem)
    ensures
        rows_view(*final(rows)) == rows_view(*old(rows)) + node_rows(item@),
{
    let cells = node_cells_of(item);
    let top = item.data.get("data");
    let node = match top {
        Some(d) => d,
        None => &item.data,
    };
    let ghost start = rows_view(*rows);
    match node.get("items") {
        Some(list) => {
            match list.as_array() {
                Some(hots) => {
                    let ghost all = node_hots(item@);
                    assert(all.len() == hots@.len());
                    let n = hots.len();
                    let mut i: usize = 0;
                    while i < n
                        invariant
                            n == hots@.len(),
                            all == node_hots(item@),
                            all.len() == n,
                            forall|j: int| 0 <= j < n ==> #[trigger] hots@[j]@ == all[j],
                            row_view(cells) == node_cells(item@),
                            i <= n,
                            rows_view(*rows) == start + node_rows(item@).take(i as int),
                        decreases n - i,
                    {
                        let row = hot_row(&cells, &hots[i]);
                        let ghost before = rows_view(*rows);
                        assert(row_view(row) == node_rows(item@)[i as int]);
                        rows.push(row);
                        assert(rows_view(*rows) =~= before.push(node_rows(item@)[i as int]));
                        assert(node_rows(item@).take(i + 1) =~= node_rows(item@).take(
                            i as int,
                        ).push(node_rows(item@)[i as int]));
                        assert(rows_view(*rows) =~= start + node_rows(item@).take(i + 1));
                        i = i + 1;
                    }
                    assert(node_rows(item@).take(n as int) =~= node_rows(item@));
                },
                None => {
                    assert(node_rows(item@) =~= Seq::<Seq<Seq<char>>>::empty());
                    assert(rows_view(*rows) =~= start);
                },
            }
        },
        None => {
            assert(node_rows(item@) =~= Seq::<Seq<Seq<char>>>::empty());
            assert(rows_view(*rows) =~= start);
        },
    }
}

/// The CSV rows of a list of node results: for each result in order, one row
/// per hot item of the node it describes, each of `CSV_COLUMNS` cells that
/// match `csv_header`.
pub fn node_csv_rows(items: &Vec<NodeItem>) -> (rows: Vec<Vec<String>>)
    ensures
        rows_view(rows) == csv_rows(node_items_view(items@)),
{
    let mut rows: Vec<Vec<String>> = Vec::new();
    let n = items.len();
    let mut i: usize = 0;
    assert(node_items_view(items@).take(0) =~= Seq::<NodeItemView>::empty());
    assert(rows_view(rows) =~= Seq::<Seq<Seq<char>>>::empty());
    while i < n
        invariant
            n == items@.len(),
            i <= n,
            rows_view(rows) == csv_rows(node_items_view(items@).take(i as int)),
        decreases n - i,
    {
        push_node_rows(&mut rows, &items[i]);
        assert(node_items_view(items@).take(i + 1).drop_last() =~= node_items_view(items@).take(i as int));
        i = i + 1;
    }
    assert(node_items_view(items@).take(n as int) =~= node_items_view(items@));
    rows
}

/// Every CSV row has one cell per header column.
pub proof fn lemma_csv_rows_width(items: Seq<NodeItemView>)
    ensures
        forall|r: int|
            0 <= r < csv_rows(items).len() ==> #[trigger] csv_rows(items)[r].len() == csv_header_spec().len(),
    decreases items.len(),
{
    if items.len() > 0 {
        lemma_csv_rows_width(items.drop_last());
        let prev = csv_rows(items.drop_last());
        let last = node_rows(items.last());
        assert forall|r: int|
            0 <= r < csv_rows(items).len() implies #[trigger] csv_rows(items)[r].len() == csv_header_spec().len() by {
            if r >= prev.len() {
                assert(csv_rows(items)[r] == last[r - prev.len()]);
            } else {
                assert(csv_rows(items)[r] == prev[r]);
            }
        }
    }
}

/// A node result as a JSON object: `{"data": .., "hashid": ..}` (its keys
/// in ascending order, as JSON text holds them).
pub open spec fn item_object(item: NodeItemView) -> JsonView {
    JsonView::Object(seq![("data"@, item.data), ("hashid"@, JsonView::Str(item.hashid))])
}

/// The JSON export of node results: `{"items": [..]}`, holding the object of
/// each result in order.
pub open spec fn export_payload(items: Seq<NodeItemView>) -> JsonView {
    JsonView::Object(seq![("items"@, JsonView::Array(items.map_values(|i: NodeItemView| item_object(i))))])
}

/// A node result as a JSON object (see `item_object`).
fn item_json(item: &NodeItem) -> (r: Json)
    ensures
        r@ == item_object(item@),
{
    let mut fields: Vec<(String, Json)> = Vec::new();
    fields.push((String::from_str("data"), item.data.duplicate()));
    fields.push((String::from_str("hashid"), Json::Str(item.hashid.clone())));
    proof {
        lemma_fields_view(fields@);
    }
    let r = Json::Object(fields);
    assert(r@->Object_0 =~= item_object(item@)->Object_0);
    r
}

/// The JSON objects of a list of node results, in order.
fn item_objects(items: &Vec<NodeItem>) -> (r: Vec<Json>)
    ensures
        items_view(r@) == node_items_view(items@).map_values(|i: NodeItemView| item_object(i)),
{
    let ghost all = node_items_view(items@);
    let mut out: Vec<Json> = Vec::new();
    let n = items.len();
    let mut i: usize = 0;
    while i < n
        invariant
            n == items@.len(),
            all == node_items_view(items@),
            i <= n,
            out@.len() == i,
            forall|k: int| 0 <= k < i ==> #[trigger] out@[k]@ == item_object(all[k]),
        decreases n - i,
    {
        out.push(item_json(&items[i]));
        i = i + 1;
    }
    proof {
        lemma_items_view(out@);
    }
    assert(items_view(out@) =~= all.map_values(|i: NodeItemView| item_object(i)));
    out
}

/// The text of the JSON export of node results: `export_payload` written
/// indented, and a line break.
pub fn json_export_text(items: &Vec<NodeItem>) -> (r: String)
    ensures
        r@ == pretty_json(export_payload(node_items_view(items@))) + "\n"@,
        (forall|k: int| 0 <= k < items@.len() ==> json_canonical(#[trigger] items@[k].data@))
            ==> r@ == pretty_layout(export_payload(node_items_view(items@)), 0) + "\n"@,
{
    proof {
        lemma_export_payload_canonical(node_items_view(items@));
    }
    let ghost all = node_items_view(items@);
    let objects = item_objects(items);
    let mut fields: Vec<(String, Json)> = Vec::new();
    fields.push((String::from_str("items"), Json::Array(objects)));
    proof {
        lemma_fields_view(fields@);
    }
    let payload = Json::Object(fields);
    assert(payload@->Object_0 =~= export_payload(all)->Object_0);
    let mut r = to_pretty_text(&payload);
    r.append("\n");
    r
}

/// The text of the JSON Lines export of node results: the compact JSON
/// object of each result (see `item_object`), one per line, in order.
pub fn jsonl_export_text(items: &Vec<NodeItem>) -> (r: String)
    ensures
        r@ == json_lines(node_items_view(items@).map_values(|i: NodeItemView| item_object(i))),
        forall|k: int|
            0 <= k < items@.len() && json_canonical(#[trigger] items@[k].data@) ==> compact_json(
                item_object(items@[k]@),
            ) == compact_layout(item_object(items@[k]@)),
{
    let objects = item_objects(items);
    let r = to_json_lines(&objects);
    proof {
        lemma_items_view(objects@);
        assert forall|k: int|
            0 <= k < items@.len() && json_canonical(#[trigger] items@[k].data@) implies compact_json(
                item_object(items@[k]@),
            ) == compact_layout(item_object(items@[k]@)) by {
            lemma_item_object_canonical(items@[k]@);
            assert(node_items_view(items@)[k] == items@[k]@);
            assert(items_view(objects@)[k] == objects@[k]@);
            assert(node_items_view(items@).map_values(|i: NodeItemView| item_object(i))[k]
                == item_object(items@[k]@));
        }
    }
    r
}

/// The compact text of a node result, one line of the JSON Lines export:
/// `{"data":` and the answer's text, then `,"hashid":` and the hashid's
/// quoted text, and `}`. A hashid of plain characters stands in the line
/// as it is, between quotes, right before the closing brace.
pub proof fn lemma_item_line(item: NodeItemView)
    ensures
        compact_layout(item_object(item)) == seq!['{'] + quoted("data"@) + seq![':']
            + compact_layout(item.data) + seq![','] + quoted("hashid"@) + seq![':'] + quoted(
            item.hashid,
        ) + seq!['}'],
        (forall|i: int| 0 <= i < item.hashid.len() ==> plain_char(#[trigger] item.hashid[i]))
            ==> ends_with(
            compact_layout(item_object(item)),
            seq!['"'] + item.hashid + seq!['"', '}'],
        ),
{
    let fields = item_object(item)->Object_0;
    assert(fields.drop_last().drop_last() =~= Seq::<(Seq<char>, JsonView)>::empty());
    assert(fields.drop_last().len() == 1);
    assert(compact_members(fields.drop_last()) == quoted("data"@) + seq![':'] + compact_layout(
        item.data,
    ));
    assert(compact_members(fields) == compact_members(fields.drop_last()) + seq![','] + quoted(
        "hashid"@,
    ) + seq![':'] + compact_layout(JsonView::Str(item.hashid)));
    let line = compact_layout(item_object(item));
    assert(line =~= seq!['{'] + quoted("data"@) + seq![':'] + compact_layout(item.data) + seq![
        ',',
    ] + quoted("hashid"@) + seq![':'] + quoted(item.hashid) + seq!['}']);
    lemma_escaped_keeps_characters(item.hashid, Seq::<char>::empty());
    if forall|i: int| 0 <= i < item.hashid.len() ==> plain_char(#[trigger] item.hashid[i]) {
        let end = seq!['"'] + item.hashid + seq!['"', '}'];
        assert(quoted(item.hashid) + seq!['}'] =~= end);
        assert(line.subrange(line.len() - end.len(), line.len() as int) =~= end);
    }
}

/// Exporting one more node result in JSON adds, before the closing lines of
/// the `items` array and of the payload, a comma, a line break, the
/// indentation of the array's members and the result's indented object;
/// every node result is written.
pub proof fn lemma_json_export_push(items: Seq<NodeItemView>, x: NodeItemView)
    requires
        items.len() > 0,
    ensures
        ({
            let before = pretty_layout(export_payload(items), 0);
            let tail = closing(1, ']') + closing(0, '}');
            &&& before.len() >= tail.len()
            &&& pretty_layout(export_payload(items.push(x)), 0) == before.take(
                before.len() - tail.len(),
            ) + seq![',', '\n'] + indent(2) + pretty_layout(item_object(x), 2) + tail
        }),
{
    let objs = items.map_values(|i: NodeItemView| item_object(i));
    let objs2 = items.push(x).map_values(|i: NodeItemView| item_object(i));
    assert(objs2 =~= objs.push(item_object(x)));
    let head = seq!['{', '\n'] + indent(1) + quoted("items"@) + seq![':', ' '];
    let f1 = export_payload(items)->Object_0;
    let f2 = export_payload(items.push(x))->Object_0;
    assert(f1.drop_last() =~= Seq::<(Seq<char>, JsonView)>::empty());
    assert(f2.drop_last() =~= Seq::<(Seq<char>, JsonView)>::empty());
    let a1 = pretty_layout(JsonView::Array(objs), 1);
    let a2 = pretty_layout(JsonView::Array(objs2), 1);
    assert(indent(0) =~= Seq::<char>::empty());
    let before = pretty_layout(export_payload(items), 0);
    assert(f1.last() == ("items"@, JsonView::Array(objs)));
    assert(f2.last() == ("items"@, JsonView::Array(objs2)));
    assert(pretty_members(f1.drop_last(), 1) == Seq::<char>::empty());
    assert(pretty_members(f2.drop_last(), 1) == Seq::<char>::empty());
    assert(pretty_members(f1, 1) =~= seq!['\n'] + indent(1) + quoted("items"@) + seq![':', ' '] + a1);
    assert(pretty_members(f2, 1) =~= seq!['\n'] + indent(1) + quoted("items"@) + seq![':', ' '] + a2);
    assert(before =~= head + a1 + closing(0, '}'));
    assert(pretty_layout(export_payload(items.push(x)), 0) =~= head + a2 + closing(0, '}'));
    lemma_pretty_array_push(objs, item_object(x), 1);
    let t1 = closing(1, ']');
    let tail = t1 + closing(0, '}');
    assert(a1.take(a1.len() - t1.len()) + t1 =~= a1);
    assert(before.take(before.len() - tail.len()) =~= head + a1.take(a1.len() - t1.len()));
    assert(pretty_layout(export_payload(items.push(x)), 0) =~= before.take(
        before.len() - tail.len(),
    ) + seq![',', '\n'] + indent(2) + pretty_layout(item_object(x), 2) + tail);
}

/// The object of a node result is canonical when its answer is.
pub proof fn lemma_item_object_canonical(item: NodeItemView)
    ensures
        json_canonical(item.data) ==> json_canonical(item_object(item)),
{
    reveal_strlit("data");
    reveal_strlit("hashid");
    let fields = item_object(item)->Object_0;
    assert(text_before("data"@, "hashid"@));
    assert(keys_ascending(fields));
    if json_canonical(item.data) {
        assert(fields.drop_last().drop_last() =~= Seq::<(Seq<char>, JsonView)>::empty());
        assert(fields_canonical(fields.drop_last().drop_last()));
        assert(fields.drop_last().last().1 == item.data);
        assert(fields_canonical(fields.drop_last()));
        assert(json_canonical(fields.last().1));
        assert(fields_canonical(fields));
    }
}

/// The JSON export is canonical when every answer is.
pub proof fn lemma_export_payload_canonical(items: Seq<NodeItemView>)
    ensures
        (forall|k: int| 0 <= k < items.len() ==> json_canonical(#[trigger] items[k].data))
            ==> json_canonical(export_payload(items)),
{
    if forall|k: int| 0 <= k < items.len() ==> json_canonical(#[trigger] items[k].data) {
        lemma_item_objects_canonical(items);
        let fields = export_payload(items)->Object_0;
        assert(fields.drop_last() =~= Seq::<(Seq<char>, JsonView)>::empty());
        assert(fields_canonical(fields.drop_last()));
        assert(json_canonical(fields.last().1));
        assert(fields_canonical(fields));
        assert(keys_ascending(fields));
    }
}

/// The objects of node results are canonical when their answers are.
proof fn lemma_item_objects_canonical(items: Seq<NodeItemView>)
    requires
        forall|k: int| 0 <= k < items.len() ==> json_canonical(#[trigger] items[k].data),
    ensures
        items_canonical(items.map_values(|i: NodeItemView| item_object(i))),
    decreases items.len(),
{
    if items.len() > 0 {
        lemma_item_objects_canonical(items.drop_last());
        assert(items.map_values(|i: NodeItemView| item_object(i)).drop_last() =~= items.drop_last().map_values(
            |i: NodeItemView| item_object(i),
        ));
        lemma_item_object_canonical(items.last());
    }
}

/// The number of hot items of a list of node results.
pub open spec fn hot_count(items: Seq<NodeItemView>) -> nat
    decreases items.len(),
{
    if items.len() == 0 {
        0
    } else {
        hot_count(items.drop_last()) + node_hots(items.last()).len()
    }
}

/// The CSV export has exactly one row per hot item.
pub proof fn lemma_csv_rows_count(items: Seq<NodeItemView>)
    ensures
        csv_rows(items).len() == hot_count(items),
    decreases items.len(),
{
    if items.len() > 0 {
        lemma_csv_rows_count(items.drop_last());
    }
}

} // verus!
