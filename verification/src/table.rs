//! Structured values and their rendering as text, as tab- or
//! comma-separated values, and as aligned tables.
use vstd::prelude::*;
use crate::text::{append_chars, chars_of, contains_char, i64_to_string, join, push_char, views};

verus! {

/// A structured value of the shell. Floats, durations and dates are held
/// by the text the shell displays for them.
#[derive(Debug, PartialEq)]
pub enum Value {
    String(String),
    Int(i64),
    Float(String),
    Bool(bool),
    Null,
    List(Vec<Value>),
    Table(Table),
    Path(String),
    Duration(String),
    Filesize(u64),
    Date(String),
    Error(String),
}

/// Rows of named cells under named columns.
#[derive(Debug, PartialEq)]
pub struct Table {
    pub columns: Vec<String>,
    pub rows: Vec<Vec<(String, Value)>>,
}

/// The text of a value.
pub open spec fn value_text(v: Value) -> Seq<char>
    decreases v, 2nat,
{
    match v {
        Value::String(s) => s@,
        Value::Int(i) => crate::text::dec_int(i as int),
        Value::Float(s) => s@,
        Value::Bool(b) => if b { seq!['t', 'r', 'u', 'e'] } else { seq!['f', 'a', 'l', 's', 'e'] },
        Value::Null => Seq::empty(),
        Value::List(items) => list_text(items@),
        Value::Table(t) => table_tsv(t),
        Value::Path(s) => s@,
        Value::Duration(s) => s@,
        Value::Filesize(n) => crate::value::spec_format_filesize(n as nat),
        Value::Date(s) => s@,
        Value::Error(s) => s@,
    }
}

/// The texts of values, one per line.
pub open spec fn list_text(items: Seq<Value>) -> Seq<char>
    decreases items, 1nat,
{
    if items.len() == 0 {
        Seq::empty()
    } else if items.len() == 1 {
        value_text(items[0])
    } else {
        list_text(items.drop_last()) + seq!['\n'] + value_text(items.last())
    }
}

/// The tab-separated text of a table: the header line, then a line per row
/// with the text of each column's cell, empty where the row has none.
pub open spec fn table_tsv(t: Table) -> Seq<char>
    decreases t, 2nat,
{
    join(views(t.columns@), seq!['\t']) + seq!['\n'] + rows_text(views(t.columns@), t.rows@, false)
}

/// A cell as CSV writes it: quoted, with its quotes doubled, when it holds
/// a comma or a quote.
pub open spec fn csv_field(c: Seq<char>) -> Seq<char> {
    if c.contains(',') || c.contains('"') {
        seq!['"'] + double_quotes(c) + seq!['"']
    } else {
        c
    }
}

/// `c` with each quote doubled.
pub open spec fn double_quotes(c: Seq<char>) -> Seq<char>
    decreases c.len(),
{
    if c.len() == 0 {
        Seq::empty()
    } else {
        double_quotes(c.drop_last()) + (if c.last() == '"' {
            seq!['"', '"']
        } else {
            seq![c.last()]
        })
    }
}

/// The comma-separated text of a table: as the tab-separated one, with
/// commas between the fields and the fields of rows written as CSV fields.
pub open spec fn table_csv(t: Table) -> Seq<char> {
    join(views(t.columns@), seq![',']) + seq!['\n'] + rows_text(views(t.columns@), t.rows@, true)
}

/// The lines of rows: the cells' texts joined with tabs, or as CSV fields
/// joined with commas.
pub open spec fn rows_text(cols: Seq<Seq<char>>, rows: Seq<Vec<(String, Value)>>, csv: bool) -> Seq<char>
    decreases rows, 1nat,
{
    if rows.len() == 0 {
        Seq::empty()
    } else {
        let cells = row_cells(cols, rows.last()@);
        rows_text(cols, rows.drop_last(), csv) + (if csv {
            join(cells.map_values(|c: Seq<char>| csv_field(c)), seq![','])
        } else {
            join(cells, seq!['\t'])
        }) + seq!['\n']
    }
}

/// The texts of a row's cells under the columns `cols`.
pub open spec fn row_cells(cols: Seq<Seq<char>>, row: Seq<(String, Value)>) -> Seq<Seq<char>>
    decreases row, cols.len(),
{
    if cols.len() == 0 {
        Seq::empty()
    } else {
        row_cells(cols.drop_last(), row).push(cell_text(row, cols.last()))
    }
}

/// The text of the cell of column `col`: the first one named so, or empty.
pub open spec fn cell_text(row: Seq<(String, Value)>, col: Seq<char>) -> Seq<char>
    decreases row, 0nat,
{
    if row.len() == 0 {
        Seq::empty()
    } else if row[0].0@ == col {
        value_text(row[0].1)
    } else {
        cell_text(row.drop_first(), col)
    }
}

/// A cell as a CSV field.
fn csv_field_exec(c: &[char]) -> (r: Vec<char>)
    ensures
        r@ == csv_field(c@),
{
    if contains_char(c, ',') || contains_char(c, '"') {
        let mut r: Vec<char> = vec!['"'];
        let mut i: usize = 0;
        while i < c.len()
            invariant
                i <= c@.len(),
                r@ == seq!['"'] + double_quotes(c@.take(i as int)),
            decreases c@.len() - i,
        {
            assert(c@.take(i + 1).drop_last() =~= c@.take(i as int));
            if c[i] == '"' {
                r.push('"');
                r.push('"');
            } else {
                r.push(c[i]);
            }
            assert(r@ =~= seq!['"'] + double_quotes(c@.take(i + 1)));
            i = i + 1;
        }
        r.push('"');
        assert(c@.take(c@.len() as int) =~= c@);
        r
    } else {
        let mut r: Vec<char> = Vec::new();
        let mut i: usize = 0;
        while i < c.len()
            invariant
                i <= c@.len(),
                r@ == c@.take(i as int),
            decreases c@.len() - i,
        {
            r.push(c[i]);
            assert(r@ =~= c@.take(i + 1));
            i = i + 1;
        }
        assert(c@.take(c@.len() as int) =~= c@);
        r
    }
}

/// Joins `parts[..k]` and `part` with `sep`.
proof fn lemma_join_push(parts: Seq<Seq<char>>, part: Seq<char>, sep: Seq<char>)
    ensures
        join(parts.push(part), sep) == (if parts.len() == 0 {
            part
        } else {
            join(parts, sep) + sep + part
        }),
{
    assert(parts.push(part).drop_last() =~= parts);
    if parts.len() == 0 {
        assert(parts.push(part) =~= seq![part]);
    }
}

impl Value {
    /// The value as plain text: strings as they are, numbers in decimal,
    /// lists one item per line, tables as tab-separated values, file sizes
    /// in human units.
    pub fn to_text(&self) -> (r: String)
        ensures
            r@ == value_text(*self),
        decreases self, 2nat,
    {
        match self {
            Value::String(s) => s.clone(),
            Value::Int(i) => i64_to_string(*i),
            Value::Float(s) => s.clone(),
            Value::Bool(b) => {
                let mut r = String::new();
                if *b {
                    let t: Vec<char> = vec!['t', 'r', 'u', 'e'];
                    append_chars(&mut r, t.as_slice());
                } else {
                    let t: Vec<char> = vec!['f', 'a', 'l', 's', 'e'];
                    append_chars(&mut r, t.as_slice());
                }
                r
            },
            Value::Null => String::new(),
            Value::List(items) => {
                let mut r = String::new();
                let mut i: usize = 0;
                while i < items.len()
                    invariant
                        *self == Value::List(*items),
                        i <= items@.len(),
                        r@ == list_text(items@.take(i as int)),
                    decreases items@.len() - i,
                {
                    let ghost pre = items@.take(i as int);
                    let ghost cur = items@.take(i + 1);
                    assert(cur.drop_last() =~= pre);
                    assert(cur.last() == items@[i as int]);
                    proof {
                        assert(decreases_to!(*self => self->List_0));
                        assert(self->List_0 == *items);
                        assert(decreases_to!(*items => items@));
                        assert(decreases_to!(items@ => items@[i as int]));
                    }
                    let t = items[i].to_text();
                    if i > 0 {
                        push_char(&mut r, '\n');
                    }
                    r.append(t.as_str());
                    if i == 0 {
                        assert(r@ =~= list_text(cur));
                    } else {
                        assert(r@ =~= list_text(cur));
                    }
                    i = i + 1;
                }
                assert(items@.take(items@.len() as int) =~= items@);
                r
            },
            Value::Table(t) => table_text(t, false),
            Value::Path(s) => s.clone(),
            Value::Duration(s) => s.clone(),
            Value::Filesize(n) => crate::value::format_filesize(*n),
            Value::Date(s) => s.clone(),
            Value::Error(s) => s.clone(),
        }
    }
}

/// The text of a table: tab-separated, or comma-separated with CSV fields.
fn table_text(t: &Table, csv: bool) -> (r: String)
    ensures
        r@ == (if csv {
            table_csv(*t)
        } else {
            table_tsv(*t)
        }),
    decreases t, 1nat,
{
    let ghost cols = views(t.columns@);
    let sep: char = if csv {
        ','
    } else {
        '\t'
    };
    let mut out = String::new();
    let mut c: usize = 0;
    while c < t.columns.len()
        invariant
            cols == views(t.columns@),
            c <= t.columns@.len(),
            out@ == join(cols.take(c as int), seq![sep]),
        decreases t.columns@.len() - c,
    {
        proof {
            lemma_join_push(cols.take(c as int), cols[c as int], seq![sep]);
            assert(cols.take(c + 1) =~= cols.take(c as int).push(cols[c as int]));
        }
        if c > 0 {
            push_char(&mut out, sep);
        }
        out.append(t.columns[c].as_str());
        c = c + 1;
    }
    assert(cols.take(t.columns@.len() as int) =~= cols);
    push_char(&mut out, '\n');
    let ghost head = out@;
    let mut i: usize = 0;
    while i < t.rows.len()
        invariant
            cols == views(t.columns@),
            sep == (if csv { ',' } else { '\t' }),
            i <= t.rows@.len(),
            out@ == head + rows_text(cols, t.rows@.take(i as int), csv),
        decreases t.rows@.len() - i,
    {
        let row = &t.rows[i];
        let ghost rv = row@;
        let mut line = String::new();
        let mut k: usize = 0;
        while k < t.columns.len()
            invariant
                cols == views(t.columns@),
                sep == (if csv { ',' } else { '\t' }),
                k <= t.columns@.len(),
                rv == row@,
                row == &t.rows@[i as int],
                i < t.rows@.len(),
                line@ == (if csv {
                    join(row_cells(cols.take(k as int), rv).map_values(|x: Seq<char>| csv_field(x)), seq![','])
                } else {
                    join(row_cells(cols.take(k as int), rv), seq!['\t'])
                }),
            decreases t.columns@.len() - k,
        {
            let col = &t.columns[k];
            // the text of the first cell named `col`
            let mut j: usize = 0;
            let mut cell = String::new();
            let mut found = false;
            assert(rv.skip(0) =~= rv);
            while j < row.len() && !found
                invariant
                    j <= rv.len(),
                    rv == row@,
                    row == &t.rows@[i as int],
                    i < t.rows@.len(),
                    k < t.columns@.len(),
                    col == &t.columns@[k as int],
                    !found ==> cell_text(rv, col@) == cell_text(rv.skip(j as int), col@),
                    found ==> cell@ == cell_text(rv, col@),
                    !found ==> cell@ == Seq::<char>::empty(),
                decreases rv.len() - j + (if found { 0int } else { 1int }),
            {
                assert(rv.skip(j as int).drop_first() =~= rv.skip(j + 1));
                assert(rv.skip(j as int)[0] == rv[j as int]);
                let name = chars_of(row[j].0.as_str());
                let want = chars_of(col.as_str());
                if crate::text::chars_eq(name.as_slice(), want.as_slice()) {
                    cell = row[j].1.to_text();
                    found = true;
                } else {
                    j = j + 1;
                }
            }
            if !found {
                assert(rv.skip(j as int) =~= Seq::<(String, Value)>::empty());
                assert(cell@ =~= Seq::<char>::empty());
            }
            assert(cell@ == cell_text(rv, col@));
            let ghost pre = row_cells(cols.take(k as int), rv);
            assert(cols.take(k + 1).drop_last() =~= cols.take(k as int));
            assert(cols.take(k + 1).last() == col@);
            assert(row_cells(cols.take(k + 1), rv) == pre.push(cell@));
            let cv = chars_of(cell.as_str());
            if csv {
                let f = csv_field_exec(cv.as_slice());
                proof {
                    lemma_join_push(pre.map_values(|x: Seq<char>| csv_field(x)), f@, seq![',']);
                    assert(pre.push(cell@).map_values(|x: Seq<char>| csv_field(x)) =~= pre.map_values(
                        |x: Seq<char>| csv_field(x),
                    ).push(f@));
                }
                if k > 0 {
                    push_char(&mut line, ',');
                }
                append_chars(&mut line, f.as_slice());
            } else {
                proof {
                    lemma_join_push(pre, cell@, seq!['\t']);
                }
                if k > 0 {
                    push_char(&mut line, '\t');
                }
                line.append(cell.as_str());
            }
            k = k + 1;
        }
        assert(cols.take(t.columns@.len() as int) =~= cols);
        let ghost before = t.rows@.take(i as int);
        let ghost after = t.rows@.take(i + 1);
        assert(after.drop_last() =~= before);
        assert(after.last() == t.rows@[i as int]);
        out.append(line.as_str());
        push_char(&mut out, '\n');
        assert(out@ =~= head + rows_text(cols, after, csv));
        i = i + 1;
    }
    assert(t.rows@.take(t.rows@.len() as int) =~= t.rows@);
    out
}

impl Table {
    /// An empty table with the given columns.
    pub fn new(columns: Vec<String>) -> (t: Table)
        ensures
            t.columns == columns,
            t.rows@.len() == 0,
    {
        Table { columns, rows: Vec::new() }
    }

    /// An empty table with room for `capacity` rows.
    pub fn with_capacity(columns: Vec<String>, capacity: usize) -> (t: Table)
        ensures
            t.columns == columns,
            t.rows@.len() == 0,
    {
        Table { columns, rows: Vec::with_capacity(capacity) }
    }

    /// Appends a row.
    pub fn push_row(&mut self, row: Vec<(String, Value)>)
        ensures
            final(self).columns == old(self).columns,
            final(self).rows@ == old(self).rows@.push(row),
    {
        self.rows.push(row);
    }

    /// The number of rows.
    pub fn len(&self) -> (n: usize)
        ensures
            n == self.rows@.len(),
    {
        self.rows.len()
    }

    /// Whether the table has no rows.
    pub fn is_empty(&self) -> (b: bool)
        ensures
            b == (self.rows@.len() == 0),
    {
        self.rows.len() == 0
    }

    /// The table as tab-separated values.
    pub fn to_tsv(&self) -> (r: String)
        ensures
            r@ == table_tsv(*self),
    {
        table_text(self, false)
    }

    /// The table as comma-separated values.
    pub fn to_csv(&self) -> (r: String)
        ensures
            r@ == table_csv(*self),
    {
        table_text(self, true)
    }
}

// ---------------------------------------------------------------------------
// Aligned tables
// ---------------------------------------------------------------------------

/// How the columns of a table are separated.
#[derive(Debug, Clone, Copy, PartialEq, Eq, Structural)]
pub enum TableStyle {
    Unicode,
    Ascii,
    Minimal,
}

impl TableStyle {
    /// The style a setting names: `ascii`, `minimal`, or else Unicode.
    pub fn from_setting(setting: Option<&str>) -> (s: TableStyle)
        ensures
            s == (match setting {
                Some(v) => if v@ == seq!['a', 's', 'c', 'i', 'i'] {
                    TableStyle::Ascii
                } else if v@ == seq!['m', 'i', 'n', 'i', 'm', 'a', 'l'] {
                    TableStyle::Minimal
                } else {
                    TableStyle::Unicode
                },
                None => TableStyle::Unicode,
            }),
    {
        match setting {
            Some(v) => {
                let c = chars_of(v);
                let ascii: Vec<char> = vec!['a', 's', 'c', 'i', 'i'];
                let minimal: Vec<char> = vec!['m', 'i', 'n', 'i', 'm', 'a', 'l'];
                if crate::text::chars_eq(c.as_slice(), ascii.as_slice()) {
                    TableStyle::Ascii
                } else if crate::text::chars_eq(c.as_slice(), minimal.as_slice()) {
                    TableStyle::Minimal
                } else {
                    TableStyle::Unicode
                }
            },
            None => TableStyle::Unicode,
        }
    }
}

/// The text between cells in a style.
pub open spec fn cell_sep(style: TableStyle) -> Seq<char> {
    match style {
        TableStyle::Unicode => seq![' ', '\u{2502}', ' '],
        TableStyle::Ascii => seq![' ', '|', ' '],
        TableStyle::Minimal => seq![' ', ' '],
    }
}

/// The first cell named `col` in a row.
pub open spec fn lookup(row: Seq<(String, Value)>, col: Seq<char>) -> Option<Value>
    decreases row.len(),
{
    if row.len() == 0 {
        None
    } else if row[0].0@ == col {
        Some(row[0].1)
    } else {
        lookup(row.drop_first(), col)
    }
}

/// The longest length, in characters, of the texts of the cells of column
/// `col`.
pub open spec fn max_cell_len(rows: Seq<Vec<(String, Value)>>, col: Seq<char>) -> nat
    decreases rows.len(),
{
    if rows.len() == 0 {
        0
    } else {
        let prev = max_cell_len(rows.drop_last(), col);
        let here = match lookup(rows.last()@, col) {
            Some(v) => value_text(v).len(),
            None => 0,
        };
        if here > prev {
            here
        } else {
            prev
        }
    }
}

/// The width of a column, in characters: the length of its name or of its
/// longest cell text, whichever is more, but at most 50.
pub open spec fn column_width(rows: Seq<Vec<(String, Value)>>, col: Seq<char>) -> nat {
    let m = if col.len() > max_cell_len(rows, col) {
        col.len()
    } else {
        max_cell_len(rows, col)
    };
    if m > 50 {
        50
    } else {
        m
    }
}

/// `s` padded with spaces to `w` characters.
pub open spec fn pad(s: Seq<char>, w: nat) -> Seq<char> {
    if s.len() < w {
        s + Seq::new((w - s.len()) as nat, |i: int| ' ')
    } else {
        s
    }
}

/// A cell text fitted to width `w`: when longer than `w` characters, its
/// first `w - 1` characters and an ellipsis.
pub open spec fn fit(v: Seq<char>, w: nat) -> Seq<char> {
    if v.len() > w {
        let b: nat = if w >= 1 {
            (w - 1) as nat
        } else {
            0
        };
        v.take(b as int) + seq!['\u{2026}']
    } else {
        v
    }
}

/// The widths of the columns `cols`.
pub open spec fn widths(rows: Seq<Vec<(String, Value)>>, cols: Seq<Seq<char>>) -> Seq<nat> {
    cols.map_values(|c: Seq<char>| column_width(rows, c))
}

/// The text of the cell of column `col`, or empty.
pub open spec fn cell_value_text(row: Seq<(String, Value)>, col: Seq<char>) -> Seq<char> {
    match lookup(row, col) {
        Some(v) => value_text(v),
        None => Seq::empty(),
    }
}

/// The cells of a row line: each fitted to its column's width and padded.
pub open spec fn row_line_cells(row: Seq<(String, Value)>, cols: Seq<Seq<char>>, ws: Seq<nat>) -> Seq<Seq<char>> {
    Seq::new(cols.len(), |k: int| pad(fit(cell_value_text(row, cols[k]), ws[k]), ws[k]))
}

/// The separator line under the header.
pub open spec fn separator_line(style: TableStyle, ws: Seq<nat>) -> Seq<char> {
    match style {
        TableStyle::Unicode => join(
            ws.map_values(|w: nat| Seq::new(w, |i: int| '\u{2500}')),
            seq!['\u{2500}', '\u{253c}', '\u{2500}'],
        ),
        TableStyle::Ascii => join(ws.map_values(|w: nat| Seq::new(w, |i: int| '-')), seq!['-', '+', '-']),
        TableStyle::Minimal => Seq::empty(),
    }
}

/// A header cell as the renderer writes it: painted bold when colors are on.
pub open spec fn header_cell(text: Seq<char>, colors: bool, rgb: Option<(u8, u8, u8)>) -> Seq<char> {
    if colors {
        bold_painted(rgb, text)
    } else {
        text
    }
}

/// The color code of a header: 24-bit `38;2;R;G;B` for `rgb`, cyan `36`
/// when there is none.
pub open spec fn color_code(rgb: Option<(u8, u8, u8)>) -> Seq<char> {
    match rgb {
        Some((r, g, b)) => "38;2;"@ + crate::text::dec(r as nat) + seq![';'] + crate::text::dec(g as nat)
            + seq![';'] + crate::text::dec(b as nat),
        None => "36"@,
    }
}

/// `text` painted bold in the color `rgb`, or in cyan, as ANSI terminals
/// read it (and as `nu_ansi_term` writes a bold colored style): the bold
/// and color codes, the text, and the reset code.
pub open spec fn bold_painted(rgb: Option<(u8, u8, u8)>, text: Seq<char>) -> Seq<char> {
    "\x1b[1;"@ + color_code(rgb) + "m"@ + text + "\x1b[0m"@
}

/// Paints `text` bold in the color `rgb`, or in cyan when there is none.
fn paint_bold(rgb: Option<(u8, u8, u8)>, text: &str) -> (r: String)
    ensures
        r@ == bold_painted(rgb, text@),
{
    let mut s = String::new();
    crate::text::append_str(&mut s, "\x1b[1;");
    match rgb {
        Some((r, g, b)) => {
            crate::text::append_str(&mut s, "38;2;");
            let rs = crate::text::u64_to_string(r as u64);
            crate::text::append_str(&mut s, rs.as_str());
            push_char(&mut s, ';');
            let gs = crate::text::u64_to_string(g as u64);
            crate::text::append_str(&mut s, gs.as_str());
            push_char(&mut s, ';');
            let bs = crate::text::u64_to_string(b as u64);
            crate::text::append_str(&mut s, bs.as_str());
        },
        None => {
            crate::text::append_str(&mut s, "36");
        },
    }
    crate::text::append_str(&mut s, "m");
    crate::text::append_str(&mut s, text);
    crate::text::append_str(&mut s, "\x1b[0m");
    assert(s@ =~= bold_painted(rgb, text@));
    s
}

/// The value of a two-digit hexadecimal pair, as `u8::from_str_radix` with
/// radix 16 reads it (a leading `+` is allowed).
pub open spec fn hex_pair(a: char, b: char) -> Option<u8> {
    if a == '+' {
        if crate::lexer::is_hex(b) {
            Some(crate::lexer::hex_digit(b) as u8)
        } else {
            None
        }
    } else if crate::lexer::is_hex(a) && crate::lexer::is_hex(b) {
        Some((16 * crate::lexer::hex_digit(a) + crate::lexer::hex_digit(b)) as u8)
    } else {
        None
    }
}

/// The color of a `#rrggbb` (or `rrggbb`) setting.
pub open spec fn hex_color(v: Seq<char>) -> Option<(u8, u8, u8)> {
    let h = if v.len() > 0 && v[0] == '#' {
        v.drop_first()
    } else {
        v
    };
    if h.len() != 6 {
        None
    } else {
        match (hex_pair(h[0], h[1]), hex_pair(h[2], h[3]), hex_pair(h[4], h[5])) {
            (Some(r), Some(g), Some(b)) => Some((r, g, b)),
            _ => None,
        }
    }
}

pub(crate) fn hex_pair_exec(a: char, b: char) -> (r: Option<u8>)
    ensures
        r == hex_pair(a, b),
{
    let ha = ('0' <= a && a <= '9') || ('a' <= a && a <= 'f') || ('A' <= a && a <= 'F');
    let hb = ('0' <= b && b <= '9') || ('a' <= b && b <= 'f') || ('A' <= b && b <= 'F');
    if a == '+' {
        if hb {
            Some(hex_value(b))
        } else {
            None
        }
    } else if ha && hb {
        Some(16 * hex_value(a) + hex_value(b))
    } else {
        None
    }
}

fn hex_value(c: char) -> (d: u8)
    requires
        crate::lexer::is_hex(c),
    ensures
        d == crate::lexer::hex_digit(c),
        d < 16,
{
    if '0' <= c && c <= '9' {
        ((c as u32) - ('0' as u32)) as u8
    } else if 'a' <= c && c <= 'f' {
        ((c as u32) - ('a' as u32) + 10) as u8
    } else {
        ((c as u32) - ('A' as u32) + 10) as u8
    }
}

/// The color of a `#rrggbb` (or `rrggbb`) setting, if it is one.
pub fn parse_hex_color(v: &str) -> (r: Option<(u8, u8, u8)>)
    ensures
        r == hex_color(v@),
{
    let c = chars_of(v);
    let start: usize = if c.len() > 0 && c[0] == '#' {
        1
    } else {
        0
    };
    let ghost h = if c@.len() > 0 && c@[0] == '#' {
        c@.drop_first()
    } else {
        c@
    };
    if c.len() - start != 6 {
        return None;
    }
    assert(forall|q: int| 0 <= q < 6 ==> h[q] == c@[start + q]);
    match (
        hex_pair_exec(c[start], c[start + 1]),
        hex_pair_exec(c[start + 2], c[start + 3]),
        hex_pair_exec(c[start + 4], c[start + 5]),
    ) {
        (Some(r), Some(g), Some(b)) => Some((r, g, b)),
        _ => None,
    }
}

/// The length of `v`, or `cap` if it is longer.
fn len_capped(v: &[char], cap: usize) -> (r: usize)
    ensures
        r == (if v@.len() < cap {
            v@.len()
        } else {
            cap as nat
        }),
{
    if v.len() < cap {
        v.len()
    } else {
        cap
    }
}

/// The index of the first cell named `col` in a row.
fn lookup_exec(row: &Vec<(String, Value)>, col: &[char]) -> (r: Option<usize>)
    ensures
        r matches Some(j) ==> j < row@.len() && lookup(row@, col@) == Some(row@[j as int].1),
        r is None ==> lookup(row@, col@) is None,
{
    let mut j: usize = 0;
    assert(row@.skip(0) =~= row@);
    while j < row.len()
        invariant
            j <= row@.len(),
            lookup(row@, col@) == lookup(row@.skip(j as int), col@),
        decreases row@.len() - j,
    {
        assert(row@.skip(j as int).drop_first() =~= row@.skip(j + 1));
        assert(row@.skip(j as int)[0] == row@[j as int]);
        let name = chars_of(row[j].0.as_str());
        if crate::text::chars_eq(name.as_slice(), col) {
            return Some(j);
        }
        j = j + 1;
    }
    assert(row@.skip(j as int) =~= Seq::<(String, Value)>::empty());
    None
}

/// The width of column `col` of a table.
fn column_width_exec(t: &Table, col: &[char]) -> (w: usize)
    ensures
        w == column_width(t.rows@, col@),
{
    let head = len_capped(col, 50);
    let mut m: usize = 0;
    let mut i: usize = 0;
    while i < t.rows.len()
        invariant
            i <= t.rows@.len(),
            m == (if max_cell_len(t.rows@.take(i as int), col@) < 50 {
                max_cell_len(t.rows@.take(i as int), col@)
            } else {
                50nat
            }),
        decreases t.rows@.len() - i,
    {
        let ghost pre = t.rows@.take(i as int);
        let ghost cur = t.rows@.take(i + 1);
        assert(cur.drop_last() =~= pre);
        assert(cur.last() == t.rows@[i as int]);
        match lookup_exec(&t.rows[i], col) {
            Some(j) => {
                let text = t.rows[i][j].1.to_text();
                let tc = chars_of(text.as_str());
                let here = len_capped(tc.as_slice(), 50);
                if here > m {
                    m = here;
                }
            },
            None => {},
        }
        i = i + 1;
    }
    assert(t.rows@.take(t.rows@.len() as int) =~= t.rows@);
    if head > m {
        head
    } else {
        m
    }
}

/// `s` padded with spaces to `w` characters.
pub(crate) fn pad_exec(s: &[char], w: usize) -> (r: String)
    ensures
        r@ == pad(s@, w as nat),
{
    let mut r = crate::text::string_of(s);
    if s.len() < w {
        let n = w - s.len();
        crate::text::append_repeat(&mut r, ' ', n);
        assert(r@ =~= pad(s@, w as nat));
    }
    r
}

/// A cell text fitted to width `w`.
fn fit_exec(v: &[char], w: usize) -> (r: Vec<char>)
    requires
        w <= 50,
    ensures
        r@ == fit(v@, w as nat),
{
    if v.len() <= w {
        return crate::lexer::chars_range_pub(v, 0, v.len());
    }
    let b: usize = if w >= 1 {
        w - 1
    } else {
        0
    };
    let mut r = crate::lexer::chars_range_pub(v, 0, b);
    r.push('\u{2026}');
    assert(r@ =~= v@.take(b as int) + seq!['\u{2026}']);
    r
}

/// Joins `parts` with `sep`.
fn join_with(parts: &Vec<String>, sep: &[char]) -> (r: String)
    ensures
        r@ == join(views(parts@), sep@),
{
    let ghost vs = views(parts@);
    let mut r = String::new();
    let mut i: usize = 0;
    while i < parts.len()
        invariant
            vs == views(parts@),
            i <= parts@.len(),
            r@ == join(vs.take(i as int), sep@),
        decreases parts@.len() - i,
    {
        proof {
            lemma_join_push(vs.take(i as int), vs[i as int], sep@);
            assert(vs.take(i + 1) =~= vs.take(i as int).push(vs[i as int]));
        }
        if i > 0 {
            append_chars(&mut r, sep);
        }
        r.append(parts[i].as_str());
        i = i + 1;
    }
    assert(vs.take(parts@.len() as int) =~= vs);
    r
}

/// The text between cells in a style.
fn cell_sep_exec(style: TableStyle) -> (r: Vec<char>)
    ensures
        r@ == cell_sep(style),
{
    match style {
        TableStyle::Unicode => vec![' ', '\u{2502}', ' '],
        TableStyle::Ascii => vec![' ', '|', ' '],
        TableStyle::Minimal => vec![' ', ' '],
    }
}

/// Joins the cells of a line with the separator of `style`.
pub fn join_cells(cells: &Vec<String>, style: TableStyle) -> (r: String)
    ensures
        r@ == join(views(cells@), cell_sep(style)),
{
    let sep = cell_sep_exec(style);
    join_with(cells, sep.as_slice())
}

/// The lines of rows of a table.
pub open spec fn row_lines(rows: Seq<Vec<(String, Value)>>, cols: Seq<Seq<char>>, ws: Seq<nat>, style: TableStyle) -> Seq<char>
    decreases rows.len(),
{
    if rows.len() == 0 {
        Seq::empty()
    } else {
        row_lines(rows.drop_last(), cols, ws, style) + join(row_line_cells(rows.last()@, cols, ws), cell_sep(style))
            + seq!['\n']
    }
}

/// A table as the renderer lays it out: nothing for a table without rows;
/// else the header line, the separator line (but in the minimal style), and
/// a line per row, the cells padded to their columns' widths and separated
/// as the style has it.
pub open spec fn rendered(colors: bool, rgb: Option<(u8, u8, u8)>, style: TableStyle, t: Table) -> Seq<char> {
    if t.rows@.len() == 0 {
        Seq::empty()
    } else {
        let cols = views(t.columns@);
        let ws = widths(t.rows@, cols);
        let header = Seq::new(cols.len(), |k: int| header_cell(pad(cols[k], ws[k]), colors, rgb));
        join(header, cell_sep(style)) + seq!['\n'] + (if style != TableStyle::Minimal {
            separator_line(style, ws) + seq!['\n']
        } else {
            Seq::empty()
        }) + row_lines(t.rows@, cols, ws, style)
    }
}

/// Lays tables out in aligned columns.
pub struct TableRenderer {
    use_colors: bool,
    max_width: Option<usize>,
    style: TableStyle,
    header_rgb: Option<(u8, u8, u8)>,
}

impl TableRenderer {
    pub closed spec fn colors(&self) -> bool {
        self.use_colors
    }

    pub closed spec fn table_style(&self) -> TableStyle {
        self.style
    }

    pub closed spec fn header_color(&self) -> Option<(u8, u8, u8)> {
        self.header_rgb
    }

    pub closed spec fn width_limit(&self) -> Option<usize> {
        self.max_width
    }

    /// A renderer without colors, in the Unicode style, with cyan headers.
    pub fn new() -> (r: Self)
        ensures
            !r.colors(),
            r.table_style() == TableStyle::Unicode,
            r.header_color() is None,
            r.width_limit() is None,
    {
        TableRenderer { use_colors: false, max_width: None, style: TableStyle::Unicode, header_rgb: None }
    }

    /// A renderer with the given settings.
    pub fn with_settings(
        use_colors: bool,
        max_width: Option<usize>,
        style: TableStyle,
        header_rgb: Option<(u8, u8, u8)>,
    ) -> (r: Self)
        ensures
            r.colors() == use_colors,
            r.table_style() == style,
            r.header_color() == header_rgb,
            r.width_limit() == max_width,
    {
        TableRenderer { use_colors, max_width, style, header_rgb }
    }

    /// The renderer with colors on or off.
    pub fn with_colors(self, enabled: bool) -> (r: Self)
        ensures
            r.colors() == enabled,
            r.table_style() == self.table_style(),
            r.header_color() == self.header_color(),
            r.width_limit() == self.width_limit(),
    {
        TableRenderer { use_colors: enabled, ..self }
    }

    /// The renderer with another style.
    pub fn with_style(self, style: TableStyle) -> (r: Self)
        ensures
            r.colors() == self.colors(),
            r.table_style() == style,
            r.header_color() == self.header_color(),
            r.width_limit() == self.width_limit(),
    {
        TableRenderer { style, ..self }
    }

    /// The widths of the columns of a table.
    fn calculate_column_widths(&self, t: &Table) -> (ws: Vec<usize>)
        ensures
            ws@.len() == t.columns@.len(),
            forall|k: int| 0 <= k < ws@.len() ==> ws@[k] == widths(t.rows@, views(t.columns@))[k] && ws@[k] <= 50,
    {
        let mut ws: Vec<usize> = Vec::new();
        let mut k: usize = 0;
        while k < t.columns.len()
            invariant
                k <= t.columns@.len(),
                ws@.len() == k,
                forall|q: int| 0 <= q < k ==> ws@[q] == widths(t.rows@, views(t.columns@))[q] && ws@[q] <= 50,
            decreases t.columns@.len() - k,
        {
            let c = chars_of(t.columns[k].as_str());
            let w = column_width_exec(t, c.as_slice());
            ws.push(w);
            k = k + 1;
        }
        ws
    }

    /// The header line.
    fn render_header(&self, t: &Table, ws: &Vec<usize>) -> (r: String)
        requires
            ws@.len() == t.columns@.len(),
            forall|k: int| 0 <= k < ws@.len() ==> ws@[k] == widths(t.rows@, views(t.columns@))[k],
        ensures
            r@ == join(
                Seq::new(
                    t.columns@.len(),
                    |k: int| header_cell(pad(views(t.columns@)[k], widths(t.rows@, views(t.columns@))[k]), self.colors(), self.header_color()),
                ),
                cell_sep(self.style),
            ),
    {
        let ghost cols = views(t.columns@);
        let ghost ws_s = widths(t.rows@, cols);
        let mut cells: Vec<String> = Vec::new();
        let mut k: usize = 0;
        while k < t.columns.len()
            invariant
                cols == views(t.columns@),
                ws_s == widths(t.rows@, cols),
                ws@.len() == t.columns@.len(),
                forall|q: int| 0 <= q < ws@.len() ==> ws@[q] == ws_s[q],
                k <= t.columns@.len(),
                cells@.len() == k,
                forall|q: int| 0 <= q < k ==> #[trigger] cells@[q]@ == header_cell(pad(cols[q], ws_s[q]), self.colors(), self.header_color()),
            decreases t.columns@.len() - k,
        {
            let c = chars_of(t.columns[k].as_str());
            let padded = pad_exec(c.as_slice(), ws[k]);
            if self.use_colors {
                cells.push(paint_bold(self.header_rgb, padded.as_str()));
            } else {
                cells.push(padded);
            }
            k = k + 1;
        }
        let r = join_cells(&cells, self.style);
        assert(views(cells@) =~= Seq::new(
            t.columns@.len(),
            |k: int| header_cell(pad(cols[k], ws_s[k]), self.colors(), self.header_color()),
        ));
        r
    }

    /// The separator line under the header.
    fn render_separator(&self, ws: &Vec<usize>) -> (r: String)
        ensures
            r@ == separator_line(self.style, ws@.map_values(|w: usize| w as nat)),
    {
        let ghost wn = ws@.map_values(|w: usize| w as nat);
        match self.style {
            TableStyle::Minimal => String::new(),
            _ => {
                let unicode = self.style == TableStyle::Unicode;
                let fill: char = if unicode {
                    '\u{2500}'
                } else {
                    '-'
                };
                let sep: Vec<char> = if unicode {
                    vec!['\u{2500}', '\u{253c}', '\u{2500}']
                } else {
                    vec!['-', '+', '-']
                };
                let ghost parts = wn.map_values(|w: nat| Seq::new(w, |i: int| fill));
                let mut r = String::new();
                let mut i: usize = 0;
                while i < ws.len()
                    invariant
                        wn == ws@.map_values(|w: usize| w as nat),
                        parts == wn.map_values(|w: nat| Seq::new(w, |i: int| fill)),
                        i <= ws@.len(),
                        r@ == join(parts.take(i as int), sep@),
                    decreases ws@.len() - i,
                {
                    proof {
                        lemma_join_push(parts.take(i as int), parts[i as int], sep@);
                        assert(parts.take(i + 1) =~= parts.take(i as int).push(parts[i as int]));
                    }
                    if i > 0 {
                        append_chars(&mut r, sep.as_slice());
                    }
                    let ghost r0 = r@;
                    crate::text::append_repeat(&mut r, fill, ws[i]);
                    assert(r@ =~= r0 + parts[i as int]);
                    i = i + 1;
                }
                assert(parts.take(ws@.len() as int) =~= parts);
                r
            },
        }
    }

    /// The line of a row.
    fn render_row(&self, t: &Table, row: &Vec<(String, Value)>, ws: &Vec<usize>) -> (r: String)
        requires
            ws@.len() == t.columns@.len(),
            forall|k: int| 0 <= k < ws@.len() ==> ws@[k] == widths(t.rows@, views(t.columns@))[k] && ws@[k] <= 50,
        ensures
            r@ == join(row_line_cells(row@, views(t.columns@), widths(t.rows@, views(t.columns@))), cell_sep(self.style)),
    {
        let ghost cols = views(t.columns@);
        let ghost ws_s = widths(t.rows@, cols);
        let mut cells: Vec<String> = Vec::new();
        let mut k: usize = 0;
        while k < t.columns.len()
            invariant
                cols == views(t.columns@),
                ws_s == widths(t.rows@, cols),
                ws@.len() == t.columns@.len(),
                forall|q: int| 0 <= q < ws@.len() ==> #[trigger] ws@[q] == ws_s[q] && ws@[q] <= 50,
                k <= t.columns@.len(),
                cells@.len() == k,
                forall|q: int| 0 <= q < k ==> #[trigger] cells@[q]@ == row_line_cells(row@, cols, ws_s)[q],
            decreases t.columns@.len() - k,
        {
            let c = chars_of(t.columns[k].as_str());
            let text = match lookup_exec(row, c.as_slice()) {
                Some(j) => row[j].1.to_text(),
                None => String::new(),
            };
            let tc = chars_of(text.as_str());
            assert(ws@[k as int] <= 50);
            let fitted = fit_exec(tc.as_slice(), ws[k]);
            let padded = pad_exec(fitted.as_slice(), ws[k]);
            cells.push(padded);
            k = k + 1;
        }
        assert(views(cells@) =~= row_line_cells(row@, cols, ws_s));
        join_cells(&cells, self.style)
    }

    /// The table laid out in aligned columns; empty for a table without rows.
    pub fn render(&self, t: &Table) -> (r: String)
        ensures
            r@ == rendered(self.colors(), self.header_color(), self.table_style(), *t),
    {
        if t.rows.len() == 0 {
            return String::new();
        }
        let ghost cols = views(t.columns@);
        let ghost ws_s = widths(t.rows@, cols);
        let ws = self.calculate_column_widths(t);
        assert(ws@.map_values(|w: usize| w as nat) =~= ws_s);
        let mut out = self.render_header(t, &ws);
        push_char(&mut out, '\n');
        if self.style != TableStyle::Minimal {
            let sep = self.render_separator(&ws);
            out.append(sep.as_str());
            push_char(&mut out, '\n');
        }
        let ghost head = out@;
        let mut i: usize = 0;
        while i < t.rows.len()
            invariant
                cols == views(t.columns@),
                ws_s == widths(t.rows@, cols),
                ws@.len() == t.columns@.len(),
                forall|k: int| 0 <= k < ws@.len() ==> ws@[k] == ws_s[k] && ws@[k] <= 50,
                i <= t.rows@.len(),
                out@ == head + row_lines(t.rows@.take(i as int), cols, ws_s, self.style),
            decreases t.rows@.len() - i,
        {
            let line = self.render_row(t, &t.rows[i], &ws);
            let ghost pre = t.rows@.take(i as int);
            let ghost cur = t.rows@.take(i + 1);
            assert(cur.drop_last() =~= pre);
            assert(cur.last() == t.rows@[i as int]);
            out.append(line.as_str());
            push_char(&mut out, '\n');
            assert(out@ =~= head + row_lines(cur, cols, ws_s, self.style));
            i = i + 1;
        }
        assert(t.rows@.take(t.rows@.len() as int) =~= t.rows@);
        out
    }
}

/// A value laid out for the terminal: tables by the renderer, lists one
/// rendered item per line, other values as their text.
pub open spec fn rendered_value(colors: bool, rgb: Option<(u8, u8, u8)>, style: TableStyle, v: Value) -> Seq<char>
    decreases v,
{
    match v {
        Value::Table(t) => rendered(colors, rgb, style, t),
        Value::List(items) => rendered_list(colors, rgb, style, items@),
        _ => value_text(v),
    }
}

/// Rendered items, one per line.
pub open spec fn rendered_list(colors: bool, rgb: Option<(u8, u8, u8)>, style: TableStyle, items: Seq<Value>) -> Seq<char>
    decreases items,
{
    if items.len() == 0 {
        Seq::empty()
    } else if items.len() == 1 {
        rendered_value(colors, rgb, style, items[0])
    } else {
        rendered_list(colors, rgb, style, items.drop_last()) + seq!['\n'] + rendered_value(colors, rgb, style, items.last())
    }
}

/// Renders a value with a renderer.
pub fn render_value_with(renderer: &TableRenderer, v: &Value) -> (r: String)
    ensures
        r@ == rendered_value(renderer.colors(), renderer.header_color(), renderer.table_style(), *v),
    decreases v,
{
    match v {
        Value::Table(t) => renderer.render(t),
        Value::List(items) => {
            let mut r = String::new();
            let mut i: usize = 0;
            while i < items.len()
                invariant
                    *v == Value::List(*items),
                    i <= items@.len(),
                    r@ == rendered_list(renderer.colors(), renderer.header_color(), renderer.table_style(), items@.take(i as int)),
                decreases items@.len() - i,
            {
                let ghost pre = items@.take(i as int);
                let ghost cur = items@.take(i + 1);
                assert(cur.drop_last() =~= pre);
                assert(cur.last() == items@[i as int]);
                proof {
                    assert(decreases_to!(*v => v->List_0));
                    assert(v->List_0 == *items);
                    assert(decreases_to!(*items => items@));
                    assert(decreases_to!(items@ => items@[i as int]));
                }
                let t = render_value_with(renderer, &items[i]);
                if i > 0 {
                    push_char(&mut r, '\n');
                }
                r.append(t.as_str());
                assert(r@ =~= rendered_list(renderer.colors(), renderer.header_color(), renderer.table_style(), cur));
                i = i + 1;
            }
            assert(items@.take(items@.len() as int) =~= items@);
            r
        },
        _ => v.to_text(),
    }
}

/// Renders a value for the terminal with the default renderer.
pub fn render_value(v: &Value) -> (r: String)
    ensures
        r@ == rendered_value(false, None, TableStyle::Unicode, *v),
{
    render_value_with(&TableRenderer::new(), v)
}

/// Renders a value for the terminal, with colors on or off.
pub fn render_value_with_colors(v: &Value, use_colors: bool) -> (r: String)
    ensures
        r@ == rendered_value(use_colors, None, TableStyle::Unicode, *v),
{
    render_value_with(&TableRenderer::new().with_colors(use_colors), v)
}

// ---------------------------------------------------------------------------
// Laws
// ---------------------------------------------------------------------------

proof fn lemma_fit_len(v: Seq<char>, w: nat)
    requires
        w >= 1,
    ensures
        fit(v, w).len() <= w,
{
}

/// Every cell of a row line fills its column exactly: a cell text longer
/// than its column is cut to fit with an ellipsis, a shorter one is padded,
/// so the lines of all rows are aligned.
pub proof fn law_row_cells_fill_columns(row: Seq<(String, Value)>, cols: Seq<Seq<char>>, ws: Seq<nat>)
    requires
        ws.len() == cols.len(),
        forall|k: int| 0 <= k < ws.len() ==> #[trigger] ws[k] >= 1,
    ensures
        row_line_cells(row, cols, ws).len() == cols.len(),
        forall|k: int| 0 <= k < cols.len() ==> (#[trigger] row_line_cells(row, cols, ws)[k]).len() == ws[k],
{
    assert forall|k: int| 0 <= k < cols.len() implies (#[trigger] row_line_cells(row, cols, ws)[k]).len()
        == ws[k] by {
        lemma_fit_len(cell_value_text(row, cols[k]), ws[k]);
    }
}

} // verus!
