//! The proof that the parser reads a written listing back to the records it
//! was written from.

use crate::listing::{
    available_cell, header_layout, id_cell, is_header, is_header_pair, is_noise, is_separator,
    listing_records, name_cell, offset_of, row_record, scan, scan_line, version_cell, Layout,
    ScanState, SOURCE_NAME,
};
use crate::models::PackageView;
use crate::table::{
    body_text, header_text, ids, last_label, layout_of, lemma_widest, listing_text, names, pad,
    row_of, row_text, rule_text, table_layout, tail_of, versions,
};
use crate::text::{
    contains, find, first_token, is_whitespace, lemma_find, lemma_lines_append, lemma_lines_one,
    lemma_lines_two, lemma_occurrence_starts, lemma_three_lines, lemma_token_len, lemma_trim,
    lemma_trim_keeps_start, lemma_trim_start, lines, occurs_at, one_line, starts_with, trim,
};
use vstd::prelude::*;

verus! {

/// A cell that trimming leaves as it is, and that is not empty.
pub open spec fn tight(cell: Seq<char>) -> bool {
    cell.len() > 0 && !is_whitespace(cell.first()) && !is_whitespace(cell.last())
}

/// A cell without any whitespace, and not empty.
pub open spec fn is_token(cell: Seq<char>) -> bool {
    cell.len() > 0 && forall|i: int| 0 <= i < cell.len() ==> !is_whitespace(#[trigger] cell[i])
}

/// A pattern whose first character does not occur in `s` before `k`, and
/// which occurs at `k`, is first found at `k`.
proof fn lemma_found_at(s: Seq<char>, p: Seq<char>, k: int)
    requires
        p.len() > 0,
        occurs_at(s, p, k),
        forall|j: int| 0 <= j < k ==> #[trigger] s[j] != p[0],
    ensures
        contains(s, p),
        find(s, p) == Some(k),
        offset_of(s, p) == k,
{
    assert forall|j: int| 0 <= j < k implies !occurs_at(s, p, j) by {
        if occurs_at(s, p, j) {
            lemma_occurrence_starts(s, p, j);
        }
    }
    lemma_find(s, p, k);
}

/// A pattern whose first character does not occur in `s` is not found.
proof fn lemma_absent(s: Seq<char>, p: Seq<char>)
    requires
        p.len() > 0,
        forall|j: int| 0 <= j < s.len() ==> #[trigger] s[j] != p[0],
    ensures
        !contains(s, p),
        find(s, p) is None,
        offset_of(s, p) == 0,
{
    assert forall|j: int| !occurs_at(s, p, j) by {
        if occurs_at(s, p, j) {
            lemma_occurrence_starts(s, p, j);
        }
    }
}

/// Trimming a padded tight cell gives the cell back.
proof fn lemma_trim_pad(cell: Seq<char>, width: int)
    requires
        tight(cell),
    ensures
        trim(pad(cell, width)) == cell,
        trim(cell) == cell,
{
    let s = pad(cell, width);
    assert(s[0] == cell[0]);
    assert(s[cell.len() - 1] == cell.last());
    assert forall|i: int| cell.len() <= i < s.len() implies is_whitespace(#[trigger] s[i]) by {
        assert(s[i] == ' ');
    }
    lemma_trim(s, 0, cell.len() as int);
    assert(s.subrange(0, cell.len() as int) == cell);
    lemma_trim(cell, 0, cell.len() as int);
    assert(cell.subrange(0, cell.len() as int) == cell);
}

/// The first token of a token is the token itself.
proof fn lemma_first_token(cell: Seq<char>)
    requires
        is_token(cell),
    ensures
        first_token(cell) == Some(cell),
{
    lemma_trim_start(cell, 0);
    assert(cell.skip(0) == cell);
    lemma_token_len(cell, cell.len() as int);
    assert(cell.take(cell.len() as int) == cell);
}

/// The length and the characters of a padded cell.
proof fn lemma_pad(cell: Seq<char>, width: int)
    ensures
        pad(cell, width).len() == if width > cell.len() {
            width
        } else {
            cell.len() as int
        },
        forall|j: int|
            0 <= j < pad(cell, width).len() ==> #[trigger] pad(cell, width)[j] == if j
                < cell.len() {
                cell[j]
            } else {
                ' '
            },
{
}

/// The column offsets that measure a row.
pub open spec fn fits(l: Layout, name: Seq<char>, id: Seq<char>, version: Seq<char>) -> bool {
    &&& 0 < l.name_end < l.id_end < l.version_end
    &&& tight(name) && name.len() <= l.name_end
    &&& tight(id) && id.len() <= l.id_end - l.name_end
    &&& tight(version) && version.len() <= l.version_end - l.id_end
}

/// Cutting a padded row at the column offsets gives the cells back.
proof fn lemma_row_cells(
    l: Layout,
    name: Seq<char>,
    id: Seq<char>,
    version: Seq<char>,
    tail: Seq<char>,
)
    requires
        fits(l, name, id, version),
    ensures
        row_text(l, name, id, version, tail).len() == l.version_end + tail.len(),
        row_text(l, name, id, version, tail).skip(l.version_end) == tail,
        row_text(l, name, id, version, tail)[0] == name[0],
        name_cell(l, row_text(l, name, id, version, tail)) == name,
        id_cell(l, row_text(l, name, id, version, tail)) == id,
        version_cell(l, row_text(l, name, id, version, tail)) == version,
{
    let row = row_text(l, name, id, version, tail);
    let a = pad(name, l.name_end);
    let b = pad(id, l.id_end - l.name_end);
    let c = pad(version, l.version_end - l.id_end);
    lemma_pad(name, l.name_end);
    lemma_pad(id, l.id_end - l.name_end);
    lemma_pad(version, l.version_end - l.id_end);
    assert(a.len() == l.name_end);
    assert(b.len() == l.id_end - l.name_end);
    assert(c.len() == l.version_end - l.id_end);
    assert(row.take(l.name_end) == a);
    assert(row.subrange(l.name_end, l.id_end) == b);
    assert(row.subrange(l.id_end, l.version_end) == c);
    assert(row.skip(l.version_end) == tail);
    assert(row[0] == a[0]);
    lemma_trim_pad(name, l.name_end);
    lemma_trim_pad(id, l.id_end - l.name_end);
    lemma_trim_pad(version, l.version_end - l.id_end);
}

/// The record that a padded row stands for.
pub open spec fn record_of(
    name: Seq<char>,
    id: Seq<char>,
    version: Seq<char>,
    available: Option<Seq<char>>,
) -> PackageView {
    PackageView { id, name, version, source: Some(SOURCE_NAME@), available_version: available }
}

/// Whether the parser, with the header and the separator behind it, takes
/// `row` for a data line.
pub open spec fn reads_as_data(row: Seq<char>) -> bool {
    !is_noise(trim(row)) && !is_separator(trim(row))
}

/// A padded row of an upgrade listing, with a token in the `Available`
/// column, is read back cell by cell.
proof fn lemma_upgrade_row(
    st: ScanState,
    name: Seq<char>,
    id: Seq<char>,
    version: Seq<char>,
    available: Seq<char>,
)
    requires
        st.header_found,
        st.started,
        fits(st.layout, name, id, version),
        st.layout.available_start == st.layout.version_end,
        is_token(available),
        !is_header_pair(name, id),
        reads_as_data(row_text(st.layout, name, id, version, available)),
    ensures
        scan_line(st, row_text(st.layout, name, id, version, available), true) == (
            st,
            Some(record_of(name, id, version, Some(available))),
        ),
{
    let row = row_text(st.layout, name, id, version, available);
    lemma_row_cells(st.layout, name, id, version, available);
    lemma_trim_keeps_start(row);
    lemma_first_token(available);
    assert(available_cell(st.layout, row, true) == Some(available));
    assert(row_record(st.layout, row, true) == Some(
        record_of(name, id, version, Some(available)),
    ));
}

/// A padded row is read back without an available version when the
/// listing is not one of upgrades, or when nothing follows the version
/// column.
proof fn lemma_plain_row(
    st: ScanState,
    name: Seq<char>,
    id: Seq<char>,
    version: Seq<char>,
    tail: Seq<char>,
    upgrade: bool,
)
    requires
        st.header_found,
        st.started,
        fits(st.layout, name, id, version),
        !upgrade || (tail.len() == 0 && st.layout.available_start == st.layout.version_end),
        !is_header_pair(name, id),
        reads_as_data(row_text(st.layout, name, id, version, tail)),
    ensures
        scan_line(st, row_text(st.layout, name, id, version, tail), upgrade) == (
            st,
            Some(record_of(name, id, version, None)),
        ),
{
    let row = row_text(st.layout, name, id, version, tail);
    lemma_row_cells(st.layout, name, id, version, tail);
    lemma_trim_keeps_start(row);
    assert(available_cell(st.layout, row, upgrade) is None);
    assert(row_record(st.layout, row, upgrade) == Some(record_of(name, id, version, None)));
}

/// Widths that leave room for the labels.
pub open spec fn widths_ok(w1: int, w2: int, w3: int) -> bool {
    w1 >= 4 && w2 >= 2 && w3 >= 7
}

/// A blank or a letter of the basic Latin alphabet.
pub open spec fn plain(c: char) -> bool {
    c == ' ' || ('A' <= c && c <= 'Z') || ('a' <= c && c <= 'z')
}

/// The characters of a header, column by column.
proof fn lemma_header_chars(w1: int, w2: int, w3: int, upgrade: bool)
    requires
        widths_ok(w1, w2, w3),
    ensures
        header_text(w1, w2, w3, upgrade).len() == w1 + w2 + w3 + last_label(upgrade).len(),
        forall|j: int|
            0 <= j < w1 ==> #[trigger] header_text(w1, w2, w3, upgrade)[j] == pad("Name"@, w1)[j],
        forall|j: int|
            0 <= j < w2 ==> #[trigger] header_text(w1, w2, w3, upgrade)[w1 + j] == pad(
                "Id"@,
                w2,
            )[j],
        forall|j: int|
            0 <= j < w3 ==> #[trigger] header_text(w1, w2, w3, upgrade)[w1 + w2 + j] == pad(
                "Version"@,
                w3,
            )[j],
        forall|j: int|
            0 <= j < last_label(upgrade).len() ==> #[trigger] header_text(
                w1,
                w2,
                w3,
                upgrade,
            )[w1 + w2 + w3 + j] == last_label(upgrade)[j],
{
    reveal_strlit("Name");
    reveal_strlit("Id");
    reveal_strlit("Version");
    lemma_pad("Name"@, w1);
    lemma_pad("Id"@, w2);
    lemma_pad("Version"@, w3);
    assert(pad("Name"@, w1).len() == w1);
    assert(pad("Id"@, w2).len() == w2);
    assert(pad("Version"@, w3).len() == w3);
}

/// Every character of a header is a blank or a letter, and the letters
/// that start the labels stand nowhere before their label.
proof fn lemma_header_plain(w1: int, w2: int, w3: int, upgrade: bool)
    requires
        widths_ok(w1, w2, w3),
    ensures
        forall|j: int|
            0 <= j < header_text(w1, w2, w3, upgrade).len() ==> plain(
                #[trigger] header_text(w1, w2, w3, upgrade)[j],
            ),
        forall|j: int| 0 <= j < w1 ==> #[trigger] header_text(w1, w2, w3, upgrade)[j] != 'I',
        forall|j: int| 0 <= j < w1 + w2 ==> #[trigger] header_text(w1, w2, w3, upgrade)[j] != 'V',
        forall|j: int|
            0 <= j < w1 + w2 + w3 ==> #[trigger] header_text(w1, w2, w3, upgrade)[j] != 'A'
                && header_text(w1, w2, w3, upgrade)[j] != 'S',
        !upgrade ==> forall|j: int|
            0 <= j < header_text(w1, w2, w3, upgrade).len() ==> #[trigger] header_text(
                w1,
                w2,
                w3,
                upgrade,
            )[j] != 'A',
        header_text(w1, w2, w3, upgrade)[0] == 'N',
        header_text(w1, w2, w3, upgrade).last() == 'e',
{
    let h = header_text(w1, w2, w3, upgrade);
    lemma_header_chars(w1, w2, w3, upgrade);
    reveal_strlit("Name");
    reveal_strlit("Id");
    reveal_strlit("Version");
    reveal_strlit("Available");
    reveal_strlit("Source");
    lemma_pad("Name"@, w1);
    lemma_pad("Id"@, w2);
    lemma_pad("Version"@, w3);
    let tail = last_label(upgrade);
    assert forall|j: int| 0 <= j < h.len() implies plain(#[trigger] h[j]) && (j < w1 ==> h[j]
        != 'I') && (j < w1 + w2 ==> h[j] != 'V') && (j < w1 + w2 + w3 ==> h[j] != 'A' && h[j]
        != 'S') && (!upgrade ==> h[j] != 'A') by {
        if j < w1 {
            assert(h[j] == pad("Name"@, w1)[j]);
        } else if j < w1 + w2 {
            assert(h[w1 + (j - w1)] == pad("Id"@, w2)[j - w1]);
        } else if j < w1 + w2 + w3 {
            assert(h[w1 + w2 + (j - w1 - w2)] == pad("Version"@, w3)[j - w1 - w2]);
        } else {
            assert(h[w1 + w2 + w3 + (j - w1 - w2 - w3)] == tail[j - w1 - w2 - w3]);
        }
    }
    assert(h[0] == pad("Name"@, w1)[0]);
    assert(h[w1 + w2 + w3 + (tail.len() - 1)] == tail[tail.len() - 1]);
}

/// A header with the widths `w1`, `w2` and `w3` is recognised as one, and
/// fixes the column offsets that its widths say.
proof fn lemma_header(w1: int, w2: int, w3: int, upgrade: bool)
    requires
        widths_ok(w1, w2, w3),
    ensures
        trim(header_text(w1, w2, w3, upgrade)) == header_text(w1, w2, w3, upgrade),
        header_text(w1, w2, w3, upgrade).len() > 0,
        one_line(header_text(w1, w2, w3, upgrade)),
        header_text(w1, w2, w3, upgrade).last() != '\r',
        is_header(header_text(w1, w2, w3, upgrade)),
        !is_noise(header_text(w1, w2, w3, upgrade)),
        header_layout(header_text(w1, w2, w3, upgrade)) == layout_of(w1, w2, w3, upgrade),
{
    let h = header_text(w1, w2, w3, upgrade);
    lemma_header_chars(w1, w2, w3, upgrade);
    lemma_header_plain(w1, w2, w3, upgrade);
    reveal_strlit("Name");
    reveal_strlit("Id");
    reveal_strlit("Version");
    reveal_strlit("Available");
    reveal_strlit("Source");
    reveal_strlit("\\");
    reveal_strlit("\u{2588}\u{2588}");
    reveal_strlit("\u{2592}");
    lemma_pad("Name"@, w1);
    lemma_pad("Id"@, w2);
    lemma_pad("Version"@, w3);
    assert(trim(h) == h) by {
        assert(plain(h[0]) && plain(h.last()));
        lemma_trim(h, 0, h.len() as int);
        assert(h.subrange(0, h.len() as int) == h);
    }
    assert(one_line(h) && h.last() != '\r') by {
        assert forall|j: int| 0 <= j < h.len() implies #[trigger] h[j] != '\n' by {
            assert(plain(h[j]));
        }
    }
    assert(starts_with(h, "Name"@)) by {
        assert forall|j: int| 0 <= j < 4 implies h.take(4)[j] == "Name"@[j] by {
            assert(h[j] == pad("Name"@, w1)[j]);
        }
        assert(h.take(4) == "Name"@);
    }
    assert(!is_noise(h)) by {
        assert("\\"@[0] == '\\');
        assert("\u{2588}\u{2588}"@[0] == '\u{2588}');
        assert("\u{2592}"@[0] == '\u{2592}');
        if starts_with(h, "\\"@) {
            assert(h.take(1)[0] == h[0]);
        }
        assert forall|j: int| 0 <= j < h.len() implies #[trigger] h[j] != '\u{2588}' && h[j]
            != '\u{2592}' by {
            assert(plain(h[j]));
        }
        lemma_absent(h, "\u{2588}\u{2588}"@);
        lemma_absent(h, "\u{2592}"@);
    }
    assert(offset_of(h, "Id"@) == w1 && contains(h, "Id"@)) by {
        assert forall|j: int| 0 <= j < 2 implies h.subrange(w1, w1 + 2)[j] == "Id"@[j] by {
            assert(h[w1 + j] == pad("Id"@, w2)[j]);
        }
        assert(h.subrange(w1, w1 + 2) == "Id"@);
        lemma_found_at(h, "Id"@, w1);
    }
    assert(offset_of(h, "Version"@) == w1 + w2) by {
        assert forall|j: int| 0 <= j < 7 implies h.subrange(w1 + w2, w1 + w2 + 7)[j]
            == "Version"@[j] by {
            assert(h[w1 + w2 + j] == pad("Version"@, w3)[j]);
        }
        assert(h.subrange(w1 + w2, w1 + w2 + 7) == "Version"@);
        lemma_found_at(h, "Version"@, w1 + w2);
    }
    let at = w1 + w2 + w3;
    let tail = last_label(upgrade);
    assert(h.subrange(at, at + tail.len()) == tail) by {
        assert forall|j: int| 0 <= j < tail.len() implies h.subrange(at, at + tail.len())[j]
            == tail[j] by {
            assert(h[at + j] == tail[j]);
        }
    }
    if upgrade {
        lemma_found_at(h, "Available"@, at);
    } else {
        lemma_found_at(h, "Source"@, at);
        lemma_absent(h, "Available"@);
    }
}

/// The parser's memory after the header and the dashed line.
pub open spec fn state_of(w1: int, w2: int, w3: int, upgrade: bool) -> ScanState {
    ScanState { header_found: true, started: true, layout: layout_of(w1, w2, w3, upgrade) }
}

/// The dashed line is recognised as the separator.
proof fn lemma_rule(w1: int, w2: int, w3: int)
    requires
        widths_ok(w1, w2, w3),
    ensures
        trim(rule_text(w1, w2, w3)) == rule_text(w1, w2, w3),
        rule_text(w1, w2, w3).len() > 0,
        one_line(rule_text(w1, w2, w3)),
        rule_text(w1, w2, w3).last() != '\r',
        is_separator(rule_text(w1, w2, w3)),
        !is_noise(rule_text(w1, w2, w3)),
{
    let r = rule_text(w1, w2, w3);
    reveal_strlit("---");
    reveal_strlit("\\");
    reveal_strlit("\u{2588}\u{2588}");
    reveal_strlit("\u{2592}");
    assert(trim(r) == r) by {
        lemma_trim(r, 0, r.len() as int);
        assert(r.subrange(0, r.len() as int) == r);
    }
    assert(is_separator(r)) by {
        assert(r.take(3) == "---"@);
    }
    assert(!is_noise(r)) by {
        assert("\\"@[0] == '\\');
        assert("\u{2588}\u{2588}"@[0] == '\u{2588}');
        assert("\u{2592}"@[0] == '\u{2592}');
        if starts_with(r, "\\"@) {
            assert(r.take(1)[0] == r[0]);
        }
        lemma_absent(r, "\u{2588}\u{2588}"@);
        lemma_absent(r, "\u{2592}"@);
    }
}

/// A header line followed by a separator line leaves the parser with the
/// header's offsets, expecting data, and gives no record.
proof fn lemma_scan_head(h: Seq<char>, r: Seq<char>, upgrade: bool)
    requires
        trim(h).len() > 0,
        !is_noise(trim(h)),
        is_header(trim(h)),
        trim(r).len() > 0,
        !is_noise(trim(r)),
        is_separator(trim(r)),
    ensures
        scan(seq![h, r], upgrade) == (
            ScanState { header_found: true, started: true, layout: header_layout(trim(h)) },
            Seq::<PackageView>::empty(),
        ),
{
    let both = seq![h, r];
    let first = seq![h];
    let none = Seq::<Seq<char>>::empty();
    assert(both.drop_last() == first);
    assert(first.drop_last() == none);
    assert(both.last() == r);
    assert(first.last() == h);
    let s0 = scan(none, upgrade);
    let s1 = scan(first, upgrade);
    assert(s1 == (scan_line(s0.0, h, upgrade).0, Seq::<PackageView>::empty()));
}

/// After the header and the dashed line the parser expects data lines cut
/// at the header's offsets, and has given no record yet.
proof fn lemma_head_scanned(w1: int, w2: int, w3: int, upgrade: bool)
    requires
        widths_ok(w1, w2, w3),
    ensures
        scan(seq![header_text(w1, w2, w3, upgrade), rule_text(w1, w2, w3)], upgrade) == (
            state_of(w1, w2, w3, upgrade),
            Seq::<PackageView>::empty(),
        ),
{
    lemma_header(w1, w2, w3, upgrade);
    lemma_rule(w1, w2, w3);
    lemma_scan_head(header_text(w1, w2, w3, upgrade), rule_text(w1, w2, w3), upgrade);
}

/// A record that a data line can show: its cells are single lines without
/// blanks at their ends, its source is the tool, and an available version,
/// which only a listing of upgrades can show, is a single token.
pub open spec fn renderable(r: PackageView, upgrade: bool) -> bool {
    &&& tight(r.name) && one_line(r.name)
    &&& tight(r.id) && one_line(r.id)
    &&& tight(r.version) && one_line(r.version)
    &&& r.source == Some(SOURCE_NAME@)
    &&& !is_header_pair(r.name, r.id)
    &&& r.available_version matches Some(a) ==> upgrade && is_token(a)
}

/// Whether every record can be shown and its data line is taken for one:
/// not for a progress line and not for a separator.
pub open spec fn well_formed(records: Seq<PackageView>, upgrade: bool) -> bool {
    forall|i: int|
        0 <= i < records.len() ==> renderable(#[trigger] records[i], upgrade) && reads_as_data(
            row_of(table_layout(records, upgrade), records[i], upgrade),
        )
}

/// Every record of a table fits the table's columns.
proof fn lemma_table_fits(records: Seq<PackageView>, upgrade: bool, i: int)
    requires
        0 <= i < records.len(),
        renderable(records[i], upgrade),
    ensures
        fits(table_layout(records, upgrade), records[i].name, records[i].id, records[i].version),
        widths_ok(
            table_layout(records, upgrade).name_end,
            table_layout(records, upgrade).id_end - table_layout(records, upgrade).name_end,
            table_layout(records, upgrade).version_end - table_layout(records, upgrade).id_end,
        ),
{
    lemma_widest(names(records), 4);
    lemma_widest(ids(records), 2);
    lemma_widest(versions(records), 7);
    assert(names(records)[i] == records[i].name);
    assert(ids(records)[i] == records[i].id);
    assert(versions(records)[i] == records[i].version);
}

/// The data line of a renderable record is one line, and does not end in
/// a carriage return.
proof fn lemma_row_one_line(l: Layout, r: PackageView, upgrade: bool)
    requires
        renderable(r, upgrade),
        fits(l, r.name, r.id, r.version),
    ensures
        one_line(row_of(l, r, upgrade)),
        row_of(l, r, upgrade).len() > 0,
        row_of(l, r, upgrade).last() != '\r',
{
    let row = row_of(l, r, upgrade);
    let a = pad(r.name, l.name_end);
    let b = pad(r.id, l.id_end - l.name_end);
    let c = pad(r.version, l.version_end - l.id_end);
    let tail = tail_of(r, upgrade);
    lemma_pad(r.name, l.name_end);
    lemma_pad(r.id, l.id_end - l.name_end);
    lemma_pad(r.version, l.version_end - l.id_end);
    reveal_strlit("winget");
    assert(one_line(tail) && (tail.len() > 0 ==> tail.last() != '\r')) by {
        if upgrade {
            if r.available_version is Some {
                assert(is_token(tail));
                assert forall|j: int| 0 <= j < tail.len() implies #[trigger] tail[j] != '\n' by {
                    assert(!is_whitespace(tail[j]));
                }
                assert(!is_whitespace(tail[tail.len() - 1]));
            }
        } else {
            assert(tail == "winget"@);
        }
    }
    assert forall|j: int| 0 <= j < row.len() implies #[trigger] row[j] != '\n' by {
        if j < l.name_end {
            assert(row[j] == a[j]);
        } else if j < l.id_end {
            assert(row[j] == b[j - l.name_end]);
        } else if j < l.version_end {
            assert(row[j] == c[j - l.id_end]);
        } else {
            assert(row[j] == tail[j - l.version_end]);
        }
    }
    if tail.len() > 0 {
        assert(row.last() == tail.last());
    } else {
        assert(row.last() == c.last());
        assert(!is_whitespace(r.version.last()));
    }
}

/// The data lines of `records`, in order.
pub open spec fn rows_of(l: Layout, records: Seq<PackageView>, upgrade: bool) -> Seq<Seq<char>> {
    Seq::new(records.len(), |i: int| row_of(l, records[i], upgrade))
}

/// The body of a table splits into its data lines.
proof fn lemma_body_lines(l: Layout, records: Seq<PackageView>, upgrade: bool)
    requires
        forall|i: int|
            0 <= i < records.len() ==> renderable(#[trigger] records[i], upgrade) && fits(
                l,
                records[i].name,
                records[i].id,
                records[i].version,
            ),
    ensures
        lines(body_text(l, records, upgrade)) == rows_of(l, records, upgrade),
        body_text(l, records, upgrade).len() > 0 ==> body_text(l, records, upgrade).last() == '\n',
    decreases records.len(),
{
    reveal_strlit("\n");
    if records.len() == 0 {
        assert(rows_of(l, records, upgrade) == Seq::<Seq<char>>::empty());
    } else {
        let rest = records.drop_last();
        let r = records.last();
        assert forall|i: int| 0 <= i < rest.len() implies renderable(#[trigger] rest[i], upgrade)
            && fits(l, rest[i].name, rest[i].id, rest[i].version) by {
            assert(rest[i] == records[i]);
        }
        lemma_body_lines(l, rest, upgrade);
        let before = body_text(l, rest, upgrade);
        let row = row_of(l, r, upgrade);
        lemma_row_one_line(l, r, upgrade);
        lemma_lines_one(row);
        lemma_lines_append(before, row + "\n"@);
        assert(before + row + "\n"@ == before + (row + "\n"@));
        assert(rows_of(l, rest, upgrade) + seq![row] == rows_of(l, records, upgrade));
        assert("\n"@.len() == 1 && "\n"@[0] == '\n');
        assert(body_text(l, records, upgrade).last() == "\n"@[0]);
    }
}

/// Every record of a listing fits the listing's columns.
proof fn lemma_all_fit(records: Seq<PackageView>, upgrade: bool)
    requires
        forall|i: int| 0 <= i < records.len() ==> renderable(#[trigger] records[i], upgrade),
    ensures
        forall|i: int|
            0 <= i < records.len() ==> renderable(#[trigger] records[i], upgrade) && fits(
                table_layout(records, upgrade),
                records[i].name,
                records[i].id,
                records[i].version,
            ),
        widths_ok(
            table_layout(records, upgrade).name_end,
            table_layout(records, upgrade).id_end - table_layout(records, upgrade).name_end,
            table_layout(records, upgrade).version_end - table_layout(records, upgrade).id_end,
        ),
{
    lemma_widest(names(records), 4);
    lemma_widest(ids(records), 2);
    lemma_widest(versions(records), 7);
    assert forall|i: int| 0 <= i < records.len() implies renderable(
        #[trigger] records[i],
        upgrade,
    ) && fits(
        table_layout(records, upgrade),
        records[i].name,
        records[i].id,
        records[i].version,
    ) by {
        lemma_table_fits(records, upgrade, i);
    }
}

/// A table with given offsets splits into its header, its dashed line and
/// its data lines.
proof fn lemma_table_lines(
    w1: int,
    w2: int,
    w3: int,
    records: Seq<PackageView>,
    upgrade: bool,
)
    requires
        widths_ok(w1, w2, w3),
        forall|i: int|
            0 <= i < records.len() ==> renderable(#[trigger] records[i], upgrade) && fits(
                layout_of(w1, w2, w3, upgrade),
                records[i].name,
                records[i].id,
                records[i].version,
            ),
    ensures
        lines(
            header_text(w1, w2, w3, upgrade) + "\n"@ + rule_text(w1, w2, w3) + "\n"@ + body_text(
                layout_of(w1, w2, w3, upgrade),
                records,
                upgrade,
            ),
        ) == seq![header_text(w1, w2, w3, upgrade), rule_text(w1, w2, w3)] + rows_of(
            layout_of(w1, w2, w3, upgrade),
            records,
            upgrade,
        ),
{
    let l = layout_of(w1, w2, w3, upgrade);
    let h = header_text(w1, w2, w3, upgrade);
    let r = rule_text(w1, w2, w3);
    let body = body_text(l, records, upgrade);
    assert(one_line(h) && h.last() != '\r') by {
        lemma_header(w1, w2, w3, upgrade);
    }
    assert(one_line(r) && r.last() != '\r') by {
        lemma_rule(w1, w2, w3);
    }
    assert(lines(body) == rows_of(l, records, upgrade)) by {
        lemma_body_lines(l, records, upgrade);
    }
    lemma_lines_two(h, r, body);
}

/// A listing splits into its header, its dashed line and its data lines.
proof fn lemma_listing_lines(records: Seq<PackageView>, upgrade: bool)
    requires
        forall|i: int| 0 <= i < records.len() ==> renderable(#[trigger] records[i], upgrade),
    ensures
        ({
            let l = table_layout(records, upgrade);
            let w1 = l.name_end;
            let w2 = l.id_end - l.name_end;
            let w3 = l.version_end - l.id_end;
            lines(listing_text(records, upgrade)) == seq![
                header_text(w1, w2, w3, upgrade),
                rule_text(w1, w2, w3),
            ] + rows_of(l, records, upgrade)
        }),
{
    let l = table_layout(records, upgrade);
    let w1 = l.name_end;
    let w2 = l.id_end - l.name_end;
    let w3 = l.version_end - l.id_end;
    lemma_all_fit(records, upgrade);
    assert(l == layout_of(w1, w2, w3, upgrade));
    lemma_table_lines(w1, w2, w3, records, upgrade);
}

/// The parser reads the first `n` data lines of a listing back to the first
/// `n` records.
proof fn lemma_scan_rows(records: Seq<PackageView>, upgrade: bool, n: int)
    requires
        well_formed(records, upgrade),
        0 <= n <= records.len(),
    ensures
        ({
            let l = table_layout(records, upgrade);
            let w1 = l.name_end;
            let w2 = l.id_end - l.name_end;
            let w3 = l.version_end - l.id_end;
            scan(
                seq![header_text(w1, w2, w3, upgrade), rule_text(w1, w2, w3)] + rows_of(
                    l,
                    records,
                    upgrade,
                ).take(n),
                upgrade,
            ) == (state_of(w1, w2, w3, upgrade), records.take(n))
        }),
    decreases n,
{
    let l = table_layout(records, upgrade);
    let w1 = l.name_end;
    let w2 = l.id_end - l.name_end;
    let w3 = l.version_end - l.id_end;
    let head = seq![header_text(w1, w2, w3, upgrade), rule_text(w1, w2, w3)];
    let rows = rows_of(l, records, upgrade);
    let st = state_of(w1, w2, w3, upgrade);
    lemma_widest(names(records), 4);
    lemma_widest(ids(records), 2);
    lemma_widest(versions(records), 7);
    if n == 0 {
        lemma_head_scanned(w1, w2, w3, upgrade);
        assert(head + rows.take(0) == head);
        assert(records.take(0) == Seq::<PackageView>::empty());
    } else {
        lemma_scan_rows(records, upgrade, n - 1);
        let r = records[n - 1];
        let row = row_of(l, r, upgrade);
        let now = head + rows.take(n);
        assert(now.drop_last() == head + rows.take(n - 1));
        assert(now.last() == rows[n - 1]);
        assert(rows[n - 1] == row);
        lemma_table_fits(records, upgrade, n - 1);
        assert(st.layout == l);
        assert(renderable(r, upgrade));
        assert(reads_as_data(row));
        let shown = if upgrade {
            r.available_version
        } else {
            None
        };
        assert(scan_line(st, row, upgrade) == (
            st,
            Some(record_of(r.name, r.id, r.version, shown)),
        )) by {
            if upgrade && r.available_version is Some {
                lemma_upgrade_row(st, r.name, r.id, r.version, r.available_version->0);
            } else {
                lemma_plain_row(st, r.name, r.id, r.version, tail_of(r, upgrade), upgrade);
            }
        }
        assert(record_of(r.name, r.id, r.version, shown) == r);
        assert(records.take(n - 1).push(r) == records.take(n));
    }
}

/// Writing records as a listing and parsing the listing gives the records
/// back. So parsing is idempotent on what it gives: the records parsed from
/// a listing, written out again and parsed again, are the same records.
pub proof fn lemma_listing_round_trip(records: Seq<PackageView>, upgrade: bool)
    requires
        well_formed(records, upgrade),
    ensures
        listing_records(listing_text(records, upgrade), upgrade) == records,
{
    let l = table_layout(records, upgrade);
    lemma_listing_lines(records, upgrade);
    lemma_scan_rows(records, upgrade, records.len() as int);
    assert(rows_of(l, records, upgrade).take(records.len() as int) == rows_of(
        l,
        records,
        upgrade,
    ));
    assert(records.take(records.len() as int) == records);
}

/// Parsing is idempotent: where the records parsed from a text are well
/// formed, writing them out as a listing and parsing that listing gives
/// the same records again.
pub proof fn lemma_parsing_is_idempotent(text: Seq<char>, upgrade: bool)
    requires
        well_formed(listing_records(text, upgrade), upgrade),
    ensures
        listing_records(listing_text(listing_records(text, upgrade), upgrade), upgrade)
            == listing_records(text, upgrade),
{
    lemma_listing_round_trip(listing_records(text, upgrade), upgrade);
}

/// The header `Name  Id  Version  Available` has columns of 6, 4 and 9
/// characters.
proof fn lemma_plain_header()
    ensures
        "Name  Id  Version  Available"@ == header_text(6, 4, 9, true),
{
    reveal_strlit("Name  Id  Version  Available");
    reveal_strlit("Name");
    reveal_strlit("Id");
    reveal_strlit("Version");
    reveal_strlit("Available");
    lemma_pad("Name"@, 6);
    lemma_pad("Id"@, 4);
    lemma_pad("Version"@, 9);
    let h = header_text(6, 4, 9, true);
    assert("Name  Id  Version  Available"@.len() == 28);
    assert(h.len() == 28);
    assert("Name  Id  Version  Available"@ =~= h);
}

/// One data line after the header and the dashed line adds its record.
proof fn lemma_scan_third(
    h: Seq<char>,
    r: Seq<char>,
    row: Seq<char>,
    st: ScanState,
    record: PackageView,
    upgrade: bool,
)
    requires
        scan(seq![h, r], upgrade) == (st, Seq::<PackageView>::empty()),
        scan_line(st, row, upgrade) == (st, Some(record)),
    ensures
        scan(seq![h, r, row], upgrade) == (st, seq![record]),
{
    let all = seq![h, r, row];
    assert(all.drop_last() == seq![h, r]);
    assert(all.last() == row);
    assert(Seq::<PackageView>::empty().push(record) == seq![record]);
}

/// A listing of upgrades with one padded data line splits into three
/// lines.
proof fn lemma_single_row_lines(
    w1: int,
    w2: int,
    w3: int,
    name: Seq<char>,
    id: Seq<char>,
    version: Seq<char>,
    available: Seq<char>,
)
    requires
        widths_ok(w1, w2, w3),
        renderable(record_of(name, id, version, Some(available)), true),
        fits(layout_of(w1, w2, w3, true), name, id, version),
    ensures
        lines(
            header_text(w1, w2, w3, true) + "\n"@ + rule_text(w1, w2, w3) + "\n"@ + row_text(
                layout_of(w1, w2, w3, true),
                name,
                id,
                version,
                available,
            ),
        ) == seq![
            header_text(w1, w2, w3, true),
            rule_text(w1, w2, w3),
            row_text(layout_of(w1, w2, w3, true), name, id, version, available),
        ],
{
    let l = layout_of(w1, w2, w3, true);
    let h = header_text(w1, w2, w3, true);
    let r = rule_text(w1, w2, w3);
    let row = row_text(l, name, id, version, available);
    let record = record_of(name, id, version, Some(available));
    assert(one_line(row) && row.len() > 0) by {
        lemma_row_one_line(l, record, true);
        assert(row_of(l, record, true) == row);
    }
    assert(one_line(h) && h.last() != '\r') by {
        lemma_header(w1, w2, w3, true);
    }
    assert(one_line(r) && r.last() != '\r') by {
        lemma_rule(w1, w2, w3);
    }
    lemma_three_lines(h, r, row);
}

/// A listing of upgrades with one padded data line gives the record of
/// that line.
proof fn lemma_single_row(
    w1: int,
    w2: int,
    w3: int,
    name: Seq<char>,
    id: Seq<char>,
    version: Seq<char>,
    available: Seq<char>,
)
    requires
        widths_ok(w1, w2, w3),
        renderable(record_of(name, id, version, Some(available)), true),
        fits(layout_of(w1, w2, w3, true), name, id, version),
        reads_as_data(row_text(layout_of(w1, w2, w3, true), name, id, version, available)),
    ensures
        listing_records(
            header_text(w1, w2, w3, true) + "\n"@ + rule_text(w1, w2, w3) + "\n"@ + row_text(
                layout_of(w1, w2, w3, true),
                name,
                id,
                version,
                available,
            ),
            true,
        ) == seq![record_of(name, id, version, Some(available))],
{
    let st = state_of(w1, w2, w3, true);
    let h = header_text(w1, w2, w3, true);
    let r = rule_text(w1, w2, w3);
    let row = row_text(layout_of(w1, w2, w3, true), name, id, version, available);
    lemma_single_row_lines(w1, w2, w3, name, id, version, available);
    lemma_head_scanned(w1, w2, w3, true);
    lemma_upgrade_row(st, name, id, version, available);
    lemma_scan_third(h, r, row, st, record_of(name, id, version, Some(available)), true);
}

/// Under the header `Name  Id  Version  Available` and its dashed line, a
/// data line whose cells are padded to the header's columns is read back
/// to exactly those cells, and the token in the last column to the
/// available version.
pub proof fn lemma_padded_row_parses(
    name: Seq<char>,
    id: Seq<char>,
    version: Seq<char>,
    available: Seq<char>,
)
    requires
        tight(name) && one_line(name) && name.len() <= 6,
        tight(id) && one_line(id) && id.len() <= 4,
        tight(version) && one_line(version) && version.len() <= 9,
        is_token(available),
        !is_header_pair(name, id),
        reads_as_data(pad(name, 6) + pad(id, 4) + pad(version, 9) + available),
    ensures
        listing_records(
            "Name  Id  Version  Available"@ + "\n"@ + rule_text(6, 4, 9) + "\n"@ + (pad(name, 6)
                + pad(id, 4) + pad(version, 9) + available),
            true,
        ) == seq![record_of(name, id, version, Some(available))],
{
    lemma_plain_header();
    lemma_single_row(6, 4, 9, name, id, version, available);
}

} // verus!
