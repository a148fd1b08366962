//! Listings written as column-aligned text: a header, a dashed line, and
//! one padded data line for each package.

use crate::listing::Layout;
use crate::models::{package_views, PackageView, WingetPackage};
use vstd::prelude::*;

verus! {

/// `n` times the character `c`.
pub open spec fn repeated(c: char, n: int) -> Seq<char> {
    Seq::new(
        if n > 0 {
            n as nat
        } else {
            0
        },
        |i: int| c,
    )
}

/// `n` blanks.
pub open spec fn blanks(n: int) -> Seq<char> {
    repeated(' ', n)
}

/// `cell` filled up with blanks to `width` characters.
pub open spec fn pad(cell: Seq<char>, width: int) -> Seq<char> {
    cell + blanks(width - cell.len())
}

/// The label of the column after the version: `Available` in a listing of
/// upgrades, `Source` in any other.
pub open spec fn last_label(upgrade: bool) -> Seq<char> {
    if upgrade {
        "Available"@
    } else {
        "Source"@
    }
}

/// A header line whose first three columns are `w1`, `w2` and `w3`
/// characters wide.
pub open spec fn header_text(w1: int, w2: int, w3: int, upgrade: bool) -> Seq<char> {
    pad("Name"@, w1) + pad("Id"@, w2) + pad("Version"@, w3) + last_label(upgrade)
}

/// The dashed line under a header with the widths `w1`, `w2` and `w3`.
pub open spec fn rule_text(w1: int, w2: int, w3: int) -> Seq<char> {
    repeated('-', w1 + w2 + w3)
}

/// The column offsets of a header with those widths.
pub open spec fn layout_of(w1: int, w2: int, w3: int, upgrade: bool) -> Layout {
    Layout {
        name_end: w1,
        id_end: w1 + w2,
        version_end: w1 + w2 + w3,
        available_start: if upgrade {
            w1 + w2 + w3
        } else {
            0
        },
    }
}

/// The blanks between a column's widest cell and the next column.
pub open spec fn gutter() -> int {
    2
}

/// The width of the widest of `cells`, and at least `floor`.
pub open spec fn widest(cells: Seq<Seq<char>>, floor: int) -> int
    decreases cells.len(),
{
    if cells.len() == 0 {
        floor
    } else {
        let w = widest(cells.drop_last(), floor);
        if cells.last().len() > w {
            cells.last().len() as int
        } else {
            w
        }
    }
}

/// The names of `records`, in order.
pub open spec fn names(records: Seq<PackageView>) -> Seq<Seq<char>> {
    Seq::new(records.len(), |i: int| records[i].name)
}

/// The ids of `records`, in order.
pub open spec fn ids(records: Seq<PackageView>) -> Seq<Seq<char>> {
    Seq::new(records.len(), |i: int| records[i].id)
}

/// The versions of `records`, in order.
pub open spec fn versions(records: Seq<PackageView>) -> Seq<Seq<char>> {
    Seq::new(records.len(), |i: int| records[i].version)
}

/// The column offsets of the table that shows `records`: every column is
/// as wide as its label or its widest cell, and a gutter.
pub open spec fn table_layout(records: Seq<PackageView>, upgrade: bool) -> Layout {
    layout_of(
        widest(names(records), 4) + gutter(),
        widest(ids(records), 2) + gutter(),
        widest(versions(records), 7) + gutter(),
        upgrade,
    )
}

/// What a row shows after its version: the available version in a listing
/// of upgrades, the source in any other.
pub open spec fn tail_of(r: PackageView, upgrade: bool) -> Seq<char> {
    let shown = if upgrade {
        r.available_version
    } else {
        r.source
    };
    match shown {
        Some(text) => text,
        None => Seq::empty(),
    }
}

/// A data line: the three cells, each padded to its column, and what
/// follows the version column.
pub open spec fn row_text(
    l: Layout,
    name: Seq<char>,
    id: Seq<char>,
    version: Seq<char>,
    tail: Seq<char>,
) -> Seq<char> {
    pad(name, l.name_end) + pad(id, l.id_end - l.name_end) + pad(version, l.version_end - l.id_end)
        + tail
}

/// The data line of `r` in a table with the offsets `l`.
pub open spec fn row_of(l: Layout, r: PackageView, upgrade: bool) -> Seq<char> {
    row_text(l, r.name, r.id, r.version, tail_of(r, upgrade))
}

/// The data lines of `records`, each followed by a line feed.
pub open spec fn body_text(l: Layout, records: Seq<PackageView>, upgrade: bool) -> Seq<char>
    decreases records.len(),
{
    if records.len() == 0 {
        Seq::empty()
    } else {
        body_text(l, records.drop_last(), upgrade) + row_of(l, records.last(), upgrade) + "\n"@
    }
}

/// `records` as a listing: the header, the dashed line, and one data line
/// for each record.
pub open spec fn listing_text(records: Seq<PackageView>, upgrade: bool) -> Seq<char> {
    let l = table_layout(records, upgrade);
    header_text(l.name_end, l.id_end - l.name_end, l.version_end - l.id_end, upgrade) + "\n"@
        + rule_text(l.name_end, l.id_end - l.name_end, l.version_end - l.id_end) + "\n"@
        + body_text(l, records, upgrade)
}

/// No cell is wider than `widest` says.
pub proof fn lemma_widest(cells: Seq<Seq<char>>, floor: int)
    ensures
        widest(cells, floor) >= floor,
        forall|i: int| 0 <= i < cells.len() ==> (#[trigger] cells[i]).len() <= widest(cells, floor),
    decreases cells.len(),
{
    if cells.len() > 0 {
        let rest = cells.drop_last();
        lemma_widest(rest, floor);
        assert forall|i: int| 0 <= i < cells.len() implies (#[trigger] cells[i]).len() <= widest(
            cells,
            floor,
        ) by {
            if i < rest.len() {
                assert(cells[i] == rest[i]);
            }
        }
    }
}

/// Appends `n` times the character `c` to `out`.
pub fn push_repeated(out: &mut String, c: char, n: usize)
    ensures
        final(out)@ == old(out)@ + repeated(c, n as int),
{
    let mut i: usize = 0;
    assert(out@ + repeated(c, 0) == out@);
    while i < n
        invariant
            i <= n,
            out@ == old(out)@ + repeated(c, i as int),
        decreases n - i,
    {
        out.push(c);
        assert(repeated(c, i as int).push(c) == repeated(c, i + 1));
        assert((old(out)@ + repeated(c, i as int)).push(c) == old(out)@ + repeated(c, i + 1));
        i += 1;
    }
}

/// Appends `cell` to `out`, filled up with blanks to `width` characters and
/// followed by the gutter.
pub fn push_cell(out: &mut String, cell: &str, width: usize)
    requires
        cell@.len() <= width,
    ensures
        final(out)@ == old(out)@ + pad(cell@, width + gutter()),
{
    let len = cell.unicode_len();
    out.append(cell);
    push_repeated(out, ' ', width - len);
    push_repeated(out, ' ', 2);
    assert(repeated(' ', width - len) + repeated(' ', 2) == blanks(width + gutter() - len));
    assert(old(out)@ + cell@ + repeated(' ', width - len) + repeated(' ', 2) == old(out)@ + (cell@
        + (repeated(' ', width - len) + repeated(' ', 2))));
}

/// The larger of a width and the length of a cell.
pub fn wider(width: usize, cell: &str) -> (w: usize)
    ensures
        w == if cell@.len() > width {
            cell@.len() as int
        } else {
            width as int
        },
{
    let len = cell.unicode_len();
    if len > width {
        len
    } else {
        width
    }
}

/// The widths of the three columns of the table that shows `packages`,
/// without the gutter.
pub fn column_widths(packages: &Vec<WingetPackage>) -> (w: (usize, usize, usize))
    ensures
        w.0 == widest(names(package_views(packages@)), 4),
        w.1 == widest(ids(package_views(packages@)), 2),
        w.2 == widest(versions(package_views(packages@)), 7),
{
    let ghost records = package_views(packages@);
    let mut w1: usize = 4;
    let mut w2: usize = 2;
    let mut w3: usize = 7;
    let mut i: usize = 0;
    while i < packages.len()
        invariant
            i <= packages.len(),
            records == package_views(packages@),
            w1 == widest(names(records).take(i as int), 4),
            w2 == widest(ids(records).take(i as int), 2),
            w3 == widest(versions(records).take(i as int), 7),
        decreases packages.len() - i,
    {
        proof {
            assert(names(records).take(i + 1).drop_last() == names(records).take(i as int));
            assert(ids(records).take(i + 1).drop_last() == ids(records).take(i as int));
            assert(versions(records).take(i + 1).drop_last() == versions(records).take(i as int));
            assert(names(records).take(i + 1).last() == packages@[i as int].name@);
            assert(ids(records).take(i + 1).last() == packages@[i as int].id@);
            assert(versions(records).take(i + 1).last() == packages@[i as int].version@);
        }
        let p = &packages[i];
        w1 = wider(w1, p.name.as_str());
        w2 = wider(w2, p.id.as_str());
        w3 = wider(w3, p.version.as_str());
        i += 1;
    }
    proof {
        assert(names(records).take(packages@.len() as int) == names(records));
        assert(ids(records).take(packages@.len() as int) == ids(records));
        assert(versions(records).take(packages@.len() as int) == versions(records));
    }
    (w1, w2, w3)
}

/// Appends the data line of `package`, with its line feed, to `out`.
pub fn push_row(
    out: &mut String,
    package: &WingetPackage,
    w1: usize,
    w2: usize,
    w3: usize,
    upgrade: bool,
)
    requires
        package@.name.len() <= w1,
        package@.id.len() <= w2,
        package@.version.len() <= w3,
    ensures
        final(out)@ == old(out)@ + row_of(
            layout_of(w1 + gutter(), w2 + gutter(), w3 + gutter(), upgrade),
            package@,
            upgrade,
        ) + "\n"@,
{
    let ghost l = layout_of(w1 + gutter(), w2 + gutter(), w3 + gutter(), upgrade);
    let ghost start = out@;
    push_cell(out, package.name.as_str(), w1);
    push_cell(out, package.id.as_str(), w2);
    push_cell(out, package.version.as_str(), w3);
    let ghost cells = pad(package@.name, l.name_end) + pad(package@.id, l.id_end - l.name_end)
        + pad(package@.version, l.version_end - l.id_end);
    assert(out@ == start + cells);
    let shown = if upgrade {
        &package.available_version
    } else {
        &package.source
    };
    match shown {
        Some(text) => {
            out.append(text.as_str());
        },
        None => {
            assert(out@ + Seq::<char>::empty() == out@);
        },
    }
    assert(out@ == start + cells + tail_of(package@, upgrade));
    out.append("\n");
    assert(start + cells + tail_of(package@, upgrade) + "\n"@ == start + (cells + tail_of(
        package@,
        upgrade,
    )) + "\n"@);
}

/// Writes `packages` as a listing: the header, the dashed line, and one
/// data line for each package. Every column is as wide as its label or its
/// widest cell, and two blanks. The last column shows the available
/// version in a listing of upgrades, the source in any other.
pub fn render_listing(packages: &Vec<WingetPackage>, upgrade: bool) -> (text: String)
    ensures
        text@ == listing_text(package_views(packages@), upgrade),
{
    let ghost records = package_views(packages@);
    let ghost l = table_layout(records, upgrade);
    let (w1, w2, w3) = column_widths(packages);
    proof {
        lemma_widest(names(records), 4);
        lemma_widest(ids(records), 2);
        lemma_widest(versions(records), 7);
        reveal_strlit("Name");
        reveal_strlit("Id");
        reveal_strlit("Version");
        assert(l == layout_of(w1 + gutter(), w2 + gutter(), w3 + gutter(), upgrade));
    }
    let mut out = String::new();
    push_cell(&mut out, "Name", w1);
    push_cell(&mut out, "Id", w2);
    push_cell(&mut out, "Version", w3);
    if upgrade {
        out.append("Available");
    } else {
        out.append("Source");
    }
    let ghost header = header_text(w1 + gutter(), w2 + gutter(), w3 + gutter(), upgrade);
    assert(out@ == header);
    out.append("\n");
    push_repeated(&mut out, '-', w1);
    push_repeated(&mut out, '-', 2);
    push_repeated(&mut out, '-', w2);
    push_repeated(&mut out, '-', 2);
    push_repeated(&mut out, '-', w3);
    push_repeated(&mut out, '-', 2);
    let ghost rule = rule_text(w1 + gutter(), w2 + gutter(), w3 + gutter());
    proof {
        assert(repeated('-', w1 as int) + repeated('-', 2) + repeated('-', w2 as int) + repeated(
            '-',
            2,
        ) + repeated('-', w3 as int) + repeated('-', 2) == rule);
        assert(out@ == header + "\n"@ + (repeated('-', w1 as int) + repeated('-', 2) + repeated(
            '-',
            w2 as int,
        ) + repeated('-', 2) + repeated('-', w3 as int) + repeated('-', 2)));
    }
    out.append("\n");
    let ghost head = header + "\n"@ + rule + "\n"@;
    assert(out@ == head);
    assert(head + body_text(l, records.take(0), upgrade) == head);
    let mut i: usize = 0;
    while i < packages.len()
        invariant
            i <= packages.len(),
            records == package_views(packages@),
            l == layout_of(w1 + gutter(), w2 + gutter(), w3 + gutter(), upgrade),
            forall|k: int| 0 <= k < records.len() ==> (#[trigger] names(records)[k]).len() <= w1,
            forall|k: int| 0 <= k < records.len() ==> (#[trigger] ids(records)[k]).len() <= w2,
            forall|k: int| 0 <= k < records.len() ==> (#[trigger] versions(records)[k]).len() <= w3,
            out@ == head + body_text(l, records.take(i as int), upgrade),
        decreases packages.len() - i,
    {
        let ghost before = body_text(l, records.take(i as int), upgrade);
        proof {
            assert(names(records)[i as int] == packages@[i as int]@.name);
            assert(ids(records)[i as int] == packages@[i as int]@.id);
            assert(versions(records)[i as int] == packages@[i as int]@.version);
            assert(records.take(i + 1).drop_last() == records.take(i as int));
            assert(records.take(i + 1).last() == packages@[i as int]@);
        }
        push_row(&mut out, &packages[i], w1, w2, w3, upgrade);
        proof {
            let row = row_of(l, packages@[i as int]@, upgrade);
            assert(head + before + row + "\n"@ == head + (before + row + "\n"@));
        }
        i += 1;
    }
    assert(records.take(packages@.len() as int) == records);
    out
}

} // verus!
