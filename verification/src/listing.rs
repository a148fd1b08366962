//! The parser for the package manager's column-aligned listings.
//!
//! A listing is read line by line. The first header line fixes the column
//! offsets; every line after the dashed separator is cut at those offsets. A
//! line that cannot be cut into a name, an id and a version is retried with
//! a regular expression.

use crate::bridge::{capture_groups, regex_captures};
use crate::models::{opt_text, PackageView, WingetPackage};
use crate::text::{
    contains, find, find_in, first_token, first_token_bounds, lines, range_is, starts_with,
    starts_with_in, str_eq, to_chars, to_text, trim, trim_bounds,
};
use vstd::prelude::*;

verus! {

/// The expression that rescues a row the column offsets could not cut: some
/// text, a gap of two or more blanks, a token, another such gap, a token.
pub const FALLBACK_PATTERN: &'static str =
    "^(?P<name>.*?)\\s{2,}(?P<id>[^\\s]+)\\s{2,}(?P<version>[^\\s]+)";

/// The value every parsed row carries as its source.
pub const SOURCE_NAME: &'static str = "winget";

/// The column offsets read from a header line, as character indices.
pub struct Layout {
    pub name_end: int,
    pub id_end: int,
    pub version_end: int,
    pub available_start: int,
}

/// Progress shown while the tool works: a spinner line or a progress bar.
pub open spec fn is_noise(t: Seq<char>) -> bool {
    starts_with(t, "\\"@) || contains(t, "\u{2588}\u{2588}"@) || contains(t, "\u{2592}"@)
}

/// A header line names the first column `Name` and has an `Id` column.
pub open spec fn is_header(t: Seq<char>) -> bool {
    starts_with(t, "Name"@) && contains(t, "Id"@)
}

/// The dashed line under the header.
pub open spec fn is_separator(t: Seq<char>) -> bool {
    starts_with(t, "---"@)
}

/// The offset at which `label` first occurs in `t`, or 0 when it does not.
pub open spec fn offset_of(t: Seq<char>, label: Seq<char>) -> int {
    match find(t, label) {
        Some(i) => i,
        None => 0,
    }
}

/// The column offsets that the header line `t` fixes. The version column
/// ends where `Available` starts, or else where `Source` starts.
pub open spec fn header_layout(t: Seq<char>) -> Layout {
    Layout {
        name_end: offset_of(t, "Id"@),
        id_end: offset_of(t, "Version"@),
        version_end: if contains(t, "Available"@) {
            offset_of(t, "Available"@)
        } else {
            offset_of(t, "Source"@)
        },
        available_start: offset_of(t, "Available"@),
    }
}

/// The name of a row: the characters before `name_end`.
pub open spec fn name_cell(l: Layout, line: Seq<char>) -> Seq<char> {
    trim(
        if l.name_end > 0 && line.len() >= l.name_end {
            line.take(l.name_end)
        } else {
            Seq::empty()
        },
    )
}

/// The id of a row: the characters between `name_end` and `id_end`, or all
/// that follows `name_end` on a line that ends before `id_end`.
pub open spec fn id_cell(l: Layout, line: Seq<char>) -> Seq<char> {
    trim(
        if l.id_end > l.name_end && line.len() >= l.id_end {
            line.subrange(l.name_end, l.id_end)
        } else if l.name_end > 0 && line.len() > l.name_end {
            line.skip(l.name_end)
        } else {
            Seq::empty()
        },
    )
}

/// The version of a row: the characters between `id_end` and `version_end`,
/// or all that follows `id_end` on a line that ends before `version_end`.
pub open spec fn version_cell(l: Layout, line: Seq<char>) -> Seq<char> {
    trim(
        if l.version_end > l.id_end && line.len() >= l.version_end {
            line.subrange(l.id_end, l.version_end)
        } else if l.id_end > 0 && line.len() > l.id_end {
            line.skip(l.id_end)
        } else {
            Seq::empty()
        },
    )
}

/// The available version of a row: in an upgrade listing with an
/// `Available` column, the first token at or after that column.
pub open spec fn available_cell(l: Layout, line: Seq<char>, upgrade: bool) -> Option<Seq<char>> {
    if upgrade && l.available_start > 0 && line.len() > l.available_start {
        first_token(line.skip(l.available_start))
    } else {
        None
    }
}

/// Whether a name and an id are the header's own labels.
pub open spec fn is_header_pair(name: Seq<char>, id: Seq<char>) -> bool {
    name == "Name"@ && id == "Id"@
}

/// The record that the capture groups of the fallback expression give. The
/// groups are the whole match, the name, the id and the version. A row
/// whose name or id is a header label, or is empty, is dropped.
pub open spec fn fallback_record(groups: Option<Seq<Option<Seq<char>>>>) -> Option<PackageView> {
    match groups {
        Some(g) => {
            if g.len() >= 4 && g[1] is Some && g[2] is Some && g[3] is Some {
                let name = trim(g[1]->0);
                let id = trim(g[2]->0);
                let version = trim(g[3]->0);
                if name != "Name"@ && id != "Id"@ && name.len() > 0 && id.len() > 0 {
                    Some(
                        PackageView {
                            id,
                            name,
                            version,
                            source: Some(SOURCE_NAME@),
                            available_version: None,
                        },
                    )
                } else {
                    None
                }
            } else {
                None
            }
        },
        None => None,
    }
}

/// The record of one data line under the layout `l`.
pub open spec fn row_record(l: Layout, line: Seq<char>, upgrade: bool) -> Option<PackageView> {
    let name = name_cell(l, line);
    let id = id_cell(l, line);
    let version = version_cell(l, line);
    if name.len() == 0 || id.len() == 0 || version.len() == 0 {
        fallback_record(regex_captures(FALLBACK_PATTERN@, line))
    } else if is_header_pair(name, id) {
        None
    } else {
        Some(
            PackageView {
                id,
                name,
                version,
                source: Some(SOURCE_NAME@),
                available_version: available_cell(l, line, upgrade),
            },
        )
    }
}

/// What the parser remembers between lines.
pub struct ScanState {
    pub header_found: bool,
    pub started: bool,
    pub layout: Layout,
}

/// The state before the first line.
pub open spec fn initial_state() -> ScanState {
    ScanState {
        header_found: false,
        started: false,
        layout: Layout { name_end: 0, id_end: 0, version_end: 0, available_start: 0 },
    }
}

/// One step of the parser: the state after `line`, and the record that the
/// line gives, if any.
pub open spec fn scan_line(st: ScanState, line: Seq<char>, upgrade: bool) -> (
    ScanState,
    Option<PackageView>,
) {
    let t = trim(line);
    if t.len() == 0 || is_noise(t) {
        (st, None)
    } else if !st.header_found && is_header(t) {
        (ScanState { header_found: true, started: st.started, layout: header_layout(t) }, None)
    } else if is_separator(t) {
        (ScanState { header_found: st.header_found, started: true, layout: st.layout }, None)
    } else if !st.started {
        (st, None)
    } else {
        (st, row_record(st.layout, line, upgrade))
    }
}

/// The parser run over `rows`: the final state and the records in order.
pub open spec fn scan(rows: Seq<Seq<char>>, upgrade: bool) -> (ScanState, Seq<PackageView>)
    decreases rows.len(),
{
    if rows.len() == 0 {
        (initial_state(), Seq::empty())
    } else {
        let (st, records) = scan(rows.drop_last(), upgrade);
        let (next, record) = scan_line(st, rows.last(), upgrade);
        (
            next,
            match record {
                Some(r) => records.push(r),
                None => records,
            },
        )
    }
}

/// The records of a listing.
pub open spec fn listing_records(text: Seq<char>, upgrade: bool) -> Seq<PackageView> {
    scan(lines(text), upgrade).1
}

/// What holds of every record that the parser gives.
pub open spec fn sound_record(r: PackageView, upgrade: bool) -> bool {
    &&& !is_header_pair(r.name, r.id)
    &&& r.name.len() > 0
    &&& r.id.len() > 0
    &&& r.source == Some(SOURCE_NAME@)
    &&& !upgrade ==> r.available_version is None
}

/// The record of a single line is sound.
pub proof fn lemma_line_sound(st: ScanState, line: Seq<char>, upgrade: bool)
    ensures
        scan_line(st, line, upgrade).1 matches Some(r) ==> sound_record(r, upgrade),
{
    let l = st.layout;
    let groups = regex_captures(FALLBACK_PATTERN@, line);
    assert(fallback_record(groups) matches Some(r) ==> sound_record(r, upgrade));
    assert(row_record(l, line, upgrade) matches Some(r) ==> sound_record(r, upgrade));
}

/// Every record of a scan is sound.
pub proof fn lemma_scan_sound(rows: Seq<Seq<char>>, upgrade: bool)
    ensures
        forall|i: int|
            0 <= i < scan(rows, upgrade).1.len() ==> sound_record(
                #[trigger] scan(rows, upgrade).1[i],
                upgrade,
            ),
    decreases rows.len(),
{
    if rows.len() > 0 {
        lemma_scan_sound(rows.drop_last(), upgrade);
        let (st, records) = scan(rows.drop_last(), upgrade);
        lemma_line_sound(st, rows.last(), upgrade);
        let all = scan(rows, upgrade).1;
        assert forall|i: int| 0 <= i < all.len() implies sound_record(
            #[trigger] all[i],
            upgrade,
        ) by {
            if i < records.len() {
                assert(all[i] == records[i]);
            }
        }
    }
}

/// A header row is never given as a record, wherever in the text it
/// stands and whichever way the line was read.
pub proof fn lemma_header_never_emitted(text: Seq<char>, upgrade: bool)
    ensures
        forall|i: int|
            0 <= i < listing_records(text, upgrade).len() ==> !((
            #[trigger] listing_records(text, upgrade)[i]).name == "Name"@ && listing_records(
                text,
                upgrade,
            )[i].id == "Id"@),
{
    lemma_scan_sound(lines(text), upgrade);
}

/// A listing that is not one of upgrades gives no available version, even
/// where the text has an `Available` column.
pub proof fn lemma_available_only_for_upgrades(text: Seq<char>)
    ensures
        forall|i: int|
            0 <= i < listing_records(text, false).len() ==> (#[trigger] listing_records(
                text,
                false,
            )[i]).available_version is None,
{
    lemma_scan_sound(lines(text), false);
}

/// The column offsets read from a header line, in executable form.
#[derive(Debug, Clone, Copy)]
pub struct HeaderLayout {
    pub name_end: usize,
    pub id_end: usize,
    pub version_end: usize,
    pub available_start: usize,
}

impl View for HeaderLayout {
    type V = Layout;

    open spec fn view(&self) -> Layout {
        Layout {
            name_end: self.name_end as int,
            id_end: self.id_end as int,
            version_end: self.version_end as int,
            available_start: self.available_start as int,
        }
    }
}

/// The parser's memory between lines, in executable form.
#[derive(Debug, Clone, Copy)]
pub struct Progress {
    pub header_found: bool,
    pub started: bool,
    pub layout: HeaderLayout,
}

impl View for Progress {
    type V = ScanState;

    open spec fn view(&self) -> ScanState {
        ScanState {
            header_found: self.header_found,
            started: self.started,
            layout: self.layout@,
        }
    }
}

/// The value of an optional package.
pub open spec fn opt_package(row: Option<WingetPackage>) -> Option<PackageView> {
    match row {
        Some(p) => Some(p@),
        None => None,
    }
}

/// The words the parser looks for, as characters.
pub struct Labels {
    name: Vec<char>,
    id: Vec<char>,
    version: Vec<char>,
    available: Vec<char>,
    source: Vec<char>,
    dashes: Vec<char>,
    spinner: Vec<char>,
    blocks: Vec<char>,
    shade: Vec<char>,
}

impl Labels {
    /// Every field holds the word it is named after.
    pub closed spec fn wf(&self) -> bool {
        &&& self.name@ == "Name"@
        &&& self.id@ == "Id"@
        &&& self.version@ == "Version"@
        &&& self.available@ == "Available"@
        &&& self.source@ == "Source"@
        &&& self.dashes@ == "---"@
        &&& self.spinner@ == "\\"@
        &&& self.blocks@ == "\u{2588}\u{2588}"@
        &&& self.shade@ == "\u{2592}"@
    }

    /// The words, ready for comparing.
    pub fn new() -> (labels: Labels)
        ensures
            labels.wf(),
    {
        Labels {
            name: to_chars("Name"),
            id: to_chars("Id"),
            version: to_chars("Version"),
            available: to_chars("Available"),
            source: to_chars("Source"),
            dashes: to_chars("---"),
            spinner: to_chars("\\"),
            blocks: to_chars("\u{2588}\u{2588}"),
            shade: to_chars("\u{2592}"),
        }
    }
}

/// `s` without leading and trailing whitespace, as an owned text.
pub fn trimmed(s: &str) -> (out: String)
    ensures
        out@ == trim(s@),
{
    let chars = to_chars(s);
    let (a, b) = trim_bounds(chars.as_slice(), 0, chars.len());
    assert(chars@.subrange(0, chars@.len() as int) == chars@);
    to_text(chars.as_slice(), a, b)
}

/// Turns the capture groups of the fallback expression into a record.
pub fn fallback_package(groups: &Option<Vec<Option<String>>>) -> (row: Option<WingetPackage>)
    ensures
        opt_package(row) == fallback_record(groups.deep_view()),
{
    match groups {
        Some(g) => {
            if g.len() < 4 {
                return None;
            }
            proof {
                let d = g.deep_view();
                assert(groups.deep_view() == Some(d));
                assert(d[1] == g@[1].deep_view());
                assert(d[2] == g@[2].deep_view());
                assert(d[3] == g@[3].deep_view());
            }
            match (&g[1], &g[2], &g[3]) {
                (Some(raw_name), Some(raw_id), Some(raw_version)) => {
                    let name = trimmed(raw_name.as_str());
                    let id = trimmed(raw_id.as_str());
                    let version = trimmed(raw_version.as_str());
                    if !str_eq(name.as_str(), "Name") && !str_eq(id.as_str(), "Id")
                        && !name.as_str().is_empty() && !id.as_str().is_empty() {
                        Some(
                            WingetPackage {
                                id,
                                name,
                                version,
                                source: Some(SOURCE_NAME.to_owned()),
                                available_version: None,
                            },
                        )
                    } else {
                        None
                    }
                },
                _ => None,
            }
        },
        None => None,
    }
}

/// Reads the column offsets from the header line `chars[from..to]`.
pub fn read_header(chars: &[char], from: usize, to: usize, labels: &Labels) -> (layout:
    HeaderLayout)
    requires
        from <= to <= chars.len(),
        labels.wf(),
    ensures
        layout@ == header_layout(chars@.subrange(from as int, to as int)),
{
    let name_end = match find_in(chars, from, to, labels.id.as_slice()) {
        Some(i) => i,
        None => 0,
    };
    let id_end = match find_in(chars, from, to, labels.version.as_slice()) {
        Some(i) => i,
        None => 0,
    };
    let source_at = match find_in(chars, from, to, labels.source.as_slice()) {
        Some(i) => i,
        None => 0,
    };
    match find_in(chars, from, to, labels.available.as_slice()) {
        Some(i) => HeaderLayout { name_end, id_end, version_end: i, available_start: i },
        None => HeaderLayout { name_end, id_end, version_end: source_at, available_start: 0 },
    }
}

/// The bounds of the name of the data line `chars[from..to]`.
pub fn name_bounds(chars: &[char], from: usize, to: usize, layout: &HeaderLayout) -> (r: (
    usize,
    usize,
))
    requires
        from <= to <= chars.len(),
    ensures
        from <= r.0 <= r.1 <= to,
        chars@.subrange(r.0 as int, r.1 as int) == name_cell(
            layout@,
            chars@.subrange(from as int, to as int),
        ),
{
    let ghost line = chars@.subrange(from as int, to as int);
    let len = to - from;
    let end = if layout.name_end > 0 && len >= layout.name_end {
        assert(chars@.subrange(from as int, from + layout.name_end) == line.take(
            layout.name_end as int,
        ));
        from + layout.name_end
    } else {
        assert(chars@.subrange(from as int, from as int) == Seq::<char>::empty());
        from
    };
    trim_bounds(chars, from, end)
}

/// The bounds of the id of the data line `chars[from..to]`.
pub fn id_bounds(chars: &[char], from: usize, to: usize, layout: &HeaderLayout) -> (r: (
    usize,
    usize,
))
    requires
        from <= to <= chars.len(),
    ensures
        from <= r.0 <= r.1 <= to,
        chars@.subrange(r.0 as int, r.1 as int) == id_cell(
            layout@,
            chars@.subrange(from as int, to as int),
        ),
{
    let ghost line = chars@.subrange(from as int, to as int);
    let len = to - from;
    if layout.id_end > layout.name_end && len >= layout.id_end {
        assert(chars@.subrange(from + layout.name_end, from + layout.id_end) == line.subrange(
            layout.name_end as int,
            layout.id_end as int,
        ));
        trim_bounds(chars, from + layout.name_end, from + layout.id_end)
    } else if layout.name_end > 0 && len > layout.name_end {
        assert(chars@.subrange(from + layout.name_end, to as int) == line.skip(
            layout.name_end as int,
        ));
        trim_bounds(chars, from + layout.name_end, to)
    } else {
        assert(chars@.subrange(from as int, from as int) == Seq::<char>::empty());
        trim_bounds(chars, from, from)
    }
}

/// The bounds of the version of the data line `chars[from..to]`.
pub fn version_bounds(chars: &[char], from: usize, to: usize, layout: &HeaderLayout) -> (r: (
    usize,
    usize,
))
    requires
        from <= to <= chars.len(),
    ensures
        from <= r.0 <= r.1 <= to,
        chars@.subrange(r.0 as int, r.1 as int) == version_cell(
            layout@,
            chars@.subrange(from as int, to as int),
        ),
{
    let ghost line = chars@.subrange(from as int, to as int);
    let len = to - from;
    if layout.version_end > layout.id_end && len >= layout.version_end {
        assert(chars@.subrange(from + layout.id_end, from + layout.version_end) == line.subrange(
            layout.id_end as int,
            layout.version_end as int,
        ));
        trim_bounds(chars, from + layout.id_end, from + layout.version_end)
    } else if layout.id_end > 0 && len > layout.id_end {
        assert(chars@.subrange(from + layout.id_end, to as int) == line.skip(
            layout.id_end as int,
        ));
        trim_bounds(chars, from + layout.id_end, to)
    } else {
        assert(chars@.subrange(from as int, from as int) == Seq::<char>::empty());
        trim_bounds(chars, from, from)
    }
}

/// The available version of the data line `chars[from..to]`.
pub fn available_text(
    chars: &[char],
    from: usize,
    to: usize,
    layout: &HeaderLayout,
    upgrade: bool,
) -> (text: Option<String>)
    requires
        from <= to <= chars.len(),
    ensures
        opt_text(text) == available_cell(
            layout@,
            chars@.subrange(from as int, to as int),
            upgrade,
        ),
{
    let ghost line = chars@.subrange(from as int, to as int);
    if upgrade && layout.available_start > 0 && to - from > layout.available_start {
        let at = from + layout.available_start;
        assert(chars@.subrange(at as int, to as int) == line.skip(layout.available_start as int));
        match first_token_bounds(chars, at, to) {
            Some((a, b)) => Some(to_text(chars, a, b)),
            None => None,
        }
    } else {
        None
    }
}

/// Retries the data line `chars[from..to]` with the fallback expression.
pub fn rescue_row(chars: &[char], from: usize, to: usize) -> (row: Option<WingetPackage>)
    requires
        from <= to <= chars.len(),
    ensures
        opt_package(row) == fallback_record(
            regex_captures(FALLBACK_PATTERN@, chars@.subrange(from as int, to as int)),
        ),
{
    let text = to_text(chars, from, to);
    let groups = capture_groups(FALLBACK_PATTERN, text.as_str());
    fallback_package(&groups)
}

/// Cuts the data line `chars[from..to]` at the column offsets, and falls
/// back to the regular expression when a cell comes out empty.
pub fn cut_row(
    chars: &[char],
    from: usize,
    to: usize,
    layout: &HeaderLayout,
    upgrade: bool,
    labels: &Labels,
) -> (row: Option<WingetPackage>)
    requires
        from <= to <= chars.len(),
        labels.wf(),
    ensures
        opt_package(row) == row_record(layout@, chars@.subrange(from as int, to as int), upgrade),
{
    let (n0, n1) = name_bounds(chars, from, to, layout);
    let (i0, i1) = id_bounds(chars, from, to, layout);
    let (v0, v1) = version_bounds(chars, from, to, layout);
    if n0 == n1 || i0 == i1 || v0 == v1 {
        return rescue_row(chars, from, to);
    }
    if range_is(chars, n0, n1, labels.name.as_slice()) && range_is(
        chars,
        i0,
        i1,
        labels.id.as_slice(),
    ) {
        return None;
    }
    let available = available_text(chars, from, to, layout, upgrade);
    Some(
        WingetPackage {
            id: to_text(chars, i0, i1),
            name: to_text(chars, n0, n1),
            version: to_text(chars, v0, v1),
            source: Some(SOURCE_NAME.to_owned()),
            available_version: available,
        },
    )
}

/// Reads one line, `chars[from..to]`: updates the parser's memory and gives
/// the record of the line, if it is a data line that yields one.
pub fn scan_row(
    chars: &[char],
    from: usize,
    to: usize,
    state: Progress,
    upgrade: bool,
    labels: &Labels,
) -> (r: (Progress, Option<WingetPackage>))
    requires
        from <= to <= chars.len(),
        labels.wf(),
    ensures
        (r.0@, opt_package(r.1)) == scan_line(
            state@,
            chars@.subrange(from as int, to as int),
            upgrade,
        ),
{
    let (a, b) = trim_bounds(chars, from, to);
    if a == b {
        return (state, None);
    }
    if starts_with_in(chars, a, b, labels.spinner.as_slice()) {
        return (state, None);
    }
    if find_in(chars, a, b, labels.blocks.as_slice()).is_some() {
        return (state, None);
    }
    if find_in(chars, a, b, labels.shade.as_slice()).is_some() {
        return (state, None);
    }
    if !state.header_found && starts_with_in(chars, a, b, labels.name.as_slice()) && find_in(
        chars,
        a,
        b,
        labels.id.as_slice(),
    ).is_some() {
        let layout = read_header(chars, a, b, labels);
        return (Progress { header_found: true, started: state.started, layout }, None);
    }
    if starts_with_in(chars, a, b, labels.dashes.as_slice()) {
        return (
            Progress { header_found: state.header_found, started: true, layout: state.layout },
            None,
        );
    }
    if !state.started {
        return (state, None);
    }
    let row = cut_row(chars, from, to, &state.layout, upgrade, labels);
    (state, row)
}

} // verus!
