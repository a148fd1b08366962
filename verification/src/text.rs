//! Character-level text utilities shared by the validator, the executor and
//! the listing parser.
//!
//! Text is modelled as `Seq<char>`. The executable functions work on a
//! `[char]` buffer and on index ranges into it, so that scanning a large
//! output blob never copies more than the fields that are finally kept.

use vstd::prelude::*;
use vstd::utf8::encode_utf8_decode_utf8;

verus! {

/// Appending one character with `String::push` extends the text by exactly
/// that character, as the standard library documents.
pub assume_specification[ String::push ](s: &mut String, ch: char)
    ensures
        final(s)@ == old(s)@.push(ch),
;

/// Whether `c` carries the Unicode `White_Space` property.
pub open spec fn is_whitespace(c: char) -> bool {
    let u = c as u32;
    ||| 0x09 <= u <= 0x0D
    ||| u == 0x20
    ||| u == 0x85
    ||| u == 0xA0
    ||| u == 0x1680
    ||| 0x2000 <= u <= 0x200A
    ||| u == 0x2028
    ||| u == 0x2029
    ||| u == 0x202F
    ||| u == 0x205F
    ||| u == 0x3000
}

/// `s` without its leading whitespace.
pub open spec fn trim_start(s: Seq<char>) -> Seq<char>
    decreases s.len(),
{
    if s.len() > 0 && is_whitespace(s[0]) {
        trim_start(s.drop_first())
    } else {
        s
    }
}

/// `s` without its trailing whitespace.
pub open spec fn trim_end(s: Seq<char>) -> Seq<char>
    decreases s.len(),
{
    if s.len() > 0 && is_whitespace(s.last()) {
        trim_end(s.drop_last())
    } else {
        s
    }
}

/// `s` without leading and trailing whitespace.
pub open spec fn trim(s: Seq<char>) -> Seq<char> {
    trim_end(trim_start(s))
}

/// Whether `s` begins with `p`.
pub open spec fn starts_with(s: Seq<char>, p: Seq<char>) -> bool {
    p.len() <= s.len() && s.take(p.len() as int) == p
}

/// Whether `p` occurs in `s` at offset `i`.
pub open spec fn occurs_at(s: Seq<char>, p: Seq<char>, i: int) -> bool {
    0 <= i && i + p.len() <= s.len() && s.subrange(i, i + p.len()) == p
}

/// Whether `p` occurs anywhere in `s`.
pub open spec fn contains(s: Seq<char>, p: Seq<char>) -> bool {
    exists|i: int| occurs_at(s, p, i)
}

/// Whether `i` is the offset of the first occurrence of `p` in `s`.
pub open spec fn first_occurrence(s: Seq<char>, p: Seq<char>, i: int) -> bool {
    occurs_at(s, p, i) && forall|j: int| 0 <= j < i ==> !occurs_at(s, p, j)
}

/// The offset of the first occurrence of `p` in `s`, if there is one.
pub open spec fn find(s: Seq<char>, p: Seq<char>) -> Option<int> {
    if contains(s, p) {
        Some(choose|i: int| first_occurrence(s, p, i))
    } else {
        None
    }
}

/// The number of characters before the first line feed of `s`, or the length
/// of `s` when it holds none.
pub open spec fn line_len(s: Seq<char>) -> int
    decreases s.len(),
{
    if s.len() == 0 || s[0] == '\n' {
        0
    } else {
        1 + line_len(s.drop_first())
    }
}

/// `line` without one trailing carriage return.
pub open spec fn strip_cr(line: Seq<char>) -> Seq<char> {
    if line.len() > 0 && line.last() == '\r' {
        line.drop_last()
    } else {
        line
    }
}

/// The lines of `text`. A line ends at a line feed, or at a carriage return
/// directly followed by one; the terminator is not part of the line. A last
/// line without a terminator is kept as it is, and text that ends in a
/// terminator has no empty line after it.
pub open spec fn lines(text: Seq<char>) -> Seq<Seq<char>>
    decreases text.len(),
{
    if text.len() == 0 {
        Seq::empty()
    } else {
        let k = line_len(text);
        if 0 <= k < text.len() {
            seq![strip_cr(text.take(k))] + lines(text.skip(k + 1))
        } else {
            seq![text]
        }
    }
}

/// The number of characters before the first whitespace of `s`, or the
/// length of `s` when it holds none.
pub open spec fn token_len(s: Seq<char>) -> int
    decreases s.len(),
{
    if s.len() == 0 || is_whitespace(s[0]) {
        0
    } else {
        1 + token_len(s.drop_first())
    }
}

/// The first whitespace-delimited token of `s`, if `s` is not all whitespace.
pub open spec fn first_token(s: Seq<char>) -> Option<Seq<char>> {
    let t = trim_start(s);
    if t.len() == 0 {
        None
    } else {
        Some(t.take(token_len(t)))
    }
}

/// Whether `s` holds no line feed.
pub open spec fn one_line(s: Seq<char>) -> bool {
    forall|i: int| 0 <= i < s.len() ==> #[trigger] s[i] != '\n'
}

/// `parts` joined with `sep` between neighbours.
pub open spec fn join(parts: Seq<Seq<char>>, sep: Seq<char>) -> Seq<char>
    decreases parts.len(),
{
    if parts.len() == 0 {
        Seq::empty()
    } else if parts.len() == 1 {
        parts[0]
    } else {
        join(parts.drop_last(), sep) + sep + parts.last()
    }
}

/// The character views of a list of string slices.
pub open spec fn views(items: Seq<&str>) -> Seq<Seq<char>> {
    Seq::new(items.len(), |i: int| items[i]@)
}

/// `trim_start` removes exactly the leading run of whitespace.
pub proof fn lemma_trim_start(s: Seq<char>, a: int)
    requires
        0 <= a <= s.len(),
        forall|i: int| 0 <= i < a ==> is_whitespace(#[trigger] s[i]),
        a < s.len() ==> !is_whitespace(s[a]),
    ensures
        trim_start(s) == s.skip(a),
    decreases a,
{
    if a == 0 {
        assert(s.skip(0) == s);
    } else {
        let rest = s.drop_first();
        assert forall|i: int| 0 <= i < a - 1 implies is_whitespace(#[trigger] rest[i]) by {
            assert(rest[i] == s[i + 1]);
        }
        lemma_trim_start(rest, a - 1);
        assert(rest.skip(a - 1) == s.skip(a));
    }
}

/// `trim_end` removes exactly the trailing run of whitespace.
pub proof fn lemma_trim_end(s: Seq<char>, b: int)
    requires
        0 <= b <= s.len(),
        forall|i: int| b <= i < s.len() ==> is_whitespace(#[trigger] s[i]),
        b > 0 ==> !is_whitespace(s[b - 1]),
    ensures
        trim_end(s) == s.take(b),
    decreases s.len() - b,
{
    if b == s.len() {
        assert(s.take(b) == s);
    } else {
        let rest = s.drop_last();
        lemma_trim_end(rest, b);
        assert(rest.take(b) == s.take(b));
    }
}

/// `trim` keeps exactly the range between the leading and the trailing run
/// of whitespace.
pub proof fn lemma_trim(s: Seq<char>, a: int, b: int)
    requires
        0 <= a <= b <= s.len(),
        forall|i: int| 0 <= i < a ==> is_whitespace(#[trigger] s[i]),
        forall|i: int| b <= i < s.len() ==> is_whitespace(#[trigger] s[i]),
        a < s.len() ==> !is_whitespace(s[a]),
        b > a ==> !is_whitespace(s[b - 1]),
    ensures
        trim(s) == s.subrange(a, b),
{
    lemma_trim_start(s, a);
    let t = s.skip(a);
    assert forall|i: int| b - a <= i < t.len() implies is_whitespace(#[trigger] t[i]) by {
        assert(t[i] == s[i + a]);
    }
    if b > a {
        assert(t[b - a - 1] == s[b - 1]);
    }
    lemma_trim_end(t, b - a);
    assert(t.take(b - a) == s.subrange(a, b));
}

/// `line_len` stops at the first line feed.
pub proof fn lemma_line_len(s: Seq<char>, k: int)
    requires
        0 <= k <= s.len(),
        forall|i: int| 0 <= i < k ==> #[trigger] s[i] != '\n',
        k < s.len() ==> s[k] == '\n',
    ensures
        line_len(s) == k,
    decreases k,
{
    if k > 0 {
        let rest = s.drop_first();
        assert forall|i: int| 0 <= i < k - 1 implies #[trigger] rest[i] != '\n' by {
            assert(rest[i] == s[i + 1]);
        }
        lemma_line_len(rest, k - 1);
    }
}

/// `token_len` stops at the first whitespace.
pub proof fn lemma_token_len(s: Seq<char>, k: int)
    requires
        0 <= k <= s.len(),
        forall|i: int| 0 <= i < k ==> !is_whitespace(#[trigger] s[i]),
        k < s.len() ==> is_whitespace(s[k]),
    ensures
        token_len(s) == k,
    decreases k,
{
    if k > 0 {
        let rest = s.drop_first();
        assert forall|i: int| 0 <= i < k - 1 implies !is_whitespace(#[trigger] rest[i]) by {
            assert(rest[i] == s[i + 1]);
        }
        lemma_token_len(rest, k - 1);
    }
}

/// A first occurrence, once exhibited, is what `find` returns.
pub proof fn lemma_find(s: Seq<char>, p: Seq<char>, i: int)
    requires
        first_occurrence(s, p, i),
    ensures
        find(s, p) == Some(i),
{
    assert(occurs_at(s, p, i));
    let j = choose|j: int| first_occurrence(s, p, j);
    assert(first_occurrence(s, p, j));
    if j < i {
        assert(!occurs_at(s, p, j));
    }
    if i < j {
        assert(!occurs_at(s, p, i));
    }
}

/// An occurrence of a pattern starts with the pattern's first character.
pub proof fn lemma_occurrence_starts(s: Seq<char>, p: Seq<char>, j: int)
    requires
        p.len() > 0,
        occurs_at(s, p, j),
    ensures
        0 <= j < s.len(),
        s[j] == p[0],
{
    assert(s.subrange(j, j + p.len())[0] == s[j]);
}

/// `line_len` counts the characters before the first line feed.
pub proof fn lemma_line_len_bounds(s: Seq<char>)
    ensures
        0 <= line_len(s) <= s.len(),
        forall|i: int| 0 <= i < line_len(s) ==> #[trigger] s[i] != '\n',
        line_len(s) < s.len() ==> s[line_len(s)] == '\n',
    decreases s.len(),
{
    if s.len() == 0 || s[0] == '\n' {
    } else {
        let rest = s.drop_first();
        lemma_line_len_bounds(rest);
        assert forall|i: int| 0 <= i < line_len(s) implies #[trigger] s[i] != '\n' by {
            if i > 0 {
                assert(s[i] == rest[i - 1]);
            }
        }
        if line_len(s) < s.len() {
            assert(s[line_len(s)] == rest[line_len(rest)]);
        }
    }
}

/// Text that is empty or ends in a line feed splits into lines
/// independently of what follows it.
pub proof fn lemma_lines_append(a: Seq<char>, b: Seq<char>)
    requires
        a.len() > 0 ==> a.last() == '\n',
    ensures
        lines(a + b) == lines(a) + lines(b),
    decreases a.len(),
{
    if a.len() == 0 {
        assert(a + b == b);
        assert(lines(a) + lines(b) == lines(b));
    } else {
        let k = line_len(a);
        lemma_line_len_bounds(a);
        assert(a[a.len() - 1] == '\n');
        assert(k < a.len()) by {
            if k == a.len() {
                assert(a[a.len() - 1] != '\n');
            }
        }
        let ab = a + b;
        assert forall|i: int| 0 <= i < k implies #[trigger] ab[i] != '\n' by {
            assert(ab[i] == a[i]);
        }
        assert(ab[k] == a[k]);
        lemma_line_len(ab, k);
        assert(ab.take(k) == a.take(k));
        let rest = a.skip(k + 1);
        assert(ab.skip(k + 1) == rest + b);
        if rest.len() > 0 {
            assert(rest.last() == a.last());
        }
        lemma_lines_append(rest, b);
        assert(seq![strip_cr(a.take(k))] + (lines(rest) + lines(b)) == (seq![strip_cr(a.take(k))]
            + lines(rest)) + lines(b));
    }
}

/// A line that is followed by its line feed is one line of text, unless it
/// ends in a carriage return.
pub proof fn lemma_lines_one(row: Seq<char>)
    requires
        one_line(row),
        row.len() > 0 ==> row.last() != '\r',
    ensures
        lines(row + "\n"@) == seq![row],
{
    reveal_strlit("\n");
    let s = row + "\n"@;
    assert("\n"@.len() == 1);
    assert(s[row.len() as int] == '\n');
    assert forall|i: int| 0 <= i < row.len() implies #[trigger] s[i] != '\n' by {
        assert(s[i] == row[i]);
    }
    lemma_line_len(s, row.len() as int);
    assert(s.take(row.len() as int) == row);
    assert(s.skip(row.len() as int + 1) == Seq::<char>::empty());
    assert(lines(s.skip(row.len() as int + 1)) == Seq::<Seq<char>>::empty());
    assert(seq![row] + Seq::<Seq<char>>::empty() == seq![row]);
}

/// A text of one line, without a line feed, is that one line.
pub proof fn lemma_lines_last(row: Seq<char>)
    requires
        one_line(row),
        row.len() > 0,
    ensures
        lines(row) == seq![row],
{
    lemma_line_len(row, row.len() as int);
}

/// Two single lines, each with its line feed, are the first two lines of
/// any text that starts with them.
pub proof fn lemma_lines_two(h: Seq<char>, r: Seq<char>, body: Seq<char>)
    requires
        one_line(h),
        h.len() > 0 ==> h.last() != '\r',
        one_line(r),
        r.len() > 0 ==> r.last() != '\r',
    ensures
        lines(h + "\n"@ + r + "\n"@ + body) == seq![h, r] + lines(body),
{
    reveal_strlit("\n");
    assert("\n"@.len() == 1 && "\n"@[0] == '\n');
    lemma_lines_one(h);
    lemma_lines_one(r);
    let first = h + "\n"@;
    let second = r + "\n"@;
    assert(first.last() == '\n');
    assert(second.last() == '\n');
    lemma_lines_append(second, body);
    lemma_lines_append(first, second + body);
    assert(h + "\n"@ + r + "\n"@ + body == first + (second + body));
    assert(seq![h] + (seq![r] + lines(body)) == seq![h, r] + lines(body));
}

/// Two single lines, each with its line feed, and a last line without one
/// are three lines.
pub proof fn lemma_three_lines(h: Seq<char>, r: Seq<char>, row: Seq<char>)
    requires
        one_line(h),
        h.len() > 0 ==> h.last() != '\r',
        one_line(r),
        r.len() > 0 ==> r.last() != '\r',
        one_line(row),
        row.len() > 0,
    ensures
        lines(h + "\n"@ + r + "\n"@ + row) == seq![h, r, row],
{
    lemma_lines_two(h, r, row);
    lemma_lines_last(row);
    assert(seq![h, r] + seq![row] == seq![h, r, row]);
}

/// Trimming text that starts with a character other than whitespace keeps
/// a prefix of it that is not empty.
pub proof fn lemma_trim_keeps_start(s: Seq<char>)
    requires
        s.len() > 0,
        !is_whitespace(s[0]),
    ensures
        0 < trim(s).len() <= s.len(),
        trim(s) == s.take(trim(s).len() as int),
    decreases s.len(),
{
    lemma_trim_start(s, 0);
    assert(s.skip(0) == s);
    if is_whitespace(s.last()) {
        let rest = s.drop_last();
        lemma_trim_keeps_start(rest);
        lemma_trim_start(rest, 0);
        assert(rest.skip(0) == rest);
        assert(rest.take(trim(rest).len() as int) == s.take(trim(rest).len() as int));
    } else {
        assert(s.take(s.len() as int) == s);
    }
}

/// Whether `c` is a whitespace character.
pub fn is_whitespace_char(c: char) -> (b: bool)
    ensures
        b == is_whitespace(c),
{
    let u: u32 = c as u32;
    (0x09 <= u && u <= 0x0D) || u == 0x20 || u == 0x85 || u == 0xA0 || u == 0x1680 || (0x2000 <= u
        && u <= 0x200A) || u == 0x2028 || u == 0x2029 || u == 0x202F || u == 0x205F || u == 0x3000
}

/// The characters of `s`, in order.
pub fn to_chars(s: &str) -> (out: Vec<char>)
    ensures
        out@ == s@,
{
    let mut out: Vec<char> = Vec::new();
    for c in it: s.chars()
        invariant
            out@ == it.seq().take(it.index() as int),
            it.seq() == s@,
    {
        out.push(c);
    }
    out
}

/// The text made of `chars[from..to]`.
pub fn to_text(chars: &[char], from: usize, to: usize) -> (out: String)
    requires
        from <= to <= chars.len(),
    ensures
        out@ == chars@.subrange(from as int, to as int),
{
    let mut out = String::new();
    let mut i: usize = from;
    while i < to
        invariant
            from <= i <= to <= chars.len(),
            out@ == chars@.subrange(from as int, i as int),
        decreases to - i,
    {
        out.push(chars[i]);
        i += 1;
    }
    out
}

/// Whether two string slices hold the same text.
pub fn str_eq(a: &str, b: &str) -> (same: bool)
    ensures
        same == (a@ == b@),
{
    let x = a.as_bytes();
    let y = b.as_bytes();
    proof {
        encode_utf8_decode_utf8(a@);
        encode_utf8_decode_utf8(b@);
    }
    if x.len() != y.len() {
        return false;
    }
    let mut i: usize = 0;
    while i < x.len()
        invariant
            i <= x.len() == y.len(),
            a@ == b@ ==> x@ == y@,
            forall|j: int| 0 <= j < i ==> x@[j] == y@[j],
        decreases x.len() - i,
    {
        if x[i] != y[i] {
            return false;
        }
        i += 1;
    }
    assert(x@ =~= y@);
    true
}

/// The bounds of `chars[from..to]` without its leading and trailing
/// whitespace.
pub fn trim_bounds(chars: &[char], from: usize, to: usize) -> (r: (usize, usize))
    requires
        from <= to <= chars.len(),
    ensures
        from <= r.0 <= r.1 <= to,
        chars@.subrange(r.0 as int, r.1 as int) == trim(chars@.subrange(from as int, to as int)),
{
    let ghost s = chars@.subrange(from as int, to as int);
    let mut a: usize = from;
    while a < to && is_whitespace_char(chars[a])
        invariant
            from <= a <= to <= chars.len(),
            s == chars@.subrange(from as int, to as int),
            forall|i: int| 0 <= i < a - from ==> is_whitespace(#[trigger] s[i]),
        decreases to - a,
    {
        a += 1;
    }
    let mut b: usize = to;
    while b > a && is_whitespace_char(chars[b - 1])
        invariant
            from <= a <= b <= to <= chars.len(),
            s == chars@.subrange(from as int, to as int),
            forall|i: int| b - from <= i < s.len() ==> is_whitespace(#[trigger] s[i]),
        decreases b - a,
    {
        b -= 1;
    }
    proof {
        lemma_trim(s, a - from, b - from);
        assert(s.subrange(a - from, b - from) == chars@.subrange(a as int, b as int));
    }
    (a, b)
}

/// Whether `chars[at..]` continues with `pat` before `to`.
pub fn matches_at(chars: &[char], at: usize, to: usize, pat: &[char]) -> (hit: bool)
    requires
        at <= to <= chars.len(),
    ensures
        hit == (at + pat.len() <= to && chars@.subrange(at as int, at + pat.len()) == pat@),
{
    if pat.len() > to - at {
        return false;
    }
    let mut k: usize = 0;
    while k < pat.len()
        invariant
            at + pat.len() <= to <= chars.len(),
            k <= pat.len(),
            forall|j: int| 0 <= j < k ==> chars@[at + j] == pat@[j],
        decreases pat.len() - k,
    {
        if chars[at + k] != pat[k] {
            proof {
                let w = chars@.subrange(at as int, at + pat.len());
                assert(w[k as int] != pat@[k as int]);
            }
            return false;
        }
        k += 1;
    }
    assert(chars@.subrange(at as int, at + pat.len()) =~= pat@);
    true
}

/// Whether `chars[from..to]` begins with `pat`.
pub fn starts_with_in(chars: &[char], from: usize, to: usize, pat: &[char]) -> (hit: bool)
    requires
        from <= to <= chars.len(),
    ensures
        hit == starts_with(chars@.subrange(from as int, to as int), pat@),
{
    let hit = matches_at(chars, from, to, pat);
    proof {
        let s = chars@.subrange(from as int, to as int);
        if pat.len() <= s.len() {
            assert(s.take(pat.len() as int) == chars@.subrange(from as int, from + pat.len()));
        }
    }
    hit
}

/// The offset, counted from `from`, of the first occurrence of `pat` in
/// `chars[from..to]`.
pub fn find_in(chars: &[char], from: usize, to: usize, pat: &[char]) -> (found: Option<usize>)
    requires
        from <= to <= chars.len(),
    ensures
        found is Some <==> contains(chars@.subrange(from as int, to as int), pat@),
        found matches Some(i) ==> find(chars@.subrange(from as int, to as int), pat@) == Some(
            i as int,
        ) && i + pat.len() <= to - from,
        found is None ==> find(chars@.subrange(from as int, to as int), pat@) is None,
{
    let ghost s = chars@.subrange(from as int, to as int);
    let mut i: usize = from;
    loop
        invariant
            from <= i <= to <= chars.len(),
            s == chars@.subrange(from as int, to as int),
            forall|j: int| 0 <= j < i - from ==> !occurs_at(s, pat@, j),
        ensures
            forall|j: int| 0 <= j <= to - from ==> !occurs_at(s, pat@, j),
        decreases to - i,
    {
        let hit = matches_at(chars, i, to, pat);
        proof {
            if i + pat.len() <= to {
                assert(s.subrange(i - from, i - from + pat.len()) == chars@.subrange(
                    i as int,
                    i + pat.len(),
                ));
            }
        }
        if hit {
            proof {
                assert(occurs_at(s, pat@, i - from));
                lemma_find(s, pat@, i - from);
            }
            return Some(i - from);
        }
        assert(!occurs_at(s, pat@, i - from));
        if i == to {
            break;
        }
        i += 1;
    }
    assert forall|j: int| !occurs_at(s, pat@, j) by {
        if 0 <= j && j + pat.len() <= s.len() {
            assert(j <= to - from);
        }
    }
    None
}

/// The end of the line that starts at `pos`, without its terminator, and the
/// position at which the next line starts.
pub fn line_bounds(chars: &[char], pos: usize) -> (r: (usize, usize))
    requires
        pos < chars.len(),
    ensures
        pos <= r.0 < r.1 <= chars.len() || pos <= r.0 == r.1 == chars.len(),
        lines(chars@.skip(pos as int)) == seq![chars@.subrange(pos as int, r.0 as int)] + lines(
            chars@.skip(r.1 as int),
        ),
{
    let ghost s = chars@.skip(pos as int);
    let mut k: usize = pos;
    while k < chars.len() && chars[k] != '\n'
        invariant
            pos <= k <= chars.len(),
            s == chars@.skip(pos as int),
            forall|i: int| 0 <= i < k - pos ==> #[trigger] s[i] != '\n',
        decreases chars.len() - k,
    {
        k += 1;
    }
    proof {
        lemma_line_len(s, k - pos);
    }
    if k == chars.len() {
        proof {
            assert(s == chars@.subrange(pos as int, k as int));
            assert(lines(chars@.skip(k as int)) == Seq::<Seq<char>>::empty());
        }
        (k, k)
    } else {
        let end = if k > pos && chars[k - 1] == '\r' {
            k - 1
        } else {
            k
        };
        proof {
            let raw = s.take(k - pos);
            assert(raw == chars@.subrange(pos as int, k as int));
            if k > pos {
                assert(raw.last() == chars@[k - 1]);
            }
            assert(strip_cr(raw) == chars@.subrange(pos as int, end as int));
            assert(s.skip(k - pos + 1) == chars@.skip(k + 1));
        }
        (end, k + 1)
    }
}

/// The bounds of the first whitespace-delimited token of `chars[from..to]`.
pub fn first_token_bounds(chars: &[char], from: usize, to: usize) -> (r: Option<(usize, usize)>)
    requires
        from <= to <= chars.len(),
    ensures
        match r {
            Some((a, b)) => from <= a < b <= to && first_token(
                chars@.subrange(from as int, to as int),
            ) == Some(chars@.subrange(a as int, b as int)),
            None => first_token(chars@.subrange(from as int, to as int)) is None,
        },
{
    let ghost s = chars@.subrange(from as int, to as int);
    let mut a: usize = from;
    while a < to && is_whitespace_char(chars[a])
        invariant
            from <= a <= to <= chars.len(),
            s == chars@.subrange(from as int, to as int),
            forall|i: int| 0 <= i < a - from ==> is_whitespace(#[trigger] s[i]),
        decreases to - a,
    {
        a += 1;
    }
    proof {
        lemma_trim_start(s, a - from);
        assert(s.skip(a - from) == chars@.subrange(a as int, to as int));
    }
    if a == to {
        return None;
    }
    let ghost t = chars@.subrange(a as int, to as int);
    let mut b: usize = a;
    while b < to && !is_whitespace_char(chars[b])
        invariant
            from <= a <= b <= to <= chars.len(),
            t == chars@.subrange(a as int, to as int),
            forall|i: int| 0 <= i < b - a ==> !is_whitespace(#[trigger] t[i]),
        decreases to - b,
    {
        b += 1;
    }
    proof {
        lemma_token_len(t, b - a);
        assert(t.take(b - a) == chars@.subrange(a as int, b as int));
    }
    Some((a, b))
}

/// Whether `chars[from..to]` is exactly `pat`.
pub fn range_is(chars: &[char], from: usize, to: usize, pat: &[char]) -> (same: bool)
    requires
        from <= to <= chars.len(),
    ensures
        same == (chars@.subrange(from as int, to as int) == pat@),
{
    if to - from != pat.len() {
        return false;
    }
    matches_at(chars, from, to, pat)
}

/// `args` joined with `sep` between neighbours.
pub fn join_strs(args: &[&str], sep: &str) -> (out: String)
    ensures
        out@ == join(views(args@), sep@),
{
    let mut out = String::new();
    let mut i: usize = 0;
    while i < args.len()
        invariant
            i <= args.len(),
            out@ == join(views(args@).take(i as int), sep@),
        decreases args.len() - i,
    {
        let ghost before = views(args@).take(i as int);
        let ghost grown = views(args@).take(i + 1);
        proof {
            assert(grown.drop_last() == before);
            assert(grown.last() == args@[i as int]@);
        }
        if i > 0 {
            out.append(sep);
        } else {
            assert(out@ + args@[i as int]@ == args@[i as int]@);
        }
        out.append(args[i]);
        i += 1;
    }
    assert(views(args@).take(args@.len() as int) == views(args@));
    out
}

} // verus!
