//! Point annotation: every point marker of rendered markup gets the count and
//! timestamp of its data point, matched by order of appearance.

use vstd::prelude::*;
use vstd::string::*;

use crate::model::{ChartError, DataPoint};

verus! {

broadcast use vstd::string::group_string_axioms;

/// The entity that replaces one character inside an attribute value.
pub open spec fn escape_char(c: char) -> Seq<char> {
    if c == '<' {
        seq!['&', 'l', 't', ';']
    } else if c == '>' {
        seq!['&', 'g', 't', ';']
    } else if c == '&' {
        seq!['&', 'a', 'm', 'p', ';']
    } else if c == '\'' {
        seq!['&', 'a', 'p', 'o', 's', ';']
    } else if c == '"' {
        seq!['&', 'q', 'u', 'o', 't', ';']
    } else if c == '\r' {
        seq!['&', '#', '1', '3', ';']
    } else if c == '\n' {
        seq!['&', '#', '1', '0', ';']
    } else if c == '\t' {
        seq!['&', '#', '9', ';']
    } else {
        seq![c]
    }
}

/// A text made safe to stand between double quotes in markup.
pub open spec fn xml_escaped(s: Seq<char>) -> Seq<char>
    decreases s.len(),
{
    if s.len() == 0 {
        Seq::empty()
    } else {
        xml_escaped(s.drop_last()) + escape_char(s.last())
    }
}

/// Relies on quick_xml's `Attribute::from((key, value))`, which escapes the
/// value as `BytesStart::push_attribute` does: each of `<`, `>`, `&`, `'`,
/// `"`, carriage return, newline and tab becomes its entity, every other
/// character is kept.
#[verifier::external_body]
fn escape_attribute_value(s: &str) -> (r: String)
    ensures
        r@ == xml_escaped(s@),
{
    quick_xml::events::attributes::Attribute::from(("", s)).value.into_owned()
}

pub open spec fn digit_char(d: nat) -> char {
    ((d + 48) as u8) as char
}

/// Decimal digits of a number, most significant first.
pub open spec fn decimal(n: nat) -> Seq<char>
    decreases n,
{
    if n < 10 {
        seq![digit_char(n)]
    } else {
        decimal(n / 10).push(digit_char(n % 10))
    }
}

fn digit_str(d: u64) -> (r: &'static str)
    requires
        d < 10,
    ensures
        r@ == seq![digit_char(d as nat)],
{
    proof {
        reveal_strlit("0");
        reveal_strlit("1");
        reveal_strlit("2");
        reveal_strlit("3");
        reveal_strlit("4");
        reveal_strlit("5");
        reveal_strlit("6");
        reveal_strlit("7");
        reveal_strlit("8");
        reveal_strlit("9");
    }
    if d == 0 {
        "0"
    } else if d == 1 {
        "1"
    } else if d == 2 {
        "2"
    } else if d == 3 {
        "3"
    } else if d == 4 {
        "4"
    } else if d == 5 {
        "5"
    } else if d == 6 {
        "6"
    } else if d == 7 {
        "7"
    } else if d == 8 {
        "8"
    } else {
        "9"
    }
}

/// Appends the decimal digits of `n`.
fn push_decimal(out: &mut String, n: u64)
    ensures
        final(out)@ == old(out)@ + decimal(n as nat),
    decreases n,
{
    if n >= 10 {
        push_decimal(out, n / 10);
    }
    out.append(digit_str(n % 10));
    assert(final(out)@ =~= old(out)@ + decimal(n as nat));
}

/// The decimal text of a count.
pub fn decimal_string(n: u64) -> (r: String)
    ensures
        r@ == decimal(n as nat),
{
    let mut out = String::new();
    push_decimal(&mut out, n);
    assert(out@ =~= decimal(n as nat));
    out
}

/// The metadata attached to a point marker: its count, then its timestamp.
pub open spec fn marker_attributes(p: DataPoint) -> Seq<char> {
    " data-y=\""@ + decimal(p.count as nat) + "\" data-x=\""@ + xml_escaped(p.timestamp@) + "\""@
}

fn push_marker_attributes(out: &mut String, p: &DataPoint)
    ensures
        final(out)@ == old(out)@ + marker_attributes(*p),
{
    out.append(" data-y=\"");
    push_decimal(out, p.count);
    out.append("\" data-x=\"");
    let ts = escape_attribute_value(p.timestamp.as_str());
    out.append(ts.as_str());
    out.append("\"");
    assert(final(out)@ =~= old(out)@ + marker_attributes(*p));
}

fn chars_of(s: &str) -> (r: Vec<char>)
    ensures
        r@ == s@,
{
    let mut v: Vec<char> = Vec::new();
    for c in it: s.chars()
        invariant
            v@ == it.seq().take(it.index() as int),
    {
        v.push(c);
    }
    assert(v@ =~= s@);
    v
}

pub open spec fn ends_tag_name(c: char) -> bool {
    c == ' ' || c == '\t' || c == '\n' || c == '\r' || c == '/'
}

/// A `circle` element opens at `i`.
pub open spec fn opens_marker(s: Seq<char>, i: int) -> bool {
    &&& 0 <= i
    &&& i + 8 <= s.len()
    &&& s[i] == '<'
    &&& s[i + 1] == 'c'
    &&& s[i + 2] == 'i'
    &&& s[i + 3] == 'r'
    &&& s[i + 4] == 'c'
    &&& s[i + 5] == 'l'
    &&& s[i + 6] == 'e'
    &&& ends_tag_name(s[i + 7])
}

/// Index of the first `>` at or after `j`, or the length when there is none.
pub open spec fn tag_close(s: Seq<char>, j: int) -> int
    decreases s.len() - j,
{
    if j >= s.len() {
        s.len() as int
    } else if s[j] == '>' {
        j
    } else {
        tag_close(s, j + 1)
    }
}

/// A point marker starts at `i`: a `circle` element closed by `/>`.
pub open spec fn is_marker_at(s: Seq<char>, i: int) -> bool {
    &&& opens_marker(s, i)
    &&& tag_close(s, i + 7) < s.len()
    &&& s[tag_close(s, i + 7) - 1] == '/'
}

/// Where the metadata of the marker at `i` goes: just before its `/>`.
pub open spec fn marker_slot(s: Seq<char>, i: int) -> int {
    tag_close(s, i + 7) - 1
}

/// The slots of the point markers found from `i` on, in document order.
pub open spec fn marker_slots_from(s: Seq<char>, i: int) -> Seq<int>
    decreases s.len() - i,
    when 0 <= i
    via marker_slots_from_decreases
{
    if i >= s.len() {
        Seq::empty()
    } else if is_marker_at(s, i) {
        seq![marker_slot(s, i)] + marker_slots_from(s, tag_close(s, i + 7) + 1)
    } else {
        marker_slots_from(s, i + 1)
    }
}

#[via_fn]
proof fn marker_slots_from_decreases(s: Seq<char>, i: int) {
    if 0 <= i < s.len() && is_marker_at(s, i) {
        lemma_tag_close_bounds(s, i + 7);
    }
}

/// The slots of every point marker of a markup text, in document order.
pub open spec fn marker_slots(s: Seq<char>) -> Seq<int> {
    marker_slots_from(s, 0)
}

proof fn lemma_tag_close_bounds(s: Seq<char>, j: int)
    requires
        j <= s.len(),
    ensures
        j <= tag_close(s, j) <= s.len(),
        tag_close(s, j) < s.len() ==> s[tag_close(s, j)] == '>',
    decreases s.len() - j,
{
    if j < s.len() && s[j] != '>' {
        lemma_tag_close_bounds(s, j + 1);
    }
}

fn tag_close_exec(s: &Vec<char>, j: usize) -> (r: usize)
    requires
        j <= s.len(),
    ensures
        r == tag_close(s@, j as int),
{
    let mut k = j;
    while k < s.len() && s[k] != '>'
        invariant
            j <= k <= s.len(),
            tag_close(s@, k as int) == tag_close(s@, j as int),
        decreases s.len() - k,
    {
        k = k + 1;
    }
    k
}

fn opens_marker_exec(s: &Vec<char>, i: usize) -> (r: bool)
    ensures
        r == opens_marker(s@, i as int),
{
    i < s.len() && s.len() - i >= 8 && s[i] == '<' && s[i + 1] == 'c' && s[i + 2] == 'i' && s[i
        + 3] == 'r' && s[i + 4] == 'c' && s[i + 5] == 'l' && s[i + 6] == 'e' && (s[i + 7] == ' '
        || s[i + 7] == '\t' || s[i + 7] == '\n' || s[i + 7] == '\r' || s[i + 7] == '/')
}

/// The annotated text from `i` on, the next marker taking `pts[k]`: each
/// point marker gets the metadata just before its `/>`, every other
/// character is copied.
pub open spec fn annotated_from(s: Seq<char>, i: int, pts: Seq<DataPoint>, k: int) -> Seq<char>
    decreases s.len() - i,
    when 0 <= i
    via annotated_from_decreases
{
    if i >= s.len() {
        Seq::empty()
    } else if is_marker_at(s, i) {
        let c = tag_close(s, i + 7);
        s.subrange(i, c - 1) + marker_attributes(pts[k]) + s.subrange(c - 1, c + 1)
            + annotated_from(s, c + 1, pts, k + 1)
    } else {
        seq![s[i]] + annotated_from(s, i + 1, pts, k)
    }
}

#[via_fn]
proof fn annotated_from_decreases(s: Seq<char>, i: int, pts: Seq<DataPoint>, k: int) {
    if 0 <= i < s.len() && is_marker_at(s, i) {
        lemma_tag_close_bounds(s, i + 7);
    }
}

/// What annotation yields: the markup with each marker's metadata in place,
/// or `None` when there are more markers than points.
pub open spec fn annotated(s: Seq<char>, pts: Seq<DataPoint>) -> Option<Seq<char>> {
    if marker_slots(s).len() <= pts.len() {
        Some(annotated_from(s, 0, pts, 0))
    } else {
        None
    }
}

/// `r` is what annotating `markup` with `pts` returns.
pub open spec fn annotate_outcome(
    markup: Seq<char>,
    pts: Seq<DataPoint>,
    r: Result<String, ChartError>,
) -> bool {
    match r {
        Ok(out) => annotated(markup, pts) == Some(out@),
        Err(e) => e == ChartError::AnnotationIndexOutOfRange && annotated(markup, pts) is None,
    }
}

/// Attaches `points[i]` as `data-y` (count) and `data-x` (timestamp) to the
/// i-th point marker of `markup`; every other character is kept. Fails, with
/// nothing produced, when the markup holds more markers than points.
pub fn annotate(markup: &str, points: &Vec<DataPoint>) -> (r: Result<String, ChartError>)
    ensures
        annotate_outcome(markup@, points@, r),
{
    let chars = chars_of(markup);
    let ghost s = markup@;
    let ghost whole = annotated_from(s, 0, points@, 0);
    let n = chars.len();
    let mut out = String::new();
    let mut last: usize = 0;
    let mut i: usize = 0;
    let mut k: usize = 0;
    assert(s.subrange(0, 0) =~= Seq::<char>::empty());
    while i < n
        invariant
            chars@ == s,
            s == markup@,
            n == s.len(),
            last <= i <= n,
            k <= points.len(),
            marker_slots(s).len() == k + marker_slots_from(s, i as int).len(),
            out@ + s.subrange(last as int, i as int) + annotated_from(s, i as int, points@, k as int)
                == whole,
        decreases n - i,
    {
        let mut is_marker = false;
        let mut close: usize = 0;
        if opens_marker_exec(&chars, i) {
            close = tag_close_exec(&chars, i + 7);
            proof {
                lemma_tag_close_bounds(s, i + 7);
            }
            is_marker = close < n && chars[close - 1] == '/';
        }
        if is_marker {
            if k >= points.len() {
                return Err(ChartError::AnnotationIndexOutOfRange);
            }
            let piece = markup.substring_char(last, close - 1);
            out.append(piece);
            push_marker_attributes(&mut out, &points[k]);
            proof {
                let c = close as int;
                assert(s.subrange(last as int, i as int) + s.subrange(i as int, c - 1) =~= s.subrange(
                    last as int,
                    c - 1,
                ));
                assert(out@ + s.subrange(c - 1, c + 1) + annotated_from(s, c + 1, points@, k + 1)
                    =~= whole);
            }
            last = close - 1;
            i = close + 1;
            k = k + 1;
        } else {
            proof {
                assert(s.subrange(last as int, i as int) + seq![s[i as int]] =~= s.subrange(
                    last as int,
                    i + 1,
                ));
            }
            i = i + 1;
        }
    }
    let tail = markup.substring_char(last, n);
    out.append(tail);
    proof {
        assert(out@ =~= whole);
    }
    Ok(out)
}

proof fn lemma_tag_close_no_gt(s: Seq<char>, j: int, q: int)
    requires
        0 <= j <= q < tag_close(s, j),
        tag_close(s, j) <= s.len(),
    ensures
        s[q] != '>',
    decreases q - j,
{
    if j < q {
        lemma_tag_close_no_gt(s, j + 1, q);
    }
}

proof fn lemma_tag_close_at(s: Seq<char>, j: int, e: int)
    requires
        0 <= j <= e < s.len(),
        s[e] == '>',
        forall|q: int| j <= q < e ==> s[q] != '>',
    ensures
        tag_close(s, j) == e,
    decreases e - j,
{
    if j < e {
        lemma_tag_close_at(s, j + 1, e);
    }
}

proof fn lemma_tag_close_shift(x: Seq<char>, y: Seq<char>, j: int)
    requires
        0 <= j,
    ensures
        tag_close(x + y, x.len() + j) == x.len() + tag_close(y, j),
    decreases y.len() - j,
{
    if j < y.len() {
        assert((x + y)[x.len() + j] == y[j]);
        if y[j] != '>' {
            lemma_tag_close_shift(x, y, j + 1);
        }
    }
}

/// Scanning the tail of `x + y` is scanning `y`, positions moved by `x.len()`.
proof fn lemma_scan_shift(x: Seq<char>, y: Seq<char>, j: int)
    requires
        0 <= j,
    ensures
        marker_slots_from(x + y, x.len() + j) == marker_slots_from(y, j).map_values(
            |p: int| p + x.len(),
        ),
    decreases y.len() - j,
{
    let xy = x + y;
    let d = x.len() as int;
    if j >= y.len() {
        assert(marker_slots_from(y, j).map_values(|p: int| p + d) =~= Seq::<int>::empty());
    } else {
        assert forall|q: int| j <= q < y.len() implies #[trigger] xy[d + q] == y[q] by {}
        assert(opens_marker(xy, d + j) == opens_marker(y, j));
        if opens_marker(y, j) {
            lemma_tag_close_shift(x, y, j + 7);
            lemma_tag_close_bounds(y, j + 7);
        }
        assert(is_marker_at(xy, d + j) == is_marker_at(y, j));
        if is_marker_at(y, j) {
            let c = tag_close(y, j + 7);
            lemma_scan_shift(x, y, c + 1);
            assert(marker_slots_from(y, j).map_values(|p: int| p + d) =~= seq![c - 1 + d]
                + marker_slots_from(y, c + 1).map_values(|p: int| p + d));
        } else {
            lemma_scan_shift(x, y, j + 1);
            assert(marker_slots_from(y, j).map_values(|p: int| p + d) =~= marker_slots_from(
                y,
                j + 1,
            ).map_values(|p: int| p + d));
        }
    }
}

proof fn lemma_escaped_no_gt(t: Seq<char>)
    ensures
        forall|q: int| 0 <= q < xml_escaped(t).len() ==> xml_escaped(t)[q] != '>',
    decreases t.len(),
{
    if t.len() > 0 {
        lemma_escaped_no_gt(t.drop_last());
        let a = xml_escaped(t.drop_last());
        let e = escape_char(t.last());
        assert(xml_escaped(t) == a + e);
        assert forall|q: int| 0 <= q < e.len() implies e[q] != '>' by {}
        assert forall|q: int| 0 <= q < (a + e).len() implies (a + e)[q] != '>' by {
            if q >= a.len() {
                assert((a + e)[q] == e[q - a.len()]);
            }
        }
    }
}

proof fn lemma_decimal_no_gt(n: nat)
    ensures
        forall|q: int| 0 <= q < decimal(n).len() ==> decimal(n)[q] != '>',
    decreases n,
{
    if n >= 10 {
        lemma_decimal_no_gt(n / 10);
        assert(digit_char(n % 10) != '>');
        let h = decimal(n / 10);
        assert(decimal(n) == h.push(digit_char(n % 10)));
        assert forall|q: int| 0 <= q < decimal(n).len() implies decimal(n)[q] != '>' by {
            if q < h.len() {
                assert(decimal(n)[q] == h[q]);
            }
        }
    } else {
        assert(digit_char(n) != '>');
    }
}

/// The metadata opens with a space and holds no `>`.
proof fn lemma_attributes_shape(p: DataPoint)
    ensures
        marker_attributes(p).len() > 0,
        marker_attributes(p)[0] == ' ',
        forall|q: int| 0 <= q < marker_attributes(p).len() ==> marker_attributes(p)[q] != '>',
{
    reveal_strlit(" data-y=\"");
    reveal_strlit("\" data-x=\"");
    reveal_strlit("\"");
    lemma_escaped_no_gt(p.timestamp@);
    lemma_decimal_no_gt(p.count as nat);
    let a = " data-y=\""@;
    let b = decimal(p.count as nat);
    let c = "\" data-x=\""@;
    let d = xml_escaped(p.timestamp@);
    let e = "\""@;
    let all = a + b + c + d + e;
    assert(marker_attributes(p) == all);
    assert forall|q: int| 0 <= q < all.len() implies all[q] != '>' by {
        if q < a.len() {
            assert(all[q] == a[q]);
        } else if q < a.len() + b.len() {
            assert(all[q] == b[q - a.len()]);
        } else if q < a.len() + b.len() + c.len() {
            assert(all[q] == c[q - a.len() - b.len()]);
        } else if q < a.len() + b.len() + c.len() + d.len() {
            assert(all[q] == d[q - a.len() - b.len() - c.len()]);
        } else {
            assert(all[q] == e[q - a.len() - b.len() - c.len() - d.len()]);
        }
    }
}

/// The first slot found from `j` belongs to a point marker at or after `j`.
proof fn lemma_first_slot(s: Seq<char>, j: int)
    requires
        0 <= j,
        marker_slots_from(s, j).len() > 0,
    ensures
        exists|m: int|
            j <= m && #[trigger] is_marker_at(s, m) && marker_slots_from(s, j)[0] == marker_slot(
                s,
                m,
            ),
    decreases s.len() - j,
{
    if j < s.len() && !is_marker_at(s, j) {
        lemma_first_slot(s, j + 1);
    } else {
        assert(is_marker_at(s, j));
    }
}

proof fn lemma_marker_slot_bounds(s: Seq<char>, m: int)
    requires
        is_marker_at(s, m),
    ensures
        m + 7 <= marker_slot(s, m),
        marker_slot(s, m) + 1 < s.len(),
        s[marker_slot(s, m)] == '/',
        s[marker_slot(s, m) + 1] == '>',
{
    lemma_tag_close_bounds(s, m + 7);
    assert(s[m + 6] == 'e');
}

proof fn lemma_tag_close_none(s: Seq<char>, j: int)
    requires
        0 <= j <= s.len(),
        forall|q: int| j <= q < s.len() ==> s[q] != '>',
    ensures
        tag_close(s, j) == s.len(),
    decreases s.len() - j,
{
    if j < s.len() {
        lemma_tag_close_none(s, j + 1);
    }
}

/// Until the first slot, annotation copies the text.
proof fn lemma_annotated_prefix(s: Seq<char>, j: int, pts: Seq<DataPoint>, k: int, n: int)
    requires
        0 <= j,
        0 <= n,
        j + n <= s.len(),
        marker_slots_from(s, j).len() == 0 || marker_slots_from(s, j)[0] >= j + n,
    ensures
        annotated_from(s, j, pts, k).len() >= n,
        annotated_from(s, j, pts, k).take(n) == s.subrange(j, j + n),
    decreases s.len() - j,
{
    let o = annotated_from(s, j, pts, k);
    if n == 0 {
        assert(o.take(0) =~= s.subrange(j, j));
    } else if is_marker_at(s, j) {
        let c = tag_close(s, j + 7);
        lemma_marker_slot_bounds(s, j);
        let head = s.subrange(j, c - 1);
        assert(o == head + marker_attributes(pts[k]) + s.subrange(c - 1, c + 1) + annotated_from(
            s,
            c + 1,
            pts,
            k + 1,
        ));
        assert(o.take(n) =~= s.subrange(j, j + n));
    } else {
        lemma_annotated_prefix(s, j + 1, pts, k, n - 1);
        let rest = annotated_from(s, j + 1, pts, k);
        assert(o == seq![s[j]] + rest);
        assert forall|q: int| 0 <= q < n implies #[trigger] o[q] == s[j + q] by {
            if q > 0 {
                assert(o[q] == rest[q - 1]);
                assert(rest.take(n - 1)[q - 1] == s.subrange(j + 1, j + n)[q - 1]);
            }
        }
        assert(o.take(n) =~= s.subrange(j, j + n));
    }
}

/// Without markers ahead, annotation copies the rest of the text.
proof fn lemma_annotated_no_slots(s: Seq<char>, j: int, pts: Seq<DataPoint>, k: int)
    requires
        0 <= j <= s.len(),
        marker_slots_from(s, j).len() == 0,
    ensures
        annotated_from(s, j, pts, k) == s.subrange(j, s.len() as int),
    decreases s.len() - j,
{
    if j == s.len() {
        assert(s.subrange(j, j) =~= Seq::<char>::empty());
    } else {
        lemma_annotated_no_slots(s, j + 1, pts, k);
        assert(annotated_from(s, j, pts, k) =~= s.subrange(j, s.len() as int));
    }
}

proof fn lemma_marker_at_suffix(s: Seq<char>, i: int)
    requires
        0 <= i <= s.len(),
    ensures
        is_marker_at(s.subrange(i, s.len() as int), 0) == is_marker_at(s, i),
{
    let x = s.take(i);
    let y = s.subrange(i, s.len() as int);
    assert(x + y =~= s);
    if y.len() > 0 {
        assert forall|q: int| 0 <= q < y.len() implies #[trigger] y[q] == s[i + q] by {}
    }
    assert(opens_marker(y, 0) == opens_marker(s, i));
    if opens_marker(y, 0) {
        lemma_tag_close_shift(x, y, 7);
        lemma_tag_close_bounds(y, 7);
    }
}

/// A place that opens no point marker opens none once annotated.
proof fn lemma_non_marker_stays(s: Seq<char>, i: int, pts: Seq<DataPoint>, k: int)
    requires
        0 <= i < s.len(),
        !is_marker_at(s, i),
    ensures
        !is_marker_at(annotated_from(s, i, pts, k), 0),
{
    let o = annotated_from(s, i, pts, k);
    let sl = marker_slots_from(s, i);
    if sl.len() == 0 {
        lemma_annotated_no_slots(s, i, pts, k);
        lemma_marker_at_suffix(s, i);
    } else {
        lemma_first_slot(s, i);
        let m = choose|m: int|
            i <= m && #[trigger] is_marker_at(s, m) && sl[0] == marker_slot(s, m);
        lemma_marker_slot_bounds(s, m);
        if !opens_marker(s, i) {
            lemma_annotated_prefix(s, i, pts, k, 8);
            let p = o.take(8);
            assert(p =~= s.subrange(i, i + 8));
            assert(p[0] == o[0] && p[1] == o[1] && p[2] == o[2] && p[3] == o[3]);
            assert(p[4] == o[4] && p[5] == o[5] && p[6] == o[6] && p[7] == o[7]);
            assert(!opens_marker(o, 0));
        } else {
            let t = tag_close(s, i + 7);
            lemma_tag_close_bounds(s, i + 7);
            if m <= t {
                if m + 7 <= t {
                    assert forall|q: int| m + 7 <= q < t implies s[q] != '>' by {
                        lemma_tag_close_no_gt(s, i + 7, q);
                    }
                    if t < s.len() {
                        lemma_tag_close_at(s, m + 7, t);
                    } else {
                        lemma_tag_close_none(s, m + 7);
                    }
                    assert(false);
                } else {
                    assert(s[m + (t - m)] == s[t]);
                    assert(false);
                }
            }
            assert(t < s.len());
            let n = t - i + 1;
            lemma_annotated_prefix(s, i, pts, k, n);
            let p = o.take(n);
            assert(p =~= s.subrange(i, t + 1));
            assert forall|q: int| 0 <= q < n implies #[trigger] o[q] == s[i + q] by {
                assert(p[q] == o[q]);
            }
            assert(opens_marker(o, 0));
            assert forall|q: int| 7 <= q < t - i implies o[q] != '>' by {
                lemma_tag_close_no_gt(s, i + 7, i + q);
            }
            lemma_tag_close_at(o, 7, t - i);
            assert(o[t - i - 1] == s[t - 1]);
        }
    }
}

/// The text just before position `p` of `o` is the metadata of `pt`.
pub open spec fn carries(o: Seq<char>, p: int, pt: DataPoint) -> bool {
    &&& marker_attributes(pt).len() <= p <= o.len()
    &&& o.subrange(p - marker_attributes(pt).len(), p) == marker_attributes(pt)
}

proof fn lemma_rescan(s: Seq<char>, i: int, pts: Seq<DataPoint>, k: int)
    requires
        0 <= i <= s.len(),
    ensures
        ({
            let o = annotated_from(s, i, pts, k);
            let ms = marker_slots_from(o, 0);
            &&& ms.len() == marker_slots_from(s, i).len()
            &&& forall|q: int| 0 <= q < ms.len() ==> carries(o, #[trigger] ms[q], pts[k + q])
        }),
    decreases s.len() - i,
{
    let o = annotated_from(s, i, pts, k);
    if i == s.len() {
        assert(o.len() == 0);
    } else if is_marker_at(s, i) {
        let c = tag_close(s, i + 7);
        lemma_marker_slot_bounds(s, i);
        lemma_attributes_shape(pts[k]);
        lemma_rescan(s, c + 1, pts, k + 1);
        let a = marker_attributes(pts[k]);
        let head = s.subrange(i, c - 1);
        let t = head + a + s.subrange(c - 1, c + 1);
        let oc = annotated_from(s, c + 1, pts, k + 1);
        let h = head.len() as int;
        assert(o == t + oc);
        assert forall|q: int| 0 <= q < h implies #[trigger] o[q] == s[i + q] by {
            assert(o[q] == t[q]);
        }
        assert forall|q: int| h <= q < h + a.len() implies #[trigger] o[q] == a[q - h] by {
            assert(o[q] == t[q]);
        }
        assert(o[h + a.len()] == '/') by {
            assert(o[h + a.len()] == t[h + a.len()]);
        }
        assert(o[h + a.len() + 1] == '>') by {
            assert(o[h + a.len() + 1] == t[h + a.len() + 1]);
        }
        assert(opens_marker(o, 0)) by {
            if h == 7 {
                assert(o[7] == a[0]);
            }
        }
        assert forall|q: int| 7 <= q < t.len() - 1 implies o[q] != '>' by {
            if q < h {
                lemma_tag_close_no_gt(s, i + 7, i + q);
            } else if q < h + a.len() {
                assert(o[q] == a[q - h]);
            }
        }
        lemma_tag_close_at(o, 7, t.len() - 1);
        assert(is_marker_at(o, 0));
        lemma_scan_shift(t, oc, 0);
        let mc = marker_slots_from(oc, 0);
        let ms = marker_slots_from(o, 0);
        assert(ms == seq![t.len() - 2] + mc.map_values(|p: int| p + t.len()));
        assert forall|q: int| 0 <= q < ms.len() implies carries(o, #[trigger] ms[q], pts[k + q]) by {
            if q == 0 {
                assert(o.subrange(h, h + a.len()) =~= a);
            } else {
                let p = mc[q - 1];
                assert(ms[q] == p + t.len());
                assert(carries(oc, mc[q - 1], pts[k + 1 + (q - 1)]));
                let b = marker_attributes(pts[k + q]);
                assert(o.subrange(p + t.len() - b.len(), p + t.len()) =~= oc.subrange(
                    p - b.len(),
                    p,
                ));
            }
        }
    } else {
        lemma_non_marker_stays(s, i, pts, k);
        lemma_rescan(s, i + 1, pts, k);
        let x = seq![s[i]];
        let o1 = annotated_from(s, i + 1, pts, k);
        assert(o == x + o1);
        lemma_scan_shift(x, o1, 0);
        let m1 = marker_slots_from(o1, 0);
        let ms = marker_slots_from(o, 0);
        assert(ms == m1.map_values(|p: int| p + 1));
        assert forall|q: int| 0 <= q < ms.len() implies carries(o, #[trigger] ms[q], pts[k + q]) by {
            let p = m1[q];
            assert(carries(o1, m1[q], pts[k + q]));
            let b = marker_attributes(pts[k + q]);
            assert(o.subrange(p + 1 - b.len(), p + 1) =~= o1.subrange(p - b.len(), p));
        }
    }
}

/// Round trip of the correlation: reading the annotated markup again finds
/// as many point markers as the original holds, and the i-th of them carries
/// the metadata of `pts[i]` (its count as `data-y`, its timestamp as
/// `data-x`) right before its `/>`.
pub proof fn lemma_annotation_round_trip(s: Seq<char>, pts: Seq<DataPoint>)
    requires
        marker_slots(s).len() <= pts.len(),
    ensures
        annotated(s, pts) is Some,
        ({
            let o = annotated(s, pts)->0;
            &&& marker_slots(o).len() == marker_slots(s).len()
            &&& forall|q: int|
                0 <= q < marker_slots(o).len() ==> carries(o, #[trigger] marker_slots(o)[q], pts[q])
        }),
{
    lemma_rescan(s, 0, pts, 0);
}

/// Annotating the same markup with the same points twice gives the same
/// outcome: the same text, or the same failure.
pub proof fn lemma_annotation_deterministic(
    markup: Seq<char>,
    pts: Seq<DataPoint>,
    r1: Result<String, ChartError>,
    r2: Result<String, ChartError>,
)
    requires
        annotate_outcome(markup, pts, r1),
        annotate_outcome(markup, pts, r2),
    ensures
        r1 is Ok <==> r2 is Ok,
        r1 is Ok ==> r1->Ok_0@ == r2->Ok_0@,
        r1 is Err ==> r1 == r2,
{
}

} // verus!
