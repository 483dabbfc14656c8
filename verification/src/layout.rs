//! Integer layout decisions of the PDF renderer: which template texts are
//! labels, how far a label may run to the right, which page a sheet row lands
//! on, how text is encoded for the PDF fonts, and how PDF objects are numbered.

use vstd::prelude::*;
use vstd::string::StrSliceExecFns;
use crate::model::{SHEET_COLS, SHEET_ROWS};

verus! {

/// Rows of the sheet on one page.
pub const ROWS_PER_PAGE: i64 = 67;

/// The byte that a character becomes in the PDF's WinAnsi text: its code
/// where that is below 256, `?` otherwise.
pub open spec fn winansi_byte(c: char) -> u8 {
    if (c as u32) < 256 { (c as u32) as u8 } else { 63u8 }
}

/// Text as WinAnsi bytes for the PDF's fonts.
pub fn winansi(s: &str) -> (b: Vec<u8>)
    ensures
        b@ == s@.map_values(|c: char| winansi_byte(c)),
{
    let n = s.unicode_len();
    let mut out: Vec<u8> = Vec::new();
    let mut i: usize = 0;
    while i < n
        invariant
            n == s@.len(),
            i <= n,
            out@ == s@.take(i as int).map_values(|c: char| winansi_byte(c)),
        decreases n - i,
    {
        let c = s.get_char(i);
        let v = c as u32;
        let byte: u8 = if v < 256 { v as u8 } else { 63u8 };
        out.push(byte);
        proof {
            assert(s@.take(i + 1) =~= s@.take(i as int).push(c));
            assert(out@ =~= s@.take(i + 1).map_values(|c: char| winansi_byte(c)));
        }
        i = i + 1;
    }
    proof {
        assert(s@.take(n as int) =~= s@);
    }
    out
}

/// Whether two characters are equal but for ASCII case.
pub open spec fn ascii_eq_ignore_case(a: char, b: char) -> bool {
    ||| a == b
    ||| ('a' <= b <= 'z' && (a as int) == (b as int) - 32)
    ||| ('A' <= b <= 'Z' && (a as int) == (b as int) + 32)
}

/// Whether two texts are equal but for ASCII case (std's `str::eq_ignore_ascii_case`).
pub open spec fn eq_ignore_ascii_case(a: Seq<char>, b: Seq<char>) -> bool {
    &&& a.len() == b.len()
    &&& forall|i: int| 0 <= i < a.len() ==> ascii_eq_ignore_case(#[trigger] a[i], b[i])
}

/// Whether two texts are equal but for ASCII case.
pub fn str_eq_ignore_ascii_case(a: &str, b: &str) -> (r: bool)
    ensures
        r == eq_ignore_ascii_case(a@, b@),
{
    let n = a.unicode_len();
    if n != b.unicode_len() {
        return false;
    }
    let mut i: usize = 0;
    while i < n
        invariant
            n == a@.len(),
            n == b@.len(),
            i <= n,
            forall|j: int| 0 <= j < i ==> ascii_eq_ignore_case(#[trigger] a@[j], b@[j]),
        decreases n - i,
    {
        let x = a.get_char(i);
        let y = b.get_char(i);
        let xv = x as u32;
        let yv = y as u32;
        let same = xv == yv
            || ('a' <= y && y <= 'z' && xv + 32 == yv)
            || ('A' <= y && y <= 'Z' && xv == yv + 32);
        if !same {
            return false;
        }
        i = i + 1;
    }
    true
}

/// Whether a template text is one of the `TRUE` / `FALSE` values that the
/// spreadsheet stores for its checkboxes (in any case); those are not labels.
pub open spec fn is_bool_literal(text: Seq<char>) -> bool {
    eq_ignore_ascii_case(text, "false"@) || eq_ignore_ascii_case(text, "true"@)
}

/// Whether a template text is a checkbox value rather than a label.
pub fn bool_literal(text: &str) -> (r: bool)
    ensures
        r == is_bool_literal(text@),
{
    str_eq_ignore_ascii_case(text, "false") || str_eq_ignore_ascii_case(text, "true")
}

/// A template text: (row, column, text), counted from 1.
pub type TemplateText = (i64, i64, String);

/// The cells of the texts that are labels (not checkbox values), in order.
pub open spec fn label_cells_spec(texts: Seq<TemplateText>) -> Seq<(i64, i64)>
    decreases texts.len(),
{
    if texts.len() == 0 {
        Seq::empty()
    } else {
        let t = texts.last();
        let rest = label_cells_spec(texts.drop_last());
        if is_bool_literal(t.2@) { rest } else { rest.push((t.0, t.1)) }
    }
}

/// The label cells are the cells of the texts that are not checkbox values:
/// each such text's cell is among them, and each of them is the cell of such
/// a text.
pub proof fn lemma_label_cells(texts: Seq<TemplateText>)
    ensures
        forall|i: int| 0 <= i < texts.len() && !is_bool_literal(#[trigger] texts[i].2@)
            ==> label_cells_spec(texts).contains((texts[i].0, texts[i].1)),
        forall|j: int| 0 <= j < label_cells_spec(texts).len() ==> exists|i: int| 0 <= i < texts.len()
            && !is_bool_literal(#[trigger] texts[i].2@) && #[trigger] label_cells_spec(texts)[j] == (texts[i].0, texts[i].1),
    decreases texts.len(),
{
    if texts.len() > 0 {
        let d = texts.drop_last();
        let t = texts.last();
        let rest = label_cells_spec(d);
        let cells = label_cells_spec(texts);
        lemma_label_cells(d);
        assert forall|i: int| 0 <= i < texts.len() && !is_bool_literal(#[trigger] texts[i].2@)
            implies cells.contains((texts[i].0, texts[i].1)) by {
            if i < texts.len() - 1 {
                assert(d[i] == texts[i]);
                let j = choose|j: int| 0 <= j < rest.len() && rest[j] == (d[i].0, d[i].1);
                if !is_bool_literal(t.2@) {
                    assert(cells[j] == rest[j]);
                }
            } else {
                assert(cells[cells.len() - 1] == (t.0, t.1));
            }
        }
        assert forall|j: int| 0 <= j < cells.len() implies exists|i: int| 0 <= i < texts.len()
            && !is_bool_literal(#[trigger] texts[i].2@) && #[trigger] cells[j] == (texts[i].0, texts[i].1) by {
            if j < rest.len() {
                assert(cells[j] == rest[j]);
                let i = choose|i: int| 0 <= i < d.len() && !is_bool_literal(#[trigger] d[i].2@) && rest[j] == (d[i].0, d[i].1);
                assert(texts[i] == d[i]);
            } else {
                assert(texts[texts.len() - 1] == t);
            }
        }
    }
}

/// The cells that hold a label: every template text but the checkbox values.
pub fn label_cells(texts: &Vec<TemplateText>) -> (cells: Vec<(i64, i64)>)
    ensures
        cells@ == label_cells_spec(texts@),
{
    let mut cells: Vec<(i64, i64)> = Vec::new();
    let mut i: usize = 0;
    while i < texts.len()
        invariant
            i <= texts@.len(),
            cells@ == label_cells_spec(texts@.take(i as int)),
        decreases texts@.len() - i,
    {
        proof {
            assert(texts@.take(i + 1).drop_last() =~= texts@.take(i as int));
        }
        if !bool_literal(texts[i].2.as_str()) {
            cells.push((texts[i].0, texts[i].1));
        }
        i = i + 1;
    }
    proof {
        assert(texts@.take(texts@.len() as int) =~= texts@);
    }
    cells
}

/// A merged range of the template: (first row, first column, last row, last column).
pub type Merge = (i64, i64, i64, i64);

/// The bottom-right cell of the merge that starts at (`r`, `c`): the last
/// such merge in the list wins; a cell that starts none is its own span.
pub open spec fn merge_span_spec(merges: Seq<Merge>, r: i64, c: i64) -> (i64, i64)
    decreases merges.len(),
{
    if merges.len() == 0 {
        (r, c)
    } else {
        let m = merges.last();
        if m.0 == r && m.1 == c { (m.2, m.3) } else { merge_span_spec(merges.drop_last(), r, c) }
    }
}

/// The bottom-right cell of the merged range that starts at (`r`, `c`), or
/// (`r`, `c`) itself where no range starts there.
pub fn merge_span(merges: &Vec<Merge>, r: i64, c: i64) -> (span: (i64, i64))
    ensures
        span == merge_span_spec(merges@, r, c),
{
    let mut i: usize = merges.len();
    proof {
        assert(merges@.take(i as int) =~= merges@);
    }
    while i > 0
        invariant
            i <= merges@.len(),
            merge_span_spec(merges@, r, c) == merge_span_spec(merges@.take(i as int), r, c),
        decreases i,
    {
        let m = merges[i - 1];
        proof {
            assert(merges@.take(i as int).drop_last() =~= merges@.take(i - 1));
        }
        if m.0 == r && m.1 == c {
            return (m.2, m.3);
        }
        i = i - 1;
    }
    (r, c)
}

/// Where a label in row `r` that may run right from column `cc` stops: just
/// before the first column from `cc` on that holds a label, or at the last
/// column of the sheet.
pub open spec fn overflow_end(labels: Seq<(i64, i64)>, r: i64, cc: int) -> int
    decreases SHEET_COLS + 1 - cc,
{
    if cc > SHEET_COLS || labels.contains((r, cc as i64)) {
        cc - 1
    } else {
        overflow_end(labels, r, cc + 1)
    }
}

/// A label that runs right from column `c` stops at the sheet's edge or just
/// before the next label in its row, and runs over no label on the way.
pub proof fn lemma_overflow_stops_at_label(labels: Seq<(i64, i64)>, r: i64, c: int, cc: int)
    requires
        c < cc <= SHEET_COLS + 1,
        forall|k: i64| c < k < cc ==> !#[trigger] labels.contains((r, k)),
    ensures
        c <= overflow_end(labels, r, cc) <= SHEET_COLS,
        forall|k: i64| c < k <= overflow_end(labels, r, cc) ==> !#[trigger] labels.contains((r, k)),
        overflow_end(labels, r, cc) == SHEET_COLS || labels.contains((r, (overflow_end(labels, r, cc) + 1) as i64)),
    decreases SHEET_COLS + 1 - cc,
{
    if !(cc > SHEET_COLS || labels.contains((r, cc as i64))) {
        lemma_overflow_stops_at_label(labels, r, c, cc + 1);
    }
}

/// The last column a label at (`r`, `c`) is drawn across. A merged label
/// keeps its merge; a left-aligned label in a single cell (`h == 0`) runs
/// right over empty cells, as a spreadsheet shows it, up to the next label
/// or the sheet's edge; a centred or right-aligned one keeps its cell.
pub open spec fn label_last_col(merges: Seq<Merge>, labels: Seq<(i64, i64)>, r: i64, c: i64, h: u8) -> int {
    let c1 = merge_span_spec(merges, r, c).1;
    if c1 == c && h == 0 { overflow_end(labels, r, c + 1) } else { c1 as int }
}

/// Where merged ranges start at (`r`, `c`), the last of them gives the span
/// (a later range for the same cell replaces an earlier one); where none
/// does, the cell is its own span.
pub proof fn lemma_merge_span(merges: Seq<Merge>, r: i64, c: i64)
    ensures
        (forall|i: int| 0 <= i < merges.len() ==> !(#[trigger] merges[i].0 == r && merges[i].1 == c))
            ==> merge_span_spec(merges, r, c) == (r, c),
        (exists|i: int| 0 <= i < merges.len() && #[trigger] merges[i].0 == r && merges[i].1 == c) ==> exists|i: int|
            0 <= i < merges.len() && #[trigger] merges[i].0 == r && merges[i].1 == c
            && merge_span_spec(merges, r, c) == (merges[i].2, merges[i].3)
            && forall|j: int| i < j < merges.len() ==> !(#[trigger] merges[j].0 == r && merges[j].1 == c),
    decreases merges.len(),
{
    if merges.len() > 0 {
        let d = merges.drop_last();
        let n = merges.len() - 1;
        lemma_merge_span(d, r, c);
        assert forall|i: int| 0 <= i < n implies #[trigger] d[i] == merges[i] by {}
        if merges[n].0 == r && merges[n].1 == c {
            assert(merges[n].0 == r && merges[n].1 == c && merge_span_spec(merges, r, c) == (merges[n].2, merges[n].3));
        } else if exists|i: int| 0 <= i < merges.len() && #[trigger] merges[i].0 == r && merges[i].1 == c {
            let i = choose|i: int| 0 <= i < merges.len() && #[trigger] merges[i].0 == r && merges[i].1 == c;
            assert(d[i] == merges[i]);
            let w = choose|w: int| 0 <= w < d.len() && #[trigger] d[w].0 == r && d[w].1 == c
                && merge_span_spec(d, r, c) == (d[w].2, d[w].3)
                && forall|j: int| w < j < d.len() ==> !(#[trigger] d[j].0 == r && d[j].1 == c);
            assert(merges[w] == d[w]);
            assert forall|j: int| w < j < merges.len() implies !(#[trigger] merges[j].0 == r && merges[j].1 == c) by {
                if j < n {
                    assert(merges[j] == d[j]);
                }
            }
        } else {
            assert forall|i: int| 0 <= i < d.len() implies !(#[trigger] d[i].0 == r && d[i].1 == c) by {
                assert(d[i] == merges[i]);
            }
        }
    }
}

/// How far a label is drawn. A centred or right-aligned label (`h != 0`), and
/// a merged one, is drawn across exactly its merge span. A left-aligned label
/// in a single cell runs right over the cells without a label, and stops at
/// the sheet's last column or just before the next label in its row.
pub proof fn lemma_label_extent(merges: Seq<Merge>, labels: Seq<(i64, i64)>, r: i64, c: i64, h: u8)
    ensures
        h != 0 ==> label_last_col(merges, labels, r, c, h) == merge_span_spec(merges, r, c).1,
        merge_span_spec(merges, r, c).1 != c ==> label_last_col(merges, labels, r, c, h) == merge_span_spec(merges, r, c).1,
        h == 0 && merge_span_spec(merges, r, c).1 == c && c <= SHEET_COLS ==> {
            let last = label_last_col(merges, labels, r, c, h);
            &&& c <= last <= SHEET_COLS
            &&& forall|k: i64| c < k <= last ==> !#[trigger] labels.contains((r, k))
            &&& last == SHEET_COLS || labels.contains((r, (last + 1) as i64))
        },
        c > SHEET_COLS ==> label_last_col(merges, labels, r, c, h) == merge_span_spec(merges, r, c).1,
{
    if c <= SHEET_COLS {
        lemma_overflow_stops_at_label(labels, r, c as int, c + 1);
    }
}

/// Whether the list holds cell (`r`, `c`).
fn has_cell(cells: &Vec<(i64, i64)>, r: i64, c: i64) -> (b: bool)
    ensures
        b == cells@.contains((r, c)),
{
    let mut i: usize = 0;
    while i < cells.len()
        invariant
            i <= cells@.len(),
            forall|j: int| 0 <= j < i ==> cells@[j] != (r, c),
        decreases cells@.len() - i,
    {
        if cells[i].0 == r && cells[i].1 == c {
            proof {
                assert(cells@[i as int] == (r, c));
            }
            return true;
        }
        i = i + 1;
    }
    false
}

/// The last column that the label at (`r`, `c`), aligned by `h` (0 left,
/// 1 centre, 2 right), is drawn across.
pub fn label_last_column(merges: &Vec<Merge>, labels: &Vec<(i64, i64)>, r: i64, c: i64, h: u8) -> (last: i64)
    requires
        c < i64::MAX,
    ensures
        last as int == label_last_col(merges@, labels@, r, c, h),
{
    let (_r1, c1) = merge_span(merges, r, c);
    if c1 == c && h == 0 {
        let mut cc = c + 1;
        proof {
            assert(overflow_end(labels@, r, c + 1) == overflow_end(labels@, r, cc as int));
        }
        while cc <= SHEET_COLS && !has_cell(labels, r, cc)
            invariant
                overflow_end(labels@, r, c + 1) == overflow_end(labels@, r, cc as int),
                cc <= SHEET_COLS + 1 || cc == c + 1,
                cc >= c + 1,
                c < i64::MAX,
            decreases SHEET_COLS + 1 - cc,
        {
            cc = cc + 1;
        }
        cc - 1
    } else {
        c1
    }
}

/// Truncating division of `r - 1` by [`ROWS_PER_PAGE`], as `i64` division does.
pub open spec fn row_page_spec(r: int) -> (int, int) {
    if r >= 1 {
        ((r - 1) / ROWS_PER_PAGE as int, (r - 1) % ROWS_PER_PAGE as int)
    } else {
        (-((1 - r) / ROWS_PER_PAGE as int), -((1 - r) % ROWS_PER_PAGE as int))
    }
}

/// A sheet row from 1 on lands on one page at one place: page and place
/// give the row back, and the place lies on the page.
pub proof fn lemma_row_page(r: int)
    requires
        r >= 1,
    ensures
        row_page_spec(r).0 >= 0,
        0 <= row_page_spec(r).1 < ROWS_PER_PAGE,
        row_page_spec(r).0 * ROWS_PER_PAGE + row_page_spec(r).1 + 1 == r,
{
}

/// The page (from 0) that sheet row `r` (from 1) is drawn on, and the row's
/// place on that page (from 0).
pub fn row_page(r: i64) -> (p: (i64, i64))
    requires
        r > i64::MIN,
    ensures
        (p.0 as int, p.1 as int) == row_page_spec(r as int),
{
    if r >= 1 {
        let d = r - 1;
        (d / ROWS_PER_PAGE, d % ROWS_PER_PAGE)
    } else {
        let m: u64 = (-r) as u64 + 1;
        let q = (m / 67) as i64;
        let rem = (m % 67) as i64;
        (-q, -rem)
    }
}

/// The number of pages the sheet takes: one more than the page of its last row.
pub open spec fn page_count_spec() -> int {
    row_page_spec(SHEET_ROWS as int).0 + 1
}

/// The number of pages the sheet takes.
pub fn page_count() -> (n: usize)
    ensures
        n == page_count_spec(),
{
    let (p, _) = row_page(SHEET_ROWS);
    (p + 1) as usize
}

/// Every row of the sheet lands on one of its pages.
pub proof fn lemma_rows_within_pages(r: int)
    requires
        1 <= r <= SHEET_ROWS,
    ensures
        0 <= row_page_spec(r).0 < page_count_spec(),
{
    lemma_row_page(r);
}

/// The sheet is cut into pages of 67 rows: rows 1 to 67 are on the first
/// page, in order from its top, and rows 68 to 134 on the second; the sheet's
/// 74 rows take two pages.
pub proof fn lemma_pages(r: int)
    ensures
        1 <= r <= 67 ==> row_page_spec(r) == (0int, r - 1),
        68 <= r <= 134 ==> row_page_spec(r) == (1int, r - 68),
        page_count_spec() == 2,
{
}

/// A character's WinAnsi byte: Latin-1 characters (below U+0100) keep their
/// code, every other character becomes `?`.
pub proof fn lemma_winansi_byte(c: char)
    ensures
        (c as u32) < 256 ==> winansi_byte(c) as u32 == c as u32,
        (c as u32) >= 256 ==> winansi_byte(c) == 63u8,
{
    let v = c as u32;
    if v < 256 {
        assert((v as u8) as u32 == v) by (bit_vector)
            requires v < 256;
    }
}

/// Alignment codes: 1 exactly for `center`, 2 exactly for `right`, 0 for
/// anything else.
pub proof fn lemma_halign(h: Seq<char>)
    ensures
        halign_spec(h) == 1 <==> h == "center"@,
        halign_spec(h) == 2 <==> h == "right"@,
        halign_spec(h) == 0 <==> (h != "center"@ && h != "right"@),
{
    reveal_strlit("center");
    reveal_strlit("right");
    assert("center"@ != "right"@) by {
        assert("center"@.len() != "right"@.len());
    }
}

/// A character's code with ASCII capitals taken to small letters.
pub open spec fn ascii_lower_code(c: char) -> int {
    if 'A' <= c <= 'Z' { (c as int) + 32 } else { c as int }
}

/// Two characters are equal but for ASCII case exactly when they are equal
/// once ASCII capitals are made small; no other characters are folded.
pub proof fn lemma_ascii_case_fold(a: char, b: char)
    ensures
        ascii_eq_ignore_case(a, b) <==> ascii_lower_code(a) == ascii_lower_code(b),
{
}

/// The rows a multi-row text area gives its lines: line `k` goes on row
/// `top + k`; lines past the area's last row `bottom` are not drawn.
pub fn line_rows(lines: usize, top: i64, bottom: i64) -> (rows: Vec<i64>)
    requires
        top <= bottom,
        bottom < i64::MAX,
    ensures
        rows@.len() == (if lines <= bottom - top + 1 { lines as int } else { bottom - top + 1 }),
        forall|k: int| 0 <= k < rows@.len() ==> rows@[k] == top + k,
{
    let mut rows: Vec<i64> = Vec::new();
    let mut row = top;
    let mut k: usize = 0;
    while k < lines && row <= bottom
        invariant
            top <= row <= bottom + 1,
            bottom < i64::MAX,
            row == top + k,
            k <= lines,
            rows@.len() == k,
            forall|j: int| 0 <= j < k ==> rows@[j] == top + j,
        decreases lines - k,
    {
        rows.push(row);
        row = row + 1;
        k = k + 1;
    }
    rows
}

/// PDF object number of the catalog.
pub const CATALOG_REF: i32 = 1;
/// PDF object number of the page tree.
pub const PAGE_TREE_REF: i32 = 2;
/// PDF object number of the regular font.
pub const FONT_REGULAR_REF: i32 = 3;
/// PDF object number of the bold font.
pub const FONT_BOLD_REF: i32 = 4;
/// PDF object number of the logo image.
pub const LOGO_REF: i32 = 5;

/// The fixed objects are numbered as the PDF's writer numbers them: the
/// catalog 1, the page tree 2, the regular font 3, the bold font 4 and the
/// logo 5, all different.
pub proof fn lemma_fixed_object_numbers()
    ensures
        CATALOG_REF == 1 && PAGE_TREE_REF == 2 && FONT_REGULAR_REF == 3 && FONT_BOLD_REF == 4 && LOGO_REF == 5,
{
}

/// Every PDF object gets a number of its own: the fixed objects 1 to 5, the
/// pages and the content streams that [`object_numbers`] numbers never meet.
pub proof fn lemma_object_numbers_distinct(npages: int, i: int, j: int)
    requires
        0 <= i < npages,
        0 <= j < npages,
    ensures
        6 + i > LOGO_REF,
        6 + i != 6 + npages + j,
        i != j ==> 6 + i != 6 + j && 6 + npages + i != 6 + npages + j,
{
}

/// Object numbers for the pages and for their content streams: the pages
/// take the numbers from 6 on, the content streams those after them.
pub fn object_numbers(npages: usize) -> (refs: (Vec<i32>, Vec<i32>))
    requires
        6 + 2 * npages <= i32::MAX,
    ensures
        refs.0@.len() == npages,
        refs.1@.len() == npages,
        forall|i: int| 0 <= i < npages ==> refs.0@[i] == 6 + i && refs.1@[i] == 6 + npages + i,
{
    let mut pages: Vec<i32> = Vec::new();
    let mut contents: Vec<i32> = Vec::new();
    let mut i: usize = 0;
    while i < npages
        invariant
            6 + 2 * npages <= i32::MAX,
            i <= npages,
            pages@.len() == i,
            forall|j: int| 0 <= j < i ==> pages@[j] == 6 + j,
        decreases npages - i,
    {
        pages.push(6 + i as i32);
        i = i + 1;
    }
    let mut i: usize = 0;
    while i < npages
        invariant
            6 + 2 * npages <= i32::MAX,
            i <= npages,
            contents@.len() == i,
            forall|j: int| 0 <= j < i ==> contents@[j] == 6 + npages + j,
        decreases npages - i,
    {
        contents.push(6 + (npages + i) as i32);
        i = i + 1;
    }
    (pages, contents)
}

/// The alignment code of a template text: 1 for `center`, 2 for `right`,
/// 0 (left) for anything else.
pub open spec fn halign_spec(h: Seq<char>) -> u8 {
    if h == "center"@ { 1 } else if h == "right"@ { 2 } else { 0 }
}

/// The alignment code of a template text's `h` value.
pub fn halign_code(h: &str) -> (code: u8)
    ensures
        code == halign_spec(h@),
{
    let hs = h.to_owned();
    if hs == "center".to_owned() {
        1
    } else if hs == "right".to_owned() {
        2
    } else {
        0
    }
}

/// A JPEG logo for the page header: its bytes and its size in pixels.
pub struct Logo<'a> {
    pub jpeg: &'a [u8],
    pub w: i32,
    pub h: i32,
}

} // verus!
