//! The name under which an exported report or draft is saved:
//! `DailyReport_<date>_<location>.<ext>`.

use vstd::prelude::*;
use vstd::string::{StrSliceExecFns, StringExecFns};
use crate::report::{ReportData, field_text};
use crate::chars::{is_alphanumeric, char_is_alphanumeric, push_char};

verus! {

/// `s` with every character that is not alphanumeric replaced by `_`.
pub open spec fn sanitize(s: Seq<char>) -> Seq<char> {
    s.map_values(|c: char| if is_alphanumeric(c) { c } else { '_' })
}

/// `s` without its leading underscores.
pub open spec fn strip_leading(s: Seq<char>) -> Seq<char>
    decreases s.len(),
{
    if s.len() > 0 && s[0] == '_' {
        strip_leading(s.drop_first())
    } else {
        s
    }
}

/// `s` without its trailing underscores.
pub open spec fn strip_trailing(s: Seq<char>) -> Seq<char>
    decreases s.len(),
{
    if s.len() > 0 && s.last() == '_' {
        strip_trailing(s.drop_last())
    } else {
        s
    }
}

/// The most characters of the location that a file name keeps.
pub const LOCATION_CHARS: usize = 40;

/// The location as a file name holds it: non-alphanumeric characters
/// replaced by `_`, underscores trimmed from both ends, at most
/// [`LOCATION_CHARS`] characters.
pub open spec fn filename_location(loc: Seq<char>) -> Seq<char> {
    let t = strip_trailing(strip_leading(sanitize(loc)));
    if t.len() > LOCATION_CHARS { t.take(LOCATION_CHARS as int) } else { t }
}

/// `DailyReport`, then `_` and the date where there is one, then `_` and the
/// location where anything of it is left, then `.` and the extension.
pub open spec fn spec_report_filename(date: Seq<char>, location: Seq<char>, ext: Seq<char>) -> Seq<char> {
    let loc = filename_location(location);
    "DailyReport"@
        + (if date.len() > 0 { "_"@ + date } else { Seq::empty() })
        + (if loc.len() > 0 { "_"@ + loc } else { Seq::empty() })
        + "."@ + ext
}

proof fn lemma_strip_leading(s: Seq<char>, i: int)
    requires
        0 <= i <= s.len(),
        forall|j: int| 0 <= j < i ==> s[j] == '_',
        i == s.len() || s[i] != '_',
    ensures
        strip_leading(s) == s.subrange(i, s.len() as int),
    decreases i,
{
    if i > 0 {
        let d = s.drop_first();
        assert forall|j: int| 0 <= j < i - 1 implies d[j] == '_' by {
            assert(d[j] == s[j + 1]);
        }
        if i < s.len() {
            assert(d[i - 1] == s[i]);
        }
        lemma_strip_leading(d, i - 1);
        assert(d.subrange(i - 1, d.len() as int) =~= s.subrange(i, s.len() as int));
    } else {
        assert(s.subrange(0, s.len() as int) =~= s);
    }
}

proof fn lemma_strip_trailing(s: Seq<char>, e: int)
    requires
        0 <= e <= s.len(),
        forall|j: int| e <= j < s.len() ==> s[j] == '_',
        e == 0 || s[e - 1] != '_',
    ensures
        strip_trailing(s) == s.subrange(0, e),
    decreases s.len() - e,
{
    if e < s.len() {
        let d = s.drop_last();
        lemma_strip_trailing(d, e);
        assert(d.subrange(0, e) =~= s.subrange(0, e));
    } else {
        assert(s.subrange(0, e) =~= s);
    }
}

/// The file name for saving a form: `DailyReport`, then `_` and the date
/// where it has one, then `_` and the location (see [`filename_location`])
/// where anything of it is left, then `.` and `ext`.
pub fn report_filename(data: &ReportData, ext: &str) -> (name: String)
    ensures
        name@ == spec_report_filename(
            field_text(data.text_view(), "date"@),
            field_text(data.text_view(), "location"@),
            ext@,
        ),
{
    let date = data.t("date");
    let location = data.t("location");
    let n = location.unicode_len();
    let mut clean: Vec<char> = Vec::new();
    let mut i: usize = 0;
    while i < n
        invariant
            n == location@.len(),
            i <= n,
            clean@ == sanitize(location@).take(i as int),
        decreases n - i,
    {
        let c = location.get_char(i);
        let k = if char_is_alphanumeric(c) { c } else { '_' };
        clean.push(k);
        proof {
            assert(clean@ =~= sanitize(location@).take(i + 1));
        }
        i = i + 1;
    }
    proof {
        assert(clean@ =~= sanitize(location@));
    }
    let mut a: usize = 0;
    while a < n && clean[a] == '_'
        invariant
            n == clean@.len(),
            a <= n,
            forall|j: int| 0 <= j < a ==> clean@[j] == '_',
        decreases n - a,
    {
        a = a + 1;
    }
    let mut b: usize = n;
    while b > a && clean[b - 1] == '_'
        invariant
            n == clean@.len(),
            a <= b <= n,
            forall|j: int| b <= j < n ==> clean@[j] == '_',
        decreases b,
    {
        b = b - 1;
    }
    let ghost mid = clean@.subrange(a as int, n as int);
    proof {
        lemma_strip_leading(clean@, a as int);
        assert forall|j: int| b - a <= j < mid.len() implies mid[j] == '_' by {
            assert(mid[j] == clean@[a + j]);
        }
        if b > a {
            assert(mid[b - a - 1] == clean@[b - 1]);
        }
        lemma_strip_trailing(mid, (b - a) as int);
        assert(mid.subrange(0, (b - a) as int) =~= clean@.subrange(a as int, b as int));
    }
    let stop = if b - a > LOCATION_CHARS { a + LOCATION_CHARS } else { b };
    let mut loc = String::new();
    let mut j: usize = a;
    while j < stop
        invariant
            a <= j <= stop <= b <= n,
            n == clean@.len(),
            loc@ == clean@.subrange(a as int, j as int),
        decreases stop - j,
    {
        push_char(&mut loc, clean[j]);
        proof {
            assert(loc@ =~= clean@.subrange(a as int, j + 1));
        }
        j = j + 1;
    }
    proof {
        assert(loc@ =~= filename_location(location@));
    }
    let mut name = "DailyReport".to_owned();
    if date.unicode_len() > 0 {
        name.append("_");
        name.append(date);
    }
    if loc.unicode_len() > 0 {
        name.append("_");
        name.append(loc.as_str());
    }
    name.append(".");
    name.append(ext);
    name
}

/// How a file name is made up: `DailyReport`; then `_` and the date whenever
/// the date is not empty, whatever the location; then `_` and the location
/// where anything of it is left; and `.` and the extension at its end.
pub proof fn lemma_filename_parts(date: Seq<char>, location: Seq<char>, ext: Seq<char>)
    ensures
        ({
            let name = spec_report_filename(date, location, ext);
            let loc = filename_location(location);
            &&& name.take(11) == "DailyReport"@
            &&& date.len() > 0 ==> name.take(12 + date.len() as int) == "DailyReport_"@ + date
            &&& date.len() > 0 && loc.len() == 0 ==> name == "DailyReport_"@ + date + "."@ + ext
            &&& date.len() == 0 && loc.len() == 0 ==> name == "DailyReport."@ + ext
            &&& date.len() == 0 && loc.len() > 0 ==> name == "DailyReport_"@ + loc + "."@ + ext
            &&& loc.len() > 0 ==> name.skip(name.len() - (loc.len() + ext.len() + 2)) == "_"@ + loc + "."@ + ext
            &&& name.skip(name.len() - (ext.len() + 1)) == "."@ + ext
            &&& name.len() == 12 + ext.len() + (if date.len() > 0 { date.len() + 1 } else { 0 })
                + (if loc.len() > 0 { loc.len() + 1 } else { 0 })
        }),
{
    reveal_strlit("DailyReport");
    reveal_strlit("DailyReport_");
    reveal_strlit("DailyReport.");
    reveal_strlit("_");
    reveal_strlit(".");
    let name = spec_report_filename(date, location, ext);
    let loc = filename_location(location);
    let d = if date.len() > 0 { "_"@ + date } else { Seq::empty() };
    let l = if loc.len() > 0 { "_"@ + loc } else { Seq::empty() };
    assert(name == "DailyReport"@ + d + l + "."@ + ext);
    assert(name.take(11) =~= "DailyReport"@);
    if date.len() > 0 {
        assert(name.take(12 + date.len() as int) =~= "DailyReport_"@ + date);
    }
    if date.len() > 0 && loc.len() == 0 {
        assert(name =~= "DailyReport_"@ + date + "."@ + ext);
    }
    if date.len() == 0 && loc.len() == 0 {
        assert(name =~= "DailyReport."@ + ext);
    }
    if date.len() == 0 && loc.len() > 0 {
        assert(name =~= "DailyReport_"@ + loc + "."@ + ext);
    }
    if loc.len() > 0 {
        assert(name.skip(name.len() - (loc.len() + ext.len() + 2)) =~= "_"@ + loc + "."@ + ext);
    }
    assert(name.skip(name.len() - (ext.len() + 1)) =~= "."@ + ext);
}

/// The location as a file name holds it: only alphanumeric characters and
/// `_`, never starting with `_`, at most 40 characters, and cut to exactly 40
/// only where more is left.
pub proof fn lemma_filename_location(location: Seq<char>)
    ensures
        ({
            let loc = filename_location(location);
            let t = strip_trailing(strip_leading(sanitize(location)));
            &&& forall|i: int| 0 <= i < loc.len() ==> #[trigger] loc[i] == '_' || is_alphanumeric(loc[i])
            &&& loc.len() > 0 ==> loc[0] != '_'
            &&& loc.len() <= 40
            &&& (t.len() > 40 ==> loc.len() == 40)
            &&& (t.len() <= 40 ==> loc == t)
            &&& loc == t.take(loc.len() as int)
        }),
{
    let sa = sanitize(location);
    let n = sa.len();
    let a = if exists|i: int| 0 <= i < n && sa[i] != '_' {
        choose|i: int| 0 <= i < n && sa[i] != '_' && forall|j: int| 0 <= j < i ==> sa[j] == '_'
    } else {
        n as int
    };
    lemma_first_non_underscore(sa);
    lemma_strip_leading(sa, a);
    let mid = sa.subrange(a, n as int);
    let e = lemma_last_non_underscore(mid);
    lemma_strip_trailing(mid, e);
    let t = strip_trailing(strip_leading(sa));
    assert(t == mid.subrange(0, e));
    assert forall|i: int| 0 <= i < t.len() implies #[trigger] t[i] == '_' || is_alphanumeric(t[i]) by {
        assert(t[i] == sa[a + i]);
        assert(sa[a + i] == (if is_alphanumeric(location[a + i]) { location[a + i] } else { '_' }));
    }
    if t.len() > 0 {
        assert(t[0] == sa[a]);
    }
    let loc = filename_location(location);
    if t.len() > 40 {
        assert(loc == t.take(40));
    } else {
        assert(t.take(t.len() as int) =~= t);
    }
}

/// The index of the first character that is not `_` (or the length).
proof fn lemma_first_non_underscore(s: Seq<char>)
    ensures
        (exists|i: int| 0 <= i < s.len() && s[i] != '_') ==> exists|i: int| 0 <= i < s.len() && s[i] != '_'
            && forall|j: int| 0 <= j < i ==> s[j] == '_',
    decreases s.len(),
{
    if s.len() > 0 && s[0] == '_' {
        let d = s.drop_first();
        lemma_first_non_underscore(d);
        if exists|i: int| 0 <= i < s.len() && s[i] != '_' {
            let i = choose|i: int| 0 <= i < s.len() && s[i] != '_';
            assert(d[i - 1] == s[i]);
            let w = choose|w: int| 0 <= w < d.len() && d[w] != '_' && forall|j: int| 0 <= j < w ==> d[j] == '_';
            assert(s[w + 1] == d[w]);
            assert forall|j: int| 0 <= j < w + 1 implies s[j] == '_' by {
                if j > 0 {
                    assert(s[j] == d[j - 1]);
                }
            }
        }
    } else if s.len() > 0 {
        assert(s[0] != '_');
    }
}

/// The end of `s` without its trailing underscores.
proof fn lemma_last_non_underscore(s: Seq<char>) -> (e: int)
    ensures
        0 <= e <= s.len(),
        forall|j: int| e <= j < s.len() ==> s[j] == '_',
        e == 0 || s[e - 1] != '_',
    decreases s.len(),
{
    if s.len() == 0 {
        0
    } else if s.last() != '_' {
        s.len() as int
    } else {
        let e = lemma_last_non_underscore(s.drop_last());
        assert forall|j: int| e <= j < s.len() implies s[j] == '_' by {
            if j < s.len() - 1 {
                assert(s[j] == s.drop_last()[j]);
            }
        }
        if e > 0 {
            assert(s[e - 1] == s.drop_last()[e - 1]);
        }
        e
    }
}

} // verus!
