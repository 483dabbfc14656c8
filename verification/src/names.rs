//! Field names with a digit in them (`wip_3_lab`, `wf_0_7_crew`).

use vstd::prelude::*;
use vstd::string::StringExecFns;

verus! {

/// The decimal digit for `d` (below ten).
pub open spec fn digit_char(d: int) -> char {
    if d == 0 { '0' }
    else if d == 1 { '1' }
    else if d == 2 { '2' }
    else if d == 3 { '3' }
    else if d == 4 { '4' }
    else if d == 5 { '5' }
    else if d == 6 { '6' }
    else if d == 7 { '7' }
    else if d == 8 { '8' }
    else { '9' }
}

/// The digit for `d` is the character whose code is that of `0` plus `d`,
/// as decimal numerals are written.
pub proof fn lemma_digit_char(d: int)
    requires
        0 <= d < 10,
    ensures
        digit_char(d) as int == 48 + d,
{
}

/// The decimal digit for `d` as text.
pub fn digit_str(d: usize) -> (s: &'static str)
    requires
        d < 10,
    ensures
        s@ == seq![digit_char(d as int)],
{
    if d == 0 { proof { reveal_strlit("0"); } "0" }
    else if d == 1 { proof { reveal_strlit("1"); } "1" }
    else if d == 2 { proof { reveal_strlit("2"); } "2" }
    else if d == 3 { proof { reveal_strlit("3"); } "3" }
    else if d == 4 { proof { reveal_strlit("4"); } "4" }
    else if d == 5 { proof { reveal_strlit("5"); } "5" }
    else if d == 6 { proof { reveal_strlit("6"); } "6" }
    else if d == 7 { proof { reveal_strlit("7"); } "7" }
    else if d == 8 { proof { reveal_strlit("8"); } "8" }
    else { proof { reveal_strlit("9"); } "9" }
}

/// `prefix`, the digit `i`, then `suffix`.
pub open spec fn spec_indexed_name(prefix: Seq<char>, i: int, suffix: Seq<char>) -> Seq<char> {
    prefix + seq![digit_char(i)] + suffix
}

/// `prefix`, the digit `i`, then `suffix` (as `format!("{prefix}{i}{suffix}")` writes it).
pub fn indexed_name(prefix: &str, i: usize, suffix: &str) -> (s: String)
    requires
        i < 10,
    ensures
        s@ == spec_indexed_name(prefix@, i as int, suffix@),
{
    let mut s = prefix.to_owned();
    s.append(digit_str(i));
    s.append(suffix);
    s
}

/// `prefix`, the digit `i`, `middle`, the digit `j`, then `suffix`.
pub open spec fn spec_indexed_name2(prefix: Seq<char>, i: int, middle: Seq<char>, j: int, suffix: Seq<char>) -> Seq<char> {
    prefix + seq![digit_char(i)] + middle + seq![digit_char(j)] + suffix
}

/// `prefix`, the digit `i`, `middle`, the digit `j`, then `suffix`.
pub fn indexed_name2(prefix: &str, i: usize, middle: &str, j: usize, suffix: &str) -> (s: String)
    requires
        i < 10,
        j < 10,
    ensures
        s@ == spec_indexed_name2(prefix@, i as int, middle@, j as int, suffix@),
{
    let mut s = prefix.to_owned();
    s.append(digit_str(i));
    s.append(middle);
    s.append(digit_str(j));
    s.append(suffix);
    s
}

} // verus!
