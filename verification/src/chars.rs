//! Character tests and string building that std provides.

use vstd::prelude::*;

verus! {

/// Whether std's `char::is_alphanumeric` holds of `c` (Unicode Alphabetic or Numeric).
pub uninterp spec fn spec_is_alphanumeric(c: char) -> bool;

/// Whether `c` is an ASCII letter or digit.
pub open spec fn is_ascii_alphanumeric(c: char) -> bool {
    ||| 'a' <= c <= 'z'
    ||| 'A' <= c <= 'Z'
    ||| '0' <= c <= '9'
}

/// Whether `c` is alphanumeric as std's `char::is_alphanumeric` has it: an
/// ASCII letter or digit for an ASCII character, [`spec_is_alphanumeric`]
/// beyond ASCII.
pub open spec fn is_alphanumeric(c: char) -> bool {
    if c <= '\u{7f}' { is_ascii_alphanumeric(c) } else { spec_is_alphanumeric(c) }
}

/// Calls `char::is_alphanumeric`.
///
/// Trusted: of an ASCII character, std documents the result as being an
/// ASCII letter or digit; beyond ASCII it is std's, named
/// [`spec_is_alphanumeric`]. Which characters beyond ASCII are alphanumeric
/// (Unicode Alphabetic or Numeric) is not stated.
#[verifier::external_body]
pub(crate) fn char_is_alphanumeric(c: char) -> (b: bool)
    ensures
        c <= '\u{7f}' ==> (b <==> is_ascii_alphanumeric(c)),
        c > '\u{7f}' ==> b == spec_is_alphanumeric(c),
{
    c.is_alphanumeric()
}

/// Appends a character to a string with `String::push`.
///
/// Trusted: as std documents it, the character is added at the end.
#[verifier::external_body]
pub(crate) fn push_char(s: &mut String, c: char)
    ensures
        final(s)@ == old(s)@.push(c),
{
    s.push(c)
}

/// Whether `c` has the Unicode White_Space property, which std's
/// `char::is_whitespace` tests: U+0009 to U+000D, U+0020, U+0085, U+00A0,
/// U+1680, U+2000 to U+200A, U+2028, U+2029, U+202F, U+205F and U+3000.
pub open spec fn spec_is_whitespace(c: char) -> bool {
    ||| '\u{9}' <= c <= '\u{d}'
    ||| c == ' '
    ||| c == '\u{85}'
    ||| c == '\u{a0}'
    ||| c == '\u{1680}'
    ||| '\u{2000}' <= c <= '\u{200a}'
    ||| c == '\u{2028}'
    ||| c == '\u{2029}'
    ||| c == '\u{202f}'
    ||| c == '\u{205f}'
    ||| c == '\u{3000}'
}

/// Whether `c` is whitespace, as `char::is_whitespace` has it.
pub fn char_is_whitespace(c: char) -> (b: bool)
    ensures
        b == spec_is_whitespace(c),
{
    ('\u{9}' <= c && c <= '\u{d}')
        || c == ' '
        || c == '\u{85}'
        || c == '\u{a0}'
        || c == '\u{1680}'
        || ('\u{2000}' <= c && c <= '\u{200a}')
        || c == '\u{2028}'
        || c == '\u{2029}'
        || c == '\u{202f}'
        || c == '\u{205f}'
        || c == '\u{3000}'
}

/// The characters that separate words are exactly those with the Unicode
/// White_Space property, by code point: U+0009 to U+000D, U+0020, U+0085,
/// U+00A0, U+1680, U+2000 to U+200A, U+2028, U+2029, U+202F, U+205F and
/// U+3000. In particular no visible ASCII character (`!` to `~`, such as
/// `-`) is whitespace.
pub proof fn lemma_whitespace_code_points(c: char)
    ensures
        spec_is_whitespace(c) <==> ({
            let u = c as u32;
            ||| 9 <= u <= 13
            ||| u == 32
            ||| u == 0x85
            ||| u == 0xa0
            ||| u == 0x1680
            ||| 0x2000 <= u <= 0x200a
            ||| u == 0x2028
            ||| u == 0x2029
            ||| u == 0x202f
            ||| u == 0x205f
            ||| u == 0x3000
        }),
        33 <= c as u32 <= 126 ==> !spec_is_whitespace(c),
{
}

} // verus!
