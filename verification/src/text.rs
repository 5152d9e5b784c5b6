//! Operations on text that the history needs: equality, previews and the
//! case-insensitive search.

use vstd::prelude::*;
use vstd::string::*;
use vstd::utf8::*;

verus! {

/// The marker that ends a preview whose text was cut.
pub open spec fn ellipsis() -> Seq<char> {
    seq!['.', '.', '.']
}

/// The preview of `content` under a bound of `max_chars` Unicode scalar values: the
/// text itself where it fits, else its first `max_chars` scalar values and the marker.
pub open spec fn preview_of(content: Seq<char>, max_chars: nat) -> Seq<char> {
    if content.len() > max_chars {
        content.subrange(0, max_chars as int) + ellipsis()
    } else {
        content
    }
}

/// Whether `needle` occurs in `hay` as a run of consecutive scalar values.
pub open spec fn occurs_in(needle: Seq<char>, hay: Seq<char>) -> bool {
    exists|i: int|
        0 <= i <= hay.len() - needle.len() && #[trigger] hay.subrange(i, i + needle.len())
            == needle
}

/// The lower-case form that `str::to_lowercase` gives `text`.
pub uninterp spec fn lowercase_of(text: Seq<char>) -> Seq<char>;

/// Calls `str::to_lowercase`. Trusted: the result is the named lower-case form.
#[verifier::external_body]
pub(crate) fn to_lowercase(text: &str) -> (lower: String)
    ensures
        lower@ == lowercase_of(text@),
{
    text.to_lowercase()
}

/// Calls `str::contains` with a string pattern. Trusted: it tells whether the pattern
/// occurs in the text.
#[verifier::external_body]
pub(crate) fn str_contains(hay: &str, needle: &str) -> (found: bool)
    ensures
        found == occurs_in(needle@, hay@),
{
    hay.contains(needle)
}

/// Whether two texts hold the same scalar values.
pub fn str_eq(a: &str, b: &str) -> (same: bool)
    ensures
        same == (a@ == b@),
{
    let x = a.as_bytes();
    let y = b.as_bytes();
    proof {
        encode_utf8_decode_utf8(a@);
        encode_utf8_decode_utf8(b@);
    }
    if x.len() != y.len() {
        return false;
    }
    let mut i: usize = 0;
    while i < x.len()
        invariant
            i <= x@.len(),
            x@.len() == y@.len(),
            x@ == encode_utf8(a@),
            y@ == encode_utf8(b@),
            forall|k: int| 0 <= k < i ==> x@[k] == y@[k],
        decreases x.len() - i,
    {
        if x[i] != y[i] {
            return false;
        }
        i += 1;
    }
    assert(x@ =~= y@);
    true
}

/// Makes the preview of `content`: at most `max_chars` Unicode scalar values of it,
/// followed by the marker where something was cut.
pub fn make_preview(content: &str, max_chars: usize) -> (preview: String)
    ensures
        preview@ == preview_of(content@, max_chars as nat),
{
    if content.unicode_len() > max_chars {
        let mut preview = content.substring_char(0, max_chars).to_owned();
        preview.append("...");
        proof {
            reveal_strlit("...");
            assert("..."@ =~= ellipsis());
        }
        preview
    } else {
        content.to_owned()
    }
}

/// Whether `lower_needle` occurs in the lower-case form of `hay`.
pub fn contains_ignoring_case(hay: &str, lower_needle: &str) -> (found: bool)
    ensures
        found == occurs_in(lower_needle@, lowercase_of(hay@)),
{
    let lower = to_lowercase(hay);
    str_contains(lower.as_str(), lower_needle)
}

/// The decimal digits of `n`, the most significant first.
pub open spec fn decimal(n: nat) -> Seq<char>
    decreases n,
{
    if n < 10 {
        seq![(n + 48) as char]
    } else {
        decimal(n / 10).push((n % 10 + 48) as char)
    }
}

/// Appends the decimal digits of `n` to `text`.
pub fn push_decimal(text: &mut String, n: u32)
    ensures
        final(text)@ == old(text)@ + decimal(n as nat),
    decreases n,
{
    if n >= 10 {
        push_decimal(text, n / 10);
    }
    let digit: u8 = (n % 10) as u8;
    text.push((digit + 48) as char);
    assert(text@ =~= old(text)@ + decimal(n as nat));
}

} // verus!
