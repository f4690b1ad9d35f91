//! Building diagnostics.

use vstd::prelude::*;
use vstd::string::*;

verus! {

/// `String::push` of the standard library: appends `c` to the end of `text` and
/// changes nothing else.
#[verifier::external_body]
pub(crate) fn push_char(text: &mut String, c: char)
    ensures
        final(text)@ == old(text)@.push(c),
{
    text.push(c);
}

/// `head`, then `middle`, then `tail`.
pub(crate) fn join3(head: &str, middle: &str, tail: &str) -> (text: String)
    ensures
        text@ == head@ + middle@ + tail@,
{
    let mut text = head.to_owned();
    text.append(middle);
    text.append(tail);
    text
}

/// `head`, then the character `c`, then `tail`.
pub(crate) fn around_char(head: &str, c: char, tail: &str) -> (text: String)
    ensures
        text@ == head@.push(c) + tail@,
{
    let mut text = head.to_owned();
    push_char(&mut text, c);
    text.append(tail);
    text
}

/// Whether `text` consists of the single character `c`.
pub(crate) fn is_char(text: &str, c: char) -> (yes: bool)
    ensures
        yes == (text@ == seq![c]),
{
    let yes = text.unicode_len() == 1 && text.get_char(0) == c;
    proof {
        if yes {
            assert(text@ =~= seq![c]);
        }
    }
    yes
}

/// The characters of `text`.
pub(crate) fn chars_of(text: &str) -> (chars: Vec<char>)
    ensures
        chars@ == text@,
{
    let n = text.unicode_len();
    let mut chars: Vec<char> = Vec::new();
    let mut i: usize = 0;
    while i < n
        invariant
            n == text@.len(),
            0 <= i <= n,
            chars@ == text@.take(i as int),
        decreases n - i,
    {
        chars.push(text.get_char(i));
        assert(text@.take(i as int).push(text@[i as int]) =~= text@.take(i + 1));
        i += 1;
    }
    assert(text@.take(n as int) =~= text@);
    chars
}

/// Whether the two texts are the same.
pub(crate) fn same_text(a: &str, b: &str) -> (same: bool)
    ensures
        same == (a@ == b@),
{
    let x = chars_of(a);
    let y = chars_of(b);
    if x.len() != y.len() {
        return false;
    }
    let mut i: usize = 0;
    while i < x.len()
        invariant
            x@ == a@,
            y@ == b@,
            x@.len() == y@.len(),
            0 <= i <= x@.len(),
            forall|j: int| 0 <= j < i ==> x@[j] == y@[j],
        decreases x@.len() - i,
    {
        if x[i] != y[i] {
            return false;
        }
        i += 1;
    }
    assert(x@ =~= y@);
    true
}

} // verus!
