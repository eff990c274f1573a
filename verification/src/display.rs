//! Strings of other people, on their way to a terminal.
use vstd::prelude::*;
use vstd::string::*;

use crate::{seqs, text};

verus! {

/// A control character, which a terminal may obey.
pub open spec fn is_control(c: char) -> bool {
    c <= '\u{1f}' || ('\u{7f}' <= c && c <= '\u{9f}')
}

/// A character that changes the direction of the text around it.
pub open spec fn is_directional(c: char) -> bool {
    ||| c == '\u{61c}'
    ||| c == '\u{200e}'
    ||| c == '\u{200f}'
    ||| ('\u{202a}' <= c && c <= '\u{202e}')
    ||| ('\u{2066}' <= c && c <= '\u{2069}')
}

/// A character that may be shown.
pub open spec fn is_plain(c: char) -> bool {
    !is_control(c) && !is_directional(c)
}

/// What is shown of a string that somebody else wrote.
pub open spec fn shown(s: Seq<char>) -> Seq<char> {
    s.filter(|c: char| is_plain(c))
}

/// What is shown of a string that somebody else wrote: all of it but the
/// characters that would change how the text around it reads.
///
/// Which characters those are is this library's own choice: the control
/// characters, line breaks and tabs among them, and the marks and overrides that
/// set the direction of a text. They are left out, and nothing stands for them.
pub fn sanitize_display(s: &str) -> (r: String)
    ensures
        r@ == shown(s@),
{
    let chars = text::chars_of(s);
    let mut out: Vec<char> = Vec::new();
    let mut i: usize = 0;
    let ghost plain = |c: char| is_plain(c);
    while i < chars.len()
        invariant
            0 <= i <= chars@.len(),
            plain == (|c: char| is_plain(c)),
            out@ == chars@.take(i as int).filter(plain),
        decreases chars@.len() - i,
    {
        let c: char = chars[i];
        let control: bool = c <= '\u{1f}' || ('\u{7f}' <= c && c <= '\u{9f}');
        let directional: bool = c == '\u{61c}' || c == '\u{200e}' || c == '\u{200f}' || ('\u{202a}'
            <= c && c <= '\u{202e}') || ('\u{2066}' <= c && c <= '\u{2069}');
        proof {
            seqs::lemma_filter_step(chars@, plain, i as int);
        }
        if !control && !directional {
            out.push(c);
        }
        i = i + 1;
    }
    assert(chars@.take(chars@.len() as int) == chars@);
    text::text_of(out.as_slice())
}

/// Nothing that is shown tells the terminal what to do, or turns the text
/// around it.
pub proof fn law_what_is_shown_is_plain(s: Seq<char>, i: int)
    requires
        0 <= i < shown(s).len(),
    ensures
        is_plain(shown(s)[i]),
{
    seqs::lemma_filter_holds(s, |c: char| is_plain(c));
}

/// What was plain to begin with is shown as it is.
pub proof fn law_what_is_plain_is_shown(s: Seq<char>)
    requires
        forall|i: int| 0 <= i < s.len() ==> is_plain(#[trigger] s[i]),
    ensures
        shown(s) == s,
{
    seqs::lemma_filter_all(s, |c: char| is_plain(c));
}

} // verus!
