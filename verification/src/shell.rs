//! Shell-style word splitting and the text comparisons the link-argument
//! rules are made of.

use vstd::prelude::*;
use vstd::string::*;

verus! {

/// What `shlex::split` returns for `text`: the words of a POSIX-shell-like
/// command line, or `None` when the line is malformed (an unterminated quote
/// or a trailing backslash).
pub uninterp spec fn shell_split(text: Seq<char>) -> Option<Seq<Seq<char>>>;

/// The texts of a sequence of strings.
pub open spec fn words(v: Seq<String>) -> Seq<Seq<char>> {
    v.map_values(|w: String| w@)
}

/// The texts of an optional vector of strings.
pub open spec fn opt_words(o: Option<Vec<String>>) -> Option<Seq<Seq<char>>> {
    match o {
        Some(v) => Some(words(v@)),
        None => None,
    }
}

/// The text of an optional string slice.
pub open spec fn opt_text(o: Option<&str>) -> Option<Seq<char>> {
    match o {
        Some(s) => Some(s@),
        None => None,
    }
}

/// A word that reads as a command-line flag: it starts with `-`.
pub open spec fn is_flag(w: Seq<char>) -> bool {
    w.len() > 0 && w[0] == '-'
}

/// Calls `shlex::split`. Trusted to return, word by word, what `shell_split`
/// names for the same text; nothing more is claimed of the lexer.
#[verifier::external_body]
pub(crate) fn shell_words(text: &str) -> (res: Option<Vec<String>>)
    ensures
        opt_words(res) == shell_split(text@),
{
    shlex::split(text)
}

/// Whether two texts are equal, character by character.
pub(crate) fn same_text(a: &str, b: &str) -> (r: bool)
    ensures
        r == (a@ == b@),
{
    let n = a.unicode_len();
    let m = b.unicode_len();
    if n != m {
        return false;
    }
    let mut i: usize = 0;
    while i < n
        invariant
            n == a@.len(),
            m == b@.len(),
            n == m,
            i <= n,
            forall|j: int| 0 <= j < i ==> a@[j] == b@[j],
        decreases n - i,
    {
        if a.get_char(i) != b.get_char(i) {
            return false;
        }
        i = i + 1;
    }
    assert(a@ =~= b@);
    true
}

/// A new `String` with the text of `s`.
pub(crate) fn text_to_string(s: &str) -> (res: String)
    ensures
        res@ == s@,
{
    String::from_str(s)
}

/// Whether `w` starts with `-`.
pub(crate) fn starts_with_dash(w: &str) -> (r: bool)
    ensures
        r == (w@.len() > 0 && w@[0] == '-'),
        r == is_flag(w@),
{
    w.unicode_len() > 0 && w.get_char(0) == '-'
}

} // verus!
