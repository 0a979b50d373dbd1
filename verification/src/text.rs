//! Text handling: substring search, the first line of a text, and clean command lines.

use vstd::prelude::*;
use vstd::utf8::is_ascii_chars;

verus! {

/// `String::push` appends one character.
pub assume_specification[ String::push ](s: &mut String, c: char)
    ensures
        final(s)@ == old(s)@.push(c),
;

/// The characters of a text.
fn chars_of(s: &str) -> (res: Vec<char>)
    ensures
        res@ == s@,
{
    let mut chars: Vec<char> = Vec::new();
    for c in it: s.chars()
        invariant
            it.seq() == s@,
            chars@ == s@.take(it.index()),
    {
        chars.push(c);
        assert(chars@ =~= s@.take(it.index() + 1));
    }
    assert(s@.take(s@.len() as int) =~= s@);
    chars
}

/// The text that the characters from `lo` up to `hi` make.
fn text_of(chars: &Vec<char>, lo: usize, hi: usize) -> (res: String)
    requires
        lo <= hi <= chars@.len(),
    ensures
        res@ == chars@.subrange(lo as int, hi as int),
{
    let mut text: String = String::new();
    let mut i: usize = lo;
    while i < hi
        invariant
            lo <= i <= hi <= chars@.len(),
            text@ == chars@.subrange(lo as int, i as int),
        decreases hi - i,
    {
        text.push(chars[i]);
        assert(chars@.subrange(lo as int, i + 1) =~= chars@.subrange(lo as int, i as int).push(
            chars@[i as int],
        ));
        i = i + 1;
    }
    text
}

/// Whether `part` stands in `text` at position `at`.
pub open spec fn stands_at(text: Seq<char>, part: Seq<char>, at: int) -> bool {
    0 <= at && at + part.len() <= text.len() && text.subrange(at, at + part.len()) == part
}

/// Whether `part` stands somewhere in `text`.
pub open spec fn has_text(text: Seq<char>, part: Seq<char>) -> bool {
    exists|at: int| stands_at(text, part, at)
}

fn found_at(text: &Vec<char>, part: &Vec<char>, at: usize) -> (res: bool)
    requires
        at + part@.len() <= text@.len(),
    ensures
        res == stands_at(text@, part@, at as int),
{
    let len: usize = text.len();
    let mut i: usize = 0;
    while i < part.len()
        invariant
            i <= part@.len(),
            at + part@.len() <= text@.len(),
            len == text@.len(),
            forall|j: int| 0 <= j < i ==> text@[at + j] == part@[j],
        decreases part@.len() - i,
    {
        if text[at + i] != part[i] {
            assert(text@.subrange(at as int, at + part@.len())[i as int] != part@[i as int]);
            return false;
        }
        i = i + 1;
    }
    assert(text@.subrange(at as int, at + part@.len()) =~= part@);
    true
}

/// Whether `part` stands somewhere in `text`.
pub fn contains_text(text: &str, part: &str) -> (res: bool)
    ensures
        res == has_text(text@, part@),
{
    let chars: Vec<char> = chars_of(text);
    let wanted: Vec<char> = chars_of(part);
    if chars.len() < wanted.len() {
        return false;
    }
    let last: usize = chars.len() - wanted.len();
    let mut at: usize = 0;
    loop
        invariant
            chars@ == text@,
            wanted@ == part@,
            last + part@.len() == text@.len(),
            at <= last,
            forall|k: int| 0 <= k < at ==> !stands_at(text@, part@, k),
        decreases last - at,
    {
        if found_at(&chars, &wanted, at) {
            return true;
        }
        if at == last {
            return false;
        }
        at = at + 1;
    }
}

/// The first line of a text: what comes before the first line feed, without the carriage return
/// that may close it. A text without a line feed is its own first line.
pub open spec fn first_line_of(text: Seq<char>) -> Seq<char> {
    match text.index_of_first('\n') {
        Some(end) => if end > 0 && text[end - 1] == '\r' {
            text.take(end - 1)
        } else {
            text.take(end)
        },
        None => text,
    }
}

/// The first line of a text.
pub fn first_line(text: &str) -> (res: String)
    ensures
        res@ == first_line_of(text@),
{
    let chars: Vec<char> = chars_of(text);
    let mut end: usize = 0;
    while end < chars.len()
        invariant
            end <= chars@.len(),
            chars@ == text@,
            forall|k: int| 0 <= k < end ==> chars@[k] != '\n',
        decreases chars@.len() - end,
    {
        if chars[end] == '\n' {
            proof {
                text@.index_of_first_ensures('\n');
                assert(text@.contains('\n'));
                assert(text@.index_of_first('\n') == Some(end as int));
            }
            let stop: usize = if end > 0 && chars[end - 1] == '\r' {
                end - 1
            } else {
                end
            };
            assert(chars@.subrange(0, stop as int) =~= text@.take(stop as int));
            return text_of(&chars, 0, stop);
        }
        end = end + 1;
    }
    proof {
        text@.index_of_first_ensures('\n');
        assert(!text@.contains('\n'));
        assert(chars@.subrange(0, chars@.len() as int) =~= text@);
    }
    text_of(&chars, 0, chars.len())
}

/// Whether a character is white space in the sense of the Unicode property `White_Space`.
pub open spec fn is_white_space(c: char) -> bool {
    ||| '\u{9}' <= c <= '\u{d}'
    ||| c == ' '
    ||| c == '\u{85}'
    ||| c == '\u{a0}'
    ||| c == '\u{1680}'
    ||| '\u{2000}' <= c <= '\u{200a}'
    ||| c == '\u{2028}'
    ||| c == '\u{2029}'
    ||| c == '\u{202f}'
    ||| c == '\u{205f}'
    ||| c == '\u{3000}'
}

fn white_space(c: char) -> (res: bool)
    ensures
        res == is_white_space(c),
{
    ('\u{9}' <= c && c <= '\u{d}') || c == ' ' || c == '\u{85}' || c == '\u{a0}' || c == '\u{1680}'
        || ('\u{2000}' <= c && c <= '\u{200a}') || c == '\u{2028}' || c == '\u{2029}' || c
        == '\u{202f}' || c == '\u{205f}' || c == '\u{3000}'
}

/// A text without the white space that it starts with.
pub open spec fn trim_start_of(text: Seq<char>) -> Seq<char>
    decreases text.len(),
{
    if text.len() > 0 && is_white_space(text[0]) {
        trim_start_of(text.drop_first())
    } else {
        text
    }
}

/// A text without the white space that it ends with.
pub open spec fn trim_end_of(text: Seq<char>) -> Seq<char>
    decreases text.len(),
{
    if text.len() > 0 && is_white_space(text.last()) {
        trim_end_of(text.drop_last())
    } else {
        text
    }
}

/// A text in which a space stands for each NUL character.
pub open spec fn nul_to_space(text: Seq<char>) -> Seq<char> {
    text.map_values(
        |c: char|
            if c == '\0' {
                ' '
            } else {
                c
            },
    )
}

/// A command line as it is shown: its NUL-separated arguments joined by spaces, without white
/// space around them.
pub open spec fn clean_cmdline_of(text: Seq<char>) -> Seq<char> {
    trim_end_of(trim_start_of(nul_to_space(text)))
}

/// The command line that the raw content of a process's `cmdline` file stands for.
pub fn clean_cmdline(text: &str) -> (res: String)
    ensures
        res@ == clean_cmdline_of(text@),
{
    let mut chars: Vec<char> = Vec::new();
    for c in it: text.chars()
        invariant
            it.seq() == text@,
            chars@ == nul_to_space(text@.take(it.index())),
    {
        chars.push(
            if c == '\0' {
                ' '
            } else {
                c
            },
        );
        assert(chars@ =~= nul_to_space(text@.take(it.index() + 1)));
    }
    assert(text@.take(text@.len() as int) =~= text@);
    let ghost full = chars@;
    let mut lo: usize = 0;
    assert(full.skip(0) =~= full);
    while lo < chars.len() && white_space(chars[lo])
        invariant
            lo <= chars@.len(),
            chars@ == full,
            trim_start_of(full) == trim_start_of(full.skip(lo as int)),
        decreases chars@.len() - lo,
    {
        assert(full.skip(lo as int).drop_first() =~= full.skip(lo + 1));
        lo = lo + 1;
    }
    let ghost rest = full.skip(lo as int);
    let mut hi: usize = chars.len();
    assert(full.subrange(lo as int, hi as int) =~= rest);
    while lo < hi && white_space(chars[hi - 1])
        invariant
            lo <= hi <= chars@.len(),
            chars@ == full,
            trim_end_of(rest) == trim_end_of(full.subrange(lo as int, hi as int)),
        decreases hi,
    {
        assert(full.subrange(lo as int, hi as int).drop_last() =~= full.subrange(
            lo as int,
            hi - 1,
        ));
        hi = hi - 1;
    }
    text_of(&chars, lo, hi)
}

/// The lower-case form of an ASCII character.
pub open spec fn ascii_lower(c: char) -> char {
    if 'A' <= c <= 'Z' {
        (c as u32 + 32) as char
    } else {
        c
    }
}

/// The upper-case form of an ASCII character.
pub open spec fn ascii_upper(c: char) -> char {
    if 'a' <= c <= 'z' {
        (c as u32 - 32) as char
    } else {
        c
    }
}

/// A text with its ASCII letters in lower case and all else as it is.
pub open spec fn ascii_lowered(text: Seq<char>) -> Seq<char> {
    text.map_values(|c: char| ascii_lower(c))
}

/// A text with its ASCII letters in upper case and all else as it is.
pub open spec fn ascii_raised(text: Seq<char>) -> Seq<char> {
    text.map_values(|c: char| ascii_upper(c))
}

/// What `str::to_lowercase` makes of a text that is not all ASCII.
pub uninterp spec fn unicode_lowercase(text: Seq<char>) -> Seq<char>;

/// The lower-case form of a text. It does not depend on the case of the ASCII letters.
pub open spec fn lowercase_of(text: Seq<char>) -> Seq<char> {
    if is_ascii_chars(text) {
        ascii_lowered(text)
    } else {
        unicode_lowercase(ascii_lowered(text))
    }
}

/// The lower-case form of a text, by `str::to_lowercase`. Of an ASCII text each letter is
/// replaced by its lower-case letter and nothing else changes. Of any other text the result is
/// the Unicode lower-case form, which is named here and not described. One thing is claimed of it:
/// a text whose ASCII letters are in lower case already has the same form, since Unicode maps
/// `A` to `a` and so on, and its one rule that looks at the letters around, that of a sigma at
/// the end of a word, asks whether there are letters and not of which case they are.
#[verifier::external_body]
pub(crate) fn lowercase(text: &str) -> (res: String)
    ensures
        is_ascii_chars(text@) ==> res@ == ascii_lowered(text@),
        !is_ascii_chars(text@) ==> res@ == unicode_lowercase(text@),
        !is_ascii_chars(text@) ==> res@ == unicode_lowercase(ascii_lowered(text@)),
{
    text.to_lowercase()
}

} // verus!
