//! Parsing vocabulary text: one entry per line, fields separated by a
//! single tab, blank lines and comment lines skipped.

use crate::entry::{Entry, EntryView};
use vstd::prelude::*;
use vstd::string::StrSliceExecFns;

verus! {

/// The characters that trimming removes: the Unicode white space set.
pub open spec fn is_space(c: char) -> bool {
    ||| c == ' '
    ||| c == '\t'
    ||| c == '\n'
    ||| c == '\u{000B}'
    ||| c == '\u{000C}'
    ||| c == '\r'
    ||| c == '\u{0085}'
    ||| c == '\u{00A0}'
    ||| c == '\u{1680}'
    ||| c == '\u{2000}'
    ||| c == '\u{2001}'
    ||| c == '\u{2002}'
    ||| c == '\u{2003}'
    ||| c == '\u{2004}'
    ||| c == '\u{2005}'
    ||| c == '\u{2006}'
    ||| c == '\u{2007}'
    ||| c == '\u{2008}'
    ||| c == '\u{2009}'
    ||| c == '\u{200A}'
    ||| c == '\u{2028}'
    ||| c == '\u{2029}'
    ||| c == '\u{202F}'
    ||| c == '\u{205F}'
    ||| c == '\u{3000}'
}

fn is_space_char(c: char) -> (b: bool)
    ensures
        b == is_space(c),
{
    c == ' ' || c == '\t' || c == '\n' || c == '\u{000B}' || c == '\u{000C}' || c == '\r'
        || c == '\u{0085}' || c == '\u{00A0}' || c == '\u{1680}' || c == '\u{2000}'
        || c == '\u{2001}' || c == '\u{2002}' || c == '\u{2003}' || c == '\u{2004}'
        || c == '\u{2005}' || c == '\u{2006}' || c == '\u{2007}' || c == '\u{2008}'
        || c == '\u{2009}' || c == '\u{200A}' || c == '\u{2028}' || c == '\u{2029}'
        || c == '\u{202F}' || c == '\u{205F}' || c == '\u{3000}'
}

/// `s` without its leading white space.
pub open spec fn trim_start_spec(s: Seq<char>) -> Seq<char>
    decreases s.len(),
{
    if s.len() > 0 && is_space(s[0]) {
        trim_start_spec(s.drop_first())
    } else {
        s
    }
}

/// `s` without its trailing white space.
pub open spec fn trim_end_spec(s: Seq<char>) -> Seq<char>
    decreases s.len(),
{
    if s.len() > 0 && is_space(s.last()) {
        trim_end_spec(s.drop_last())
    } else {
        s
    }
}

/// `s` without leading and trailing white space.
pub open spec fn trim_spec(s: Seq<char>) -> Seq<char> {
    trim_end_spec(trim_start_spec(s))
}

proof fn lemma_trim_start_at(s: Seq<char>, i: int)
    requires
        0 <= i <= s.len(),
        forall|k: int| 0 <= k < i ==> is_space(s[k]),
        i < s.len() ==> !is_space(s[i]),
    ensures
        trim_start_spec(s) == s.subrange(i, s.len() as int),
    decreases i,
{
    if i == 0 {
        assert(s =~= s.subrange(0, s.len() as int));
    } else {
        let t = s.drop_first();
        lemma_trim_start_at(t, i - 1);
        assert(t.subrange(i - 1, t.len() as int) =~= s.subrange(i, s.len() as int));
    }
}

proof fn lemma_trim_end_at(s: Seq<char>, m: int)
    requires
        0 <= m <= s.len(),
        forall|k: int| m <= k < s.len() ==> is_space(s[k]),
        m > 0 ==> !is_space(s[m - 1]),
    ensures
        trim_end_spec(s) == s.subrange(0, m),
    decreases s.len(),
{
    if m == s.len() {
        assert(s =~= s.subrange(0, m));
    } else {
        let t = s.drop_last();
        lemma_trim_end_at(t, m);
        assert(t.subrange(0, m) =~= s.subrange(0, m));
    }
}

/// Trim white space from both ends of a string slice.
pub fn trim_str<'a>(s: &'a str) -> (r: &'a str)
    ensures
        r@ == trim_spec(s@),
{
    let len = s.unicode_len();
    let mut i: usize = 0;
    while i < len && is_space_char(s.get_char(i))
        invariant
            i <= len,
            len == s@.len(),
            forall|k: int| 0 <= k < i ==> is_space(s@[k]),
        decreases len - i,
    {
        i = i + 1;
    }
    let mut j: usize = len;
    while j > i && is_space_char(s.get_char(j - 1))
        invariant
            i <= j <= len,
            len == s@.len(),
            i == len || !is_space(s@[i as int]),
            forall|k: int| 0 <= k < i ==> is_space(s@[k]),
            forall|k: int| j <= k < len ==> is_space(s@[k]),
        decreases j,
    {
        j = j - 1;
    }
    proof {
        lemma_trim_start_at(s@, i as int);
        let t = s@.subrange(i as int, s@.len() as int);
        lemma_trim_end_at(t, j - i);
        assert(t.subrange(0, j - i) =~= s@.subrange(i as int, j as int));
    }
    s.substring_char(i, j)
}

/// Index of the first occurrence of `sep` in `s`, or `s.len()` if
/// there is none.
pub open spec fn first_sep(s: Seq<char>, sep: char) -> int
    decreases s.len(),
{
    if s.len() == 0 {
        0
    } else if s[0] == sep {
        0
    } else {
        1 + first_sep(s.drop_first(), sep)
    }
}

proof fn lemma_first_sep_at(s: Seq<char>, sep: char, j: int)
    requires
        0 <= j <= s.len(),
        forall|k: int| 0 <= k < j ==> s[k] != sep,
        j < s.len() ==> s[j] == sep,
    ensures
        first_sep(s, sep) == j,
    decreases j,
{
    if j > 0 {
        lemma_first_sep_at(s.drop_first(), sep, j - 1);
    }
}

/// `s` split on `sep`: the fields between the separators, in order;
/// always one more field than there are separators. The bound check on
/// the first separator's index keeps the recursion visibly decreasing;
/// the index never in fact falls outside `0 ..= s.len()`.
pub open spec fn split_spec(s: Seq<char>, sep: char) -> Seq<Seq<char>>
    decreases s.len(),
{
    let i = first_sep(s, sep);
    if 0 <= i < s.len() {
        seq![s.subrange(0, i)] + split_spec(s.subrange(i + 1, s.len() as int), sep)
    } else {
        seq![s]
    }
}

/// Split a string slice on a separator character.
pub fn split_str<'a>(s: &'a str, sep: char) -> (parts: Vec<&'a str>)
    ensures
        parts.deep_view() == split_spec(s@, sep),
        parts@.len() >= 1,
{
    let len = s.unicode_len();
    let mut parts: Vec<&str> = Vec::new();
    proof {
        assert(s@.subrange(0, len as int) =~= s@);
        assert(parts.deep_view() =~~= Seq::<Seq<char>>::empty());
        assert(parts.deep_view() + split_spec(s@, sep) =~~= split_spec(s@, sep));
    }
    let mut start: usize = 0;
    let mut i: usize = 0;
    while i < len
        invariant
            start <= i <= len,
            len == s@.len(),
            forall|k: int| start <= k < i ==> s@[k] != sep,
            split_spec(s@, sep) == parts.deep_view() + split_spec(
                s@.subrange(start as int, len as int),
                sep,
            ),
        decreases len - i,
    {
        if s.get_char(i) == sep {
            let field = s.substring_char(start, i);
            let ghost old_deep = parts.deep_view();
            proof {
                let rest = s@.subrange(start as int, len as int);
                lemma_first_sep_at(rest, sep, i - start);
                assert(rest.subrange(0, i - start) =~= s@.subrange(start as int, i as int));
                assert(rest.subrange(i - start + 1, rest.len() as int) =~= s@.subrange(
                    i as int + 1,
                    len as int,
                ));
                assert(old_deep.push(field@) + split_spec(
                    s@.subrange(i as int + 1, len as int),
                    sep,
                ) =~~= old_deep + split_spec(rest, sep));
            }
            parts.push(field);
            proof {
                assert(parts.deep_view() =~~= old_deep.push(field@));
            }
            start = i + 1;
        }
        i = i + 1;
    }
    let field = s.substring_char(start, len);
    let ghost old_deep = parts.deep_view();
    proof {
        let rest = s@.subrange(start as int, len as int);
        lemma_first_sep_at(rest, sep, rest.len() as int);
        assert(rest =~= field@);
        assert(old_deep.push(rest) =~~= old_deep + split_spec(rest, sep));
    }
    parts.push(field);
    proof {
        assert(parts.deep_view() =~~= old_deep.push(field@));
    }
    parts
}

/// Field `i` of a split line: absent when the line has no such field
/// or the field is blank after trimming.
pub open spec fn opt_field_spec(parts: Seq<Seq<char>>, i: int) -> Option<Seq<char>> {
    if i < parts.len() {
        let f = trim_spec(parts[i]);
        if f.len() == 0 {
            None
        } else {
            Some(f)
        }
    } else {
        None
    }
}

/// The entry held by one line of vocabulary text, if any: the line is
/// trimmed; blank lines, comment lines (first character `#`) and lines
/// whose first tab-separated field is blank hold none.
pub open spec fn parse_line_spec(line: Seq<char>) -> Option<EntryView> {
    let t = trim_spec(line);
    if t.len() == 0 || t[0] == '#' {
        None
    } else {
        let parts = split_spec(t, '\t');
        let word = trim_spec(parts[0]);
        if word.len() == 0 {
            None
        } else {
            Some(
                EntryView {
                    word: word,
                    reading: opt_field_spec(parts, 1),
                    meaning: opt_field_spec(parts, 2),
                    codes: opt_field_spec(parts, 3),
                },
            )
        }
    }
}

/// The entries held by a sequence of lines, in order.
pub open spec fn parse_lines_spec(lines: Seq<Seq<char>>) -> Seq<EntryView>
    decreases lines.len(),
{
    if lines.len() == 0 {
        Seq::empty()
    } else {
        let head = parse_lines_spec(lines.drop_last());
        match parse_line_spec(lines.last()) {
            Some(e) => head.push(e),
            None => head,
        }
    }
}

/// The entries held by a vocabulary text: its lines, each parsed by
/// `parse_line_spec`, skipped lines contributing nothing.
pub open spec fn parse_text_spec(text: Seq<char>) -> Seq<EntryView> {
    parse_lines_spec(split_spec(text, '\n'))
}

/// The views of a sequence of entries.
pub open spec fn views_of_entries(s: Seq<Entry>) -> Seq<EntryView> {
    s.map_values(|e: Entry| e@)
}

fn field_at(parts: &Vec<&str>, i: usize) -> (r: Option<String>)
    ensures
        r matches Some(f) ==> opt_field_spec(parts.deep_view(), i as int) == Some(f@),
        r is None ==> opt_field_spec(parts.deep_view(), i as int) is None,
{
    if i < parts.len() {
        let f = trim_str(parts[i]);
        proof {
            assert(parts.deep_view()[i as int] == parts@[i as int]@);
        }
        if f.is_empty() {
            None
        } else {
            Some(f.to_owned())
        }
    } else {
        None
    }
}

/// Parse one line of vocabulary text into an entry, or nothing where
/// the line is blank, a comment, or has a blank word field.
pub fn parse_line(line: &str) -> (r: Option<Entry>)
    ensures
        r matches Some(e) ==> parse_line_spec(line@) == Some(e@) && e@.wf(),
        r is None ==> parse_line_spec(line@) is None,
{
    let t = trim_str(line);
    if t.is_empty() {
        return None;
    }
    if t.get_char(0) == '#' {
        return None;
    }
    let parts = split_str(t, '\t');
    proof {
        assert(parts.deep_view()[0] == parts@[0]@);
    }
    let word_str = trim_str(parts[0]);
    if word_str.is_empty() {
        return None;
    }
    let word = word_str.to_owned();
    let reading = field_at(&parts, 1);
    let meaning = field_at(&parts, 2);
    let codes = field_at(&parts, 3);
    let e = Entry { word, reading, meaning, codes };
    Some(e)
}

/// Parse a whole vocabulary text: one candidate entry per line.
pub fn parse_vocab_text(text: &str) -> (v: Vec<Entry>)
    ensures
        views_of_entries(v@) == parse_text_spec(text@),
        forall|i: int| 0 <= i < v@.len() ==> (#[trigger] v@[i])@.wf(),
{
    let lines = split_str(text, '\n');
    let mut v: Vec<Entry> = Vec::new();
    let mut i: usize = 0;
    while i < lines.len()
        invariant
            i <= lines@.len(),
            lines.deep_view() == split_spec(text@, '\n'),
            lines.deep_view().len() == lines@.len(),
            views_of_entries(v@) == parse_lines_spec(lines.deep_view().take(i as int)),
            forall|k: int| 0 <= k < v@.len() ==> (#[trigger] v@[k])@.wf(),
        decreases lines@.len() - i,
    {
        let ghost prev_views = views_of_entries(v@);
        proof {
            assert(lines.deep_view()[i as int] == lines@[i as int]@);
        }
        let parsed = parse_line(lines[i]);
        match parsed {
            Some(e) => {
                proof {
                    assert(views_of_entries(v@.push(e)) =~= views_of_entries(v@).push(e@));
                }
                v.push(e);
            },
            None => {},
        }
        proof {
            let pre = lines.deep_view().take(i as int);
            let cur = lines.deep_view().take(i as int + 1);
            assert(cur.drop_last() =~= pre);
            assert(cur.last() == lines.deep_view()[i as int]);
            assert(parse_lines_spec(cur) == match parse_line_spec(lines.deep_view()[i as int]) {
                Some(e) => parse_lines_spec(pre).push(e),
                None => parse_lines_spec(pre),
            });
        }
        i = i + 1;
    }
    proof {
        assert(lines.deep_view().take(lines@.len() as int) =~~= lines.deep_view());
    }
    v
}

} // verus!
