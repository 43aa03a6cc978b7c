//! Manifests: text files that list relative paths, one to a line, each behind
//! a dash and a space.

use crate::text::{
    after_first_line, chars_of, find_line_end, first_line, has_prefix, lines, skip_space, trim,
    trim_bounds, trim_start,
};
use vstd::prelude::*;

verus! {

/// The entry that a line of a manifest holds, if it holds one: after the
/// white space it may begin with, the line must go on with a dash and a
/// space; what follows them, trimmed, is the entry. A line of a dash and a
/// space alone holds the empty entry.
pub open spec fn entry_of(line: Seq<char>) -> Option<Seq<char>> {
    let t = trim_start(line);
    if has_prefix(t, seq!['-', ' ']) {
        Some(trim(t.skip(2)))
    } else {
        None
    }
}

/// The entries that `lines` hold, in their order. A line without entry is
/// passed over; equal entries are all kept.
pub open spec fn entries_of(lines: Seq<Seq<char>>) -> Seq<Seq<char>>
    decreases lines.len(),
{
    if lines.len() == 0 {
        Seq::empty()
    } else {
        match entry_of(lines[0]) {
            Some(e) => seq![e] + entries_of(lines.skip(1)),
            None => entries_of(lines.skip(1)),
        }
    }
}

/// The entries of a manifest with the content `text`.
pub open spec fn manifest_entries(text: Seq<char>) -> Seq<Seq<char>> {
    entries_of(lines(text))
}

/// The entries of a manifest are those of its first line, then those of the
/// rest.
pub proof fn lemma_manifest_entries_step(text: Seq<char>)
    requires
        text.len() > 0,
    ensures
        manifest_entries(text) == match entry_of(first_line(text)) {
            Some(e) => seq![e] + manifest_entries(after_first_line(text)),
            None => manifest_entries(after_first_line(text)),
        },
{
    let ls = lines(text);
    assert(ls.skip(1) =~= lines(after_first_line(text)));
}

/// The entries of the manifest `text`, in the order of its lines.
pub fn parse_manifest(text: &str) -> (entries: Vec<String>)
    ensures
        entries.deep_view() == manifest_entries(text@),
{
    let chars = chars_of(text);
    let n = chars.len();
    let mut entries: Vec<String> = Vec::new();
    let mut pos: usize = 0;
    assert(text@.skip(0) =~= text@);
    assert(entries.deep_view() =~= Seq::empty());
    while pos < n
        invariant
            chars@ == text@,
            n == chars.len(),
            pos <= n,
            manifest_entries(text@) == entries.deep_view() + manifest_entries(
                text@.skip(pos as int),
            ),
        decreases n - pos,
    {
        let ghost rest = text@.skip(pos as int);
        let ghost before = entries.deep_view();
        let end = find_line_end(&chars, pos);
        let a = skip_space(&chars, pos, end);
        proof {
            lemma_manifest_entries_step(rest);
            assert(first_line(rest) =~= text@.subrange(pos as int, end as int));
        }
        let ghost t = text@.subrange(a as int, end as int);
        if end - a >= 2 && chars[a] == '-' && chars[a + 1] == ' ' {
            let (c, d) = trim_bounds(&chars, a + 2, end);
            let entry = String::from_str(text.substring_char(c, d));
            proof {
                assert(t.take(2) =~= seq!['-', ' ']);
                assert(t.skip(2) =~= text@.subrange(a + 2, end as int));
                assert(entry_of(first_line(rest)) == Some(entry@));
            }
            entries.push(entry);
            assert(entries.deep_view() =~= before + seq![entry@]);
        } else {
            proof {
                if has_prefix(t, seq!['-', ' ']) {
                    assert(t.take(2)[0] == '-');
                    assert(t.take(2)[1] == ' ');
                }
                assert(entry_of(first_line(rest)) is None);
            }
        }
        proof {
            if end < n {
                assert(after_first_line(rest) =~= text@.skip(end + 1));
            } else {
                assert(after_first_line(rest) =~= text@.skip(n as int));
            }
        }
        pos = if end < n {
            end + 1
        } else {
            n
        };
    }
    assert(manifest_entries(text@.skip(n as int)) =~= Seq::empty()) by {
        assert(text@.skip(n as int).len() == 0);
    }
    entries
}

} // verus!
