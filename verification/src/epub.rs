//! The table of contents of an EPUB book and how its entries map to chapters.

use vstd::prelude::*;

use crate::book::LoadingChapter;
use crate::common::Position;
use crate::strings::{str_chars, string_from_chars};

verus! {

/// An entry of the table of contents.
pub struct NavPoint {
    pub id: Option<String>,
    pub label: Option<String>,
    pub play_order: Option<usize>,
    pub level: usize,
    /// The file of the target, its path in the archive.
    pub src_file: Option<String>,
    /// The anchor of the target in its file.
    pub src_anchor: Option<String>,
    /// The first chapter, in reading order, that is the target's file.
    pub first_chapter_index: usize,
}

/// The title of an entry: its label, else its file, else "blank".
pub open spec fn toc_title_spec(np: NavPoint) -> Seq<char> {
    match np.label {
        Some(label) => label@,
        None => match np.src_file {
            Some(src_file) => src_file@,
            None => "blank"@,
        },
    }
}

/// The title of an entry of the table of contents.
pub fn toc_title(nav_point: &NavPoint) -> (t: &str)
    ensures
        t@ == toc_title_spec(*nav_point),
{
    match &nav_point.label {
        Some(label) => label.as_str(),
        None => match &nav_point.src_file {
            Some(src_file) => src_file.as_str(),
            None => "blank",
        },
    }
}

/// The part of `s` before its first `sep`, and the part between that and the next `sep` (or
/// the end), if there is a first `sep`; as the first two items of `str::split` give them.
pub open spec fn split_two(s: Seq<char>, sep: char) -> (Seq<char>, Option<Seq<char>>) {
    if exists|i: int| 0 <= i < s.len() && s[i] == sep {
        let i = choose|i: int| 0 <= i < s.len() && s[i] == sep && forall|j: int| 0 <= j < i ==> s[j] != sep;
        let rest = s.skip(i + 1);
        if exists|k: int| 0 <= k < rest.len() && rest[k] == sep {
            let k = choose|k: int|
                0 <= k < rest.len() && rest[k] == sep && forall|j: int| 0 <= j < k ==> rest[j] != sep;
            (s.take(i), Some(rest.take(k)))
        } else {
            (s.take(i), Some(rest))
        }
    } else {
        (s, None)
    }
}

/// The position of the first `sep` in `chars` from `from` on, or the length.
pub(crate) fn find_char(chars: &Vec<char>, from: usize, sep: char) -> (i: usize)
    requires
        from <= chars@.len(),
    ensures
        from <= i <= chars@.len(),
        i < chars@.len() ==> chars@[i as int] == sep,
        forall|j: int| from <= j < i ==> chars@[j] != sep,
{
    let mut i = from;
    while i < chars.len()
        invariant
            from <= i <= chars@.len(),
            forall|j: int| from <= j < i ==> chars@[j] != sep,
        decreases chars@.len() - i,
    {
        if chars[i] == sep {
            return i;
        }
        i = i + 1;
    }
    i
}

pub(crate) fn chars_range(chars: &Vec<char>, from: usize, to: usize) -> (s: String)
    requires
        from <= to <= chars@.len(),
    ensures
        s@ == chars@.subrange(from as int, to as int),
{
    let mut v: Vec<char> = Vec::new();
    let mut i = from;
    while i < to
        invariant
            from <= i <= to <= chars@.len(),
            v@ == chars@.subrange(from as int, i as int),
        decreases to - i,
    {
        v.push(chars[i]);
        i = i + 1;
        assert(v@ =~= chars@.subrange(from as int, i as int));
    }
    string_from_chars(&v)
}

/// A link target split into its file and its anchor, at `#`.
pub fn split_link_target(target: &str) -> (r: (String, Option<String>))
    ensures
        r.0@ == split_two(target@, '#').0,
        match r.1 {
            Some(a) => split_two(target@, '#').1 == Some(a@),
            None => split_two(target@, '#').1 is None,
        },
{
    let chars = str_chars(target);
    let i = find_char(&chars, 0, '#');
    if i == chars.len() {
        assert(chars@.subrange(0, i as int) == chars@);
        return (chars_range(&chars, 0, i), None);
    }
    let file = chars_range(&chars, 0, i);
    let k = find_char(&chars, i + 1, '#');
    let anchor = chars_range(&chars, i + 1, k);
    proof {
        let s = target@;
        let c = choose|c: int| 0 <= c < s.len() && s[c] == '#' && forall|j: int| 0 <= j < c ==> s[j] != '#';
        assert(0 <= i < s.len() && s[i as int] == '#' && forall|j: int| 0 <= j < i ==> s[j] != '#');
        if c < i {
            assert(s[c] != '#');
        }
        if c > i {
            assert(s[i as int] != '#');
        }
        let rest = s.skip(i + 1);
        if k < chars.len() {
            let kk = (k - i - 1) as int;
            assert(rest[kk] == '#');
            let c2 = choose|c2: int| 0 <= c2 < rest.len() && rest[c2] == '#' && forall|j: int| 0 <= j < c2 ==> rest[j] != '#';
            assert(forall|j: int| 0 <= j < kk ==> rest[j] == s[i + 1 + j]);
            if c2 < kk {
                assert(rest[c2] == s[i + 1 + c2]);
            }
            if c2 > kk {
                assert(rest[kk] != '#');
            }
            assert(rest.take(kk) =~= s.subrange(i + 1, k as int));
        } else {
            assert forall|j: int| 0 <= j < rest.len() implies rest[j] != '#' by {
                assert(rest[j] == s[i + 1 + j]);
            }
            assert(rest =~= s.subrange(i + 1, k as int));
        }
        assert(s.take(i as int) =~= s.subrange(0, i as int));
    }
    (file, Some(anchor))
}

/// The first chapter at or after `i` whose file is `target`.
pub open spec fn first_href_from(hrefs: Seq<Seq<char>>, i: int, target: Seq<char>) -> Option<int>
    decreases hrefs.len() - i,
{
    if i < 0 || i >= hrefs.len() {
        None
    } else if hrefs[i] == target {
        Some(i)
    } else {
        first_href_from(hrefs, i + 1, target)
    }
}

/// The chapter that the search for the first chapter of the next entry starts from, after
/// the first `n` entries: the first chapter found last.
pub open spec fn chapter_cursor(srcs: Seq<Option<Seq<char>>>, hrefs: Seq<Seq<char>>, n: int) -> int
    decreases n,
{
    if n <= 0 {
        0
    } else {
        let prev = chapter_cursor(srcs, hrefs, n - 1);
        match srcs[n - 1] {
            Some(src) => match first_href_from(hrefs, prev, src) {
                Some(i) => i,
                None => prev,
            },
            None => prev,
        }
    }
}

/// The first chapter of entry `k` of the table of contents: the first chapter, from where
/// the previous entry's was found on, whose file is the entry's file; `old` when there is
/// none.
pub open spec fn first_chapter_of(srcs: Seq<Option<Seq<char>>>, hrefs: Seq<Seq<char>>, k: int, old: usize) -> usize {
    match srcs[k] {
        Some(src) => match first_href_from(hrefs, chapter_cursor(srcs, hrefs, k), src) {
            Some(i) => i as usize,
            None => old,
        },
        None => old,
    }
}

/// The files of the entries.
pub open spec fn toc_srcs(toc: Seq<NavPoint>) -> Seq<Option<Seq<char>>> {
    toc.map_values(|np: NavPoint| match np.src_file {
        Some(s) => Some(s@),
        None => None,
    })
}

/// The files of the chapters, in reading order.
pub open spec fn hrefs_view(hrefs: Seq<String>) -> Seq<Seq<char>> {
    hrefs.map_values(|h: String| h@)
}

fn find_href(hrefs: &Vec<String>, from: usize, target: &String) -> (r: Option<usize>)
    ensures
        match r {
            Some(i) => first_href_from(hrefs_view(hrefs@), from as int, target@) == Some(i as int),
            None => first_href_from(hrefs_view(hrefs@), from as int, target@) is None,
        },
{
    let mut i = from;
    while i < hrefs.len()
        invariant
            from <= i,
            first_href_from(hrefs_view(hrefs@), from as int, target@) == first_href_from(hrefs_view(hrefs@), i as int, target@),
        decreases hrefs@.len() - i,
    {
        if hrefs[i] == *target {
            return Some(i);
        }
        i = i + 1;
    }
    None
}

/// Sets the first chapter of each entry of the table of contents, as `first_chapter_of`
/// says, given the files of the chapters in reading order.
pub fn assign_first_chapters(toc: Vec<NavPoint>, chapter_hrefs: &Vec<String>) -> (r: Vec<NavPoint>)
    ensures
        r@.len() == toc@.len(),
        forall|k: int|
            0 <= k < toc@.len() ==> (#[trigger] r@[k]).first_chapter_index == first_chapter_of(
                toc_srcs(toc@),
                hrefs_view(chapter_hrefs@),
                k,
                toc@[k].first_chapter_index,
            ),
        forall|k: int|
            0 <= k < toc@.len() ==> (#[trigger] r@[k]).label == toc@[k].label && r@[k].src_file
                == toc@[k].src_file && r@[k].src_anchor == toc@[k].src_anchor && r@[k].level
                == toc@[k].level && r@[k].id == toc@[k].id && r@[k].play_order == toc@[k].play_order,
{
    let ghost orig = toc@;
    let ghost srcs = toc_srcs(toc@);
    let ghost hv = hrefs_view(chapter_hrefs@);
    let mut pending = toc;
    let mut reversed: Vec<NavPoint> = Vec::new();
    while pending.len() > 0
        invariant
            pending@.len() + reversed@.len() == orig.len(),
            forall|j: int| 0 <= j < pending@.len() ==> pending@[j] == orig[j],
            forall|j: int| 0 <= j < reversed@.len() ==> reversed@[j] == orig[orig.len() - 1 - j],
        decreases pending@.len(),
    {
        let np = pending.pop().unwrap();
        reversed.push(np);
    }
    let mut result: Vec<NavPoint> = Vec::new();
    let mut chapter_index: usize = 0;
    while reversed.len() > 0
        invariant
            reversed@.len() + result@.len() == orig.len(),
            forall|j: int| 0 <= j < reversed@.len() ==> reversed@[j] == orig[orig.len() - 1 - j],
            srcs == toc_srcs(orig),
            hv == hrefs_view(chapter_hrefs@),
            chapter_index == chapter_cursor(srcs, hv, result@.len() as int),
            forall|k: int|
                0 <= k < result@.len() ==> (#[trigger] result@[k]).first_chapter_index == first_chapter_of(
                    srcs,
                    hv,
                    k,
                    orig[k].first_chapter_index,
                ),
            forall|k: int|
                0 <= k < result@.len() ==> (#[trigger] result@[k]).label == orig[k].label && result@[k].src_file
                    == orig[k].src_file && result@[k].src_anchor == orig[k].src_anchor && result@[k].level
                    == orig[k].level && result@[k].id == orig[k].id && result@[k].play_order == orig[k].play_order,
        decreases reversed@.len(),
    {
        let ghost k = result@.len() as int;
        let mut np = reversed.pop().unwrap();
        assert(np == orig[k]);
        assert(srcs[k] == (match np.src_file {
            Some(s) => Some(s@),
            None => None::<Seq<char>>,
        }));
        let found = match &np.src_file {
            Some(src_file) => find_href(chapter_hrefs, chapter_index, src_file),
            None => None,
        };
        if let Some(i) = found {
            np.first_chapter_index = i;
            chapter_index = i;
        }
        result.push(np);
    }
    result
}

/// The chapter a book opens at: the one asked for, or the last for `Last` or when the one
/// asked for is past the last.
pub fn initial_chapter_index(loading_chapter: &LoadingChapter, chapter_count: usize) -> (i: usize)
    requires
        chapter_count > 0,
    ensures
        i == (match loading_chapter {
            LoadingChapter::Index(index) => if *index >= chapter_count {
                (chapter_count - 1) as usize
            } else {
                *index
            },
            LoadingChapter::Last => (chapter_count - 1) as usize,
        }),
{
    let mut chapter_index = match loading_chapter {
        LoadingChapter::Index(index) => *index,
        LoadingChapter::Last => chapter_count - 1,
    };
    if chapter_index >= chapter_count {
        chapter_index = chapter_count - 1;
    }
    chapter_index
}

/// The entry of the table of contents that the reading position is in, scanning the
/// entries from `i` on with `matched` the last one found so far: an entry of the current
/// chapter's file counts unless its anchor lies after the position, which ends the scan;
/// an entry of another file counts when its first chapter is not after the current one.
pub open spec fn toc_scan(toc: Seq<NavPoint>, positions: Seq<Option<Position>>, chapter_href: Seq<char>,
    chapter_index: usize, line: usize, offset: usize, i: int, matched: int) -> int
    decreases toc.len() - i,
{
    if i < 0 || i >= toc.len() {
        matched
    } else if toc[i].src_file matches Some(f) && f@ == chapter_href {
        if positions[i] matches Some(p) && (p.line > line || (p.line == line && p.offset > offset)) {
            matched
        } else {
            toc_scan(toc, positions, chapter_href, chapter_index, line, offset, i + 1, i)
        }
    } else if toc[i].first_chapter_index <= chapter_index {
        toc_scan(toc, positions, chapter_href, chapter_index, line, offset, i + 1, i)
    } else {
        toc_scan(toc, positions, chapter_href, chapter_index, line, offset, i + 1, matched)
    }
}

/// Whether an entry of the table of contents names the file `href`.
pub open spec fn names_file(np: NavPoint, href: Seq<char>) -> bool {
    np.src_file matches Some(f) && f@ == href
}

/// What the entry found for a chapter that no entry names must satisfy: it is an entry
/// (0 for an empty table), no later entry's first chapter is at or before the chapter, and
/// it is itself such an entry unless there is none, when it is 0.
pub open spec fn last_entry_not_after(toc: Seq<NavPoint>, chapter_index: usize, r: int) -> bool {
    &&& 0 <= r
    &&& toc.len() == 0 ==> r == 0
    &&& toc.len() > 0 ==> r < toc.len()
    &&& forall|k: int| r < k < toc.len() ==> #[trigger] toc[k].first_chapter_index > chapter_index
    &&& (0 <= r < toc.len() && toc[r].first_chapter_index > chapter_index) ==> (r == 0 && forall|k: int|
        0 <= k < toc.len() ==> #[trigger] toc[k].first_chapter_index > chapter_index)
}

proof fn lemma_toc_scan_other_files(toc: Seq<NavPoint>, positions: Seq<Option<Position>>, chapter_href: Seq<char>,
    chapter_index: usize, line: usize, offset: usize, i: int, m: int)
    requires
        0 <= i <= toc.len(),
        0 <= m,
        i == 0 ==> m == 0,
        i > 0 ==> m < i,
        forall|k: int| 0 <= k < toc.len() ==> !names_file(#[trigger] toc[k], chapter_href),
        forall|k: int| m < k < i ==> #[trigger] toc[k].first_chapter_index > chapter_index,
        (i > 0 && toc[m].first_chapter_index > chapter_index) ==> (m == 0 && forall|k: int|
            0 <= k < i ==> #[trigger] toc[k].first_chapter_index > chapter_index),
    ensures
        last_entry_not_after(toc, chapter_index, toc_scan(toc, positions, chapter_href, chapter_index, line, offset, i, m)),
    decreases toc.len() - i,
{
    if i < toc.len() {
        assert(!names_file(toc[i], chapter_href));
        if toc[i].first_chapter_index <= chapter_index {
            lemma_toc_scan_other_files(toc, positions, chapter_href, chapter_index, line, offset, i + 1, i);
        } else {
            lemma_toc_scan_other_files(toc, positions, chapter_href, chapter_index, line, offset, i + 1, m);
        }
    }
}

/// When no entry of the table of contents names the current chapter's file, the entry the
/// reading position is in is the last one whose first chapter is not after the current
/// chapter, or the first entry when there is none: an entry whose first chapter comes
/// later is never chosen over an earlier one that qualifies.
pub proof fn law_toc_index_without_own_entry(toc: Seq<NavPoint>, positions: Seq<Option<Position>>,
    chapter_href: Seq<char>, chapter_index: usize, line: usize, offset: usize)
    requires
        forall|k: int| 0 <= k < toc.len() ==> !names_file(#[trigger] toc[k], chapter_href),
    ensures
        last_entry_not_after(toc, chapter_index, toc_scan(toc, positions, chapter_href, chapter_index, line, offset, 0, 0)),
{
    lemma_toc_scan_other_files(toc, positions, chapter_href, chapter_index, line, offset, 0, 0);
}

/// The index of the entry of the table of contents that the reading position `(line,
/// offset)` of chapter `chapter_index`, whose file is `chapter_href`, is in; 0 when there
/// is none. `anchor_positions` holds, for each entry, where its anchor is in the chapter,
/// when it has one there.
pub fn toc_index(toc: &Vec<NavPoint>, anchor_positions: &Vec<Option<Position>>, chapter_href: &String,
    chapter_index: usize, line: usize, offset: usize) -> (r: usize)
    requires
        anchor_positions@.len() == toc@.len(),
    ensures
        r == toc_scan(toc@, anchor_positions@, chapter_href@, chapter_index, line, offset, 0, 0),
        (forall|k: int| 0 <= k < toc@.len() ==> !names_file(#[trigger] toc@[k], chapter_href@)) ==> last_entry_not_after(
            toc@,
            chapter_index,
            r as int,
        ),
{
    proof {
        if forall|k: int| 0 <= k < toc@.len() ==> !names_file(#[trigger] toc@[k], chapter_href@) {
            law_toc_index_without_own_entry(toc@, anchor_positions@, chapter_href@, chapter_index, line, offset);
        }
    }
    let len = toc.len();
    let mut matched: usize = 0;
    let mut idx: usize = 0;
    while idx < len
        invariant_except_break
            len == toc@.len(),
            anchor_positions@.len() == len,
            idx <= len,
            matched <= idx,
            toc_scan(toc@, anchor_positions@, chapter_href@, chapter_index, line, offset, 0, 0)
                == toc_scan(toc@, anchor_positions@, chapter_href@, chapter_index, line, offset, idx as int, matched as int),
        ensures
            toc_scan(toc@, anchor_positions@, chapter_href@, chapter_index, line, offset, 0, 0) == matched,
        decreases len - idx,
    {
        let np = &toc[idx];
        let same_file = match &np.src_file {
            Some(f) => *f == *chapter_href,
            None => false,
        };
        if same_file {
            if let Some(p) = anchor_positions[idx] {
                if p.line > line || (p.line == line && p.offset > offset) {
                    break;
                }
            }
            matched = idx;
        } else if np.first_chapter_index <= chapter_index {
            matched = idx;
        }
        idx = idx + 1;
    }
    matched
}

/// Splitting a link target at `#` gives its file, the text before the first `#`, and its
/// anchor, the text after it up to the next `#` or the end; neither holds a `#`.
pub proof fn law_link_target_parts(s: Seq<char>)
    ensures
        ({
            let (file, anchor) = split_two(s, '#');
            &&& forall|j: int| 0 <= j < file.len() ==> file[j] != '#'
            &&& match anchor {
                None => file == s,
                Some(a) => {
                    &&& file.len() < s.len()
                    &&& s.take(file.len() as int) == file
                    &&& s[file.len() as int] == '#'
                    &&& file.len() + 1 + a.len() <= s.len()
                    &&& s.subrange(file.len() as int + 1, (file.len() + 1 + a.len()) as int) == a
                    &&& forall|j: int| 0 <= j < a.len() ==> a[j] != '#'
                },
            }
        }),
{
    if exists|i: int| 0 <= i < s.len() && s[i] == '#' {
        lemma_first_sep(s, '#');
        let i = choose|i: int| 0 <= i < s.len() && s[i] == '#' && forall|j: int| 0 <= j < i ==> s[j] != '#';
        let rest = s.skip(i + 1);
        if exists|k: int| 0 <= k < rest.len() && rest[k] == '#' {
            lemma_first_sep(rest, '#');
            let k = choose|k: int|
                0 <= k < rest.len() && rest[k] == '#' && forall|j: int| 0 <= j < k ==> rest[j] != '#';
            assert(s.subrange(i + 1, i + 1 + k) =~= rest.take(k));
        } else {
            assert(s.subrange(i + 1, s.len() as int) =~= rest);
        }
    }
}

proof fn lemma_first_sep(s: Seq<char>, sep: char)
    requires
        exists|i: int| 0 <= i < s.len() && s[i] == sep,
    ensures
        exists|i: int| 0 <= i < s.len() && s[i] == sep && forall|j: int| 0 <= j < i ==> s[j] != sep,
    decreases s.len(),
{
    if s[0] == sep {
        assert(0 <= 0 < s.len() && s[0] == sep && forall|j: int| 0 <= j < 0 ==> s[j] != sep);
    } else {
        let t = s.drop_first();
        let w = choose|i: int| 0 <= i < s.len() && s[i] == sep;
        assert(t[w - 1] == sep);
        lemma_first_sep(t, sep);
        let m = choose|i: int| 0 <= i < t.len() && t[i] == sep && forall|j: int| 0 <= j < i ==> t[j] != sep;
        assert forall|j: int| 0 <= j < m + 1 implies s[j] != sep by {
            if j > 0 {
                assert(s[j] == t[j - 1]);
            }
        }
        assert(s[m + 1] == sep);
    }
}

} // verus!
