//! What is remembered of a reading, how a book is to be loaded, and the configuration.

use vstd::prelude::*;

use crate::strings::{ascii_lower, str_chars, to_ascii_lowercase};
use crate::terminal::Listable;

verus! {

/// The font size of a new reading.
pub open spec fn default_font_size_spec() -> u8 {
    20
}

/// The font size of a new reading.
#[inline]
pub fn default_font_size() -> (s: u8)
    ensures
        s == default_font_size_spec(),
{
    20
}

/// Where the reading of a book stands, and its per-book settings.
#[derive(Clone)]
pub struct ReadingInfo {
    pub row_id: i64,
    pub filename: String,
    pub inner_book: usize,
    pub chapter: usize,
    pub line: usize,
    pub position: usize,
    pub custom_color: bool,
    pub custom_font: bool,
    pub strip_empty_lines: bool,
    pub custom_style: Option<String>,
    pub font_size: u8,
}

/// A reading of `filename` at the start of `inner_book` and `chapter`, with default
/// settings.
pub open spec fn is_fresh_reading(r: ReadingInfo, row_id: i64, filename: Seq<char>, inner_book: usize,
    chapter: usize, custom_style: Option<String>, font_size: u8) -> bool {
    &&& r.row_id == row_id
    &&& r.filename@ == filename
    &&& r.inner_book == inner_book
    &&& r.chapter == chapter
    &&& r.line == 0
    &&& r.position == 0
    &&& !r.custom_color
    &&& !r.custom_font
    &&& !r.strip_empty_lines
    &&& r.custom_style == custom_style
    &&& r.font_size == font_size
}

impl ReadingInfo {
    /// A reading of `filename` that is kept nowhere: row id 0, at the start, with default
    /// settings.
    #[inline]
    pub fn fake(filename: &str) -> (r: Self)
        ensures
            is_fresh_reading(r, 0, filename@, 0, 0, None, default_font_size_spec()),
    {
        ReadingInfo {
            row_id: 0,
            filename: filename.to_owned(),
            inner_book: 0,
            chapter: 0,
            line: 0,
            position: 0,
            custom_color: false,
            custom_font: false,
            strip_empty_lines: false,
            custom_style: None,
            font_size: default_font_size(),
        }
    }

    /// How to load another book of the same container, keeping the history row, the
    /// custom style and the font size.
    #[inline]
    pub fn load_inner_book(&self, inner_book: usize) -> (l: BookLoadingInfo)
        ensures
            l matches BookLoadingInfo::ChangeInnerBook(f, i, row, style, size) && f@ == self.filename@
                && i == inner_book && row == self.row_id && (style is Some <==> self.custom_style is Some)
                && (style matches Some(s) ==> s@ == self.custom_style->0@) && size == self.font_size,
    {
        BookLoadingInfo::ChangeInnerBook(
            self.filename.as_str(),
            inner_book,
            self.row_id,
            clone_style(&self.custom_style),
            self.font_size,
        )
    }
}

fn clone_style(style: &Option<String>) -> (r: Option<String>)
    ensures
        r is Some <==> style is Some,
        r matches Some(s) ==> s@ == style->0@,
{
    match style {
        Some(s) => Some(s.clone()),
        None => None,
    }
}

impl Listable for ReadingInfo {
    fn title(&self) -> (t: &str)
        ensures
            t@ == self.filename@,
    {
        self.filename.as_str()
    }

    fn id(&self) -> (i: usize)
        ensures
            self.row_id < 0 ==> i == 0,
            self.row_id >= 0 ==> i == self.row_id as usize,
    {
        let rowid = self.row_id;
        if rowid < 0 {
            0
        } else {
            #[verifier::truncate]
            (rowid as usize)
        }
    }
}

/// How a book is to be loaded.
pub enum BookLoadingInfo<'a> {
    /// A book read for the first time: file name, inner book, chapter, font size.
    NewReading(&'a str, usize, usize, u8),
    /// Another book of the container being read: file name, inner book, history row,
    /// custom style, font size.
    ChangeInnerBook(&'a str, usize, i64, Option<String>, u8),
    /// A book from the history.
    History(ReadingInfo),
    /// The book being read, again.
    Reload(ReadingInfo),
}

/// The reading that `BookLoadingInfo::get` gives, before any initialization.
pub open spec fn loading_result(l: BookLoadingInfo, r: ReadingInfo) -> bool {
    match l {
        BookLoadingInfo::NewReading(filename, inner_book, chapter, font_size) => is_fresh_reading(
            r,
            0,
            filename@,
            inner_book,
            chapter,
            None,
            font_size,
        ),
        BookLoadingInfo::ChangeInnerBook(filename, inner_book, row_id, custom_style, font_size) => {
            &&& r.row_id == row_id
            &&& r.filename@ == filename@
            &&& r.inner_book == inner_book
            &&& r.chapter == 0
            &&& r.line == 0
            &&& r.position == 0
            &&& !r.custom_color
            &&& !r.custom_font
            &&& !r.strip_empty_lines
            &&& (r.custom_style is Some <==> custom_style is Some)
            &&& (r.custom_style matches Some(s) ==> s@ == custom_style->0@)
            &&& r.font_size == font_size
        },
        BookLoadingInfo::History(reading) => r == reading,
        BookLoadingInfo::Reload(reading) => r == reading,
    }
}

impl<'a> BookLoadingInfo<'a> {
    pub open spec fn filename_view(&self) -> Seq<char> {
        match self {
            BookLoadingInfo::NewReading(filename, ..) => filename@,
            BookLoadingInfo::ChangeInnerBook(filename, ..) => filename@,
            BookLoadingInfo::History(reading) => reading.filename@,
            BookLoadingInfo::Reload(reading) => reading.filename@,
        }
    }

    /// The name of the file to load.
    #[inline]
    pub fn filename(&self) -> (f: &str)
        ensures
            f@ == self.filename_view(),
    {
        match self {
            BookLoadingInfo::NewReading(filename, ..) => filename,
            BookLoadingInfo::ChangeInnerBook(filename, ..) => filename,
            BookLoadingInfo::History(reading) => reading.filename.as_str(),
            BookLoadingInfo::Reload(reading) => reading.filename.as_str(),
        }
    }

    /// The reading to start with: a fresh one for a new reading or another inner book, the
    /// remembered one otherwise.
    #[inline]
    pub fn get(self) -> (r: ReadingInfo)
        ensures
            loading_result(self, r),
    {
        match self {
            BookLoadingInfo::NewReading(filename, inner_book, chapter, font_size) => ReadingInfo {
                row_id: 0,
                filename: filename.to_owned(),
                inner_book,
                chapter,
                line: 0,
                position: 0,
                custom_color: false,
                custom_font: false,
                strip_empty_lines: false,
                custom_style: None,
                font_size,
            },
            BookLoadingInfo::ChangeInnerBook(filename, inner_book, row_id, custom_style, font_size) =>
            ReadingInfo {
                row_id,
                filename: filename.to_owned(),
                inner_book,
                chapter: 0,
                line: 0,
                position: 0,
                custom_color: false,
                custom_font: false,
                strip_empty_lines: false,
                custom_style: clone_style(&custom_style),
                font_size,
            },
            BookLoadingInfo::History(reading) => reading,
            BookLoadingInfo::Reload(reading) => reading,
        }
    }

    /// Like `get`, but a fresh reading is first passed to `f`.
    #[inline]
    pub fn get_or_init<F>(self, f: F) -> (r: ReadingInfo) where F: FnOnce(ReadingInfo) -> ReadingInfo
        requires
            forall|reading: ReadingInfo| loading_result(self, reading) ==> f.requires((reading,)),
        ensures
            match self {
                BookLoadingInfo::History(reading) => r == reading,
                BookLoadingInfo::Reload(reading) => r == reading,
                _ => exists|fresh: ReadingInfo| loading_result(self, fresh) && f.ensures((fresh,), r),
            },
    {
        match self {
            BookLoadingInfo::History(reading) => reading,
            BookLoadingInfo::Reload(reading) => reading,
            _ => {
                let ghost s = self;
                let fresh = self.get();
                let r = f(fresh);
                assert(loading_result(s, fresh));
                r
            },
        }
    }
}

/// The reading an EPUB or HTML book starts with: a remembered reading as it was; a fresh
/// one with the book's own colors and fonts switched on.
pub fn get_reading(loading: BookLoadingInfo) -> (r: ReadingInfo)
    ensures
        (loading is History || loading is Reload) ==> loading_result(loading, r),
        !(loading is History || loading is Reload) ==> {
            &&& r.custom_color
            &&& r.custom_font
            &&& loading_result(loading, (ReadingInfo { custom_color: false, custom_font: false, ..r }))
        },
{
    match loading {
        BookLoadingInfo::History(reading) => reading,
        BookLoadingInfo::Reload(reading) => reading,
        _ => {
            let mut reading = loading.get();
            reading.custom_color = true;
            reading.custom_font = true;
            reading
        },
    }
}

/// A path that can be switched off.
#[derive(Clone, Default, Debug)]
pub struct PathConfig {
    pub enabled: bool,
    pub path: String,
}

/// Where the sidebar of the window stands.
#[derive(Clone, Copy, PartialEq, Eq, Structural, Debug)]
pub enum SidebarPosition {
    Left,
    Top,
}

impl Default for SidebarPosition {
    #[inline]
    fn default() -> (p: Self)
        ensures
            p == SidebarPosition::Left,
    {
        SidebarPosition::Left
    }
}

impl SidebarPosition {
    /// The message key of the position's name.
    #[inline]
    pub fn i18n_key(&self) -> (k: &'static str)
        ensures
            *self == SidebarPosition::Left ==> k@ == "sidebar-left"@,
            *self == SidebarPosition::Top ==> k@ == "sidebar-top"@,
    {
        match self {
            SidebarPosition::Left => "sidebar-left",
            SidebarPosition::Top => "sidebar-top",
        }
    }
}

/// The settings of the graphical view.
#[derive(Clone, Debug)]
pub struct GuiConfiguration {
    pub fonts: Vec<PathConfig>,
    pub default_font_size: u8,
    pub dict_font_size: u8,
    pub sidebar_size: u32,
    pub sidebar_position: SidebarPosition,
    pub lang: String,
    pub dictionaries: Vec<PathConfig>,
    pub cache_dict: bool,
    pub strip_empty_lines: bool,
    pub ignore_font_weight: bool,
    pub scroll_for_page: bool,
    pub select_by_dictionary: bool,
}

impl GuiConfiguration {
    /// The default settings, with the given interface language.
    pub fn with_lang(lang: String) -> (c: Self)
        ensures
            c.fonts@.len() == 0,
            c.default_font_size == default_font_size_spec(),
            c.dict_font_size == default_font_size_spec(),
            c.sidebar_size == 300,
            c.sidebar_position == SidebarPosition::Left,
            c.lang@ == lang@,
            c.dictionaries@.len() == 0,
            !c.cache_dict && !c.strip_empty_lines && !c.ignore_font_weight,
            !c.scroll_for_page && !c.select_by_dictionary,
    {
        GuiConfiguration {
            fonts: Vec::new(),
            default_font_size: default_font_size(),
            dict_font_size: default_font_size(),
            sidebar_size: 300,
            sidebar_position: SidebarPosition::Left,
            lang,
            dictionaries: Vec::new(),
            cache_dict: false,
            strip_empty_lines: false,
            ignore_font_weight: false,
            scroll_for_page: false,
            select_by_dictionary: false,
        }
    }
}

/// The configuration as it is stored.
#[derive(Clone, Debug)]
pub struct RawConfig {
    pub render_han: bool,
    pub dark_theme: bool,
    pub history: String,
    pub gui: GuiConfiguration,
}

/// `idx` places the characters of `pat` in `name` in order, ignoring ASCII case.
pub open spec fn embeds(name: Seq<char>, pat: Seq<char>, idx: Seq<int>) -> bool {
    &&& idx.len() == pat.len()
    &&& forall|k: int|
        0 <= k < idx.len() ==> 0 <= #[trigger] idx[k] < name.len() && ascii_lower(name[idx[k]])
            == ascii_lower(pat[k])
    &&& forall|k: int, j: int| 0 <= k < j < idx.len() ==> #[trigger] idx[k] < #[trigger] idx[j]
}

/// The greedy match of `pat` in `name` from character `fi`: each character of the
/// pattern at the first place after the previous one where it occurs, ignoring ASCII
/// case.
pub open spec fn match_from(name: Seq<char>, pat: Seq<char>, fi: int) -> Option<Seq<int>>
    decreases pat.len(), name.len() - fi,
{
    if pat.len() == 0 {
        Some(Seq::empty())
    } else if fi < 0 || fi >= name.len() {
        None
    } else if ascii_lower(name[fi]) == ascii_lower(pat[0]) {
        match match_from(name, pat.drop_first(), fi + 1) {
            Some(rest) => Some(seq![fi] + rest),
            None => None,
        }
    } else {
        match_from(name, pat, fi + 1)
    }
}

/// The greedy match places the pattern, at or after `fi`.
pub proof fn lemma_match_sound(name: Seq<char>, pat: Seq<char>, fi: int)
    requires
        0 <= fi,
    ensures
        match_from(name, pat, fi) matches Some(idx) ==> embeds(name, pat, idx) && forall|k: int|
            0 <= k < idx.len() ==> fi <= #[trigger] idx[k],
    decreases pat.len(), name.len() - fi,
{
    if pat.len() > 0 && fi < name.len() {
        if ascii_lower(name[fi]) == ascii_lower(pat[0]) {
            lemma_match_sound(name, pat.drop_first(), fi + 1);
            if let Some(rest) = match_from(name, pat.drop_first(), fi + 1) {
                let idx = seq![fi] + rest;
                assert forall|k: int| 0 <= k < idx.len() implies 0 <= #[trigger] idx[k] < name.len()
                    && ascii_lower(name[idx[k]]) == ascii_lower(pat[k]) by {
                    if k > 0 {
                        assert(idx[k] == rest[k - 1]);
                        assert(pat[k] == pat.drop_first()[k - 1]);
                    }
                }
                assert forall|k: int, j: int| 0 <= k < j < idx.len() implies #[trigger] idx[k]
                    < #[trigger] idx[j] by {
                    if k > 0 {
                        assert(idx[k] == rest[k - 1]);
                    }
                    assert(idx[j] == rest[j - 1]);
                }
            }
        } else {
            lemma_match_sound(name, pat, fi + 1);
        }
    }
}

/// Whenever the pattern can be placed in `name` at or after `fi`, the greedy match
/// finds a placing.
pub proof fn lemma_match_complete(name: Seq<char>, pat: Seq<char>, fi: int, idx: Seq<int>)
    requires
        0 <= fi,
        embeds(name, pat, idx),
        forall|k: int| 0 <= k < idx.len() ==> fi <= #[trigger] idx[k],
    ensures
        match_from(name, pat, fi) is Some,
    decreases pat.len(), name.len() - fi,
{
    if pat.len() > 0 {
        assert(fi <= idx[0] < name.len());
        if ascii_lower(name[fi]) == ascii_lower(pat[0]) {
            let rest = idx.drop_first();
            assert forall|k: int| 0 <= k < rest.len() implies fi + 1 <= #[trigger] rest[k] by {
                assert(rest[k] == idx[k + 1]);
                assert(idx[0] < idx[k + 1]);
            }
            assert forall|k: int| 0 <= k < rest.len() implies 0 <= #[trigger] rest[k] < name.len()
                && ascii_lower(name[rest[k]]) == ascii_lower(pat.drop_first()[k]) by {
                assert(rest[k] == idx[k + 1]);
            }
            assert forall|k: int, j: int| 0 <= k < j < rest.len() implies #[trigger] rest[k]
                < #[trigger] rest[j] by {
                assert(rest[k] == idx[k + 1]);
                assert(rest[j] == idx[j + 1]);
            }
            lemma_match_complete(name, pat.drop_first(), fi + 1, rest);
        } else {
            assert(idx[0] != fi);
            assert forall|k: int| 0 <= k < idx.len() implies fi + 1 <= #[trigger] idx[k] by {
                if k > 0 {
                    assert(idx[0] < idx[k]);
                }
            }
            lemma_match_complete(name, pat, fi + 1, idx);
        }
    }
}

/// Matches `pattern` as a subsequence of `filename`, ignoring ASCII case: the character
/// index in `filename` of each pattern character, each at the first place it occurs after
/// the previous one; `None` when the pattern is not a subsequence.
pub fn match_filename(filename: &str, pattern: &str) -> (r: Option<Vec<usize>>)
    ensures
        match r {
            Some(v) => match_from(filename@, pattern@, 0) == Some(v@.map_values(|i: usize| i as int)),
            None => match_from(filename@, pattern@, 0) is None,
        },
        r matches Some(v) ==> embeds(filename@, pattern@, v@.map_values(|i: usize| i as int)),
        r is None <==> !exists|idx: Seq<int>| embeds(filename@, pattern@, idx),
{
    let name = str_chars(filename);
    let pat = str_chars(pattern);
    let mut vec: Vec<usize> = Vec::new();
    let mut fi: usize = 0;
    let mut pi: usize = 0;
    assert(pat@.skip(0) == pat@);
    while pi < pat.len()
        invariant
            name@ == filename@,
            pat@ == pattern@,
            pi <= pat@.len(),
            fi <= name@.len(),
            match_from(filename@, pattern@, 0) == (match match_from(filename@, pat@.skip(pi as int), fi as int) {
                Some(rest) => Some(vec@.map_values(|i: usize| i as int) + rest),
                None => None,
            }),
        decreases pat@.len() - pi, name@.len() - fi,
    {
        let pc = to_ascii_lowercase(pat[pi]);
        let ghost p = pat@.skip(pi as int);
        assert(p.drop_first() == pat@.skip(pi + 1));
        loop
            invariant_except_break
                name@ == filename@,
                pat@ == pattern@,
                pi < pat@.len(),
                fi <= name@.len(),
                p == pat@.skip(pi as int),
                p.drop_first() == pat@.skip(pi + 1),
                p.len() > 0,
                pc == ascii_lower(p[0]),
                match_from(filename@, pattern@, 0) == (match match_from(filename@, p, fi as int) {
                    Some(rest) => Some(vec@.map_values(|i: usize| i as int) + rest),
                    None => None,
                }),
            ensures
                fi <= name@.len(),
                match_from(filename@, pattern@, 0) == (match match_from(filename@, pat@.skip(pi + 1), fi as int) {
                    Some(rest) => Some(vec@.map_values(|i: usize| i as int) + rest),
                    None => None,
                }),
            decreases name@.len() - fi,
        {
            if fi >= name.len() {
                proof {
                    lemma_match_sound(filename@, pattern@, 0);
                    if exists|idx: Seq<int>| embeds(filename@, pattern@, idx) {
                        let idx = choose|idx: Seq<int>| embeds(filename@, pattern@, idx);
                        lemma_match_complete(filename@, pattern@, 0, idx);
                    }
                }
                return None;
            }
            let fc = to_ascii_lowercase(name[fi]);
            if fc == pc {
                let ghost old_vec = vec@;
                let ghost old_fi = fi as int;
                assert(match_from(filename@, p, old_fi) == (match match_from(filename@, p.drop_first(), old_fi + 1) {
                    Some(rest) => Some(seq![old_fi] + rest),
                    None => None,
                }));
                vec.push(fi);
                assert(vec@.map_values(|i: usize| i as int) =~= old_vec.map_values(|i: usize| i as int)
                    + seq![old_fi]);
                fi = fi + 1;
                proof {
                    match match_from(filename@, p.drop_first(), fi as int) {
                        Some(rest) => {
                            assert(old_vec.map_values(|i: usize| i as int) + (seq![old_fi] + rest)
                                =~= vec@.map_values(|i: usize| i as int) + rest);
                        },
                        None => {},
                    }
                }
                break;
            }
            assert(match_from(filename@, p, fi as int) == match_from(filename@, p, fi + 1));
            fi = fi + 1;
        }
        pi = pi + 1;
    }
    assert(pat@.skip(pi as int) =~= Seq::<char>::empty());
    assert(vec@.map_values(|i: usize| i as int) + Seq::<int>::empty() =~= vec@.map_values(|i: usize| i as int));
    proof {
        lemma_match_sound(filename@, pattern@, 0);
    }
    Some(vec)
}

} // verus!

verus! {

/// The view of an optional string.
pub open spec fn opt_string_view(s: Option<&String>) -> Option<Seq<char>> {
    match s {
        Some(t) => Some(t@),
        None => None,
    }
}

/// Whether a row of the reading history is listed: its file still exists, it is not the
/// excluded file, and the filter pattern, when there is one, can be placed in its name.
pub open spec fn history_row_listed(filename: Seq<char>, exists: bool, exclude: Option<Seq<char>>,
    pattern: Option<Seq<char>>) -> bool {
    &&& exists
    &&& (exclude matches Some(e) ==> e != filename)
    &&& (pattern matches Some(p) ==> match_from(filename, p, 0) is Some)
}

/// The rows of the history, newest first, that are listed.
pub open spec fn history_listed(rows: Seq<(ReadingInfo, bool)>, exclude: Option<Seq<char>>,
    pattern: Option<Seq<char>>) -> Seq<ReadingInfo>
    decreases rows.len(),
{
    if rows.len() == 0 {
        Seq::empty()
    } else {
        let prev = history_listed(rows.drop_last(), exclude, pattern);
        let (info, exists) = rows.last();
        if history_row_listed(info.filename@, exists, exclude, pattern) {
            prev.push(info)
        } else {
            prev
        }
    }
}

/// How many rows a history list holds at most: the list is cut once it has `limit` rows,
/// and a row is taken before that is checked.
pub open spec fn history_cap(limit: usize) -> int {
    if limit == 0 {
        1
    } else {
        limit as int
    }
}

/// The history list: the first listed rows, at most `history_cap(limit)` of them.
pub open spec fn history_selection(rows: Seq<(ReadingInfo, bool)>, limit: usize, exclude: Option<
    Seq<char>>, pattern: Option<Seq<char>>) -> Seq<ReadingInfo> {
    let listed = history_listed(rows, exclude, pattern);
    if listed.len() > history_cap(limit) {
        listed.take(history_cap(limit))
    } else {
        listed
    }
}

fn copy_reading(r: &ReadingInfo) -> (c: ReadingInfo)
    ensures
        c == *r,
{
    ReadingInfo {
        row_id: r.row_id,
        filename: r.filename.clone(),
        inner_book: r.inner_book,
        chapter: r.chapter,
        line: r.line,
        position: r.position,
        custom_color: r.custom_color,
        custom_font: r.custom_font,
        strip_empty_lines: r.strip_empty_lines,
        custom_style: match &r.custom_style {
            Some(s) => Some(s.clone()),
            None => None,
        },
        font_size: r.font_size,
    }
}

/// Picks the reading history to list from its rows, newest first, each with whether its
/// file still exists: the rows whose file exists, other than `exclude`, whose name the
/// filter `pattern` can be placed in, cut once `limit` rows are taken.
pub fn select_history(rows: &Vec<(ReadingInfo, bool)>, limit: usize, exclude: Option<&String>,
    pattern: Option<&String>) -> (list: Vec<ReadingInfo>)
    ensures
        list@ == history_selection(rows@, limit, opt_string_view(exclude), opt_string_view(pattern)),
{
    let ghost ex = opt_string_view(exclude);
    let ghost pat = opt_string_view(pattern);
    let mut list: Vec<ReadingInfo> = Vec::new();
    let mut i: usize = 0;
    loop
        invariant_except_break
            i <= rows@.len(),
            ex == opt_string_view(exclude),
            pat == opt_string_view(pattern),
            list@ == history_listed(rows@.take(i as int), ex, pat),
            list@.len() < history_cap(limit),
        ensures
            list@ == history_selection(rows@, limit, ex, pat),
        decreases rows@.len() - i,
    {
        if i >= rows.len() {
            assert(rows@.take(i as int) == rows@);
            break;
        }
        assert(rows@.take(i + 1).drop_last() == rows@.take(i as int));
        let row = &rows[i];
        let info = &row.0;
        let mut keep = row.1;
        if keep {
            if let Some(e) = exclude {
                if *e == info.filename {
                    keep = false;
                }
            }
        }
        if keep {
            if let Some(p) = pattern {
                if match_filename(info.filename.as_str(), p.as_str()).is_none() {
                    keep = false;
                }
            }
        }
        assert(keep == history_row_listed(info.filename@, row.1, ex, pat));
        if keep {
            list.push(copy_reading(info));
        }
        i = i + 1;
        assert(list@ == history_listed(rows@.take(i as int), ex, pat));
        if keep && list.len() >= limit {
            proof {
                lemma_history_listed_prefix(rows@, i as int, ex, pat);
            }
            break;
        }
    }
    list
}

/// The rows listed from a prefix of the history are the first of those listed from it all.
proof fn lemma_history_listed_prefix(rows: Seq<(ReadingInfo, bool)>, n: int, exclude: Option<
    Seq<char>>, pattern: Option<Seq<char>>)
    requires
        0 <= n <= rows.len(),
    ensures
        history_listed(rows.take(n), exclude, pattern).len() <= history_listed(rows, exclude,
            pattern).len(),
        history_listed(rows, exclude, pattern).take(
            history_listed(rows.take(n), exclude, pattern).len() as int,
        ) == history_listed(rows.take(n), exclude, pattern),
    decreases rows.len() - n,
{
    if n == rows.len() {
        assert(rows.take(n) == rows);
        assert(history_listed(rows, exclude, pattern).take(
            history_listed(rows, exclude, pattern).len() as int) == history_listed(rows, exclude, pattern));
    } else {
        lemma_history_listed_prefix(rows.drop_last(), n, exclude, pattern);
        assert(rows.drop_last().take(n) == rows.take(n));
        let prev = history_listed(rows.drop_last(), exclude, pattern);
        let whole = history_listed(rows, exclude, pattern);
        let k = history_listed(rows.take(n), exclude, pattern).len() as int;
        assert(whole.take(k) == prev.take(k));
    }
}

/// Whether `info` is the reading of a row of `rows` that is listed.
pub open spec fn from_listed_row(rows: Seq<(ReadingInfo, bool)>, info: ReadingInfo, exclude: Option<
    Seq<char>>, pattern: Option<Seq<char>>) -> bool {
    exists|j: int|
        0 <= j < rows.len() && #[trigger] rows[j].0 == info && history_row_listed(
            rows[j].0.filename@,
            rows[j].1,
            exclude,
            pattern,
        )
}

/// Every reading of a history list comes from a row whose file exists, that is not the
/// excluded file and whose name the filter can be placed in; the list holds no more than
/// `limit` readings (one when `limit` is 0).
pub proof fn law_history_list_filtered(rows: Seq<(ReadingInfo, bool)>, limit: usize, exclude: Option<
    Seq<char>>, pattern: Option<Seq<char>>)
    ensures
        history_selection(rows, limit, exclude, pattern).len() <= history_cap(limit),
        forall|k: int|
            0 <= k < history_selection(rows, limit, exclude, pattern).len() ==> from_listed_row(
                rows,
                #[trigger] history_selection(rows, limit, exclude, pattern)[k],
                exclude,
                pattern,
            ),
{
    lemma_listed_rows(rows, exclude, pattern);
    let listed = history_listed(rows, exclude, pattern);
    let sel = history_selection(rows, limit, exclude, pattern);
    assert forall|k: int| 0 <= k < sel.len() implies from_listed_row(rows, #[trigger] sel[k], exclude, pattern) by {
        assert(sel[k] == listed[k]);
    }
}

proof fn lemma_listed_rows(rows: Seq<(ReadingInfo, bool)>, exclude: Option<Seq<char>>, pattern: Option<
    Seq<char>>)
    ensures
        forall|k: int|
            0 <= k < history_listed(rows, exclude, pattern).len() ==> from_listed_row(
                rows,
                #[trigger] history_listed(rows, exclude, pattern)[k],
                exclude,
                pattern,
            ),
    decreases rows.len(),
{
    if rows.len() > 0 {
        let prev_rows = rows.drop_last();
        lemma_listed_rows(prev_rows, exclude, pattern);
        let prev = history_listed(prev_rows, exclude, pattern);
        let listed = history_listed(rows, exclude, pattern);
        assert forall|k: int| 0 <= k < listed.len() implies from_listed_row(rows, #[trigger] listed[k], exclude, pattern) by {
            if k < prev.len() {
                assert(listed[k] == prev[k]);
                assert(from_listed_row(prev_rows, prev[k], exclude, pattern));
                let j = choose|j: int|
                    0 <= j < prev_rows.len() && #[trigger] prev_rows[j].0 == prev[k] && history_row_listed(
                        prev_rows[j].0.filename@,
                        prev_rows[j].1,
                        exclude,
                        pattern,
                    );
                assert(rows[j] == prev_rows[j]);
            } else {
                let last = rows.last();
                assert(history_row_listed(last.0.filename@, last.1, exclude, pattern));
                assert(listed == prev.push(last.0));
                assert(rows[rows.len() - 1] == last);
                assert(listed[k] == last.0);
                assert(rows[rows.len() - 1].0 == listed[k]);
            }
        }
    }
}

} // verus!
