//! Which loader reads a book, by the name of its file, and the plain text books.

use vstd::prelude::*;

use crate::book::{Book, Line};
use crate::common::{all_ascii, plain_text_lines, txt_lines_spec, TextError};
use crate::config::ReadingInfo;
use crate::strings::{ends_with, lowercase, str_chars, str_ends_with, str_to_lowercase, chars_end_with};

verus! {

/// The extension lists of the loaders, as characters.
pub open spec fn extensions_view(extensions: Seq<&'static str>) -> Seq<Seq<char>> {
    extensions.map_values(|e: &'static str| e@)
}

/// Whether `filename`, lower-cased, ends with one of `extensions`.
pub open spec fn has_extension(filename: Seq<char>, extensions: Seq<Seq<char>>) -> bool {
    exists|i: int| 0 <= i < extensions.len() && ends_with(lowercase(filename), #[trigger] extensions[i])
}

/// Whether `filename`, lower-cased, ends with one of `extensions`.
pub fn ends_with_extension(filename: &str, extensions: &Vec<&'static str>) -> (r: bool)
    ensures
        r == has_extension(filename@, extensions_view(extensions@)),
{
    let lower = str_to_lowercase(filename);
    let name = str_chars(lower.as_str());
    let mut i: usize = 0;
    while i < extensions.len()
        invariant
            i <= extensions@.len(),
            name@ == lowercase(filename@),
            forall|j: int| 0 <= j < i ==> !ends_with(lowercase(filename@), #[trigger] extensions_view(extensions@)[j]),
        decreases extensions@.len() - i,
    {
        let ext = str_chars(extensions[i]);
        if chars_end_with(&name, &ext) {
            assert(ends_with(lowercase(filename@), extensions_view(extensions@)[i as int]));
            return true;
        }
        i = i + 1;
    }
    false
}

/// The extensions of plain text books.
pub open spec fn txt_extensions() -> Seq<Seq<char>> {
    seq![".txt"@, ".log"@, ".json"@, ".yaml"@, ".yml"@, ".js"@]
}

/// The extensions of HTML books.
pub open spec fn html_extensions() -> Seq<Seq<char>> {
    seq![".html"@, ".htm"@, ".xhtml"@]
}

/// The extensions of EPUB books.
pub open spec fn epub_extensions() -> Seq<Seq<char>> {
    seq![".epub"@, ".xml"@]
}

/// The extensions of Haodoo books.
pub open spec fn haodoo_extensions() -> Seq<Seq<char>> {
    seq![".pdb"@, ".updb"@]
}

/// The loader of plain text books.
pub struct TxtLoader {
    extensions: Vec<&'static str>,
}

/// The loader of HTML books.
pub struct HtmlLoader {
    extensions: Vec<&'static str>,
}

/// The loader of EPUB books, packed or extracted.
pub struct EpubLoader {
    extensions: Vec<&'static str>,
}

/// The loader of Haodoo books.
pub struct HaodooLoader {
    extensions: Vec<&'static str>,
}

impl TxtLoader {
    pub closed spec fn extensions_spec(&self) -> Seq<Seq<char>> {
        extensions_view(self.extensions@)
    }

    pub fn new() -> (l: Self)
        ensures
            l.extensions_spec() == txt_extensions(),
    {
        let mut extensions = Vec::new();
        extensions.push(".txt");
        extensions.push(".log");
        extensions.push(".json");
        extensions.push(".yaml");
        extensions.push(".yml");
        extensions.push(".js");
        assert(extensions_view(extensions@) =~= txt_extensions());
        TxtLoader { extensions }
    }

    pub fn extensions(&self) -> (e: &Vec<&'static str>)
        ensures
            extensions_view(e@) == self.extensions_spec(),
    {
        &self.extensions
    }

    /// Whether the loader reads `filename`: by its extension.
    pub fn support(&self, filename: &str) -> (r: bool)
        ensures
            r == has_extension(filename@, self.extensions_spec()),
    {
        ends_with_extension(filename, &self.extensions)
    }
}

impl HtmlLoader {
    pub closed spec fn extensions_spec(&self) -> Seq<Seq<char>> {
        extensions_view(self.extensions@)
    }

    pub fn new() -> (l: Self)
        ensures
            l.extensions_spec() == html_extensions(),
    {
        let mut extensions = Vec::new();
        extensions.push(".html");
        extensions.push(".htm");
        extensions.push(".xhtml");
        assert(extensions_view(extensions@) =~= html_extensions());
        HtmlLoader { extensions }
    }

    pub fn extensions(&self) -> (e: &Vec<&'static str>)
        ensures
            extensions_view(e@) == self.extensions_spec(),
    {
        &self.extensions
    }

    /// Whether the loader reads `filename`: by its extension.
    pub fn support(&self, filename: &str) -> (r: bool)
        ensures
            r == has_extension(filename@, self.extensions_spec()),
    {
        ends_with_extension(filename, &self.extensions)
    }
}

impl EpubLoader {
    pub closed spec fn extensions_spec(&self) -> Seq<Seq<char>> {
        extensions_view(self.extensions@)
    }

    pub fn new() -> (l: Self)
        ensures
            l.extensions_spec() == epub_extensions(),
    {
        let mut extensions = Vec::new();
        extensions.push(".epub");
        extensions.push(".xml");
        assert(extensions_view(extensions@) =~= epub_extensions());
        EpubLoader { extensions }
    }

    pub fn extensions(&self) -> (e: &Vec<&'static str>)
        ensures
            extensions_view(e@) == self.extensions_spec(),
    {
        &self.extensions
    }

    /// Whether the loader reads `filename`: a packed book ends with `.epub` in any case, and
    /// an extracted one is read from its `META-INF/container.xml`.
    pub fn support(&self, filename: &str) -> (r: bool)
        ensures
            r == (ends_with(lowercase(filename@), ".epub"@) || ends_with(
                filename@,
                "META-INF/container.xml"@,
            )),
    {
        let lower = str_to_lowercase(filename);
        if str_ends_with(lower.as_str(), ".epub") {
            return true;
        }
        if str_ends_with(filename, "META-INF/container.xml") {
            return true;
        }
        false
    }
}

impl HaodooLoader {
    pub closed spec fn extensions_spec(&self) -> Seq<Seq<char>> {
        extensions_view(self.extensions@)
    }

    pub fn new() -> (l: Self)
        ensures
            l.extensions_spec() == haodoo_extensions(),
    {
        let mut extensions = Vec::new();
        extensions.push(".pdb");
        extensions.push(".updb");
        assert(extensions_view(extensions@) =~= haodoo_extensions());
        HaodooLoader { extensions }
    }

    pub fn extensions(&self) -> (e: &Vec<&'static str>)
        ensures
            extensions_view(e@) == self.extensions_spec(),
    {
        &self.extensions
    }

    /// Whether the loader reads `filename`: by its extension.
    pub fn support(&self, filename: &str) -> (r: bool)
        ensures
            r == has_extension(filename@, self.extensions_spec()),
    {
        ends_with_extension(filename, &self.extensions)
    }
}

/// Which loader reads a book.
#[derive(Clone, Copy, Debug, PartialEq, Eq, Structural)]
pub enum LoaderKind {
    Txt,
    Epub,
    Html,
    Haodoo,
}

/// Whether the EPUB loader reads `filename`.
pub open spec fn epub_supports(filename: Seq<char>) -> bool {
    ends_with(lowercase(filename), ".epub"@) || ends_with(filename, "META-INF/container.xml"@)
}

/// The first loader, in the order plain text, EPUB, HTML, Haodoo, that reads `filename`.
pub open spec fn loader_kind_for(filename: Seq<char>) -> Option<LoaderKind> {
    if has_extension(filename, txt_extensions()) {
        Some(LoaderKind::Txt)
    } else if epub_supports(filename) {
        Some(LoaderKind::Epub)
    } else if has_extension(filename, html_extensions()) {
        Some(LoaderKind::Html)
    } else if has_extension(filename, haodoo_extensions()) {
        Some(LoaderKind::Haodoo)
    } else {
        None
    }
}

/// The loaders of every kind of book.
pub struct BookLoader {
    txt: TxtLoader,
    epub: EpubLoader,
    html: HtmlLoader,
    haodoo: HaodooLoader,
}

impl BookLoader {
    /// Each loader has its own extensions.
    pub closed spec fn wf(&self) -> bool {
        &&& self.txt.extensions_spec() == txt_extensions()
        &&& self.epub.extensions_spec() == epub_extensions()
        &&& self.html.extensions_spec() == html_extensions()
        &&& self.haodoo.extensions_spec() == haodoo_extensions()
    }

    pub fn new() -> (l: Self)
        ensures
            l.wf(),
    {
        BookLoader {
            txt: TxtLoader::new(),
            epub: EpubLoader::new(),
            html: HtmlLoader::new(),
            haodoo: HaodooLoader::new(),
        }
    }

    /// The extensions of all loaders, in their order.
    pub fn extension(&self) -> (v: Vec<&'static str>)
        requires
            self.wf(),
        ensures
            extensions_view(v@) == txt_extensions() + epub_extensions() + html_extensions()
                + haodoo_extensions(),
    {
        let mut vec: Vec<&'static str> = Vec::new();
        append_extensions(&mut vec, self.txt.extensions());
        append_extensions(&mut vec, self.epub.extensions());
        append_extensions(&mut vec, self.html.extensions());
        append_extensions(&mut vec, self.haodoo.extensions());
        assert(extensions_view(vec@) =~= txt_extensions() + epub_extensions() + html_extensions()
            + haodoo_extensions());
        vec
    }

    /// The loader that reads `filename`.
    pub fn loader_for(&self, filename: &str) -> (k: Option<LoaderKind>)
        requires
            self.wf(),
        ensures
            k == loader_kind_for(filename@),
    {
        if self.txt.support(filename) {
            Some(LoaderKind::Txt)
        } else if self.epub.support(filename) {
            Some(LoaderKind::Epub)
        } else if self.html.support(filename) {
            Some(LoaderKind::Html)
        } else if self.haodoo.support(filename) {
            Some(LoaderKind::Haodoo)
        } else {
            None
        }
    }

    /// Whether some loader reads `filename`.
    pub fn support(&self, filename: &str) -> (r: bool)
        requires
            self.wf(),
        ensures
            r == loader_kind_for(filename@) is Some,
    {
        self.loader_for(filename).is_some()
    }
}

impl Default for BookLoader {
    fn default() -> (l: Self)
        ensures
            l.wf(),
    {
        BookLoader::new()
    }
}

fn append_extensions(vec: &mut Vec<&'static str>, extensions: &Vec<&'static str>)
    ensures
        extensions_view(final(vec)@) == extensions_view(old(vec)@) + extensions_view(extensions@),
{
    let mut i: usize = 0;
    while i < extensions.len()
        invariant
            i <= extensions@.len(),
            vec@ == old(vec)@ + extensions@.take(i as int),
        decreases extensions@.len() - i,
    {
        vec.push(extensions[i]);
        i = i + 1;
        assert(vec@ =~= old(vec)@ + extensions@.take(i as int));
    }
    assert(extensions@.take(i as int) == extensions@);
    assert(extensions_view(vec@) =~= extensions_view(old(vec)@) + extensions_view(extensions@));
}

/// After a book is loaded, the reading is put where the book stands: at the book's current
/// chapter, at its last line when it was past it, and at the start of the line when its
/// position was past the line's end.
pub fn fit_reading(reading: &mut ReadingInfo, chapter: usize, lines: &Vec<Line>)
    requires
        lines@.len() > 0,
    ensures
        final(reading).chapter == chapter,
        final(reading).line == (if old(reading).line >= lines@.len() {
            (lines@.len() - 1) as usize
        } else {
            old(reading).line
        }),
        final(reading).position == (if old(reading).position >= lines@[final(reading).line as int]@.len() {
            0
        } else {
            old(reading).position
        }),
        final(reading).row_id == old(reading).row_id,
        final(reading).filename == old(reading).filename,
        final(reading).inner_book == old(reading).inner_book,
        final(reading).custom_color == old(reading).custom_color,
        final(reading).custom_font == old(reading).custom_font,
        final(reading).strip_empty_lines == old(reading).strip_empty_lines,
        final(reading).custom_style == old(reading).custom_style,
        final(reading).font_size == old(reading).font_size,
{
    reading.chapter = chapter;
    if reading.line >= lines.len() {
        reading.line = lines.len() - 1;
    }
    let chars = lines[reading.line].len();
    if reading.position >= chars {
        reading.position = 0;
    }
}

/// A plain text book.
pub struct TxtBook {
    lines: Vec<Line>,
    leading_space: usize,
}

impl TxtBook {
    pub closed spec fn lines_spec(&self) -> Seq<Line> {
        self.lines@
    }

    pub closed spec fn leading_space_spec(&self) -> usize {
        self.leading_space
    }
}

impl Book for TxtBook {
    fn lines(&self) -> (l: &Vec<Line>)
        ensures
            l@ == self.lines_spec(),
    {
        &self.lines
    }

    fn leading_space(&self) -> (n: usize)
        ensures
            n == self.leading_space_spec(),
    {
        self.leading_space
    }
}

impl TxtLoader {
    /// The book of the plain text `content`: its lines, with no leading space for a log
    /// file and two spaces else.
    pub fn load_buf(&self, filename: &str, content: Vec<u8>) -> (r: Result<TxtBook, TextError>)
        ensures
            r matches Ok(book) ==> book.leading_space_spec() == (if ends_with(lowercase(filename@), ".log"@) {
                0usize
            } else {
                2usize
            }),
            r matches Err(e) ==> e == TextError::InvalidUtf8 && !vstd::utf8::valid_utf8(content@),
            all_ascii(content@) ==> (r matches Ok(book) && book.lines_spec().len() == txt_lines_spec(
                vstd::utf8::decode_utf8(content@),
            ).len() && forall|i: int|
                0 <= i < book.lines_spec().len() ==> #[trigger] book.lines_spec()[i]@ == txt_lines_spec(
                    vstd::utf8::decode_utf8(content@),
                )[i]),
    {
        let lines = plain_text_lines(content)?;
        let lower = str_to_lowercase(filename);
        let leading_space = if str_ends_with(lower.as_str(), ".log") {
            0
        } else {
            2
        };
        Ok(TxtBook { lines, leading_space })
    }
}

} // verus!
