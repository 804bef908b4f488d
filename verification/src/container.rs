//! Containers of books: a single file, or an archive that holds several books.

use vstd::prelude::*;

use crate::book::LoadingChapter;
use crate::loader::{loader_kind_for, BookLoader};
use crate::strings::{ends_with, lowercase, str_chars, str_ends_with, str_to_lowercase, string_from_chars};

verus! {

/// The name of a book in a container, and its index among the container's entries.
#[derive(Clone, Debug)]
pub struct BookName {
    name: String,
    index: usize,
}

impl BookName {
    pub fn new(name: String, index: usize) -> (b: Self)
        ensures
            b.name_view() == name@,
            b.index_view() == index,
    {
        BookName { name, index }
    }

    /// The name.
    pub closed spec fn name_view(&self) -> Seq<char> {
        self.name@
    }

    /// The index among the container's entries.
    pub closed spec fn index_view(&self) -> usize {
        self.index
    }

    pub fn name(&self) -> (n: &String)
        ensures
            n@ == self.name_view(),
    {
        &self.name
    }

    pub fn index(&self) -> (i: usize)
        ensures
            i == self.index_view(),
    {
        self.index
    }
}

/// What a book of a container is read from: a file, or bytes already read.
pub enum BookContent {
    File(String),
    Buf(Vec<u8>),
}

/// Why a container could not hand out a book.
#[derive(Debug, PartialEq, Eq, Structural)]
pub enum ContainerError {
    /// There is no book at this index.
    NoBook(usize),
    /// The container holds no book that a loader reads.
    NoContent,
}

/// A set of books read from one file.
pub trait Container {
    /// The names of the books.
    fn inner_book_names(&self) -> &Vec<BookName>;

    /// What the book at `inner_index` is read from.
    fn book_content(&mut self, inner_index: usize) -> Result<BookContent, ContainerError>;
}

/// The title under which a file is shown: its name as given.
pub fn title_for_filename(filename: &str) -> (t: &str)
    ensures
        t@ == filename@,
{
    filename
}

/// A file that is not an archive: a container of the one book it is.
pub struct DummyContainer {
    filenames: Vec<BookName>,
}

impl DummyContainer {
    /// The container of the one book `filename`.
    pub fn new(filename: &str) -> (c: Self)
        ensures
            c.names().len() == 1,
            c.names()[0].name_view() == filename@,
            c.names()[0].index_view() == 0,
    {
        let filename = title_for_filename(filename);
        let filename = filename.to_owned();
        let mut filenames = Vec::new();
        filenames.push(BookName::new(filename, 0));
        DummyContainer { filenames }
    }

    /// The names of the books.
    pub closed spec fn names(&self) -> Seq<BookName> {
        self.filenames@
    }
}

impl Container for DummyContainer {
    fn inner_book_names(&self) -> (n: &Vec<BookName>)
        ensures
            n@ == self.names(),
    {
        &self.filenames
    }

    /// The file itself, whatever the index.
    fn book_content(&mut self, _inner_index: usize) -> (r: Result<BookContent, ContainerError>)
        ensures
            final(self).names() == old(self).names(),
            old(self).names().len() == 0 ==> r == Err::<BookContent, ContainerError>(ContainerError::NoBook(0)),
            old(self).names().len() > 0 ==> (r matches Ok(BookContent::File(f)) && f@ == old(self).names()[0].name_view()),
    {
        if self.filenames.len() == 0 {
            return Err(ContainerError::NoBook(0));
        }
        Ok(BookContent::File(self.filenames[0].name.clone()))
    }
}

/// Which chapter to open: the last one for `usize::MAX`, else the one at that index.
pub fn loading_chapter_for(chapter: usize) -> (l: LoadingChapter)
    ensures
        chapter == usize::MAX ==> l is Last,
        chapter != usize::MAX ==> l == LoadingChapter::Index(chapter),
{
    if chapter == usize::MAX {
        LoadingChapter::Last
    } else {
        LoadingChapter::Index(chapter)
    }
}

/// Opens zip archives as containers.
pub struct ZipLoader {}

impl ZipLoader {
    pub fn new() -> (l: Self) {
        ZipLoader {}
    }

    /// Whether a file is opened as a zip archive: its name ends with `.zip` in any case.
    pub fn accept(&self, filename: &str) -> (r: bool)
        ensures
            r == ends_with(lowercase(filename@), ".zip"@),
    {
        let lower = str_to_lowercase(filename);
        str_ends_with(lower.as_str(), ".zip")
    }
}

/// Splitting text at line feeds: `done` holds the finished pieces and `cur` the piece in
/// progress.
pub open spec fn split_step(state: (Seq<Seq<char>>, Seq<char>), c: char) -> (Seq<Seq<char>>, Seq<char>) {
    let (done, cur) = state;
    if c == '\n' {
        (done.push(cur), Seq::empty())
    } else {
        (done, cur.push(c))
    }
}

/// The state after splitting the characters of `s`.
pub open spec fn split_state(s: Seq<char>) -> (Seq<Seq<char>>, Seq<char>)
    decreases s.len(),
{
    if s.len() == 0 {
        (Seq::empty(), Seq::empty())
    } else {
        split_step(split_state(s.drop_last()), s.last())
    }
}

/// The pieces of `s` between line feeds: one more than it holds line feeds.
pub open spec fn split_lines(s: Seq<char>) -> Seq<Seq<char>> {
    let (done, cur) = split_state(s);
    done.push(cur)
}

/// The entries of `lines` that some loader reads, each with its index, in order.
pub open spec fn supported_names(lines: Seq<Seq<char>>) -> Seq<(Seq<char>, int)>
    decreases lines.len(),
{
    if lines.len() == 0 {
        Seq::empty()
    } else {
        let before = supported_names(lines.drop_last());
        if loader_kind_for(lines.last()) is Some {
            before.push((lines.last(), lines.len() - 1))
        } else {
            before
        }
    }
}

/// Book names as name and index pairs.
pub open spec fn book_names_view(names: Seq<BookName>) -> Seq<(Seq<char>, int)> {
    names.map_values(|b: BookName| (b.name_view(), b.index_view() as int))
}

/// Appends `line` with its index when some loader reads it.
fn keep_if_supported(names: &mut Vec<BookName>, line: &Vec<char>, index: usize, loader: &BookLoader)
    requires
        loader.wf(),
    ensures
        book_names_view(final(names)@) == if loader_kind_for(line@) is Some {
            book_names_view(old(names)@).push((line@, index as int))
        } else {
            book_names_view(old(names)@)
        },
{
    let name = string_from_chars(line);
    if loader.support(name.as_str()) {
        names.push(BookName::new(name, index));
        assert(book_names_view(names@) =~= book_names_view(old(names)@).push((line@, index as int)));
    }
}

proof fn lemma_supported_names_push(lines: Seq<Seq<char>>, line: Seq<char>)
    ensures
        supported_names(lines.push(line)) == if loader_kind_for(line) is Some {
            supported_names(lines).push((line, lines.len() as int))
        } else {
            supported_names(lines)
        },
{
    assert(lines.push(line).drop_last() =~= lines);
}

/// The books of an archive whose entry names are `names`, one per line: the entries
/// that some loader reads, each with its index among the entries, in entry order.
pub fn zip_book_names(names: &str, loader: &BookLoader) -> (r: Vec<BookName>)
    requires
        loader.wf(),
    ensures
        book_names_view(r@) == supported_names(split_lines(names@)),
{
    let chars = str_chars(names);
    let mut result: Vec<BookName> = Vec::new();
    let mut cur: Vec<char> = Vec::new();
    let mut index: usize = 0;
    let mut i: usize = 0;
    while i < chars.len()
        invariant
            loader.wf(),
            chars@ == names@,
            i <= chars.len(),
            split_state(chars@.take(i as int)) == (split_state(chars@.take(i as int)).0, cur@),
            index == split_state(chars@.take(i as int)).0.len(),
            index <= i,
            book_names_view(result@) == supported_names(split_state(chars@.take(i as int)).0),
        decreases chars.len() - i,
    {
        let ghost before = split_state(chars@.take(i as int));
        assert(chars@.take(i + 1).drop_last() =~= chars@.take(i as int));
        let c = chars[i];
        if c == '\n' {
            proof {
                lemma_supported_names_push(before.0, cur@);
            }
            keep_if_supported(&mut result, &cur, index, loader);
            cur = Vec::new();
            index = index + 1;
        } else {
            cur.push(c);
        }
        i = i + 1;
    }
    assert(chars@.take(chars.len() as int) =~= chars@);
    proof {
        lemma_supported_names_push(split_state(names@).0, cur@);
    }
    keep_if_supported(&mut result, &cur, index, loader);
    result
}

/// Every book that an archive lists is an entry that some loader reads, at its own index,
/// the books keep the order of the entries, and no entry that a loader reads is left out.
pub proof fn law_supported_names(lines: Seq<Seq<char>>)
    ensures
        forall|k: int| 0 <= k < supported_names(lines).len() ==> {
            let (name, index) = #[trigger] supported_names(lines)[k];
            &&& 0 <= index < lines.len()
            &&& lines[index] == name
            &&& loader_kind_for(name) is Some
        },
        forall|k: int, l: int|
            0 <= k < l < supported_names(lines).len() ==> #[trigger] supported_names(lines)[k].1
                < #[trigger] supported_names(lines)[l].1,
        forall|i: int|
            0 <= i < lines.len() && loader_kind_for(#[trigger] lines[i]) is Some ==> exists|k: int|
                0 <= k < supported_names(lines).len() && supported_names(lines)[k] == (lines[i], i),
    decreases lines.len(),
{
    if lines.len() > 0 {
        let init = lines.drop_last();
        law_supported_names(init);
        assert forall|i: int|
            0 <= i < lines.len() && loader_kind_for(#[trigger] lines[i]) is Some implies exists|k: int|
                0 <= k < supported_names(lines).len() && supported_names(lines)[k] == (lines[i], i) by {
            if i < lines.len() - 1 {
                assert(init[i] == lines[i]);
                let k = choose|k: int|
                    0 <= k < supported_names(init).len() && supported_names(init)[k] == (init[i], i);
                assert(supported_names(lines)[k] == (lines[i], i));
            } else {
                let k = supported_names(init).len() as int;
                assert(supported_names(lines)[k] == (lines[i], i));
            }
        }
    }
}

/// The book at `index` of a container's list; `NoBook(index)` past its end.
pub fn inner_book_name(names: &Vec<BookName>, index: usize) -> (r: Result<&BookName, ContainerError>)
    ensures
        index < names.len() ==> r == Ok::<&BookName, ContainerError>(&names@[index as int]),
        index >= names.len() ==> r == Err::<&BookName, ContainerError>(ContainerError::NoBook(index)),
{
    if index < names.len() {
        Ok(&names[index])
    } else {
        Err(ContainerError::NoBook(index))
    }
}

/// A container can be read only when it lists a book; `NoContent` when it lists none.
pub fn check_container_names(names: &Vec<BookName>) -> (r: Result<(), ContainerError>)
    ensures
        names.len() > 0 ==> r is Ok,
        names.len() == 0 ==> r == Err::<(), ContainerError>(ContainerError::NoContent),
{
    if names.len() == 0 {
        Err(ContainerError::NoContent)
    } else {
        Ok(())
    }
}

} // verus!
