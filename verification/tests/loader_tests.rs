use tbr::book::{Book, Line, LoadingChapter};
use tbr::config::ReadingInfo;
use tbr::container::{
    check_container_names, inner_book_name, loading_chapter_for, title_for_filename,
    zip_book_names, BookContent, BookName, Container, ContainerError, DummyContainer, ZipLoader,
};
use tbr::loader::{fit_reading, BookLoader, LoaderKind, TxtLoader};

#[test]
fn zip_files_by_extension() {
    let zip = ZipLoader::new();
    assert!(zip.accept("books.ZIP"));
    assert!(zip.accept("a.zip"));
    assert!(!zip.accept("a.zip.txt"));
}

#[test]
fn loader_by_file_name() {
    let loader = BookLoader::new();
    assert_eq!(loader.loader_for("x.TXT"), Some(LoaderKind::Txt));
    assert_eq!(loader.loader_for("server.log"), Some(LoaderKind::Txt));
    assert_eq!(loader.loader_for("x.epub"), Some(LoaderKind::Epub));
    assert_eq!(loader.loader_for("book/META-INF/container.xml"), Some(LoaderKind::Epub));
    assert_eq!(loader.loader_for("x.xml"), None);
    assert_eq!(loader.loader_for("x.htm"), Some(LoaderKind::Html));
    assert_eq!(loader.loader_for("x.UPDB"), Some(LoaderKind::Haodoo));
    assert_eq!(loader.loader_for("x.pdf"), None);
    assert!(loader.support("a.pdb"));
    assert!(!loader.support("a.png"));
    assert_eq!(loader.extension().len(), 13);
    assert_eq!(loader.extension()[6], ".epub");
}

#[test]
fn archive_entries_that_are_books() {
    let loader = BookLoader::new();
    let names = zip_book_names("a.txt\nb.jpg\nc/d.epub", &loader);
    assert_eq!(names.len(), 2);
    assert_eq!((names[0].name().as_str(), names[0].index()), ("a.txt", 0));
    assert_eq!((names[1].name().as_str(), names[1].index()), ("c/d.epub", 2));
    assert_eq!(zip_book_names("", &loader).len(), 0);
}

#[test]
fn plain_text_books() {
    let loader = TxtLoader::new();
    let log = loader.load_buf("server.LOG", b"hello\nworld".to_vec()).ok().unwrap();
    assert_eq!(log.leading_space(), 0);
    assert_eq!(log.lines().len(), 2);
    assert_eq!(log.lines()[1].to_string(), "world");
    let txt = loader.load_buf("a.txt", b"  one".to_vec()).ok().unwrap();
    assert_eq!(txt.leading_space(), 2);
    assert_eq!(txt.lines()[0].to_string(), "one");
}

#[test]
fn single_file_container() {
    let mut container = DummyContainer::new("books/f.txt");
    assert_eq!(container.inner_book_names().len(), 1);
    assert_eq!(container.inner_book_names()[0].name().as_str(), "books/f.txt");
    match container.book_content(0) {
        Ok(BookContent::File(name)) => assert_eq!(name, "books/f.txt"),
        _ => panic!("expected the file"),
    }
    assert_eq!(title_for_filename("a/b.txt"), "a/b.txt");
}

#[test]
fn book_index_checks() {
    let names = vec![BookName::new(String::from("a"), 0)];
    assert_eq!(inner_book_name(&names, 0).ok().unwrap().name().as_str(), "a");
    assert_eq!(inner_book_name(&names, 1).err(), Some(ContainerError::NoBook(1)));
    assert!(check_container_names(&names).is_ok());
    assert_eq!(check_container_names(&vec![]).err(), Some(ContainerError::NoContent));
    assert!(matches!(loading_chapter_for(usize::MAX), LoadingChapter::Last));
    assert!(matches!(loading_chapter_for(3), LoadingChapter::Index(3)));
}

#[test]
fn reading_fits_loaded_book() {
    let lines = vec![Line::new("abc"), Line::new("de")];
    let mut reading = ReadingInfo::fake("a.txt");
    reading.line = 7;
    reading.position = 5;
    fit_reading(&mut reading, 3, &lines);
    assert_eq!((reading.chapter, reading.line, reading.position), (3, 1, 0));
    let mut reading = ReadingInfo::fake("a.txt");
    reading.line = 0;
    reading.position = 2;
    fit_reading(&mut reading, 0, &lines);
    assert_eq!((reading.line, reading.position), (0, 2));
}

#[test]
fn plain_book_moves_between_its_one_chapter() {
    let loader = TxtLoader::new();
    let mut book = loader.load_buf("a.txt", b"one\ntwo".to_vec()).ok().unwrap();
    assert_eq!(book.chapter_count(), 1);
    assert_eq!(book.current_chapter(), 0);
    assert!(matches!(book.goto_chapter(0), Ok(Some(0))));
    assert!(matches!(book.goto_chapter(1), Ok(None)));
    assert!(matches!(book.prev_chapter(), Ok(None)));
    assert!(matches!(book.next_chapter(), Ok(None)));
    assert!(book.name().is_none());
    assert!(book.title(0, 0).is_none());
    assert_eq!(book.toc_index(1, 0), 0);
    assert!(!book.color_customizable() && !book.fonts_customizable() && !book.style_customizable());
    let h = book.range_highlight(tbr::common::Position::new(0, 1), tbr::common::Position::new(1, 0)).unwrap();
    assert_eq!((h.line, h.start, h.end), (0, 1, 1));
}

#[test]
fn single_file_container_hands_out_its_file() {
    let mut container = DummyContainer::new("books/g.txt");
    assert_eq!(container.inner_book_names().len(), 1);
    match container.book_content(3) {
        Ok(BookContent::File(f)) => assert_eq!(f, "books/g.txt"),
        _ => panic!("expected the file"),
    }
}
