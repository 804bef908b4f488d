use tbr::config::ReadingInfo;
use tbr::container::BookName;
use tbr::controller::status_msg;
use tbr::common::Position;
use tbr::epub::NavPoint;
use tbr::package::{
    chapter_of_file, chapter_path, concat_path, is_encrypted, link_target_file, nav_doc_toc, ncx_toc,
    path_cwd, setup_content_opf, target_trace, setup_manifest, setup_spine, spine_hrefs, toc_source, ContentOPF,
    EpubError, ManifestItem, NavAnchor, NavDocNav, NavList, NavListItem, NcxNavPoint, OpfPackage,
    TocSource,
};

fn item(id: &str, href: &str, media_type: &str, properties: Option<&str>) -> ManifestItem {
    ManifestItem {
        id: id.to_string(),
        href: href.to_string(),
        media_type: media_type.to_string(),
        properties: properties.map(|p| p.to_string()),
    }
}

fn strings(v: &[&str]) -> Vec<String> {
    v.iter().map(|s| s.to_string()).collect()
}

const XHTML: &str = "application/xhtml+xml";

fn sample_opf() -> ContentOPF {
    let package = OpfPackage {
        titles: strings(&["A Book", "Another Title"]),
        creators: strings(&["Someone"]),
        language: None,
        items: vec![
            item("c1", "Text/c1.xhtml", XHTML, None),
            item("c2", "Text/c2.xhtml", XHTML, None),
            item("css", "Styles/s.css", "text/css", None),
            item("ncx", "toc.ncx", "application/x-dtbncx+xml", None),
            item("nav", "nav.xhtml", XHTML, Some("nav")),
            item("gone", "Text/gone.xhtml", XHTML, None),
        ],
        toc: None,
        itemrefs: strings(&["c1", "missing", "gone", "c2", "css"]),
    };
    let entries = strings(&[
        "OEBPS/Text/c1.xhtml",
        "OEBPS/Text/c2.xhtml",
        "OEBPS/Styles/s.css",
        "OEBPS/toc.ncx",
        "OEBPS/nav.xhtml",
    ]);
    setup_content_opf(&package, "OEBPS", &entries).ok().unwrap()
}

#[test]
fn paths_resolve_like_path_buf() {
    assert_eq!(concat_path("OEBPS/Text", "../Images/a.png"), "OEBPS/Images/a.png");
    assert_eq!(concat_path("OEBPS/Text", "c2.xhtml"), "OEBPS/Text/c2.xhtml");
    assert_eq!(concat_path("a/b/c", "../../d"), "a/d");
    assert_eq!(concat_path("", "c1.xhtml"), "c1.xhtml");
    assert_eq!(path_cwd("OEBPS/content.opf"), "OEBPS");
    assert_eq!(path_cwd("content.opf"), "");
}

#[test]
fn manifest_keeps_last_item_of_an_id() {
    let items = vec![
        item("x", "a.xhtml", XHTML, None),
        item("y", "b.xhtml", XHTML, Some("nav")),
        item("x", "../c.xhtml", "text/css", None),
    ];
    let manifest = setup_manifest(&items, "OEBPS/Text");
    assert_eq!(manifest.len(), 2);
    let x = manifest.iter().find(|m| m.id == "x").unwrap();
    assert_eq!(x.href, "OEBPS/c.xhtml");
    assert_eq!(x.media_type, "text/css");
    let y = manifest.iter().find(|m| m.id == "y").unwrap();
    assert_eq!(y.href, "OEBPS/Text/b.xhtml");
    assert_eq!(y.properties.as_deref(), Some("nav"));
}

#[test]
fn spine_keeps_files_of_the_archive() {
    let manifest = vec![item("a", "x/a.xhtml", XHTML, None), item("b", "x/b.xhtml", XHTML, None)];
    let entries = strings(&["x/b.xhtml"]);
    let (spine, toc) = setup_spine(&strings(&["a", "b", "c", "b"]), &Some("ncx".to_string()), &manifest, &entries);
    assert_eq!(spine, strings(&["b", "b"]));
    assert_eq!(toc.as_deref(), Some("ncx"));
}

#[test]
fn content_opf_from_package() {
    let opf = sample_opf();
    assert_eq!(opf.title, "A Book");
    assert_eq!(opf.author.as_deref(), Some("Someone"));
    assert_eq!(opf.language, "");
    assert_eq!(opf.manifest.len(), 6);
    assert_eq!(opf.spine, strings(&["c1", "c2", "css"]));
    assert_eq!(opf.toc_id, None);
    let untitled = OpfPackage {
        titles: vec![],
        creators: vec![],
        language: Some("en".to_string()),
        items: vec![],
        toc: None,
        itemrefs: vec![],
    };
    assert_eq!(setup_content_opf(&untitled, "", &vec![]).err(), Some(EpubError::NoTitle));
}

#[test]
fn chapter_paths_and_errors() {
    let mut opf = sample_opf();
    assert_eq!(chapter_path(0, &opf).ok(), Some("OEBPS/Text/c1.xhtml"));
    assert_eq!(chapter_path(1, &opf).ok(), Some("OEBPS/Text/c2.xhtml"));
    assert_eq!(
        chapter_path(2, &opf).err().unwrap().to_string(),
        "Chapter error: Referenced content for css is not valid."
    );
    assert_eq!(chapter_path(3, &opf).err().unwrap().to_string(), "Chapter error: invalid index");
    opf.spine.push("nothing".to_string());
    assert_eq!(chapter_path(3, &opf).err().unwrap().to_string(), "Chapter error: Invalid ref id: nothing");
}

#[test]
fn chapters_by_file() {
    let opf = sample_opf();
    assert_eq!(spine_hrefs(&opf), strings(&["OEBPS/Text/c1.xhtml", "OEBPS/Text/c2.xhtml", "OEBPS/Styles/s.css"]));
    assert_eq!(chapter_of_file(&opf, "OEBPS/Text/c2.xhtml"), Some(1));
    assert_eq!(chapter_of_file(&opf, "OEBPS/Text/c3.xhtml"), None);
}

#[test]
fn table_of_contents_source() {
    let mut opf = sample_opf();
    assert!(matches!(toc_source(&opf), Ok(TocSource::Ncx(href)) if href == "OEBPS/toc.ncx"));
    opf.toc_id = Some("nothing".to_string());
    assert!(matches!(toc_source(&opf), Ok(TocSource::NavDoc(href)) if href == "OEBPS/nav.xhtml"));
    opf.manifest.retain(|m| m.id != "nav");
    assert!(matches!(toc_source(&opf), Err(EpubError::NoToc)));
}

#[test]
fn link_targets_resolve_against_the_chapter() {
    let (file, anchor) = link_target_file("OEBPS/Text/c1.xhtml", "c2.xhtml#p3");
    assert_eq!(file.as_deref(), Some("OEBPS/Text/c2.xhtml"));
    assert_eq!(anchor.as_deref(), Some("p3"));
    let (file, anchor) = link_target_file("OEBPS/Text/c1.xhtml", "#top");
    assert_eq!(file, None);
    assert_eq!(anchor.as_deref(), Some("top"));
    let (file, anchor) = link_target_file("OEBPS/Text/c1.xhtml", "../notes.xhtml");
    assert_eq!(file.as_deref(), Some("OEBPS/notes.xhtml"));
    assert_eq!(anchor, None);
}

#[test]
fn encryption_mark() {
    assert!(is_encrypted(&strings(&["mimetype", "META-INF/encryption.xml"])));
    assert!(!is_encrypted(&strings(&["mimetype", "META-INF/container.xml"])));
}

fn ncx_point(id: &str, order: Option<&str>, label: Option<&str>, src: &str, nested: Option<Vec<NcxNavPoint>>) -> NcxNavPoint {
    NcxNavPoint {
        id: id.to_string(),
        play_order: order.map(|o| o.to_string()),
        label: label.map(|l| l.to_string()),
        src: src.to_string(),
        nav_points: nested,
    }
}

fn summary(toc: &[NavPoint]) -> Vec<(Option<String>, usize, Option<String>, Option<String>)> {
    toc.iter()
        .map(|np| (np.label.clone(), np.level, np.src_file.clone(), np.src_anchor.clone()))
        .collect()
}

#[test]
fn ncx_points_flatten_in_order() {
    let points = vec![
        ncx_point(
            "p1",
            Some("1"),
            Some("Part"),
            "Text/c1.xhtml",
            Some(vec![ncx_point("p2", Some("+2"), None, "Text/c1.xhtml#s1", None)]),
        ),
        ncx_point("p3", Some("x3"), Some("End"), "../c2.xhtml#end", Some(vec![])),
    ];
    let toc = ncx_toc(&points, "OEBPS/toc").ok().unwrap();
    assert_eq!(
        summary(&toc),
        vec![
            (Some("Part".to_string()), 1, Some("OEBPS/toc/Text/c1.xhtml".to_string()), None),
            (None, 2, Some("OEBPS/toc/Text/c1.xhtml".to_string()), Some("s1".to_string())),
            (Some("End".to_string()), 1, Some("OEBPS/c2.xhtml".to_string()), Some("end".to_string())),
        ]
    );
    assert_eq!(toc[0].play_order, Some(1));
    assert_eq!(toc[1].play_order, Some(2));
    assert_eq!(toc[2].play_order, None);
    assert_eq!(toc[1].id.as_deref(), Some("p2"));
    assert!(matches!(ncx_toc(&vec![], "OEBPS"), Err(EpubError::NoNavPoints)));
}

fn anchor(href: Option<&str>, title: Option<&str>, text: &str) -> NavAnchor {
    NavAnchor { href: href.map(|h| h.to_string()), title: title.map(|t| t.to_string()), text: text.to_string() }
}

fn li(a: Option<NavAnchor>, span: Option<NavAnchor>, ol: Option<NavList>) -> NavListItem {
    NavListItem { a, span, ol }
}

#[test]
fn nav_document_entries() {
    let list = NavList {
        lis: vec![
            li(
                Some(anchor(Some("Text/c1.xhtml"), None, "One")),
                None,
                Some(NavList { lis: vec![li(None, Some(anchor(None, Some("Inner"), "ignored")), None)] }),
            ),
            li(Some(anchor(Some("Text/c2.xhtml#x"), Some("Two"), "2")), None, None),
        ],
    };
    let navs = vec![
        NavDocNav { nav_type: "landmarks".to_string(), ol: vec![] },
        NavDocNav { nav_type: "toc".to_string(), ol: vec![list] },
    ];
    let toc = nav_doc_toc(&navs, "OEBPS").ok().unwrap();
    assert_eq!(
        summary(&toc),
        vec![
            (Some("One".to_string()), 1, Some("OEBPS/Text/c1.xhtml".to_string()), None),
            (Some("Inner".to_string()), 2, None, None),
            (Some("Two".to_string()), 1, Some("OEBPS/Text/c2.xhtml".to_string()), Some("x".to_string())),
        ]
    );
    assert_eq!(toc[0].id, None);
}

#[test]
fn nav_document_errors() {
    let no_text = vec![NavDocNav { nav_type: "toc".to_string(), ol: vec![NavList { lis: vec![li(None, None, None)] }] }];
    assert!(matches!(nav_doc_toc(&no_text, ""), Err(EpubError::NavEntryNoText)));
    let empty_text = vec![NavDocNav {
        nav_type: "toc".to_string(),
        ol: vec![NavList { lis: vec![li(Some(anchor(Some("a.xhtml"), None, "")), None, None)] }],
    }];
    assert!(matches!(nav_doc_toc(&empty_text, ""), Err(EpubError::NavEntryEmptyText)));
    let no_toc = vec![NavDocNav { nav_type: "page-list".to_string(), ol: vec![] }];
    assert!(matches!(nav_doc_toc(&no_toc, ""), Err(EpubError::NoNavEntries)));
    let empty = vec![NavDocNav { nav_type: "toc".to_string(), ol: vec![NavList { lis: vec![] }] }];
    assert!(matches!(nav_doc_toc(&empty, ""), Err(EpubError::NoNavEntries)));
}

#[test]
fn targets_in_a_chapter() {
    let t = target_trace(3, Some(Position::new(7, 2)), false).unwrap();
    assert_eq!((t.chapter, t.line, t.offset), (3, 7, 2));
    let t = target_trace(3, None, true).unwrap();
    assert_eq!((t.chapter, t.line, t.offset), (3, 0, 0));
    assert!(target_trace(3, None, false).is_none());
}

#[test]
fn counts_written_read_back() {
    let names = vec![BookName::new(String::from("only.txt"), 0)];
    let reading = ReadingInfo::fake("f");
    for n in [0usize, 9, 10, 4096, usize::MAX] {
        let status = status_msg(None, &names, &reading, n);
        let digits = &status[status.find('(').unwrap() + 1..status.find(':').unwrap()];
        let point = ncx_point("p", Some(digits), None, "a.xhtml", None);
        let toc = ncx_toc(&vec![point], "").ok().unwrap();
        assert_eq!(toc[0].play_order, Some(n));
    }
}

#[test]
fn chapter_files_lead_back() {
    let opf = sample_opf();
    let hrefs = spine_hrefs(&opf);
    for (i, href) in hrefs.iter().enumerate() {
        assert_eq!(chapter_of_file(&opf, href), Some(i));
    }
    let mut twice = sample_opf();
    twice.spine = strings(&["c1", "c2", "c1"]);
    let hrefs = spine_hrefs(&twice);
    assert_eq!(chapter_of_file(&twice, &hrefs[2]), Some(0));
}
