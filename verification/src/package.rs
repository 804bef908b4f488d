//! The package of an EPUB book: paths inside the archive, the manifest of its resources,
//! the reading order of its chapters and its navigation documents.

use vstd::prelude::*;

use crate::book::ChapterError;
use crate::common::{Position, TraceInfo};
use crate::controller::{decimal_chars, digit_char};
use crate::epub::{chars_range, split_link_target, split_two, NavPoint};
use crate::strings::{starts_with, str_chars, string_push_str};

verus! {

/// What `std::path::PathBuf::pop` leaves of `path` on a Unix target: its parent, or `path`
/// itself when it has none.
pub uninterp spec fn popped_path(path: Seq<char>) -> Seq<char>;

/// What `std::path::PathBuf::push` makes of `path` extended by `sub` on a Unix target.
pub uninterp spec fn pushed_path(path: Seq<char>, sub: Seq<char>) -> Seq<char>;

/// `std::path::PathBuf::pop` on a path held as a string.
#[verifier::external_body]
fn path_pop(path: &mut String)
    ensures
        final(path)@ == popped_path(old(path)@),
{
    let mut buf = std::path::PathBuf::from(path.as_str());
    buf.pop();
    *path = buf.to_string_lossy().into_owned();
}

/// `std::path::PathBuf::push` on a path held as a string.
#[verifier::external_body]
fn path_push(path: &mut String, sub: &str)
    ensures
        final(path)@ == pushed_path(old(path)@, sub@),
{
    let mut buf = std::path::PathBuf::from(path.as_str());
    buf.push(sub);
    *path = buf.to_string_lossy().into_owned();
}

/// `sub` resolved against the directory `path`: each leading `../` of `sub` takes one
/// component off `path`, and the rest of `sub` is pushed onto what is left.
pub open spec fn concat_path_spec(path: Seq<char>, sub: Seq<char>) -> Seq<char>
    decreases sub.len(),
{
    if starts_with(sub, "../"@) && sub.len() >= 3 {
        concat_path_spec(popped_path(path), sub.skip(3))
    } else {
        pushed_path(path, sub)
    }
}

/// Resolves `sub` against the directory `path`.
pub fn concat_path(path: &str, sub: &str) -> (r: String)
    ensures
        r@ == concat_path_spec(path@, sub@),
{
    let chars = str_chars(sub);
    let mut dir = path.to_owned();
    let mut i: usize = 0;
    assert(chars@.skip(0) =~= chars@);
    while i < chars.len() && chars.len() - i >= 3 && chars[i] == '.' && chars[i + 1] == '.' && chars[i + 2] == '/'
        invariant
            chars@ == sub@,
            i <= chars.len(),
            concat_path_spec(dir@, chars@.skip(i as int)) == concat_path_spec(path@, sub@),
        decreases chars.len() - i,
    {
        proof {
            reveal_strlit("../");
        }
        assert(chars@.skip(i as int).take(3) =~= "../"@);
        assert(chars@.skip(i as int).skip(3) =~= chars@.skip(i + 3));
        path_pop(&mut dir);
        i = i + 3;
    }
    proof {
        reveal_strlit("../");
        let rest = chars@.skip(i as int);
        if starts_with(rest, "../"@) && rest.len() >= 3 {
            assert(rest.take(3) == "../"@);
            assert(rest[0] == rest.take(3)[0] && rest[1] == rest.take(3)[1] && rest[2] == rest.take(3)[2]);
            assert(chars@[i as int] == rest[0] && chars@[i + 1] == rest[1] && chars@[i + 2] == rest[2]);
            assert(false);
        }
    }
    let rest = chars_range(&chars, i, chars.len());
    assert(rest@ =~= chars@.skip(i as int));
    path_push(&mut dir, rest.as_str());
    dir
}

/// The directory of `path`: `path` popped once.
pub fn path_cwd(path: &str) -> (r: String)
    ensures
        r@ == popped_path(path@),
{
    let mut dir = path.to_owned();
    path_pop(&mut dir);
    dir
}

/// A resource listed in the manifest of the package.
#[derive(Clone, Debug)]
pub struct ManifestItem {
    pub id: String,
    pub href: String,
    pub media_type: String,
    pub properties: Option<String>,
}

/// A manifest item as values: its href, media type and properties.
pub open spec fn item_value(item: ManifestItem) -> (Seq<char>, Seq<char>, Option<Seq<char>>) {
    (item.href@, item.media_type@, opt_chars(item.properties))
}

/// The characters of an optional string.
pub open spec fn opt_chars(s: Option<String>) -> Option<Seq<char>> {
    match s {
        Some(s) => Some(s@),
        None => None,
    }
}

/// No two items share an id: the items form a map from id to item.
pub open spec fn ids_unique(items: Seq<ManifestItem>) -> bool {
    forall|i: int, j: int| 0 <= i < j < items.len() ==> #[trigger] items[i].id@ != #[trigger] items[j].id@
}

/// The index of the last item of `items` whose id is `id`, or -1.
pub open spec fn last_with_id(items: Seq<ManifestItem>, id: Seq<char>) -> int
    decreases items.len(),
{
    if items.len() == 0 {
        -1
    } else if items.last().id@ == id {
        items.len() - 1
    } else {
        last_with_id(items.drop_last(), id)
    }
}

proof fn lemma_last_with_id(items: Seq<ManifestItem>, id: Seq<char>)
    ensures
        -1 <= last_with_id(items, id) < items.len(),
        last_with_id(items, id) >= 0 ==> items[last_with_id(items, id)].id@ == id,
        last_with_id(items, id) == -1 <==> forall|j: int| 0 <= j < items.len() ==> items[j].id@ != id,
    decreases items.len(),
{
    if items.len() > 0 {
        lemma_last_with_id(items.drop_last(), id);
        if items.last().id@ != id {
            assert forall|j: int| 0 <= j < items.len() - 1 implies items[j] == items.drop_last()[j] by {}
        }
    }
}

/// The manifest that the items of the package document give, their hrefs resolved against
/// `dir`: one item per id, the last one listed with that id.
pub open spec fn manifest_from(items: Seq<ManifestItem>, dir: Seq<char>, manifest: Seq<ManifestItem>) -> bool {
    &&& ids_unique(manifest)
    &&& forall|k: int| 0 <= k < manifest.len() ==> {
        let j = #[trigger] last_with_id(items, manifest[k].id@);
        &&& 0 <= j < items.len()
        &&& item_value(manifest[k]) == (concat_path_spec(dir, items[j].href@), items[j].media_type@,
            opt_chars(items[j].properties))
    }
    &&& forall|j: int| 0 <= j < items.len() ==> exists|k: int|
        0 <= k < manifest.len() && #[trigger] manifest[k].id@ == #[trigger] items[j].id@
}

/// Whether the item at `k` is the first one whose id is `id`.
pub open spec fn first_with_id(items: Seq<ManifestItem>, id: Seq<char>, k: int) -> bool {
    &&& 0 <= k < items.len()
    &&& items[k].id@ == id
    &&& forall|j: int| 0 <= j < k ==> items[j].id@ != id
}

/// The index of the first item whose id is `id`: in a manifest, the item of that id.
pub open spec fn item_index(items: Seq<ManifestItem>, id: Seq<char>) -> Option<usize> {
    if exists|k: int| first_with_id(items, id, k) {
        Some((choose|k: int| first_with_id(items, id, k)) as usize)
    } else {
        None
    }
}

proof fn lemma_item_index(items: Seq<ManifestItem>, id: Seq<char>, k: int)
    requires
        first_with_id(items, id, k),
    ensures
        item_index(items, id) == Some(k as usize),
{
    let c = choose|c: int| first_with_id(items, id, c);
    if c < k {
        assert(items[c].id@ != id);
    }
    if k < c {
        assert(items[k].id@ != id);
    }
}

/// The index of the item whose id is `id`, if one is.
pub fn manifest_index(manifest: &Vec<ManifestItem>, id: &str) -> (r: Option<usize>)
    ensures
        r == item_index(manifest@, id@),
        match r {
            Some(k) => k < manifest@.len() && manifest@[k as int].id@ == id@,
            None => forall|k: int| 0 <= k < manifest@.len() ==> manifest@[k].id@ != id@,
        },
{
    let target = id.to_owned();
    let mut k: usize = 0;
    while k < manifest.len()
        invariant
            k <= manifest@.len(),
            target@ == id@,
            forall|j: int| 0 <= j < k ==> manifest@[j].id@ != id@,
        decreases manifest@.len() - k,
    {
        if manifest[k].id == target {
            proof {
                lemma_item_index(manifest@, id@, k as int);
            }
            return Some(k);
        }
        k = k + 1;
    }
    None
}

/// The manifest of the items of a package document: each href resolved against `dir`, and
/// of items that share an id, the last one.
pub fn setup_manifest(items: &Vec<ManifestItem>, dir: &str) -> (manifest: Vec<ManifestItem>)
    ensures
        manifest_from(items@, dir@, manifest@),
{
    let mut manifest: Vec<ManifestItem> = Vec::new();
    let mut n: usize = 0;
    while n < items.len()
        invariant
            n <= items@.len(),
            manifest_from(items@.take(n as int), dir@, manifest@),
        decreases items@.len() - n,
    {
        let raw = &items[n];
        let item = ManifestItem {
            id: raw.id.clone(),
            href: concat_path(dir, raw.href.as_str()),
            media_type: raw.media_type.clone(),
            properties: match &raw.properties {
                Some(p) => Some(p.clone()),
                None => None,
            },
        };
        let ghost before = manifest@;
        let ghost prefix = items@.take(n as int);
        let ghost next = items@.take(n + 1);
        assert(next.drop_last() =~= prefix);
        assert(forall|j: int| 0 <= j < n ==> next[j] == prefix[j]);
        let ghost mut at: int = 0;
        match manifest_index(&manifest, raw.id.as_str()) {
            Some(k) => {
                manifest.set(k, item);
                proof {
                    at = k as int;
                }
            },
            None => {
                manifest.push(item);
                proof {
                    at = before.len() as int;
                }
            },
        }
        assert(0 <= at < manifest@.len() && manifest@[at].id@ == next[n as int].id@);
        proof {
            assert forall|k: int| 0 <= k < manifest@.len() implies {
                let j = #[trigger] last_with_id(next, manifest@[k].id@);
                &&& 0 <= j < next.len()
                &&& item_value(manifest@[k]) == (concat_path_spec(dir@, next[j].href@), next[j].media_type@,
                    opt_chars(next[j].properties))
            } by {
                if manifest@[k].id@ != item.id@ {
                    assert(manifest@[k] == before[k]);
                    lemma_last_with_id(prefix, manifest@[k].id@);
                }
            }
            assert forall|j: int| 0 <= j < next.len() implies exists|k: int|
                0 <= k < manifest@.len() && #[trigger] manifest@[k].id@ == #[trigger] next[j].id@ by {
                if j < n {
                    let k0 = choose|k: int| 0 <= k < before.len() && #[trigger] before[k].id@ == #[trigger] prefix[j].id@;
                    if manifest@[k0].id@ != before[k0].id@ {
                        assert(manifest@[k0].id@ == item.id@);
                    }
                    assert(manifest@[k0].id@ == next[j].id@);
                } else {
                    assert(manifest@[at].id@ == next[j].id@);
                }
            }
        }
        n = n + 1;
    }
    assert(items@.take(items@.len() as int) =~= items@);
    manifest
}

/// The metadata, manifest items and reading order that a package document lists.
pub struct OpfPackage {
    pub titles: Vec<String>,
    pub creators: Vec<String>,
    pub language: Option<String>,
    pub items: Vec<ManifestItem>,
    pub toc: Option<String>,
    pub itemrefs: Vec<String>,
}

/// The package of a book: its metadata, its manifest, and the ids of its chapters in
/// reading order.
pub struct ContentOPF {
    pub title: String,
    pub author: Option<String>,
    pub language: String,
    pub manifest: Vec<ManifestItem>,
    pub spine: Vec<String>,
    pub toc_id: Option<String>,
}

/// Why the package or the navigation of a book cannot be read.
#[derive(Debug, PartialEq, Eq, Structural)]
pub enum EpubError {
    /// The package names no title.
    NoTitle,
    /// The navigation control file lists no entry.
    NoNavPoints,
    /// An entry of the navigation document has no text.
    NavEntryNoText,
    /// An entry of the navigation document has empty text.
    NavEntryEmptyText,
    /// The navigation document lists no entry.
    NoNavEntries,
    /// The package lists neither a navigation control file nor a navigation document.
    NoToc,
}

/// Whether `path` is an entry of the archive.
pub open spec fn has_entry(entries: Seq<String>, path: Seq<char>) -> bool {
    exists|e: int| 0 <= e < entries.len() && entries[e]@ == path
}

/// Whether a chapter id is kept in the reading order: the manifest holds an item of that id
/// whose file is in the archive.
pub open spec fn spine_keeps(manifest: Seq<ManifestItem>, entries: Seq<String>, id: Seq<char>) -> bool {
    match item_index(manifest, id) {
        Some(k) => has_entry(entries, manifest[k as int].href@),
        None => false,
    }
}

/// The chapter ids kept from `itemrefs`, in order.
pub open spec fn spine_ids(itemrefs: Seq<String>, manifest: Seq<ManifestItem>, entries: Seq<String>) -> Seq<
    Seq<char>,
>
    decreases itemrefs.len(),
{
    if itemrefs.len() == 0 {
        Seq::empty()
    } else {
        let before = spine_ids(itemrefs.drop_last(), manifest, entries);
        if spine_keeps(manifest, entries, itemrefs.last()@) {
            before.push(itemrefs.last()@)
        } else {
            before
        }
    }
}

/// The characters of each string.
pub open spec fn strings_view(v: Seq<String>) -> Seq<Seq<char>> {
    v.map_values(|s: String| s@)
}

/// Whether `path` is an entry of the archive.
pub fn entry_exists(entries: &Vec<String>, path: &String) -> (r: bool)
    ensures
        r == has_entry(entries@, path@),
{
    let mut e: usize = 0;
    while e < entries.len()
        invariant
            e <= entries@.len(),
            forall|j: int| 0 <= j < e ==> entries@[j]@ != path@,
        decreases entries@.len() - e,
    {
        if entries[e] == *path {
            return true;
        }
        e = e + 1;
    }
    false
}

/// The reading order of a book: the ids of `itemrefs` whose manifest item is a file of the
/// archive, and the id of the navigation control file.
pub fn setup_spine(itemrefs: &Vec<String>, toc: &Option<String>, manifest: &Vec<ManifestItem>,
    entries: &Vec<String>) -> (r: (Vec<String>, Option<String>))
    ensures
        strings_view(r.0@) == spine_ids(itemrefs@, manifest@, entries@),
        opt_chars(r.1) == opt_chars(*toc),
{
    let mut chapters: Vec<String> = Vec::new();
    let mut n: usize = 0;
    while n < itemrefs.len()
        invariant
            n <= itemrefs@.len(),
            strings_view(chapters@) == spine_ids(itemrefs@.take(n as int), manifest@, entries@),
        decreases itemrefs@.len() - n,
    {
        let id = &itemrefs[n];
        assert(itemrefs@.take(n + 1).drop_last() =~= itemrefs@.take(n as int));
        let ghost before = chapters@;
        match manifest_index(manifest, id.as_str()) {
            Some(k) => {
                if entry_exists(entries, &manifest[k].href) {
                    chapters.push(id.clone());
                    assert(strings_view(chapters@) =~= strings_view(before).push(id@));
                }
            },
            None => {},
        }
        n = n + 1;
    }
    assert(itemrefs@.take(itemrefs@.len() as int) =~= itemrefs@);
    let toc_id = match toc {
        Some(t) => Some(t.clone()),
        None => None,
    };
    (chapters, toc_id)
}

/// The package of a book from its package document, hrefs resolved against `dir`, the
/// directory of the document, and chapters kept only when their file is among `entries`:
/// the first title, the first creator as author, the language or an empty one; `NoTitle`
/// when no title is listed.
pub fn setup_content_opf(opf: &OpfPackage, dir: &str, entries: &Vec<String>) -> (r: Result<ContentOPF, EpubError>)
    ensures
        opf.titles@.len() == 0 <==> r == Err::<ContentOPF, EpubError>(EpubError::NoTitle),
        match r {
            Ok(c) => {
                &&& c.title@ == opf.titles@[0]@
                &&& opt_chars(c.author) == (if opf.creators@.len() > 0 {
                    Some(opf.creators@[0]@)
                } else {
                    None
                })
                &&& c.language@ == (match opf.language {
                    Some(l) => l@,
                    None => Seq::empty(),
                })
                &&& manifest_from(opf.items@, dir@, c.manifest@)
                &&& strings_view(c.spine@) == spine_ids(opf.itemrefs@, c.manifest@, entries@)
                &&& opt_chars(c.toc_id) == opt_chars(opf.toc)
            },
            Err(_) => true,
        },
{
    if opf.titles.len() == 0 {
        return Err(EpubError::NoTitle);
    }
    let title = opf.titles[0].clone();
    let author = if opf.creators.len() > 0 {
        Some(opf.creators[0].clone())
    } else {
        None
    };
    let language = match &opf.language {
        Some(l) => l.clone(),
        None => String::new(),
    };
    let manifest = setup_manifest(&opf.items, dir);
    let (spine, toc_id) = setup_spine(&opf.itemrefs, &opf.toc, &manifest, entries);
    Ok(ContentOPF { title, author, language, manifest, spine, toc_id })
}

/// Where the file of a chapter is: its href, or the message of the error.
pub open spec fn chapter_path_spec(spine: Seq<String>, manifest: Seq<ManifestItem>, index: int) -> Result<
    Seq<char>,
    Seq<char>,
> {
    if !(0 <= index < spine.len()) {
        Err("invalid index"@)
    } else {
        let id = spine[index]@;
        match item_index(manifest, id) {
            None => Err("Invalid ref id: "@ + id),
            Some(k) => if manifest[k as int].media_type@ == "application/xhtml+xml"@ {
                Ok(manifest[k as int].href@)
            } else {
                Err("Referenced content for "@ + id + " is not valid."@)
            },
        }
    }
}

/// The path in the archive of the chapter at `chapter_index` of the reading order; an error
/// when there is no such chapter, its id names no item, or the item is not XHTML.
pub fn chapter_path(chapter_index: usize, content_opf: &ContentOPF) -> (r: Result<&str, ChapterError>)
    ensures
        match r {
            Ok(p) => chapter_path_spec(content_opf.spine@, content_opf.manifest@, chapter_index as int) == Ok::<
                Seq<char>,
                Seq<char>,
            >(p@),
            Err(e) => chapter_path_spec(content_opf.spine@, content_opf.manifest@, chapter_index as int)
                == Err::<Seq<char>, Seq<char>>(e.message()),
        },
{
    if chapter_index >= content_opf.spine.len() {
        return Err(ChapterError::anyhow(String::from_str("invalid index")));
    }
    let id = &content_opf.spine[chapter_index];
    match manifest_index(&content_opf.manifest, id.as_str()) {
        None => {
            let mut msg = String::from_str("Invalid ref id: ");
            string_push_str(&mut msg, id.as_str());
            Err(ChapterError::anyhow(msg))
        },
        Some(k) => {
            let item = &content_opf.manifest[k];
            if item.media_type == String::from_str("application/xhtml+xml") {
                Ok(item.href.as_str())
            } else {
                let mut msg = String::from_str("Referenced content for ");
                string_push_str(&mut msg, id.as_str());
                string_push_str(&mut msg, " is not valid.");
                Err(ChapterError::anyhow(msg))
            }
        },
    }
}

/// Every chapter id of the reading order names an item of the manifest.
pub open spec fn spine_listed(spine: Seq<String>, manifest: Seq<ManifestItem>) -> bool {
    forall|i: int| 0 <= i < spine.len() ==> #[trigger] item_index(manifest, spine[i]@) is Some
}

/// The files of the chapters, in reading order.
pub fn spine_hrefs(content_opf: &ContentOPF) -> (r: Vec<String>)
    requires
        spine_listed(content_opf.spine@, content_opf.manifest@),
    ensures
        r@.len() == content_opf.spine@.len(),
        forall|i: int| 0 <= i < r@.len() ==> #[trigger] r@[i]@ == content_opf.manifest@[item_index(
            content_opf.manifest@,
            content_opf.spine@[i]@,
        )->0 as int].href@,
{
    let mut hrefs: Vec<String> = Vec::new();
    let mut i: usize = 0;
    while i < content_opf.spine.len()
        invariant
            i <= content_opf.spine@.len(),
            spine_listed(content_opf.spine@, content_opf.manifest@),
            hrefs@.len() == i,
            forall|j: int| 0 <= j < i ==> #[trigger] hrefs@[j]@ == content_opf.manifest@[item_index(
                content_opf.manifest@,
                content_opf.spine@[j]@,
            )->0 as int].href@,
        decreases content_opf.spine@.len() - i,
    {
        assert(item_index(content_opf.manifest@, content_opf.spine@[i as int]@) is Some);
        match manifest_index(&content_opf.manifest, content_opf.spine[i].as_str()) {
            Some(k) => {
                hrefs.push(content_opf.manifest[k].href.clone());
            },
            None => {},
        }
        i = i + 1;
    }
    hrefs
}

/// The first chapter from `i` on, in reading order, whose file is `target`; none when a
/// chapter id before it names no item.
pub open spec fn spine_file_index(spine: Seq<String>, manifest: Seq<ManifestItem>, target: Seq<char>, i: int) -> Option<
    usize,
>
    decreases spine.len() - i,
{
    if i < 0 || i >= spine.len() {
        None
    } else {
        match item_index(manifest, spine[i]@) {
            None => None,
            Some(k) => if manifest[k as int].href@ == target {
                Some(i as usize)
            } else {
                spine_file_index(spine, manifest, target, i + 1)
            },
        }
    }
}

/// The chapter whose file is `target_file`, the first in reading order.
pub fn chapter_of_file(content_opf: &ContentOPF, target_file: &str) -> (r: Option<usize>)
    ensures
        r == spine_file_index(content_opf.spine@, content_opf.manifest@, target_file@, 0),
{
    let target = target_file.to_owned();
    let mut i: usize = 0;
    while i < content_opf.spine.len()
        invariant
            i <= content_opf.spine@.len(),
            target@ == target_file@,
            spine_file_index(content_opf.spine@, content_opf.manifest@, target_file@, i as int)
                == spine_file_index(content_opf.spine@, content_opf.manifest@, target_file@, 0),
        decreases content_opf.spine@.len() - i,
    {
        match manifest_index(&content_opf.manifest, content_opf.spine[i].as_str()) {
            None => {
                return None;
            },
            Some(k) => {
                if content_opf.manifest[k].href == target {
                    return Some(i);
                }
            },
        }
        i = i + 1;
    }
    None
}

/// Whether `pat` occurs in `s`.
pub open spec fn contains_chars(s: Seq<char>, pat: Seq<char>) -> bool {
    exists|i: int| 0 <= i && i + pat.len() <= s.len() && #[trigger] s.subrange(i, i + pat.len()) == pat
}

/// Whether `pat` occurs in `s`, as `str::contains` tells.
pub fn str_contains(s: &str, pat: &str) -> (r: bool)
    ensures
        r == contains_chars(s@, pat@),
{
    let sc = str_chars(s);
    let pc = str_chars(pat);
    if pc.len() > sc.len() {
        return false;
    }
    let mut i: usize = 0;
    while i <= sc.len() - pc.len()
        invariant
            sc@ == s@,
            pc@ == pat@,
            pc@.len() <= sc@.len(),
            i <= sc@.len() - pc@.len() + 1,
            forall|k: int| 0 <= k < i ==> #[trigger] sc@.subrange(k, k + pc@.len()) != pc@,
        decreases sc@.len() - i,
    {
        let mut j: usize = 0;
        let mut same = true;
        while j < pc.len()
            invariant
                i + pc@.len() <= sc@.len(),
                sc@.len() == sc.len(),
                pc@.len() == pc.len(),
                j <= pc@.len(),
                same <==> forall|m: int| 0 <= m < j ==> sc@[i + m] == pc@[m],
            decreases pc@.len() - j,
        {
            if sc[i + j] != pc[j] {
                same = false;
            }
            j = j + 1;
        }
        if same {
            assert(sc@.subrange(i as int, i + pc@.len()) =~= pc@);
            return true;
        }
        assert(exists|m: int| 0 <= m < pc@.len() && sc@[i + m] != pc@[m]);
        let ghost m = choose|m: int| 0 <= m < pc@.len() && sc@[i + m] != pc@[m];
        assert(sc@.subrange(i as int, i + pc@.len())[m] != pc@[m]);
        i = i + 1;
    }
    false
}

/// Where the table of contents of a book is read from.
#[derive(Debug)]
pub enum TocSource {
    /// A navigation control file, at this path.
    Ncx(String),
    /// A navigation document, at this path.
    NavDoc(String),
}

/// Whether the properties of an item mark it as the navigation document.
pub open spec fn is_nav_item(item: ManifestItem) -> bool {
    match item.properties {
        Some(p) => contains_chars(p@, "nav"@),
        None => false,
    }
}

/// The id under which the navigation control file is looked up.
pub open spec fn ncx_id(toc_id: Option<String>) -> Seq<char> {
    match toc_id {
        Some(t) => t@,
        None => "ncx"@,
    }
}

/// Where the table of contents is read from: the item named by the spine's `toc`, or `ncx`
/// when it names none; failing that, the first item whose properties hold `nav`; `NoToc`
/// when there is neither.
pub fn toc_source(content_opf: &ContentOPF) -> (r: Result<TocSource, EpubError>)
    ensures
        match item_index(content_opf.manifest@, ncx_id(content_opf.toc_id)) {
            Some(k) => r matches Ok(TocSource::Ncx(href)) && href@ == content_opf.manifest@[k as int].href@,
            None => match r {
                Ok(TocSource::NavDoc(href)) => exists|k: int|
                    0 <= k < content_opf.manifest@.len() && is_nav_item(content_opf.manifest@[k])
                        && href@ == content_opf.manifest@[k].href@ && forall|j: int|
                        0 <= j < k ==> !is_nav_item(#[trigger] content_opf.manifest@[j]),
                Ok(TocSource::Ncx(_)) => false,
                Err(e) => e == EpubError::NoToc && forall|k: int|
                    0 <= k < content_opf.manifest@.len() ==> !is_nav_item(#[trigger] content_opf.manifest@[k]),
            },
        },
{
    let id = match &content_opf.toc_id {
        Some(t) => t.clone(),
        None => String::from_str("ncx"),
    };
    if let Some(k) = manifest_index(&content_opf.manifest, id.as_str()) {
        return Ok(TocSource::Ncx(content_opf.manifest[k].href.clone()));
    }
    let mut k: usize = 0;
    while k < content_opf.manifest.len()
        invariant
            k <= content_opf.manifest@.len(),
            item_index(content_opf.manifest@, ncx_id(content_opf.toc_id)) is None,
            forall|j: int| 0 <= j < k ==> !is_nav_item(#[trigger] content_opf.manifest@[j]),
        decreases content_opf.manifest@.len() - k,
    {
        let item = &content_opf.manifest[k];
        if let Some(p) = &item.properties {
            if str_contains(p.as_str(), "nav") {
                assert(is_nav_item(content_opf.manifest@[k as int]));
                let href = item.href.clone();
                assert(0 <= k < content_opf.manifest@.len() && is_nav_item(content_opf.manifest@[k as int])
                    && href@ == content_opf.manifest@[k as int].href@);
                return Ok(TocSource::NavDoc(href));
            }
        }
        k = k + 1;
    }
    Err(EpubError::NoToc)
}

/// A link target resolved against the chapter at `chapter_path`: the file, none when the
/// target names only an anchor of the chapter itself, and the anchor.
pub fn link_target_file(chapter_path: &str, target: &str) -> (r: (Option<String>, Option<String>))
    ensures
        opt_chars(r.0) == (if split_two(target@, '#').0.len() == 0 {
            None
        } else {
            Some(concat_path_spec(popped_path(chapter_path@), split_two(target@, '#').0))
        }),
        opt_chars(r.1) == split_two(target@, '#').1,
{
    let (file, anchor) = split_link_target(target);
    if str_chars(file.as_str()).len() == 0 {
        (None, anchor)
    } else {
        let cwd = path_cwd(chapter_path);
        (Some(concat_path(cwd.as_str(), file.as_str())), anchor)
    }
}

/// Whether the book is encrypted: its archive holds `META-INF/encryption.xml`.
pub fn is_encrypted(entries: &Vec<String>) -> (r: bool)
    ensures
        r == has_entry(entries@, "META-INF/encryption.xml"@),
{
    entry_exists(entries, &String::from_str("META-INF/encryption.xml"))
}

/// The value of a string of decimal digits.
pub open spec fn decimal_value(d: Seq<char>) -> int
    decreases d.len(),
{
    if d.len() == 0 {
        0
    } else {
        decimal_value(d.drop_last()) * 10 + (d.last() as int - '0' as int)
    }
}

/// The digits of a number: what follows an optional `+`.
pub open spec fn unsigned_digits(s: Seq<char>) -> Seq<char> {
    if s.len() > 0 && s[0] == '+' {
        s.skip(1)
    } else {
        s
    }
}

/// Whether every character is a decimal digit.
pub open spec fn all_digits(d: Seq<char>) -> bool {
    forall|i: int| 0 <= i < d.len() ==> '0' as int <= #[trigger] d[i] as int <= '9' as int
}

/// What parsing `s` as a `usize` gives: an optional `+` and at least one decimal digit, of
/// a value that fits.
pub open spec fn parsed_usize(s: Seq<char>) -> Option<usize> {
    let d = unsigned_digits(s);
    if d.len() > 0 && all_digits(d) && decimal_value(d) <= usize::MAX {
        Some(decimal_value(d) as usize)
    } else {
        None
    }
}

proof fn lemma_decimal_value_grows(d: Seq<char>, j: int)
    requires
        0 <= j <= d.len(),
        all_digits(d),
    ensures
        decimal_value(d.take(j)) <= decimal_value(d),
        decimal_value(d) >= 0,
    decreases d.len(),
{
    if d.len() > 0 {
        lemma_decimal_value_grows(d.drop_last(), if j == d.len() { 0 } else { j });
        if j < d.len() {
            assert(d.drop_last().take(j) =~= d.take(j));
        } else {
            assert(d.take(j) =~= d);
        }
    } else {
        assert(d.take(j) =~= d);
    }
}

/// Reads `s` as a `usize` as `str::parse::<usize>` does: an optional `+`, then at least one
/// decimal digit, of a value that fits; `None` otherwise.
pub(crate) fn parse_usize(s: &str) -> (r: Option<usize>)
    ensures
        r == parsed_usize(s@),
{
    let chars = str_chars(s);
    let start: usize = if chars.len() > 0 && chars[0] == '+' {
        1
    } else {
        0
    };
    let ghost d = unsigned_digits(s@);
    assert(d =~= chars@.skip(start as int));
    if start >= chars.len() {
        return None;
    }
    let mut v: usize = 0;
    let mut i: usize = start;
    assert(d.take(0) =~= Seq::<char>::empty());
    while i < chars.len()
        invariant
            start <= i <= chars@.len(),
            chars@ == s@,
            d == chars@.skip(start as int),
            d == unsigned_digits(s@),
            forall|k: int| 0 <= k < i - start ==> '0' as int <= #[trigger] d[k] as int <= '9' as int,
            v as int == decimal_value(d.take(i - start)),
        decreases chars@.len() - i,
    {
        let c = chars[i];
        if c < '0' || c > '9' {
            assert(d[i - start] == c);
            assert(!('0' as int <= d[i - start] as int <= '9' as int));
            assert(!all_digits(d));
            return None;
        }
        let digit = (c as u32 - '0' as u32) as usize;
        proof {
            assert(d.take(i - start + 1).drop_last() =~= d.take(i - start));
            assert(d.take(i - start + 1).last() == c);
        }
        let next = match v.checked_mul(10) {
            Some(m) => m.checked_add(digit),
            None => None,
        };
        match next {
            Some(n) => {
                v = n;
            },
            None => {
                proof {
                    if all_digits(d) {
                        lemma_decimal_value_grows(d, i - start + 1);
                    }
                }
                return None;
            },
        }
        i = i + 1;
    }
    assert(d.take(d.len() as int) =~= d);
    Some(v)
}

/// An entry of the table of contents as values.
pub struct NavEntry {
    pub id: Option<Seq<char>>,
    pub label: Option<Seq<char>>,
    pub play_order: Option<usize>,
    pub level: int,
    pub src_file: Option<Seq<char>>,
    pub src_anchor: Option<Seq<char>>,
    pub first_chapter_index: int,
}

/// An entry of the table of contents, seen as values.
pub open spec fn nav_view(np: NavPoint) -> NavEntry {
    NavEntry {
        id: opt_chars(np.id),
        label: opt_chars(np.label),
        play_order: np.play_order,
        level: np.level as int,
        src_file: opt_chars(np.src_file),
        src_anchor: opt_chars(np.src_anchor),
        first_chapter_index: np.first_chapter_index as int,
    }
}

/// Entries of the table of contents, seen as values.
pub open spec fn navs_view(v: Seq<NavPoint>) -> Seq<NavEntry> {
    v.map_values(|np: NavPoint| nav_view(np))
}

/// A navigation point of a navigation control file, and the points nested in it.
pub struct NcxNavPoint {
    pub id: String,
    pub play_order: Option<String>,
    pub label: Option<String>,
    pub src: String,
    pub nav_points: Option<Vec<NcxNavPoint>>,
}

/// The entry of a navigation point at `level`, its source resolved against `cwd`.
pub open spec fn ncx_entry(p: NcxNavPoint, level: int, cwd: Seq<char>) -> NavEntry {
    NavEntry {
        id: Some(p.id@),
        label: opt_chars(p.label),
        play_order: match p.play_order {
            Some(po) => parsed_usize(po@),
            None => None,
        },
        level,
        src_file: Some(concat_path_spec(cwd, split_two(p.src@, '#').0)),
        src_anchor: split_two(p.src@, '#').1,
        first_chapter_index: 0,
    }
}

/// The entries of navigation points at `level` and of the points nested in them, each
/// point before the points nested in it.
pub open spec fn ncx_entries(points: Seq<NcxNavPoint>, level: int, cwd: Seq<char>) -> Seq<NavEntry>
    decreases points,
{
    if points.len() == 0 {
        Seq::empty()
    } else {
        ncx_entries(points.drop_last(), level, cwd) + ncx_subtree(points.last(), level, cwd)
    }
}

/// The entry of a navigation point, then those of the points nested in it, one level
/// deeper.
pub open spec fn ncx_subtree(p: NcxNavPoint, level: int, cwd: Seq<char>) -> Seq<NavEntry>
    decreases p,
{
    seq![ncx_entry(p, level, cwd)] + match p.nav_points {
        Some(c) => ncx_entries(c@, level + 1, cwd),
        None => Seq::empty(),
    }
}

/// The levels of navigation points nested from `level` on fit in a `usize`.
pub open spec fn ncx_fits(points: Seq<NcxNavPoint>, level: int) -> bool
    decreases points,
{
    if points.len() == 0 {
        true
    } else {
        ncx_fits(points.drop_last(), level) && ncx_point_fits(points.last(), level)
    }
}

/// The levels of a navigation point at `level` and of those nested in it fit in a `usize`.
pub open spec fn ncx_point_fits(p: NcxNavPoint, level: int) -> bool
    decreases p,
{
    &&& 0 <= level <= usize::MAX
    &&& match p.nav_points {
        Some(c) => c@.len() > 0 ==> level < usize::MAX && ncx_fits(c@, level + 1),
        None => true,
    }
}

proof fn lemma_ncx_fits_index(points: Seq<NcxNavPoint>, level: int, i: int)
    requires
        ncx_fits(points, level),
        0 <= i < points.len(),
    ensures
        ncx_point_fits(points[i], level),
    decreases points.len(),
{
    if i < points.len() - 1 {
        lemma_ncx_fits_index(points.drop_last(), level, i);
        assert(points.drop_last()[i] == points[i]);
    }
}

/// The entry of one navigation point.
fn ncx_nav_point(p: &NcxNavPoint, level: usize, cwd: &str) -> (np: NavPoint)
    ensures
        nav_view(np) == ncx_entry(*p, level as int, cwd@),
{
    let (file, anchor) = split_link_target(p.src.as_str());
    let play_order = match &p.play_order {
        Some(po) => parse_usize(po.as_str()),
        None => None,
    };
    NavPoint {
        id: Some(p.id.clone()),
        label: match &p.label {
            Some(l) => Some(l.clone()),
            None => None,
        },
        play_order,
        level,
        src_file: Some(concat_path(cwd, file.as_str())),
        src_anchor: anchor,
        first_chapter_index: 0,
    }
}

/// Appends the entries of navigation points at `level`, and of the points nested in them,
/// to `nav_points`.
pub fn setup_nav_points(points: &Vec<NcxNavPoint>, level: usize, nav_points: &mut Vec<NavPoint>, cwd: &str)
    requires
        ncx_fits(points@, level as int),
    ensures
        navs_view(final(nav_points)@) == navs_view(old(nav_points)@) + ncx_entries(points@, level as int, cwd@),
    decreases points,
{
    let mut i: usize = 0;
    while i < points.len()
        invariant
            i <= points@.len(),
            ncx_fits(points@, level as int),
            navs_view(nav_points@) == navs_view(old(nav_points)@) + ncx_entries(
                points@.take(i as int),
                level as int,
                cwd@,
            ),
        decreases points@.len() - i,
    {
        let p = &points[i];
        proof {
            lemma_ncx_fits_index(points@, level as int, i as int);
        }
        let ghost before = nav_points@;
        let np = ncx_nav_point(p, level, cwd);
        nav_points.push(np);
        assert(navs_view(nav_points@) =~= navs_view(before).push(nav_view(np)));
        let ghost pushed = nav_points@;
        match &p.nav_points {
            Some(children) => {
                if children.len() > 0 {
                    assert(decreases_to!(points => *children));
                    setup_nav_points(children, level + 1, nav_points, cwd);
                } else {
                    assert(ncx_entries(children@, level + 1, cwd@) =~= Seq::<NavEntry>::empty());
                }
            },
            None => {},
        }
        proof {
            let t = points@.take(i + 1);
            assert(t.drop_last() =~= points@.take(i as int));
            assert(t.last() == points@[i as int]);
            let children_part = if p.nav_points is Some {
                ncx_entries(p.nav_points->0@, level + 1, cwd@)
            } else {
                Seq::<NavEntry>::empty()
            };
            assert(navs_view(nav_points@) == navs_view(pushed) + children_part);
            assert(ncx_subtree(*p, level as int, cwd@) == seq![ncx_entry(*p, level as int, cwd@)] + children_part);
            assert(ncx_entries(t, level as int, cwd@) == ncx_entries(points@.take(i as int), level as int, cwd@)
                + ncx_subtree(*p, level as int, cwd@));
            assert(navs_view(nav_points@) =~= navs_view(old(nav_points)@) + ncx_entries(t, level as int, cwd@));
        }
        i = i + 1;
    }
    assert(points@.take(points@.len() as int) =~= points@);
}

/// The table of contents of a navigation control file whose top points are `points`,
/// sources resolved against `cwd`; `NoNavPoints` when it lists none.
pub fn ncx_toc(points: &Vec<NcxNavPoint>, cwd: &str) -> (r: Result<Vec<NavPoint>, EpubError>)
    requires
        ncx_fits(points@, 1),
    ensures
        match r {
            Ok(v) => navs_view(v@) == ncx_entries(points@, 1, cwd@) && v@.len() > 0,
            Err(e) => e == EpubError::NoNavPoints && ncx_entries(points@, 1, cwd@).len() == 0,
        },
{
    let mut nav_points: Vec<NavPoint> = Vec::new();
    setup_nav_points(points, 1, &mut nav_points, cwd);
    assert(navs_view(nav_points@) =~= ncx_entries(points@, 1, cwd@));
    if nav_points.len() == 0 {
        Err(EpubError::NoNavPoints)
    } else {
        Ok(nav_points)
    }
}

/// A link or a span of an entry of a navigation document.
pub struct NavAnchor {
    pub href: Option<String>,
    pub title: Option<String>,
    pub text: String,
}

/// An entry of a navigation document: its link or span, and the list nested in it.
pub struct NavListItem {
    pub a: Option<NavAnchor>,
    pub span: Option<NavAnchor>,
    pub ol: Option<NavList>,
}

/// A list of entries of a navigation document.
pub struct NavList {
    pub lis: Vec<NavListItem>,
}

/// A navigation element of a navigation document: its type and its lists.
pub struct NavDocNav {
    pub nav_type: String,
    pub ol: Vec<NavList>,
}

/// The entry of a list item at `level`, its link resolved against `cwd`: the link, else the
/// span, is its tag; the label is the tag's title, else its text.
pub open spec fn nav_item_entry(li: NavListItem, level: int, cwd: Seq<char>) -> Result<NavEntry, EpubError> {
    let tag = if li.a is Some {
        Some(li.a->0)
    } else if li.span is Some {
        Some(li.span->0)
    } else {
        None
    };
    match tag {
        None => Err(EpubError::NavEntryNoText),
        Some(tag) => {
            let label = match tag.title {
                Some(t) => t@,
                None => tag.text@,
            };
            if label.len() == 0 {
                Err(EpubError::NavEntryEmptyText)
            } else {
                Ok(NavEntry {
                    id: None,
                    label: Some(label),
                    play_order: None,
                    level,
                    src_file: match tag.href {
                        Some(h) => Some(concat_path_spec(cwd, split_two(h@, '#').0)),
                        None => None,
                    },
                    src_anchor: match tag.href {
                        Some(h) => split_two(h@, '#').1,
                        None => None,
                    },
                    first_chapter_index: 0,
                })
            }
        },
    }
}

/// The entries of list items at `level` and of the lists nested in them, each item before
/// its nested list; the first error met on the way, if any.
pub open spec fn nav_items_entries(lis: Seq<NavListItem>, level: int, cwd: Seq<char>) -> Result<
    Seq<NavEntry>,
    EpubError,
>
    decreases lis,
{
    if lis.len() == 0 {
        Ok(Seq::empty())
    } else {
        match nav_items_entries(lis.drop_last(), level, cwd) {
            Err(e) => Err(e),
            Ok(before) => match nav_item_subtree(lis.last(), level, cwd) {
                Err(e) => Err(e),
                Ok(x) => Ok(before + x),
            },
        }
    }
}

/// The entry of a list item, then those of the list nested in it, one level deeper.
pub open spec fn nav_item_subtree(li: NavListItem, level: int, cwd: Seq<char>) -> Result<Seq<NavEntry>, EpubError>
    decreases li,
{
    match nav_item_entry(li, level, cwd) {
        Err(e) => Err(e),
        Ok(entry) => match li.ol {
            None => Ok(seq![entry]),
            Some(ol) => match nav_items_entries(ol.lis@, level + 1, cwd) {
                Err(e) => Err(e),
                Ok(c) => Ok(seq![entry] + c),
            },
        },
    }
}

/// The levels of list items nested from `level` on fit in a `usize`.
pub open spec fn nav_items_fit(lis: Seq<NavListItem>, level: int) -> bool
    decreases lis,
{
    if lis.len() == 0 {
        true
    } else {
        nav_items_fit(lis.drop_last(), level) && nav_item_fits(lis.last(), level)
    }
}

/// The levels of a list item at `level` and of those nested in it fit in a `usize`.
pub open spec fn nav_item_fits(li: NavListItem, level: int) -> bool
    decreases li,
{
    &&& 0 <= level <= usize::MAX
    &&& match li.ol {
        Some(ol) => ol.lis@.len() > 0 ==> level < usize::MAX && nav_items_fit(ol.lis@, level + 1),
        None => true,
    }
}

proof fn lemma_nav_items_fit_index(lis: Seq<NavListItem>, level: int, i: int)
    requires
        nav_items_fit(lis, level),
        0 <= i < lis.len(),
    ensures
        nav_item_fits(lis[i], level),
    decreases lis.len(),
{
    if i < lis.len() - 1 {
        lemma_nav_items_fit_index(lis.drop_last(), level, i);
        assert(lis.drop_last()[i] == lis[i]);
    }
}

/// The entry of one list item.
fn nav_item_point(li: &NavListItem, level: usize, cwd: &str) -> (r: Result<NavPoint, EpubError>)
    ensures
        match nav_item_entry(*li, level as int, cwd@) {
            Ok(entry) => r is Ok && nav_view(r->Ok_0) == entry,
            Err(e) => r == Err::<NavPoint, EpubError>(e),
        },
{
    let tag = match &li.a {
        Some(a) => a,
        None => match &li.span {
            Some(span) => span,
            None => {
                return Err(EpubError::NavEntryNoText);
            },
        },
    };
    let label = match &tag.title {
        Some(t) => t.clone(),
        None => tag.text.clone(),
    };
    if str_chars(label.as_str()).len() == 0 {
        return Err(EpubError::NavEntryEmptyText);
    }
    let (src_file, src_anchor) = match &tag.href {
        Some(href) => {
            let (file, anchor) = split_link_target(href.as_str());
            (Some(concat_path(cwd, file.as_str())), anchor)
        },
        None => (None, None),
    };
    Ok(NavPoint {
        id: None,
        label: Some(label),
        play_order: None,
        level,
        src_file,
        src_anchor,
        first_chapter_index: 0,
    })
}

/// Appends the entries of a list of a navigation document at `level`, and of the lists
/// nested in it, to `toc`; the first error met, if any.
pub fn nav_list_points(ol: &NavList, toc: &mut Vec<NavPoint>, level: usize, cwd: &str) -> (r: Result<(), EpubError>)
    requires
        nav_items_fit(ol.lis@, level as int),
    ensures
        match nav_items_entries(ol.lis@, level as int, cwd@) {
            Ok(x) => r is Ok && navs_view(final(toc)@) == navs_view(old(toc)@) + x,
            Err(e) => r == Err::<(), EpubError>(e),
        },
    decreases ol,
{
    let mut i: usize = 0;
    while i < ol.lis.len()
        invariant
            i <= ol.lis@.len(),
            nav_items_fit(ol.lis@, level as int),
            nav_items_entries(ol.lis@.take(i as int), level as int, cwd@) is Ok,
            navs_view(toc@) == navs_view(old(toc)@) + nav_items_entries(
                ol.lis@.take(i as int),
                level as int,
                cwd@,
            )->Ok_0,
        decreases ol.lis@.len() - i,
    {
        let li = &ol.lis[i];
        let ghost t = ol.lis@.take(i + 1);
        proof {
            lemma_nav_items_fit_index(ol.lis@, level as int, i as int);
            assert(t.drop_last() =~= ol.lis@.take(i as int));
            assert(t.last() == ol.lis@[i as int]);
        }
        let ghost before = toc@;
        let np = match nav_item_point(li, level, cwd) {
            Ok(np) => np,
            Err(e) => {
                proof {
                    lemma_nav_items_error_persists(ol.lis@, level as int, cwd@, i as int + 1);
                }
                return Err(e);
            },
        };
        toc.push(np);
        assert(navs_view(toc@) =~= navs_view(before).push(nav_view(np)));
        let ghost pushed = toc@;
        match &li.ol {
            Some(sub) => {
                if sub.lis.len() > 0 {
                    assert(decreases_to!(ol => *sub));
                    match nav_list_points(sub, toc, level + 1, cwd) {
                        Ok(()) => {},
                        Err(e) => {
                            proof {
                                lemma_nav_items_error_persists(ol.lis@, level as int, cwd@, i as int + 1);
                            }
                            return Err(e);
                        },
                    }
                } else {
                    assert(nav_items_entries(sub.lis@, level + 1, cwd@) == Ok::<Seq<NavEntry>, EpubError>(
                        Seq::empty(),
                    ));
                }
            },
            None => {},
        }
        proof {
            let children_part = if li.ol is Some {
                nav_items_entries(li.ol->0.lis@, level + 1, cwd@)->Ok_0
            } else {
                Seq::<NavEntry>::empty()
            };
            assert(navs_view(toc@) == navs_view(pushed) + children_part);
            assert(nav_item_subtree(*li, level as int, cwd@) == Ok::<Seq<NavEntry>, EpubError>(
                seq![nav_view(np)] + children_part,
            ));
            assert(navs_view(toc@) =~= navs_view(old(toc)@) + nav_items_entries(t, level as int, cwd@)->Ok_0);
        }
        i = i + 1;
    }
    assert(ol.lis@.take(ol.lis@.len() as int) =~= ol.lis@);
    Ok(())
}

/// An error in the entries of the first `n` items stays the error of all of them.
proof fn lemma_nav_items_error_persists(lis: Seq<NavListItem>, level: int, cwd: Seq<char>, n: int)
    requires
        0 <= n <= lis.len(),
        nav_items_entries(lis.take(n), level, cwd) is Err,
    ensures
        nav_items_entries(lis, level, cwd) == nav_items_entries(lis.take(n), level, cwd),
    decreases lis.len() - n,
{
    if n < lis.len() {
        let t = lis.take(n + 1);
        assert(t.drop_last() =~= lis.take(n));
        lemma_nav_items_error_persists(lis, level, cwd, n + 1);
    } else {
        assert(lis.take(n) =~= lis);
    }
}

/// The entries of lists at `level`, one list after the other; the first error met, if any.
pub open spec fn nav_lists_entries(ols: Seq<NavList>, level: int, cwd: Seq<char>) -> Result<Seq<NavEntry>, EpubError>
    decreases ols.len(),
{
    if ols.len() == 0 {
        Ok(Seq::empty())
    } else {
        match nav_lists_entries(ols.drop_last(), level, cwd) {
            Err(e) => Err(e),
            Ok(before) => match nav_items_entries(ols.last().lis@, level, cwd) {
                Err(e) => Err(e),
                Ok(x) => Ok(before + x),
            },
        }
    }
}

/// The index of the first navigation element of type `toc`.
pub open spec fn first_toc_nav(navs: Seq<NavDocNav>) -> Option<int> {
    if exists|n: int| 0 <= n < navs.len() && navs[n].nav_type@ == "toc"@ {
        Some(
            choose|n: int|
                0 <= n < navs.len() && navs[n].nav_type@ == "toc"@ && forall|m: int|
                    0 <= m < n ==> navs[m].nav_type@ != "toc"@,
        )
    } else {
        None
    }
}

/// The table of contents of a navigation document: the entries of the lists of its first
/// `toc` navigation element; `NoNavEntries` when it has none.
pub open spec fn nav_doc_entries(navs: Seq<NavDocNav>, cwd: Seq<char>) -> Result<Seq<NavEntry>, EpubError> {
    match first_toc_nav(navs) {
        None => Err(EpubError::NoNavEntries),
        Some(n) => match nav_lists_entries(navs[n].ol@, 1, cwd) {
            Err(e) => Err(e),
            Ok(x) => if x.len() == 0 {
                Err(EpubError::NoNavEntries)
            } else {
                Ok(x)
            },
        },
    }
}

/// The levels of all lists fit in a `usize`.
pub open spec fn nav_doc_fits(navs: Seq<NavDocNav>) -> bool {
    forall|n: int, k: int|
        0 <= n < navs.len() && 0 <= k < navs[n].ol@.len() ==> nav_items_fit(#[trigger] navs[n].ol@[k].lis@, 1)
}

proof fn lemma_first_toc_nav(navs: Seq<NavDocNav>, n: int)
    requires
        0 <= n < navs.len(),
        navs[n].nav_type@ == "toc"@,
        forall|m: int| 0 <= m < n ==> navs[m].nav_type@ != "toc"@,
    ensures
        first_toc_nav(navs) == Some(n),
{
    let c = choose|c: int|
        0 <= c < navs.len() && navs[c].nav_type@ == "toc"@ && forall|m: int| 0 <= m < c ==> navs[m].nav_type@ != "toc"@;
    if c < n {
        assert(navs[c].nav_type@ != "toc"@);
    }
    if n < c {
        assert(navs[n].nav_type@ != "toc"@);
    }
}

proof fn lemma_nav_lists_error_persists(ols: Seq<NavList>, level: int, cwd: Seq<char>, n: int)
    requires
        0 <= n <= ols.len(),
        nav_lists_entries(ols.take(n), level, cwd) is Err,
    ensures
        nav_lists_entries(ols, level, cwd) == nav_lists_entries(ols.take(n), level, cwd),
    decreases ols.len() - n,
{
    if n < ols.len() {
        assert(ols.take(n + 1).drop_last() =~= ols.take(n));
        lemma_nav_lists_error_persists(ols, level, cwd, n + 1);
    } else {
        assert(ols.take(n) =~= ols);
    }
}

/// The table of contents of a navigation document whose navigation elements are `navs`,
/// links resolved against `cwd`.
pub fn nav_doc_toc(navs: &Vec<NavDocNav>, cwd: &str) -> (r: Result<Vec<NavPoint>, EpubError>)
    requires
        nav_doc_fits(navs@),
    ensures
        match nav_doc_entries(navs@, cwd@) {
            Ok(x) => r is Ok && navs_view(r->Ok_0@) == x,
            Err(e) => r == Err::<Vec<NavPoint>, EpubError>(e),
        },
{
    let toc_type = String::from_str("toc");
    let mut toc: Vec<NavPoint> = Vec::new();
    let mut n: usize = 0;
    while n < navs.len()
        invariant
            n <= navs@.len(),
            toc_type@ == "toc"@,
            toc@.len() == 0,
            forall|m: int| 0 <= m < n ==> navs@[m].nav_type@ != "toc"@,
        ensures
            n <= navs@.len(),
            toc@.len() == 0,
            n < navs@.len() ==> navs@[n as int].nav_type@ == "toc"@,
            forall|m: int| 0 <= m < n ==> navs@[m].nav_type@ != "toc"@,
        decreases navs@.len() - n,
    {
        if navs[n].nav_type == toc_type {
            break;
        }
        n = n + 1;
    }
    if n == navs.len() {
        return Err(EpubError::NoNavEntries);
    }
    proof {
        lemma_first_toc_nav(navs@, n as int);
    }
    let nav = &navs[n];
    let mut k: usize = 0;
    while k < nav.ol.len()
        invariant
            k <= nav.ol@.len(),
            nav_doc_fits(navs@),
            *nav == navs@[n as int],
            n < navs@.len(),
            first_toc_nav(navs@) == Some(n as int),
            nav_lists_entries(nav.ol@.take(k as int), 1, cwd@) is Ok,
            navs_view(toc@) == nav_lists_entries(nav.ol@.take(k as int), 1, cwd@)->Ok_0,
        decreases nav.ol@.len() - k,
    {
        let ghost t = nav.ol@.take(k + 1);
        proof {
            assert(t.drop_last() =~= nav.ol@.take(k as int));
            assert(t.last() == nav.ol@[k as int]);
            assert(nav_items_fit(navs@[n as int].ol@[k as int].lis@, 1));
        }
        match nav_list_points(&nav.ol[k], &mut toc, 1, cwd) {
            Ok(()) => {},
            Err(e) => {
                proof {
                    lemma_nav_lists_error_persists(nav.ol@, 1, cwd@, k + 1);
                }
                return Err(e);
            },
        }
        k = k + 1;
    }
    assert(nav.ol@.take(nav.ol@.len() as int) =~= nav.ol@);
    if toc.len() == 0 {
        Err(EpubError::NoNavEntries)
    } else {
        Ok(toc)
    }
}

/// Where a target leads in the chapter at `chapter_index`: the place of its anchor when the
/// chapter holds the anchor; else the start of the chapter when the target named the
/// chapter's file, and nowhere when it named only an anchor.
pub fn target_trace(chapter_index: usize, anchor_place: Option<Position>, file_named: bool) -> (t: Option<TraceInfo>)
    ensures
        match anchor_place {
            Some(p) => t == Some(TraceInfo { chapter: chapter_index, line: p.line, offset: p.offset }),
            None => t == (if file_named {
                Some(TraceInfo { chapter: chapter_index, line: 0, offset: 0 })
            } else {
                None
            }),
        },
{
    match anchor_place {
        Some(p) => Some(TraceInfo { chapter: chapter_index, line: p.line, offset: p.offset }),
        None => if file_named {
            Some(TraceInfo { chapter: chapter_index, line: 0, offset: 0 })
        } else {
            None
        },
    }
}

proof fn lemma_decimal_digits(n: nat)
    ensures
        decimal_chars(n).len() > 0,
        forall|i: int|
            0 <= i < decimal_chars(n).len() ==> '0' as int <= #[trigger] decimal_chars(n)[i] as int <= '9' as int,
        decimal_value(decimal_chars(n)) == n,
    decreases n,
{
    let d = decimal_chars(n);
    let k = (n % 10) as int;
    assert(digit_char(k) as int - '0' as int == k);
    if n >= 10 {
        lemma_decimal_digits(n / 10);
        assert(d.drop_last() =~= decimal_chars(n / 10));
        assert(d.last() == digit_char(k));
        assert(n == (n / 10) * 10 + k);
        assert(decimal_value(d) == decimal_value(d.drop_last()) * 10 + (d.last() as int - '0' as int));
        assert(decimal_value(d.drop_last()) == n / 10);
    } else {
        assert(d.drop_last() =~= Seq::<char>::empty());
        assert(decimal_value(d) == decimal_value(d.drop_last()) * 10 + (d.last() as int - '0' as int));
        assert(k == n);
    }
}

/// A count written in decimal reads back as the same count: the status line writes line
/// numbers as the table of contents reads play orders.
pub proof fn law_usize_round_trip(n: usize)
    ensures
        parsed_usize(decimal_chars(n as nat)) == Some(n),
{
    lemma_decimal_digits(n as nat);
    let d = decimal_chars(n as nat);
    assert(d[0] != '+');
}

/// The file of the chapter at `i` leads back to a chapter at or before `i` that has that
/// same file: the first one, in reading order.
pub proof fn law_chapter_file_found(spine: Seq<String>, manifest: Seq<ManifestItem>, i: int)
    requires
        spine_listed(spine, manifest),
        0 <= i < spine.len() <= usize::MAX,
    ensures
        ({
            let href = manifest[item_index(manifest, spine[i]@)->0 as int].href@;
            match spine_file_index(spine, manifest, href, 0) {
                Some(j) => j <= i && manifest[item_index(manifest, spine[j as int]@)->0 as int].href@ == href,
                None => false,
            }
        }),
{
    let href = manifest[item_index(manifest, spine[i]@)->0 as int].href@;
    lemma_spine_file_search(spine, manifest, href, 0, i);
}

proof fn lemma_spine_file_search(spine: Seq<String>, manifest: Seq<ManifestItem>, href: Seq<char>, from: int, i: int)
    requires
        spine_listed(spine, manifest),
        0 <= from <= i < spine.len() <= usize::MAX,
        manifest[item_index(manifest, spine[i]@)->0 as int].href@ == href,
    ensures
        match spine_file_index(spine, manifest, href, from) {
            Some(j) => from <= j <= i && manifest[item_index(manifest, spine[j as int]@)->0 as int].href@ == href,
            None => false,
        },
    decreases i - from,
{
    assert(item_index(manifest, spine[from]@) is Some);
    if manifest[item_index(manifest, spine[from]@)->0 as int].href@ != href {
        lemma_spine_file_search(spine, manifest, href, from + 1, i);
    }
}

} // verus!
