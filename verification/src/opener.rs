//! Links and images that the system opens, and the temporary files made for them.

use vstd::prelude::*;

use crate::strings::{starts_with, str_chars, str_starts_with, string_from_chars};

verus! {

/// The temporary files made to open images, removed when the reader quits.
pub struct Opener {
    files: Vec<String>,
}

impl Opener {
    /// The paths of the temporary files.
    pub closed spec fn files(&self) -> Seq<Seq<char>> {
        self.files@.map_values(|f: String| f@)
    }

    pub fn new() -> (o: Self)
        ensures
            o.files().len() == 0,
    {
        Opener { files: Vec::new() }
    }

    /// Remembers a temporary file.
    pub fn add_file(&mut self, path: String)
        ensures
            final(self).files() == old(self).files().push(path@),
    {
        self.files.push(path);
        assert(self.files() =~= old(self).files().push(path@));
    }

    /// Hands out the temporary files to remove, and forgets them.
    pub fn cleanup(&mut self) -> (files: Vec<String>)
        ensures
            files@.map_values(|f: String| f@) == old(self).files(),
            final(self).files().len() == 0,
    {
        let mut files = Vec::new();
        std::mem::swap(&mut files, &mut self.files);
        assert(self.files() =~= Seq::<Seq<char>>::empty());
        files
    }
}

impl Default for Opener {
    fn default() -> (o: Self)
        ensures
            o.files().len() == 0,
    {
        Opener::new()
    }
}

impl Opener {
    /// Whether the system is to open `url`: only `http://` and `https://` links are.
    pub fn open_link(&self, url: &str) -> (r: bool)
        ensures
            r == (starts_with(url@, "http://"@) || starts_with(url@, "https://"@)),
    {
        str_starts_with(url, "http://") || str_starts_with(url, "https://")
    }
}

/// The extension of an image path, from its last `.` on; `None` when it has no `.`.
pub fn image_extension(path: &str) -> (r: Option<String>)
    ensures
        match r {
            Some(ext) => exists|i: int|
                0 <= i < path@.len() && path@[i] == '.' && ext@ == path@.skip(i) && forall|j: int|
                    i < j < path@.len() ==> path@[j] != '.',
            None => forall|j: int| 0 <= j < path@.len() ==> path@[j] != '.',
        },
{
    let chars = str_chars(path);
    let mut n = chars.len();
    while n > 0
        invariant
            n <= chars@.len(),
            chars@ == path@,
            forall|j: int| n <= j < chars@.len() ==> chars@[j] != '.',
        decreases n,
    {
        if chars[n - 1] == '.' {
            let i = n - 1;
            let mut ext: Vec<char> = Vec::new();
            let mut k = i;
            while k < chars.len()
                invariant
                    i <= k <= chars@.len(),
                    ext@ == chars@.subrange(i as int, k as int),
                decreases chars@.len() - k,
            {
                ext.push(chars[k]);
                k = k + 1;
                assert(ext@ =~= chars@.subrange(i as int, k as int));
            }
            let s = string_from_chars(&ext);
            assert(s@ =~= path@.skip(i as int));
            return Some(s);
        }
        n = n - 1;
    }
    None
}

} // verus!
