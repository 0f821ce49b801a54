//! The file a document is associated with, and what kind of file it is.

use crate::text::{chars_of, string_push, to_owned_string};
use vstd::prelude::*;

verus! {

/// The kind of a file, from its extension.
#[derive(Clone, Copy, Debug, PartialEq, Eq, Structural)]
pub enum FileType {
    PlainText,
    Rust,
}

impl FileType {
    /// The name shown for the kind.
    pub fn to_display_string(&self) -> (r: String)
        ensures
            r@ == (match self {
                FileType::Rust => "Rust"@,
                FileType::PlainText => "Text"@,
            }),
    {
        match self {
            FileType::Rust => to_owned_string("Rust"),
            FileType::PlainText => to_owned_string("Text"),
        }
    }
}

/// The characters of `p` after its last `/`.
pub open spec fn file_name_of(p: Seq<char>) -> Seq<char>
    decreases p.len(),
{
    if p.len() == 0 {
        p
    } else if p.last() == '/' {
        Seq::empty()
    } else {
        file_name_of(p.drop_last()).push(p.last())
    }
}

/// A path names a Rust source file when its file name is a non-empty stem
/// followed by the extension `.rs`.
pub open spec fn is_rust_path(p: Seq<char>) -> bool {
    let n = file_name_of(p);
    n.len() > 3 && n.skip(n.len() - 3) == seq!['.', 'r', 's']
}

/// The name shown for a document with file path `p`: what follows the last
/// `/`, or `[No Name]` when there is no path or nothing follows.
pub open spec fn display_name_of(p: Option<Seq<char>>) -> Seq<char> {
    if p is Some && file_name_of(p->0).len() > 0 {
        file_name_of(p->0)
    } else {
        "[No Name]"@
    }
}

/// The file a document belongs to, if any.
#[derive(Debug)]
pub struct FileInfo {
    path: Option<String>,
}

impl View for FileInfo {
    type V = Option<Seq<char>>;

    closed spec fn view(&self) -> Option<Seq<char>> {
        match self.path {
            Some(p) => Some(p@),
            None => None,
        }
    }
}

impl FileInfo {
    /// No file.
    pub fn new() -> (r: FileInfo)
        ensures
            r@ is None,
    {
        FileInfo { path: None }
    }

    /// The file at `file_name`.
    pub fn from(file_name: &str) -> (r: FileInfo)
        ensures
            r@ == Some(file_name@),
    {
        FileInfo { path: Some(to_owned_string(file_name)) }
    }

    /// The path, if there is one.
    pub fn get_path(&self) -> (r: Option<String>)
        ensures
            r matches Some(p) ==> self@ == Some(p@),
            r is None <==> self@ is None,
    {
        match &self.path {
            Some(p) => Some(p.clone()),
            None => None,
        }
    }

    /// Whether there is a path.
    pub fn has_path(&self) -> (r: bool)
        ensures
            r == self@ is Some,
    {
        self.path.is_some()
    }

    /// The characters after the last `/` of `p`.
    fn file_name(p: &str) -> (r: Vec<char>)
        ensures
            r@ == file_name_of(p@),
    {
        let cs = chars_of(p);
        let mut r: Vec<char> = Vec::new();
        let mut i: usize = 0;
        while i < cs.len()
            invariant
                cs@ == p@,
                i <= cs@.len(),
                r@ == file_name_of(cs@.take(i as int)),
            decreases cs.len() - i,
        {
            assert(cs@.take(i as int + 1).drop_last() =~= cs@.take(i as int));
            if cs[i] == '/' {
                r = Vec::new();
            } else {
                r.push(cs[i]);
            }
            i = i + 1;
        }
        assert(cs@.take(i as int) =~= p@);
        r
    }

    /// Rust for a path whose file name ends in `.rs` after a non-empty stem,
    /// plain text otherwise.
    pub fn get_file_type(&self) -> (r: FileType)
        ensures
            r == (if self@ is Some && is_rust_path(self@->0) {
                FileType::Rust
            } else {
                FileType::PlainText
            }),
    {
        match &self.path {
            None => FileType::PlainText,
            Some(p) => {
                let n = Self::file_name(p.as_str());
                let len = n.len();
                if len > 3 && n[len - 3] == '.' && n[len - 2] == 'r' && n[len - 1] == 's' {
                    assert(n@.skip(len - 3) =~= seq!['.', 'r', 's']);
                    FileType::Rust
                } else {
                    proof {
                        if len > 3 && n@.skip(len - 3) == seq!['.', 'r', 's'] {
                            assert(n@.skip(len - 3)[0] == n@[len - 3]);
                            assert(n@.skip(len - 3)[1] == n@[len - 2]);
                            assert(n@.skip(len - 3)[2] == n@[len - 1]);
                        }
                    }
                    FileType::PlainText
                }
            },
        }
    }

    /// The file name shown for the document: what follows the last `/` of
    /// the path, or `[No Name]` when there is no path or nothing follows.
    pub fn display_name(&self) -> (r: String)
        ensures
            r@ == display_name_of(self@),
    {
        match &self.path {
            Some(p) => {
                let n = Self::file_name(p.as_str());
                if n.len() > 0 {
                    let mut r = String::new();
                    let mut i: usize = 0;
                    while i < n.len()
                        invariant
                            i <= n@.len(),
                            r@ == n@.take(i as int),
                        decreases n.len() - i,
                    {
                        string_push(&mut r, n[i]);
                        i = i + 1;
                        assert(r@ =~= n@.take(i as int));
                    }
                    assert(n@.take(i as int) =~= n@);
                    r
                } else {
                    to_owned_string("[No Name]")
                }
            },
            None => to_owned_string("[No Name]"),
        }
    }
}

} // verus!
