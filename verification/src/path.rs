//! Unix paths: byte strings whose parts are separated by `/`.

use vstd::prelude::*;
use vstd::slice::*;
use vstd::string::*;
use vstd::utf8::*;

use crate::bytes::push_bytes;

verus! {

/// The byte between the parts of a path.
pub const SLASH: u8 = 0x2f;

/// The byte before the extension of a file name.
pub const DOT: u8 = 0x2e;

/// A Unix path.
#[derive(Debug, Clone, PartialEq, Eq)]
pub struct UnixPath {
    pub bytes: Vec<u8>,
}

impl View for UnixPath {
    type V = Seq<u8>;

    open spec fn view(&self) -> Seq<u8> {
        self.bytes@
    }
}

/// The path `part` taken below `base`: an absolute `part` stands for itself,
/// and otherwise one `/` stands between the two unless `base` is empty or ends
/// in one.
pub open spec fn joined(base: Seq<u8>, part: Seq<u8>) -> Seq<u8> {
    if part.len() > 0 && part[0] == SLASH {
        part
    } else if base.len() == 0 || base.last() == SLASH {
        base + part
    } else {
        base + seq![SLASH] + part
    }
}

/// A part of a path that names something: neither empty nor `.`.
pub open spec fn names(part: Seq<u8>) -> bool {
    part.len() > 0 && part != seq![DOT]
}

/// The last part of `path` that names something, where `cur` holds what
/// follows on `path` up to the next `/` or the end.
pub open spec fn last_part(path: Seq<u8>, cur: Seq<u8>) -> Option<Seq<u8>>
    decreases path.len(),
{
    if path.len() > 0 && path.last() != SLASH {
        last_part(path.drop_last(), seq![path.last()] + cur)
    } else if names(cur) {
        Some(cur)
    } else if path.len() > 0 {
        last_part(path.drop_last(), seq![])
    } else {
        None
    }
}

/// The file name of a path: its last part that names something, unless that
/// part is `..`.
pub open spec fn file_name_of(path: Seq<u8>) -> Option<Seq<u8>> {
    match last_part(path, seq![]) {
        Some(part) => if part == seq![DOT, DOT] {
            None
        } else {
            Some(part)
        },
        None => None,
    }
}

/// The position of the last dot of a file name, or -1 where there is none.
pub open spec fn last_dot(name: Seq<u8>) -> int
    decreases name.len(),
{
    if name.len() == 0 {
        -1
    } else if name.last() == DOT {
        name.len() - 1
    } else {
        last_dot(name.drop_last())
    }
}

/// The file name of a path without its extension.
pub open spec fn file_stem_of(path: Seq<u8>) -> Option<Seq<u8>> {
    match file_name_of(path) {
        Some(name) => if last_dot(name) > 0 {
            Some(name.take(last_dot(name)))
        } else {
            Some(name)
        },
        None => None,
    }
}

/// The extension of a path: what follows the last dot of its file name, where
/// that dot does not come first.
pub open spec fn extension_of(path: Seq<u8>) -> Option<Seq<u8>> {
    match file_name_of(path) {
        Some(name) => if last_dot(name) > 0 {
            Some(name.skip(last_dot(name) + 1))
        } else {
            None
        },
        None => None,
    }
}

/// Whether `r` is the byte string that `s` describes.
pub open spec fn part_is(r: Option<&[u8]>, s: Option<Seq<u8>>) -> bool {
    match r {
        Some(part) => s == Some(part@),
        None => s is None,
    }
}

fn dot_position(name: &[u8]) -> (at: Option<usize>)
    ensures
        match at {
            Some(i) => last_dot(name@) == i && i < name@.len(),
            None => last_dot(name@) == -1,
        },
{
    let mut n: usize = name.len();
    assert(name@.take(n as int) =~= name@);
    while n > 0
        invariant
            n <= name@.len(),
            last_dot(name@.take(n as int)) == last_dot(name@),
        decreases n,
    {
        assert(name@.take(n as int).drop_last() =~= name@.take(n - 1));
        if name[n - 1] == DOT {
            return Some(n - 1);
        }
        n = n - 1;
    }
    None
}

impl UnixPath {
    /// The path that a text spells.
    pub fn from_text(text: &str) -> (path: UnixPath)
        ensures
            path@ == encode_utf8(text@),
    {
        UnixPath { bytes: slice_to_vec(text.as_bytes()) }
    }

    /// A copy of this path.
    pub fn copy(&self) -> (path: UnixPath)
        ensures
            path@ == self@,
    {
        UnixPath { bytes: slice_to_vec(self.bytes.as_slice()) }
    }

    /// The path `part` taken below this one.
    pub fn join(&self, part: &[u8]) -> (path: UnixPath)
        ensures
            path@ == joined(self@, part@),
    {
        if part.len() > 0 && part[0] == SLASH {
            return UnixPath { bytes: slice_to_vec(part) };
        }
        let mut bytes: Vec<u8> = slice_to_vec(self.bytes.as_slice());
        if bytes.len() > 0 && bytes[bytes.len() - 1] != SLASH {
            bytes.push(SLASH);
        }
        push_bytes(&mut bytes, part);
        assert(bytes@ =~= joined(self@, part@));
        UnixPath { bytes }
    }

    /// The last part of this path that names something.
    fn last_name(&self) -> (part: Option<&[u8]>)
        ensures
            part_is(part, last_part(self@, seq![])),
    {
        let path: &[u8] = self.bytes.as_slice();
        let mut start: usize = path.len();
        let mut end: usize = path.len();
        assert(path@.take(start as int) =~= path@);
        assert(path@.subrange(start as int, end as int) =~= Seq::<u8>::empty());
        loop
            invariant
                start <= end <= path@.len(),
                path@ == self@,
                last_part(path@.take(start as int), path@.subrange(start as int, end as int))
                    == last_part(self@, seq![]),
            decreases start,
        {
            let ghost before = path@.take(start as int);
            let ghost cur = path@.subrange(start as int, end as int);
            if start > 0 && path[start - 1] != SLASH {
                assert(before.drop_last() =~= path@.take(start - 1));
                assert(seq![before.last()] + cur =~= path@.subrange(start - 1, end as int));
                start = start - 1;
            } else if start < end && !(end - start == 1 && path[start] == DOT) {
                assert(cur.len() == 1 ==> cur[0] == path@[start as int]);
                assert(names(cur));
                return Some(slice_subrange(path, start, end));
            } else {
                assert(!names(cur)) by {
                    if cur.len() > 0 {
                        assert(cur =~= seq![DOT]);
                    }
                }
                if start == 0 {
                    return None;
                }
                assert(before.drop_last() =~= path@.take(start - 1));
                start = start - 1;
                end = start;
                assert(path@.subrange(start as int, end as int) =~= Seq::<u8>::empty());
            }
        }
    }

    /// The file name of this path.
    pub fn file_name(&self) -> (name: Option<&[u8]>)
        ensures
            part_is(name, file_name_of(self@)),
    {
        match self.last_name() {
            Some(part) => {
                if part.len() == 2 && part[0] == DOT && part[1] == DOT {
                    assert(part@ =~= seq![DOT, DOT]);
                    None
                } else {
                    assert(part@ != seq![DOT, DOT]);
                    Some(part)
                }
            },
            None => None,
        }
    }

    /// The file name of this path without its extension.
    pub fn file_stem(&self) -> (stem: Option<&[u8]>)
        ensures
            part_is(stem, file_stem_of(self@)),
    {
        match self.file_name() {
            Some(name) => {
                match dot_position(name) {
                    Some(at) => {
                        if at > 0 {
                            assert(name@.subrange(0, at as int) =~= name@.take(at as int));
                            Some(slice_subrange(name, 0, at))
                        } else {
                            Some(name)
                        }
                    },
                    None => Some(name),
                }
            },
            None => None,
        }
    }

    /// The extension of this path.
    pub fn extension(&self) -> (extension: Option<&[u8]>)
        ensures
            part_is(extension, extension_of(self@)),
    {
        match self.file_name() {
            Some(name) => {
                match dot_position(name) {
                    Some(at) => {
                        if at > 0 {
                            assert(at < name.len());
                            assert(name@.subrange(at + 1, name@.len() as int) =~= name@.skip(
                                at + 1,
                            ));
                            Some(slice_subrange(name, at + 1, name.len()))
                        } else {
                            None
                        }
                    },
                    None => None,
                }
            },
            None => None,
        }
    }
}

} // verus!
