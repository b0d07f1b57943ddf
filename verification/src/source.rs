//! The files that go in, and finding the pictures among them.

use crate::codec::format_of_path;
use crate::codec::names_picture;
use crate::digits::path_to_num;
use crate::digits::sequence_index;
use crate::error::Error;
use crate::order::is_ordering_of;
use crate::order::order;
use crate::order::Placed;
use vstd::prelude::*;

verus! {

/// A file of the input: where it was found and what it holds.
#[derive(Debug)]
pub struct SourceFile {
    pub path: String,
    pub data: Vec<u8>,
}

impl Placed for SourceFile {
    open spec fn index(&self) -> nat {
        sequence_index(self.path@)
    }

    open spec fn rank(&self) -> int {
        0
    }

    fn stands_before(&self, other: &SourceFile) -> (before: bool) {
        path_to_num(self.path.as_str()) < path_to_num(other.path.as_str())
    }
}

/// Whether a file goes under the name of a picture.
pub open spec fn is_picture() -> spec_fn(SourceFile) -> bool {
    |file: SourceFile| names_picture(file.path@)
}

/// Whether the extension of `path` is that of a picture format.
pub fn is_image(path: &str) -> (recognized: bool)
    ensures
        recognized == names_picture(path@),
{
    format_of_path(path).is_some()
}

/// The files that go under the name of a picture, in the order in which
/// they stand in `files`.
pub fn pictures(files: Vec<SourceFile>) -> (kept: Vec<SourceFile>)
    ensures
        kept@ == files@.filter(is_picture()),
{
    let mut kept: Vec<SourceFile> = Vec::new();
    let ghost mut seen: Seq<SourceFile> = Seq::empty();
    proof {
        vstd::std_specs::vec::axiom_spec_into_iter(files);
        assert(seen.filter(is_picture()) =~= Seq::<SourceFile>::empty()) by {
            reveal(Seq::filter);
        }
    }
    for file in it: files.into_iter()
        invariant
            it.seq() == files@,
            seen == files@.take(it.index()),
            kept@ == seen.filter(is_picture()),
    {
        proof {
            assert(files@.take(it.index() + 1) =~= seen.push(file));
            Seq::lemma_filter_push(seen, file, is_picture());
            seen = seen.push(file);
        }
        if is_image(file.path.as_str()) {
            kept.push(file);
        }
    }
    proof {
        assert(seen =~= files@);
    }
    kept
}

/// Finds the pictures among `files` and puts them in the order of the
/// numbers in their paths; files with the same number keep the order in
/// which they stand in `files`. Without a single picture there is nothing
/// to pack.
pub fn discover(files: Vec<SourceFile>) -> (found: Result<Vec<SourceFile>, Error>)
    ensures
        match found {
            Ok(sources) => sources@.len() > 0 && is_ordering_of(
                sources@,
                files@.filter(is_picture()),
            ),
            Err(error) => error == Error::NoImagesFound && files@.filter(is_picture()).len()
                == 0,
        },
{
    let kept = pictures(files);
    if kept.len() == 0 {
        Err(Error::NoImagesFound)
    } else {
        Ok(order(kept))
    }
}

} // verus!
