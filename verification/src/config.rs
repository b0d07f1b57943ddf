//! The options of a conversion.

use crate::codec::first_extension;
use crate::codec::extension_format;
use crate::codec::extension_of;
use crate::codec::format_of_extension;
use crate::codec::writes_alike_everywhere;
use vstd::prelude::*;

verus! {

/// The container that the pages are packed into.
#[derive(Clone, Copy, Debug, PartialEq, Eq, Structural)]
pub enum ArchiveFormat {
    /// A zip archive.
    CBZ,
    /// A tar archive.
    CBT,
}

impl ArchiveFormat {
    /// The extension of the archive file. Both containers go under `cbz`.
    pub open spec fn extension(self) -> Seq<char> {
        "cbz"@
    }

    /// The container that a name stands for: `cbz` or `cbt`, and no other.
    pub open spec fn named(name: Seq<char>) -> Option<ArchiveFormat> {
        if name == "cbz"@ {
            Some(ArchiveFormat::CBZ)
        } else if name == "cbt"@ {
            Some(ArchiveFormat::CBT)
        } else {
            None
        }
    }

    /// The extension of the archive file.
    pub fn into(self) -> (extension: &'static str)
        ensures
            extension@ == self.extension(),
    {
        match self {
            ArchiveFormat::CBZ => "cbz",
            ArchiveFormat::CBT => "cbz",
        }
    }

    /// The container that `value` names, if it names one.
    pub fn from(value: &str) -> (format: Option<ArchiveFormat>)
        ensures
            format == Self::named(value@),
    {
        if same_text(value, "cbz") {
            Some(ArchiveFormat::CBZ)
        } else if same_text(value, "cbt") {
            Some(ArchiveFormat::CBT)
        } else {
            None
        }
    }
}

/// Whether two texts hold the same characters.
pub fn same_text(a: &str, b: &str) -> (same: bool)
    ensures
        same == (a@ == b@),
{
    let length = a.unicode_len();
    if length != b.unicode_len() {
        return false;
    }
    let mut i: usize = 0;
    while i < length
        invariant
            i <= length,
            length == a@.len(),
            length == b@.len(),
            a@.take(i as int) == b@.take(i as int),
        decreases length - i,
    {
        if a.get_char(i) != b.get_char(i) {
            return false;
        }
        proof {
            assert(a@.take(i as int + 1) =~= a@.take(i as int).push(a@[i as int]));
            assert(b@.take(i as int + 1) =~= b@.take(i as int).push(b@[i as int]));
        }
        i += 1;
    }
    proof {
        assert(a@.take(length as int) =~= a@);
        assert(b@.take(length as int) =~= b@);
    }
    true
}

/// The picture format in which the pages are written, with the extension
/// that their names get.
#[derive(Debug)]
pub struct OutputFormat {
    format: image::ImageFormat,
    extension: String,
}

impl OutputFormat {
    /// The extension is the one under which files of the format go.
    #[verifier::type_invariant]
    pub closed spec fn matched(self) -> bool {
        self.extension@ == extension_of(self.format)
    }

    /// The extension that the names of the pages get.
    pub closed spec fn extension(self) -> Seq<char> {
        self.extension@
    }

    /// The picture format that a file extension such as `png` or `jpeg`
    /// stands for, with the extension under which its files go before all
    /// others; `None` when the extension stands for no format.
    pub fn from_extension(extension: &str) -> (made: Option<OutputFormat>)
        ensures
            match extension_format(extension@) {
                Some(format) => made matches Some(output) && output.picture_format() == format
                    && output.extension() == extension_of(format),
                None => made is None,
            },
    {
        match format_of_extension(extension) {
            Some(format) => Some(OutputFormat { format, extension: first_extension(format) }),
            None => None,
        }
    }

    /// The extension that the names of the pages get.
    pub fn extension_str(&self) -> (extension: &str)
        ensures
            extension@ == self.extension(),
    {
        self.extension.as_str()
    }

    /// Whether files of this format come out the same on every machine, so
    /// that what is written for a page is fixed by the page.
    pub fn comes_out_alike(&self) -> (alike: bool)
        ensures
            alike == writes_alike_everywhere(self.picture_format()),
            self.extension() == extension_of(self.picture_format()),
    {
        proof {
            use_type_invariant(self);
        }
        let extension = self.extension.as_str();
        !same_text(extension, "avif") && !same_text(extension, "exr") && !same_text(
            extension,
            "hdr",
        )
    }

    /// The picture format itself.
    pub(crate) fn format(&self) -> (format: image::ImageFormat)
        ensures
            format == self.picture_format(),
    {
        self.format
    }

    /// The picture format in which the pages are written.
    pub closed spec fn picture_format(self) -> image::ImageFormat {
        self.format
    }
}

/// The options of a conversion.
#[derive(Debug)]
pub struct Config {
    /// The format in which the pages are written anew. Without one the
    /// files are packed as they are.
    pub image_format: Option<OutputFormat>,
    /// The container of the archive.
    pub archive_format: ArchiveFormat,
    /// The resolution `[width, height]` that every page is brought to. A
    /// zero stands for the value that keeps the proportions of the page.
    pub resolution: Option<[u32; 2]>,
    /// The tolerance of the margin trimmer, in millionths of the width of
    /// the page. Without one no margin is trimmed.
    pub remove_margin: Option<i32>,
    /// Whether a page that is wider than tall is cut into two.
    pub split_pages: bool,
}

} // verus!
