//! From the files that go in to the entries of the archive.
//!
//! The pictures are found among the files, their pages are made, put into
//! reading order and written out one by one behind a cover, which shows the
//! first page once more. Without a picture format the files themselves are
//! packed. Reading the files and writing the archive is left to the caller.

use crate::codec::encode;
use crate::codec::encoded_picture;
use crate::codec::writes_alike_everywhere;
use crate::config::Config;
use crate::config::OutputFormat;
use crate::convert::convert_page;
use crate::convert::gives_error;
use crate::convert::gives_pages;
use crate::convert::lemma_page_count_is_fixed;
use crate::convert::page_of;
use crate::convert::picture_of;
use crate::order::lemma_ordering_unique;
use crate::digits::decimal_digits;
use crate::digits::digits_of;
use crate::digits::lemma_decimal_reads_back;
use crate::digits::sequence_index;
use crate::digits::write_decimal;
use crate::error::Error;
use crate::order::is_ordering_of;
use crate::order::order;
use crate::page::Page;
use crate::raster::Raster;
use crate::source::discover;
use crate::source::is_picture;
use crate::source::SourceFile;
use crate::split::views;
use vstd::prelude::*;

verus! {

/// One entry of the archive: its name and what it holds.
#[derive(Debug)]
pub struct ArchiveEntry {
    pub name: String,
    pub data: Vec<u8>,
}

/// The name of the cover: `cover`, a dot, and the extension.
pub open spec fn cover_name(extension: Seq<char>) -> Seq<char> {
    "cover."@ + extension
}

/// The name of the page at `position`, counted from zero: the position in
/// base ten, a dot, and the extension.
pub open spec fn page_name(position: nat, extension: Seq<char>) -> Seq<char> {
    decimal_digits(position) + "."@ + extension
}

/// The name of entry `i` of an archive of pages: the cover comes first, the
/// pages follow.
pub open spec fn entry_name(i: int, extension: Seq<char>) -> Seq<char> {
    if i == 0 {
        cover_name(extension)
    } else {
        page_name((i - 1) as nat, extension)
    }
}

/// The name of a page carries its position: where the extension holds no
/// digit, the index that the name gives is the position itself. Pages that
/// are found again by their names come in the order in which they were
/// packed.
pub proof fn lemma_name_carries_position(position: nat, extension: Seq<char>)
    requires
        position <= usize::MAX,
        digits_of(extension) == Seq::<char>::empty(),
    ensures
        sequence_index(page_name(position, extension)) == position,
{
    let number = decimal_digits(position);
    let dot = "."@;
    let digit = |c: char| crate::digits::is_digit(c);
    reveal_strlit(".");
    lemma_decimal_reads_back(position);
    Seq::filter_distributes_over_add(number + dot, extension, digit);
    Seq::filter_distributes_over_add(number, dot, digit);
    assert(dot.filter(digit) =~= Seq::<char>::empty()) by {
        reveal_with_fuel(Seq::filter, 2);
    }
    assert(digits_of(page_name(position, extension)) =~= number);
}

/// Where the name of the file begins in a path: behind the last `/`.
pub open spec fn name_start(path: Seq<char>) -> int
    decreases path.len(),
{
    if path.len() == 0 {
        0
    } else if path.last() == '/' {
        path.len() as int
    } else {
        name_start(path.drop_last())
    }
}

/// The name of the file at `path`: what stands behind the last `/`.
pub open spec fn file_name_of(path: Seq<char>) -> Seq<char> {
    path.skip(name_start(path))
}

/// The name of the file at `path`.
pub fn file_name(path: &str) -> (name: String)
    ensures
        name@ == file_name_of(path@),
{
    let mut start: usize = 0;
    let mut at: usize = 0;
    let chars = path.chars();
    let ghost mut seen: Seq<char> = Seq::empty();
    proof {
        vstd::string::axiom_spec_iter(path);
    }
    let length = path.unicode_len();
    for c in it: chars
        invariant
            it.seq() == path@,
            length == path@.len(),
            seen == path@.take(it.index()),
            at == it.index(),
            start == name_start(seen),
            start <= at,
    {
        proof {
            assert(path@.take(it.index() + 1) =~= seen.push(c));
            assert(seen.push(c).drop_last() =~= seen);
            seen = seen.push(c);
        }
        at += 1;
        if c == '/' {
            start = at;
        }
    }
    proof {
        assert(seen =~= path@);
    }
    String::from_str(path.substring_char(start, length))
}

/// The name of the cover.
pub fn cover_entry_name(extension: &str) -> (name: String)
    ensures
        name@ == cover_name(extension@),
{
    let mut name = String::from_str("cover.");
    name.append(extension);
    name
}

/// The name of the page at `position`.
pub fn page_entry_name(position: usize, extension: &str) -> (name: String)
    ensures
        name@ == page_name(position as nat, extension@),
{
    let mut name = String::new();
    write_decimal(position, &mut name);
    name.append(".");
    name.append(extension);
    proof {
        assert(name@ =~= page_name(position as nat, extension@));
    }
    name
}

/// What writing a picture in a format comes to, where the format comes out
/// the same on every machine: the bytes of the file, or an encode failure
/// where the format cannot hold the picture.
pub open spec fn is_written(
    image: crate::raster::RasterView,
    format: OutputFormat,
    written: Result<Vec<u8>, Error>,
) -> bool {
    match encoded_picture(image, format.picture_format()) {
        Some(bytes) => written matches Ok(data) && data@ == bytes,
        None => written == Err::<Vec<u8>, Error>(Error::EncodeFailure),
    }
}

/// Writes a picture as a file of `format`. Of a format that the machine has
/// a say in, the bytes are whatever the encoder gave.
pub fn encode_page(image: &Raster, format: &OutputFormat) -> (written: Result<Vec<u8>, Error>)
    ensures
        writes_alike_everywhere(format.picture_format()) ==> is_written(image@, *format, written),
        written matches Err(error) ==> error == Error::EncodeFailure,
{
    proof {
        use_type_invariant(image);
    }
    written_or_failure(encode(image, format.format()))
}

/// What comes of writing a picture: the bytes that were written, or an
/// encode failure whatever the reason was.
pub fn written_or_failure(outcome: Result<Vec<u8>, image::ImageError>) -> (written: Result<
    Vec<u8>,
    Error,
>)
    ensures
        written == match outcome {
            Ok(data) => Ok::<Vec<u8>, Error>(data),
            Err(_) => Err::<Vec<u8>, Error>(Error::EncodeFailure),
        },
{
    match outcome {
        Ok(data) => Ok(data),
        Err(_) => Err(Error::EncodeFailure),
    }
}

/// The entries of an archive of pages: `written[i]` is page `i` as a file.
/// The cover holds the first page once more; each page goes under the name
/// of its position.
pub open spec fn is_archive_of(
    entries: Seq<ArchiveEntry>,
    written: Seq<Seq<u8>>,
    extension: Seq<char>,
) -> bool {
    &&& written.len() > 0
    &&& entries.len() == written.len() + 1
    &&& entries[0].data@ == written[0]
    &&& forall|i: int|
        0 <= i < entries.len() ==> (#[trigger] entries[i]).name@ == entry_name(i, extension)
    &&& forall|i: int| 0 <= i < written.len() ==> entries[i + 1].data@ == #[trigger] written[i]
}

/// `entries` are an archive of `count` pages: some sequence of `count`
/// written pages is what they hold.
pub open spec fn holds_pages(entries: Seq<ArchiveEntry>, count: nat, extension: Seq<char>) -> bool {
    exists|written: Seq<Seq<u8>>|
        written.len() == count && #[trigger] is_archive_of(entries, written, extension)
}

/// What each of the written pages holds.
pub open spec fn contents(written: Seq<Vec<u8>>) -> Seq<Seq<u8>> {
    written.map_values(|data: Vec<u8>| data@)
}

/// Puts the written pages behind a cover and gives each its name.
pub fn assemble(written: Vec<Vec<u8>>, extension: &str) -> (entries: Vec<ArchiveEntry>)
    requires
        written@.len() > 0,
    ensures
        is_archive_of(entries@, contents(written@), extension@),
{
    let ghost given = contents(written@);
    let mut entries: Vec<ArchiveEntry> = Vec::new();
    let cover = written[0].clone();
    proof {
        assert(cover@ =~= written@[0]@);
    }
    entries.push(ArchiveEntry { name: cover_entry_name(extension), data: cover });
    let ghost mut seen: Seq<Vec<u8>> = Seq::empty();
    proof {
        vstd::std_specs::vec::axiom_spec_into_iter(written);
    }
    let count = written.len();
    let mut position: usize = 0;
    for data in it: written.into_iter()
        invariant
            it.seq() == written@,
            given == contents(written@),
            given.len() > 0,
            written@.len() == count,
            seen == written@.take(it.index()),
            position == it.index(),
            entries@.len() == it.index() + 1,
            entries@[0].data@ == given[0],
            forall|i: int|
                0 <= i < entries@.len() ==> (#[trigger] entries@[i]).name@ == entry_name(
                    i,
                    extension@,
                ),
            forall|i: int| 0 <= i < it.index() ==> entries@[i + 1].data@ == #[trigger] given[i],
    {
        proof {
            assert(given[it.index()] == data@);
            seen = seen.push(data);
            assert(seen =~= written@.take(it.index() + 1));
        }
        entries.push(ArchiveEntry { name: page_entry_name(position, extension), data });
        position += 1;
    }
    entries
}

/// Page `i` as a file, for each of the pages: what the encoder writes for
/// its picture.
pub open spec fn written_pages(ordered: Seq<Page>, format: OutputFormat) -> Seq<Seq<u8>> {
    Seq::new(
        ordered.len(),
        |i: int|
            match encoded_picture(ordered[i]@.image, format.picture_format()) {
                Some(bytes) => bytes,
                None => Seq::<u8>::empty(),
            },
    )
}

/// Every one of the pages can be written in the format.
pub open spec fn all_written(ordered: Seq<Page>, format: OutputFormat) -> bool {
    forall|i: int|
        0 <= i < ordered.len() ==> encoded_picture(
            (#[trigger] ordered[i])@.image,
            format.picture_format(),
        ) is Some
}

/// What comes of writing out pages that stand in reading order. Where the
/// format comes out the same on every machine: the archive of the pages as
/// files, cover first, if every page can be written, and an encode failure
/// if one cannot. Of any other format: an archive of as many pages under
/// the same names, or an encode failure.
pub open spec fn is_written_out(
    ordered: Seq<Page>,
    format: OutputFormat,
    made: Result<Vec<ArchiveEntry>, Error>,
) -> bool {
    if writes_alike_everywhere(format.picture_format()) {
        match made {
            Ok(entries) => all_written(ordered, format) && is_archive_of(
                entries@,
                written_pages(ordered, format),
                format.extension(),
            ),
            Err(error) => error == Error::EncodeFailure && !all_written(ordered, format),
        }
    } else {
        match made {
            Ok(entries) => holds_pages(entries@, ordered.len(), format.extension()),
            Err(error) => error == Error::EncodeFailure,
        }
    }
}

/// What comes of packing pages that were made in any order: nothing to pack
/// where there is no page; else what comes of writing them out in reading
/// order.
pub open spec fn is_emitted(
    pages: Seq<Page>,
    format: OutputFormat,
    made: Result<Vec<ArchiveEntry>, Error>,
) -> bool {
    if pages.len() == 0 {
        made == Err::<Vec<ArchiveEntry>, Error>(Error::NoImagesFound)
    } else {
        exists|ordered: Seq<Page>| #[trigger]
            is_ordering_of(ordered, pages) && is_written_out(ordered, format, made)
    }
}

/// Puts the pages into reading order and writes each as a file of
/// `format`. The archive begins with a cover, which holds the first page
/// once more; the pages follow under the names of their positions. Without
/// a page there is nothing to pack.
pub fn emit(format: &OutputFormat, pages: Vec<Page>) -> (made: Result<Vec<ArchiveEntry>, Error>)
    ensures
        is_emitted(pages@, *format, made),
{
    let ordered = order(pages);
    if ordered.len() == 0 {
        return Err(Error::NoImagesFound);
    }
    let ghost settled = writes_alike_everywhere(format.picture_format());
    let mut written: Vec<Vec<u8>> = Vec::new();
    let mut i: usize = 0;
    while i < ordered.len()
        invariant
            i <= ordered@.len(),
            written@.len() == i,
            ordered@.len() == pages@.len(),
            pages@.len() > 0,
            is_ordering_of(ordered@, pages@),
            settled == writes_alike_everywhere(format.picture_format()),
            settled ==> forall|k: int|
                0 <= k < i ==> encoded_picture(
                    (#[trigger] ordered@[k])@.image,
                    format.picture_format(),
                ) == Some(written@[k]@),
        decreases ordered@.len() - i,
    {
        match encode_page(&ordered[i].image, format) {
            Ok(data) => {
                written.push(data);
            },
            Err(error) => {
                proof {
                    if settled {
                        assert(encoded_picture(ordered@[i as int]@.image, format.picture_format())
                            is None);
                        assert(!all_written(ordered@, *format));
                    }
                    assert(is_written_out(ordered@, *format, Err(error)));
                }
                return Err(error);
            },
        }
        i += 1;
    }
    let ghost files = contents(written@);
    let entries = assemble(written, format.extension_str());
    proof {
        assert(files.len() == pages@.len());
        if settled {
            assert(files =~= written_pages(ordered@, *format));
            assert(all_written(ordered@, *format));
        } else {
            assert(holds_pages(entries@, ordered@.len(), format.extension()));
        }
        assert(is_written_out(ordered@, *format, Ok(entries)));
    }
    Ok(entries)
}

/// The entries of an archive of files packed as they are: each file under
/// its own name, holding what the file holds.
pub open spec fn is_copy_of(entries: Seq<ArchiveEntry>, files: Seq<SourceFile>) -> bool {
    &&& entries.len() == files.len()
    &&& forall|i: int|
        0 <= i < files.len() ==> (#[trigger] entries[i]).name@ == file_name_of(files[i].path@)
            && entries[i].data@ == files[i].data@
}

/// Packs the files as they are, in the order in which they stand.
pub fn pass_through(files: Vec<SourceFile>) -> (entries: Vec<ArchiveEntry>)
    ensures
        is_copy_of(entries@, files@),
{
    let mut entries: Vec<ArchiveEntry> = Vec::new();
    let ghost mut seen: Seq<SourceFile> = Seq::empty();
    proof {
        vstd::std_specs::vec::axiom_spec_into_iter(files);
    }
    for file in it: files.into_iter()
        invariant
            it.seq() == files@,
            seen == files@.take(it.index()),
            is_copy_of(entries@, seen),
    {
        proof {
            seen = seen.push(file);
            assert(seen =~= files@.take(it.index() + 1));
        }
        let name = file_name(file.path.as_str());
        entries.push(ArchiveEntry { name, data: file.data });
    }
    proof {
        assert(seen =~= files@);
    }
    entries
}

/// The pages of the files, file by file: `parts[i]` are the pages that
/// file `i` gives, for as many files as `parts` is long.
pub open spec fn are_pages_of(
    parts: Seq<Seq<Page>>,
    config: Config,
    sources: Seq<SourceFile>,
) -> bool {
    &&& parts.len() <= sources.len()
    &&& forall|i: int|
        0 <= i < parts.len() ==> gives_pages(config, sources[i], views(#[trigger] parts[i]))
}

/// What comes of packing the pictures `sources`. Without a picture format
/// the files are packed as they are. With one, the pages are made file by
/// file: the first file that gives none ends the run with its error; where
/// every file gives its pages, they are packed all together, in the order of
/// the files.
pub open spec fn is_packed(
    made: Result<Vec<ArchiveEntry>, Error>,
    config: Config,
    sources: Seq<SourceFile>,
) -> bool {
    match config.image_format {
        None => made matches Ok(entries) && is_copy_of(entries@, sources),
        Some(format) => exists|parts: Seq<Seq<Page>>| #[trigger]
            are_pages_of(parts, config, sources) && if parts.len() == sources.len() {
                is_emitted(parts.flatten(), format, made)
            } else {
                made matches Err(error) && gives_error(config, sources[parts.len() as int], error)
            },
    }
}

/// Packs the pictures `sources`, which stand in the order in which they
/// are to be packed.
pub fn compress(config: &Config, sources: Vec<SourceFile>) -> (made: Result<
    Vec<ArchiveEntry>,
    Error,
>)
    ensures
        is_packed(made, *config, sources@),
{
    match &config.image_format {
        None => Ok(pass_through(sources)),
        Some(format) => {
            let mut pages: Vec<Page> = Vec::new();
            let ghost mut parts: Seq<Seq<Page>> = Seq::empty();
            let mut i: usize = 0;
            proof {
                assert(parts.flatten() =~= pages@);
            }
            while i < sources.len()
                invariant
                    i <= sources@.len(),
                    parts.len() == i,
                    pages@ == parts.flatten(),
                    are_pages_of(parts, *config, sources@),
                    config.image_format == Some(*format),
                decreases sources@.len() - i,
            {
                match convert_page(config, &sources[i]) {
                    Ok(made) => {
                        let mut made = made;
                        proof {
                            parts.lemma_flatten_push(made@);
                            parts = parts.push(made@);
                        }
                        pages.append(&mut made);
                    },
                    Err(error) => {
                        proof {
                            assert(are_pages_of(parts, *config, sources@));
                        }
                        return Err(error);
                    },
                }
                i += 1;
            }
            proof {
                assert(are_pages_of(parts, *config, sources@));
            }
            emit(format, pages)
        },
    }
}

/// What comes of a run on `files`: without a picture among them there is
/// nothing to pack; else the pictures are packed in the order of the
/// numbers in their paths.
pub open spec fn is_run(
    made: Result<Vec<ArchiveEntry>, Error>,
    config: Config,
    files: Seq<SourceFile>,
) -> bool {
    if files.filter(is_picture()).len() == 0 {
        made == Err::<Vec<ArchiveEntry>, Error>(Error::NoImagesFound)
    } else {
        exists|sources: Seq<SourceFile>| #[trigger]
            is_ordering_of(sources, files.filter(is_picture())) && is_packed(
                made,
                config,
                sources,
            )
    }
}

/// Packs the pictures among `files`: finds them, puts them in the order of
/// the numbers in their paths, and packs them as `config` says.
pub fn run(config: &Config, files: Vec<SourceFile>) -> (made: Result<Vec<ArchiveEntry>, Error>)
    ensures
        is_run(made, *config, files@),
{
    match discover(files) {
        Ok(sources) => {
            proof {
                vstd::seq_lib::to_multiset_len(sources@);
                vstd::seq_lib::to_multiset_len(files@.filter(is_picture()));
            }
            compress(config, sources)
        },
        Err(error) => Err(error),
    }
}

/// Sequences of sequences that agree in length, part by part, are as long
/// when laid end to end.
pub proof fn lemma_flatten_len_agrees<A>(a: Seq<Seq<A>>, b: Seq<Seq<A>>)
    requires
        a.len() == b.len(),
        forall|i: int| 0 <= i < a.len() ==> (#[trigger] a[i]).len() == b[i].len(),
    ensures
        a.flatten().len() == b.flatten().len(),
    decreases a.len(),
{
    if a.len() > 0 {
        let front_a = a.drop_last();
        let front_b = b.drop_last();
        assert forall|i: int| 0 <= i < front_a.len() implies (#[trigger] front_a[i]).len()
            == front_b[i].len() by {
            assert(a[i].len() == b[i].len());
        }
        lemma_flatten_len_agrees(front_a, front_b);
        front_a.lemma_flatten_push(a.last());
        front_b.lemma_flatten_push(b.last());
        assert(front_a.push(a.last()) =~= a);
        assert(front_b.push(b.last()) =~= b);
        assert(a[a.len() - 1].len() == b[a.len() - 1].len());
    } else {
        assert(a.flatten() =~= Seq::<A>::empty());
        assert(b.flatten() =~= Seq::<A>::empty());
    }
}

/// How many entries a packed archive has, and under which names.
proof fn lemma_emitted_names(
    pages: Seq<Page>,
    format: OutputFormat,
    entries: Vec<ArchiveEntry>,
)
    requires
        is_emitted(pages, format, Ok(entries)),
    ensures
        entries@.len() == pages.len() + 1,
        forall|i: int|
            0 <= i < entries@.len() ==> (#[trigger] entries@[i]).name@ == entry_name(
                i,
                format.extension(),
            ),
{
    let ordered = choose|ordered: Seq<Page>| #[trigger]
        is_ordering_of(ordered, pages) && is_written_out(ordered, format, Ok(entries));
    vstd::seq_lib::to_multiset_len(ordered);
    vstd::seq_lib::to_multiset_len(pages);
    if !writes_alike_everywhere(format.picture_format()) {
        let written = choose|written: Seq<Seq<u8>>|
            written.len() == ordered.len() && #[trigger] is_archive_of(
                entries@,
                written,
                format.extension(),
            );
    }
}

/// Two runs on the same files with the same options, when both come to an
/// archive, come to the same number of entries under the same names in the
/// same order.
pub proof fn lemma_runs_agree_on_names(
    config: Config,
    files: Seq<SourceFile>,
    first: Vec<ArchiveEntry>,
    second: Vec<ArchiveEntry>,
)
    requires
        is_run(Ok(first), config, files),
        is_run(Ok(second), config, files),
    ensures
        first@.len() == second@.len(),
        forall|i: int| 0 <= i < first@.len() ==> (#[trigger] first@[i]).name@ == second@[i].name@,
{
    let pictures = files.filter(is_picture());
    let sources = choose|sources: Seq<SourceFile>| #[trigger]
        is_ordering_of(sources, pictures) && is_packed(Ok(first), config, sources);
    let others = choose|sources: Seq<SourceFile>| #[trigger]
        is_ordering_of(sources, pictures) && is_packed(Ok(second), config, sources);
    lemma_ordering_unique(pictures, sources, others);
    match config.image_format {
        None => {
            assert forall|i: int| 0 <= i < first@.len() implies (#[trigger] first@[i]).name@
                == second@[i].name@ by {
                assert(second@[i].name@ == crate::pipeline::file_name_of(sources[i].path@));
            }
        },
        Some(format) => {
            let a = choose|parts: Seq<Seq<Page>>| #[trigger]
                are_pages_of(parts, config, sources) && if parts.len() == sources.len() {
                    is_emitted(parts.flatten(), format, Ok(first))
                } else {
                    Ok::<Vec<ArchiveEntry>, Error>(first) matches Err(error) && gives_error(
                        config,
                        sources[parts.len() as int],
                        error,
                    )
                };
            let b = choose|parts: Seq<Seq<Page>>| #[trigger]
                are_pages_of(parts, config, sources) && if parts.len() == sources.len() {
                    is_emitted(parts.flatten(), format, Ok(second))
                } else {
                    Ok::<Vec<ArchiveEntry>, Error>(second) matches Err(error) && gives_error(
                        config,
                        sources[parts.len() as int],
                        error,
                    )
                };
            assert forall|i: int| 0 <= i < a.len() implies (#[trigger] a[i]).len()
                == b[i].len() by {
                assert(gives_pages(config, sources[i], views(a[i])));
                assert(gives_pages(config, sources[i], views(b[i])));
                let image = picture_of(sources[i])->Some_0;
                lemma_page_count_is_fixed(
                    page_of(sources[i].path@, image),
                    config,
                    views(a[i]),
                    views(b[i]),
                );
            }
            lemma_flatten_len_agrees(a, b);
            lemma_emitted_names(a.flatten(), format, first);
            lemma_emitted_names(b.flatten(), format, second);
            assert forall|i: int| 0 <= i < first@.len() implies (#[trigger] first@[i]).name@
                == second@[i].name@ by {
                assert(second@[i].name@ == entry_name(i, format.extension()));
            }
        },
    }
}

} // verus!
