use vstd::prelude::*;

use crate::builder::{
    archive_of, arranged, lemma_archived_when_fit, make_tar_from_dir, tar_stream, unfit,
};
use crate::error::{stream_result_view, ArchiveError, ErrorKind, ErrorView};
use crate::tree::{entry_views, EntryView, TreeEntry};

verus! {

/// How hard the compressor works, on the usual scale from 0 (store only) to
/// 9 (smallest output).
#[derive(Clone, Copy, Debug)]
pub struct Compression {
    level: u32,
}

/// The highest level of compression.
pub const BEST_LEVEL: u32 = 9;

/// The level used where none is asked for.
pub const DEFAULT_LEVEL: u32 = 6;

impl View for Compression {
    type V = u32;

    closed spec fn view(&self) -> u32 {
        self.level
    }
}

impl Compression {
    #[verifier::type_invariant]
    closed spec fn in_range(self) -> bool {
        self.level <= BEST_LEVEL
    }

    /// The given level, if it is on the scale.
    pub fn new(level: u32) -> (compression: Option<Compression>)
        ensures
            level <= BEST_LEVEL ==> compression is Some && compression->0@ == level,
            level > BEST_LEVEL ==> compression is None,
    {
        if level <= BEST_LEVEL {
            Some(Compression { level })
        } else {
            None
        }
    }

    /// The level as a number.
    pub fn level(&self) -> (level: u32)
        ensures
            level == self@,
            level <= BEST_LEVEL,
    {
        proof {
            use_type_invariant(self);
        }
        self.level
    }
}

impl Default for Compression {
    fn default() -> (compression: Compression)
        ensures
            compression@ == DEFAULT_LEVEL,
    {
        Compression { level: DEFAULT_LEVEL }
    }
}

/// The gzip stream that `flate2` produces from `data` at `level`: a header
/// without name or time stamp, the deflated data, then check sum and length.
pub uninterp spec fn gzip_stream(data: Seq<u8>, level: u32) -> Seq<u8>;

/// Whether the encoder of `flate2` reports a failure on `data` at `level`.
pub uninterp spec fn gzip_fails(data: Seq<u8>, level: u32) -> bool;

/// Compresses `data` by reading `flate2::bufread::GzEncoder` to its end.
///
/// Trusted: the encoder fails exactly where [`gzip_fails`] holds of the
/// data and the level, and where it does not fail the bytes read are
/// [`gzip_stream`] of the two. The encoder reads from memory and writes a
/// fixed header (no time stamp, operating system unknown), so what it does
/// depends on nothing else. Levels above 9 are left out: the encoder of
/// `flate2` asserts a bound on the level.
#[verifier::external_body]
fn gzip_encode(data: &[u8], level: u32) -> (stream: Result<Vec<u8>, std::io::Error>)
    requires
        level <= BEST_LEVEL,
    ensures
        stream is Err <==> gzip_fails(data@, level),
        stream is Ok ==> stream->Ok_0@ == gzip_stream(data@, level),
{
    let mut stream = Vec::new();
    let reader = std::io::BufReader::new(data);
    let mut encoder = flate2::bufread::GzEncoder::new(reader, flate2::Compression::new(level));
    std::io::Read::read_to_end(&mut encoder, &mut stream)?;
    Ok(stream)
}

/// What the compressor hands on, given what the encoder returned: the
/// stream as it is, or a failure of kind [`ErrorKind::Encoding`] that names
/// neither job nor path.
pub fn compressed(outcome: Result<Vec<u8>, std::io::Error>) -> (result: Result<
    Vec<u8>,
    ArchiveError,
>)
    ensures
        match outcome {
            Ok(stream) => result == Ok::<Vec<u8>, ArchiveError>(stream),
            Err(_) => {
                &&& result is Err
                &&& result->Err_0@.kind == ErrorKind::Encoding
                &&& result->Err_0@.job == Seq::<char>::empty()
                &&& result->Err_0@.path == Seq::<char>::empty()
            },
        },
{
    match outcome {
        Ok(stream) => Ok(stream),
        Err(error) => {
            proof {
                crate::error::lemma_empty_text();
            }
            Err(ArchiveError::from_io(ErrorKind::Encoding, "", &error))
        },
    }
}

/// What compressing `data` at `level` comes to. Where the encoder does
/// not fail, it is [`gzip_stream`] of the two. Where it does, it is a
/// failure of encoding that names neither job nor path.
pub open spec fn compression_of(
    data: Seq<u8>,
    level: u32,
    result: Result<Seq<u8>, ErrorView>,
) -> bool {
    match result {
        Ok(stream) => !gzip_fails(data, level) && stream == gzip_stream(data, level),
        Err(error) => {
            &&& gzip_fails(data, level)
            &&& error.kind == ErrorKind::Encoding
            &&& error.job == Seq::<char>::empty()
            &&& error.path == Seq::<char>::empty()
        },
    }
}

/// Wraps `data` in gzip at the given level.
pub fn compress_data(data: &[u8], level: Compression) -> (result: Result<Vec<u8>, ArchiveError>)
    ensures
        compression_of(data@, level@, stream_result_view(result)),
{
    compressed(gzip_encode(data, level.level()))
}

/// What archiving a tree at `level` comes to. The tree is serialized and
/// the archive compressed: the stream is the gzip stream of the tar
/// archive of the tree; a failure is that of serializing the tree or,
/// where the tree has an archive, that of compressing it.
pub open spec fn compressed_archive_of(
    entries: Seq<EntryView>,
    level: u32,
    result: Result<Seq<u8>, ErrorView>,
) -> bool {
    let tar = tar_stream(arranged(entries));
    match result {
        Ok(stream) => archive_of(entries, Ok(tar)) && compression_of(tar, level, Ok(stream)),
        Err(error) => archive_of(entries, Err(error)) || (archive_of(entries, Ok(tar))
            && compression_of(tar, level, Err(error))),
    }
}

/// Archives a directory tree, given as the list of its entries in any
/// order: the tar archive of the tree, wrapped in gzip at the given level.
pub fn compress_dir_to_vec(entries: Vec<TreeEntry>, level: Compression) -> (result: Result<
    Vec<u8>,
    ArchiveError,
>)
    ensures
        compressed_archive_of(entry_views(entries@), level@, stream_result_view(result)),
{
    match make_tar_from_dir(entries) {
        Ok(tar) => compress_data(tar.as_slice(), level),
        Err(error) => Err(error),
    }
}

/// A tree is archived and compressed exactly when none of its entries is
/// unfit and the encoder does not fail on its archive; the stream is then
/// the gzip stream of the tar archive of the arranged entries.
pub proof fn lemma_compressed_when_fit(
    entries: Seq<EntryView>,
    level: u32,
    result: Result<Seq<u8>, ErrorView>,
)
    requires
        compressed_archive_of(entries, level, result),
    ensures
        result is Ok <==> (forall|entry: EntryView| entries.contains(entry) ==> !unfit(entry))
            && !gzip_fails(tar_stream(arranged(entries)), level),
        result is Ok ==> result == Ok::<Seq<u8>, ErrorView>(
            gzip_stream(tar_stream(arranged(entries)), level),
        ),
{
    let tar = tar_stream(arranged(entries));
    match result {
        Ok(stream) => {
            lemma_archived_when_fit(entries, Ok(tar));
        },
        Err(error) => {
            if archive_of(entries, Err(error)) {
                lemma_archived_when_fit(entries, Err(error));
            } else {
                lemma_archived_when_fit(entries, Ok(tar));
            }
        },
    }
}

} // verus!
