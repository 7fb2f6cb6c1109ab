use vstd::prelude::*;

use crate::error::{stream_result_view, ArchiveError, ErrorKind, ErrorView};
use crate::order::{distinct_paths, sort_entries, sorted_by_path};
use crate::tree::{
    entry_views, is_relative_path, relative_path, retain_entries, retained, Attributes, BodyView,
    EntryBody, EntryView, TreeEntry, SKIP_HIDDEN,
};

verus! {

/// The type flag of a regular file in a tar header: the digit `0`.
pub const FILE_FLAG: u8 = 48;

/// The type flag of a directory in a tar header: the digit `5`.
pub const DIRECTORY_FLAG: u8 = 53;

/// A tar archive under construction in memory: a `tar::Builder` over a
/// vector of bytes.
#[verifier::external_body]
pub struct TarWriter {
    inner: tar::Builder<Vec<u8>>,
}

/// The bytes that a writer has produced so far.
pub uninterp spec fn written(writer: TarWriter) -> Seq<u8>;

/// The record that `tar::Builder::append_data` writes for an entry with a
/// GNU header: a long-name record where the path does not fit the header,
/// the header, then the data padded with zeros to a whole block.
pub uninterp spec fn data_record(
    path: Seq<char>,
    flag: u8,
    mode: u32,
    uid: u64,
    gid: u64,
    mtime: u64,
    data: Seq<u8>,
) -> Seq<u8>;

/// The record that `tar::Builder::append_link` writes for a symbolic link
/// with a GNU header: long-name and long-link records where they are needed,
/// then the header.
pub uninterp spec fn link_record(
    path: Seq<char>,
    mode: u32,
    uid: u64,
    gid: u64,
    mtime: u64,
    target: Seq<char>,
) -> Seq<u8>;

/// Whether `tar::Builder::append_data` refuses an entry at `path`. It
/// refuses a path that it cannot put into a header: one that is empty or
/// absolute, one with a component `..`, one that holds a zero byte.
pub uninterp spec fn data_refused(path: Seq<char>) -> bool;

/// Whether `tar::Builder::append_link` refuses a link at `path` to
/// `target`: a path as [`data_refused`] describes, or a target that it
/// cannot put into a header.
pub uninterp spec fn link_refused(path: Seq<char>, target: Seq<char>) -> bool;

/// What ends every tar archive: two blocks of zeros.
pub open spec fn end_of_archive() -> Seq<u8> {
    Seq::new(1024, |i: int| 0u8)
}

/// A writer that has produced nothing yet, from `tar::Builder::new` on an
/// empty vector.
#[verifier::external_body]
fn new_writer() -> (writer: TarWriter)
    ensures
        written(writer) == Seq::<u8>::empty(),
{
    TarWriter { inner: tar::Builder::new(Vec::new()) }
}

/// Appends one entry with data by `tar::Builder::append_data`, after
/// filling a header from `tar::Header::new_gnu` with the type flag, the
/// attributes and the length of the data.
///
/// Trusted: the call fails exactly where [`data_refused`] holds of the
/// path, and where it does not fail the writer has grown by exactly
/// [`data_record`] of the arguments. Only the path can make the call fail:
/// the header is filled without a check, and writing to a vector and
/// reading from a slice do not fail. Nothing is claimed of the writer after
/// a failure.
#[verifier::external_body]
fn append_data(
    writer: &mut TarWriter,
    path: &str,
    flag: u8,
    attributes: &Attributes,
    data: &[u8],
) -> (outcome: Result<(), std::io::Error>)
    ensures
        outcome is Err <==> data_refused(path@),
        outcome is Ok ==> written(*final(writer)) == written(*old(writer)) + data_record(
            path@,
            flag,
            attributes.mode,
            attributes.uid,
            attributes.gid,
            attributes.mtime,
            data@,
        ),
{
    let mut header = tar::Header::new_gnu();
    header.set_entry_type(tar::EntryType::new(flag));
    header.set_mode(attributes.mode);
    header.set_uid(attributes.uid);
    header.set_gid(attributes.gid);
    header.set_mtime(attributes.mtime);
    header.set_size(data.len() as u64);
    writer.inner.append_data(&mut header, path, data)
}

/// Appends one symbolic link by `tar::Builder::append_link`, after filling
/// a header from `tar::Header::new_gnu` with the attributes.
///
/// Trusted: the call fails exactly where [`link_refused`] holds of the
/// path and the target, and where it does not fail the writer has grown by
/// exactly [`link_record`] of the arguments. Only the path and the target
/// can make the call fail. Nothing is claimed of the writer after a
/// failure.
#[verifier::external_body]
fn append_link(
    writer: &mut TarWriter,
    path: &str,
    attributes: &Attributes,
    target: &str,
) -> (outcome: Result<(), std::io::Error>)
    ensures
        outcome is Err <==> link_refused(path@, target@),
        outcome is Ok ==> written(*final(writer)) == written(*old(writer)) + link_record(
            path@,
            attributes.mode,
            attributes.uid,
            attributes.gid,
            attributes.mtime,
            target@,
        ),
{
    let mut header = tar::Header::new_gnu();
    header.set_entry_type(tar::EntryType::Symlink);
    header.set_mode(attributes.mode);
    header.set_uid(attributes.uid);
    header.set_gid(attributes.gid);
    header.set_mtime(attributes.mtime);
    header.set_size(0);
    writer.inner.append_link(&mut header, path, target)
}

/// Ends the archive by `tar::Builder::into_inner` and hands out its bytes.
///
/// Trusted: the call does not fail, and the bytes are what the writer had
/// produced, followed by the two blocks of zeros that `finish` writes.
/// Ending the archive only appends these blocks to the vector.
#[verifier::external_body]
fn finish(writer: TarWriter) -> (outcome: Result<Vec<u8>, std::io::Error>)
    ensures
        outcome is Ok,
        outcome->Ok_0@ == written(writer) + end_of_archive(),
{
    writer.inner.into_inner()
}

/// The record of one entry.
pub open spec fn record_of(entry: EntryView) -> Seq<u8> {
    let a = entry.attributes;
    match entry.body {
        BodyView::File(content) => data_record(
            entry.path,
            FILE_FLAG,
            a.mode,
            a.uid,
            a.gid,
            a.mtime,
            content,
        ),
        BodyView::Directory => data_record(
            entry.path,
            DIRECTORY_FLAG,
            a.mode,
            a.uid,
            a.gid,
            a.mtime,
            Seq::<u8>::empty(),
        ),
        BodyView::Symlink(target) => link_record(entry.path, a.mode, a.uid, a.gid, a.mtime, target),
    }
}

/// The records of the entries, one after the other.
pub open spec fn records(entries: Seq<EntryView>) -> Seq<u8>
    decreases entries.len(),
{
    if entries.len() == 0 {
        Seq::<u8>::empty()
    } else {
        records(entries.drop_last()) + record_of(entries.last())
    }
}

/// The tar archive that holds the entries in the order given.
pub open spec fn tar_stream(entries: Seq<EntryView>) -> Seq<u8> {
    records(entries) + end_of_archive()
}

/// Whether the encoder refuses the entry.
pub open spec fn refused(entry: EntryView) -> bool {
    match entry.body {
        BodyView::Symlink(target) => link_refused(entry.path, target),
        _ => data_refused(entry.path),
    }
}

/// Whether the entry cannot be archived: its path does not stay below the
/// root of the tree, or the encoder refuses it.
pub open spec fn unfit(entry: EntryView) -> bool {
    !relative_path(entry.path) || refused(entry)
}

/// What writing the entries in the order given comes to. Where no entry
/// is unfit, it is [`tar_stream`] of the entries. Otherwise it is the
/// failure to archive the first entry that is unfit, which names the path
/// of that entry and no job.
pub open spec fn written_of(entries: Seq<EntryView>, result: Result<Seq<u8>, ErrorView>) -> bool {
    match result {
        Ok(stream) => {
            &&& stream == tar_stream(entries)
            &&& forall|i: int| 0 <= i < entries.len() ==> !unfit(#[trigger] entries[i])
        },
        Err(error) => {
            &&& error.kind == ErrorKind::EntryRead
            &&& error.job == Seq::<char>::empty()
            &&& exists|i: int|
                0 <= i < entries.len() && unfit(#[trigger] entries[i]) && error.path
                    == entries[i].path && forall|j: int|
                    0 <= j < i ==> !unfit(#[trigger] entries[j])
        },
    }
}

/// The order and choice of the entries of an archive: what the policy on
/// hidden entries keeps, in the order of the paths.
pub open spec fn arranged(entries: Seq<EntryView>) -> Seq<EntryView> {
    sorted_by_path(retained(entries, SKIP_HIDDEN))
}

/// Appends the record of `entry`.
fn append_entry(writer: &mut TarWriter, entry: &TreeEntry) -> (outcome: Result<(), std::io::Error>)
    ensures
        outcome is Err <==> refused(entry@),
        outcome is Ok ==> written(*final(writer)) == written(*old(writer)) + record_of(entry@),
{
    let path = entry.path.as_str();
    match &entry.body {
        EntryBody::File(content) => append_data(
            writer,
            path,
            FILE_FLAG,
            &entry.attributes,
            content.as_slice(),
        ),
        EntryBody::Directory => {
            let nothing: Vec<u8> = Vec::new();
            append_data(writer, path, DIRECTORY_FLAG, &entry.attributes, nothing.as_slice())
        },
        EntryBody::Symlink(target) => append_link(writer, path, &entry.attributes, target.as_str()),
    }
}

/// Writes the entries, in the order given, as one tar archive. An entry
/// whose path does not stay below the root of the tree is not handed to
/// the encoder. The first entry that cannot be archived ends the writing.
pub fn write_entries(entries: &Vec<TreeEntry>) -> (result: Result<Vec<u8>, ArchiveError>)
    ensures
        written_of(entry_views(entries@), stream_result_view(result)),
{
    let ghost all = entry_views(entries@);
    let mut writer = new_writer();
    let mut i: usize = 0;
    while i < entries.len()
        invariant
            i <= entries.len(),
            all == entry_views(entries@),
            written(writer) == records(all.take(i as int)),
            forall|j: int| 0 <= j < i ==> !unfit(#[trigger] all[j]),
        decreases entries.len() - i,
    {
        let entry = &entries[i];
        proof {
            let seen = all.take(i + 1);
            assert(seen.drop_last() =~= all.take(i as int));
            assert(seen.last() == entry@);
            assert(all[i as int] == entry@);
        }
        if !is_relative_path(entry.path.as_str()) {
            proof {
                crate::error::lemma_empty_text();
            }
            return Err(
                ArchiveError::new(
                    ErrorKind::EntryRead,
                    "",
                    entry.path.as_str(),
                    "the path does not stay below the root of the tree",
                ),
            );
        }
        match append_entry(&mut writer, entry) {
            Ok(()) => {},
            Err(error) => {
                return Err(
                    ArchiveError::from_io(ErrorKind::EntryRead, entry.path.as_str(), &error),
                );
            },
        }
        i = i + 1;
    }
    assert(all.take(i as int) =~= all);
    match finish(writer) {
        Ok(stream) => Ok(stream),
        // Ending an archive in memory does not fail.
        Err(error) => Err(ArchiveError::from_io(ErrorKind::Encoding, "", &error)),
    }
}

/// What serializing a tree comes to: [`written_of`] the entries as
/// [`arranged`]. The archive of a tree without an unfit entry is
/// [`tar_stream`] of the arranged entries, and every path in it stays below
/// the root of the tree.
pub open spec fn archive_of(entries: Seq<EntryView>, result: Result<Seq<u8>, ErrorView>) -> bool {
    written_of(arranged(entries), result)
}

/// Serializes a directory tree, given as the list of its entries in any
/// order, into a tar archive in memory. The policy on hidden entries is
/// applied and the entries are put in the order of their paths, so that
/// the archive depends on the tree alone.
pub fn make_tar_from_dir(entries: Vec<TreeEntry>) -> (result: Result<Vec<u8>, ArchiveError>)
    ensures
        archive_of(entry_views(entries@), stream_result_view(result)),
{
    let kept = retain_entries(entries, SKIP_HIDDEN);
    let sorted = sort_entries(kept);
    write_entries(&sorted)
}

/// An archive holds every entry of the tree once, hidden or not: as many
/// records with the path, the attributes and the content of an entry as
/// the tree has such entries.
pub proof fn lemma_archive_holds_every_entry(entries: Seq<EntryView>)
    ensures
        arranged(entries).to_multiset() == entries.to_multiset(),
        arranged(entries).len() == entries.len(),
{
    crate::tree::lemma_policy_is_uniform(entries, SKIP_HIDDEN);
    crate::order::lemma_sorted_is_permutation(retained(entries, SKIP_HIDDEN));
}

/// The archive depends on the tree alone: two listings of the same
/// entries, in whatever order they were read, give the same archive,
/// provided that no two entries share a path.
pub proof fn lemma_archive_depends_on_tree(a: Seq<EntryView>, b: Seq<EntryView>)
    requires
        a.to_multiset() == b.to_multiset(),
        distinct_paths(a),
    ensures
        arranged(a) == arranged(b),
        forall|result: Result<Seq<u8>, ErrorView>| archive_of(a, result) == archive_of(b, result),
{
    let kept_a = retained(a, SKIP_HIDDEN);
    let kept_b = retained(b, SKIP_HIDDEN);
    crate::tree::lemma_policy_is_uniform(a, SKIP_HIDDEN);
    crate::tree::lemma_policy_is_uniform(b, SKIP_HIDDEN);
    assert(kept_a.to_multiset() =~= kept_b.to_multiset());
    crate::order::lemma_distinct_paths_of_part(a, kept_a);
    crate::order::lemma_order_is_determined(kept_a, kept_b);
}

/// A tree is archived exactly when none of its entries is unfit: then
/// serializing gives [`tar_stream`] of the arranged entries and nothing
/// else, and otherwise it fails.
pub proof fn lemma_archived_when_fit(entries: Seq<EntryView>, result: Result<Seq<u8>, ErrorView>)
    requires
        archive_of(entries, result),
    ensures
        result is Ok <==> forall|entry: EntryView| entries.contains(entry) ==> !unfit(entry),
        result is Ok ==> result == Ok::<Seq<u8>, ErrorView>(tar_stream(arranged(entries))),
{
    broadcast use vstd::seq_lib::group_to_multiset_ensures;

    lemma_archive_holds_every_entry(entries);
    let order = arranged(entries);
    if result is Ok {
        assert forall|entry: EntryView| entries.contains(entry) implies !unfit(entry) by {
            assert(entries.to_multiset().count(entry) > 0);
            assert(order.to_multiset().count(entry) > 0);
            assert(order.contains(entry));
            let i = choose|i: int| 0 <= i < order.len() && order[i] == entry;
            assert(!unfit(order[i]));
        }
    } else {
        let i = choose|i: int| 0 <= i < order.len() && unfit(#[trigger] order[i]);
        assert(order.contains(order[i]));
        assert(order.to_multiset().count(order[i]) > 0);
        assert(entries.to_multiset().count(order[i]) > 0);
        assert(entries.contains(order[i]));
    }
}

/// The archive of an empty tree: serializing it always gives an archive,
/// and that is the end of an archive and nothing else.
pub proof fn lemma_empty_tree_archive(result: Result<Seq<u8>, ErrorView>)
    requires
        archive_of(Seq::<EntryView>::empty(), result),
    ensures
        result == Ok::<Seq<u8>, ErrorView>(end_of_archive()),
{
    let none = Seq::<EntryView>::empty();
    assert(retained(none, SKIP_HIDDEN) =~= none);
    assert(sorted_by_path(none) =~= none);
    assert(tar_stream(none) =~= end_of_archive());
}

} // verus!
