use vstd::prelude::*;

verus! {

/// `std::io::Error`, in which the encoders of `tar` and `flate2` report a
/// failure. It is carried through as it is: nothing is known of what it
/// holds.
#[verifier::external_type_specification]
#[verifier::external_body]
pub struct ExIoError(std::io::Error);

/// The ways in which a run can fail. Every one of them ends the run.
#[derive(Clone, Copy, Debug, PartialEq, Eq, Structural)]
pub enum ErrorKind {
    /// The configuration file could not be read.
    ConfigRead,
    /// The configuration file is malformed, or a descriptor in it is not
    /// well formed.
    ConfigParse,
    /// The configuration holds no `archives` key.
    NoArchives,
    /// A path refers to a variable that could not be looked up.
    PathExpansion,
    /// The source directory does not exist or cannot be read.
    DirectoryRead,
    /// An entry of the tree could not be read or archived.
    EntryRead,
    /// An encoder could not produce its stream.
    Encoding,
    /// The output file could not be created or written.
    FileCreate,
    /// The destination directory does not exist.
    DestinationUnavailable,
}

/// A failure with what is needed to act on it: the job it arose in (empty
/// outside any job), the offending path, and a detail such as the name of a
/// variable or the text of an underlying error.
#[derive(Debug)]
pub struct ArchiveError {
    pub kind: ErrorKind,
    pub job: String,
    pub path: String,
    pub detail: String,
}

/// An [`ArchiveError`] as plain values.
pub struct ErrorView {
    pub kind: ErrorKind,
    pub job: Seq<char>,
    pub path: Seq<char>,
    pub detail: Seq<char>,
}

impl View for ArchiveError {
    type V = ErrorView;

    open spec fn view(&self) -> ErrorView {
        ErrorView { kind: self.kind, job: self.job@, path: self.path@, detail: self.detail@ }
    }
}

/// The outcome of producing a stream of bytes, as plain values.
pub open spec fn stream_result_view(result: Result<Vec<u8>, ArchiveError>) -> Result<
    Seq<u8>,
    ErrorView,
> {
    match result {
        Ok(stream) => Ok(stream@),
        Err(error) => Err(error@),
    }
}

/// The empty string literal holds no character.
pub proof fn lemma_empty_text()
    ensures
        ""@ == Seq::<char>::empty(),
{
    reveal_strlit("");
    assert(""@ =~= Seq::<char>::empty());
}

/// The fixed words that open the message of each kind of failure.
pub open spec fn kind_label(kind: ErrorKind) -> Seq<char> {
    match kind {
        ErrorKind::ConfigRead => "cannot read configuration"@,
        ErrorKind::ConfigParse => "malformed configuration"@,
        ErrorKind::NoArchives => "no archives configured"@,
        ErrorKind::PathExpansion => "cannot expand path"@,
        ErrorKind::DirectoryRead => "cannot read directory"@,
        ErrorKind::EntryRead => "cannot archive entry"@,
        ErrorKind::Encoding => "cannot encode archive"@,
        ErrorKind::FileCreate => "cannot create file"@,
        ErrorKind::DestinationUnavailable => "destination directory is missing"@,
    }
}

/// `text` behind a colon and a space, or nothing where `text` is empty.
pub open spec fn clause(text: Seq<char>) -> Seq<char> {
    if text.len() == 0 {
        text
    } else {
        ": "@ + text
    }
}

/// The message of a failure: the label of its kind, then the job, the path
/// and the detail, each behind a colon where it is not empty.
pub open spec fn message_of(e: ErrorView) -> Seq<char> {
    kind_label(e.kind) + clause(e.job) + clause(e.path) + clause(e.detail)
}

/// Whether `part` stands somewhere in `text`.
pub open spec fn occurs_in(part: Seq<char>, text: Seq<char>) -> bool {
    exists|from: int, to: int|
        0 <= from <= to <= text.len() && #[trigger] text.subrange(from, to) == part
}

/// The message of a failure names what is needed to act on it: it opens
/// with the label of the kind and holds the job, the path and the detail.
pub proof fn lemma_message_names_context(e: ErrorView)
    ensures
        message_of(e).take(kind_label(e.kind).len() as int) == kind_label(e.kind),
        occurs_in(e.job, message_of(e)),
        occurs_in(e.path, message_of(e)),
        occurs_in(e.detail, message_of(e)),
{
    reveal_strlit(": ");
    let label = kind_label(e.kind);
    let message = message_of(e);
    let job = label.len() + clause(e.job).len();
    let path = job + clause(e.path).len();
    let end = path + clause(e.detail).len();
    assert(message.take(label.len() as int) =~= label);
    assert(message.subrange(job - e.job.len(), job as int) =~= e.job);
    assert(message.subrange(path - e.path.len(), path as int) =~= e.path);
    assert(message.subrange(end - e.detail.len(), end as int) =~= e.detail);
}

/// The label of a kind of failure.
fn label(kind: ErrorKind) -> (text: &'static str)
    ensures
        text@ == kind_label(kind),
{
    match kind {
        ErrorKind::ConfigRead => "cannot read configuration",
        ErrorKind::ConfigParse => "malformed configuration",
        ErrorKind::NoArchives => "no archives configured",
        ErrorKind::PathExpansion => "cannot expand path",
        ErrorKind::DirectoryRead => "cannot read directory",
        ErrorKind::EntryRead => "cannot archive entry",
        ErrorKind::Encoding => "cannot encode archive",
        ErrorKind::FileCreate => "cannot create file",
        ErrorKind::DestinationUnavailable => "destination directory is missing",
    }
}

/// Appends `text` behind a colon, or nothing where `text` is empty.
fn push_clause(message: &mut String, text: &str)
    ensures
        final(message)@ == old(message)@ + clause(text@),
{
    if text.unicode_len() > 0 {
        message.append(": ");
        message.append(text);
        assert(message@ =~= old(message)@ + (": "@ + text@));
    } else {
        assert(message@ =~= old(message)@ + text@);
    }
}

/// The text of an error of the standard library's input and output, which
/// is what the encoders of `tar` and `flate2` report.
fn describe(error: &std::io::Error) -> (text: String)
    ensures
        is_text_of(error, text),
{
    error.to_string()
}

/// Whether `text` is what `error` shows of itself: the string that its
/// `Display` writes, as `to_string` returns it.
pub open spec fn is_text_of(error: &std::io::Error, text: String) -> bool {
    vstd::string::to_string_from_display_ensures::<std::io::Error>(error, text)
}

impl ArchiveError {
    /// A failure of the given kind with its context.
    pub fn new(kind: ErrorKind, job: &str, path: &str, detail: &str) -> (e: ArchiveError)
        ensures
            e@ == (ErrorView { kind, job: job@, path: path@, detail: detail@ }),
    {
        ArchiveError {
            kind,
            job: String::from_str(job),
            path: String::from_str(path),
            detail: String::from_str(detail),
        }
    }

    /// A failure of the given kind at `path`, outside any job, with the text
    /// of `error` as its detail.
    pub fn from_io(kind: ErrorKind, path: &str, error: &std::io::Error) -> (e: ArchiveError)
        ensures
            e@.kind == kind,
            e@.job == Seq::<char>::empty(),
            e@.path == path@,
            is_text_of(error, e.detail),
    {
        ArchiveError {
            kind,
            job: String::new(),
            path: String::from_str(path),
            detail: describe(error),
        }
    }

    /// The failure of writing an archive to `path`. Where the directory
    /// that should receive the file does not exist, the destination is
    /// unavailable; any other failure is one of creating the file.
    pub fn write_failure(path: &str, directory_exists: bool, detail: &str) -> (e: ArchiveError)
        ensures
            e@ == (ErrorView {
                kind: if directory_exists {
                    ErrorKind::FileCreate
                } else {
                    ErrorKind::DestinationUnavailable
                },
                job: Seq::empty(),
                path: path@,
                detail: detail@,
            }),
    {
        proof {
            lemma_empty_text();
        }
        let kind = if directory_exists {
            ErrorKind::FileCreate
        } else {
            ErrorKind::DestinationUnavailable
        };
        ArchiveError::new(kind, "", path, detail)
    }

    /// The single line shown to the user.
    pub fn message(&self) -> (text: String)
        ensures
            text@ == message_of(self@),
    {
        let mut text = String::from_str(label(self.kind));
        push_clause(&mut text, self.job.as_str());
        push_clause(&mut text, self.path.as_str());
        push_clause(&mut text, self.detail.as_str());
        text
    }

    /// The same failure, attributed to the job named `job`.
    pub fn in_job(self, job: &str) -> (e: ArchiveError)
        ensures
            e@ == (ErrorView { job: job@, ..self@ }),
    {
        ArchiveError {
            kind: self.kind,
            job: String::from_str(job),
            path: self.path,
            detail: self.detail,
        }
    }
}

} // verus!
