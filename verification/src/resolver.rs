use vstd::prelude::*;

use crate::config::{Archive, ArchiveView};
use crate::error::{ArchiveError, ErrorKind, ErrorView};

verus! {

/// The index of the last occurrence of `c` in `s`, or -1 where there is none.
pub open spec fn last_index_of(s: Seq<char>, c: char) -> int
    decreases s.len(),
{
    if s.len() == 0 {
        -1
    } else if s.last() == c {
        s.len() - 1
    } else {
        last_index_of(s.drop_last(), c)
    }
}

/// The extension that every archive file carries, with its leading dot.
pub open spec fn archive_extension() -> Seq<char> {
    seq!['.', 't', 'a', 'r', '.', 'g', 'z']
}

/// A name without its extension: what stands before its last dot. A name
/// whose only dot is its first character has no extension.
pub open spec fn stem(name: Seq<char>) -> Seq<char> {
    let dot = last_index_of(name, '.');
    if dot > 0 {
        name.take(dot)
    } else {
        name
    }
}

/// The file name of the archive of the job called `name`.
pub open spec fn archive_file_name(name: Seq<char>) -> Seq<char> {
    stem(name) + archive_extension()
}

/// `file` placed in the directory `dir`: one separator stands between
/// them unless `dir` is empty or already ends in one.
pub open spec fn join(dir: Seq<char>, file: Seq<char>) -> Seq<char> {
    if dir.len() == 0 {
        file
    } else if dir.last() == '/' {
        dir + file
    } else {
        dir + seq!['/'] + file
    }
}

/// Where the archive of the job called `name` is written, given the
/// expanded output directory.
pub open spec fn output_path(dir: Seq<char>, name: Seq<char>) -> Seq<char> {
    join(dir, archive_file_name(name))
}

/// What follows the last separator of a path.
pub open spec fn final_component(path: Seq<char>) -> Seq<char> {
    path.skip(last_index_of(path, '/') + 1)
}

/// A path up to and including its last separator.
pub open spec fn directory_part(path: Seq<char>) -> Seq<char> {
    path.take(last_index_of(path, '/') + 1)
}

/// A name that can stand as one component of a path.
pub open spec fn valid_file_name(name: Seq<char>) -> bool {
    &&& name.len() > 0
    &&& !name.contains('/')
    &&& !name.contains('\0')
    &&& name != seq!['.']
    &&& name != seq!['.', '.']
}

/// [`last_index_of`] is the index of an occurrence of `c` behind which
/// there is no other, and -1 exactly where `c` does not occur.
pub proof fn lemma_last_index_bounds(s: Seq<char>, c: char)
    ensures
        -1 <= last_index_of(s, c) < s.len(),
        last_index_of(s, c) >= 0 ==> s[last_index_of(s, c)] == c,
        last_index_of(s, c) == -1 <==> !s.contains(c),
        forall|i: int| last_index_of(s, c) < i < s.len() ==> s[i] != c,
    decreases s.len(),
{
    if s.len() > 0 {
        lemma_last_index_bounds(s.drop_last(), c);
        if s.last() != c {
            let t = s.drop_last();
            assert forall|i: int| last_index_of(s, c) < i < s.len() implies s[i] != c by {
                if i < t.len() {
                    assert(t[i] == s[i]);
                }
            }
            if t.contains(c) {
                let j = choose|j: int| 0 <= j < t.len() && t[j] == c;
                assert(s[j] == c);
            }
            if s.contains(c) {
                let j = choose|j: int| 0 <= j < s.len() && s[j] == c;
                assert(t[j] == c);
            }
        }
    }
}

/// Appending text that holds no `c` leaves the last `c` where it was.
pub proof fn lemma_last_index_append(a: Seq<char>, b: Seq<char>, c: char)
    requires
        !b.contains(c),
    ensures
        last_index_of(a + b, c) == last_index_of(a, c),
    decreases b.len(),
{
    if b.len() == 0 {
        assert(a + b =~= a);
    } else {
        let s = a + b;
        assert(s.last() == b.last());
        assert(b[b.len() - 1] == b.last());
        assert(s.drop_last() =~= a + b.drop_last());
        assert forall|i: int| 0 <= i < b.drop_last().len() implies b.drop_last()[i] != c by {
            assert(b[i] == b.drop_last()[i]);
        }
        lemma_last_index_append(a, b.drop_last(), c);
    }
}

/// The archive's file name is one component: it holds no separator
/// whenever the job's name holds none.
pub proof fn lemma_file_name_is_one_component(name: Seq<char>)
    requires
        !name.contains('/'),
    ensures
        !archive_file_name(name).contains('/'),
        archive_file_name(name).len() >= 7,
{
    lemma_last_index_bounds(name, '.');
    let file = archive_file_name(name);
    let st = stem(name);
    assert forall|i: int| 0 <= i < file.len() implies file[i] != '/' by {
        if i < st.len() {
            assert(st[i] == name[i]);
            assert(name.contains(name[i]));
        } else {
            assert(file[i] == archive_extension()[i - st.len()]);
        }
    }
}

/// The archive of a job whose name is one path component lies directly in
/// the output directory: the final component of its path is the job's name
/// with the extension set to `.tar.gz`, and what stands before it is the
/// output directory and one separator, with no segment in between.
pub proof fn lemma_output_directly_under_directory(dir: Seq<char>, name: Seq<char>)
    requires
        !name.contains('/'),
    ensures
        final_component(output_path(dir, name)) == archive_file_name(name),
        directory_part(output_path(dir, name)) == join(dir, Seq::<char>::empty()),
{
    let file = archive_file_name(name);
    lemma_file_name_is_one_component(name);
    let path = output_path(dir, name);
    let head = join(dir, Seq::<char>::empty());
    assert(path =~= head + file);
    lemma_last_index_append(head, file, '/');
    if dir.len() == 0 {
        assert(head =~= Seq::<char>::empty());
    } else {
        assert(head.last() == '/');
        assert(last_index_of(head, '/') == head.len() - 1);
    }
    assert(final_component(path) =~= file);
    assert(directory_part(path) =~= head);
}

/// The index of the last `c` in `text`, if there is one.
fn find_last(text: &str, c: char) -> (found: Option<usize>)
    ensures
        match found {
            Some(i) => i == last_index_of(text@, c),
            None => last_index_of(text@, c) == -1,
        },
{
    let length = text.unicode_len();
    let mut found: Option<usize> = None;
    let mut i: usize = 0;
    for x in it: text.chars()
        invariant
            it.seq() == text@,
            i == it.index(),
            length == text@.len(),
            match found {
                Some(k) => k == last_index_of(text@.take(i as int), c),
                None => last_index_of(text@.take(i as int), c) == -1,
            },
    {
        proof {
            let next = text@.take(i + 1);
            assert(next.drop_last() =~= text@.take(i as int));
            assert(next.last() == text@[i as int]);
        }
        if x == c {
            found = Some(i);
        }
        i = i + 1;
    }
    assert(text@.take(i as int) =~= text@);
    found
}

/// Whether `text` holds the character `c`.
fn holds(text: &str, c: char) -> (found: bool)
    ensures
        found == text@.contains(c),
{
    proof {
        lemma_last_index_bounds(text@, c);
    }
    find_last(text, c).is_some()
}

/// Whether `name` can stand as one component of a path.
pub fn is_valid_file_name(name: &str) -> (valid: bool)
    ensures
        valid == valid_file_name(name@),
{
    let length = name.unicode_len();
    if length == 0 || holds(name, '/') || holds(name, '\0') {
        return false;
    }
    if name.get_char(0) != '.' {
        return true;
    }
    if length == 1 {
        assert(name@ =~= seq!['.']);
        return false;
    }
    if length == 2 && name.get_char(1) == '.' {
        assert(name@ =~= seq!['.', '.']);
        return false;
    }
    assert(name@ != seq!['.', '.']) by {
        if length == 2 {
            assert(seq!['.', '.'][1] == '.');
        }
    }
    true
}

/// `file` placed in the directory `dir`.
pub fn join_path(dir: &str, file: &str) -> (path: String)
    ensures
        path@ == join(dir@, file@),
{
    let length = dir.unicode_len();
    let mut path = String::from_str(dir);
    if length > 0 && dir.get_char(length - 1) != '/' {
        proof {
            reveal_strlit("/");
        }
        path.append("/");
        assert("/"@ =~= seq!['/']);
    }
    path.append(file);
    assert(path@ =~= join(dir@, file@));
    path
}

/// The file name of the archive of the job called `name`: the name with its
/// extension, if it has one, replaced by `.tar.gz`.
pub fn archive_file(name: &str) -> (file: String)
    ensures
        file@ == archive_file_name(name@),
{
    proof {
        lemma_last_index_bounds(name@, '.');
        reveal_strlit(".tar.gz");
    }
    let mut file = match find_last(name, '.') {
        Some(dot) if dot > 0 => String::from_str(name.substring_char(0, dot)),
        _ => String::from_str(name),
    };
    file.append(".tar.gz");
    assert(".tar.gz"@ =~= archive_extension());
    file
}

/// Where the archive of the job called `name` is written: directly in the
/// expanded output directory `dir`, under the job's name with the extension
/// set to `.tar.gz`.
pub fn output_file_path(dir: &str, name: &str) -> (path: String)
    ensures
        path@ == output_path(dir@, name@),
{
    let file = archive_file(name);
    join_path(dir, file.as_str())
}

/// Whether `text` ends with `tail`.
pub open spec fn ends_with(text: Seq<char>, tail: Seq<char>) -> bool {
    tail.len() <= text.len() && text.skip(text.len() - tail.len()) == tail
}

/// What holds of the expansion of `path` in every environment. A path
/// without `$` is never rewritten but at a leading `~`, which is either kept
/// or replaced by the home directory; of a path that refers to variables
/// nothing is known beforehand.
pub open spec fn expansion_of(path: Seq<char>, expanded: Seq<char>) -> bool {
    !path.contains('$') ==> if path.len() > 0 && path[0] == '~' {
        expanded == path || ends_with(expanded, path.skip(1))
    } else {
        expanded == path
    }
}

/// Expands a leading `~` and the `$VAR` and `${VAR}` references of `path`
/// by calling `shellexpand::full`, which reads the home directory and the
/// process environment. On failure the text of the lookup error is returned.
///
/// Trusted: a path without `$` always expands, and [`expansion_of`] holds of
/// the result. In `shellexpand` only a variable lookup can fail, a path
/// without `$` is handed to the tilde expansion unchanged, and that either
/// returns its input or puts the home directory in place of the first
/// character.
#[verifier::external_body]
fn expand_path(path: &str) -> (expanded: Result<String, String>)
    ensures
        expanded is Ok ==> expansion_of(path@, expanded->Ok_0@),
        !path@.contains('$') ==> expanded is Ok,
{
    match shellexpand::full(path) {
        Ok(text) => Ok(text.into_owned()),
        Err(error) => Err(error.to_string()),
    }
}

/// The descriptor that results from `archive` once its two paths have been
/// expanded, or the failure of the first expansion that failed.
pub open spec fn expanded_archive(
    archive: ArchiveView,
    input: Result<Seq<char>, Seq<char>>,
    output: Result<Seq<char>, Seq<char>>,
) -> Result<ArchiveView, ErrorView> {
    match (input, output) {
        (Err(detail), _) => Err(
            ErrorView {
                kind: ErrorKind::PathExpansion,
                job: archive.name,
                path: archive.input,
                detail,
            },
        ),
        (Ok(_), Err(detail)) => Err(
            ErrorView {
                kind: ErrorKind::PathExpansion,
                job: archive.name,
                path: archive.output,
                detail,
            },
        ),
        (Ok(input), Ok(output)) => Ok(
            ArchiveView { name: archive.name, input, output },
        ),
    }
}

/// The outcome of an expansion as plain values.
pub open spec fn outcome_view(outcome: Result<String, String>) -> Result<Seq<char>, Seq<char>> {
    match outcome {
        Ok(text) => Ok(text@),
        Err(detail) => Err(detail@),
    }
}

/// The outcome of resolving a descriptor as plain values.
pub open spec fn archive_result_view(result: Result<Archive, ArchiveError>) -> Result<
    ArchiveView,
    ErrorView,
> {
    match result {
        Ok(archive) => Ok(archive@),
        Err(error) => Err(error@),
    }
}

/// Puts the expansions of the two paths of `archive` in their place. A
/// failed expansion of the input path is reported before one of the output
/// path.
pub fn with_expansions(
    archive: &Archive,
    input: Result<String, String>,
    output: Result<String, String>,
) -> (result: Result<Archive, ArchiveError>)
    ensures
        archive_result_view(result) == expanded_archive(
            archive@,
            outcome_view(input),
            outcome_view(output),
        ),
{
    let name = archive.get_name();
    match input {
        Err(detail) => Err(
            ArchiveError::new(ErrorKind::PathExpansion, name, archive.get_input(), detail.as_str()),
        ),
        Ok(input) => match output {
            Err(detail) => Err(
                ArchiveError::new(
                    ErrorKind::PathExpansion,
                    name,
                    archive.get_output(),
                    detail.as_str(),
                ),
            ),
            Ok(output) => Ok(Archive::new(String::from_str(name), input, output)),
        },
    }
}

/// Expands the shorthand in the two paths of `archive`. The name is kept.
///
/// The expansion reads the environment, so the contract states what holds in
/// every environment: a descriptor whose paths hold no `$` always expands,
/// and a failure names a path that holds one.
pub fn expand_archive(archive: &Archive) -> (result: Result<Archive, ArchiveError>)
    ensures
        match result {
            Ok(expanded) => {
                &&& expanded@.name == archive@.name
                &&& expansion_of(archive@.input, expanded@.input)
                &&& expansion_of(archive@.output, expanded@.output)
            },
            Err(error) => {
                &&& error@.kind == ErrorKind::PathExpansion
                &&& error@.job == archive@.name
                &&& (error@.path == archive@.input && archive@.input.contains('$'))
                    || (error@.path == archive@.output && archive@.output.contains('$'))
            },
        },
        !archive@.input.contains('$') && !archive@.output.contains('$') ==> result is Ok,
{
    let input = expand_path(archive.get_input());
    let output = expand_path(archive.get_output());
    with_expansions(archive, input, output)
}

/// The two paths that one job works on.
#[derive(Debug)]
pub struct ResolvedArchivePaths {
    /// The directory to archive.
    pub input: String,
    /// The file that receives the archive.
    pub output: String,
}

/// [`ResolvedArchivePaths`] as plain values.
pub struct PathsView {
    pub input: Seq<char>,
    pub output: Seq<char>,
}

impl View for ResolvedArchivePaths {
    type V = PathsView;

    open spec fn view(&self) -> PathsView {
        PathsView { input: self.input@, output: self.output@ }
    }
}

/// The paths of a job whose descriptor has been expanded: the input
/// directory as it stands, and the archive file in the output directory.
pub open spec fn paths_of(expanded: ArchiveView) -> PathsView {
    PathsView { input: expanded.input, output: output_path(expanded.output, expanded.name) }
}

/// The paths of a job whose descriptor has been expanded.
pub fn resolved_paths(expanded: &Archive) -> (paths: ResolvedArchivePaths)
    ensures
        paths@ == paths_of(expanded@),
{
    ResolvedArchivePaths {
        input: String::from_str(expanded.get_input()),
        output: output_file_path(expanded.get_output(), expanded.get_name()),
    }
}

/// The outcome of resolving a descriptor, as plain values.
pub open spec fn paths_result_view(result: Result<ResolvedArchivePaths, ArchiveError>) -> Result<
    PathsView,
    ErrorView,
> {
    match result {
        Ok(paths) => Ok(paths@),
        Err(error) => Err(error@),
    }
}

/// What holds of resolving `descriptor` in every environment. The input
/// is an expansion of the descriptor's input; the output is
/// [`output_path`] of the descriptor's name in an expansion of its output
/// directory. A failure is one of expansion, names the job and a path that
/// refers to a variable; without such a path, resolving succeeds.
pub open spec fn resolution_of(
    descriptor: ArchiveView,
    result: Result<PathsView, ErrorView>,
) -> bool {
    &&& match result {
        Ok(paths) => {
            &&& expansion_of(descriptor.input, paths.input)
            &&& exists|dir: Seq<char>|
                expansion_of(descriptor.output, dir) && paths.output == output_path(
                    dir,
                    descriptor.name,
                )
        },
        Err(error) => {
            &&& error.kind == ErrorKind::PathExpansion
            &&& error.job == descriptor.name
            &&& (error.path == descriptor.input && descriptor.input.contains('$')) || (error.path
                == descriptor.output && descriptor.output.contains('$'))
        },
    }
    &&& !descriptor.input.contains('$') && !descriptor.output.contains('$') ==> result is Ok
}

/// Resolves a descriptor to the directory to read and the file to write.
/// Nothing on disk is touched.
///
/// A descriptor whose paths hold neither `$` nor a leading `~` resolves to
/// its own input and to [`output_path`] of its own output directory and
/// name. With shorthand, the paths are those of some expansion that
/// [`expansion_of`] admits.
pub fn resolve(descriptor: &Archive) -> (result: Result<ResolvedArchivePaths, ArchiveError>)
    ensures
        resolution_of(descriptor@, paths_result_view(result)),
{
    match expand_archive(descriptor) {
        Ok(expanded) => Ok(resolved_paths(&expanded)),
        Err(error) => Err(error),
    }
}

/// A descriptor without shorthand resolves to its own input and to the
/// archive file in its own output directory.
pub proof fn lemma_literal_resolution(descriptor: ArchiveView, result: Result<PathsView, ErrorView>)
    requires
        resolution_of(descriptor, result),
        !descriptor.input.contains('$'),
        !descriptor.output.contains('$'),
        descriptor.input.len() == 0 || descriptor.input[0] != '~',
        descriptor.output.len() == 0 || descriptor.output[0] != '~',
    ensures
        result == Ok::<PathsView, ErrorView>(paths_of(descriptor)),
{
}

/// The name of the configuration file inside the configuration directory.
pub open spec fn config_file_name() -> Seq<char> {
    "config.toml"@
}

/// The configuration file inside the configuration directory `dir`.
pub fn config_file_in(dir: &str) -> (path: String)
    ensures
        path@ == join(dir@, config_file_name()),
{
    join_path(dir, "config.toml")
}

/// The per-user configuration directory of the project, from
/// `directories::ProjectDirs::from` and `ProjectDirs::config_dir`, or `None`
/// where no home directory is known or the directory is not valid Unicode.
/// The result depends on the environment: nothing is claimed of it.
#[verifier::external_body]
fn project_config_dir(qualifier: &str, organization: &str, application: &str) -> (dir: Option<
    String,
>) {
    let dirs = directories::ProjectDirs::from(qualifier, organization, application)?;
    Some(dirs.config_dir().to_str()?.to_owned())
}

/// The names under which the platform files the project: a qualifier, an
/// organization and an application.
pub struct ProjectNames {
    pub qualifier: &'static str,
    pub organization: &'static str,
    pub application: &'static str,
}

/// The names of this project as plain values: no qualifier, no
/// organization, and the application `arkaive`.
pub open spec fn project_names() -> (Seq<char>, Seq<char>, Seq<char>) {
    (Seq::empty(), Seq::empty(), "arkaive"@)
}

/// The names that the platform is asked with for the configuration
/// directory.
pub fn project() -> (names: ProjectNames)
    ensures
        (names.qualifier@, names.organization@, names.application@) == project_names(),
{
    proof {
        crate::error::lemma_empty_text();
    }
    ProjectNames { qualifier: "", organization: "", application: "arkaive" }
}

/// Where the configuration is read from: `config.toml` in the per-user
/// configuration directory that the platform gives for [`project`], or
/// `None` where it gives none.
pub fn config_file_path() -> (path: Option<String>)
    ensures
        path is Some ==> exists|dir: Seq<char>| path->0@ == join(dir, config_file_name()),
{
    let names = project();
    config_file_from(
        project_config_dir(names.qualifier, names.organization, names.application),
    )
}

/// The configuration file, given the configuration directory that the
/// platform gave: `config.toml` inside it, or `None` where it gave none.
pub fn config_file_from(dir: Option<String>) -> (path: Option<String>)
    ensures
        match dir {
            Some(dir) => path is Some && path->0@ == join(dir@, config_file_name()),
            None => path is None,
        },
{
    match dir {
        Some(dir) => Some(config_file_in(dir.as_str())),
        None => None,
    }
}

} // verus!
