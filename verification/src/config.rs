use vstd::prelude::*;

use crate::resolver::{is_valid_file_name, valid_file_name};

verus! {

/// One archiving job as the configuration gives it: a name, the directory to
/// archive and the directory that receives the archive. The two paths may
/// use `~` and `$VAR` shorthand.
#[derive(Debug)]
pub struct Archive {
    name: String,
    input: String,
    output: String,
}

/// An [`Archive`] as plain values.
pub struct ArchiveView {
    pub name: Seq<char>,
    pub input: Seq<char>,
    pub output: Seq<char>,
}

impl View for Archive {
    type V = ArchiveView;

    closed spec fn view(&self) -> ArchiveView {
        ArchiveView { name: self.name@, input: self.input@, output: self.output@ }
    }
}

/// A descriptor is well formed when none of its fields is empty and its
/// name can stand as one component of a path.
pub open spec fn well_formed(archive: ArchiveView) -> bool {
    &&& valid_file_name(archive.name)
    &&& archive.input.len() > 0
    &&& archive.output.len() > 0
}

impl Archive {
    /// A descriptor with the given fields, taken as they are.
    pub fn new(name: String, input: String, output: String) -> (archive: Self)
        ensures
            archive@ == (ArchiveView { name: name@, input: input@, output: output@ }),
    {
        Self { name, input, output }
    }

    /// The name of the job.
    pub fn get_name(&self) -> (name: &str)
        ensures
            name@ == self@.name,
    {
        self.name.as_str()
    }

    /// The directory to archive, as the configuration spells it.
    pub fn get_input(&self) -> (input: &str)
        ensures
            input@ == self@.input,
    {
        self.input.as_str()
    }

    /// The directory that receives the archive, as the configuration
    /// spells it.
    pub fn get_output(&self) -> (output: &str)
        ensures
            output@ == self@.output,
    {
        self.output.as_str()
    }

    /// Whether the descriptor is well formed.
    pub fn is_well_formed(&self) -> (valid: bool)
        ensures
            valid == well_formed(self@),
    {
        is_valid_file_name(self.name.as_str()) && self.input.as_str().unicode_len() > 0
            && self.output.as_str().unicode_len() > 0
    }

    /// A copy of this descriptor.
    pub fn duplicate(&self) -> (copy: Archive)
        ensures
            copy@ == self@,
    {
        Archive { name: self.name.clone(), input: self.input.clone(), output: self.output.clone() }
    }
}

/// The descriptors of a list as plain values, in the order of the list.
pub open spec fn archive_views(archives: Seq<Archive>) -> Seq<ArchiveView> {
    archives.map_values(|archive: Archive| archive@)
}

/// What the configuration file holds: the list of jobs, if it gives one.
#[derive(Debug)]
pub struct Config {
    archives: Option<Vec<Archive>>,
}

impl View for Config {
    type V = Option<Seq<ArchiveView>>;

    closed spec fn view(&self) -> Option<Seq<ArchiveView>> {
        match self.archives {
            Some(archives) => Some(archive_views(archives@)),
            None => None,
        }
    }
}

impl Config {
    /// A configuration with the given list of jobs, or with none.
    pub fn new(archives: Option<Vec<Archive>>) -> (config: Config)
        ensures
            config@ == match archives {
                Some(list) => Some(archive_views(list@)),
                None => None,
            },
    {
        Config { archives }
    }

    /// The list of jobs, taken out of the configuration.
    pub fn into_archives(self) -> (archives: Option<Vec<Archive>>)
        ensures
            self@ == match archives {
                Some(list) => Some(archive_views(list@)),
                None => None::<Seq<ArchiveView>>,
            },
    {
        self.archives
    }
}

/// The jobs of a configuration in the order in which it lists them, or
/// `None` where it has no `archives` key. An empty list is a list.
pub fn parse_archives(config: &Config) -> (archives: Option<&Vec<Archive>>)
    ensures
        config@ == match archives {
            Some(list) => Some(archive_views(list@)),
            None => None::<Seq<ArchiveView>>,
        },
{
    config.archives.as_ref()
}

/// The index of the first descriptor that is not well formed, if any.
pub open spec fn first_malformed(archives: Seq<ArchiveView>) -> Option<int>
    decreases archives.len(),
{
    if archives.len() == 0 {
        None
    } else {
        match first_malformed(archives.drop_last()) {
            Some(i) => Some(i),
            None => if well_formed(archives.last()) {
                None
            } else {
                Some(archives.len() - 1)
            },
        }
    }
}

/// [`first_malformed`] is the least index of a descriptor that is not well
/// formed, and `None` exactly when all are.
pub proof fn lemma_first_malformed(archives: Seq<ArchiveView>)
    ensures
        match first_malformed(archives) {
            Some(i) => {
                &&& 0 <= i < archives.len()
                &&& !well_formed(archives[i])
                &&& forall|j: int| 0 <= j < i ==> well_formed(#[trigger] archives[j])
            },
            None => forall|j: int| 0 <= j < archives.len() ==> well_formed(#[trigger] archives[j]),
        },
    decreases archives.len(),
{
    if archives.len() > 0 {
        let rest = archives.drop_last();
        lemma_first_malformed(rest);
        match first_malformed(rest) {
            Some(i) => {
                assert(rest[i] == archives[i]);
                assert forall|j: int| 0 <= j < i implies well_formed(#[trigger] archives[j]) by {
                    assert(rest[j] == archives[j]);
                }
            },
            None => {
                assert forall|j: int| 0 <= j < rest.len() implies well_formed(
                    #[trigger] archives[j],
                ) by {
                    assert(rest[j] == archives[j]);
                }
            },
        }
    }
}

/// Finds the first descriptor of `archives` that is not well formed.
pub fn find_malformed(archives: &Vec<Archive>) -> (found: Option<usize>)
    ensures
        match found {
            Some(i) => first_malformed(archive_views(archives@)) == Some(i as int),
            None => first_malformed(archive_views(archives@)) is None,
        },
{
    let ghost all = archive_views(archives@);
    let mut i: usize = 0;
    while i < archives.len()
        invariant
            i <= archives.len(),
            all == archive_views(archives@),
            forall|j: int| 0 <= j < i ==> well_formed(#[trigger] all[j]),
        decreases archives.len() - i,
    {
        if !archives[i].is_well_formed() {
            proof {
                lemma_first_malformed(all);
                assert(!well_formed(all[i as int]));
            }
            return Some(i);
        }
        i = i + 1;
    }
    proof {
        lemma_first_malformed(all);
    }
    None
}

} // verus!
