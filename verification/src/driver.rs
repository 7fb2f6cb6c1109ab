use vstd::prelude::*;

use crate::builder::{archive_of, arranged, make_tar_from_dir, tar_stream, unfit};
use crate::compressor::{
    compress_data, compressed_archive_of, compression_of, gzip_fails, gzip_stream,
    lemma_compressed_when_fit, Compression,
};
use crate::config::{archive_views, find_malformed, first_malformed, Archive, ArchiveView, Config};
use crate::error::{stream_result_view, ArchiveError, ErrorKind, ErrorView};
use crate::resolver::{
    paths_result_view, resolution_of, resolve, PathsView, ResolvedArchivePaths,
};
use crate::tree::{entry_views, EntryView, TreeEntry};

verus! {

/// Where a run stands.
#[derive(Clone, Copy, Debug, PartialEq, Eq, Structural)]
pub enum Stage {
    /// Nothing has happened yet.
    Idle,
    /// The configuration is being read.
    Loading,
    /// The paths of the current job are being resolved.
    Resolving,
    /// Building, first half: the tree of the current job is being read.
    Reading,
    /// Building, second half: the tree is being serialized.
    Serializing,
    /// Compressing, first half: the archive is being wrapped in gzip.
    Compressing,
    /// Compressing, second half: the stream is being written to its file.
    Writing,
    /// Every job is done.
    Finished,
    /// A failure has ended the run.
    Failed,
}

/// What the driver asks for next. Reading the configuration, reading a
/// tree and writing a file are work for the outside world; resolving,
/// serializing and compressing are done by [`perform`].
#[derive(Debug)]
pub enum Action {
    /// Read the configuration at `path`.
    LoadConfig { path: String },
    /// Resolve the paths of `job`.
    Resolve { job: Archive },
    /// Read the tree below the directory `input`.
    ReadTree { input: String },
    /// Serialize the tree into a tar archive.
    Serialize { entries: Vec<TreeEntry> },
    /// Wrap the archive in gzip at `level`.
    Compress { tar: Vec<u8>, level: Compression },
    /// Create the file `output` and write `stream` to it.
    Write { output: String, stream: Vec<u8> },
    /// End the run with success.
    Done,
    /// End the run with this failure.
    Abort(ArchiveError),
}

/// What has happened: how the last action ended.
#[derive(Debug)]
pub enum Event {
    /// The run begins.
    Start,
    /// The configuration was read, or could not be.
    Loaded(Result<Config, ArchiveError>),
    /// The paths were resolved, or could not be.
    Resolved(Result<ResolvedArchivePaths, ArchiveError>),
    /// The tree was read, or could not be.
    Tree(Result<Vec<TreeEntry>, ArchiveError>),
    /// The tree was serialized into this archive, or could not be.
    Serialized(Result<Vec<u8>, ArchiveError>),
    /// The archive was compressed into this stream, or could not be.
    Compressed(Result<Vec<u8>, ArchiveError>),
    /// The stream was written, or could not be.
    Written(Result<(), ArchiveError>),
}

/// An [`Action`] as plain values.
pub enum ActionView {
    LoadConfig { path: Seq<char> },
    Resolve { job: ArchiveView },
    ReadTree { input: Seq<char> },
    Serialize { entries: Seq<EntryView> },
    Compress { tar: Seq<u8>, level: u32 },
    Write { output: Seq<char>, stream: Seq<u8> },
    Done,
    Abort(ErrorView),
}

/// An [`Event`] as plain values.
pub enum EventView {
    Start,
    Loaded(Result<Option<Seq<ArchiveView>>, ErrorView>),
    Resolved(Result<PathsView, ErrorView>),
    Tree(Result<Seq<EntryView>, ErrorView>),
    Serialized(Result<Seq<u8>, ErrorView>),
    Compressed(Result<Seq<u8>, ErrorView>),
    Written(Result<(), ErrorView>),
}

impl View for Action {
    type V = ActionView;

    open spec fn view(&self) -> ActionView {
        match self {
            Action::LoadConfig { path } => ActionView::LoadConfig { path: path@ },
            Action::Resolve { job } => ActionView::Resolve { job: job@ },
            Action::ReadTree { input } => ActionView::ReadTree { input: input@ },
            Action::Serialize { entries } => ActionView::Serialize {
                entries: entry_views(entries@),
            },
            Action::Compress { tar, level } => ActionView::Compress { tar: tar@, level: level@ },
            Action::Write { output, stream } => ActionView::Write {
                output: output@,
                stream: stream@,
            },
            Action::Done => ActionView::Done,
            Action::Abort(error) => ActionView::Abort(error@),
        }
    }
}

impl View for Event {
    type V = EventView;

    open spec fn view(&self) -> EventView {
        match self {
            Event::Start => EventView::Start,
            Event::Loaded(Ok(config)) => EventView::Loaded(Ok(config@)),
            Event::Loaded(Err(error)) => EventView::Loaded(Err(error@)),
            Event::Resolved(result) => EventView::Resolved(paths_result_view(*result)),
            Event::Tree(Ok(entries)) => EventView::Tree(Ok(entry_views(entries@))),
            Event::Tree(Err(error)) => EventView::Tree(Err(error@)),
            Event::Serialized(result) => EventView::Serialized(stream_result_view(*result)),
            Event::Compressed(result) => EventView::Compressed(stream_result_view(*result)),
            Event::Written(Ok(())) => EventView::Written(Ok(())),
            Event::Written(Err(error)) => EventView::Written(Err(error@)),
        }
    }
}

/// The state of a run: the jobs in the order of the configuration, the
/// index of the one at work, and the file that its archive goes to.
pub struct Driver {
    config_path: String,
    level: Compression,
    jobs: Vec<Archive>,
    current: usize,
    output: String,
    stage: Stage,
}

/// A [`Driver`] as plain values.
pub struct DriverView {
    pub config_path: Seq<char>,
    pub level: u32,
    pub jobs: Seq<ArchiveView>,
    pub current: nat,
    pub output: Seq<char>,
    pub stage: Stage,
}

/// Whether a job is at work in this stage.
pub open spec fn at_work(stage: Stage) -> bool {
    stage == Stage::Resolving || stage == Stage::Reading || stage == Stage::Serializing || stage
        == Stage::Compressing || stage == Stage::Writing
}

/// Whether the run has ended.
pub open spec fn stopped(stage: Stage) -> bool {
    stage == Stage::Finished || stage == Stage::Failed
}

/// While a job is at work it is one of the jobs of the configuration.
pub open spec fn consistent(d: DriverView) -> bool {
    at_work(d.stage) ==> d.current < d.jobs.len()
}

/// The failure of a configuration without an `archives` key.
pub open spec fn no_archives(config_path: Seq<char>) -> ErrorView {
    ErrorView {
        kind: ErrorKind::NoArchives,
        job: Seq::empty(),
        path: config_path,
        detail: Seq::empty(),
    }
}

/// The failure of a configuration with a descriptor that is not well formed.
pub open spec fn malformed(config_path: Seq<char>, job: Seq<char>) -> ErrorView {
    ErrorView { kind: ErrorKind::ConfigParse, job, path: config_path, detail: Seq::empty() }
}

/// The run turns to the job at `index`, or ends where there is none.
pub open spec fn begin_job(d: DriverView, index: nat) -> (DriverView, ActionView) {
    if index < d.jobs.len() {
        (
            DriverView { stage: Stage::Resolving, current: index, output: Seq::empty(), ..d },
            ActionView::Resolve { job: d.jobs[index as int] },
        )
    } else {
        (
            DriverView { stage: Stage::Finished, current: index, output: Seq::empty(), ..d },
            ActionView::Done,
        )
    }
}

/// The run ends with `error`.
pub open spec fn fail(d: DriverView, error: ErrorView) -> (DriverView, ActionView) {
    (DriverView { stage: Stage::Failed, ..d }, ActionView::Abort(error))
}

/// The run ends with `error`, which arose in the job at work.
pub open spec fn fail_job(d: DriverView, error: ErrorView) -> (DriverView, ActionView) {
    fail(d, ErrorView { job: d.jobs[d.current as int].name, ..error })
}

/// The state after `event` and the action to take, or `None` where the
/// event is not the answer to what the driver last asked for.
///
/// Jobs are taken in the order of the configuration, each through
/// resolving, reading, serializing, compressing and writing. The first
/// failure ends the run. A configuration without `archives`, or with a
/// descriptor that is not well formed, fails before any job; one with an
/// empty list finishes at once.
pub open spec fn next(d: DriverView, event: EventView) -> Option<(DriverView, ActionView)> {
    match (d.stage, event) {
        (Stage::Idle, EventView::Start) => Some(
            (
                DriverView { stage: Stage::Loading, ..d },
                ActionView::LoadConfig { path: d.config_path },
            ),
        ),
        (Stage::Loading, EventView::Loaded(Err(error))) => Some(fail(d, error)),
        (Stage::Loading, EventView::Loaded(Ok(None))) => Some(fail(d, no_archives(d.config_path))),
        (Stage::Loading, EventView::Loaded(Ok(Some(jobs)))) => match first_malformed(jobs) {
            Some(i) => Some(fail(d, malformed(d.config_path, jobs[i].name))),
            None => Some(begin_job(DriverView { jobs, ..d }, 0)),
        },
        (Stage::Resolving, EventView::Resolved(Ok(paths))) => Some(
            (
                DriverView { stage: Stage::Reading, output: paths.output, ..d },
                ActionView::ReadTree { input: paths.input },
            ),
        ),
        (Stage::Reading, EventView::Tree(Ok(entries))) => Some(
            (DriverView { stage: Stage::Serializing, ..d }, ActionView::Serialize { entries }),
        ),
        (Stage::Serializing, EventView::Serialized(Ok(tar))) => Some(
            (
                DriverView { stage: Stage::Compressing, ..d },
                ActionView::Compress { tar, level: d.level },
            ),
        ),
        (Stage::Compressing, EventView::Compressed(Ok(stream))) => Some(
            (
                DriverView { stage: Stage::Writing, ..d },
                ActionView::Write { output: d.output, stream },
            ),
        ),
        (Stage::Writing, EventView::Written(Ok(_))) => Some(begin_job(d, d.current + 1)),
        (Stage::Resolving, EventView::Resolved(Err(error))) => Some(fail_job(d, error)),
        (Stage::Reading, EventView::Tree(Err(error))) => Some(fail_job(d, error)),
        (Stage::Serializing, EventView::Serialized(Err(error))) => Some(fail_job(d, error)),
        (Stage::Compressing, EventView::Compressed(Err(error))) => Some(fail_job(d, error)),
        (Stage::Writing, EventView::Written(Err(error))) => Some(fail_job(d, error)),
        _ => None,
    }
}

/// The state after a sequence of events, and the actions that were asked
/// for on the way. Events that answer nothing are passed over.
pub open spec fn run(d: DriverView, events: Seq<EventView>) -> (DriverView, Seq<ActionView>)
    decreases events.len(),
{
    if events.len() == 0 {
        (d, Seq::empty())
    } else {
        let (before, actions) = run(d, events.drop_last());
        match next(before, events.last()) {
            Some((after, action)) => (after, actions.push(action)),
            None => (before, actions),
        }
    }
}

/// A step keeps the job at work among the jobs of the configuration.
pub proof fn lemma_step_keeps_consistent(d: DriverView, event: EventView)
    requires
        consistent(d),
        next(d, event) is Some,
    ensures
        ({
            let (state, _) = next(d, event)->0;
            consistent(state)
        }),
{
    if d.stage == Stage::Loading {
        if let EventView::Loaded(Ok(Some(jobs))) = event {
            crate::config::lemma_first_malformed(jobs);
        }
    }
}

/// Once the run has ended, nothing is asked for any more, whatever
/// happens: after a failure no later job is attempted, and nothing is
/// written.
pub proof fn lemma_stopped_run_asks_nothing(d: DriverView, events: Seq<EventView>)
    requires
        stopped(d.stage),
    ensures
        run(d, events) == (d, Seq::<ActionView>::empty()),
    decreases events.len(),
{
    if events.len() > 0 {
        lemma_stopped_run_asks_nothing(d, events.drop_last());
    }
}

/// A configuration without `archives` fails at the start: the only action
/// is to abort, and whatever follows asks for nothing.
pub proof fn lemma_missing_archives_fail(d: DriverView, later: Seq<EventView>)
    requires
        d.stage == Stage::Loading,
    ensures
        next(d, EventView::Loaded(Ok(None))) == Some(fail(d, no_archives(d.config_path))),
        run(fail(d, no_archives(d.config_path)).0, later).1 == Seq::<ActionView>::empty(),
{
    lemma_stopped_run_asks_nothing(fail(d, no_archives(d.config_path)).0, later);
}

/// A configuration with an empty list of archives succeeds at once: the
/// only action is to end the run, and whatever follows asks for nothing.
pub proof fn lemma_empty_list_finishes(d: DriverView, later: Seq<EventView>)
    requires
        d.stage == Stage::Loading,
    ensures
        next(d, EventView::Loaded(Ok(Some(Seq::empty())))) matches Some((state, action))
            && action == ActionView::Done && state.stage == Stage::Finished && run(
            state,
            later,
        ).1 == Seq::<ActionView>::empty(),
{
    let none = Seq::<ArchiveView>::empty();
    let state = begin_job(DriverView { jobs: none, ..d }, 0).0;
    lemma_stopped_run_asks_nothing(state, later);
}

/// The event that reports the failure of the action of a stage.
pub open spec fn failure_event(stage: Stage, error: ErrorView) -> EventView {
    match stage {
        Stage::Resolving => EventView::Resolved(Err(error)),
        Stage::Reading => EventView::Tree(Err(error)),
        Stage::Serializing => EventView::Serialized(Err(error)),
        Stage::Compressing => EventView::Compressed(Err(error)),
        _ => EventView::Written(Err(error)),
    }
}

/// The first failure of a job ends the run: the failure is handed on under
/// the name of the job, and whatever follows asks for nothing, so no later
/// job is attempted.
pub proof fn lemma_job_failure_ends_run(d: DriverView, error: ErrorView, later: Seq<EventView>)
    requires
        at_work(d.stage),
    ensures
        next(d, failure_event(d.stage, error)) == Some(fail_job(d, error)),
        fail_job(d, error).1 == ActionView::Abort(
            ErrorView { job: d.jobs[d.current as int].name, ..error },
        ),
        run(fail_job(d, error).0, later) == (fail_job(d, error).0, Seq::<ActionView>::empty()),
{
    lemma_stopped_run_asks_nothing(fail_job(d, error).0, later);
}

/// Jobs are taken in the order of the configuration, one at a time: a job
/// is begun either first of all, when the configuration is loaded, or when
/// the archive of the job before it has been written; and an archive is
/// written only for the job at work, to the file that was resolved for it.
pub proof fn lemma_jobs_in_order(d: DriverView, event: EventView)
    requires
        consistent(d),
        next(d, event) is Some,
    ensures
        ({
            let (state, action) = next(d, event)->0;
            &&& action matches ActionView::Resolve { job } ==> {
                &&& job == state.jobs[state.current as int]
                &&& state.stage == Stage::Resolving
                &&& (d.stage == Stage::Loading && state.current == 0) || (d.stage
                    == Stage::Writing && (event matches EventView::Written(Ok(_)))
                    && state.current == d.current + 1 && state.jobs == d.jobs)
            }
            &&& action matches ActionView::Write { output, .. } ==> {
                &&& d.stage == Stage::Compressing
                &&& state.current == d.current
                &&& state.jobs == d.jobs
                &&& output == d.output
            }
            &&& at_work(d.stage) && !stopped(state.stage) ==> state.jobs == d.jobs
                && state.current >= d.current
        }),
{
    if d.stage == Stage::Loading {
        if let EventView::Loaded(Ok(Some(jobs))) = event {
            crate::config::lemma_first_malformed(jobs);
        }
    }
}

/// How many files the actions ask to be written.
pub open spec fn files_written(actions: Seq<ActionView>) -> nat
    decreases actions.len(),
{
    if actions.len() == 0 {
        0
    } else if actions.last() is Write {
        files_written(actions.drop_last()) + 1
    } else {
        files_written(actions.drop_last())
    }
}

/// How many files have been asked for when the driver stands in `d`: one
/// for every job before the one at work, and one more once the archive of
/// that job is being written.
pub open spec fn accounts_for(d: DriverView, files: nat) -> bool {
    match d.stage {
        Stage::Idle | Stage::Loading => files == 0,
        Stage::Writing => files == d.current + 1 && d.current < d.jobs.len(),
        Stage::Finished => files == d.jobs.len(),
        Stage::Failed => files <= d.jobs.len(),
        _ => files == d.current && d.current < d.jobs.len(),
    }
}

/// A step keeps the account of the files asked for.
proof fn lemma_step_accounts(d: DriverView, event: EventView, files: nat)
    requires
        accounts_for(d, files),
        next(d, event) is Some,
    ensures
        ({
            let (state, action) = next(d, event)->0;
            accounts_for(
                state,
                if action is Write {
                    files + 1
                } else {
                    files
                },
            )
        }),
{
    if d.stage == Stage::Loading {
        if let EventView::Loaded(Ok(Some(jobs))) = event {
            crate::config::lemma_first_malformed(jobs);
        }
    }
}

/// One file per job, in the order of the configuration: whatever happens
/// in a run, the number of files asked for is the number of jobs once the
/// run has finished, the index of the job at work while one is (and one
/// more while its archive is being written), and never more than the
/// number of jobs.
pub proof fn lemma_one_file_per_job(d: DriverView, events: Seq<EventView>)
    requires
        d.stage == Stage::Idle,
    ensures
        ({
            let (state, actions) = run(d, events);
            accounts_for(state, files_written(actions))
        }),
    decreases events.len(),
{
    if events.len() > 0 {
        let (before, actions) = run(d, events.drop_last());
        lemma_one_file_per_job(d, events.drop_last());
        if let Some((after, action)) = next(before, events.last()) {
            lemma_step_accounts(before, events.last(), files_written(actions));
            assert(actions.push(action).drop_last() =~= actions);
        }
    }
}

/// Whether an action is carried out by [`perform`], without the outside
/// world.
pub open spec fn internal(action: ActionView) -> bool {
    action is Resolve || action is Serialize || action is Compress
}

/// Whether `answer` may be what comes of carrying out the internal action
/// `action`: what [`resolution_of`], [`archive_of`] and [`compression_of`]
/// admit.
pub open spec fn answers(action: ActionView, answer: EventView) -> bool {
    match (action, answer) {
        (ActionView::Resolve { job }, EventView::Resolved(result)) => resolution_of(job, result),
        (ActionView::Serialize { entries }, EventView::Serialized(result)) => archive_of(
            entries,
            result,
        ),
        (ActionView::Compress { tar, level }, EventView::Compressed(result)) => compression_of(
            tar,
            level,
            result,
        ),
        _ => false,
    }
}

/// How many internal actions may follow one another, this one included.
pub open spec fn depth(action: ActionView) -> nat {
    match action {
        ActionView::Serialize { .. } => 2,
        ActionView::Resolve { .. } => 1,
        ActionView::Compress { .. } => 1,
        _ => 0,
    }
}

/// Whether `action` is what the driver asks for on entering the state `d`.
pub open spec fn pending(d: DriverView, action: ActionView) -> bool {
    match action {
        ActionView::Resolve { .. } => d.stage == Stage::Resolving,
        ActionView::Serialize { .. } => d.stage == Stage::Serializing,
        ActionView::Compress { .. } => d.stage == Stage::Compressing,
        _ => true,
    }
}

/// Whether the driver, having asked for `action` in the state `d`, may come
/// to ask the outside world for `outside` in the state `end`, by carrying
/// out at most `limit` internal actions, each with an answer that
/// [`answers`] admits.
pub open spec fn settles(
    d: DriverView,
    action: ActionView,
    end: DriverView,
    outside: ActionView,
    limit: nat,
) -> bool
    decreases limit,
{
    if !internal(action) {
        end == d && outside == action
    } else {
        limit > 0 && exists|answer: EventView| #[trigger]
            answers(action, answer) && match next(d, answer) {
                Some((state, following)) => settles(
                    state,
                    following,
                    end,
                    outside,
                    (limit - 1) as nat,
                ),
                None => false,
            }
    }
}

/// Whether the driver in the state `d`, on `event` from the outside world,
/// may come to ask the outside world for `outside` in the state `end`:
/// it takes the step on `event` and then [`settles`].
pub open spec fn advances(
    d: DriverView,
    event: EventView,
    end: DriverView,
    outside: ActionView,
) -> bool {
    match next(d, event) {
        Some((state, first)) => settles(state, first, end, outside, 2),
        None => false,
    }
}

/// Settling ends with an action for the outside world.
pub proof fn lemma_settles_outside(
    d: DriverView,
    action: ActionView,
    end: DriverView,
    outside: ActionView,
    limit: nat,
)
    requires
        settles(d, action, end, outside, limit),
    ensures
        !internal(outside),
    decreases limit,
{
    if internal(action) {
        let answer = choose|answer: EventView| #[trigger]
            answers(action, answer) && match next(d, answer) {
                Some((state, following)) => settles(
                    state,
                    following,
                    end,
                    outside,
                    (limit - 1) as nat,
                ),
                None => false,
            };
        let (state, following) = next(d, answer)->0;
        lemma_settles_outside(state, following, end, outside, (limit - 1) as nat);
    }
}

/// What is written is the archive of what was read. When the tree of the
/// job at work has been read, the driver asks for a file to be written
/// exactly when no entry of the tree is unfit and the encoder does not fail
/// on its archive: the file is the one resolved for the job, and the stream
/// the gzip stream of the tar archive of the tree. Otherwise it ends the
/// run with the failure of serializing or compressing, under the name of
/// the job.
pub proof fn lemma_tree_becomes_stream(
    d: DriverView,
    entries: Seq<EntryView>,
    end: DriverView,
    outside: ActionView,
)
    requires
        d.stage == Stage::Reading,
        advances(d, EventView::Tree(Ok(entries)), end, outside),
    ensures
        match outside {
            ActionView::Write { output, stream } => {
                &&& output == d.output
                &&& stream == gzip_stream(tar_stream(arranged(entries)), d.level)
                &&& end == (DriverView { stage: Stage::Writing, ..d })
            },
            ActionView::Abort(error) => {
                &&& compressed_archive_of(
                    entries,
                    d.level,
                    Err(ErrorView { job: Seq::empty(), ..error }),
                )
                &&& error.job == d.jobs[d.current as int].name
                &&& end == (DriverView { stage: Stage::Failed, ..d })
            },
            _ => false,
        },
        outside is Write <==> (forall|entry: EntryView| entries.contains(entry) ==> !unfit(entry))
            && !gzip_fails(tar_stream(arranged(entries)), d.level),
{
    reveal_with_fuel(settles, 3);
    let tar = tar_stream(arranged(entries));
    match outside {
        ActionView::Write { output, stream } => {
            lemma_compressed_when_fit(entries, d.level, Ok(stream));
        },
        ActionView::Abort(error) => {
            let cause = ErrorView { job: Seq::empty(), ..error };
            assert(compressed_archive_of(entries, d.level, Err(cause)));
            lemma_compressed_when_fit(entries, d.level, Err(cause));
        },
        _ => {},
    }
}

/// A job is begun by resolving it: the driver turns to the job at `index`
/// either by asking for the tree at the resolved input to be read, keeping
/// the resolved output for the writing, or by ending the run with the
/// failure of the expansion under the name of the job; where there is no
/// job at `index`, the run is finished.
pub proof fn lemma_job_begins_resolved(
    d: DriverView,
    index: nat,
    end: DriverView,
    outside: ActionView,
)
    requires
        ({
            let (state, first) = begin_job(d, index);
            settles(state, first, end, outside, 2)
        }),
    ensures
        index >= d.jobs.len() ==> outside == ActionView::Done && end.stage == Stage::Finished,
        index < d.jobs.len() ==> match outside {
            ActionView::ReadTree { input } => {
                &&& end.stage == Stage::Reading
                &&& end.current == index
                &&& end.jobs == d.jobs
                &&& resolution_of(
                    d.jobs[index as int],
                    Ok(PathsView { input, output: end.output }),
                )
            },
            ActionView::Abort(error) => {
                &&& end.stage == Stage::Failed
                &&& error.kind == ErrorKind::PathExpansion
                &&& error.job == d.jobs[index as int].name
            },
            _ => false,
        },
{
    reveal_with_fuel(settles, 3);
}

/// Settling goes on from an answered internal action.
proof fn lemma_settles_after(
    d: DriverView,
    action: ActionView,
    answer: EventView,
    end: DriverView,
    outside: ActionView,
    limit: nat,
)
    requires
        internal(action),
        limit > 0,
        answers(action, answer),
        next(d, answer) matches Some((state, following)) && settles(
            state,
            following,
            end,
            outside,
            (limit - 1) as nat,
        ),
    ensures
        settles(d, action, end, outside, limit),
{
}

/// An answered internal action leads to a step, and fewer internal actions
/// can follow that step than could follow the action.
pub proof fn lemma_answer_is_taken(d: DriverView, action: ActionView, answer: EventView)
    requires
        internal(action),
        pending(d, action),
        answers(action, answer),
    ensures
        next(d, answer) matches Some((state, following)) && depth(following) < depth(action)
            && pending(state, following),
{
}

/// Carries out an action that needs nothing from the outside world:
/// resolving, serializing or compressing. Any other action is handed back.
pub fn perform(action: Action) -> (outcome: Result<Event, Action>)
    ensures
        match outcome {
            Ok(answer) => answers(action@, answer@),
            Err(outside) => !internal(action@) && outside@ == action@,
        },
{
    match action {
        Action::Resolve { job } => Ok(Event::Resolved(resolve(&job))),
        Action::Serialize { entries } => Ok(Event::Serialized(make_tar_from_dir(entries))),
        Action::Compress { tar, level } => Ok(
            Event::Compressed(compress_data(tar.as_slice(), level)),
        ),
        outside => Err(outside),
    }
}

impl View for Driver {
    type V = DriverView;

    closed spec fn view(&self) -> DriverView {
        DriverView {
            config_path: self.config_path@,
            level: self.level@,
            jobs: archive_views(self.jobs@),
            current: self.current as nat,
            output: self.output@,
            stage: self.stage,
        }
    }
}

impl Driver {
    #[verifier::type_invariant]
    closed spec fn inv(self) -> bool {
        consistent(self@)
    }

    /// A driver that has not started, for the configuration at
    /// `config_path` and archives compressed at `level`.
    pub fn new(config_path: String, level: Compression) -> (driver: Driver)
        ensures
            driver@ == (DriverView {
                config_path: config_path@,
                level: level@,
                jobs: Seq::empty(),
                current: 0,
                output: Seq::empty(),
                stage: Stage::Idle,
            }),
    {
        let driver = Driver {
            config_path,
            level,
            jobs: Vec::new(),
            current: 0,
            output: String::new(),
            stage: Stage::Idle,
        };
        assert(archive_views(driver.jobs@) =~= Seq::empty());
        driver
    }

    /// Where the run stands.
    pub fn stage(&self) -> (stage: Stage)
        ensures
            stage == self@.stage,
            consistent(self@),
    {
        proof {
            use_type_invariant(self);
        }
        self.stage
    }

    /// The job at work, if one is.
    pub fn current_job(&self) -> (job: Option<&Archive>)
        ensures
            match job {
                Some(job) => at_work(self@.stage) && job@ == self@.jobs[self@.current as int],
                None => !at_work(self@.stage),
            },
    {
        proof {
            use_type_invariant(self);
        }
        match self.stage {
            Stage::Resolving
            | Stage::Reading
            | Stage::Serializing
            | Stage::Compressing
            | Stage::Writing => Some(&self.jobs[self.current]),
            _ => None,
        }
    }

    /// Turns to the job at `index`, or finishes where there is none.
    fn begin(&mut self, index: usize) -> (action: Action)
        requires
            old(self)@.stage == Stage::Loading || old(self)@.stage == Stage::Writing,
        ensures
            (final(self)@, action@) == begin_job(old(self)@, index as nat),
    {
        proof {
            use_type_invariant(&*self);
        }
        self.output = String::new();
        if index < self.jobs.len() {
            self.current = index;
            self.stage = Stage::Resolving;
            Action::Resolve { job: self.jobs[index].duplicate() }
        } else {
            self.stage = Stage::Finished;
            self.current = index;
            Action::Done
        }
    }

    /// Ends the run with `error`.
    fn abort(&mut self, error: ArchiveError) -> (action: Action)
        ensures
            (final(self)@, action@) == fail(old(self)@, error@),
    {
        proof {
            use_type_invariant(&*self);
        }
        self.stage = Stage::Failed;
        Action::Abort(error)
    }

    /// Ends the run with `error` under the name of the job at work.
    fn abort_job(&mut self, error: ArchiveError) -> (action: Action)
        requires
            at_work(old(self)@.stage),
        ensures
            (final(self)@, action@) == fail_job(old(self)@, error@),
    {
        proof {
            use_type_invariant(&*self);
        }
        let error = error.in_job(self.jobs[self.current].get_name());
        self.abort(error)
    }

    /// Takes in what has happened and says what to do next. An event that
    /// does not answer the last action changes nothing and yields `None`;
    /// so does every event once the run has ended.
    pub fn step(&mut self, event: Event) -> (action: Option<Action>)
        ensures
            match next(old(self)@, event@) {
                Some((state, act)) => {
                    &&& action is Some
                    &&& action->0@ == act
                    &&& final(self)@ == state
                },
                None => action is None && final(self)@ == old(self)@,
            },
            consistent(final(self)@),
    {
        proof {
            use_type_invariant(&*self);
        }
        match (self.stage, event) {
            (Stage::Idle, Event::Start) => {
                self.stage = Stage::Loading;
                Some(Action::LoadConfig { path: self.config_path.clone() })
            },
            (Stage::Loading, Event::Loaded(Err(error))) => Some(self.abort(error)),
            (Stage::Loading, Event::Loaded(Ok(config))) => match config.into_archives() {
                None => {
                    proof {
                        crate::error::lemma_empty_text();
                    }
                    let error = ArchiveError::new(
                        ErrorKind::NoArchives,
                        "",
                        self.config_path.as_str(),
                        "",
                    );
                    Some(self.abort(error))
                },
                Some(jobs) => match find_malformed(&jobs) {
                    Some(i) => {
                        proof {
                            crate::error::lemma_empty_text();
                            crate::config::lemma_first_malformed(archive_views(jobs@));
                        }
                        let error = ArchiveError::new(
                            ErrorKind::ConfigParse,
                            jobs[i].get_name(),
                            self.config_path.as_str(),
                            "",
                        );
                        Some(self.abort(error))
                    },
                    None => {
                        self.jobs = jobs;
                        Some(self.begin(0))
                    },
                },
            },
            (Stage::Resolving, Event::Resolved(Ok(paths))) => {
                self.stage = Stage::Reading;
                self.output = paths.output;
                Some(Action::ReadTree { input: paths.input })
            },
            (Stage::Reading, Event::Tree(Ok(entries))) => {
                self.stage = Stage::Serializing;
                Some(Action::Serialize { entries })
            },
            (Stage::Serializing, Event::Serialized(Ok(tar))) => {
                self.stage = Stage::Compressing;
                Some(Action::Compress { tar, level: self.level })
            },
            (Stage::Compressing, Event::Compressed(Ok(stream))) => {
                self.stage = Stage::Writing;
                Some(Action::Write { output: self.output.clone(), stream })
            },
            (Stage::Writing, Event::Written(Ok(_))) => {
                let count = self.jobs.len();
                assert(self.current < count) by {
                    assert(archive_views(self.jobs@).len() == count);
                }
                let following = self.current + 1;
                Some(self.begin(following))
            },
            (Stage::Resolving, Event::Resolved(Err(error))) => Some(self.abort_job(error)),
            (Stage::Reading, Event::Tree(Err(error))) => Some(self.abort_job(error)),
            (Stage::Serializing, Event::Serialized(Err(error))) => Some(self.abort_job(error)),
            (Stage::Compressing, Event::Compressed(Err(error))) => Some(self.abort_job(error)),
            (Stage::Writing, Event::Written(Err(error))) => Some(self.abort_job(error)),
            _ => None,
        }
    }

    /// Takes in what has happened in the outside world and carries on
    /// until the outside world is needed again: the driver resolves,
    /// serializes and compresses by itself, and asks only for the
    /// configuration to be read, a tree to be read and a file to be written.
    ///
    /// What it does in between depends on the environment and on the
    /// encoders, so the contract says through what it may have gone:
    /// [`advances`]. An event that answers nothing changes nothing and
    /// yields `None`.
    pub fn advance(&mut self, event: Event) -> (action: Option<Action>)
        ensures
            match action {
                Some(outside) => !internal(outside@) && advances(
                    old(self)@,
                    event@,
                    final(self)@,
                    outside@,
                ),
                None => next(old(self)@, event@) is None && final(self)@ == old(self)@,
            },
            consistent(final(self)@),
    {
        let ghost origin = self@;
        let ghost happened = event@;
        let mut action = match self.step(event) {
            Some(action) => action,
            None => {
                return None;
            },
        };
        let ghost state = self@;
        let ghost first = action@;
        let ghost mut limit: nat = 2;
        loop
            invariant
                origin == old(self)@,
                happened == event@,
                next(origin, happened) == Some((state, first)),
                depth(action@) <= limit <= 2,
                pending(self@, action@),
                consistent(self@),
                forall|end: DriverView, outside: ActionView|
                    settles(self@, action@, end, outside, limit) ==> settles(
                        state,
                        first,
                        end,
                        outside,
                        2,
                    ),
            decreases limit,
        {
            let ghost before = self@;
            let ghost asked = action@;
            match perform(action) {
                Err(outside) => {
                    assert(settles(before, asked, before, asked, limit));
                    return Some(outside);
                },
                Ok(answer) => {
                    proof {
                        lemma_answer_is_taken(before, asked, answer@);
                    }
                    match self.step(answer) {
                        Some(following) => {
                            action = following;
                            proof {
                                let fewer = (limit - 1) as nat;
                                assert forall|end: DriverView, outside: ActionView|
                                    settles(self@, action@, end, outside, fewer) implies settles(
                                    state,
                                    first,
                                    end,
                                    outside,
                                    2,
                                ) by {
                                    lemma_settles_after(
                                        before,
                                        asked,
                                        answer@,
                                        end,
                                        outside,
                                        limit,
                                    );
                                }
                                limit = fewer;
                            }
                        },
                        None => {
                            return None;
                        },
                    }
                },
            }
        }
    }
}

} // verus!
