use arkaive::compressor::Compression;
use arkaive::config::{Archive, Config};
use arkaive::driver::{perform, Action, Driver, Event, Stage};
use arkaive::error::{ArchiveError, ErrorKind};
use arkaive::resolver::resolve;
use arkaive::tree::{Attributes, EntryBody, TreeEntry};

fn job(name: &str, input: &str, output: &str) -> Archive {
    Archive::new(name.to_string(), input.to_string(), output.to_string())
}

fn driver() -> Driver {
    Driver::new("/etc/arkaive/config.toml".to_string(), Compression::default())
}

fn loading() -> Driver {
    let mut driver = driver();
    driver.step(Event::Start).unwrap();
    driver
}

fn three_jobs() -> Config {
    Config::new(Some(vec![
        job("one", "/srv/one", "/backups"),
        job("two", "/srv/two", "/backups/"),
        job("three.old", "/srv/three", "/backups"),
    ]))
}

fn tree_of(input: &str) -> Vec<TreeEntry> {
    vec![TreeEntry {
        path: "origin".to_string(),
        attributes: Attributes { mode: 0o644, uid: 0, gid: 0, mtime: 0 },
        body: EntryBody::File(input.as_bytes().to_vec()),
    }]
}

/// Runs the driver to its end as a program would. The tree below a
/// directory in `unreadable` cannot be read. Returns how the run ended, the
/// files written with their content, and the directories read.
fn run(
    config: Result<Config, ArchiveError>,
    unreadable: &[&str],
) -> (Result<(), ArchiveError>, Vec<(String, Vec<u8>)>, Vec<String>) {
    let mut driver = driver();
    let mut written = Vec::new();
    let mut read = Vec::new();
    let mut config = Some(config);
    let mut event = Event::Start;
    loop {
        event = match driver.advance(event).unwrap() {
            Action::LoadConfig { path } => {
                assert_eq!(path, "/etc/arkaive/config.toml");
                Event::Loaded(config.take().unwrap())
            }
            Action::ReadTree { input } => {
                read.push(input.clone());
                if unreadable.contains(&input.as_str()) {
                    Event::Tree(Err(ArchiveError::new(
                        ErrorKind::DirectoryRead,
                        "",
                        &input,
                        "permission denied",
                    )))
                } else {
                    Event::Tree(Ok(tree_of(&input)))
                }
            }
            Action::Write { output, stream } => {
                written.push((output, stream));
                Event::Written(Ok(()))
            }
            Action::Done => {
                assert_eq!(driver.stage(), Stage::Finished);
                return (Ok(()), written, read);
            }
            Action::Abort(error) => {
                assert_eq!(driver.stage(), Stage::Failed);
                return (Err(error), written, read);
            }
            other => panic!("advance asked for {:?}", other),
        };
    }
}

fn gunzip(stream: &[u8]) -> Vec<u8> {
    let mut decoder = flate2::read::GzDecoder::new(stream);
    let mut tar = Vec::new();
    std::io::Read::read_to_end(&mut decoder, &mut tar).unwrap();
    tar
}

fn content_of(stream: &[u8]) -> Vec<u8> {
    let tar = gunzip(stream);
    let mut archive = tar::Archive::new(tar.as_slice());
    let mut entry = archive.entries().unwrap().next().unwrap().unwrap();
    let mut content = Vec::new();
    std::io::Read::read_to_end(&mut entry, &mut content).unwrap();
    content
}

#[test]
fn new_driver_is_idle() {
    let driver = driver();
    assert_eq!(driver.stage(), Stage::Idle);
    assert!(driver.current_job().is_none());
}

#[test]
fn start_asks_for_the_configuration() {
    let mut driver = driver();
    match driver.step(Event::Start) {
        Some(Action::LoadConfig { path }) => assert_eq!(path, "/etc/arkaive/config.toml"),
        other => panic!("unexpected {:?}", other),
    }
    assert_eq!(driver.stage(), Stage::Loading);
}

#[test]
fn absent_archives_fail_at_the_start() {
    let mut driver = loading();
    match driver.step(Event::Loaded(Ok(Config::new(None)))) {
        Some(Action::Abort(error)) => {
            assert_eq!(error.kind, ErrorKind::NoArchives);
            assert_eq!(error.path, "/etc/arkaive/config.toml");
            assert_eq!(error.message(), "no archives configured: /etc/arkaive/config.toml");
        }
        other => panic!("unexpected {:?}", other),
    }
    assert_eq!(driver.stage(), Stage::Failed);
}

#[test]
fn absent_archives_write_no_file() {
    let (end, written, read) = run(Ok(Config::new(None)), &[]);
    assert_eq!(end.unwrap_err().kind, ErrorKind::NoArchives);
    assert!(written.is_empty());
    assert!(read.is_empty());
}

#[test]
fn empty_archives_succeed_without_a_file() {
    let (end, written, read) = run(Ok(Config::new(Some(Vec::new()))), &[]);
    assert!(end.is_ok());
    assert!(written.is_empty());
    assert!(read.is_empty());
}

#[test]
fn empty_archives_finish_at_once() {
    let mut driver = loading();
    assert!(matches!(
        driver.step(Event::Loaded(Ok(Config::new(Some(Vec::new()))))),
        Some(Action::Done)
    ));
    assert_eq!(driver.stage(), Stage::Finished);
}

#[test]
fn unreadable_configuration_fails() {
    let (end, written, _) = run(
        Err(ArchiveError::new(ErrorKind::ConfigRead, "", "/etc/arkaive/config.toml", "not found")),
        &[],
    );
    let error = end.unwrap_err();
    assert_eq!(error.kind, ErrorKind::ConfigRead);
    assert!(error.message().contains("/etc/arkaive/config.toml"));
    assert!(written.is_empty());
}

#[test]
fn malformed_configuration_fails() {
    let (end, written, read) = run(
        Err(ArchiveError::new(ErrorKind::ConfigParse, "", "/etc/arkaive/config.toml", "line 3")),
        &[],
    );
    assert_eq!(end.unwrap_err().kind, ErrorKind::ConfigParse);
    assert!(written.is_empty());
    assert!(read.is_empty());
}

#[test]
fn malformed_descriptor_fails_before_any_job() {
    let config =
        Config::new(Some(vec![job("one", "/srv/one", "/backups"), job("a/b", "/x", "/y")]));
    let (end, written, read) = run(Ok(config), &[]);
    let error = end.unwrap_err();
    assert_eq!(error.kind, ErrorKind::ConfigParse);
    assert_eq!(error.job, "a/b");
    assert_eq!(error.path, "/etc/arkaive/config.toml");
    assert!(written.is_empty());
    assert!(read.is_empty());
}

#[test]
fn every_job_is_archived_in_order() {
    let (end, written, read) = run(Ok(three_jobs()), &[]);
    assert!(end.is_ok());
    assert_eq!(read, vec!["/srv/one", "/srv/two", "/srv/three"]);
    let files: Vec<&str> = written.iter().map(|w| w.0.as_str()).collect();
    assert_eq!(
        files,
        vec!["/backups/one.tar.gz", "/backups/two.tar.gz", "/backups/three.tar.gz"]
    );
    assert_eq!(content_of(&written[0].1), b"/srv/one");
    assert_eq!(content_of(&written[1].1), b"/srv/two");
    assert_eq!(content_of(&written[2].1), b"/srv/three");
}

#[test]
fn second_of_three_failing_stops_the_run() {
    let (end, written, read) = run(Ok(three_jobs()), &["/srv/two"]);
    let error = end.unwrap_err();
    assert_eq!(error.kind, ErrorKind::DirectoryRead);
    assert_eq!(error.job, "two");
    assert_eq!(error.path, "/srv/two");
    assert_eq!(error.message(), "cannot read directory: two: /srv/two: permission denied");
    assert_eq!(read, vec!["/srv/one", "/srv/two"]);
    assert_eq!(written.len(), 1);
    assert_eq!(written[0].0, "/backups/one.tar.gz");
    assert_eq!(content_of(&written[0].1), b"/srv/one");
}

#[test]
fn first_job_failing_writes_nothing() {
    let (end, written, read) = run(Ok(three_jobs()), &["/srv/one"]);
    assert_eq!(end.unwrap_err().job, "one");
    assert_eq!(read, vec!["/srv/one"]);
    assert!(written.is_empty());
}

#[test]
fn failed_expansion_stops_the_run() {
    let config = Config::new(Some(vec![
        job("one", "/srv/one", "/backups"),
        job("two", "$ARKAIVE_NO_SUCH_VARIABLE_4", "/backups"),
        job("three", "/srv/three", "/backups"),
    ]));
    let (end, written, read) = run(Ok(config), &[]);
    let error = end.unwrap_err();
    assert_eq!(error.kind, ErrorKind::PathExpansion);
    assert_eq!(error.job, "two");
    assert_eq!(error.path, "$ARKAIVE_NO_SUCH_VARIABLE_4");
    assert_eq!(read, vec!["/srv/one"]);
    assert_eq!(written.len(), 1);
}

#[test]
fn entry_that_cannot_be_archived_stops_the_run() {
    let mut driver = loading();
    driver.advance(Event::Loaded(Ok(three_jobs()))).unwrap();
    let mut tree = tree_of("/srv/one");
    tree[0].path = "../outside".to_string();
    match driver.advance(Event::Tree(Ok(tree))) {
        Some(Action::Abort(error)) => {
            assert_eq!(error.kind, ErrorKind::EntryRead);
            assert_eq!(error.job, "one");
            assert_eq!(error.path, "../outside");
        }
        other => panic!("unexpected {:?}", other),
    }
    assert_eq!(driver.stage(), Stage::Failed);
    assert!(driver.advance(Event::Written(Ok(()))).is_none());
}

#[test]
fn advance_resolves_by_itself() {
    let mut driver = loading();
    match driver.advance(Event::Loaded(Ok(three_jobs()))) {
        Some(Action::ReadTree { input }) => assert_eq!(input, "/srv/one"),
        other => panic!("unexpected {:?}", other),
    }
    assert_eq!(driver.stage(), Stage::Reading);
    assert_eq!(driver.current_job().unwrap().get_name(), "one");
}

#[test]
fn advance_archives_by_itself() {
    let mut driver = loading();
    driver.advance(Event::Loaded(Ok(three_jobs()))).unwrap();
    match driver.advance(Event::Tree(Ok(tree_of("/srv/one")))) {
        Some(Action::Write { output, stream }) => {
            assert_eq!(output, "/backups/one.tar.gz");
            let expected = arkaive::compressor::compress_dir_to_vec(
                tree_of("/srv/one"),
                Compression::default(),
            )
            .unwrap();
            assert_eq!(stream, expected);
        }
        other => panic!("unexpected {:?}", other),
    }
    assert_eq!(driver.stage(), Stage::Writing);
    match driver.advance(Event::Written(Ok(()))) {
        Some(Action::ReadTree { input }) => assert_eq!(input, "/srv/two"),
        other => panic!("unexpected {:?}", other),
    }
    assert_eq!(driver.current_job().unwrap().get_name(), "two");
}

#[test]
fn step_goes_through_every_stage_of_a_job() {
    let mut driver = loading();
    match driver.step(Event::Loaded(Ok(three_jobs()))) {
        Some(Action::Resolve { job }) => assert_eq!(job.get_name(), "one"),
        other => panic!("unexpected {:?}", other),
    }
    assert_eq!(driver.stage(), Stage::Resolving);
    match driver.step(Event::Resolved(resolve(&job("one", "/srv/one", "/backups")))) {
        Some(Action::ReadTree { input }) => assert_eq!(input, "/srv/one"),
        other => panic!("unexpected {:?}", other),
    }
    assert_eq!(driver.stage(), Stage::Reading);
    match driver.step(Event::Tree(Ok(tree_of("x")))) {
        Some(Action::Serialize { entries }) => assert_eq!(entries[0].path, "origin"),
        other => panic!("unexpected {:?}", other),
    }
    assert_eq!(driver.stage(), Stage::Serializing);
    match driver.step(Event::Serialized(Ok(vec![1, 2, 3]))) {
        Some(Action::Compress { tar, level }) => {
            assert_eq!(tar, vec![1, 2, 3]);
            assert_eq!(level.level(), 6);
        }
        other => panic!("unexpected {:?}", other),
    }
    assert_eq!(driver.stage(), Stage::Compressing);
    match driver.step(Event::Compressed(Ok(vec![4, 5]))) {
        Some(Action::Write { output, stream }) => {
            assert_eq!(output, "/backups/one.tar.gz");
            assert_eq!(stream, vec![4, 5]);
        }
        other => panic!("unexpected {:?}", other),
    }
    assert_eq!(driver.stage(), Stage::Writing);
    match driver.step(Event::Written(Ok(()))) {
        Some(Action::Resolve { job }) => assert_eq!(job.get_name(), "two"),
        other => panic!("unexpected {:?}", other),
    }
    assert_eq!(driver.stage(), Stage::Resolving);
}

#[test]
fn last_job_written_finishes_the_run() {
    let mut driver = loading();
    driver.advance(Event::Loaded(Ok(Config::new(Some(vec![job("only", "/in", "/out")]))))).unwrap();
    driver.advance(Event::Tree(Ok(Vec::new()))).unwrap();
    assert!(matches!(driver.advance(Event::Written(Ok(()))), Some(Action::Done)));
    assert_eq!(driver.stage(), Stage::Finished);
    assert!(driver.current_job().is_none());
}

#[test]
fn failed_write_stops_the_run() {
    let mut driver = loading();
    driver.advance(Event::Loaded(Ok(three_jobs()))).unwrap();
    driver.advance(Event::Tree(Ok(tree_of("/srv/one")))).unwrap();
    let failure = ArchiveError::write_failure("/backups/one.tar.gz", false, "no such directory");
    match driver.advance(Event::Written(Err(failure))) {
        Some(Action::Abort(error)) => {
            assert_eq!(error.kind, ErrorKind::DestinationUnavailable);
            assert_eq!(error.job, "one");
            assert_eq!(error.path, "/backups/one.tar.gz");
        }
        other => panic!("unexpected {:?}", other),
    }
    assert_eq!(driver.stage(), Stage::Failed);
    assert!(driver.current_job().is_none());
}

#[test]
fn failure_in_each_stage_stops_the_run() {
    let failure = || ArchiveError::new(ErrorKind::Encoding, "", "", "broken");
    let events: Vec<fn(ArchiveError) -> Event> = vec![
        |e| Event::Resolved(Err(e)),
        |e| Event::Tree(Err(e)),
        |e| Event::Serialized(Err(e)),
        |e| Event::Compressed(Err(e)),
        |e| Event::Written(Err(e)),
    ];
    for (stage, failing) in events.iter().enumerate() {
        let mut driver = loading();
        driver.step(Event::Loaded(Ok(three_jobs()))).unwrap();
        let steps: Vec<Event> = vec![
            Event::Resolved(resolve(&job("one", "/srv/one", "/backups"))),
            Event::Tree(Ok(Vec::new())),
            Event::Serialized(Ok(Vec::new())),
            Event::Compressed(Ok(Vec::new())),
        ];
        for event in steps.into_iter().take(stage) {
            driver.step(event).unwrap();
        }
        match driver.step(failing(failure())) {
            Some(Action::Abort(error)) => {
                assert_eq!(error.kind, ErrorKind::Encoding);
                assert_eq!(error.job, "one");
            }
            other => panic!("unexpected {:?}", other),
        }
        assert_eq!(driver.stage(), Stage::Failed);
    }
}

#[test]
fn perform_carries_out_internal_actions() {
    match perform(Action::Resolve { job: job("n", "/in", "/out") }) {
        Ok(Event::Resolved(Ok(paths))) => {
            assert_eq!(paths.input, "/in");
            assert_eq!(paths.output, "/out/n.tar.gz");
        }
        other => panic!("unexpected {:?}", other),
    }
    match perform(Action::Serialize { entries: Vec::new() }) {
        Ok(Event::Serialized(Ok(tar))) => assert_eq!(tar, vec![0u8; 1024]),
        other => panic!("unexpected {:?}", other),
    }
    match perform(Action::Compress { tar: vec![9u8; 100], level: Compression::default() }) {
        Ok(Event::Compressed(Ok(stream))) => assert_eq!(gunzip(&stream), vec![9u8; 100]),
        other => panic!("unexpected {:?}", other),
    }
}

#[test]
fn perform_hands_back_outside_actions() {
    assert!(matches!(perform(Action::Done), Err(Action::Done)));
    match perform(Action::ReadTree { input: "/in".to_string() }) {
        Err(Action::ReadTree { input }) => assert_eq!(input, "/in"),
        other => panic!("unexpected {:?}", other),
    }
    match perform(Action::Write { output: "/o".to_string(), stream: vec![1] }) {
        Err(Action::Write { output, stream }) => {
            assert_eq!(output, "/o");
            assert_eq!(stream, vec![1]);
        }
        other => panic!("unexpected {:?}", other),
    }
    assert!(matches!(
        perform(Action::LoadConfig { path: "p".to_string() }),
        Err(Action::LoadConfig { .. })
    ));
    let failure = ArchiveError::new(ErrorKind::NoArchives, "", "", "");
    assert!(matches!(perform(Action::Abort(failure)), Err(Action::Abort(_))));
}

#[test]
fn nothing_is_asked_for_after_a_failure() {
    let mut driver = loading();
    driver.step(Event::Loaded(Ok(Config::new(None)))).unwrap();
    assert!(driver.step(Event::Start).is_none());
    assert!(driver.step(Event::Loaded(Ok(three_jobs()))).is_none());
    assert!(driver.step(Event::Resolved(resolve(&job("a", "b", "c")))).is_none());
    assert!(driver.step(Event::Tree(Ok(Vec::new()))).is_none());
    assert!(driver.step(Event::Serialized(Ok(Vec::new()))).is_none());
    assert!(driver.step(Event::Compressed(Ok(Vec::new()))).is_none());
    assert!(driver.step(Event::Written(Ok(()))).is_none());
    assert!(driver.advance(Event::Written(Ok(()))).is_none());
    assert_eq!(driver.stage(), Stage::Failed);
}

#[test]
fn nothing_is_asked_for_after_the_end() {
    let mut driver = loading();
    driver.step(Event::Loaded(Ok(Config::new(Some(Vec::new()))))).unwrap();
    assert!(driver.step(Event::Start).is_none());
    assert!(driver.step(Event::Written(Ok(()))).is_none());
    assert!(driver.advance(Event::Start).is_none());
    assert_eq!(driver.stage(), Stage::Finished);
}

#[test]
fn event_that_answers_nothing_changes_nothing() {
    let mut driver = driver();
    assert!(driver.step(Event::Written(Ok(()))).is_none());
    assert_eq!(driver.stage(), Stage::Idle);
    let mut driver = loading();
    assert!(driver.step(Event::Start).is_none());
    assert!(driver.step(Event::Tree(Ok(Vec::new()))).is_none());
    assert_eq!(driver.stage(), Stage::Loading);
    driver.step(Event::Loaded(Ok(three_jobs()))).unwrap();
    assert!(driver.step(Event::Tree(Ok(Vec::new()))).is_none());
    assert!(driver.step(Event::Written(Ok(()))).is_none());
    assert_eq!(driver.stage(), Stage::Resolving);
    assert_eq!(driver.current_job().unwrap().get_name(), "one");
}
