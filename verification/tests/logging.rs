use std::collections::BTreeMap;

use aioncore::bootstrap_error::{BootstrapError, BootstrapErrorCode};
use aioncore::log_cleanup::{
    cleanup_expired_log_partitions, first_kept_date, is_expired_partition, is_retention_in_range,
    CleanupStep, MonthListing, YearListing,
};
use aioncore::log_date::{
    dated_log_dir, dated_log_dir_for, parse_log_partition, rolled_log_file_path, LogDate, LogPath,
};
use aioncore::log_filter::{
    backend_filter_directives, build_aionrs_filter, build_aionrs_level, build_backend_filter,
    build_env_filter, can_be_read, can_use_level, env_filter_directives, LOGGING_INIT_MESSAGE,
};
use aioncore::log_root::{subscriber_error, DirFailure, LogDirSelection, LogRootSearch, LogRootStep};
use aioncore::log_writer::{
    DailyDatedLogWriter, WriteOutcome, WriterAction, WriterEvent, LOG_FILES_PER_DAY_LIMIT,
    LOG_FILE_SIZE_LIMIT_BYTES, LOG_RETENTION_DAYS,
};
use tracing::callsite::{Callsite, Identifier};
use tracing::field::FieldSet;
use tracing::metadata::Kind;
use tracing::subscriber::{Interest, Subscriber};
use tracing::{Level, Metadata};
use tracing_subscriber::layer::SubscriberExt;
use tracing_subscriber::EnvFilter;

struct TestCallsite;

impl Callsite for TestCallsite {
    fn set_interest(&self, _interest: Interest) {}

    fn metadata(&self) -> &Metadata<'_> {
        unreachable!()
    }
}

fn debug_is_enabled(filter: EnvFilter, targets: &[&str]) -> Vec<bool> {
    let subscriber = tracing_subscriber::registry().with(filter);
    targets
        .iter()
        .map(|target| {
            let metadata = Metadata::new(
                "event",
                target,
                Level::DEBUG,
                None,
                None,
                None,
                FieldSet::new(&[], Identifier(&TestCallsite)),
                Kind::EVENT,
            );
            subscriber.enabled(&metadata)
        })
        .collect()
}

#[test]
fn env_filter_suppresses_raw_acp_sdk_jsonrpc_debug_even_when_debug_enabled() {
    let enabled = debug_is_enabled(
        build_env_filter(Some("debug")),
        &["agent_client_protocol::jsonrpc::handlers", "aionui_ai_agent::protocol::acp"],
    );
    assert!(
        !enabled[0],
        "ACP SDK JSON-RPC debug logs include raw UntypedMessage payloads"
    );
    assert!(
        enabled[1],
        "AionUi ACP sanitized debug summaries should still be available"
    );
}

#[test]
fn backend_filter_suppresses_raw_acp_sdk_jsonrpc_debug_even_when_debug_enabled() {
    let enabled = debug_is_enabled(
        build_backend_filter(Some("debug")),
        &["agent_client_protocol::jsonrpc::handlers", "aionui_ai_agent::protocol::acp"],
    );
    assert!(
        !enabled[0],
        "ACP SDK JSON-RPC debug logs include raw UntypedMessage payloads"
    );
    assert!(
        enabled[1],
        "AionUi ACP sanitized debug summaries should still be available"
    );
}

#[test]
fn env_filter_suppresses_raw_aionrs_provider_debug_even_when_debug_enabled() {
    let enabled = debug_is_enabled(
        build_env_filter(Some("debug")),
        &["aion_agent", "aion_providers", "aionui_ai_agent::manager::aionrs::agent"],
    );
    assert!(!enabled[0], "aion_agent debug logs include raw request bodies");
    assert!(!enabled[1], "aion_providers debug logs include raw SSE chunks");
    assert!(
        enabled[2],
        "AionUi aionrs lifecycle debug logs should still be available"
    );
}

#[test]
fn aionrs_file_level_suppresses_raw_provider_targets_even_when_debug_enabled() {
    let level = build_aionrs_level(Some("debug"));
    assert!(level.contains("aion_agent=info"), "{level}");
    assert!(level.contains("aion_providers=info"), "{level}");
    assert!(level.contains("aion_tools=debug"), "{level}");
}

#[test]
fn aionrs_file_takes_aionrs_alone() {
    let filter = build_aionrs_filter(Some("debug"), "/logs").expect("a level that can be read");
    assert_eq!(
        debug_is_enabled(filter, &["aion_tools", "aion_agent", "aionui_ai_agent"]),
        vec![true, false, false]
    );
    assert_eq!(
        debug_is_enabled(build_backend_filter(Some("debug")), &["aion_tools", "aionui_ai_agent"]),
        vec![false, true]
    );
    assert_eq!(
        debug_is_enabled(build_env_filter(None), &["aion_tools", "aionui_ai_agent"]),
        vec![false, false]
    );
}

#[test]
fn directives_are_written_in_order() {
    assert_eq!(
        env_filter_directives(None),
        "sqlx::query=warn,hyper_util=warn,reqwest=warn,agent_client_protocol::jsonrpc=info,\
         aion_agent=info,aion_providers=info,info"
    );
    assert_eq!(
        backend_filter_directives(Some("trace")),
        "sqlx::query=warn,hyper_util=warn,reqwest=warn,agent_client_protocol::jsonrpc=info,\
         aion_agent=info,aion_providers=info,aion_agent=off,aion_config=off,aion_compact=off,\
         aion_mcp=off,aion_providers=off,aion_protocol=off,aion_tools=off,aion_skills=off,\
         aion_memory=off,trace"
    );
    assert_eq!(
        build_aionrs_level(None),
        "aion_agent=info,aion_config=info,aion_compact=info,aion_mcp=info,aion_providers=info,\
         aion_protocol=info,aion_tools=info,aion_skills=info,aion_memory=info"
    );
}

#[test]
fn levels_that_would_be_cut_within_a_character_are_told_apart() {
    let unusable = [
        "\u{a0}a=info",
        " \u{e9}=info",
        "info,\u{a0}a=info",
        "  \u{e9}=info",
        "debug,\u{3000}[span{field}]=info",
    ];
    for level in unusable {
        assert!(!can_use_level(Some(level)), "{level:?}");
    }
    let usable = [
        None,
        Some(""),
        Some(" "),
        Some("debug"),
        Some(" debug , info"),
        Some("\u{e9}=info"),
        Some("\u{e9}=info "),
        Some(" \u{e9}"),
        Some("\u{a0}info"),
        Some(" a=\u{e9}"),
        Some(" a=info,b[c{d=1}]=trace"),
        Some(" [\u{e9}"),
        Some("==[[,,"),
    ];
    for level in usable {
        assert!(can_use_level(level), "{level:?}");
        let _ = build_env_filter(level);
        let _ = build_backend_filter(level);
        let _ = build_aionrs_filter(level, "/logs");
    }
}

#[test]
fn every_short_list_that_can_be_read_makes_a_filter() {
    let characters = [' ', '\u{a0}', 'a', '\u{e9}', '=', '[', ']', '{', '}', ','];
    for code in 0..100_000usize {
        let mut rest = code;
        let mut list = String::new();
        for _ in 0..5 {
            list.push(characters[rest % 10]);
            rest /= 10;
        }
        if can_be_read(&list) {
            let _ = EnvFilter::try_new(&list);
        } else {
            assert!(list.starts_with([' ', '\u{a0}']) || list.contains([',']), "{list:?}");
        }
    }
}

fn fields(error: &BootstrapError) -> Vec<(&str, &str)> {
    error
        .fields
        .iter()
        .map(|(name, value)| (name.as_str(), value.as_str()))
        .collect()
}

#[test]
fn level_that_cannot_be_read_is_an_error() {
    let error = build_aionrs_filter(Some("a=b=c"), "/logs/2026").expect_err("no such level");
    assert_eq!(error.code, BootstrapErrorCode::LoggingInitFailed);
    assert_eq!(error.stage, "logging.filter");
    assert_eq!(error.message, LOGGING_INIT_MESSAGE);
    assert!(error.source.is_some_and(|source| !source.is_empty()));
    let directives = build_aionrs_level(Some("a=b=c"));
    assert_eq!(error.fields[0], ("filter".to_owned(), directives));
    assert_eq!(error.fields[1], ("logDir".to_owned(), "/logs/2026".to_owned()));
}

#[test]
fn subscriber_that_cannot_be_installed_is_an_error() {
    let error = subscriber_error("/logs", "already set".to_owned());
    assert_eq!(error.stage, "logging.subscriber");
    assert_eq!(error.source.as_deref(), Some("already set"));
    assert_eq!(fields(&error), vec![("logDir", "/logs")]);
}

#[test]
fn dated_log_dir_appends_date_partition() {
    let root = "/tmp/aionui-logs";
    let dated = dated_log_dir(root);
    assert_eq!(dated.root, root, "dated log dir should stay under root");
    let parts = dated.names;

    assert_eq!(parts.len(), 3);
    assert_eq!(parts[0].len(), 4);
    assert_eq!(parts[1].len(), 2);
    assert_eq!(parts[2].len(), 2);
    assert!(parts[0].chars().all(|ch| ch.is_ascii_digit()));
    assert!(parts[1].chars().all(|ch| ch.is_ascii_digit()));
    assert!(parts[2].chars().all(|ch| ch.is_ascii_digit()));
}

fn date(year: i32, month: u32, day: u32) -> LogDate {
    LogDate { year, month, day }
}

fn shown(path: &LogPath<&str>) -> String {
    format!("{}/{}", path.root, path.names.join("/"))
}

#[test]
fn today_is_a_day_of_the_calendar() {
    let today = LogDate::today();
    assert_eq!(today.naive_date(), Some(today));
    assert!(today.year >= 2024);
}

#[test]
fn paths_are_written_with_leading_zeros() {
    let day = date(2026, 7, 3);
    assert_eq!(shown(&dated_log_dir_for("logs", day)), "logs/2026/07/03");
    assert_eq!(day.file_name("aioncore.log"), "2026-07-03.aioncore.log");
    assert_eq!(day.rolled_file_name(0, "aioncore.log"), "2026-07-03.aioncore.log");
    assert_eq!(day.rolled_file_name(12, "aioncore.log"), "2026-07-03.12.aioncore.log");
    assert_eq!(
        shown(&rolled_log_file_path("logs", day, 1, "aionrs.log")),
        "logs/2026/07/03/2026-07-03.1.aionrs.log"
    );
    assert_eq!(date(-5, 1, 2).file_name("x"), "-005-01-02.x");
    assert_eq!(date(12345, 11, 22).file_name("x"), "12345-11-22.x");
}

#[test]
fn partitions_are_read_strictly() {
    assert_eq!(parse_log_partition("2026", "07", "06"), Some(date(2026, 7, 6)));
    assert_eq!(parse_log_partition("2024", "02", "29"), Some(date(2024, 2, 29)));
    assert_eq!(parse_log_partition("2023", "02", "29"), None);
    assert_eq!(parse_log_partition("2026", "7", "06"), None);
    assert_eq!(parse_log_partition("2026", "13", "06"), None);
    assert_eq!(parse_log_partition("manu", "al", "xx"), None);
    assert_eq!(parse_log_partition("-005", "01", "02"), Some(date(-5, 1, 2)));
    assert_eq!(parse_log_partition("+026", "+1", "+2"), Some(date(26, 1, 2)));
    assert_eq!(parse_log_partition("2026", "0a", "06"), None);
}

#[test]
fn day_numbers_count_days() {
    assert_eq!(date(1, 1, 1).number(), 1);
    assert_eq!(date(0, 12, 31).number(), 0);
    assert_eq!(date(1970, 1, 1).number(), 719_163);
    assert_eq!(date(2024, 3, 1).number() - date(2024, 2, 28).number(), 2);
    assert_eq!(date(2024, 3, 1).minus_days(1), date(2024, 2, 29));
    assert_eq!(date(2026, 1, 1).minus_days(365), date(2025, 1, 1));
    assert!(date(2025, 12, 31).is_before(date(2026, 1, 1)));
    assert!(!date(2026, 1, 1).is_before(date(2026, 1, 1)));
}

fn month(name: &str, days: &[&str]) -> MonthListing {
    MonthListing {
        name: name.to_owned(),
        days: Some(days.iter().map(|day| (*day).to_owned()).collect()),
    }
}

fn year(name: &str, months: Vec<MonthListing>) -> YearListing {
    YearListing { name: name.to_owned(), months: Some(months) }
}

#[test]
fn cleanup_expired_log_partitions_keeps_retention_window_and_unknown_dirs() {
    let listing = vec![
        year("2026", vec![month("07", &["06", "07", "20"])]),
        year("manual", vec![]),
    ];

    let steps = cleanup_expired_log_partitions(&listing, date(2026, 7, 20), 14);

    assert_eq!(
        steps,
        vec![
            CleanupStep::RemoveDay { year: 0, month: 0, day: 0 },
            CleanupStep::RemoveMonthIfEmpty { year: 0, month: 0 },
            CleanupStep::RemoveYearIfEmpty { year: 0 },
            CleanupStep::RemoveYearIfEmpty { year: 1 },
        ]
    );
}

#[test]
fn unreadable_directories_are_left_alone() {
    let listing = vec![
        YearListing { name: "2020".to_owned(), months: None },
        year("2021", vec![MonthListing { name: "01".to_owned(), days: None }]),
        year("2022", vec![month("01", &["01", "x1"])]),
    ];
    assert_eq!(
        cleanup_expired_log_partitions(&listing, date(2026, 7, 20), 14),
        vec![
            CleanupStep::RemoveYearIfEmpty { year: 1 },
            CleanupStep::RemoveDay { year: 2, month: 0, day: 0 },
            CleanupStep::RemoveMonthIfEmpty { year: 2, month: 0 },
            CleanupStep::RemoveYearIfEmpty { year: 2 },
        ]
    );
    assert_eq!(
        cleanup_expired_log_partitions(&listing, date(2026, 2, 30), 14),
        vec![]
    );
}

#[test]
fn retention_keeps_at_least_the_present_day() {
    assert_eq!(first_kept_date(date(2026, 7, 20), 14), Some(date(2026, 7, 7)));
    assert_eq!(first_kept_date(date(2026, 7, 20), 1), Some(date(2026, 7, 20)));
    assert_eq!(first_kept_date(date(2026, 7, 20), -3), Some(date(2026, 7, 20)));
    assert_eq!(first_kept_date(date(2026, 7, 32), 14), None);
    assert!(is_expired_partition("2026", "07", "19", date(2026, 7, 20)));
    assert!(!is_expired_partition("2026", "07", "20", date(2026, 7, 20)));
    assert!(!is_expired_partition("2026", "07", "xx", date(2026, 7, 20)));
    assert!(is_retention_in_range(date(2026, 7, 20), 14));
    assert!(!is_retention_in_range(date(2026, 7, 20), i64::MAX));
    assert!(is_retention_in_range(date(2026, 7, 32), i64::MAX));
}

/// Log files that are held in memory.
struct Files {
    root: &'static str,
    suffix: &'static str,
    files: BTreeMap<String, Vec<u8>>,
    open: Option<String>,
    cleanups: Vec<LogDate>,
    refuse_open: bool,
}

impl Files {
    fn new(suffix: &'static str) -> Self {
        Files {
            root: "logs",
            suffix,
            files: BTreeMap::new(),
            open: None,
            cleanups: Vec::new(),
            refuse_open: false,
        }
    }

    fn path(&self, date: LogDate, part: u32) -> String {
        shown(&rolled_log_file_path(self.root, date, part, self.suffix))
    }

    fn write(&mut self, writer: &mut DailyDatedLogWriter, date: LogDate, bytes: &[u8]) -> WriteOutcome {
        let mut action = writer.begin_write(date, bytes.len());
        loop {
            let event = match action {
                WriterAction::CleanUp { date, .. } => {
                    self.open = None;
                    self.cleanups.push(date);
                    WriterEvent::Done
                }
                WriterAction::Probe { date, part } => {
                    WriterEvent::Present(self.files.contains_key(&self.path(date, part)))
                }
                WriterAction::Open { .. } if self.refuse_open => WriterEvent::Failed,
                WriterAction::Open { date, part } => {
                    let path = self.path(date, part);
                    let size = self.files.entry(path.clone()).or_default().len();
                    self.open = Some(path);
                    WriterEvent::Opened(size as u64)
                }
                WriterAction::Remove { date, part } => {
                    self.open = None;
                    let path = self.path(date, part);
                    self.files.remove(&path);
                    WriterEvent::Done
                }
                WriterAction::MoveIfPresent { date, from, to } => {
                    let (from, to) = (self.path(date, from), self.path(date, to));
                    if let Some(content) = self.files.remove(&from) {
                        self.files.insert(to, content);
                    }
                    WriterEvent::Done
                }
                WriterAction::Append => {
                    let path = self.open.clone().expect("an open file");
                    self.files.get_mut(&path).expect("the open file").extend_from_slice(bytes);
                    WriterEvent::Done
                }
                WriterAction::Finish(outcome) => return outcome,
            };
            action = writer.handle(event);
        }
    }

    fn read(&self, path: &str) -> Option<&str> {
        self.files
            .get(path)
            .map(|content| std::str::from_utf8(content).expect("text"))
    }
}

#[test]
fn dated_file_writer_moves_new_day_files_into_matching_day_directory() {
    let first_day = date(2026, 7, 2);
    let second_day = date(2026, 7, 3);
    let mut writer = DailyDatedLogWriter::new();
    let mut files = Files::new("aioncore.log");

    assert_eq!(files.write(&mut writer, first_day, b"july 2\n"), WriteOutcome::Written);
    assert_eq!(files.write(&mut writer, second_day, b"july 3\n"), WriteOutcome::Written);

    assert_eq!(files.read("logs/2026/07/02/2026-07-02.aioncore.log"), Some("july 2\n"));
    assert_eq!(files.read("logs/2026/07/03/2026-07-03.aioncore.log"), Some("july 3\n"));
    assert!(files.read("logs/2026/07/02/2026-07-03.aioncore.log").is_none());
    assert_eq!(files.cleanups, vec![first_day, second_day]);
}

#[test]
fn dated_file_writer_rolls_by_size_and_caps_daily_parts() {
    let day = date(2026, 7, 3);
    let mut writer = DailyDatedLogWriter::new_with_policy(8, 3, 14);
    let mut files = Files::new("aioncore.log");

    for line in [&b"first\n"[..], &b"second\n"[..], &b"third\n"[..], &b"fourth\n"[..]] {
        assert_eq!(files.write(&mut writer, day, line), WriteOutcome::Written);
    }

    assert_eq!(files.read("logs/2026/07/03/2026-07-03.aioncore.log"), Some("second\n"));
    assert_eq!(files.read("logs/2026/07/03/2026-07-03.1.aioncore.log"), Some("third\n"));
    assert_eq!(files.read("logs/2026/07/03/2026-07-03.2.aioncore.log"), Some("fourth\n"));
    assert_eq!(files.files.len(), 3);
}

#[test]
fn files_hold_the_newest_writes_whole_and_in_order() {
    let day = date(2026, 7, 3);
    let max_bytes = 7;
    let max_files = 3;
    let mut writer = DailyDatedLogWriter::new_with_policy(max_bytes, max_files, 14);
    let mut files = Files::new("x.log");
    let buffers: Vec<String> = (0..40usize)
        .map(|i| format!("<{}>", "x".repeat((i * 5) % 11)))
        .collect();
    for n in 0..buffers.len() {
        assert_eq!(files.write(&mut writer, day, buffers[n].as_bytes()), WriteOutcome::Written);
        let parts: Vec<&str> = (0..files.files.len() as u32)
            .map(|part| files.read(&files.path(day, part)).expect("no gap"))
            .collect();
        assert!(1 <= parts.len() && parts.len() <= max_files as usize);
        let kept = parts.concat();
        let first = (0..=n)
            .find(|i| buffers[*i..=n].concat() == kept)
            .expect("the newest writes");
        assert!(first <= n);
        for part in parts {
            assert!(part.starts_with('<') && part.ends_with('>'));
            assert!(part.len() as u64 <= max_bytes || buffers.iter().any(|buffer| buffer == part));
        }
    }
}

#[test]
fn empty_writes_do_not_fill_a_file() {
    let day = date(2026, 7, 3);
    let mut writer = DailyDatedLogWriter::new_with_policy(4, 2, 14);
    let mut files = Files::new("x.log");
    for bytes in [&b""[..], &b"abcdef"[..], &b""[..], &b"gh"[..]] {
        assert_eq!(files.write(&mut writer, day, bytes), WriteOutcome::Written);
    }
    assert_eq!(files.read("logs/2026/07/03/2026-07-03.x.log"), Some("abcdef"));
    assert_eq!(files.read("logs/2026/07/03/2026-07-03.1.x.log"), Some("gh"));
}

#[test]
fn writer_goes_on_with_the_last_file_of_the_day() {
    let day = date(2026, 7, 3);
    let mut files = Files::new("aioncore.log");
    let mut first = DailyDatedLogWriter::new_with_policy(8, 3, 14);
    files.write(&mut first, day, b"12345678");
    files.write(&mut first, day, b"abc");

    let mut restarted = DailyDatedLogWriter::new_with_policy(8, 3, 14);
    files.write(&mut restarted, day, b"def");
    assert_eq!(files.read("logs/2026/07/03/2026-07-03.1.aioncore.log"), Some("abcdef"));
    files.write(&mut restarted, day, b"ghi");
    assert_eq!(files.read("logs/2026/07/03/2026-07-03.2.aioncore.log"), Some("ghi"));
    assert_eq!(files.cleanups, vec![day, day]);
}

#[test]
fn writer_reports_what_failed() {
    let day = date(2026, 7, 3);
    let mut files = Files::new("aioncore.log");
    let mut writer = DailyDatedLogWriter::new();
    files.refuse_open = true;
    assert_eq!(files.write(&mut writer, day, b"lost"), WriteOutcome::OpenFailed);
    files.refuse_open = false;
    assert_eq!(files.write(&mut writer, day, b"kept"), WriteOutcome::Written);
    assert_eq!(files.read("logs/2026/07/03/2026-07-03.aioncore.log"), Some("kept"));

    // The next day cannot be opened, and then the clock goes back.
    files.refuse_open = true;
    assert_eq!(files.write(&mut writer, date(2026, 7, 4), b"lost"), WriteOutcome::OpenFailed);
    assert_eq!(files.write(&mut writer, day, b"lost"), WriteOutcome::NotOpened);

    let mut direct = DailyDatedLogWriter::new();
    assert_eq!(
        direct.begin_write(day, 1),
        WriterAction::CleanUp { date: day, retention_days: 14 }
    );
    assert_eq!(direct.handle(WriterEvent::Done), WriterAction::Probe { date: day, part: 0 });
    assert_eq!(
        direct.handle(WriterEvent::Present(false)),
        WriterAction::Open { date: day, part: 0 }
    );
    assert_eq!(direct.handle(WriterEvent::Opened(0)), WriterAction::Append);
    assert_eq!(
        direct.handle(WriterEvent::Failed),
        WriterAction::Finish(WriteOutcome::AppendFailed)
    );
}

#[test]
fn limits_are_at_least_one() {
    let writer = DailyDatedLogWriter::new_with_policy(0, 0, -1);
    assert_eq!(writer.max_file_bytes, 1);
    assert_eq!(writer.max_files_per_day, 1);
    assert_eq!(writer.retention_days, 1);
    assert_eq!(LOG_FILE_SIZE_LIMIT_BYTES, 10 * 1024 * 1024);
    assert_eq!(LOG_FILES_PER_DAY_LIMIT, 5);
    assert_eq!(LOG_RETENTION_DAYS, 14);

    let day = date(2026, 7, 3);
    let mut single = DailyDatedLogWriter::new_with_policy(4, 1, 14);
    let mut files = Files::new("x.log");
    files.write(&mut single, day, b"abc");
    files.write(&mut single, day, b"defgh");
    assert_eq!(files.read("logs/2026/07/03/2026-07-03.x.log"), Some("defgh"));
    assert_eq!(files.files.len(), 1);
}

fn failure(kind: &str) -> DirFailure {
    DirFailure { kind: kind.to_owned(), message: format!("{kind} happened") }
}

/// Picks a log root where the directories in `broken` cannot be created.
fn pick(
    custom: Option<&'static str>,
    default_dir: &'static str,
    broken: &[&str],
) -> (Result<LogDirSelection<&'static str>, BootstrapError>, Vec<String>) {
    let today = date(2026, 7, 20);
    let mut created = Vec::new();
    let mut search =
        LogRootSearch::select_log_root(custom, default_dir, custom == Some(default_dir));
    loop {
        let dir = search.attempt(today);
        let text = shown(&dir);
        let outcome = if broken.contains(&dir.root) {
            Err(failure("NotADirectory"))
        } else {
            created.push(text.clone());
            Ok(())
        };
        match search.settle(dir, &text, custom.unwrap_or(""), outcome) {
            LogRootStep::Retry(next) => search = next,
            LogRootStep::Done(selection) => return (selection, created),
        }
    }
}

#[test]
fn select_log_root_uses_creatable_custom_dir_without_fallback() {
    let (selection, created) = pick(Some("custom-logs"), "default-logs", &[]);
    let selection = selection.expect("creatable custom dir should be selected");

    assert_eq!(selection.root, "custom-logs");
    assert!(selection.fallback.is_none());
    assert_eq!(selection.active_dir.root, "custom-logs");
    assert_eq!(created, vec![shown(&selection.active_dir)]);
}

#[test]
fn select_log_root_falls_back_to_default_when_custom_dir_is_unusable() {
    let (selection, created) = pick(Some("occupied"), "default-logs", &["occupied"]);
    let selection = selection.expect("unusable custom dir must degrade, not fail");

    assert_eq!(selection.root, "default-logs");
    assert_eq!(selection.active_dir.root, "default-logs");
    assert_eq!(created, vec!["default-logs/2026/07/20".to_owned()]);
    let fallback = selection
        .fallback
        .expect("fallback details must be recorded for the warn log");
    assert_eq!(fallback.requested_dir, "occupied");
    assert_eq!(fallback.error_kind, "NotADirectory");
}

#[test]
fn select_log_root_stays_fatal_with_error_kind_when_default_dir_is_unusable() {
    let (selection, _) = pick(None, "occupied", &["occupied"]);
    let err = selection.expect_err("default dir failure must stay fatal");

    assert_eq!(err.code, BootstrapErrorCode::LoggingInitFailed);
    assert_eq!(err.stage, "logging.dir");
    assert_eq!(err.message, LOGGING_INIT_MESSAGE);
    assert_eq!(err.source.as_deref(), Some("NotADirectory happened"));
    assert_eq!(
        fields(&err),
        vec![("logDir", "occupied/2026/07/20"), ("errorKind", "NotADirectory")]
    );
}

#[test]
fn select_log_root_stays_fatal_when_both_custom_and_default_dirs_are_unusable() {
    let (selection, _) = pick(
        Some("custom-occupied"),
        "default-occupied",
        &["custom-occupied", "default-occupied"],
    );
    let err = selection.expect_err("both dirs failing must stay fatal");

    assert_eq!(err.code, BootstrapErrorCode::LoggingInitFailed);
    assert_eq!(err.stage, "logging.dir");
    assert_eq!(
        fields(&err),
        vec![
            ("logDir", "default-occupied/2026/07/20"),
            ("errorKind", "NotADirectory"),
            ("requestedLogDir", "custom-occupied"),
            ("requestedErrorKind", "NotADirectory"),
        ]
    );
}

#[test]
fn custom_dir_that_is_the_default_has_nothing_to_fall_back_to() {
    let (selection, created) = pick(Some("logs"), "logs", &["logs"]);
    assert!(created.is_empty());
    assert_eq!(fields(&selection.expect_err("nothing is left")).len(), 2);
    let (selection, _) = pick(Some("logs"), "logs", &[]);
    assert!(selection.expect("it can be created").fallback.is_none());
}
