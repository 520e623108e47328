//! Which directory the logs go to.

use vstd::prelude::*;

use crate::bootstrap_error::{BootstrapError, BootstrapErrorCode};
use crate::log_date;
use crate::log_date::{LogDate, LogPath};
use crate::log_filter::LOGGING_INIT_MESSAGE;

verus! {

/// Why a directory could not be created.
#[derive(Debug)]
pub struct DirFailure {
    /// The kind of error: a plain name, with no path and no message of the system in it.
    pub kind: String,
    /// The error's own text.
    pub message: String,
}

/// Whether an error says that the directory `active_log_dir` could not be created.
pub open spec fn is_dir_error(
    error: BootstrapError,
    active_log_dir: Seq<char>,
    failure: DirFailure,
    more: Seq<(Seq<char>, Seq<char>)>,
) -> bool {
    &&& error.code == BootstrapErrorCode::LoggingInitFailed
    &&& error.stage@ == "logging.dir"@
    &&& error.message@ == LOGGING_INIT_MESSAGE@
    &&& error.has_source(failure.message@)
    &&& error.spec_fields() == seq![
        ("logDir"@, active_log_dir),
        ("errorKind"@, failure.kind@),
    ] + more
}

/// The error for a log directory that could not be created.
pub fn logging_dir_error(active_log_dir: &str, failure: DirFailure) -> (error: BootstrapError)
    ensures
        is_dir_error(error, active_log_dir@, failure, Seq::empty()),
{
    let error = BootstrapError::new(
        BootstrapErrorCode::LoggingInitFailed,
        "logging.dir",
        LOGGING_INIT_MESSAGE,
    ).with_source(failure.message).with_field("logDir", active_log_dir.to_owned()).with_field(
        "errorKind",
        failure.kind,
    );
    assert(error.spec_fields() =~= seq![
        ("logDir"@, active_log_dir@),
        ("errorKind"@, failure.kind@),
    ] + Seq::<(Seq<char>, Seq<char>)>::empty());
    error
}

/// The error for a subscriber that could not be installed.
pub fn subscriber_error(active_log_dir: &str, source: String) -> (error: BootstrapError)
    ensures
        error.code == BootstrapErrorCode::LoggingInitFailed,
        error.stage@ == "logging.subscriber"@,
        error.message@ == LOGGING_INIT_MESSAGE@,
        error.has_source(source@),
        error.spec_fields() == seq![("logDir"@, active_log_dir@)],
{
    let error = BootstrapError::new(
        BootstrapErrorCode::LoggingInitFailed,
        "logging.subscriber",
        LOGGING_INIT_MESSAGE,
    ).with_source(source).with_field("logDir", active_log_dir.to_owned());
    assert(error.spec_fields() =~= seq![("logDir"@, active_log_dir@)]);
    error
}

/// A custom log directory that could not be used, reported once logging works.
#[derive(Debug)]
pub struct LogDirFallback<R> {
    /// The directory that was asked for.
    pub requested_dir: R,
    /// The kind of error that came of creating it.
    pub error_kind: String,
}

/// The log root that was picked.
#[derive(Debug)]
pub struct LogDirSelection<R> {
    /// The root.
    pub root: R,
    /// The directory below it that was created.
    pub active_dir: LogPath<R>,
    /// What went wrong with the directory that was asked for, if it is not the one picked.
    pub fallback: Option<LogDirFallback<R>>,
}

/// The search for a log root that can be used.
///
/// A custom directory that cannot be created must not keep the process from starting: the default
/// directory takes its place. Where that one cannot be created either, the search fails.
#[derive(Debug)]
pub enum LogRootSearch<R> {
    /// The custom directory is tried; the default one is left.
    Custom { custom: R, default_dir: R },
    /// The last directory is tried. `requested` is the custom one that failed before it, with the
    /// kind of error.
    Last { root: R, requested: Option<LogDirFallback<R>> },
}

/// Where the search for a log root stands after an attempt.
#[derive(Debug)]
pub enum LogRootStep<R> {
    /// Another directory is to be tried.
    Retry(LogRootSearch<R>),
    /// The search is over.
    Done(Result<LogDirSelection<R>, BootstrapError>),
}

/// Whether a step is what the outcome of creating `active_dir` calls for.
pub open spec fn is_settled<R: Copy>(
    search: LogRootSearch<R>,
    active_dir: LogPath<R>,
    active_dir_text: Seq<char>,
    requested_dir_text: Seq<char>,
    outcome: Result<(), DirFailure>,
    step: LogRootStep<R>,
) -> bool {
    match (search, outcome) {
        (_, Ok(())) => step matches LogRootStep::Done(Ok(selection)) && {
            &&& selection.root == search.spec_root()
            &&& selection.active_dir == active_dir
            &&& selection.fallback == match search {
                LogRootSearch::Custom { .. } => None,
                LogRootSearch::Last { requested, .. } => requested,
            }
        },
        (LogRootSearch::Custom { custom, default_dir }, Err(failure)) => step == LogRootStep::Retry(
            LogRootSearch::Last {
                root: default_dir,
                requested: Some(
                    LogDirFallback { requested_dir: custom, error_kind: failure.kind },
                ),
            },
        ),
        (LogRootSearch::Last { requested, .. }, Err(failure)) => step matches LogRootStep::Done(
            Err(error),
        ) && is_dir_error(
            error,
            active_dir_text,
            failure,
            match requested {
                None => Seq::empty(),
                Some(fallback) => seq![
                    ("requestedLogDir"@, requested_dir_text),
                    ("requestedErrorKind"@, fallback.error_kind@),
                ],
            },
        ),
    }
}

/// A custom directory that cannot be created does not keep the process from starting: the default
/// directory is tried next, and where it can be created it is picked, with a note of what went
/// wrong.
pub proof fn unusable_custom_dir_falls_back<R: Copy>(
    custom: R,
    default_dir: R,
    custom_active: LogPath<R>,
    default_active: LogPath<R>,
    shown: Seq<char>,
    requested: Seq<char>,
    failure: DirFailure,
    first: LogRootStep<R>,
    second: LogRootStep<R>,
)
    requires
        is_settled(
            LogRootSearch::Custom { custom, default_dir },
            custom_active,
            shown,
            requested,
            Err(failure),
            first,
        ),
        first matches LogRootStep::Retry(search) ==> is_settled(
            search,
            default_active,
            shown,
            requested,
            Ok(()),
            second,
        ),
    ensures
        first is Retry,
        second == LogRootStep::Done(
            Ok::<LogDirSelection<R>, BootstrapError>(
                LogDirSelection {
                    root: default_dir,
                    active_dir: default_active,
                    fallback: Some(
                        LogDirFallback { requested_dir: custom, error_kind: failure.kind },
                    ),
                },
            ),
        ),
{
}

/// Where the default directory cannot be created either the start fails, and the error names the
/// kind of both failures.
pub proof fn unusable_default_dir_is_fatal<R: Copy>(
    custom: R,
    default_dir: R,
    custom_active: LogPath<R>,
    default_active: LogPath<R>,
    shown: Seq<char>,
    requested: Seq<char>,
    failure: DirFailure,
    default_failure: DirFailure,
    first: LogRootStep<R>,
    second: LogRootStep<R>,
)
    requires
        is_settled(
            LogRootSearch::Custom { custom, default_dir },
            custom_active,
            shown,
            requested,
            Err(failure),
            first,
        ),
        first matches LogRootStep::Retry(search) ==> is_settled(
            search,
            default_active,
            shown,
            requested,
            Err(default_failure),
            second,
        ),
    ensures
        second matches LogRootStep::Done(Err(error)) && error.stage@ == "logging.dir"@
            && error.spec_fields().contains(("errorKind"@, default_failure.kind@))
            && error.spec_fields().contains(("requestedErrorKind"@, failure.kind@)),
{
    if let LogRootStep::Done(Err(error)) = second {
        assert(error.spec_fields()[1] == ("errorKind"@, default_failure.kind@));
        assert(error.spec_fields()[3] == ("requestedErrorKind"@, failure.kind@));
    }
}

impl<R: Copy> LogRootSearch<R> {
    /// The root that is tried.
    pub open spec fn spec_root(self) -> R {
        match self {
            LogRootSearch::Custom { custom, .. } => custom,
            LogRootSearch::Last { root, .. } => root,
        }
    }

    /// Starts the search. `same_dir` says whether the custom directory is the default one, in
    /// which case there is nothing to fall back to.
    pub fn select_log_root(custom_log_dir: Option<R>, default_log_dir: R, same_dir: bool) -> (search:
        Self)
        ensures
            search == match custom_log_dir {
                Some(custom) if !same_dir => LogRootSearch::Custom {
                    custom,
                    default_dir: default_log_dir,
                },
                Some(custom) => LogRootSearch::Last { root: custom, requested: None },
                None => LogRootSearch::Last { root: default_log_dir, requested: None },
            },
    {
        match custom_log_dir {
            Some(custom) => {
                if same_dir {
                    LogRootSearch::Last { root: custom, requested: None }
                } else {
                    LogRootSearch::Custom { custom, default_dir: default_log_dir }
                }
            },
            None => LogRootSearch::Last { root: default_log_dir, requested: None },
        }
    }

    /// The directory to create: that of `today` below the root that is tried.
    pub fn attempt(&self, today: LogDate) -> (dir: LogPath<R>)
        ensures
            dir.root == self.spec_root(),
            dir.spec_names() == log_date::day_directories(today),
    {
        let root: R = match self {
            LogRootSearch::Custom { custom, .. } => *custom,
            LogRootSearch::Last { root, .. } => *root,
        };
        log_date::dated_log_dir_for(root, today)
    }

    /// Takes what came of creating `active_dir`. The two texts show that directory and, where a
    /// custom directory failed before, the one that was asked for.
    pub fn settle(
        self,
        active_dir: LogPath<R>,
        active_dir_text: &str,
        requested_dir_text: &str,
        outcome: Result<(), DirFailure>,
    ) -> (step: LogRootStep<R>)
        ensures
            is_settled(
                self,
                active_dir,
                active_dir_text@,
                requested_dir_text@,
                outcome,
                step,
            ),
    {
        match outcome {
            Ok(()) => match self {
                LogRootSearch::Custom { custom, .. } => LogRootStep::Done(
                    Ok(LogDirSelection { root: custom, active_dir, fallback: None }),
                ),
                LogRootSearch::Last { root, requested } => LogRootStep::Done(
                    Ok(LogDirSelection { root, active_dir, fallback: requested }),
                ),
            },
            Err(failure) => match self {
                LogRootSearch::Custom { custom, default_dir } => LogRootStep::Retry(
                    LogRootSearch::Last {
                        root: default_dir,
                        requested: Some(
                            LogDirFallback { requested_dir: custom, error_kind: failure.kind },
                        ),
                    },
                ),
                LogRootSearch::Last { requested, .. } => {
                    let error = logging_dir_error(active_dir_text, failure);
                    match requested {
                        None => LogRootStep::Done(Err(error)),
                        Some(fallback) => {
                            let error = error.with_field(
                                "requestedLogDir",
                                requested_dir_text.to_owned(),
                            ).with_field("requestedErrorKind", fallback.error_kind);
                            assert(error.spec_fields() =~= seq![
                                ("logDir"@, active_dir_text@),
                                ("errorKind"@, failure.kind@),
                            ] + seq![
                                ("requestedLogDir"@, requested_dir_text@),
                                ("requestedErrorKind"@, fallback.error_kind@),
                            ]);
                            LogRootStep::Done(Err(error))
                        },
                    }
                },
            },
        }
    }
}

} // verus!
