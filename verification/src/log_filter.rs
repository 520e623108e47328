//! Which log records go to the console and to the log files.

use tracing_subscriber::filter::ParseError;
use tracing_subscriber::EnvFilter;
use vstd::prelude::*;
use vstd::string::*;
use vstd::utf8::*;

use crate::bootstrap_error::{BootstrapError, BootstrapErrorCode};
use crate::text;

verus! {

/// `tracing_subscriber::EnvFilter`, a filter made of directives.
#[verifier::external_type_specification]
#[verifier::external_body]
pub struct ExEnvFilter(tracing_subscriber::EnvFilter);

/// `tracing_subscriber::filter::ParseError`, which says why a directive could not be read.
#[verifier::external_type_specification]
#[verifier::external_body]
pub struct ExParseError(tracing_subscriber::filter::ParseError);

/// The filter that `EnvFilter::new` makes of a list of directives.
pub uninterp spec fn env_filter(directives: Seq<char>) -> EnvFilter;

/// What `EnvFilter::try_new` makes of a list of directives.
pub uninterp spec fn strict_env_filter(directives: Seq<char>) -> Result<EnvFilter, ParseError>;

/// Whether a character ends a part of a directive.
pub open spec fn ends_part(c: char) -> bool {
    c == '=' || c == '[' || c == ']' || c == '{' || c == '}'
}

/// Whether a character begins another part of a directive.
pub open spec fn begins_part(c: char) -> bool {
    c == '=' || c == '[' || c == '{'
}

/// Whether the places next to a character, which stands `at` bytes into a trimmed directive, are
/// places between characters of the directive as it stands too.
pub open spec fn is_cut_safe_at(directive: Seq<char>, c: char, at: nat) -> bool {
    &&& ends_part(c) ==> is_char_boundary(encode_utf8(directive), at as int)
    &&& begins_part(c) ==> is_char_boundary(encode_utf8(directive), at as int + 1)
}

/// Whether a directive can be taken apart. tracing-subscriber looks for the parts in the directive
/// without the whitespace around it, but cuts them out of the directive as it stands; where there
/// is whitespace before it, a cut may come to lie within a character, which is a panic.
pub open spec fn is_cut_safe(directive: Seq<char>) -> bool {
    let read = text::trimmed(directive);
    forall|k: int|
        0 <= k < read.len() ==> is_cut_safe_at(
            directive,
            #[trigger] read[k],
            text::byte_len(read.take(k)),
        )
}

/// Whether a list of directives has one from place `i` on and before place `j`.
pub open spec fn is_element(list: Seq<char>, i: int, j: int) -> bool {
    &&& 0 <= i <= j <= list.len()
    &&& i == 0 || list[i - 1] == ','
    &&& j == list.len() || list[j] == ','
    &&& forall|k: int| i <= k < j ==> (#[trigger] list[k]) != ','
}

/// Whether every directive of a list can be taken apart.
pub open spec fn is_readable_list(list: Seq<char>) -> bool {
    forall|i: int, j: int| #[trigger] is_element(list, i, j) ==> is_cut_safe(list.subrange(i, j))
}

/// `EnvFilter::new` of tracing-subscriber: the filter that the directives stand for. Directives
/// that it cannot read it leaves out, with a note on the standard error output. A list with a
/// directive that it would cut within a character is ruled out. What a filter lets through, and
/// what a regular expression in a directive costs, is not stated.
#[verifier::external_body]
fn new_env_filter(directives: &str) -> (filter: EnvFilter)
    requires
        is_readable_list(directives@),
    ensures
        filter == env_filter(directives@),
{
    EnvFilter::new(directives)
}

/// `EnvFilter::try_new` of tracing-subscriber: the filter that the directives stand for, or an
/// error where it cannot read one of them. A list with a directive that it would cut within a
/// character is ruled out. Which directives it can read, and what a regular expression in one
/// costs, is not stated.
#[verifier::external_body]
fn try_new_env_filter(directives: &str) -> (filter: Result<EnvFilter, ParseError>)
    requires
        is_readable_list(directives@),
    ensures
        filter == strict_env_filter(directives@),
{
    EnvFilter::try_new(directives)
}

/// Directives that keep noise and raw payloads out of every log.
///
/// The ACP SDK logs raw messages at debug and trace, with the texts of users and agents in them;
/// aionrs does so with request bodies and stream chunks. Their lifecycle records stay.
pub open spec fn noise_suppressions() -> Seq<Seq<char>> {
    seq![
        "sqlx::query=warn"@,
        "hyper_util=warn"@,
        "reqwest=warn"@,
        "agent_client_protocol::jsonrpc=info"@,
        "aion_agent=info"@,
        "aion_providers=info"@,
    ]
}

/// The targets that aionrs logs under.
pub open spec fn aionrs_targets() -> Seq<Seq<char>> {
    seq![
        "aion_agent"@,
        "aion_config"@,
        "aion_compact"@,
        "aion_mcp"@,
        "aion_providers"@,
        "aion_protocol"@,
        "aion_tools"@,
        "aion_skills"@,
        "aion_memory"@,
    ]
}

/// Whether records of a target may hold raw payloads at debug and trace.
pub open spec fn logs_raw_payloads(target: Seq<char>) -> bool {
    target == "aion_agent"@ || target == "aion_providers"@
}

/// The level that the user asked for; `info` where they did not.
pub open spec fn level_or_info(log_level: Option<&str>) -> Seq<char> {
    match log_level {
        Some(level) => level@,
        None => "info"@,
    }
}

/// The directives for the console.
pub open spec fn console_directives(log_level: Option<&str>) -> Seq<char> {
    text::joined(noise_suppressions(), ","@) + ","@ + level_or_info(log_level)
}

/// The directives that switch aionrs off.
pub open spec fn aionrs_off() -> Seq<Seq<char>> {
    Seq::new(aionrs_targets().len(), |i: int| aionrs_targets()[i] + "=off"@)
}

/// The directives for the backend's log file, which leaves aionrs out.
pub open spec fn backend_directives(log_level: Option<&str>) -> Seq<char> {
    text::joined(noise_suppressions(), ","@) + ","@ + text::joined(aionrs_off(), ","@) + ","@
        + level_or_info(log_level)
}

/// The directive for one target of aionrs: the user's level, but `info` where records may hold
/// raw payloads.
pub open spec fn aionrs_directive(target: Seq<char>, level: Seq<char>) -> Seq<char> {
    target + "="@ + if logs_raw_payloads(target) {
        "info"@
    } else {
        level
    }
}

/// The directives for aionrs' log file.
pub open spec fn aionrs_directives(log_level: Option<&str>) -> Seq<char> {
    text::joined(
        Seq::new(
            aionrs_targets().len(),
            |i: int| aionrs_directive(aionrs_targets()[i], level_or_info(log_level)),
        ),
        ","@,
    )
}

/// What is reported when logging cannot be set up.
pub const LOGGING_INIT_MESSAGE: &'static str = "failed to initialize logging";

fn owned(list: Vec<&'static str>) -> (strings: Vec<String>)
    ensures
        text::texts(strings@) == Seq::new(list@.len(), |i: int| list@[i]@),
{
    let mut strings: Vec<String> = Vec::new();
    let mut i: usize = 0;
    while i < list.len()
        invariant
            i <= list@.len(),
            strings@.len() == i,
            forall|j: int| 0 <= j < i ==> (#[trigger] strings@[j])@ == list@[j]@,
        decreases list@.len() - i,
    {
        strings.push(list[i].to_owned());
        i += 1;
    }
    assert(text::texts(strings@) =~= Seq::new(list@.len(), |i: int| list@[i]@));
    strings
}

fn noise_suppression_list() -> (list: Vec<String>)
    ensures
        text::texts(list@) == noise_suppressions(),
{
    let list = owned(
        vec![
            "sqlx::query=warn",
            "hyper_util=warn",
            "reqwest=warn",
            "agent_client_protocol::jsonrpc=info",
            "aion_agent=info",
            "aion_providers=info",
        ],
    );
    assert(text::texts(list@) =~= noise_suppressions());
    list
}

fn aionrs_target_list() -> (list: Vec<String>)
    ensures
        text::texts(list@) == aionrs_targets(),
{
    let list = owned(
        vec![
            "aion_agent",
            "aion_config",
            "aion_compact",
            "aion_mcp",
            "aion_providers",
            "aion_protocol",
            "aion_tools",
            "aion_skills",
            "aion_memory",
        ],
    );
    assert(text::texts(list@) =~= aionrs_targets());
    list
}

fn level_text<'a>(log_level: Option<&'a str>) -> (level: &'a str)
    ensures
        level@ == level_or_info(log_level),
{
    match log_level {
        Some(level) => level,
        None => "info",
    }
}

/// The directives for the console.
pub fn env_filter_directives(log_level: Option<&str>) -> (directives: String)
    ensures
        directives@ == console_directives(log_level),
{
    let mut directives = text::join(&noise_suppression_list(), ",");
    directives.append(",");
    directives.append(level_text(log_level));
    directives
}

/// The directives for the backend's log file.
pub fn backend_filter_directives(log_level: Option<&str>) -> (directives: String)
    ensures
        directives@ == backend_directives(log_level),
{
    let targets = aionrs_target_list();
    let mut off: Vec<String> = Vec::new();
    let mut i: usize = 0;
    while i < targets.len()
        invariant
            text::texts(targets@) == aionrs_targets(),
            i <= targets@.len(),
            off@.len() == i,
            forall|j: int| 0 <= j < i ==> (#[trigger] off@[j])@ == targets@[j]@ + "=off"@,
        decreases targets@.len() - i,
    {
        off.push(text::concat(targets[i].as_str(), "=off"));
        i += 1;
    }
    proof {
        assert forall|j: int| 0 <= j < targets@.len() implies targets@[j]@ == #[trigger] aionrs_targets()[j] by {
            assert(text::texts(targets@)[j] == targets@[j]@);
        }
        assert(text::texts(off@) =~= aionrs_off());
    }
    let mut directives = text::join(&noise_suppression_list(), ",");
    directives.append(",");
    directives.append(text::join(&off, ",").as_str());
    directives.append(",");
    directives.append(level_text(log_level));
    directives
}

/// The directives for aionrs' log file.
pub fn build_aionrs_level(log_level: Option<&str>) -> (directives: String)
    ensures
        directives@ == aionrs_directives(log_level),
{
    let level: &str = level_text(log_level);
    let targets = aionrs_target_list();
    let mut list: Vec<String> = Vec::new();
    let mut i: usize = 0;
    while i < targets.len()
        invariant
            i <= targets@.len(),
            list@.len() == i,
            forall|j: int|
                0 <= j < i ==> (#[trigger] list@[j])@ == aionrs_directive(targets@[j]@, level@),
        decreases targets@.len() - i,
    {
        let target: &str = targets[i].as_str();
        let mut directive: String = text::concat(target, "=");
        if text::same(target, "aion_agent") || text::same(target, "aion_providers") {
            directive.append("info");
        } else {
            directive.append(level);
        }
        list.push(directive);
        i += 1;
    }
    proof {
        assert forall|j: int| 0 <= j < targets@.len() implies targets@[j]@ == #[trigger] aionrs_targets()[j] by {
            assert(text::texts(targets@)[j] == targets@[j]@);
        }
        assert(text::texts(list@) =~= Seq::new(
            aionrs_targets().len(),
            |i: int| aionrs_directive(aionrs_targets()[i], level_or_info(log_level)),
        ));
    }
    text::join(&list, ",")
}

fn can_be_cut(directive: &str) -> (r: bool)
    ensures
        r == is_cut_safe(directive@),
{
    let read: &str = text::trim(directive);
    let len: usize = read.unicode_len();
    let size: usize = text::str_byte_len(read);
    let mut k: usize = 0;
    for c in it: read.chars()
        invariant
            it.seq() == read@,
            read@ == text::trimmed(directive@),
            len == read@.len(),
            size == text::byte_len(read@),
            k == it.index(),
            k <= read@.len(),
            forall|i: int|
                0 <= i < k ==> is_cut_safe_at(
                    directive@,
                    #[trigger] read@[i],
                    text::byte_len(read@.take(i)),
                ),
    {
        proof {
            assert(read@[k as int] == c);
            text::lemma_byte_len_bounds(read@.skip(k as int));
            text::lemma_encode_concat(read@.take(k as int), read@.skip(k as int));
            assert(read@.take(k as int) + read@.skip(k as int) =~= read@);
        }
        let at: usize = text::str_byte_len(read.substring_char(0, k));
        assert(read@.subrange(0, k as int) =~= read@.take(k as int));
        let ends: bool = c == '=' || c == '[' || c == ']' || c == '{' || c == '}';
        let begins: bool = c == '=' || c == '[' || c == '{';
        if (ends && !directive.is_char_boundary(at)) || (begins && !directive.is_char_boundary(
            at + 1,
        )) {
            assert(!is_cut_safe_at(
                directive@,
                read@[k as int],
                text::byte_len(read@.take(k as int)),
            ));
            return false;
        }
        k += 1;
    }
    true
}

/// Tells whether every directive of a list can be taken apart.
pub fn can_be_read(list: &str) -> (r: bool)
    ensures
        r == is_readable_list(list@),
{
    let len: usize = list.unicode_len();
    let mut start: usize = 0;
    let mut at: usize = 0;
    for c in it: list.chars()
        invariant
            it.seq() == list@,
            len == list@.len(),
            at == it.index(),
            start <= at <= len,
            start == 0 || list@[start - 1] == ',',
            forall|k: int| start <= k < at ==> (#[trigger] list@[k]) != ',',
            forall|i: int, j: int| #[trigger]
                is_element(list@, i, j) && j < at ==> is_cut_safe(list@.subrange(i, j)),
    {
        assert(list@[at as int] == c);
        if c == ',' {
            assert(is_element(list@, start as int, at as int));
            if !can_be_cut(list.substring_char(start, at)) {
                return false;
            }
            proof {
                assert forall|i: int, j: int| #[trigger]
                    is_element(list@, i, j) && j < at + 1 implies is_cut_safe(
                    list@.subrange(i, j),
                ) by {
                    if j == at {
                        lemma_same_element(list@, start as int, i, at as int);
                    }
                }
            }
            start = at + 1;
        }
        at += 1;
    }
    proof {
        assert(is_element(list@, start as int, len as int));
        assert forall|i: int, j: int| #[trigger] is_element(list@, i, j) && j == len implies i
            == start by {
            lemma_same_element(list@, start as int, i, len as int);
        }
    }
    can_be_cut(list.substring_char(start, len))
}

proof fn lemma_same_element(list: Seq<char>, a: int, b: int, j: int)
    requires
        is_element(list, a, j),
        is_element(list, b, j),
    ensures
        a == b,
{
    if a < b {
        assert(list[b - 1] != ',');
    } else if b < a {
        assert(list[a - 1] != ',');
    }
}

/// Whether all filters can be made for a level.
pub open spec fn is_usable_level(log_level: Option<&str>) -> bool {
    &&& is_readable_list(console_directives(log_level))
    &&& is_readable_list(backend_directives(log_level))
    &&& is_readable_list(aionrs_directives(log_level))
}

/// A list can be read where none of its directives begins with whitespace.
pub proof fn directives_without_indent_are_readable(list: Seq<char>)
    requires
        forall|i: int, j: int| #[trigger]
            is_element(list, i, j) && i < j ==> !text::is_whitespace(list[i]),
    ensures
        is_readable_list(list),
{
    assert forall|i: int, j: int| #[trigger] is_element(list, i, j) implies is_cut_safe(
        list.subrange(i, j),
    ) by {
        let directive = list.subrange(i, j);
        let read = text::trimmed(directive);
        if i < j {
            assert(directive[0] == list[i]);
        }
        assert(text::trimmed_start(directive) == directive);
        text::lemma_trimmed_end_is_start(directive);
        assert forall|k: int| 0 <= k < read.len() implies is_cut_safe_at(
            directive,
            #[trigger] read[k],
            text::byte_len(read.take(k)),
        ) by {
            assert(read.take(k) =~= directive.take(k));
            text::lemma_char_boundary(directive, k);
            if begins_part(read[k]) {
                text::lemma_char_boundary(directive, k + 1);
                assert(directive.take(k + 1) =~= directive.take(k) + seq![read[k]]);
                text::lemma_encode_concat(directive.take(k), seq![read[k]]);
                is_ascii_chars_encode_utf8(seq![read[k]]);
            }
        }
    }
}

/// A list in ASCII can be read.
pub proof fn ascii_directives_are_readable(list: Seq<char>)
    requires
        is_ascii_chars(list),
    ensures
        is_readable_list(list),
{
    assert forall|i: int, j: int| #[trigger] is_element(list, i, j) implies is_cut_safe(
        list.subrange(i, j),
    ) by {
        let directive = list.subrange(i, j);
        let read = text::trimmed(directive);
        text::lemma_trimmed_is_part(directive);
        let from = choose|from: int|
            0 <= from <= directive.len() - read.len() && #[trigger] directive.subrange(
                from,
                from + read.len(),
            ) == read;
        assert forall|k: int| 0 <= k < read.len() implies is_cut_safe_at(
            directive,
            #[trigger] read[k],
            text::byte_len(read.take(k)),
        ) by {
            assert(is_ascii_chars(read.take(k))) by {
                assert forall|m: int| 0 <= m < k implies '\0' <= #[trigger] read.take(k)[m]
                    <= '\u{7f}' by {
                    assert(read[m] == list[i + from + m]);
                }
            }
            is_ascii_chars_encode_utf8(read.take(k));
            assert(is_ascii_chars(directive.take(k)));
            assert(is_ascii_chars(directive.take(k + 1)));
            is_ascii_chars_encode_utf8(directive.take(k));
            is_ascii_chars_encode_utf8(directive.take(k + 1));
            text::lemma_char_boundary(directive, k);
            text::lemma_char_boundary(directive, k + 1);
        }
    }
}

/// All filters can be made for every level in ASCII, and for the level that is taken where none is
/// given.
pub proof fn ascii_levels_are_usable(log_level: Option<&str>)
    requires
        is_ascii_chars(level_or_info(log_level)),
    ensures
        is_usable_level(log_level),
{
    let level = level_or_info(log_level);
    lemma_constants_are_ascii();
    lemma_joined_is_ascii(noise_suppressions(), ","@);
    assert forall|i: int| 0 <= i < aionrs_off().len() implies is_ascii_chars(
        #[trigger] aionrs_off()[i],
    ) by {
        assert(is_ascii_chars(aionrs_targets()[i]));
    }
    lemma_joined_is_ascii(aionrs_off(), ","@);
    let list = Seq::new(
        aionrs_targets().len(),
        |i: int| aionrs_directive(aionrs_targets()[i], level),
    );
    assert forall|i: int| 0 <= i < list.len() implies is_ascii_chars(#[trigger] list[i]) by {
        assert(is_ascii_chars(aionrs_targets()[i]));
    }
    lemma_joined_is_ascii(list, ","@);
    ascii_directives_are_readable(console_directives(log_level));
    ascii_directives_are_readable(backend_directives(log_level));
    ascii_directives_are_readable(aionrs_directives(log_level));
}

proof fn lemma_joined_is_ascii(parts: Seq<Seq<char>>, separator: Seq<char>)
    requires
        is_ascii_chars(separator),
        forall|i: int| 0 <= i < parts.len() ==> is_ascii_chars(#[trigger] parts[i]),
    ensures
        is_ascii_chars(text::joined(parts, separator)),
    decreases parts.len(),
{
    if parts.len() > 1 {
        lemma_joined_is_ascii(parts.drop_last(), separator);
        assert(is_ascii_chars(parts.last()));
    }
}

proof fn lemma_constants_are_ascii()
    ensures
        is_ascii_chars(","@),
        is_ascii_chars("="@),
        is_ascii_chars("=off"@),
        is_ascii_chars("info"@),
        forall|i: int|
            0 <= i < noise_suppressions().len() ==> is_ascii_chars(
                #[trigger] noise_suppressions()[i],
            ),
        forall|i: int|
            0 <= i < aionrs_targets().len() ==> is_ascii_chars(#[trigger] aionrs_targets()[i]),
{
    reveal_strlit(",");
    reveal_strlit("=");
    reveal_strlit("=off");
    reveal_strlit("info");
    reveal_strlit("sqlx::query=warn");
    reveal_strlit("hyper_util=warn");
    reveal_strlit("reqwest=warn");
    reveal_strlit("agent_client_protocol::jsonrpc=info");
    reveal_strlit("aion_agent=info");
    reveal_strlit("aion_providers=info");
    reveal_strlit("aion_agent");
    reveal_strlit("aion_config");
    reveal_strlit("aion_compact");
    reveal_strlit("aion_mcp");
    reveal_strlit("aion_providers");
    reveal_strlit("aion_protocol");
    reveal_strlit("aion_tools");
    reveal_strlit("aion_skills");
    reveal_strlit("aion_memory");
}

/// Tells whether all filters can be made for a level.
pub fn can_use_level(log_level: Option<&str>) -> (r: bool)
    ensures
        r == is_usable_level(log_level),
{
    can_be_read(env_filter_directives(log_level).as_str()) && can_be_read(
        backend_filter_directives(log_level).as_str(),
    ) && can_be_read(build_aionrs_level(log_level).as_str())
}

/// The filter for the console.
pub fn build_env_filter(log_level: Option<&str>) -> (filter: EnvFilter)
    requires
        is_readable_list(console_directives(log_level)),
    ensures
        filter == env_filter(console_directives(log_level)),
{
    new_env_filter(env_filter_directives(log_level).as_str())
}

/// The filter for the backend's log file.
pub fn build_backend_filter(log_level: Option<&str>) -> (filter: EnvFilter)
    requires
        is_readable_list(backend_directives(log_level)),
    ensures
        filter == env_filter(backend_directives(log_level)),
{
    new_env_filter(backend_filter_directives(log_level).as_str())
}

/// Whether an error says that the filter for aionrs' log file could not be made.
pub open spec fn is_filter_error(
    error: BootstrapError,
    directives: Seq<char>,
    active_log_dir: Seq<char>,
) -> bool {
    &&& error.code == BootstrapErrorCode::LoggingInitFailed
    &&& error.stage@ == "logging.filter"@
    &&& error.message@ == LOGGING_INIT_MESSAGE@
    &&& error.spec_fields() == seq![
        ("filter"@, directives),
        ("logDir"@, active_log_dir),
    ]
}

/// The error for a filter that could not be made of `directives`.
pub fn filter_error(directives: &str, active_log_dir: &str, source: String) -> (error:
    BootstrapError)
    ensures
        is_filter_error(error, directives@, active_log_dir@),
        error.has_source(source@),
{
    let error = BootstrapError::new(
        BootstrapErrorCode::LoggingInitFailed,
        "logging.filter",
        LOGGING_INIT_MESSAGE,
    ).with_source(source).with_field("filter", directives.to_owned()).with_field(
        "logDir",
        active_log_dir.to_owned(),
    );
    assert(error.spec_fields() =~= seq![("filter"@, directives@), ("logDir"@, active_log_dir@)]);
    error
}

/// The filter for aionrs' log file. A level that cannot be read is an error.
pub fn build_aionrs_filter(log_level: Option<&str>, active_log_dir: &str) -> (filter: Result<
    EnvFilter,
    BootstrapError,
>)
    requires
        is_readable_list(aionrs_directives(log_level)),
    ensures
        match (filter, strict_env_filter(aionrs_directives(log_level))) {
            (Ok(filter), Ok(expected)) => filter == expected,
            (Err(error), Err(cause)) => is_filter_error(
                error,
                aionrs_directives(log_level),
                active_log_dir@,
            ) && exists|shown: String|
                error.has_source(shown@) && #[trigger] to_string_from_display_ensures::<ParseError>(
                    &cause,
                    shown,
                ),
            _ => false,
        },
{
    let directives = build_aionrs_level(log_level);
    match try_new_env_filter(directives.as_str()) {
        Ok(filter) => Ok(filter),
        Err(error) => Err(filter_error(directives.as_str(), active_log_dir, error.to_string())),
    }
}

/// Whatever level the user asks for, the directives for aionrs' log file hold the targets whose
/// records may be raw payloads to `info`, and give every other target the user's level.
pub proof fn raw_payloads_stay_at_info(log_level: Option<&str>, i: int)
    requires
        0 <= i < aionrs_targets().len(),
    ensures
        ({
            let target = aionrs_targets()[i];
            let directive = aionrs_directive(target, level_or_info(log_level));
            &&& logs_raw_payloads(target) ==> directive == target + "="@ + "info"@
            &&& !logs_raw_payloads(target) ==> directive == target + "="@ + level_or_info(log_level)
            &&& logs_raw_payloads(target) ==> noise_suppressions().contains(directive)
        }),
{
    if logs_raw_payloads(aionrs_targets()[i]) {
        reveal_strlit("aion_agent");
        reveal_strlit("aion_providers");
        reveal_strlit("=");
        reveal_strlit("info");
        reveal_strlit("aion_agent=info");
        reveal_strlit("aion_providers=info");
        let directive = aionrs_targets()[i] + "="@ + "info"@;
        if aionrs_targets()[i] == "aion_agent"@ {
            assert(directive =~= "aion_agent=info"@);
            assert(noise_suppressions()[4] == directive);
        } else {
            assert(directive =~= "aion_providers=info"@);
            assert(noise_suppressions()[5] == directive);
        }
    }
}

} // verus!
