//! What logging is set up with, told by the texts themselves.

use tracing_subscriber::EnvFilter;
use vstd::prelude::*;
use vstd::string::*;
use vstd::utf8::*;

use crate::bootstrap_error::{BootstrapError, BootstrapErrorCode};
use crate::log_date;
use crate::log_date::{LogDate, LogPath};
use crate::log_filter;
use crate::log_root;
use crate::log_root::{
    DirFailure, LogDirFallback, LogDirSelection, LogRootSearch, LogRootStep,
};
use crate::text;

verus! {

/// What every directive list but that of aionrs begins with.
pub open spec fn suppressions() -> Seq<char> {
    "sqlx::query=warn,hyper_util=warn,reqwest=warn,agent_client_protocol::jsonrpc=info,aion_agent=info,aion_providers=info,"@
}

proof fn lemma_joined_six(
    a: Seq<char>,
    b: Seq<char>,
    c: Seq<char>,
    d: Seq<char>,
    e: Seq<char>,
    f: Seq<char>,
    separator: Seq<char>,
)
    ensures
        text::joined(seq![a, b, c, d, e, f], separator) == a + separator + b + separator + c
            + separator + d + separator + e + separator + f,
{
    reveal_with_fuel(text::joined, 7);
    let six = seq![a, b, c, d, e, f];
    assert(six.drop_last() =~= seq![a, b, c, d, e]);
    assert(seq![a, b, c, d, e].drop_last() =~= seq![a, b, c, d]);
    assert(seq![a, b, c, d].drop_last() =~= seq![a, b, c]);
    assert(seq![a, b, c].drop_last() =~= seq![a, b]);
    assert(seq![a, b].drop_last() =~= seq![a]);
}

proof fn lemma_suppressions()
    ensures
        text::joined(log_filter::noise_suppressions(), ","@) + ","@ == suppressions(),
{
    reveal_strlit("sqlx::query=warn");
    reveal_strlit("hyper_util=warn");
    reveal_strlit("reqwest=warn");
    reveal_strlit("agent_client_protocol::jsonrpc=info");
    reveal_strlit("aion_agent=info");
    reveal_strlit("aion_providers=info");
    reveal_strlit(",");
    reveal_strlit(
        "sqlx::query=warn,hyper_util=warn,reqwest=warn,agent_client_protocol::jsonrpc=info,aion_agent=info,aion_providers=info,",
    );
    lemma_joined_six(
        "sqlx::query=warn"@,
        "hyper_util=warn"@,
        "reqwest=warn"@,
        "agent_client_protocol::jsonrpc=info"@,
        "aion_agent=info"@,
        "aion_providers=info"@,
        ","@,
    );
    assert(text::joined(log_filter::noise_suppressions(), ","@) + ","@ =~= suppressions());
}

/// Whatever level is asked for, the console's list ends in it, just as it was given, and begins with
/// the suppressions. Without a level it ends in `info`.
pub proof fn console_lists_end_in_the_level(log_level: Option<&str>, directives: String)
    requires
        call_ensures(log_filter::env_filter_directives, (log_level,), directives),
    ensures
        log_level matches Some(level) ==> directives@ == suppressions() + level@,
        log_level is None ==> directives@ == suppressions() + "info"@,
{
    lemma_suppressions();
}

proof fn lemma_joined_nine(
    a: Seq<char>,
    b: Seq<char>,
    c: Seq<char>,
    d: Seq<char>,
    e: Seq<char>,
    f: Seq<char>,
    g: Seq<char>,
    h: Seq<char>,
    i: Seq<char>,
    separator: Seq<char>,
)
    ensures
        text::joined(seq![a, b, c, d, e, f, g, h, i], separator) == a + separator + b + separator + c
            + separator + d + separator + e + separator + f + separator + g + separator + h
            + separator + i,
{
    reveal_with_fuel(text::joined, 10);
    assert(seq![a, b, c, d, e, f, g, h, i].drop_last() =~= seq![a, b, c, d, e, f, g, h]);
    assert(seq![a, b, c, d, e, f, g, h].drop_last() =~= seq![a, b, c, d, e, f, g]);
    assert(seq![a, b, c, d, e, f, g].drop_last() =~= seq![a, b, c, d, e, f]);
    assert(seq![a, b, c, d, e, f].drop_last() =~= seq![a, b, c, d, e]);
    assert(seq![a, b, c, d, e].drop_last() =~= seq![a, b, c, d]);
    assert(seq![a, b, c, d].drop_last() =~= seq![a, b, c]);
    assert(seq![a, b, c].drop_last() =~= seq![a, b]);
    assert(seq![a, b].drop_last() =~= seq![a]);
}

/// What the backend's list has behind the suppressions: aionrs is switched off.
pub open spec fn aionrs_switched_off() -> Seq<char> {
    "aion_agent=off,aion_config=off,aion_compact=off,aion_mcp=off,aion_providers=off,aion_protocol=off,aion_tools=off,aion_skills=off,aion_memory=off,"@
}

proof fn lemma_aionrs_off()
    ensures
        text::joined(log_filter::aionrs_off(), ","@) + ","@ == aionrs_switched_off(),
{
    reveal_strlit("aion_agent");
    reveal_strlit("aion_config");
    reveal_strlit("aion_compact");
    reveal_strlit("aion_mcp");
    reveal_strlit("aion_providers");
    reveal_strlit("aion_protocol");
    reveal_strlit("aion_tools");
    reveal_strlit("aion_skills");
    reveal_strlit("aion_memory");
    reveal_strlit("=off");
    reveal_strlit(",");
    reveal_strlit(
        "aion_agent=off,aion_config=off,aion_compact=off,aion_mcp=off,aion_providers=off,aion_protocol=off,aion_tools=off,aion_skills=off,aion_memory=off,",
    );
    lemma_joined_nine(
        "aion_agent"@ + "=off"@,
        "aion_config"@ + "=off"@,
        "aion_compact"@ + "=off"@,
        "aion_mcp"@ + "=off"@,
        "aion_providers"@ + "=off"@,
        "aion_protocol"@ + "=off"@,
        "aion_tools"@ + "=off"@,
        "aion_skills"@ + "=off"@,
        "aion_memory"@ + "=off"@,
        ","@,
    );
    assert(log_filter::aionrs_off() =~= seq![
        "aion_agent"@ + "=off"@,
        "aion_config"@ + "=off"@,
        "aion_compact"@ + "=off"@,
        "aion_mcp"@ + "=off"@,
        "aion_providers"@ + "=off"@,
        "aion_protocol"@ + "=off"@,
        "aion_tools"@ + "=off"@,
        "aion_skills"@ + "=off"@,
        "aion_memory"@ + "=off"@,
    ]);
    assert(text::joined(log_filter::aionrs_off(), ","@) + ","@ =~= aionrs_switched_off());
}

/// Whatever level is asked for, the list for the backend's log file ends in it, just as it was
/// given, behind the suppressions and the directives that switch aionrs off. Without a level it
/// ends in `info`.
pub proof fn backend_lists_end_in_the_level(log_level: Option<&str>, directives: String)
    requires
        call_ensures(log_filter::backend_filter_directives, (log_level,), directives),
    ensures
        log_level matches Some(level) ==> directives@ == suppressions() + aionrs_switched_off()
            + level@,
        log_level is None ==> directives@ == suppressions() + aionrs_switched_off() + "info"@,
{
    lemma_suppressions();
    lemma_aionrs_off();
    let level = log_filter::level_or_info(log_level);
    assert(directives@ =~= suppressions() + aionrs_switched_off() + level);
}

/// The list for aionrs' log file at a level, target by target: `info` for those whose records may
/// hold raw payloads, the level for the others.
pub open spec fn aionrs_at(level: Seq<char>) -> Seq<char> {
    "aion_agent=info,aion_config="@ + level + ",aion_compact="@ + level + ",aion_mcp="@ + level
        + ",aion_providers=info,aion_protocol="@ + level + ",aion_tools="@ + level
        + ",aion_skills="@ + level + ",aion_memory="@ + level
}

/// Whatever level is asked for, the list for aionrs' log file gives it, just as it was given, to
/// every target but the two whose records may hold raw payloads, which stay at `info`. Without a
/// level it is `info` for all.
pub proof fn aionrs_lists_spare_raw_payloads(log_level: Option<&str>, directives: String)
    requires
        call_ensures(log_filter::build_aionrs_level, (log_level,), directives),
    ensures
        log_level matches Some(level) ==> directives@ == aionrs_at(level@),
        log_level is None ==> directives@ == aionrs_at("info"@),
{
    reveal_strlit("aion_agent");
    reveal_strlit("aion_config");
    reveal_strlit("aion_compact");
    reveal_strlit("aion_mcp");
    reveal_strlit("aion_providers");
    reveal_strlit("aion_protocol");
    reveal_strlit("aion_tools");
    reveal_strlit("aion_skills");
    reveal_strlit("aion_memory");
    reveal_strlit("=");
    reveal_strlit("info");
    reveal_strlit(",");
    reveal_strlit("aion_agent=info,aion_config=");
    reveal_strlit(",aion_compact=");
    reveal_strlit(",aion_mcp=");
    reveal_strlit(",aion_providers=info,aion_protocol=");
    reveal_strlit(",aion_tools=");
    reveal_strlit(",aion_skills=");
    reveal_strlit(",aion_memory=");
    let level = log_filter::level_or_info(log_level);
    let list = Seq::new(
        log_filter::aionrs_targets().len(),
        |i: int| log_filter::aionrs_directive(log_filter::aionrs_targets()[i], level),
    );
    assert("aion_agent"@[5] == 'a');
    assert("aion_config"@[5] == 'c');
    assert("aion_compact"@[5] == 'c');
    assert("aion_mcp"@[5] == 'm');
    assert("aion_providers"@[5] == 'p');
    assert("aion_protocol"@[7] == 'o');
    assert("aion_protocol"@[8] == 't');
    assert("aion_providers"@[8] == 'v');
    assert("aion_tools"@[5] == 't');
    assert("aion_skills"@[5] == 's');
    assert("aion_memory"@[5] == 'm');
    let fixed = "info"@;
    let sign = "="@;
    lemma_joined_nine(
        "aion_agent"@ + sign + fixed,
        "aion_config"@ + sign + level,
        "aion_compact"@ + sign + level,
        "aion_mcp"@ + sign + level,
        "aion_providers"@ + sign + fixed,
        "aion_protocol"@ + sign + level,
        "aion_tools"@ + sign + level,
        "aion_skills"@ + sign + level,
        "aion_memory"@ + sign + level,
        ","@,
    );
    assert(list =~= seq![
        "aion_agent"@ + sign + fixed,
        "aion_config"@ + sign + level,
        "aion_compact"@ + sign + level,
        "aion_mcp"@ + sign + level,
        "aion_providers"@ + sign + fixed,
        "aion_protocol"@ + sign + level,
        "aion_tools"@ + sign + level,
        "aion_skills"@ + sign + level,
        "aion_memory"@ + sign + level,
    ]);
    assert("aion_agent"@ + sign + fixed + ","@ + ("aion_config"@ + sign)
        =~= "aion_agent=info,aion_config="@);
    assert(","@ + ("aion_compact"@ + sign) =~= ",aion_compact="@);
    assert(","@ + ("aion_mcp"@ + sign) =~= ",aion_mcp="@);
    assert(","@ + ("aion_providers"@ + sign + fixed) + ","@ + ("aion_protocol"@ + sign)
        =~= ",aion_providers=info,aion_protocol="@);
    assert(","@ + ("aion_tools"@ + sign) =~= ",aion_tools="@);
    assert(","@ + ("aion_skills"@ + sign) =~= ",aion_skills="@);
    assert(","@ + ("aion_memory"@ + sign) =~= ",aion_memory="@);
    lemma_spelled_out(level);
    assert(directives@ == aionrs_at(level));
}

/// The list of the nine targets, one directive behind the other, is the list spelled out.
proof fn lemma_spelled_out(level: Seq<char>)
    requires
        "aion_agent"@ + "="@ + "info"@ + ","@ + ("aion_config"@ + "="@)
            == "aion_agent=info,aion_config="@,
        ","@ + ("aion_compact"@ + "="@) == ",aion_compact="@,
        ","@ + ("aion_mcp"@ + "="@) == ",aion_mcp="@,
        ","@ + ("aion_providers"@ + "="@ + "info"@) + ","@ + ("aion_protocol"@ + "="@)
            == ",aion_providers=info,aion_protocol="@,
        ","@ + ("aion_tools"@ + "="@) == ",aion_tools="@,
        ","@ + ("aion_skills"@ + "="@) == ",aion_skills="@,
        ","@ + ("aion_memory"@ + "="@) == ",aion_memory="@,
    ensures
        ("aion_agent"@ + "="@ + "info"@) + ","@ + ("aion_config"@ + "="@ + level) + ","@ + (
        "aion_compact"@ + "="@ + level) + ","@ + ("aion_mcp"@ + "="@ + level) + ","@ + (
        "aion_providers"@ + "="@ + "info"@) + ","@ + ("aion_protocol"@ + "="@ + level) + ","@ + (
        "aion_tools"@ + "="@ + level) + ","@ + ("aion_skills"@ + "="@ + level) + ","@ + (
        "aion_memory"@ + "="@ + level) == aionrs_at(level),
{
    lemma_regroup("aion_agent"@ + "="@ + "info"@, ","@, "aion_config"@ + "="@, level);
    let one = "aion_agent=info,aion_config="@ + level;
    lemma_regroup(one, ","@, "aion_compact"@ + "="@, level);
    let two = one + ",aion_compact="@ + level;
    lemma_regroup(two, ","@, "aion_mcp"@ + "="@, level);
    let three = two + ",aion_mcp="@ + level;
    lemma_regroup(
        three,
        ","@ + ("aion_providers"@ + "="@ + "info"@) + ","@,
        "aion_protocol"@ + "="@,
        level,
    );
    assert(three + ","@ + ("aion_providers"@ + "="@ + "info"@) + ","@ =~= three + (","@ + (
    "aion_providers"@ + "="@ + "info"@) + ","@));
    let four = three + ",aion_providers=info,aion_protocol="@ + level;
    lemma_regroup(four, ","@, "aion_tools"@ + "="@, level);
    let five = four + ",aion_tools="@ + level;
    lemma_regroup(five, ","@, "aion_skills"@ + "="@, level);
    let six = five + ",aion_skills="@ + level;
    lemma_regroup(six, ","@, "aion_memory"@ + "="@, level);
}

proof fn lemma_regroup(before: Seq<char>, separator: Seq<char>, name: Seq<char>, level: Seq<char>)
    ensures
        before + separator + (name + level) == before + (separator + name) + level,
        before + separator + name == before + (separator + name),
{
    assert(before + separator + (name + level) =~= before + (separator + name) + level);
    assert(before + separator + name =~= before + (separator + name));
}

/// Each filter is the one that tracing-subscriber makes of its list of directives. A list for
/// aionrs that cannot be read is an error that names the list and the directory.
pub proof fn filters_are_made_of_their_lists(
    log_level: Option<&str>,
    active_log_dir: &str,
    console: String,
    backend: String,
    aionrs: String,
    console_filter: EnvFilter,
    backend_filter: EnvFilter,
    aionrs_filter: Result<EnvFilter, BootstrapError>,
)
    requires
        call_ensures(log_filter::env_filter_directives, (log_level,), console),
        call_ensures(log_filter::backend_filter_directives, (log_level,), backend),
        call_ensures(log_filter::build_aionrs_level, (log_level,), aionrs),
        call_ensures(log_filter::build_env_filter, (log_level,), console_filter),
        call_ensures(log_filter::build_backend_filter, (log_level,), backend_filter),
        call_ensures(
            log_filter::build_aionrs_filter,
            (log_level, active_log_dir),
            aionrs_filter,
        ),
    ensures
        console_filter == log_filter::env_filter(console@),
        backend_filter == log_filter::env_filter(backend@),
        aionrs_filter is Ok <==> log_filter::strict_env_filter(aionrs@) is Ok,
        aionrs_filter matches Ok(filter) ==> filter
            == log_filter::strict_env_filter(aionrs@)->Ok_0,
        aionrs_filter matches Err(error) ==> {
            &&& error.stage@ == "logging.filter"@
            &&& error.message@ == "failed to initialize logging"@
            &&& error.code is LoggingInitFailed
            &&& error.source is Some
            &&& error.fields@.len() == 2
            &&& error.fields@[0].0@ == "filter"@ && error.fields@[0].1@ == aionrs@
            &&& error.fields@[1].0@ == "logDir"@ && error.fields@[1].1@ == active_log_dir@
        },
{
    if let Err(error) = aionrs_filter {
        lemma_fields(error);
    }
}

/// A list can be read just where every directive of it, from one comma to the next, can be cut: at
/// each `=`, `[`, `]`, `{` and `}`, and behind each `=`, `[` and `{`, of the directive without the
/// whitespace around it, as many bytes into the directive as it stands there is a place between
/// two characters.
pub proof fn readable_lists_are_cut_between_characters(list: &str, r: bool)
    requires
        call_ensures(log_filter::can_be_read, (list,), r),
    ensures
        r <==> forall|i: int, j: int|
            0 <= i <= j <= list@.len() && (i == 0 || list@[i - 1] == ',') && (j == list@.len()
                || list@[j] == ',') && (forall|k: int| i <= k < j ==> (#[trigger] list@[k]) != ',')
                ==> cuts_lie_between_characters(#[trigger] list@.subrange(i, j)),
{
    if r {
        assert forall|i: int, j: int|
            0 <= i <= j <= list@.len() && (i == 0 || list@[i - 1] == ',') && (j == list@.len()
                || list@[j] == ',') && (forall|k: int|
                i <= k < j ==> (#[trigger] list@[k]) != ',') implies cuts_lie_between_characters(
            #[trigger] list@.subrange(i, j),
        ) by {
            assert(log_filter::is_element(list@, i, j));
            lemma_cut_safe(list@.subrange(i, j));
        }
    }
    if forall|i: int, j: int|
        0 <= i <= j <= list@.len() && (i == 0 || list@[i - 1] == ',') && (j == list@.len()
            || list@[j] == ',') && (forall|k: int| i <= k < j ==> (#[trigger] list@[k]) != ',')
            ==> cuts_lie_between_characters(#[trigger] list@.subrange(i, j)) {
        assert forall|i: int, j: int| #[trigger]
            log_filter::is_element(list@, i, j) implies log_filter::is_cut_safe(
            list@.subrange(i, j),
        ) by {
            assert(cuts_lie_between_characters(list@.subrange(i, j)));
            lemma_cut_safe(list@.subrange(i, j));
        }
    }
}

/// Whether a directive has a place between two characters wherever it would be cut.
pub open spec fn cuts_lie_between_characters(directive: Seq<char>) -> bool {
    forall|k: int|
        0 <= k < text::trimmed(directive).len() ==> {
            let c = #[trigger] text::trimmed(directive)[k];
            let at = text::byte_len(text::trimmed(directive).take(k)) as int;
            &&& c == '=' || c == '[' || c == ']' || c == '{' || c == '}' ==> is_char_boundary(
                encode_utf8(directive),
                at,
            )
            &&& c == '=' || c == '[' || c == '{' ==> is_char_boundary(
                encode_utf8(directive),
                at + 1,
            )
        }
}

proof fn lemma_cut_safe(directive: Seq<char>)
    ensures
        log_filter::is_cut_safe(directive) == cuts_lie_between_characters(directive),
{
    let read = text::trimmed(directive);
    if log_filter::is_cut_safe(directive) {
        assert forall|k: int| 0 <= k < read.len() implies {
            let c = #[trigger] read[k];
            let at = text::byte_len(read.take(k)) as int;
            &&& c == '=' || c == '[' || c == ']' || c == '{' || c == '}' ==> is_char_boundary(
                encode_utf8(directive),
                at,
            )
            &&& c == '=' || c == '[' || c == '{' ==> is_char_boundary(
                encode_utf8(directive),
                at + 1,
            )
        } by {
            assert(log_filter::is_cut_safe_at(directive, read[k], text::byte_len(read.take(k))));
        }
    }
    if cuts_lie_between_characters(directive) {
        assert forall|k: int| 0 <= k < read.len() implies log_filter::is_cut_safe_at(
            directive,
            #[trigger] read[k],
            text::byte_len(read.take(k)),
        ) by {
        }
    }
}

/// A level can be used just where each of its three lists can be read.
pub proof fn usable_levels_have_readable_lists(
    log_level: Option<&str>,
    console: String,
    backend: String,
    aionrs: String,
    console_text: &str,
    backend_text: &str,
    aionrs_text: &str,
    console_read: bool,
    backend_read: bool,
    aionrs_read: bool,
    usable: bool,
)
    requires
        call_ensures(log_filter::env_filter_directives, (log_level,), console),
        call_ensures(log_filter::backend_filter_directives, (log_level,), backend),
        call_ensures(log_filter::build_aionrs_level, (log_level,), aionrs),
        console_text@ == console@,
        backend_text@ == backend@,
        aionrs_text@ == aionrs@,
        call_ensures(log_filter::can_be_read, (console_text,), console_read),
        call_ensures(log_filter::can_be_read, (backend_text,), backend_read),
        call_ensures(log_filter::can_be_read, (aionrs_text,), aionrs_read),
        call_ensures(log_filter::can_use_level, (log_level,), usable),
    ensures
        usable <==> console_read && backend_read && aionrs_read,
{
}

proof fn lemma_fields(error: BootstrapError)
    ensures
        error.fields@.len() == error.spec_fields().len(),
        forall|i: int|
            0 <= i < error.fields@.len() ==> (#[trigger] error.spec_fields()[i]).0
                == error.fields@[i].0@ && error.spec_fields()[i].1 == error.fields@[i].1@,
{
}

/// An error begins with its kind, stage and message alone. A source is kept as its text, and a
/// detail comes behind those that are there; neither changes anything else.
pub proof fn details_are_added_at_the_end(
    code: BootstrapErrorCode,
    stage: &str,
    message: &str,
    begun: BootstrapError,
    before: BootstrapError,
    source: String,
    sourced: BootstrapError,
    name: &str,
    value: String,
    detailed: BootstrapError,
    i: int,
)
    requires
        call_ensures(BootstrapError::new, (code, stage, message), begun),
        call_ensures(BootstrapError::with_source, (before, source), sourced),
        call_ensures(BootstrapError::with_field, (before, name, value), detailed),
    ensures
        begun.code == code,
        begun.stage@ == stage@,
        begun.message@ == message@,
        begun.source is None,
        begun.fields@.len() == 0,
        sourced.source == Some(source),
        sourced.code == before.code,
        sourced.stage@ == before.stage@,
        sourced.message@ == before.message@,
        sourced.fields@ == before.fields@,
        detailed.source == before.source,
        detailed.code == before.code,
        detailed.stage@ == before.stage@,
        detailed.message@ == before.message@,
        detailed.fields@.len() == before.fields@.len() + 1,
        detailed.fields@.last().0@ == name@,
        detailed.fields@.last().1@ == value@,
        0 <= i < before.fields@.len() ==> detailed.fields@[i].0@ == before.fields@[i].0@
            && detailed.fields@[i].1@ == before.fields@[i].1@,
{
    lemma_fields(begun);
    lemma_fields(before);
    lemma_fields(detailed);
    let n = before.fields@.len() as int;
    assert(detailed.spec_fields()[n] == (name@, value@));
    assert(detailed.spec_fields()[n].0 == detailed.fields@[n].0@);
    if 0 <= i < n {
        assert(detailed.spec_fields()[i] == before.spec_fields()[i]);
    }
}

/// The error for a filter, a directory and a subscriber names its stage, keeps the text of what
/// went wrong as its source, and gives the details in a fixed order.
pub proof fn setup_errors_name_their_stage(
    directives: &str,
    active_log_dir: &str,
    source: String,
    failure: DirFailure,
    filter: BootstrapError,
    dir: BootstrapError,
    subscriber: BootstrapError,
)
    requires
        call_ensures(log_filter::filter_error, (directives, active_log_dir, source), filter),
        call_ensures(log_root::logging_dir_error, (active_log_dir, failure), dir),
        call_ensures(log_root::subscriber_error, (active_log_dir, source), subscriber),
    ensures
        filter.stage@ == "logging.filter"@ && filter.source is Some && filter.source->0@
            == source@,
        filter.fields@.len() == 2,
        filter.fields@[0].0@ == "filter"@ && filter.fields@[0].1@ == directives@,
        filter.fields@[1].0@ == "logDir"@ && filter.fields@[1].1@ == active_log_dir@,
        dir.stage@ == "logging.dir"@ && dir.source is Some && dir.source->0@ == failure.message@,
        dir.fields@.len() == 2,
        dir.fields@[0].0@ == "logDir"@ && dir.fields@[0].1@ == active_log_dir@,
        dir.fields@[1].0@ == "errorKind"@ && dir.fields@[1].1@ == failure.kind@,
        subscriber.stage@ == "logging.subscriber"@ && subscriber.source is Some
            && subscriber.source->0@ == source@,
        subscriber.fields@.len() == 1,
        subscriber.fields@[0].0@ == "logDir"@ && subscriber.fields@[0].1@ == active_log_dir@,
        filter.message@ == "failed to initialize logging"@,
        dir.message@ == "failed to initialize logging"@,
        subscriber.message@ == "failed to initialize logging"@,
        filter.code is LoggingInitFailed,
        dir.code is LoggingInitFailed,
        subscriber.code is LoggingInitFailed,
{
    lemma_fields(filter);
    lemma_fields(dir);
    lemma_fields(subscriber);
    assert(filter.spec_fields()[0].0 == filter.fields@[0].0@);
    assert(filter.spec_fields()[1].0 == filter.fields@[1].0@);
    assert(dir.spec_fields()[0].0 == dir.fields@[0].0@);
    assert(dir.spec_fields()[1].0 == dir.fields@[1].0@);
    assert(subscriber.spec_fields()[0] == ("logDir"@, active_log_dir@));
    assert(subscriber.spec_fields()[0].0 == subscriber.fields@[0].0@);
}

/// A custom directory is tried first, with the default one to fall back to unless the two are the
/// same; without one the default directory is tried. What is tried is the directory of the day
/// below the root.
pub proof fn custom_dirs_are_tried_first<R: Copy>(
    custom_log_dir: Option<R>,
    default_log_dir: R,
    same_dir: bool,
    search: LogRootSearch<R>,
    today: LogDate,
    dir: LogPath<R>,
    dated: LogPath<R>,
    i: int,
)
    requires
        call_ensures(
            LogRootSearch::<R>::select_log_root,
            (custom_log_dir, default_log_dir, same_dir),
            search,
        ),
        call_ensures(LogRootSearch::<R>::attempt, (&search, today), dir),
        call_ensures(
            log_date::dated_log_dir_for::<R>,
            (
                if custom_log_dir is Some {
                    custom_log_dir->0
                } else {
                    default_log_dir
                },
                today,
            ),
            dated,
        ),
    ensures
        custom_log_dir matches Some(custom) ==> !same_dir ==> search == (LogRootSearch::Custom {
            custom,
            default_dir: default_log_dir,
        }),
        custom_log_dir matches Some(custom) ==> same_dir ==> search == (LogRootSearch::Last {
            root: custom,
            requested: None,
        }),
        custom_log_dir is None ==> search == (LogRootSearch::Last {
            root: default_log_dir,
            requested: None,
        }),
        dir.root == dated.root,
        dir.names@.len() == dated.names@.len(),
        0 <= i < dir.names@.len() ==> dir.names@[i]@ == dated.names@[i]@,
{
    assert(dir.spec_names().len() == dir.names@.len());
    assert(dated.spec_names().len() == dated.names@.len());
    if 0 <= i < dir.names@.len() {
        assert(dir.spec_names()[i] == dir.names@[i]@);
        assert(dated.spec_names()[i] == dated.names@[i]@);
    }
}

/// A directory that was created is picked, with a note of the custom one that failed before it. A
/// custom one that was not is followed by the default one. The last one that was not is an error
/// that names it and, where a custom one failed before it, that one too.
pub proof fn searches_end_with_the_first_usable_dir<R: Copy>(
    search: LogRootSearch<R>,
    active_dir: LogPath<R>,
    active_dir_text: &str,
    requested_dir_text: &str,
    failure: DirFailure,
    created: LogRootStep<R>,
    failed: LogRootStep<R>,
)
    requires
        call_ensures(
            LogRootSearch::<R>::settle,
            (search, active_dir, active_dir_text, requested_dir_text, Ok(())),
            created,
        ),
        call_ensures(
            LogRootSearch::<R>::settle,
            (search, active_dir, active_dir_text, requested_dir_text, Err(failure)),
            failed,
        ),
    ensures
        match search {
            LogRootSearch::Custom { custom, default_dir } => {
                &&& created == LogRootStep::Done(
                    Ok::<LogDirSelection<R>, BootstrapError>(
                        LogDirSelection { root: custom, active_dir, fallback: None },
                    ),
                )
                &&& failed == LogRootStep::Retry(
                    LogRootSearch::Last {
                        root: default_dir,
                        requested: Some(
                            LogDirFallback { requested_dir: custom, error_kind: failure.kind },
                        ),
                    },
                )
            },
            LogRootSearch::Last { root, requested } => {
                &&& created == LogRootStep::Done(
                    Ok::<LogDirSelection<R>, BootstrapError>(
                        LogDirSelection { root, active_dir, fallback: requested },
                    ),
                )
                &&& failed matches LogRootStep::Done(Err(error))
                &&& error.stage@ == "logging.dir"@
                &&& error.source is Some
                &&& error.source->0@ == failure.message@
                &&& error.fields@[0].0@ == "logDir"@
                &&& error.fields@[0].1@ == active_dir_text@
                &&& error.fields@[1].0@ == "errorKind"@
                &&& error.fields@[1].1@ == failure.kind@
                &&& requested is None ==> error.fields@.len() == 2
                &&& requested matches Some(before) ==> error.fields@.len() == 4
                    && error.fields@[2].0@ == "requestedLogDir"@ && error.fields@[2].1@
                    == requested_dir_text@ && error.fields@[3].0@ == "requestedErrorKind"@
                    && error.fields@[3].1@ == before.error_kind@
            },
        },
{
    if let LogRootStep::Done(Err(error)) = failed {
        lemma_fields(error);
        if error.fields@.len() >= 2 {
            assert(error.spec_fields()[0].0 == error.fields@[0].0@);
            assert(error.spec_fields()[1].0 == error.fields@[1].0@);
        }
        if error.fields@.len() >= 4 {
            assert(error.spec_fields()[2].0 == error.fields@[2].0@);
            assert(error.spec_fields()[3].0 == error.fields@[3].0@);
        }
    }
}

} // verus!
