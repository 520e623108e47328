//! What the settings and the platform's answers make of an integration.

use vstd::prelude::*;
use vstd::string::*;

use crate::integration;
use crate::integration::{
    BackendSettings, MindNProgressIntegration, PathShape, ProcessSettings, StdioTransportConfig,
    UrlParts,
};
use crate::navigation_error::MindNProgressNavigationError;
use crate::text;

verus! {

/// A setting is taken just as it was set, for the tool server before the process, unless it holds
/// nothing but whitespace, which sets nothing.
pub proof fn settings_are_taken_as_set(
    transport: &StdioTransportConfig,
    name: &str,
    process: &Option<String>,
    value: Option<String>,
    set: Seq<char>,
)
    requires
        call_ensures(integration::backend_setting, (transport, name, process), value),
    ensures
        transport.spec_env(name@) is None && *process is None ==> value is None,
        transport.spec_env(name@) == Some(set) || transport.spec_env(name@) is None && (
        *process matches Some(inherited) && inherited@ == set) ==> {
            &&& (exists|i: int| 0 <= i < set.len() && !text::is_whitespace(#[trigger] set[i]))
                ==> (value matches Some(value) && value@ == set)
            &&& (forall|i: int| 0 <= i < set.len() ==> text::is_whitespace(#[trigger] set[i]))
                ==> value is None
        },
{
    if transport.spec_env(name@) is None && *process is None {
        assert(text::opt_text(*process) is None);
    } else if transport.spec_env(name@) == Some(set) || transport.spec_env(name@) is None && (
    *process matches Some(inherited) && inherited@ == set) {
        assert(text::opt_text(value) == if text::blank(set) {
            None
        } else {
            Some(set)
        });
    }
}

/// A variable that is set for a tool server is found as it was set, whatever it was set to before,
/// and the other variables are found as before. A new tool server has none.
pub proof fn variables_are_found_as_set(
    args: Vec<String>,
    made: StdioTransportConfig,
    before: StdioTransportConfig,
    name: String,
    value: String,
    after: StdioTransportConfig,
    asked: &str,
    process: &Option<String>,
    of_made: Option<String>,
    of_before: Option<String>,
    of_after: Option<String>,
    i: int,
)
    requires
        call_ensures(StdioTransportConfig::new, (args,), made),
        call_ensures(StdioTransportConfig::with_env, (before, name, value), after),
        call_ensures(integration::backend_setting, (&made, asked, process), of_made),
        call_ensures(integration::backend_setting, (&before, asked, process), of_before),
        call_ensures(integration::backend_setting, (&after, asked, process), of_after),
    ensures
        *process is None ==> of_made is None,
        asked@ == name@ && 0 <= i < value@.len() && !text::is_whitespace(value@[i]) ==> (of_after
            matches Some(found) && found@ == value@),
        asked@ != name@ ==> text::opt_text(of_after) == text::opt_text(of_before),
        made.spec_args().len() == args@.len(),
        0 <= i < args@.len() ==> made.spec_args()[i] == args@[i]@,
        after.spec_args() == before.spec_args(),
{
    if asked@ == name@ {
        assert(after.spec_env(asked@) == Some(value@));
        if 0 <= i < value@.len() && !text::is_whitespace(value@[i]) {
            assert(!text::blank(value@));
        }
    } else {
        assert(after.spec_env(asked@) == before.spec_env(asked@));
    }
    if *process is None {
        assert(made.spec_env(asked@) is None);
        assert(text::opt_text(*process) is None);
    }
}

/// The settings are those of `MNP_TOKEN_FILE`, `MNP_DATA_DIR` and `MNP_API_URL`, each taken by
/// itself.
pub proof fn settings_go_by_their_names(
    transport: &StdioTransportConfig,
    process: &ProcessSettings,
    settings: BackendSettings,
    token_file: Option<String>,
    data_dir: Option<String>,
    api_url: Option<String>,
)
    requires
        call_ensures(integration::backend_settings, (transport, process), settings),
        call_ensures(
            integration::backend_setting,
            (transport, "MNP_TOKEN_FILE", &process.token_file),
            token_file,
        ),
        call_ensures(
            integration::backend_setting,
            (transport, "MNP_DATA_DIR", &process.data_dir),
            data_dir,
        ),
        call_ensures(
            integration::backend_setting,
            (transport, "MNP_API_URL", &process.api_url),
            api_url,
        ),
    ensures
        text::opt_text(settings.token_file) == text::opt_text(token_file),
        text::opt_text(settings.data_dir) == text::opt_text(data_dir),
        text::opt_text(settings.api_url) == text::opt_text(api_url),
{
}

/// A URL stands for a port on this machine just where it is `http` to `127.0.0.1`, `localhost` or
/// `::1`, with the path `/` and without user, password, query and fragment. The port is then the
/// one of the URL.
pub proof fn loopback_urls(url: &UrlParts, port: Option<u16>)
    requires
        call_ensures(integration::url_loopback_port, (url,), port),
    ensures
        port == if url.scheme@ == "http"@ && (text::opt_text(url.host) == Some("127.0.0.1"@)
            || text::opt_text(url.host) == Some("localhost"@) || text::opt_text(url.host) == Some(
            "::1"@,
        )) && url.username@.len() == 0 && !url.has_password && !url.has_query && !url.has_fragment
            && url.path@ == "/"@ {
            url.port
        } else {
            None
        },
{
}

/// A URL that is taken is one that reads as `http` to `127.0.0.1`, `localhost` or `::1`, with the
/// path `/` and without user, password, query and fragment, and every such URL is taken. What
/// comes of it goes to `127.0.0.1`, with the port written out unless that is 80.
pub proof fn only_loopback_urls_are_taken(
    value: &str,
    url: Result<String, MindNProgressNavigationError>,
)
    requires
        call_ensures(integration::normalize_loopback_api_url, (value,), url),
    ensures
        url is Ok <==> (integration::parsed_url(value@) matches Some(parts) && parts.scheme
            == "http"@ && (parts.host == Some("127.0.0.1"@) || parts.host == Some("localhost"@)
            || parts.host == Some("::1"@)) && parts.username.len() == 0 && !parts.has_password
            && !parts.has_query && !parts.has_fragment && parts.path == "/"@),
        url matches Ok(url) ==> ({
            let port = integration::parsed_url(value@)->0.port;
            &&& port is Some
            &&& port == Some(80u16) ==> url@ == "http://127.0.0.1/"@
            &&& port != Some(80u16) ==> url@ == "http://127.0.0.1:"@ + text::decimal(
                port->0 as nat,
            ) + "/"@
        }),
        url matches Err(error) ==> error is NotConfigured,
{
}

/// Whether the platform can only say that a path is one of `server.mjs` in a directory `mcp`, from
/// a root.
pub open spec fn is_surely_the_program(path: Seq<char>) -> bool {
    &&& !integration::can_be_absolute(path, false)
    &&& forall|name: Option<Seq<char>>| #[trigger]
        integration::can_have_name(path, name) ==> name == Some("server.mjs"@)
    &&& forall|parent: Option<Seq<char>>| #[trigger]
        integration::can_have_parent(path, parent) ==> parent is Some && forall|
            name: Option<Seq<char>>,
        | #[trigger]
            integration::can_have_name(parent->0, name) ==> name == Some("mcp"@)
}

/// Whether the platform can say that a path is one of `server.mjs` in a directory `mcp`, from a
/// root, and that `project` is the directory that `mcp` lies in.
pub open spec fn can_be_the_program(path: Seq<char>, project: Seq<char>) -> bool {
    &&& integration::can_be_absolute(path, true)
    &&& integration::can_have_name(path, Some("server.mjs"@))
    &&& exists|parent: Seq<char>| #[trigger]
        integration::can_have_parent(path, Some(parent)) && integration::can_have_name(
            parent,
            Some("mcp"@),
        ) && integration::can_have_parent(parent, Some(project))
}

/// Whether the platform can only say that a path is one of a file with the token, from a root.
pub open spec fn is_surely_a_token_file(path: Seq<char>) -> bool {
    &&& !integration::can_be_absolute(path, false)
    &&& forall|name: Option<Seq<char>>| #[trigger]
        integration::can_have_name(path, name) ==> name == Some("_integration-token"@)
}

/// Whether the platform can only say that a path is not one of a file with the token, from a root.
pub open spec fn is_surely_no_token_file(path: Seq<char>) -> bool {
    !integration::can_be_absolute(path, true) || !integration::can_have_name(
        path,
        Some("_integration-token"@),
    )
}

proof fn lemma_first_entry_is_first(shapes: Seq<PathShape>) -> (i: int)
    ensures
        match integration::first_entry(shapes) {
            Some(entry) => 0 <= i < shapes.len() && integration::is_entry(shapes[i]) && shapes[i]
                == entry,
            None => i == shapes.len(),
        },
        forall|j: int| 0 <= j < i ==> !integration::is_entry(#[trigger] shapes[j]),
    decreases shapes.len(),
{
    if shapes.len() == 0 {
        0
    } else if integration::is_entry(shapes[0]) {
        0
    } else {
        let i = lemma_first_entry_is_first(shapes.drop_first());
        assert forall|j: int| 0 <= j < i + 1 implies !integration::is_entry(
            #[trigger] shapes[j],
        ) by {
            if j > 0 {
                assert(shapes[j] == shapes.drop_first()[j - 1]);
            }
        }
        i + 1
    }
}

/// Where MindNProgress is reached, its program is an argument, and no argument before it is
/// surely the program. The token lies in the file that is set for it where the platform surely
/// takes that as a path from a root to a file of the right name; else, where it surely does not,
/// in the directory that is set for data if the platform surely takes that as a path from a root;
/// else, where it surely does not, or none is set, in `server/data` of the project that the
/// program lies in.
pub proof fn token_lies_where_it_is_set(
    transport: &StdioTransportConfig,
    process: &ProcessSettings,
    settings: BackendSettings,
    found: MindNProgressIntegration,
) -> (program: (int, Seq<char>))
    requires
        call_ensures(
            integration::resolve_integration_from_transport,
            (transport, process),
            Ok(found),
        ),
        call_ensures(integration::backend_settings, (transport, process), settings),
    ensures
        0 <= program.0 < transport.spec_args().len(),
        can_be_the_program(transport.spec_args()[program.0], program.1),
        forall|j: int|
            0 <= j < program.0 ==> !is_surely_the_program(#[trigger] transport.spec_args()[j]),
        settings.token_file matches Some(path) ==> is_surely_a_token_file(path@) ==> {
            &&& found.token_file.dir@ == path@
            &&& found.token_file.names@.len() == 0
        },
        (settings.token_file matches Some(path) ==> is_surely_no_token_file(path@)) ==> {
            &&& settings.data_dir matches Some(dir) ==> !integration::can_be_absolute(dir@, false)
                ==> {
                &&& found.token_file.dir@ == dir@
                &&& found.token_file.names@.len() == 1
                &&& found.token_file.names@[0]@ == "_integration-token"@
            }
            &&& (settings.data_dir matches Some(dir) ==> !integration::can_be_absolute(dir@, true))
                ==> {
                &&& found.token_file.dir@ == program.1
                &&& found.token_file.names@.len() == 3
                &&& found.token_file.names@[0]@ == "server"@
                &&& found.token_file.names@[1]@ == "data"@
                &&& found.token_file.names@[2]@ == "_integration-token"@
            }
        },
{
    let (own, args, token_shape, data_shape) = choose|
        own: BackendSettings,
        args: Seq<PathShape>,
        token_shape: PathShape,
        data_shape: PathShape,
    |
        {
            &&& integration::are_settings(own, *transport, *process)
            &&& integration::are_shapes(args, transport.spec_args())
            &&& forall|i: int|
                0 <= i < args.len() ==> integration::is_platform_shape(
                    #[trigger] args[i],
                    transport.spec_args()[i],
                )
            &&& own.token_file matches Some(path) ==> integration::is_platform_shape(
                token_shape,
                path@,
            )
            &&& own.data_dir matches Some(path) ==> integration::is_platform_shape(
                data_shape,
                path@,
            )
            &&& integration::is_resolved_to(
                Ok(found),
                #[trigger] integration::resolved(own, args, token_shape, data_shape),
            )
        };
    assert(text::opt_text(own.token_file) == text::opt_text(settings.token_file));
    assert(text::opt_text(own.data_dir) == text::opt_text(settings.data_dir));
    let i = lemma_first_entry_is_first(args);
    let path = transport.spec_args()[i];
    let project = args[i].grandparent->0@;
    assert(integration::is_platform_shape(args[i], path));
    let parent = choose|parent: Option<Seq<char>>| #[trigger]
        integration::can_have_parent(path, parent) && match parent {
            Some(dir) => integration::can_have_name(dir, text::opt_text(args[i].parent_name))
                && integration::can_have_parent(dir, text::opt_text(args[i].grandparent)),
            None => args[i].parent_name is None && args[i].grandparent is None,
        };
    assert(integration::can_have_parent(path, Some(parent->0)));
    assert(can_be_the_program(path, project));
    assert forall|j: int| 0 <= j < i implies !is_surely_the_program(
        #[trigger] transport.spec_args()[j],
    ) by {
        if is_surely_the_program(transport.spec_args()[j]) {
            lemma_surely_the_program(args[j], transport.spec_args()[j]);
        }
    }
    let names = text::texts(found.token_file.names@);
    assert(names == found@.token_names);
    assert(names.len() == found.token_file.names@.len());
    assert(forall|k: int|
        0 <= k < names.len() ==> #[trigger] names[k] == found.token_file.names@[k]@);
    if found.token_file.names@.len() == 1 {
        assert(names[0] == found.token_file.names@[0]@);
    } else if found.token_file.names@.len() == 3 {
        assert(names[0] == found.token_file.names@[0]@);
        assert(names[1] == found.token_file.names@[1]@);
        assert(names[2] == found.token_file.names@[2]@);
    }
    (i, project)
}

proof fn lemma_surely_the_program(shape: PathShape, path: Seq<char>)
    requires
        integration::is_platform_shape(shape, path),
        is_surely_the_program(path),
    ensures
        integration::is_entry(shape),
{
    let parent = choose|parent: Option<Seq<char>>| #[trigger]
        integration::can_have_parent(path, parent) && match parent {
            Some(dir) => integration::can_have_name(dir, text::opt_text(shape.parent_name))
                && integration::can_have_parent(dir, text::opt_text(shape.grandparent)),
            None => shape.parent_name is None && shape.grandparent is None,
        };
    assert(integration::can_have_parent(path, parent));
    assert(parent is Some);
    assert(shape.absolute);
}

/// MindNProgress is reached where an argument is surely its program, the arguments mean the same on
/// every platform, and the URL that is set, or `http://127.0.0.1:4176` where none is, is taken. It
/// is reached under what comes of that URL, and where the URL is not taken it is not reached.
pub proof fn program_and_url_decide(
    transport: &StdioTransportConfig,
    process: &ProcessSettings,
    settings: BackendSettings,
    found: Result<MindNProgressIntegration, MindNProgressNavigationError>,
    configured: &str,
    url: Result<String, MindNProgressNavigationError>,
    program: int,
)
    requires
        call_ensures(
            integration::resolve_integration_from_transport,
            (transport, process),
            found,
        ),
        call_ensures(integration::backend_settings, (transport, process), settings),
        call_ensures(integration::normalize_loopback_api_url, (configured,), url),
        configured@ == match settings.api_url {
            Some(set) => set@,
            None => "http://127.0.0.1:4176"@,
        },
    ensures
        found matches Ok(found) ==> (url matches Ok(url) && found.api_base_url@ == url@),
        found matches Err(error) ==> error is NotConfigured,
        url is Ok && 0 <= program < transport.spec_args().len() && is_surely_the_program(
            transport.spec_args()[program],
        ) && (forall|j: int|
            0 <= j < transport.spec_args().len() ==> integration::is_portable(
                #[trigger] transport.spec_args()[j],
            )) ==> found is Ok,
{
    let (own, args, token_shape, data_shape) = choose|
        own: BackendSettings,
        args: Seq<PathShape>,
        token_shape: PathShape,
        data_shape: PathShape,
    |
        {
            &&& integration::are_settings(own, *transport, *process)
            &&& integration::are_shapes(args, transport.spec_args())
            &&& forall|i: int|
                0 <= i < args.len() ==> integration::is_platform_shape(
                    #[trigger] args[i],
                    transport.spec_args()[i],
                )
            &&& own.token_file matches Some(path) ==> integration::is_platform_shape(
                token_shape,
                path@,
            )
            &&& own.data_dir matches Some(path) ==> integration::is_platform_shape(
                data_shape,
                path@,
            )
            &&& integration::is_resolved_to(
                found,
                #[trigger] integration::resolved(own, args, token_shape, data_shape),
            )
        };
    assert(text::opt_text(own.api_url) == text::opt_text(settings.api_url));
    assert(integration::configured_url(own) == configured@);
    if url is Ok && 0 <= program < transport.spec_args().len() && is_surely_the_program(
        transport.spec_args()[program],
    ) && (forall|j: int|
        0 <= j < transport.spec_args().len() ==> integration::is_portable(
            #[trigger] transport.spec_args()[j],
        )) {
        let i = lemma_first_entry_is_first(args);
        lemma_surely_the_program(args[program], transport.spec_args()[program]);
        assert(integration::is_shape(args[i], transport.spec_args()[i]));
        integration::program_lies_in_a_project(args[i], transport.spec_args()[i]);
    }
}

/// The endpoint for a conversation whose ID has letters, digits, `-` and `_` alone is the base URL
/// with `api/integrations/aionui/conversations/<id>/mindnprogress` behind it, and `/select` behind
/// that for a selection.
pub proof fn endpoint_is_spelled_out(
    found: &MindNProgressIntegration,
    conversation_id: &str,
    select: bool,
    url: Result<String, MindNProgressNavigationError>,
)
    requires
        call_ensures(MindNProgressIntegration::endpoint, (found, conversation_id, select), url),
        conversation_id@.len() > 0,
        forall|i: int|
            0 <= i < conversation_id@.len() ==> {
                let c = #[trigger] conversation_id@[i];
                ||| 'a' <= c <= 'z'
                ||| 'A' <= c <= 'Z'
                ||| '0' <= c <= '9'
                ||| c == '-' || c == '_'
            },
    ensures
        url matches Ok(url) && url@ == found.api_base_url@
            + "api/integrations/aionui/conversations/"@ + conversation_id@ + "/mindnprogress"@
            + if select {
            "/select"@
        } else {
            Seq::empty()
        },
{
    reveal_strlit("api");
    reveal_strlit("integrations");
    reveal_strlit("aionui");
    reveal_strlit("conversations");
    reveal_strlit("mindnprogress");
    reveal_strlit("select");
    reveal_strlit("/");
    reveal_strlit("api/integrations/aionui/conversations/");
    reveal_strlit("/mindnprogress");
    reveal_strlit("/select");
    let id = conversation_id@;
    assert(integration::is_plain_segment(id));
    let link = integration::endpoint_segments(id, false);
    let select_link = integration::endpoint_segments(id, true);
    let slash = "/"@;
    assert(select_link.drop_last() =~= link);
    let fifth = link.drop_last();
    let fourth = fifth.drop_last();
    let third = fourth.drop_last();
    let second = third.drop_last();
    let first = second.drop_last();
    assert(text::joined(first, slash) =~= "api"@);
    assert(text::joined(second, slash) =~= "api"@ + slash + "integrations"@);
    assert(text::joined(third, slash) =~= text::joined(second, slash) + slash + "aionui"@);
    assert(text::joined(fourth, slash) =~= text::joined(third, slash) + slash + "conversations"@);
    assert(text::joined(fifth, slash) =~= text::joined(fourth, slash) + slash + id);
    assert(text::joined(link, slash) =~= text::joined(fifth, slash) + slash + "mindnprogress"@);
    assert(text::joined(select_link, slash) =~= text::joined(link, slash) + slash + "select"@);
    assert(text::joined(fourth, slash) + slash =~= "api/integrations/aionui/conversations/"@);
    assert(text::joined(link, slash) =~= "api/integrations/aionui/conversations/"@ + id
        + "/mindnprogress"@);
    assert(slash + "select"@ =~= "/select"@);
    let base = found.api_base_url@;
    if select {
        assert(base + text::joined(select_link, slash) =~= base
            + "api/integrations/aionui/conversations/"@ + id + "/mindnprogress"@ + "/select"@);
    } else {
        assert(base + text::joined(link, slash) =~= base
            + "api/integrations/aionui/conversations/"@ + id + "/mindnprogress"@
            + Seq::<char>::empty());
    }
}

} // verus!
