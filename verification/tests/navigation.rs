use aioncore::device_address::{
    normalize_ip, selection_device_address, ForwardedAddress, IpAddress,
    TRUSTED_CLIENT_ADDRESS_HEADER,
};
use aioncore::integration::{
    backend_setting, normalize_loopback_api_url, resolve_integration,
    resolve_integration_from_transport, url_loopback_port, BackendSettings,
    MindNProgressIntegration, PathShape, ProcessSettings, StdioTransportConfig, TokenFile,
    UrlParts, DEFAULT_MNP_API_URL, INTEGRATION_TOKEN_FILENAME, MINDNPROGRESS_MCP_NAME,
};
use aioncore::mindnprogress::{
    MindNProgressConversationSelectionResponse, MindNProgressTarget,
};
use aioncore::navigation::{McpServerRow, Navigation, NavigationEvent, NavigationStep};
use aioncore::navigation_error::{
    map_navigation_error, map_upstream_error, MindNProgressNavigationError,
};
use aioncore::relay::{
    refused_request, relay_request, succeeded, MindNProgressErrorResponse, RelayMethod,
    SELECTION_DEVICE_ADDRESS_HEADER,
};

#[test]
fn upstream_selection_errors_keep_the_mnp_code_and_message() {
    let cases = [
        (400, "MNP_SELECTION_ACCOUNT_REQUIRED"),
        (400, "MNP_SELECTION_DEVICE_ADDRESS_INVALID"),
        (400, "MNP_SELECTION_DEVICE_REQUIRED"),
        (403, "MNP_LOCAL_SELECTION_REQUIRED"),
        (403, "MNP_SELECTION_ACCOUNT_UNAVAILABLE"),
        (403, "MNP_SELECTION_ACCOUNT_MISMATCH"),
        (404, "MNP_AI_CONVERSATION_NOT_FOUND"),
        (409, "MNP_LOCAL_VIEW_NOT_CONNECTED"),
        (409, "MNP_MATCHING_VIEW_NOT_CONNECTED"),
    ];
    for (status, code) in cases {
        let error = map_upstream_error(status, Some(code), "server message".to_owned());
        assert_eq!(error.status_code(), status);
        assert_eq!(error.error_code(), code);
        assert_eq!(error.public_message(), "server message");
    }
}

#[test]
fn other_upstream_errors_are_failures_of_the_integration() {
    let cases = [
        (401, Some("ANY"), "MNP_INTEGRATION_AUTH_FAILED"),
        (401, None, "MNP_INTEGRATION_AUTH_FAILED"),
        (400, None, "MNP_INTEGRATION_UPSTREAM_ERROR"),
        (403, Some("MNP_SELECTION_ACCOUNT_REQUIRED"), "MNP_INTEGRATION_UPSTREAM_ERROR"),
        (500, Some("BOOM"), "MNP_INTEGRATION_UPSTREAM_ERROR"),
    ];
    for (status, code, expected) in cases {
        let error = map_upstream_error(status, code, "server message".to_owned());
        assert_eq!(error.status_code(), 502);
        assert_eq!(error.error_code(), expected);
        assert_eq!(error.public_message(), "server message");
    }
    let error = map_upstream_error(400, Some("MNP_AI_CONVERSATION_ID_INVALID"), "m".to_owned());
    assert_eq!((error.status_code(), error.error_code()), (400, "MNP_AI_CONVERSATION_ID_INVALID"));
}

#[test]
fn navigation_errors_are_answered() {
    let cases = [
        (
            MindNProgressNavigationError::ConversationNotFound,
            "conversation not found",
            404,
            "MNP_AIONUI_CONVERSATION_NOT_FOUND",
            "Conversation was not found for the current user.",
        ),
        (
            MindNProgressNavigationError::Storage,
            "integration storage failed",
            500,
            "MNP_INTEGRATION_STORAGE_FAILED",
            "MindNProgress integration storage lookup failed.",
        ),
        (
            MindNProgressNavigationError::NotConfigured,
            "integration is not configured",
            502,
            "MNP_INTEGRATION_NOT_CONFIGURED",
            "MindNProgress integration is not configured on this device.",
        ),
        (
            MindNProgressNavigationError::Unavailable,
            "MindNProgress is unavailable",
            502,
            "MNP_INTEGRATION_UNAVAILABLE",
            "MindNProgress is not available on this device.",
        ),
        (
            MindNProgressNavigationError::InvalidResponse,
            "MindNProgress returned an invalid response",
            502,
            "MNP_INTEGRATION_RESPONSE_INVALID",
            "MindNProgress returned an invalid response.",
        ),
        (
            MindNProgressNavigationError::Upstream {
                status: 409,
                code: Some("MNP_LOCAL_VIEW_NOT_CONNECTED".to_owned()),
                message: "open it first".to_owned(),
            },
            "MindNProgress request failed",
            409,
            "MNP_LOCAL_VIEW_NOT_CONNECTED",
            "open it first",
        ),
    ];
    for (cause, text, status, code, message) in cases {
        assert_eq!(cause.text(), text);
        let error = map_navigation_error(cause);
        assert_eq!(error.status_code(), status);
        assert_eq!(error.error_code(), code);
        assert_eq!(error.public_message(), message);
    }
}

fn v4(a: u32, b: u32, c: u32, d: u32) -> IpAddress {
    IpAddress::V4(((a * 256 + b) * 256 + c) * 256 + d)
}

fn mapped(a: u32, b: u32, c: u32, d: u32) -> IpAddress {
    match v4(a, b, c, d) {
        IpAddress::V4(bits) => IpAddress::V6(0xffff_0000_0000 + u128::from(bits)),
        other => other,
    }
}

fn forwarded(text: &str, parsed: Option<IpAddress>) -> Option<ForwardedAddress> {
    Some(ForwardedAddress { text: Some(text.to_owned()), parsed })
}

#[test]
fn direct_remote_peer_ignores_spoofed_internal_address_header() {
    assert_eq!(TRUSTED_CLIENT_ADDRESS_HEADER, "x-aionui-client-address");
    let headers = forwarded("203.0.113.10", Some(v4(203, 0, 113, 10)));
    let peer = v4(10, 77, 15, 55);

    assert_eq!(selection_device_address(Some(peer), headers).unwrap(), Some(peer));
}

#[test]
fn loopback_web_host_supplies_the_observed_remote_device_address() {
    let headers = forwarded("::ffff:10.77.15.55", Some(mapped(10, 77, 15, 55)));
    let peer = v4(127, 0, 0, 1);

    assert_eq!(
        selection_device_address(Some(peer), headers).unwrap(),
        Some(v4(10, 77, 15, 55))
    );
}

#[test]
fn local_browser_address_is_omitted() {
    let headers = forwarded("127.0.0.1", Some(v4(127, 0, 0, 1)));
    let peer = v4(127, 0, 0, 1);

    assert_eq!(selection_device_address(Some(peer), headers).unwrap(), None);
}

#[test]
fn loopback_web_host_rejects_forwarding_chains() {
    let headers = forwarded("10.77.15.55, 127.0.0.1", None);
    let peer = v4(127, 0, 0, 1);

    let error = selection_device_address(Some(peer), headers).unwrap_err();
    assert_eq!(error.status_code(), 400);
    assert_eq!(error.error_code(), "MNP_SELECTION_DEVICE_ADDRESS_INVALID");
    assert_eq!(error.public_message(), "The AionUi client device address is invalid.");
}

#[test]
fn device_address_edge_cases() {
    let local = v4(127, 9, 9, 9);
    let remote = v4(10, 77, 15, 55);
    assert_eq!(selection_device_address(None, forwarded("x", None)).unwrap(), None);
    assert_eq!(selection_device_address(Some(local), None).unwrap(), None);
    assert_eq!(selection_device_address(Some(IpAddress::V6(1)), None).unwrap(), None);
    assert_eq!(
        selection_device_address(Some(mapped(10, 77, 15, 55)), None).unwrap(),
        Some(remote)
    );
    assert_eq!(
        selection_device_address(Some(mapped(127, 0, 0, 1)), forwarded("10.77.15.55", Some(remote)))
            .unwrap(),
        Some(remote)
    );
    let refused = [
        forwarded(" 10.77.15.55", Some(remote)),
        forwarded("10.77.15.55\t", Some(remote)),
        forwarded("nonsense", None),
        forwarded("", None),
        Some(ForwardedAddress { text: None, parsed: None }),
    ];
    for headers in refused {
        assert!(selection_device_address(Some(local), headers).is_err());
    }
    assert_eq!(normalize_ip(IpAddress::V6(0x1_ffff_0000_0000)), IpAddress::V6(0x1_ffff_0000_0000));
    assert_eq!(normalize_ip(remote), remote);
}

#[test]
fn loopback_url_is_rebuilt_with_literal_ipv4_loopback() {
    let url = normalize_loopback_api_url("http://localhost:4321").unwrap();
    assert_eq!(url, "http://127.0.0.1:4321/");
}

#[test]
fn lan_and_public_urls_are_rejected() {
    assert!(normalize_loopback_api_url("http://192.168.0.10:4176").is_err());
    assert!(normalize_loopback_api_url("https://example.com:4176").is_err());
}

#[test]
fn loopback_urls_are_plain_origins() {
    let url = |value: &str| normalize_loopback_api_url(value).ok();
    assert_eq!(url(DEFAULT_MNP_API_URL).as_deref(), Some("http://127.0.0.1:4176/"));
    assert_eq!(url("http://localhost").as_deref(), Some("http://127.0.0.1/"));
    assert_eq!(url("http://127.0.0.1:80/").as_deref(), Some("http://127.0.0.1/"));
    assert_eq!(url("http://127.0.0.1:0").as_deref(), Some("http://127.0.0.1:0/"));
    assert_eq!(url("http://LOCALHOST:65535").as_deref(), Some("http://127.0.0.1:65535/"));
    assert_eq!(url("http://[::1]:4176"), None);
    assert_eq!(url("https://127.0.0.1:4176"), None);
    assert_eq!(url("http://user@127.0.0.1:4176"), None);
    assert_eq!(url("http://:pw@127.0.0.1:4176"), None);
    assert_eq!(url("http://127.0.0.1:4176/api"), None);
    assert_eq!(url("http://127.0.0.1:4176/?x"), None);
    assert_eq!(url("http://127.0.0.1:4176/#x"), None);
    assert_eq!(url("http://127.0.0.1.example.com"), None);
    assert_eq!(url("not a url"), None);
    assert!(matches!(
        normalize_loopback_api_url(""),
        Err(MindNProgressNavigationError::NotConfigured)
    ));
}

#[test]
fn normalizing_a_url_again_changes_nothing() {
    for value in ["http://localhost", "http://127.0.0.1:80", "http://localhost:0", "http://LOCALHOST:4176/"] {
        let once = normalize_loopback_api_url(value).unwrap();
        assert_eq!(normalize_loopback_api_url(&once).unwrap(), once);
    }
}

fn local_parts() -> UrlParts {
    UrlParts {
        scheme: "http".to_owned(),
        host: Some("localhost".to_owned()),
        username: String::new(),
        has_password: false,
        has_query: false,
        has_fragment: false,
        path: "/".to_owned(),
        port: Some(4176),
        text: "http://localhost:4176/".to_owned(),
    }
}

#[test]
fn every_part_of_a_url_counts() {
    assert_eq!(url_loopback_port(&local_parts()), Some(4176));
    assert_eq!(
        url_loopback_port(&UrlParts { host: Some("::1".to_owned()), ..local_parts() }),
        Some(4176)
    );
    let refused = [
        UrlParts { scheme: "https".to_owned(), ..local_parts() },
        UrlParts { host: None, ..local_parts() },
        UrlParts { host: Some("10.0.0.1".to_owned()), ..local_parts() },
        UrlParts { username: "u".to_owned(), ..local_parts() },
        UrlParts { has_password: true, ..local_parts() },
        UrlParts { has_query: true, ..local_parts() },
        UrlParts { has_fragment: true, ..local_parts() },
        UrlParts { path: "/x".to_owned(), ..local_parts() },
        UrlParts { port: None, ..local_parts() },
    ];
    for parts in refused {
        assert_eq!(url_loopback_port(&parts), None);
    }
}

fn no_process_settings() -> ProcessSettings {
    ProcessSettings { token_file: None, data_dir: None, api_url: None }
}

fn place(file: &TokenFile) -> String {
    let mut place = file.dir.clone();
    for name in &file.names {
        place = format!("{place}/{name}");
    }
    place
}

#[test]
fn token_path_and_api_port_come_from_backend_only_configuration() {
    let token_file = format!("/opt/MindNProgress/private/{INTEGRATION_TOKEN_FILENAME}");
    let transport = StdioTransportConfig::new(vec!["/opt/MindNProgress/mcp/server.mjs".to_owned()])
        .with_env("MNP_API_URL".to_owned(), "http://127.0.0.1:4321".to_owned())
        .with_env("MNP_TOKEN_FILE".to_owned(), token_file.clone());

    let resolved = resolve_integration_from_transport(&transport, &no_process_settings()).unwrap();
    assert_eq!(resolved.api_base_url, "http://127.0.0.1:4321/");
    assert_eq!(place(&resolved.token_file), token_file);
}

#[test]
fn token_lies_in_the_data_directory_or_below_the_project() {
    let args = || vec!["--flag".to_owned(), "/opt/MnP/mcp/server.mjs".to_owned()];
    let resolve = |transport: StdioTransportConfig, process: ProcessSettings| {
        let resolved = resolve_integration_from_transport(&transport, &process).unwrap();
        (resolved.api_base_url, place(&resolved.token_file))
    };
    let default_url = "http://127.0.0.1:4176/".to_owned();
    assert_eq!(
        resolve(StdioTransportConfig::new(args()), no_process_settings()),
        (default_url.clone(), "/opt/MnP/server/data/_integration-token".to_owned())
    );
    let process = ProcessSettings {
        token_file: Some("relative/_integration-token".to_owned()),
        data_dir: Some("/var/mnp".to_owned()),
        api_url: Some("  ".to_owned()),
    };
    assert_eq!(
        resolve(StdioTransportConfig::new(args()), process),
        (default_url.clone(), "/var/mnp/_integration-token".to_owned())
    );
    let process = ProcessSettings {
        token_file: Some("/etc/passwords".to_owned()),
        data_dir: Some("data".to_owned()),
        api_url: Some("http://localhost:1".to_owned()),
    };
    assert_eq!(
        resolve(StdioTransportConfig::new(args()), process),
        (
            "http://127.0.0.1:1/".to_owned(),
            "/opt/MnP/server/data/_integration-token".to_owned()
        )
    );
}

#[test]
fn program_must_be_among_the_arguments() {
    let refused = [
        "mcp/server.mjs",
        "./mcp/server.mjs",
        "../opt/mcp/server.mjs",
        "",
        ".",
        "/",
        "/opt/server.mjs",
        "/opt/mcp/other.mjs",
        "/opt/mcp",
        "/opt/mcp/server.mjs/..",
        "server.mjs",
    ];
    for arg in refused {
        let transport = StdioTransportConfig::new(vec![arg.to_owned()]);
        assert!(matches!(
            resolve_integration_from_transport(&transport, &no_process_settings()),
            Err(MindNProgressNavigationError::NotConfigured)
        ));
    }
    let transport = StdioTransportConfig::new(vec!["/opt/mcp/server.mjs".to_owned()])
        .with_env("MNP_API_URL".to_owned(), "http://10.0.0.1".to_owned());
    assert!(resolve_integration_from_transport(&transport, &no_process_settings()).is_err());
}

fn shape(absolute: bool, file_name: &str, parent_name: &str, grandparent: &str) -> PathShape {
    PathShape {
        absolute,
        file_name: Some(file_name.to_owned()),
        parent_name: Some(parent_name.to_owned()),
        grandparent: Some(grandparent.to_owned()),
    }
}

#[test]
fn first_program_among_the_arguments_counts() {
    let settings = BackendSettings { token_file: None, data_dir: None, api_url: None };
    let none = || PathShape { absolute: false, file_name: None, parent_name: None, grandparent: None };
    let args = vec![
        shape(false, "server.mjs", "mcp", "a"),
        shape(true, "server.mjs", "mcp", "b"),
        shape(true, "server.mjs", "mcp", "c"),
    ];
    let resolved = resolve_integration(&settings, args, &none(), &none()).unwrap();
    assert_eq!(resolved.token_file.dir, "b");

    let rootless = PathShape { grandparent: None, ..shape(true, "server.mjs", "mcp", "") };
    let args = vec![rootless, shape(true, "server.mjs", "mcp", "c")];
    assert!(resolve_integration(&settings, args, &none(), &none()).is_err());
}

#[test]
fn settings_of_the_tool_server_come_first() {
    let transport = StdioTransportConfig::new(vec![])
        .with_env("A".to_owned(), "1".to_owned())
        .with_env("B".to_owned(), " \t".to_owned())
        .with_env("A".to_owned(), "2".to_owned());
    let process = Some("process".to_owned());
    assert_eq!(backend_setting(&transport, "A", &process).as_deref(), Some("2"));
    assert_eq!(backend_setting(&transport, "A", &None).as_deref(), Some("2"));
    assert_eq!(backend_setting(&transport, "B", &process), None);
    assert_eq!(backend_setting(&transport, "C", &process).as_deref(), Some("process"));
    assert_eq!(backend_setting(&transport, "C", &Some(" ".to_owned())), None);
    assert_eq!(backend_setting(&transport, "C", &None), None);
}

fn integration() -> MindNProgressIntegration {
    MindNProgressIntegration {
        api_base_url: "http://127.0.0.1:4321/".to_owned(),
        token_file: TokenFile { dir: "/token".to_owned(), names: vec![] },
    }
}

#[test]
fn endpoint_is_fixed_but_for_the_conversation() {
    assert_eq!(
        integration().endpoint("conversation-1", false).unwrap(),
        "http://127.0.0.1:4321/api/integrations/aionui/conversations/conversation-1/mindnprogress"
    );
    assert_eq!(
        integration().endpoint("conversation-1", true).unwrap(),
        "http://127.0.0.1:4321/api/integrations/aionui/conversations/conversation-1/mindnprogress/select"
    );
    assert_eq!(
        integration().endpoint("a/b?c#d%", false).unwrap(),
        "http://127.0.0.1:4321/api/integrations/aionui/conversations/a%2Fb%3Fc%23d%25/mindnprogress"
    );
    for id in ["한 글", "a&b=c", "a b", "%2e%2e", "..a", "a\\b"] {
        let url = integration().endpoint(id, true).unwrap();
        let rest = url
            .strip_prefix("http://127.0.0.1:4321/api/integrations/aionui/conversations/")
            .expect("the fixed beginning");
        let segment = rest.strip_suffix("/mindnprogress/select").expect("the fixed end");
        assert!(!segment.is_empty() && !segment.contains(['/', '?', '#']));
    }
    assert!(integration()
        .endpoint("..", false)
        .unwrap()
        .starts_with("http://127.0.0.1:4321/api/integrations/"));
}

#[test]
fn relay_needs_a_token() {
    assert_eq!(SELECTION_DEVICE_ADDRESS_HEADER, "x-mnp-selection-device-address");
    let device = Some(v4(10, 77, 15, 55));
    for token in [None, Some(String::new()), Some(" \n\t".to_owned())] {
        assert!(matches!(
            relay_request(&integration(), token, "conversation-1", false, device),
            Err(MindNProgressNavigationError::NotConfigured)
        ));
    }
    let token = Some("\u{a0} secret-token\n".to_owned());
    let request = relay_request(&integration(), token, "conversation-1", false, device).unwrap();
    assert_eq!(request.bearer_token, "secret-token");
    assert_eq!(request.method, RelayMethod::Get);
    assert_eq!(request.device_address, device);
}

#[test]
fn refusals_say_what_mindnprogress_says() {
    let body = |error: Option<&str>, message: Option<&str>, code: Option<&str>| {
        Some(MindNProgressErrorResponse {
            error: error.map(str::to_owned),
            message: message.map(str::to_owned),
            code: code.map(str::to_owned),
        })
    };
    let cases = [
        (body(Some("e"), Some("m"), Some("c")), Some("c"), "e"),
        (body(None, Some("m"), None), None, "m"),
        (body(None, None, Some("c")), Some("c"), "MindNProgress request failed."),
        (None, None, "MindNProgress request failed."),
    ];
    for (body, expected_code, expected_message) in cases {
        match refused_request(418, body) {
            MindNProgressNavigationError::Upstream { status, code, message } => {
                assert_eq!(status, 418);
                assert_eq!(code.as_deref(), expected_code);
                assert_eq!(message, expected_message);
            }
            other => panic!("{other:?}"),
        }
    }
    assert!(!succeeded(199));
    assert!(succeeded(200));
    assert!(succeeded(299));
    assert!(!succeeded(300));
}

fn selected() -> MindNProgressConversationSelectionResponse {
    MindNProgressConversationSelectionResponse {
        selected: true,
        conversation_id: "conversation-1".to_owned(),
        target: MindNProgressTarget {
            map_id: "map-1".to_owned(),
            document_title: "Document".to_owned(),
            card_id: "card-1".to_owned(),
            card_title: "Card".to_owned(),
            archived: false,
        },
        delivered_client_count: 1,
        requested_at: "2026-09-15T00:00:00.000Z".to_owned(),
        message: "selected".to_owned(),
    }
}

type Event = NavigationEvent<MindNProgressConversationSelectionResponse>;

fn go_on(navigation: Navigation, event: Event) -> Navigation {
    match navigation.handle(event) {
        NavigationStep::Continue(next) => next,
        NavigationStep::Finished(result) => panic!("{result:?}"),
    }
}

fn finish(
    navigation: Navigation,
    event: Event,
) -> Result<MindNProgressConversationSelectionResponse, MindNProgressNavigationError> {
    match navigation.handle(event) {
        NavigationStep::Continue(next) => panic!("{next:?}"),
        NavigationStep::Finished(result) => result,
    }
}

fn server() -> Event {
    assert_eq!(MINDNPROGRESS_MCP_NAME, "MindNProgress");
    let transport = StdioTransportConfig::new(vec!["/opt/MnP/mcp/server.mjs".to_owned()])
        .with_env("MNP_API_URL".to_owned(), "http://localhost:4321".to_owned());
    NavigationEvent::ServerChecked {
        server: Some(McpServerRow {
            transport_type: "stdio".to_owned(),
            transport: Some(transport),
        }),
        process: no_process_settings(),
    }
}

fn sending() -> Navigation {
    let device = Some(v4(10, 77, 15, 55));
    let navigation = Navigation::select("conversation-1", device);
    let navigation = go_on(navigation, NavigationEvent::ConversationChecked { found: true });
    let navigation = go_on(navigation, server());
    match &navigation {
        Navigation::ReadingToken { integration, .. } => {
            assert_eq!(
                place(&integration.token_file),
                "/opt/MnP/server/data/_integration-token"
            );
        }
        other => panic!("{other:?}"),
    }
    let content = Some("secret-token\n".to_owned());
    go_on(navigation, NavigationEvent::TokenRead { content })
}

#[test]
fn relay_sends_the_token_only_to_the_fixed_loopback_endpoint() {
    let navigation = sending();
    match &navigation {
        Navigation::Sending { relay } => {
            assert_eq!(relay.method, RelayMethod::Post);
            assert_eq!(
                relay.url,
                "http://127.0.0.1:4321/api/integrations/aionui/conversations/conversation-1/mindnprogress/select"
            );
            assert_eq!(relay.bearer_token, "secret-token");
            assert_eq!(relay.device_address, Some(v4(10, 77, 15, 55)));
        }
        other => panic!("{other:?}"),
    }
    let navigation = go_on(navigation, NavigationEvent::Replied { status: 200 });
    let response = finish(navigation, NavigationEvent::AnswerRead { answer: Some(selected()) }).unwrap();
    assert!(response.selected);
    assert_eq!(response.message, "selected");
}

#[test]
fn request_ends_with_the_error_of_the_step_that_fails() {
    let start = || Navigation::lookup("conversation-1", None);
    assert!(matches!(
        finish(start(), NavigationEvent::StoreFailed),
        Err(MindNProgressNavigationError::Storage)
    ));
    assert!(matches!(
        finish(start(), NavigationEvent::ConversationChecked { found: false }),
        Err(MindNProgressNavigationError::ConversationNotFound)
    ));
    let owned = || go_on(start(), NavigationEvent::ConversationChecked { found: true });
    assert!(matches!(
        finish(owned(), NavigationEvent::StoreFailed),
        Err(MindNProgressNavigationError::Storage)
    ));
    let servers = [
        None,
        Some(McpServerRow { transport_type: "stdio".to_owned(), transport: None }),
        Some(McpServerRow {
            transport_type: "http".to_owned(),
            transport: Some(StdioTransportConfig::new(vec!["/opt/mcp/server.mjs".to_owned()])),
        }),
        Some(McpServerRow {
            transport_type: "stdio".to_owned(),
            transport: Some(StdioTransportConfig::new(vec![])),
        }),
    ];
    for server in servers {
        let event = NavigationEvent::ServerChecked { server, process: no_process_settings() };
        assert!(matches!(
            finish(owned(), event),
            Err(MindNProgressNavigationError::NotConfigured)
        ));
    }
    assert!(matches!(
        finish(go_on(owned(), server()), NavigationEvent::TokenRead { content: None }),
        Err(MindNProgressNavigationError::NotConfigured)
    ));
    assert!(matches!(
        finish(sending(), NavigationEvent::Unreachable),
        Err(MindNProgressNavigationError::Unavailable)
    ));
    let answered = go_on(sending(), NavigationEvent::Replied { status: 204 });
    assert!(matches!(
        finish(answered, NavigationEvent::AnswerRead { answer: None }),
        Err(MindNProgressNavigationError::InvalidResponse)
    ));
    let refused = go_on(sending(), NavigationEvent::Replied { status: 403 });
    assert!(matches!(
        finish(refused, NavigationEvent::RefusalRead { body: None }),
        Err(MindNProgressNavigationError::Upstream { status: 403, .. })
    ));
}
