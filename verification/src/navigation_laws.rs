//! What is asked of MindNProgress, and how a client is answered, told field by field.

use vstd::prelude::*;
use vstd::string::*;

use crate::device_address;
use crate::device_address::IpAddress;
use crate::integration;
use crate::integration::{MindNProgressIntegration, ProcessSettings};
use crate::navigation::{
    McpServerRow, Navigation, NavigationEvent, NavigationRequest, NavigationStep,
};
use crate::navigation_error;
use crate::navigation_error::{ApiError, MindNProgressNavigationError};
use crate::relay;
use crate::relay::{MindNProgressErrorResponse, RelayMethod, RelayRequest};
use crate::text;

verus! {

/// The headers that carry a device's address, and the name of the tool server, are fixed.
pub proof fn names_between_processes_are_fixed()
    ensures
        device_address::TRUSTED_CLIENT_ADDRESS_HEADER@ == "x-aionui-client-address"@,
        relay::SELECTION_DEVICE_ADDRESS_HEADER@ == "x-mnp-selection-device-address"@,
        integration::MINDNPROGRESS_MCP_NAME@ == "MindNProgress"@,
{
}

/// A request is met by a status from 200 to 299.
pub proof fn success_is_two_hundred_and_up(status: u16, r: bool)
    requires
        call_ensures(relay::succeeded, (status,), r),
    ensures
        r <==> 200 <= status <= 299,
{
}

/// A request goes to the conversation's endpoint with what [`text::trim`] leaves of the token, by
/// `POST` for a selection and `GET` for a look-up, and for the device that was given. Without a
/// token, or with a blank one, there is no request.
pub proof fn requests_carry_the_trimmed_token(
    found: &MindNProgressIntegration,
    token: Option<String>,
    conversation_id: &str,
    select: bool,
    device_address: Option<IpAddress>,
    request: Result<RelayRequest, MindNProgressNavigationError>,
    url: Result<String, MindNProgressNavigationError>,
    content: &str,
    trimmed: &str,
)
    requires
        call_ensures(
            relay::relay_request,
            (found, token, conversation_id, select, device_address),
            request,
        ),
        call_ensures(MindNProgressIntegration::endpoint, (found, conversation_id, select), url),
        call_ensures(text::trim, (content,), trimmed),
        token matches Some(token) ==> token@ == content@,
    ensures
        request is Ok <==> token is Some && trimmed@.len() > 0,
        request matches Ok(request) ==> {
            &&& request.bearer_token@ == trimmed@
            &&& select ==> request.method == RelayMethod::Post
            &&& !select ==> request.method == RelayMethod::Get
            &&& request.device_address == device_address
            &&& url matches Ok(url) && request.url@ == url@
        },
        request matches Err(error) ==> error is NotConfigured,
{
    text::lemma_trimmed_blank(content@);
}

/// A refusal keeps its status and its name. Its message is the error that MindNProgress gives,
/// else the message that it gives, else a general one.
pub proof fn refusals_keep_what_they_say(
    status: u16,
    body: Option<MindNProgressErrorResponse>,
    error: MindNProgressNavigationError,
)
    requires
        call_ensures(relay::refused_request, (status, body), error),
    ensures
        error matches MindNProgressNavigationError::Upstream { status: kept, code, message } && kept
            == status && (match body {
            None => code is None && message@ == "MindNProgress request failed."@,
            Some(body) => {
                &&& code is Some == body.code is Some
                &&& code is Some ==> code->0@ == body.code->0@
                &&& body.error is Some ==> message@ == body.error->0@
                &&& body.error is None && body.message is Some ==> message@ == body.message->0@
                &&& body.error is None && body.message is None ==> message@
                    == "MindNProgress request failed."@
            },
        }),
{
}

/// An answer comes through as it is, and no answer is an invalid response.
pub proof fn answers_come_through<T>(
    answer: Option<T>,
    r: Result<T, MindNProgressNavigationError>,
)
    requires
        call_ensures(relay::met_request::<T>, (answer,), r),
    ensures
        answer matches Some(given) ==> r == Ok::<T, MindNProgressNavigationError>(given),
        answer is None ==> (r matches Err(error) && error is InvalidResponse),
{
}

/// The message of a refusal always reaches the client. A refusal has its own status and name just
/// where clients know the two together; else it counts as a bad gateway, with a name of its own
/// for a refused token.
pub proof fn known_refusals_come_through(
    status: u16,
    code: Option<&str>,
    message: String,
    error: ApiError,
)
    requires
        call_ensures(navigation_error::map_upstream_error, (status, code, message), error),
    ensures
        error.message@ == message@,
        ({
            let known = code is Some && ({
                let name = code->0@;
                ||| status == 400 && name == "MNP_AI_CONVERSATION_ID_INVALID"@
                ||| status == 400 && name == "MNP_SELECTION_ACCOUNT_REQUIRED"@
                ||| status == 400 && name == "MNP_SELECTION_DEVICE_ADDRESS_INVALID"@
                ||| status == 400 && name == "MNP_SELECTION_DEVICE_REQUIRED"@
                ||| status == 403 && name == "MNP_LOCAL_SELECTION_REQUIRED"@
                ||| status == 403 && name == "MNP_SELECTION_ACCOUNT_UNAVAILABLE"@
                ||| status == 403 && name == "MNP_SELECTION_ACCOUNT_MISMATCH"@
                ||| status == 404 && name == "MNP_AI_CONVERSATION_NOT_FOUND"@
                ||| status == 409 && name == "MNP_LOCAL_VIEW_NOT_CONNECTED"@
                ||| status == 409 && name == "MNP_MATCHING_VIEW_NOT_CONNECTED"@
            });
            &&& known ==> error.status == status && error.code@ == code->0@
            &&& !known ==> error.status == 502
            &&& !known && status == 401 ==> error.code@ == "MNP_INTEGRATION_AUTH_FAILED"@
            &&& !known && status != 401 ==> error.code@ == "MNP_INTEGRATION_UPSTREAM_ERROR"@
        }),
{
}

/// What keeps a request from being relayed is answered by a status and a name of its own, and a
/// refusal as [`navigation_error::map_upstream_error`] answers it.
pub proof fn causes_are_told_apart(
    cause: MindNProgressNavigationError,
    error: ApiError,
    code: Option<&str>,
    upstream: ApiError,
)
    requires
        call_ensures(navigation_error::map_navigation_error, (cause,), error),
        cause matches MindNProgressNavigationError::Upstream { status, code: given, message } ==> {
            &&& code is Some == given is Some
            &&& code is Some ==> code->0@ == given->0@
            &&& call_ensures(
                navigation_error::map_upstream_error,
                (status, code, message),
                upstream,
            )
        },
    ensures
        match cause {
            MindNProgressNavigationError::ConversationNotFound => error.status == 404 && error.code@
                == "MNP_AIONUI_CONVERSATION_NOT_FOUND"@ && error.message@
                == "Conversation was not found for the current user."@,
            MindNProgressNavigationError::Storage => error.status == 500 && error.code@
                == "MNP_INTEGRATION_STORAGE_FAILED"@ && error.message@
                == "MindNProgress integration storage lookup failed."@,
            MindNProgressNavigationError::NotConfigured => error.status == 502 && error.code@
                == "MNP_INTEGRATION_NOT_CONFIGURED"@ && error.message@
                == "MindNProgress integration is not configured on this device."@,
            MindNProgressNavigationError::Unavailable => error.status == 502 && error.code@
                == "MNP_INTEGRATION_UNAVAILABLE"@ && error.message@
                == "MindNProgress is not available on this device."@,
            MindNProgressNavigationError::InvalidResponse => error.status == 502 && error.code@
                == "MNP_INTEGRATION_RESPONSE_INVALID"@ && error.message@
                == "MindNProgress returned an invalid response."@,
            MindNProgressNavigationError::Upstream { .. } => error.status == upstream.status
                && error.code@ == upstream.code@ && error.message@ == upstream.message@,
        },
{
}

/// An error is made of its status, its name and its message, and gives them back.
pub proof fn errors_give_back_what_they_are_made_of(
    status: u16,
    code: &str,
    message: String,
    error: ApiError,
    shown_status: u16,
    shown_code: &str,
    shown_message: &str,
)
    requires
        call_ensures(ApiError::coded, (status, code, message), error),
        call_ensures(ApiError::status_code, (&error,), shown_status),
        call_ensures(ApiError::error_code, (&error,), shown_code),
        call_ensures(ApiError::public_message, (&error,), shown_message),
    ensures
        error.status == status && shown_status == status,
        error.code@ == code@ && shown_code@ == code@,
        error.message@ == message@ && shown_message@ == message@,
{
}

/// Every cause says in a log what it is, and no two causes say the same.
pub proof fn causes_have_texts_of_their_own(
    a: &MindNProgressNavigationError,
    b: &MindNProgressNavigationError,
    a_text: &'static str,
    b_text: &'static str,
)
    requires
        call_ensures(MindNProgressNavigationError::text, (a,), a_text),
        call_ensures(MindNProgressNavigationError::text, (b,), b_text),
    ensures
        a is ConversationNotFound ==> a_text@ == "conversation not found"@,
        a is Storage ==> a_text@ == "integration storage failed"@,
        a is NotConfigured ==> a_text@ == "integration is not configured"@,
        a is Unavailable ==> a_text@ == "MindNProgress is unavailable"@,
        a is InvalidResponse ==> a_text@ == "MindNProgress returned an invalid response"@,
        a is Upstream ==> a_text@ == "MindNProgress request failed"@,
        a_text@ == b_text@ ==> {
            &&& a is ConversationNotFound <==> b is ConversationNotFound
            &&& a is Storage <==> b is Storage
            &&& a is NotConfigured <==> b is NotConfigured
            &&& a is Unavailable <==> b is Unavailable
            &&& a is InvalidResponse <==> b is InvalidResponse
            &&& a is Upstream <==> b is Upstream
        },
{
    reveal_strlit("conversation not found");
    reveal_strlit("integration storage failed");
    reveal_strlit("integration is not configured");
    reveal_strlit("MindNProgress is unavailable");
    reveal_strlit("MindNProgress returned an invalid response");
    reveal_strlit("MindNProgress request failed");
    assert("conversation not found"@.len() == 22);
    assert("integration storage failed"@.len() == 26);
    assert("integration is not configured"@.len() == 29);
    assert("MindNProgress returned an invalid response"@.len() == 42);
    assert("MindNProgress is unavailable"@.len() == 28);
    assert("MindNProgress request failed"@.len() == 28);
    assert("MindNProgress is unavailable"@[14] == 'i');
    assert("MindNProgress request failed"@[14] == 'r');
}

/// A look-up and a selection begin by asking who owns the conversation, and keep the conversation,
/// the device and what is asked for.
pub proof fn requests_begin_with_the_owner(
    conversation_id: &str,
    device_address: Option<IpAddress>,
    lookup: Navigation,
    select: Navigation,
)
    requires
        call_ensures(Navigation::lookup, (conversation_id, device_address), lookup),
        call_ensures(Navigation::select, (conversation_id, device_address), select),
    ensures
        lookup matches Navigation::CheckingOwner { request } && request.conversation_id@
            == conversation_id@ && !request.select && request.device_address == device_address,
        select matches Navigation::CheckingOwner { request } && request.conversation_id@
            == conversation_id@ && request.select && request.device_address == device_address,
{
}

/// A store that fails ends a request as that. A conversation that the user has is followed by the
/// search for the tool server, and one that the user has not ends the request.
pub proof fn only_found_conversations_go_on<T>(
    request: NavigationRequest,
    navigation: Navigation,
    found: bool,
    checked: NavigationStep<T>,
    failed: NavigationStep<T>,
)
    requires
        call_ensures(
            Navigation::handle::<T>,
            (
                Navigation::CheckingOwner { request },
                NavigationEvent::ConversationChecked { found },
            ),
            checked,
        ),
        call_ensures(
            Navigation::handle::<T>,
            (navigation, NavigationEvent::StoreFailed),
            failed,
        ),
    ensures
        found ==> checked == NavigationStep::<T>::Continue(Navigation::FindingServer { request }),
        !found ==> (checked matches NavigationStep::Finished(Err(error))
            && error is ConversationNotFound),
        failed matches NavigationStep::Finished(Err(error)) && error is Storage,
{
}

/// A tool server that is run as a program is asked about just as
/// [`integration::resolve_integration_from_transport`] says; any other, or none, is not set up.
pub proof fn only_programs_are_resolved<T>(
    request: NavigationRequest,
    server: Option<McpServerRow>,
    process: ProcessSettings,
    step: NavigationStep<T>,
)
    requires
        call_ensures(
            Navigation::handle::<T>,
            (
                Navigation::FindingServer { request },
                NavigationEvent::ServerChecked { server, process },
            ),
            step,
        ),
    ensures
        server is Some && server->0.transport_type@ == "stdio"@ && server->0.transport is Some
            ==> exists|found: Result<MindNProgressIntegration, MindNProgressNavigationError>|
            #[trigger] call_ensures(
                integration::resolve_integration_from_transport,
                (&server->0.transport->0, &process),
                found,
            ) && (match found {
                Ok(integration) => step == NavigationStep::<T>::Continue(
                    Navigation::ReadingToken { request, integration },
                ),
                Err(error) => step == NavigationStep::<T>::Finished(Err(error)),
            }),
        server is None || server->0.transport_type@ != "stdio"@ || server->0.transport is None ==> (
        step matches NavigationStep::Finished(Err(error)) && error is NotConfigured),
{
}

/// What the file with the token holds makes the request that is sent, as [`relay::relay_request`]
/// makes it, or ends it with that function's error.
pub proof fn the_token_makes_the_request<T>(
    request: NavigationRequest,
    found: MindNProgressIntegration,
    content: Option<String>,
    step: NavigationStep<T>,
    id: &str,
    relayed: Result<RelayRequest, MindNProgressNavigationError>,
)
    requires
        call_ensures(
            Navigation::handle::<T>,
            (
                Navigation::ReadingToken { request, integration: found },
                NavigationEvent::TokenRead { content },
            ),
            step,
        ),
        id@ == request.conversation_id@,
        call_ensures(
            relay::relay_request,
            (&found, content, id, request.select, request.device_address),
            relayed,
        ),
    ensures
        match relayed {
            Ok(relayed) => step matches NavigationStep::Continue(Navigation::Sending { relay })
                && relay.method == relayed.method && relay.url@ == relayed.url@
                && relay.bearer_token@ == relayed.bearer_token@ && relay.device_address
                == relayed.device_address,
            Err(_) => step matches NavigationStep::Finished(Err(error)) && error is NotConfigured,
        },
{
}

/// A request that cannot be sent ends as unavailable. A status from 200 to 299 is followed by the
/// answer, any other by what is said of the refusal, with the status.
pub proof fn replies_are_sorted_by_status<T>(
    relay: RelayRequest,
    status: u16,
    replied: NavigationStep<T>,
    unreachable: NavigationStep<T>,
)
    requires
        call_ensures(
            Navigation::handle::<T>,
            (Navigation::Sending { relay }, NavigationEvent::Replied { status }),
            replied,
        ),
        call_ensures(
            Navigation::handle::<T>,
            (Navigation::Sending { relay }, NavigationEvent::Unreachable),
            unreachable,
        ),
    ensures
        200 <= status <= 299 ==> replied == NavigationStep::<T>::Continue(
            Navigation::ReadingAnswer,
        ),
        !(200 <= status <= 299) ==> replied == NavigationStep::<T>::Continue(
            Navigation::ReadingRefusal { status },
        ),
        unreachable matches NavigationStep::Finished(Err(error)) && error is Unavailable,
{
}

/// An answer ends a request as it is, and one that makes no sense as an invalid response; a refusal
/// ends it with the status, name and message that [`relay::refused_request`] keeps.
pub proof fn answers_end_a_request<T>(
    answer: Option<T>,
    answered: NavigationStep<T>,
    status: u16,
    body: Option<MindNProgressErrorResponse>,
    refused: NavigationStep<T>,
    kept: MindNProgressNavigationError,
)
    requires
        call_ensures(
            Navigation::handle::<T>,
            (Navigation::ReadingAnswer, NavigationEvent::AnswerRead { answer }),
            answered,
        ),
        call_ensures(
            Navigation::handle::<T>,
            (
                Navigation::ReadingRefusal { status },
                NavigationEvent::RefusalRead { body },
            ),
            refused,
        ),
        call_ensures(relay::refused_request, (status, body), kept),
    ensures
        answer matches Some(given) ==> answered == NavigationStep::<T>::Finished(Ok(given)),
        answer is None ==> (answered matches NavigationStep::Finished(Err(error))
            && error is InvalidResponse),
        refused matches NavigationStep::Finished(
            Err(MindNProgressNavigationError::Upstream { status: s, code: c, message: m }),
        ) && s == status && text::opt_text(c) == text::opt_text(kept->code) && m@
            == kept->message@,
{
}

} // verus!
