//! The way from a conversation to its card in MindNProgress, step by step.

use vstd::prelude::*;
use vstd::string::*;

use crate::device_address::IpAddress;
use crate::integration;
use crate::integration::{
    MindNProgressIntegration, ProcessSettings, StdioTransportConfig, resolve_integration_from_transport,
};
use crate::navigation_error::MindNProgressNavigationError;
use crate::relay;
use crate::relay::{MindNProgressErrorResponse, RelayRequest};
use crate::text;

verus! {

/// What is asked for.
#[derive(Debug)]
pub struct NavigationRequest {
    /// The conversation.
    pub conversation_id: String,
    /// Whether its card is to be selected, not just looked up.
    pub select: bool,
    /// The device that it is for, if that is not this machine.
    pub device_address: Option<IpAddress>,
}

/// Where a request stands, and with it what its owner is to do.
#[derive(Debug)]
pub enum Navigation {
    /// Check that the user has the conversation.
    CheckingOwner { request: NavigationRequest },
    /// Look for the user's tool server of MindNProgress.
    FindingServer { request: NavigationRequest },
    /// Read the file with the token.
    ReadingToken { request: NavigationRequest, integration: MindNProgressIntegration },
    /// Send the request.
    Sending { relay: RelayRequest },
    /// Read the answer.
    ReadingAnswer,
    /// Read what the answer says of a refusal.
    ReadingRefusal { status: u16 },
}

/// A tool server, as it is stored.
#[derive(Debug)]
pub struct McpServerRow {
    /// How it is talked to.
    pub transport_type: String,
    /// How it is started, where that is stored as it should be for a program.
    pub transport: Option<StdioTransportConfig>,
}

/// What the owner of a request reports.
#[derive(Debug)]
pub enum NavigationEvent<T> {
    /// The store failed.
    StoreFailed,
    /// Whether the user has the conversation.
    ConversationChecked { found: bool },
    /// The tool server, if the user has one, and what the process has in its environment.
    ServerChecked { server: Option<McpServerRow>, process: ProcessSettings },
    /// What the file with the token holds, if it could be read.
    TokenRead { content: Option<String> },
    /// The request could not be sent, or was not answered.
    Unreachable,
    /// The request was answered with this status.
    Replied { status: u16 },
    /// The answer, if it makes sense.
    AnswerRead { answer: Option<T> },
    /// What the answer says of a refusal, if it makes sense.
    RefusalRead { body: Option<MindNProgressErrorResponse> },
}

/// What comes next for a request.
#[derive(Debug)]
pub enum NavigationStep<T> {
    /// The request goes on.
    Continue(Navigation),
    /// The request is over.
    Finished(Result<T, MindNProgressNavigationError>),
}

/// Whether an event is an answer to what a request waits for.
pub open spec fn accepts<T>(navigation: Navigation, event: NavigationEvent<T>) -> bool {
    match navigation {
        Navigation::CheckingOwner { .. } => event is StoreFailed || event is ConversationChecked,
        Navigation::FindingServer { .. } => event is StoreFailed || event is ServerChecked,
        Navigation::ReadingToken { .. } => event is TokenRead,
        Navigation::Sending { .. } => event is Unreachable || event is Replied,
        Navigation::ReadingAnswer => event is AnswerRead,
        Navigation::ReadingRefusal { .. } => event is RefusalRead,
    }
}

/// Whether a step follows on a tool server that is started as said.
pub open spec fn is_found<T>(
    step: NavigationStep<T>,
    request: NavigationRequest,
    transport: StdioTransportConfig,
    process: ProcessSettings,
) -> bool {
    exists|found: Result<MindNProgressIntegration, MindNProgressNavigationError>|
        #[trigger] integration::is_resolved_for(found, transport, process) && step == match found {
            Ok(integration) => NavigationStep::<T>::Continue(
                Navigation::ReadingToken { request, integration },
            ),
            Err(error) => NavigationStep::<T>::Finished(Err(error)),
        }
}

/// Whether a step follows on what resolving the integration for a tool server can give.
pub open spec fn is_resolved<T>(
    step: NavigationStep<T>,
    request: NavigationRequest,
    transport: StdioTransportConfig,
    process: ProcessSettings,
) -> bool {
    exists|found: Result<MindNProgressIntegration, MindNProgressNavigationError>|
        #[trigger] call_ensures(
            resolve_integration_from_transport,
            (&transport, &process),
            found,
        ) && step == match found {
            Ok(integration) => NavigationStep::<T>::Continue(
                Navigation::ReadingToken { request, integration },
            ),
            Err(error) => NavigationStep::<T>::Finished(Err(error)),
        }
}

/// Whether a step ends a request for want of a set-up integration.
pub open spec fn is_not_configured<T>(step: NavigationStep<T>) -> bool {
    step matches NavigationStep::Finished(Err(error)) && error is NotConfigured
}

/// Whether a step is what an event calls for.
pub open spec fn is_next<T>(
    navigation: Navigation,
    event: NavigationEvent<T>,
    step: NavigationStep<T>,
) -> bool {
    match (navigation, event) {
        (_, NavigationEvent::StoreFailed) => step matches NavigationStep::Finished(Err(error))
            && error is Storage,
        (
            Navigation::CheckingOwner { request },
            NavigationEvent::ConversationChecked { found },
        ) => if found {
            step == NavigationStep::<T>::Continue(Navigation::FindingServer { request })
        } else {
            step matches NavigationStep::Finished(Err(error)) && error is ConversationNotFound
        },
        (
            Navigation::FindingServer { request },
            NavigationEvent::ServerChecked {
                server: Some(McpServerRow { transport_type, transport: Some(transport) }),
                process,
            },
        ) => if transport_type@ == "stdio"@ {
            is_found(step, request, transport, process)
        } else {
            is_not_configured(step)
        },
        (Navigation::FindingServer { .. }, NavigationEvent::ServerChecked { .. }) => {
            is_not_configured(step)
        },
        (
            Navigation::ReadingToken { request, integration },
            NavigationEvent::TokenRead { content },
        ) => match relay::usable_token(text::opt_text(content)) {
            Some(token) => step matches NavigationStep::Continue(Navigation::Sending { relay })
                && relay::is_relay(
                relay,
                integration,
                token,
                request.conversation_id@,
                request.select,
                request.device_address,
            ),
            None => is_not_configured(step),
        },
        (Navigation::Sending { .. }, NavigationEvent::Unreachable) => step
            matches NavigationStep::Finished(Err(error)) && error is Unavailable,
        (Navigation::Sending { .. }, NavigationEvent::Replied { status }) => step
            == NavigationStep::<T>::Continue(
            if relay::is_success(status) {
                Navigation::ReadingAnswer
            } else {
                Navigation::ReadingRefusal { status }
            },
        ),
        (Navigation::ReadingAnswer, NavigationEvent::AnswerRead { answer }) => match answer {
            Some(answer) => step == NavigationStep::<T>::Finished(Ok(answer)),
            None => step matches NavigationStep::Finished(Err(error)) && error is InvalidResponse,
        },
        (Navigation::ReadingRefusal { status }, NavigationEvent::RefusalRead { body }) => step
            matches NavigationStep::Finished(Err(error)) && relay::is_refusal(error, status, body),
        _ => false,
    }
}

impl Navigation {
    /// What holds of a request wherever it stands: the conversation's ID fits into a URL, and
    /// nothing but this machine is asked.
    pub open spec fn wf(self) -> bool {
        match self {
            Navigation::CheckingOwner { request } => integration::fits_endpoint(
                request.conversation_id@,
            ),
            Navigation::FindingServer { request } => integration::fits_endpoint(
                request.conversation_id@,
            ),
            Navigation::ReadingToken { request, integration } => integration::fits_endpoint(
                request.conversation_id@,
            ) && integration.wf(),
            Navigation::Sending { relay } => goes_to_this_machine(relay),
            _ => true,
        }
    }

    /// Starts to look for the card of a conversation.
    pub fn lookup(conversation_id: &str, device_address: Option<IpAddress>) -> (navigation: Self)
        requires
            integration::fits_endpoint(conversation_id@),
        ensures
            navigation.wf(),
            navigation matches Navigation::CheckingOwner { request } && request.conversation_id@
                == conversation_id@ && !request.select && request.device_address == device_address,
    {
        Navigation::CheckingOwner {
            request: NavigationRequest {
                conversation_id: conversation_id.to_owned(),
                select: false,
                device_address,
            },
        }
    }

    /// Starts to select the card of a conversation.
    pub fn select(conversation_id: &str, device_address: Option<IpAddress>) -> (navigation: Self)
        requires
            integration::fits_endpoint(conversation_id@),
        ensures
            navigation.wf(),
            navigation matches Navigation::CheckingOwner { request } && request.conversation_id@
                == conversation_id@ && request.select && request.device_address == device_address,
    {
        Navigation::CheckingOwner {
            request: NavigationRequest {
                conversation_id: conversation_id.to_owned(),
                select: true,
                device_address,
            },
        }
    }

    /// Takes what the owner reports, and says what comes next.
    pub fn handle<T>(self, event: NavigationEvent<T>) -> (step: NavigationStep<T>)
        requires
            self.wf(),
            accepts(self, event),
        ensures
            is_next(self, event, step),
            step matches NavigationStep::Continue(navigation) ==> navigation.wf(),
            event matches NavigationEvent::ServerChecked {
                server: Some(McpServerRow { transport_type, transport: Some(transport) }),
                process,
            } ==> transport_type@ == "stdio"@ ==> (self matches Navigation::FindingServer { request }
                ==> is_resolved(step, request, transport, process)),
    {
        match event {
            NavigationEvent::StoreFailed => NavigationStep::Finished(
                Err(MindNProgressNavigationError::Storage),
            ),
            NavigationEvent::ConversationChecked { found } => match self {
                Navigation::CheckingOwner { request } => if found {
                    NavigationStep::Continue(Navigation::FindingServer { request })
                } else {
                    NavigationStep::Finished(
                        Err(MindNProgressNavigationError::ConversationNotFound),
                    )
                },
                other => NavigationStep::Continue(other),
            },
            NavigationEvent::ServerChecked { server, process } => match (self, server) {
                (
                    Navigation::FindingServer { request },
                    Some(McpServerRow { transport_type, transport: Some(transport) }),
                ) => if text::same(transport_type.as_str(), "stdio") {
                    match resolve_integration_from_transport(&transport, &process) {
                        Ok(integration) => NavigationStep::Continue(
                            Navigation::ReadingToken { request, integration },
                        ),
                        Err(error) => NavigationStep::Finished(Err(error)),
                    }
                } else {
                    NavigationStep::Finished(Err(MindNProgressNavigationError::NotConfigured))
                },
                (_, _) => NavigationStep::Finished(
                    Err(MindNProgressNavigationError::NotConfigured),
                ),
            },
            NavigationEvent::TokenRead { content } => match self {
                Navigation::ReadingToken { request, integration } => {
                    let relay = relay::relay_request(
                        &integration,
                        content,
                        request.conversation_id.as_str(),
                        request.select,
                        request.device_address,
                    );
                    match relay {
                        Ok(relay) => NavigationStep::Continue(Navigation::Sending { relay }),
                        Err(error) => NavigationStep::Finished(Err(error)),
                    }
                },
                other => NavigationStep::Continue(other),
            },
            NavigationEvent::Unreachable => NavigationStep::Finished(
                Err(MindNProgressNavigationError::Unavailable),
            ),
            NavigationEvent::Replied { status } => if relay::succeeded(status) {
                NavigationStep::Continue(Navigation::ReadingAnswer)
            } else {
                NavigationStep::Continue(Navigation::ReadingRefusal { status })
            },
            NavigationEvent::AnswerRead { answer } => NavigationStep::Finished(
                relay::met_request(answer),
            ),
            NavigationEvent::RefusalRead { body } => match self {
                Navigation::ReadingRefusal { status } => NavigationStep::Finished(
                    Err(relay::refused_request(status, body)),
                ),
                other => NavigationStep::Continue(other),
            },
        }
    }
}

/// Whether a request goes to a port on this machine.
pub open spec fn goes_to_this_machine(relay: RelayRequest) -> bool {
    exists|port: u16| text::begins_with(relay.url@, #[trigger] integration::loopback_url(port))
}

/// The token is only ever sent to this machine.
pub proof fn token_goes_only_to_this_machine<T>(
    navigation: Navigation,
    event: NavigationEvent<T>,
    step: NavigationStep<T>,
)
    requires
        navigation.wf(),
        is_next(navigation, event, step),
    ensures
        step matches NavigationStep::Continue(Navigation::Sending { relay }) ==> goes_to_this_machine(
            relay,
        ),
{
    if let NavigationStep::Continue(Navigation::Sending { relay }) = step {
        let base = navigation->ReadingToken_integration.api_base_url@;
        let port = choose|port: u16| base == #[trigger] integration::loopback_url(port);
        assert(text::begins_with(relay.url@, integration::loopback_url(port)));
    }
}

/// Nothing is sent before the user was found to have the conversation: a request is sent only
/// once the token was read, the token is read only once the tool server was found, and that is
/// looked for only once the conversation was found.
pub proof fn only_owners_are_served<T>(
    navigation: Navigation,
    event: NavigationEvent<T>,
    step: NavigationStep<T>,
)
    requires
        is_next(navigation, event, step),
    ensures
        step matches NavigationStep::Continue(next) ==> match next {
            Navigation::CheckingOwner { .. } => false,
            Navigation::FindingServer { request } => (navigation matches Navigation::CheckingOwner {
                request: before,
            } && request == before) && (event matches NavigationEvent::ConversationChecked {
                found,
            } && found),
            Navigation::ReadingToken { request, .. } => navigation
                matches Navigation::FindingServer { request: before } && request == before,
            Navigation::Sending { .. } => navigation is ReadingToken,
            _ => navigation is Sending,
        },
{
}

/// A user is not told anything of a conversation that the user does not have.
pub proof fn others_conversations_are_not_found<T>(
    request: NavigationRequest,
    step: NavigationStep<T>,
)
    requires
        is_next(
            Navigation::CheckingOwner { request },
            NavigationEvent::<T>::ConversationChecked { found: false },
            step,
        ),
    ensures
        step matches NavigationStep::Finished(Err(error)) && error is ConversationNotFound,
{
}

} // verus!
