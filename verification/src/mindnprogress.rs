//! What MindNProgress says about a conversation.

use vstd::prelude::*;

verus! {

/// The card that a conversation is linked to.
#[derive(Debug, Clone)]
pub struct MindNProgressTarget {
    /// The map that the card is on.
    pub map_id: String,
    /// The title of the map's document.
    pub document_title: String,
    /// The card.
    pub card_id: String,
    /// The card's title.
    pub card_title: String,
    /// Whether the card has been put away.
    pub archived: bool,
}

/// Whether a conversation is linked to a card, and whether the card can be selected.
#[derive(Debug, Clone)]
pub struct MindNProgressConversationLinkResponse {
    /// The conversation.
    pub conversation_id: String,
    /// Whether there is a link.
    pub exists: bool,
    /// The card, if there is one.
    pub target: Option<MindNProgressTarget>,
    /// Whether the card can be selected.
    pub selection_available: bool,
    /// How many views show the card's map.
    pub matching_view_count: u64,
    /// Whether the card can be selected on this device.
    pub local_selection_available: bool,
    /// How many views on this device show the card's map.
    pub local_view_count: u64,
    /// A message for the user.
    pub message: String,
}

/// What became of selecting a conversation's card.
#[derive(Debug, Clone)]
pub struct MindNProgressConversationSelectionResponse {
    /// Whether the card was selected.
    pub selected: bool,
    /// The conversation.
    pub conversation_id: String,
    /// The card.
    pub target: MindNProgressTarget,
    /// How many views were told.
    pub delivered_client_count: u64,
    /// When the selection was asked for.
    pub requested_at: String,
    /// A message for the user.
    pub message: String,
}

} // verus!
