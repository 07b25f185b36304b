use vstd::prelude::*;

use std::collections::HashMap;

verus! {

/// The slot values of one conversational turn, keyed by slot name.
pub type Slots = HashMap<String, String>;

/// One conversational-bot invocation event: the request payload this runtime
/// hands a handler serving such a bot.
#[derive(Debug, Clone)]
pub struct LexEvent {
    pub message_version: Option<String>,
    pub invocation_source: Option<String>,
    pub user_id: Option<String>,
    pub input_transcript: Option<String>,
    pub session_attributes: Option<HashMap<String, String>>,
    pub request_attributes: Option<HashMap<String, String>>,
    pub bot: Option<LexBot>,
    pub output_dialog_mode: Option<String>,
    pub current_intent: Option<LexCurrentIntent>,
    pub dialog_action: Option<LexDialogAction>,
}

/// The bot an event belongs to.
#[derive(Debug, Clone)]
pub struct LexBot {
    pub name: Option<String>,
    pub alias: Option<String>,
    pub version: Option<String>,
}

/// The intent the peer resolved for the current turn.
#[derive(Debug, Clone)]
pub struct LexCurrentIntent {
    pub name: Option<String>,
    pub slots: Option<Slots>,
    pub slot_details: Option<HashMap<String, SlotDetail>>,
    pub confirmation_status: Option<String>,
}

/// The resolutions considered for one slot, beside its original value.
#[derive(Debug, Clone)]
pub struct SlotDetail {
    pub resolutions: Option<Vec<HashMap<String, String>>>,
    pub original_value: Option<String>,
}

/// What the dialog should do next.
#[derive(Debug, Clone)]
pub struct LexDialogAction {
    pub type_: Option<String>,
    pub fulfillment_state: Option<String>,
    pub message: Option<HashMap<String, String>>,
    pub intent_name: Option<String>,
    pub slots: Option<Slots>,
    pub slot_to_elicit: Option<String>,
    pub response_card: Option<LexResponseCard>,
}

/// A rich response card shown beside the textual reply.
#[derive(Debug, Clone)]
pub struct LexResponseCard {
    pub version: Option<i64>,
    pub content_type: Option<String>,
    pub generic_attachments: Option<Vec<Attachment>>,
}

/// One attachment of a response card.
#[derive(Debug, Clone)]
pub struct Attachment {
    pub title: Option<String>,
    pub sub_title: Option<String>,
    pub image_url: Option<String>,
    pub attachment_link_url: Option<String>,
    pub buttons: Option<Vec<HashMap<String, String>>>,
}

} // verus!
