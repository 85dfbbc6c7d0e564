//! Datasets: requests and conversations for benchmarking.
pub mod config;
pub mod draws;
pub mod json;
pub mod laws;
pub mod load_laws;
pub mod multi_turn;
pub mod parts;
pub mod prefix_sharing;
pub mod prompt;
pub mod random_turns;
pub mod sharegpt;
pub mod sharegpt_laws;
pub mod turn_laws;

use std::sync::Arc;
use vstd::prelude::*;
use crate::error::{BenchError, BenchErrorView};
use crate::text::{append_decimal, decimal, law_decimal_round_trip};

verus! {

/// Represents a single inference request for benchmarking.
///
/// `prompt` is shared, so that distributing requests across tasks does not copy it.
#[derive(Debug, Clone)]
pub struct SampleRequest {
    pub prompt: Arc<str>,
    pub prompt_len: usize,
    pub expected_output_len: usize,
    pub request_id: Option<String>,
    /// Pre-computed token IDs for this prompt. When set, the completions backend sends these
    /// instead of the text, which avoids tokenizing it again on the server.
    pub prompt_token_ids: Option<Arc<[u32]>>,
    /// Multimodal content items as pre-serialized JSON fragments, each a complete object.
    pub multi_modal_content: Option<Arc<[Arc<str>]>>,
    /// Pre-serialized chat `messages` array as a complete JSON string. When set,
    /// `multi_modal_content` is absent and its items are embedded here.
    pub chat_messages_json: Option<Arc<str>>,
}

/// A single turn in a multi-turn conversation.
#[derive(Debug, Clone)]
pub struct ConversationTurn {
    pub user_message: Arc<str>,
    pub user_message_len: usize,
    pub expected_output_len: usize,
}

/// A complete multi-turn conversation with all turns pre-generated.
#[derive(Debug, Clone)]
pub struct MultiTurnConversation {
    pub conversation_id: String,
    pub turns: Vec<ConversationTurn>,
}

/// The mathematical value of a [`ConversationTurn`].
pub struct TurnView {
    pub user_message: Seq<char>,
    pub user_message_len: usize,
    pub expected_output_len: usize,
}

/// The mathematical value of a [`MultiTurnConversation`].
pub struct ConversationView {
    pub conversation_id: Seq<char>,
    pub turns: Seq<TurnView>,
}

impl View for ConversationTurn {
    type V = TurnView;

    open spec fn view(&self) -> TurnView {
        TurnView {
            user_message: self.user_message@,
            user_message_len: self.user_message_len,
            expected_output_len: self.expected_output_len,
        }
    }
}

impl View for MultiTurnConversation {
    type V = ConversationView;

    open spec fn view(&self) -> ConversationView {
        ConversationView {
            conversation_id: self.conversation_id@,
            turns: turns_view(self.turns@),
        }
    }
}

/// The values of a list of turns.
pub open spec fn turns_view(turns: Seq<ConversationTurn>) -> Seq<TurnView> {
    Seq::new(turns.len(), |i: int| turns[i]@)
}

/// The values of a list of conversations.
pub open spec fn conversations_view(conversations: Seq<MultiTurnConversation>) -> Seq<
    ConversationView,
> {
    Seq::new(conversations.len(), |i: int| conversations[i]@)
}

/// The outcome of making conversations, by value.
pub open spec fn conversations_result(
    result: Result<Vec<MultiTurnConversation>, BenchError>,
) -> Result<Seq<ConversationView>, BenchErrorView> {
    match result {
        Ok(conversations) => Ok(conversations_view(conversations@)),
        Err(error) => Err(error@),
    }
}

/// Calls `Arc::from` on a string: the shared text is the string's text.
#[verifier::external_body]
pub(crate) fn shared_text(text: String) -> (shared: Arc<str>)
    ensures
        shared@ == text@,
{
    Arc::from(text)
}

/// The identifier of the conversation with the given index.
pub open spec fn id_of(request_id_prefix: Seq<char>, index: nat) -> Seq<char> {
    request_id_prefix + "conv-"@ + decimal(index)
}

/// Makes the identifier of the conversation with the given index.
pub fn conversation_id(request_id_prefix: &str, index: usize) -> (id: String)
    ensures
        id@ == id_of(request_id_prefix@, index as nat),
{
    let mut id: String = request_id_prefix.to_string();
    id.append("conv-");
    append_decimal(&mut id, index as u64);
    id
}

/// Under one prefix, different indices have different identifiers.
pub proof fn law_ids_are_distinct(request_id_prefix: Seq<char>, i: nat, j: nat)
    requires
        i != j,
    ensures
        id_of(request_id_prefix, i) != id_of(request_id_prefix, j),
{
    let head = request_id_prefix + "conv-"@;
    law_decimal_round_trip(i);
    law_decimal_round_trip(j);
    assert(id_of(request_id_prefix, i).skip(head.len() as int) =~= decimal(i));
    assert(id_of(request_id_prefix, j).skip(head.len() as int) =~= decimal(j));
}

/// An identifier is the prefix, the word for a conversation and its number.
pub proof fn law_ids_name_the_conversation(request_id_prefix: Seq<char>, index: nat)
    ensures
        id_of(request_id_prefix, index) == request_id_prefix + "conv-"@ + decimal(index),
{
}

/// Conversations are seen by their identifiers and by the messages and lengths of their turns.
pub proof fn law_conversations_are_seen_by_their_turns(
    conversations: Seq<MultiTurnConversation>,
    c: int,
    t: int,
)
    requires
        0 <= c < conversations.len(),
        0 <= t < conversations[c].turns@.len(),
    ensures
        conversations_view(conversations).len() == conversations.len(),
        conversations_view(conversations)[c].conversation_id == conversations[c].conversation_id@,
        conversations_view(conversations)[c].turns.len() == conversations[c].turns@.len(),
        ({
            let turn = conversations[c].turns@[t];
            let seen = conversations_view(conversations)[c].turns[t];
            &&& seen.user_message == turn.user_message@
            &&& seen.user_message_len == turn.user_message_len
            &&& seen.expected_output_len == turn.expected_output_len
        }),
{
}

} // verus!
