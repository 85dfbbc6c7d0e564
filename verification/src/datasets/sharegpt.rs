//! Multi-turn conversations from a ShareGPT dataset.
use vstd::prelude::*;
use rand::rngs::StdRng;
use crate::datasets::draws::last_index;
use crate::datasets::json::{Json, JsonView, jsons_view, parse_json, parsed_json};
use crate::datasets::{
    ConversationTurn, ConversationView, MultiTurnConversation, TurnView, conversation_id,
    conversations_result, conversations_view, id_of, shared_text, turns_view,
};
use crate::error::{BenchError, BenchErrorView, result_view};
use crate::rng::{
    draw_many, next_many, next_order, seeded, seeded_words, shuffle,
};
use crate::tokenizer::{TokenizerKind, TokenizerModel};

verus! {

/// The text of the member `name` of a message, and no text where there is none.
pub open spec fn text_member_of(message: JsonView, name: Seq<char>) -> Seq<char> {
    match message.member(name) {
        Some(member) => match member.text() {
            Some(text) => text,
            None => Seq::empty(),
        },
        None => Seq::empty(),
    }
}

/// The text of the member `name` of a message, and no text where there is none.
pub fn text_member(message: &Json, name: &str) -> (text: String)
    ensures
        text@ == text_member_of(message@, name@),
{
    match message.get(name) {
        Some(member) => match member.as_str() {
            Some(text) => text.to_string(),
            None => String::new(),
        },
        None => String::new(),
    }
}

/// Message `i` opens a turn: it is a person's, it says something, and a reply follows it.
pub open spec fn opens_turn(messages: Seq<JsonView>, i: nat) -> bool {
    &&& i + 1 < messages.len()
    &&& text_member_of(messages[i as int], "from"@) == "human"@
    &&& text_member_of(messages[i as int], "value"@).len() > 0
}

/// `count` turns are as many as are wanted.
pub open spec fn enough_turns(count: nat, max_turns: Option<usize>) -> bool {
    match max_turns {
        Some(max) => count >= max,
        None => false,
    }
}

/// How many turns there are once the messages from `i` on are walked, after `count` before them.
pub open spec fn turn_count_from(
    messages: Seq<JsonView>,
    i: nat,
    count: nat,
    max_turns: Option<usize>,
) -> nat
    decreases messages.len() - i,
{
    if i + 1 >= messages.len() || enough_turns(count, max_turns) {
        count
    } else if opens_turn(messages, i) {
        turn_count_from(messages, i + 2, count + 1, max_turns)
    } else {
        turn_count_from(messages, i + 1, count, max_turns)
    }
}

/// How many turns an entry's messages make.
pub open spec fn turn_count(messages: Seq<JsonView>, max_turns: Option<usize>) -> nat {
    turn_count_from(messages, 0, 0, max_turns)
}

/// The output length of a turn: what was asked for, or else the length of the reply, at least 1.
pub open spec fn output_len_of(
    tokenizer: TokenizerModel,
    reply: Seq<char>,
    output_len_override: Option<usize>,
) -> Result<usize, BenchErrorView> {
    match output_len_override {
        Some(len) => Ok(len),
        None => match tokenizer.encoded(reply, false) {
            Err(error) => Err(error),
            Ok(tokens) => Ok(
                if tokens.len() >= 1 {
                    tokens.len() as usize
                } else {
                    1
                },
            ),
        },
    }
}

/// The turn that a person's message and the reply to it make.
pub open spec fn exchange_of(
    tokenizer: TokenizerModel,
    message: Seq<char>,
    reply: Seq<char>,
    output_len_override: Option<usize>,
) -> Result<TurnView, BenchErrorView> {
    match tokenizer.encoded(message, false) {
        Err(error) => Err(error),
        Ok(tokens) => match output_len_of(tokenizer, reply, output_len_override) {
            Err(error) => Err(error),
            Ok(len) => Ok(
                TurnView {
                    user_message: message,
                    user_message_len: tokens.len() as usize,
                    expected_output_len: len,
                },
            ),
        },
    }
}

/// `turn` has the output length that was asked for, or at least 1.
pub open spec fn sized(turn: TurnView, output_len_override: Option<usize>) -> bool {
    match output_len_override {
        Some(len) => turn.expected_output_len == len,
        None => turn.expected_output_len >= 1,
    }
}

/// `turn` says something, and has the output length that was asked for, or at least 1.
pub open spec fn speaks(turn: TurnView, output_len_override: Option<usize>) -> bool {
    turn.user_message.len() > 0 && sized(turn, output_len_override)
}

/// Makes the turn of a person's message and the reply to it.
pub fn make_exchange<D, E>(
    tokenizer: &TokenizerKind<D, E>,
    message: String,
    reply: &str,
    output_len_override: Option<usize>,
) -> (result: Result<ConversationTurn, BenchError>) where
    D: Fn(&[u32], bool) -> Result<String, BenchError>,
    E: Fn(&str, bool) -> Result<Vec<u32>, BenchError>,

    requires
        tokenizer.callable(),
    ensures
        forall|model: TokenizerModel| #[trigger]
            tokenizer.behaves_as(model) ==> result_view(result) == exchange_of(
                model,
                message@,
                reply@,
                output_len_override,
            ),
        result matches Ok(turn) ==> turn@.user_message == message@ && sized(
            turn@,
            output_len_override,
        ),
        tokenizer.infallible() ==> result is Ok,
{
    let user_ids: Vec<u32> = tokenizer.encode(message.as_str(), false)?;
    let expected_output_len: usize = match output_len_override {
        Some(len) => len,
        None => {
            let reply_ids: Vec<u32> = tokenizer.encode(reply, false)?;
            if reply_ids.len() >= 1 {
                reply_ids.len()
            } else {
                1
            }
        },
    };
    Ok(
        ConversationTurn {
            user_message: shared_text(message),
            user_message_len: user_ids.len(),
            expected_output_len,
        },
    )
}

/// The turns that there are once the messages from `i` on are walked, after `turns` before them.
pub open spec fn turns_from(
    tokenizer: TokenizerModel,
    messages: Seq<JsonView>,
    i: nat,
    turns: Seq<TurnView>,
    max_turns: Option<usize>,
    output_len_override: Option<usize>,
) -> Result<Seq<TurnView>, BenchErrorView>
    decreases messages.len() - i,
{
    if i + 1 >= messages.len() || enough_turns(turns.len(), max_turns) {
        Ok(turns)
    } else if opens_turn(messages, i) {
        match exchange_of(
            tokenizer,
            text_member_of(messages[i as int], "value"@),
            text_member_of(messages[i as int + 1], "value"@),
            output_len_override,
        ) {
            Err(error) => Err(error),
            Ok(turn) => turns_from(
                tokenizer,
                messages,
                i + 2,
                turns.push(turn),
                max_turns,
                output_len_override,
            ),
        }
    } else {
        turns_from(tokenizer, messages, i + 1, turns, max_turns, output_len_override)
    }
}

/// The turns that an entry's messages make.
pub open spec fn entry_turns_of(
    tokenizer: TokenizerModel,
    messages: Seq<JsonView>,
    max_turns: Option<usize>,
    output_len_override: Option<usize>,
) -> Result<Seq<TurnView>, BenchErrorView> {
    turns_from(tokenizer, messages, 0, Seq::empty(), max_turns, output_len_override)
}

/// The outcome of making turns, by value.
pub open spec fn turns_result(result: Result<Vec<ConversationTurn>, BenchError>) -> Result<
    Seq<TurnView>,
    BenchErrorView,
> {
    match result {
        Ok(turns) => Ok(turns_view(turns@)),
        Err(error) => Err(error@),
    }
}

/// Makes the turns of an entry: walks its messages for pairs of a person's message and a reply,
/// and stops once there are `max_turns` of them.
pub fn entry_turns<D, E>(
    tokenizer: &TokenizerKind<D, E>,
    messages: &Vec<Json>,
    max_turns: Option<usize>,
    output_len_override: Option<usize>,
) -> (result: Result<Vec<ConversationTurn>, BenchError>) where
    D: Fn(&[u32], bool) -> Result<String, BenchError>,
    E: Fn(&str, bool) -> Result<Vec<u32>, BenchError>,

    requires
        tokenizer.callable(),
    ensures
        forall|model: TokenizerModel| #[trigger]
            tokenizer.behaves_as(model) ==> turns_result(result) == entry_turns_of(
                model,
                jsons_view(messages@),
                max_turns,
                output_len_override,
            ),
        result matches Ok(turns) ==> turns@.len() == turn_count(jsons_view(messages@), max_turns)
            && forall|t: int|
            0 <= t < turns@.len() ==> speaks((#[trigger] turns@[t])@, output_len_override),
        turn_count(jsons_view(messages@), max_turns) == 0 ==> result is Ok,
        tokenizer.infallible() ==> result is Ok,
{
    let ghost views = jsons_view(messages@);
    let mut turns: Vec<ConversationTurn> = Vec::new();
    let mut i: usize = 0;
    assert(turns_view(turns@) =~= Seq::<TurnView>::empty());
    while i < messages.len() && messages.len() - i > 1
        invariant_except_break
            tokenizer.callable(),
            views == jsons_view(messages@),
            i <= messages@.len(),
            turn_count_from(views, i as nat, turns@.len(), max_turns) == turn_count(
                views,
                max_turns,
            ),
            forall|t: int|
                0 <= t < turns@.len() ==> speaks((#[trigger] turns@[t])@, output_len_override),
            forall|model: TokenizerModel| #[trigger]
                tokenizer.behaves_as(model) ==> turns_from(
                    model,
                    views,
                    i as nat,
                    turns_view(turns@),
                    max_turns,
                    output_len_override,
                ) == entry_turns_of(model, views, max_turns, output_len_override),
        ensures
            turns@.len() == turn_count(views, max_turns),
            forall|t: int|
                0 <= t < turns@.len() ==> speaks((#[trigger] turns@[t])@, output_len_override),
            forall|model: TokenizerModel| #[trigger]
                tokenizer.behaves_as(model) ==> Ok::<Seq<TurnView>, BenchErrorView>(
                    turns_view(turns@),
                ) == entry_turns_of(model, views, max_turns, output_len_override),
        decreases messages@.len() - i,
    {
        if let Some(max) = max_turns {
            if turns.len() >= max {
                break;
            }
        }
        assert(views[i as int] == messages@[i as int]@ && views[i + 1] == messages@[i + 1]@);
        let from: String = text_member(&messages[i], "from");
        let user_text: String = text_member(&messages[i], "value");
        let assistant_text: String = text_member(&messages[i + 1], "value");
        if from != "human".to_string() || user_text.as_str().is_empty() {
            i = i + 1;
            continue;
        }
        let ghost before = turns@;
        proof {
            law_turn_count_is_bounded(views, (i + 2) as nat, turns@.len() + 1, max_turns);
        }
        let turn: ConversationTurn = make_exchange(
            tokenizer,
            user_text,
            assistant_text.as_str(),
            output_len_override,
        )?;
        turns.push(turn);
        assert(turns_view(turns@) =~= turns_view(before).push(turn@));
        i = i + 2;
    }
    Ok(turns)
}

/// The messages of an entry, and none where it has no list of them.
pub open spec fn messages_of(entry: JsonView) -> Seq<JsonView> {
    match entry.member("conversations"@) {
        Some(member) => match member.items() {
            Some(items) => items,
            None => Seq::empty(),
        },
        None => Seq::empty(),
    }
}

/// The entry has at least 4 messages: two of a person and a reply to each.
pub open spec fn eligible(entry: JsonView) -> bool {
    messages_of(entry).len() >= 4
}

/// The messages of an entry, where it has a list of them.
fn entry_messages(entry: &Json) -> (messages: Option<&Vec<Json>>)
    ensures
        match messages {
            Some(messages) => jsons_view(messages@) == messages_of(entry@),
            None => messages_of(entry@).len() == 0,
        },
{
    match entry.get("conversations") {
        Some(member) => member.as_array(),
        None => None,
    }
}

/// The places of the eligible entries among the first `n`, in order.
pub open spec fn eligible_places_of(entries: Seq<JsonView>, n: nat) -> Seq<usize>
    decreases n,
{
    if n == 0 {
        Seq::empty()
    } else {
        let places = eligible_places_of(entries, (n - 1) as nat);
        if eligible(entries[n - 1]) {
            places.push((n - 1) as usize)
        } else {
            places
        }
    }
}

/// The listed places are those of eligible entries, and all of them.
pub proof fn law_eligible_places(entries: Seq<JsonView>, n: nat)
    requires
        n <= entries.len() <= usize::MAX,
    ensures
        forall|p: usize| #[trigger]
            eligible_places_of(entries, n).contains(p) <==> p < n && eligible(entries[p as int]),
    decreases n,
{
    if n > 0 {
        law_eligible_places(entries, (n - 1) as nat);
        let before = eligible_places_of(entries, (n - 1) as nat);
        let places = eligible_places_of(entries, n);
        assert forall|p: usize| #[trigger] places.contains(p) <==> p < n && eligible(
            entries[p as int],
        ) by {
            if places.contains(p) {
                let k = choose|k: int| 0 <= k < places.len() && places[k] == p;
                if k < before.len() {
                    assert(before[k] == p);
                    assert(before.contains(p));
                }
            }
            if p < n && eligible(entries[p as int]) {
                if p == n - 1 {
                    assert(places[before.len() as int] == p);
                } else {
                    assert(before.contains(p));
                    let k = choose|k: int| 0 <= k < before.len() && before[k] == p;
                    assert(places[k] == p);
                }
            }
        }
    }
}

/// Finds the eligible entries.
pub fn eligible_places(entries: &Vec<Json>) -> (places: Vec<usize>)
    ensures
        places@ == eligible_places_of(jsons_view(entries@), entries@.len()),
{
    let ghost views = jsons_view(entries@);
    let mut places: Vec<usize> = Vec::new();
    let mut i: usize = 0;
    while i < entries.len()
        invariant
            i <= entries@.len(),
            views == jsons_view(entries@),
            places@ == eligible_places_of(views, i as nat),
        decreases entries@.len() - i,
    {
        assert(views[i as int] == entries@[i as int]@);
        if let Some(messages) = entry_messages(&entries[i]) {
            if messages.len() >= 4 {
                places.push(i);
            }
        }
        i = i + 1;
    }
    places
}

/// The conversation that an entry makes as number `index`, if it has at least two turns.
pub open spec fn entry_conversation_of(
    tokenizer: TokenizerModel,
    entry: JsonView,
    index: nat,
    max_turns: Option<usize>,
    output_len_override: Option<usize>,
    request_id_prefix: Seq<char>,
) -> Result<Option<ConversationView>, BenchErrorView> {
    match entry_turns_of(tokenizer, messages_of(entry), max_turns, output_len_override) {
        Err(error) => Err(error),
        Ok(turns) => Ok(
            if turns.len() >= 2 {
                Some(ConversationView { conversation_id: id_of(request_id_prefix, index), turns })
            } else {
                None
            },
        ),
    }
}

/// The conversations that there are once the entries from place `k` of `order` on are taken,
/// after `taken` before them: at most `num_conversations`.
pub open spec fn taken_from(
    tokenizer: TokenizerModel,
    entries: Seq<JsonView>,
    order: Seq<usize>,
    k: nat,
    taken: Seq<ConversationView>,
    num_conversations: nat,
    max_turns: Option<usize>,
    output_len_override: Option<usize>,
    request_id_prefix: Seq<char>,
) -> Result<Seq<ConversationView>, BenchErrorView>
    decreases order.len() - k,
{
    if k >= order.len() || taken.len() >= num_conversations {
        Ok(taken)
    } else {
        match entry_conversation_of(
            tokenizer,
            entries[order[k as int] as int],
            taken.len(),
            max_turns,
            output_len_override,
            request_id_prefix,
        ) {
            Err(error) => Err(error),
            Ok(conversation) => taken_from(
                tokenizer,
                entries,
                order,
                k + 1,
                match conversation {
                    Some(conversation) => taken.push(conversation),
                    None => taken,
                },
                num_conversations,
                max_turns,
                output_len_override,
                request_id_prefix,
            ),
        }
    }
}

/// The entry makes at least two turns.
pub open spec fn usable(entry: JsonView, max_turns: Option<usize>) -> bool {
    turn_count(messages_of(entry), max_turns) >= 2
}

/// How many of the first `k` entries in `order` make at least two turns.
pub open spec fn usable_count(
    entries: Seq<JsonView>,
    order: Seq<usize>,
    k: nat,
    max_turns: Option<usize>,
) -> nat
    decreases k,
{
    if k == 0 {
        0
    } else {
        usable_count(entries, order, (k - 1) as nat, max_turns) + if usable(
            entries[order[k - 1] as int],
            max_turns,
        ) {
            1nat
        } else {
            0nat
        }
    }
}

/// None of the entries in `order` makes a turn.
pub open spec fn no_turns(
    entries: Seq<JsonView>,
    order: Seq<usize>,
    max_turns: Option<usize>,
) -> bool {
    forall|k: int|
        0 <= k < order.len() ==> turn_count(
            messages_of(entries[#[trigger] order[k] as int]),
            max_turns,
        ) == 0
}

/// Later entries only add to the count.
proof fn lemma_usable_grows(
    entries: Seq<JsonView>,
    order: Seq<usize>,
    k: nat,
    n: nat,
    max_turns: Option<usize>,
)
    requires
        k <= n,
    ensures
        usable_count(entries, order, k, max_turns) <= usable_count(entries, order, n, max_turns),
    decreases n,
{
    if k < n {
        lemma_usable_grows(entries, order, k, (n - 1) as nat, max_turns);
    }
}

/// `conversation` is the one with index `c`, with at least two turns and at most as many as were
/// asked for, each of which says something and has the wanted output length.
pub open spec fn loaded(
    conversation: ConversationView,
    c: nat,
    max_turns: Option<usize>,
    output_len_override: Option<usize>,
    request_id_prefix: Seq<char>,
) -> bool {
    &&& conversation.conversation_id == id_of(request_id_prefix, c)
    &&& conversation.turns.len() >= 2
    &&& max_turns matches Some(max) ==> conversation.turns.len() <= max
    &&& forall|t: int|
        0 <= t < conversation.turns.len() ==> speaks(
            #[trigger] conversation.turns[t],
            output_len_override,
        )
}

/// An entry never makes more turns than were asked for.
pub proof fn law_turn_count_is_bounded(
    messages: Seq<JsonView>,
    i: nat,
    count: nat,
    max_turns: Option<usize>,
)
    requires
        max_turns matches Some(max) ==> count <= max,
    ensures
        max_turns matches Some(max) ==> turn_count_from(messages, i, count, max_turns) <= max,
        turn_count_from(messages, i, count, max_turns) >= count,
    decreases messages.len() - i,
{
    if i + 1 >= messages.len() || enough_turns(count, max_turns) {
    } else if opens_turn(messages, i) {
        law_turn_count_is_bounded(messages, i + 2, count + 1, max_turns);
    } else {
        law_turn_count_is_bounded(messages, i + 1, count, max_turns);
    }
}

/// Takes conversations from the entries at the places in `order`, until there are
/// `num_conversations`.
pub fn take_conversations<D, E>(
    tokenizer: &TokenizerKind<D, E>,
    entries: &Vec<Json>,
    order: &Vec<usize>,
    num_conversations: usize,
    max_turns: Option<usize>,
    output_len_override: Option<usize>,
    request_id_prefix: &str,
) -> (result: Result<Vec<MultiTurnConversation>, BenchError>) where
    D: Fn(&[u32], bool) -> Result<String, BenchError>,
    E: Fn(&str, bool) -> Result<Vec<u32>, BenchError>,

    requires
        tokenizer.callable(),
        forall|k: int|
            0 <= k < order@.len() ==> (#[trigger] order@[k]) < entries@.len() && eligible(
                entries@[order@[k] as int]@,
            ),
    ensures
        forall|model: TokenizerModel| #[trigger]
            tokenizer.behaves_as(model) ==> conversations_result(result) == taken_from(
                model,
                jsons_view(entries@),
                order@,
                0,
                Seq::empty(),
                num_conversations as nat,
                max_turns,
                output_len_override,
                request_id_prefix@,
            ),
        result matches Ok(taken) ==> {
            let usable = usable_count(jsons_view(entries@), order@, order@.len(), max_turns);
            &&& taken@.len() == if usable <= num_conversations {
                usable
            } else {
                num_conversations as nat
            }
            &&& forall|c: int|
                0 <= c < taken@.len() ==> loaded(
                    (#[trigger] taken@[c])@,
                    c as nat,
                    max_turns,
                    output_len_override,
                    request_id_prefix@,
                )
        },
        num_conversations == 0 || no_turns(
            jsons_view(entries@),
            order@,
            max_turns,
        ) ==> result is Ok,
        tokenizer.infallible() ==> result is Ok,
{
    let ghost views = jsons_view(entries@);
    let mut taken: Vec<MultiTurnConversation> = Vec::new();
    let mut k: usize = 0;
    assert(conversations_view(taken@) =~= Seq::<ConversationView>::empty());
    while k < order.len() && taken.len() < num_conversations
        invariant
            tokenizer.callable(),
            views == jsons_view(entries@),
            forall|j: int|
                0 <= j < order@.len() ==> (#[trigger] order@[j]) < entries@.len() && eligible(
                    entries@[order@[j] as int]@,
                ),
            k <= order@.len(),
            taken@.len() == usable_count(views, order@, k as nat, max_turns),
            taken@.len() <= num_conversations,
            forall|c: int|
                0 <= c < taken@.len() ==> loaded(
                    (#[trigger] taken@[c])@,
                    c as nat,
                    max_turns,
                    output_len_override,
                    request_id_prefix@,
                ),
            forall|model: TokenizerModel| #[trigger]
                tokenizer.behaves_as(model) ==> taken_from(
                    model,
                    views,
                    order@,
                    k as nat,
                    conversations_view(taken@),
                    num_conversations as nat,
                    max_turns,
                    output_len_override,
                    request_id_prefix@,
                ) == taken_from(
                    model,
                    views,
                    order@,
                    0,
                    Seq::empty(),
                    num_conversations as nat,
                    max_turns,
                    output_len_override,
                    request_id_prefix@,
                ),
        decreases order@.len() - k,
    {
        let at: usize = order[k];
        assert(views[at as int] == entries@[at as int]@);
        if let Some(messages) = entry_messages(&entries[at]) {
            let turns: Vec<ConversationTurn> = entry_turns(
                tokenizer,
                messages,
                max_turns,
                output_len_override,
            )?;
            if turns.len() >= 2 {
                let ghost before = taken@;
                proof {
                    law_turn_count_is_bounded(messages_of(views[at as int]), 0, 0, max_turns);
                }
                let conversation: MultiTurnConversation = MultiTurnConversation {
                    conversation_id: conversation_id(request_id_prefix, taken.len()),
                    turns,
                };
                taken.push(conversation);
                assert(conversations_view(taken@) =~= conversations_view(before).push(
                    conversation@,
                ));
            }
        }
        k = k + 1;
    }
    proof {
        lemma_usable_grows(views, order@, k as nat, order@.len(), max_turns);
    }
    Ok(taken)
}

/// `originals`, and after them one copy of the original at each place in `places`, under the
/// identifiers that follow.
pub open spec fn with_copies_of(
    originals: Seq<ConversationView>,
    places: Seq<usize>,
    request_id_prefix: Seq<char>,
) -> Seq<ConversationView> {
    originals + Seq::new(
        places.len(),
        |i: int|
            ConversationView {
                conversation_id: id_of(request_id_prefix, (originals.len() + i) as nat),
                turns: originals[places[i] as int].turns,
            },
    )
}

/// A copy of a list of turns; the texts are shared.
fn copy_turns(turns: &Vec<ConversationTurn>) -> (copies: Vec<ConversationTurn>)
    ensures
        turns_view(copies@) == turns_view(turns@),
{
    let mut copies: Vec<ConversationTurn> = Vec::new();
    let mut i: usize = 0;
    while i < turns.len()
        invariant
            i <= turns@.len(),
            copies@.len() == i,
            forall|j: int| 0 <= j < i ==> (#[trigger] copies@[j])@ == turns@[j]@,
        decreases turns@.len() - i,
    {
        copies.push(
            ConversationTurn {
                user_message: turns[i].user_message.clone(),
                user_message_len: turns[i].user_message_len,
                expected_output_len: turns[i].expected_output_len,
            },
        );
        i = i + 1;
    }
    assert(turns_view(copies@) =~= turns_view(turns@));
    copies
}

/// Adds a copy of the conversation at each place in `places`, under the identifiers that follow.
pub fn add_copies(
    conversations: &mut Vec<MultiTurnConversation>,
    places: &Vec<usize>,
    request_id_prefix: &str,
)
    requires
        forall|i: int|
            0 <= i < places@.len() ==> (#[trigger] places@[i]) < old(conversations)@.len(),
        old(conversations)@.len() + places@.len() <= usize::MAX,
    ensures
        conversations_view(final(conversations)@) == with_copies_of(
            conversations_view(old(conversations)@),
            places@,
            request_id_prefix@,
        ),
{
    let ghost originals = conversations_view(conversations@);
    let original_len: usize = conversations.len();
    let mut i: usize = 0;
    assert(places@.take(0) =~= Seq::<usize>::empty());
    assert(conversations_view(conversations@) =~= with_copies_of(
        originals,
        places@.take(0),
        request_id_prefix@,
    ));
    while i < places.len()
        invariant
            i <= places@.len(),
            original_len == originals.len(),
            original_len + places@.len() <= usize::MAX,
            forall|j: int| 0 <= j < places@.len() ==> (#[trigger] places@[j]) < original_len,
            conversations_view(conversations@) == with_copies_of(
                originals,
                places@.take(i as int),
                request_id_prefix@,
            ),
        decreases places@.len() - i,
    {
        let ghost before = conversations@;
        let at: usize = places[i];
        assert(conversations_view(before).len() == original_len + i);
        assert(conversations_view(before)[at as int] == originals[at as int]);
        let conversation: MultiTurnConversation = MultiTurnConversation {
            conversation_id: conversation_id(request_id_prefix, original_len + i),
            turns: copy_turns(&conversations[at].turns),
        };
        conversations.push(conversation);
        i = i + 1;
        assert(conversations_view(conversations@) =~= conversations_view(before).push(
            conversation@,
        ));
        assert(conversations_view(conversations@) =~= with_copies_of(
            originals,
            places@.take(i as int),
            request_id_prefix@,
        ));
    }
    assert(places@.take(places@.len() as int) =~= places@);
}

/// Conversations loaded from a dataset.
pub struct ShareGptLoad {
    pub conversations: Vec<MultiTurnConversation>,
    /// How many of them the dataset gave; the others are copies of these.
    pub original_len: usize,
}

/// The mathematical value of a [`ShareGptLoad`].
#[verifier::ext_equal]
pub struct ShareGptLoadView {
    pub conversations: Seq<ConversationView>,
    pub original_len: nat,
}

impl View for ShareGptLoad {
    type V = ShareGptLoadView;

    open spec fn view(&self) -> ShareGptLoadView {
        ShareGptLoadView {
            conversations: conversations_view(self.conversations@),
            original_len: self.original_len as nat,
        }
    }
}

/// The complaint about a dataset that is not a list.
pub open spec fn not_an_array() -> BenchErrorView {
    BenchErrorView::Config("ShareGPT file must contain a JSON array"@)
}

/// The complaint about a dataset without an eligible entry.
pub open spec fn nothing_eligible() -> BenchErrorView {
    BenchErrorView::Config(
        "No valid multi-turn entries in ShareGPT file (need at least 4 messages per entry)"@,
    )
}

/// The complaint about a dataset of which no conversation was taken.
pub open spec fn nothing_taken() -> BenchErrorView {
    BenchErrorView::Config("No valid multi-turn conversations after filtering ShareGPT dataset."@)
}

/// The order in which eligible entries are taken, and the words that are left to draw from.
pub open spec fn taking_order(entries: Seq<JsonView>, seed: u64) -> (Seq<usize>, Map<nat, u32>) {
    next_order(seeded_words(seed), eligible_places_of(entries, entries.len()))
}

/// What a dataset with the given entries gives.
pub open spec fn load_entries_of(
    tokenizer: TokenizerModel,
    entries: Seq<JsonView>,
    num_conversations: nat,
    output_len_override: Option<usize>,
    max_turns: Option<usize>,
    seed: u64,
    request_id_prefix: Seq<char>,
) -> Result<ShareGptLoadView, BenchErrorView> {
    let (order, words) = taking_order(entries, seed);
    if eligible_places_of(entries, entries.len()).len() == 0 {
        Err(nothing_eligible())
    } else {
        match taken_from(
            tokenizer,
            entries,
            order,
            0,
            Seq::empty(),
            num_conversations,
            max_turns,
            output_len_override,
            request_id_prefix,
        ) {
            Err(error) => Err(error),
            Ok(taken) => if taken.len() == 0 {
                Err(nothing_taken())
            } else {
                let needed = (num_conversations - taken.len()) as nat;
                Ok(
                    ShareGptLoadView {
                        conversations: with_copies_of(
                            taken,
                            next_many(words, 0, last_index(taken.len()), needed).0,
                            request_id_prefix,
                        ),
                        original_len: taken.len(),
                    },
                )
            },
        }
    }
}

/// What a dataset gives.
pub open spec fn load_json_of(
    tokenizer: TokenizerModel,
    data: JsonView,
    num_conversations: nat,
    output_len_override: Option<usize>,
    max_turns: Option<usize>,
    seed: u64,
    request_id_prefix: Seq<char>,
) -> Result<ShareGptLoadView, BenchErrorView> {
    match data.items() {
        None => Err(not_an_array()),
        Some(entries) => load_entries_of(
            tokenizer,
            entries,
            num_conversations,
            output_len_override,
            max_turns,
            seed,
            request_id_prefix,
        ),
    }
}

/// Some eligible entry makes at least two turns.
pub open spec fn has_usable(entries: Seq<JsonView>, max_turns: Option<usize>) -> bool {
    exists|p: int|
        0 <= p < entries.len() && eligible(#[trigger] entries[p]) && usable(
            entries[p],
            max_turns,
        )
}

/// Some eligible entry makes a turn.
pub open spec fn has_turns(entries: Seq<JsonView>, max_turns: Option<usize>) -> bool {
    exists|p: int|
        0 <= p < entries.len() && eligible(#[trigger] entries[p]) && turn_count(
            messages_of(entries[p]),
            max_turns,
        ) > 0
}

/// Why a dataset with the given entries is refused before anything is tokenized, if it is.
pub open spec fn entries_outright_refusal(
    entries: Seq<JsonView>,
    num_conversations: nat,
    max_turns: Option<usize>,
) -> Option<BenchErrorView> {
    if eligible_places_of(entries, entries.len()).len() == 0 {
        Some(nothing_eligible())
    } else if num_conversations == 0 || !has_turns(entries, max_turns) {
        Some(nothing_taken())
    } else {
        None
    }
}

/// Why a dataset is refused before anything is tokenized, if it is.
pub open spec fn outright_refusal(
    parsed: Result<JsonView, Seq<char>>,
    num_conversations: nat,
    max_turns: Option<usize>,
) -> Option<BenchErrorView> {
    match parsed {
        Err(description) => Some(
            BenchErrorView::Config("Invalid JSON in ShareGPT file: "@ + description),
        ),
        Ok(data) => match data.items() {
            None => Some(not_an_array()),
            Some(entries) => entries_outright_refusal(entries, num_conversations, max_turns),
        },
    }
}

/// Why a dataset with the given entries is refused, if it is and the tokenizer does not fail.
pub open spec fn entries_refusal(
    entries: Seq<JsonView>,
    num_conversations: nat,
    max_turns: Option<usize>,
) -> Option<BenchErrorView> {
    if eligible_places_of(entries, entries.len()).len() == 0 {
        Some(nothing_eligible())
    } else if num_conversations == 0 || !has_usable(entries, max_turns) {
        Some(nothing_taken())
    } else {
        None
    }
}

/// Why a dataset is refused, if it is and the tokenizer does not fail.
pub open spec fn load_refusal(
    parsed: Result<JsonView, Seq<char>>,
    num_conversations: nat,
    max_turns: Option<usize>,
) -> Option<BenchErrorView> {
    match parsed {
        Err(description) => Some(
            BenchErrorView::Config("Invalid JSON in ShareGPT file: "@ + description),
        ),
        Ok(data) => match data.items() {
            None => Some(not_an_array()),
            Some(entries) => entries_refusal(entries, num_conversations, max_turns),
        },
    }
}

/// Conversation `c` has the turns of one that the dataset gave.
pub open spec fn is_copy(load: ShareGptLoadView, c: int) -> bool {
    exists|o: int|
        0 <= o < load.original_len && load.conversations[c].turns == (
        #[trigger] load.conversations[o]).turns
}

/// `load` holds `num_conversations` conversations under the identifiers that were asked for, of
/// which the ones past `original_len` are copies.
pub open spec fn well_loaded(
    load: ShareGptLoadView,
    num_conversations: nat,
    output_len_override: Option<usize>,
    max_turns: Option<usize>,
    request_id_prefix: Seq<char>,
) -> bool {
    &&& load.conversations.len() == num_conversations
    &&& 1 <= load.original_len <= num_conversations
    &&& forall|c: int|
        0 <= c < num_conversations ==> loaded(
            #[trigger] load.conversations[c],
            c as nat,
            max_turns,
            output_len_override,
            request_id_prefix,
        )
    &&& forall|c: int|
        load.original_len <= c < num_conversations ==> #[trigger] is_copy(load, c)
}

/// A shuffled list has the members of the list.
pub(crate) proof fn lemma_same_members(a: Seq<usize>, b: Seq<usize>)
    requires
        a.to_multiset() == b.to_multiset(),
    ensures
        a.len() == b.len(),
        forall|p: usize| #[trigger] a.contains(p) <==> b.contains(p),
{
    a.to_multiset_ensures();
    b.to_multiset_ensures();
    assert forall|p: usize| #[trigger] a.contains(p) <==> b.contains(p) by {
        vstd::seq_lib::to_multiset_contains(a, p);
        vstd::seq_lib::to_multiset_contains(b, p);
    }
}

/// There is something to count where an entry in `order` makes at least two turns.
proof fn lemma_usable_found(
    entries: Seq<JsonView>,
    order: Seq<usize>,
    n: nat,
    max_turns: Option<usize>,
)
    requires
        n <= order.len(),
    ensures
        usable_count(entries, order, n, max_turns) > 0 <==> exists|k: int|
            0 <= k < n && usable(entries[#[trigger] order[k] as int], max_turns),
    decreases n,
{
    if n > 0 {
        lemma_usable_found(entries, order, (n - 1) as nat, max_turns);
        if usable(entries[order[n - 1] as int], max_turns) {
            assert(0 <= n - 1 < n);
        }
        if exists|k: int| 0 <= k < n && usable(entries[#[trigger] order[k] as int], max_turns) {
            let k = choose|k: int|
                0 <= k < n && usable(entries[#[trigger] order[k] as int], max_turns);
            if k < n - 1 {
                assert(usable(entries[order[k] as int], max_turns));
            }
        }
    }
}

/// Loads conversations from the entries of a dataset.
pub fn load_entries<D, E>(
    tokenizer: &TokenizerKind<D, E>,
    entries: &Vec<Json>,
    num_conversations: usize,
    output_len_override: Option<usize>,
    max_turns: Option<usize>,
    seed: u64,
    request_id_prefix: &str,
) -> (result: Result<ShareGptLoad, BenchError>) where
    D: Fn(&[u32], bool) -> Result<String, BenchError>,
    E: Fn(&str, bool) -> Result<Vec<u32>, BenchError>,

    requires
        tokenizer.callable(),
    ensures
        forall|model: TokenizerModel| #[trigger]
            tokenizer.behaves_as(model) ==> result_view(result) == load_entries_of(
                model,
                jsons_view(entries@),
                num_conversations as nat,
                output_len_override,
                max_turns,
                seed,
                request_id_prefix@,
            ),
        entries_outright_refusal(
            jsons_view(entries@),
            num_conversations as nat,
            max_turns,
        ) matches Some(error) ==> result_view(result) == Err::<ShareGptLoadView, BenchErrorView>(
            error,
        ),
        result is Ok ==> entries_refusal(
            jsons_view(entries@),
            num_conversations as nat,
            max_turns,
        ) is None,
        result matches Ok(load) ==> well_loaded(
            load@,
            num_conversations as nat,
            output_len_override,
            max_turns,
            request_id_prefix@,
        ),
        tokenizer.infallible() ==> (match entries_refusal(
            jsons_view(entries@),
            num_conversations as nat,
            max_turns,
        ) {
            Some(error) => result_view(result) == Err::<ShareGptLoadView, BenchErrorView>(error),
            None => result is Ok,
        }),
{
    let ghost views = jsons_view(entries@);
    let mut order: Vec<usize> = eligible_places(entries);
    let ghost places = order@;
    proof {
        assert(entries.len() <= usize::MAX);
        law_eligible_places(views, views.len());
    }
    if order.len() == 0 {
        proof {
            assert forall|p: int| 0 <= p < views.len() implies !eligible(#[trigger] views[p]) by {
                assert(!places.contains(p as usize));
            }
        }
        return Err(
            BenchError::Config(
                "No valid multi-turn entries in ShareGPT file (need at least 4 messages per entry)".to_string(),
            ),
        );
    }
    let mut rng: StdRng = seeded(seed);
    shuffle(&mut order, &mut rng);
    proof {
        lemma_same_members(order@, places);
        assert forall|k: int| 0 <= k < order@.len() implies (#[trigger] order@[k])
            < entries@.len() && eligible(entries@[order@[k] as int]@) by {
            assert(order@.contains(order@[k]));
            assert(places.contains(order@[k]));
            assert(views[order@[k] as int] == entries@[order@[k] as int]@);
        }
        if !has_turns(views, max_turns) {
            assert forall|k: int| 0 <= k < order@.len() implies turn_count(
                messages_of(views[#[trigger] order@[k] as int]),
                max_turns,
            ) == 0 by {
                assert(order@[k] < entries@.len());
                assert(eligible(views[order@[k] as int]));
            }
        }
        lemma_usable_found(views, order@, order@.len(), max_turns);
        if has_usable(views, max_turns) {
            let p = choose|p: int|
                0 <= p < views.len() && eligible(#[trigger] views[p]) && usable(
                    views[p],
                    max_turns,
                );
            assert(places.contains(p as usize));
            assert(order@.contains(p as usize));
            let k = choose|k: int| 0 <= k < order@.len() && order@[k] == p as usize;
            assert(usable(views[order@[k] as int], max_turns));
        }
        if usable_count(views, order@, order@.len(), max_turns) > 0 {
            let k = choose|k: int|
                0 <= k < order@.len() && usable(views[#[trigger] order@[k] as int], max_turns);
            assert(order@[k] < entries@.len());
            assert(eligible(views[order@[k] as int]));
        }
    }
    let mut conversations: Vec<MultiTurnConversation> = take_conversations(
        tokenizer,
        entries,
        &order,
        num_conversations,
        max_turns,
        output_len_override,
        request_id_prefix,
    )?;
    let ghost taken = conversations_view(conversations@);
    let original_len: usize = conversations.len();
    if original_len == 0 {
        return Err(
            BenchError::Config(
                "No valid multi-turn conversations after filtering ShareGPT dataset.".to_string(),
            ),
        );
    }
    let copied: Vec<usize> = draw_many(
        &mut rng,
        0,
        original_len - 1,
        num_conversations - original_len,
    );
    add_copies(&mut conversations, &copied, request_id_prefix);
    let load: ShareGptLoad = ShareGptLoad { conversations, original_len };
    proof {
        let all = load@.conversations;
        assert forall|c: int| 0 <= c < num_conversations implies loaded(
            #[trigger] all[c],
            c as nat,
            max_turns,
            output_len_override,
            request_id_prefix@,
        ) by {
            if c < original_len {
                assert(all[c] == taken[c]);
            } else {
                assert(all[c].turns == taken[copied@[c - original_len] as int].turns);
            }
        }
        assert forall|c: int|
            original_len <= c < num_conversations implies #[trigger] is_copy(load@, c) by {
            let o = copied@[c - original_len] as int;
            assert(all[o] == taken[o]);
            assert(all[c].turns == all[o].turns);
        }
    }
    Ok(load)
}

/// Loads conversations from a parsed dataset.
pub fn load_json<D, E>(
    tokenizer: &TokenizerKind<D, E>,
    data: &Json,
    num_conversations: usize,
    output_len_override: Option<usize>,
    max_turns: Option<usize>,
    seed: u64,
    request_id_prefix: &str,
) -> (result: Result<ShareGptLoad, BenchError>) where
    D: Fn(&[u32], bool) -> Result<String, BenchError>,
    E: Fn(&str, bool) -> Result<Vec<u32>, BenchError>,

    requires
        tokenizer.callable(),
    ensures
        forall|model: TokenizerModel| #[trigger]
            tokenizer.behaves_as(model) ==> result_view(result) == load_json_of(
                model,
                data@,
                num_conversations as nat,
                output_len_override,
                max_turns,
                seed,
                request_id_prefix@,
            ),
        outright_refusal(
            Ok(data@),
            num_conversations as nat,
            max_turns,
        ) matches Some(error) ==> result_view(result) == Err::<ShareGptLoadView, BenchErrorView>(
            error,
        ),
        result is Ok ==> load_refusal(
            Ok(data@),
            num_conversations as nat,
            max_turns,
        ) is None,
        result matches Ok(load) ==> well_loaded(
            load@,
            num_conversations as nat,
            output_len_override,
            max_turns,
            request_id_prefix@,
        ),
        tokenizer.infallible() ==> (match load_refusal(
            Ok(data@),
            num_conversations as nat,
            max_turns,
        ) {
            Some(error) => result_view(result) == Err::<ShareGptLoadView, BenchErrorView>(error),
            None => result is Ok,
        }),
{
    match data.as_array() {
        Some(entries) => load_entries(
            tokenizer,
            entries,
            num_conversations,
            output_len_override,
            max_turns,
            seed,
            request_id_prefix,
        ),
        None => Err(BenchError::Config("ShareGPT file must contain a JSON array".to_string())),
    }
}

/// What the text of a dataset gives.
pub open spec fn load_of(
    tokenizer: TokenizerModel,
    parsed: Result<JsonView, Seq<char>>,
    num_conversations: nat,
    output_len_override: Option<usize>,
    max_turns: Option<usize>,
    seed: u64,
    request_id_prefix: Seq<char>,
) -> Result<ShareGptLoadView, BenchErrorView> {
    match parsed {
        Err(description) => Err(
            BenchErrorView::Config("Invalid JSON in ShareGPT file: "@ + description),
        ),
        Ok(data) => load_json_of(
            tokenizer,
            data,
            num_conversations,
            output_len_override,
            max_turns,
            seed,
            request_id_prefix,
        ),
    }
}

/// Load multi-turn conversations from the text of a ShareGPT dataset.
///
/// Walks ALL turns in each entry (not just first 2). Filters entries with at least 4 messages
/// (2 user + 2 assistant = 2 real turns), takes them in a shuffled order, and adds copies where
/// they are fewer than `num_conversations`.
pub fn load_sharegpt_multi_turn<D, E>(
    tokenizer: &TokenizerKind<D, E>,
    content: &str,
    num_conversations: usize,
    output_len_override: Option<usize>,
    max_turns: Option<usize>,
    seed: u64,
    request_id_prefix: &str,
) -> (result: Result<ShareGptLoad, BenchError>) where
    D: Fn(&[u32], bool) -> Result<String, BenchError>,
    E: Fn(&str, bool) -> Result<Vec<u32>, BenchError>,

    requires
        tokenizer.callable(),
    ensures
        forall|model: TokenizerModel| #[trigger]
            tokenizer.behaves_as(model) ==> result_view(result) == load_of(
                model,
                parsed_json(content@),
                num_conversations as nat,
                output_len_override,
                max_turns,
                seed,
                request_id_prefix@,
            ),
        outright_refusal(
            parsed_json(content@),
            num_conversations as nat,
            max_turns,
        ) matches Some(error) ==> result_view(result) == Err::<ShareGptLoadView, BenchErrorView>(
            error,
        ),
        result is Ok ==> load_refusal(
            parsed_json(content@),
            num_conversations as nat,
            max_turns,
        ) is None,
        result matches Ok(load) ==> well_loaded(
            load@,
            num_conversations as nat,
            output_len_override,
            max_turns,
            request_id_prefix@,
        ),
        tokenizer.infallible() ==> (match load_refusal(
            parsed_json(content@),
            num_conversations as nat,
            max_turns,
        ) {
            Some(error) => result_view(result) == Err::<ShareGptLoadView, BenchErrorView>(error),
            None => result is Ok,
        }),
{
    match parse_json(content) {
        Ok(data) => load_json(
            tokenizer,
            &data,
            num_conversations,
            output_len_override,
            max_turns,
            seed,
            request_id_prefix,
        ),
        Err(description) => {
            let mut text: String = "Invalid JSON in ShareGPT file: ".to_string();
            text.append(description.as_str());
            Err(BenchError::Config(text))
        },
    }
}

/// The complaint about a dataset that cannot be read.
pub fn read_error(dataset_path: &str, cause: &str) -> (error: BenchError)
    ensures
        error@ == BenchErrorView::Config(
            "Failed to read ShareGPT file '"@ + dataset_path@ + "': "@ + cause@,
        ),
{
    let mut text: String = "Failed to read ShareGPT file '".to_string();
    text.append(dataset_path);
    text.append("': ");
    text.append(cause);
    BenchError::Config(text)
}

/// The complaint names the path and the cause.
pub proof fn law_read_errors_name_path_and_cause(dataset_path: &str, cause: &str, error: BenchError)
    requires
        call_ensures(read_error, (dataset_path, cause), error),
    ensures
        error@ == BenchErrorView::Config(
            "Failed to read ShareGPT file '"@ + dataset_path@ + "': "@ + cause@,
        ),
{
}

} // verus!
