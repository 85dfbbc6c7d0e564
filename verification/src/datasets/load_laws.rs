//! What a ShareGPT dataset is read as, message by message and entry by entry.
use vstd::prelude::*;
use crate::datasets::draws::last_index;
use crate::datasets::json::JsonView;
use crate::datasets::sharegpt::{
    ShareGptLoadView, eligible, eligible_places_of, enough_turns, entry_conversation_of,
    entry_turns_of, exchange_of, has_turns, has_usable, law_eligible_places, load_entries_of,
    load_of, load_refusal, messages_of, opens_turn, outright_refusal, taken_from, taking_order,
    text_member_of, turn_count, turns_from, usable,
};
use crate::datasets::sharegpt_laws::{
    lemma_places_ascend, lemma_turns_are_counted, lemma_usable_places_grow, usable_places,
};
use crate::datasets::{ConversationView, TurnView};
use crate::error::BenchErrorView;
use crate::rng::{law_draws_lie_in_range, next_many, next_order, seeded_words};
use crate::text::decimal;
use crate::tokenizer::TokenizerModel;

verus! {

/// The messages of an entry are the items of its member "conversations", if that is an array.
pub proof fn law_messages_are_the_listed_ones(entry: JsonView)
    ensures
        match entry.member("conversations"@) {
            Some(JsonView::Array(items)) => messages_of(entry) == items,
            _ => messages_of(entry).len() == 0,
        },
{
}

/// An entry is eligible by the number of its messages alone: from 4 on, odd or even.
pub proof fn law_entries_are_eligible_from_four_messages_on(entry: JsonView)
    ensures
        eligible(entry) <==> (entry.member("conversations"@) matches Some(JsonView::Array(items))
            && items.len() >= 4),
{
}

/// The places that are listed are those of the entries with at least 4 messages, in order.
pub proof fn law_places_are_those_of_long_entries(entries: Seq<JsonView>, p: usize, i: int, j: int)
    requires
        entries.len() <= usize::MAX,
    ensures
        eligible_places_of(entries, entries.len()).contains(p) <==> p < entries.len() && (
        entries[p as int].member("conversations"@) matches Some(JsonView::Array(items))
            && items.len() >= 4),
        0 <= i < j < eligible_places_of(entries, entries.len()).len() ==> eligible_places_of(
            entries,
            entries.len(),
        )[i] < eligible_places_of(entries, entries.len())[j],
{
    law_eligible_places(entries, entries.len());
    lemma_places_ascend(entries, entries.len());
}

/// A member of a message counts by its text, and as no text where it is not a string.
pub proof fn law_members_count_by_their_text(message: JsonView, name: Seq<char>)
    ensures
        match message.member(name) {
            Some(JsonView::Text(text)) => text_member_of(message, name) == text,
            _ => text_member_of(message, name).len() == 0,
        },
{
}

/// A dataset is refused for its form, then for want of entries with 4 messages, then for want of
/// entries that make two turns or of wanted conversations, and for nothing else.
pub proof fn law_datasets_are_refused_for_want_of_turns(
    entries: Seq<JsonView>,
    num_conversations: nat,
    max_turns: Option<usize>,
    p: int,
    description: Seq<char>,
    data: JsonView,
)
    requires
        entries.len() <= usize::MAX,
        !(data is Array),
    ensures
        load_refusal(Err(description), num_conversations, max_turns) == Some(
            BenchErrorView::Config("Invalid JSON in ShareGPT file: "@ + description),
        ),
        load_refusal(Ok(data), num_conversations, max_turns) == Some(
            BenchErrorView::Config("ShareGPT file must contain a JSON array"@),
        ),
        num_conversations > 0 && 0 <= p < entries.len() && (entries[p].member(
            "conversations"@,
        ) matches Some(JsonView::Array(items)) && items.len() >= 4 && turn_count(items, max_turns)
            >= 2) ==> load_refusal(
            Ok(JsonView::Array(entries)),
            num_conversations,
            max_turns,
        ) is None,
        (forall|q: int|
            0 <= q < entries.len() ==> ((#[trigger] entries[q]).member(
                "conversations"@,
            ) matches Some(JsonView::Array(items)) ==> items.len() < 4)) ==> load_refusal(
            Ok(JsonView::Array(entries)),
            num_conversations,
            max_turns,
        ) == Some(
            BenchErrorView::Config(
                "No valid multi-turn entries in ShareGPT file (need at least 4 messages per entry)"@,
            ),
        ),
        0 <= p < entries.len() && (entries[p].member("conversations"@) matches Some(
            JsonView::Array(items),
        ) && items.len() >= 4) && (num_conversations == 0 || (forall|q: int|
            0 <= q < entries.len() ==> ((#[trigger] entries[q]).member(
                "conversations"@,
            ) matches Some(JsonView::Array(items)) ==> items.len() < 4 || turn_count(
                items,
                max_turns,
            ) < 2))) ==> load_refusal(
            Ok(JsonView::Array(entries)),
            num_conversations,
            max_turns,
        ) == Some(
            BenchErrorView::Config(
                "No valid multi-turn conversations after filtering ShareGPT dataset."@,
            ),
        ),
{
    let places = eligible_places_of(entries, entries.len());
    law_eligible_places(entries, entries.len());
    if 0 <= p < entries.len() && eligible(entries[p]) {
        assert(places.contains(p as usize));
        if usable(entries[p], max_turns) {
            assert(has_usable(entries, max_turns));
        }
    }
    if places.len() > 0 {
        assert(places.contains(places[0]));
        assert(eligible(entries[places[0] as int]));
    }
}

/// A person's message and the reply to it make a turn with the message's text and as many tokens
/// as it encodes to. The output length is the one that was asked for, and the reply is then not
/// looked at; else it is the number of tokens that the reply encodes to, at least 1.
pub proof fn law_exchanges_are_counted_in_tokens(
    tokenizer: TokenizerModel,
    message: Seq<char>,
    reply: Seq<char>,
    output_len_override: Option<usize>,
    turn: TurnView,
)
    requires
        tokenizer.countable(),
        exchange_of(tokenizer, message, reply, output_len_override) == Ok::<
            TurnView,
            BenchErrorView,
        >(turn),
    ensures
        turn.user_message == message,
        tokenizer.encoded(message, false) matches Ok(tokens) && turn.user_message_len
            == tokens.len(),
        match output_len_override {
            Some(len) => turn.expected_output_len == len,
            None => tokenizer.encoded(reply, false) matches Ok(tokens)
                && turn.expected_output_len == (if tokens.len() >= 1 {
                tokens.len()
            } else {
                1
            }),
        },
{
}

/// Where an entry's turns begin, from message `i` on, after `count` turns before it.
pub open spec fn turn_places_from(
    messages: Seq<JsonView>,
    i: nat,
    count: nat,
    max_turns: Option<usize>,
) -> Seq<int>
    decreases messages.len() - i,
{
    if i + 1 >= messages.len() || enough_turns(count, max_turns) {
        Seq::empty()
    } else if opens_turn(messages, i) {
        seq![i as int] + turn_places_from(messages, i + 2, count + 1, max_turns)
    } else {
        turn_places_from(messages, i + 1, count, max_turns)
    }
}

/// Where an entry's turns begin.
pub open spec fn turn_places(messages: Seq<JsonView>, max_turns: Option<usize>) -> Seq<int> {
    turn_places_from(messages, 0, 0, max_turns)
}

/// An entry is walked from its first message on: a person's message that says something, with a
/// message behind it, begins a turn, and the walk goes on behind that second message; any other
/// message is passed over. So the places where turns begin are at least 2 apart, and such a
/// message either begins a turn, or is the reply of one, or stands behind the most turns that
/// were asked for.
pub proof fn law_turns_begin_with_a_persons_message(
    messages: Seq<JsonView>,
    max_turns: Option<usize>,
)
    ensures
        forall|j: int|
            0 <= j < turn_places(messages, max_turns).len() ==> {
                let at = #[trigger] turn_places(messages, max_turns)[j];
                &&& 0 <= at < messages.len() - 1
                &&& text_member_of(messages[at], "from"@) == "human"@
                &&& text_member_of(messages[at], "value"@).len() > 0
            },
        forall|j: int, k: int|
            0 <= j < k < turn_places(messages, max_turns).len() ==> #[trigger] turn_places(
                messages,
                max_turns,
            )[j] + 2 <= #[trigger] turn_places(messages, max_turns)[k],
        max_turns matches Some(max) ==> turn_places(messages, max_turns).len() <= max,
        forall|i: int|
            0 <= i < messages.len() - 1 && text_member_of(#[trigger] messages[i], "from"@)
                == "human"@ && text_member_of(messages[i], "value"@).len() > 0 ==> {
                ||| turn_places(messages, max_turns).contains(i)
                ||| turn_places(messages, max_turns).contains(i - 1)
                ||| (max_turns matches Some(max) && turn_places(messages, max_turns).len() == max
                    && forall|j: int|
                    0 <= j < max ==> #[trigger] turn_places(messages, max_turns)[j] < i)
            },
{
    lemma_turn_places_open(messages, 0, 0, max_turns);
    lemma_turn_places_are_apart(messages, 0, 0, max_turns);
    let places = turn_places(messages, max_turns);
    assert forall|i: int|
        0 <= i < messages.len() - 1 && text_member_of(#[trigger] messages[i], "from"@) == "human"@
            && text_member_of(messages[i], "value"@).len() > 0 implies {
        ||| places.contains(i)
        ||| places.contains(i - 1)
        ||| (max_turns matches Some(max) && places.len() == max && forall|j: int|
            0 <= j < max ==> #[trigger] places[j] < i)
    } by {
        lemma_turn_places_pass_over_nothing(messages, 0, 0, max_turns, i as nat);
    }
}

/// Turns begin where messages open one.
proof fn lemma_turn_places_open(
    messages: Seq<JsonView>,
    i: nat,
    count: nat,
    max_turns: Option<usize>,
)
    ensures
        forall|j: int|
            0 <= j < turn_places_from(messages, i, count, max_turns).len() ==> {
                let at = #[trigger] turn_places_from(messages, i, count, max_turns)[j];
                i <= at && opens_turn(messages, at as nat)
            },
    decreases messages.len() - i,
{
    if i + 1 >= messages.len() || enough_turns(count, max_turns) {
    } else if opens_turn(messages, i) {
        let rest = turn_places_from(messages, i + 2, count + 1, max_turns);
        let places = turn_places_from(messages, i, count, max_turns);
        lemma_turn_places_open(messages, i + 2, count + 1, max_turns);
        assert forall|j: int| 0 <= j < places.len() implies {
            let at = #[trigger] places[j];
            i <= at && opens_turn(messages, at as nat)
        } by {
            if j > 0 {
                assert(places[j] == rest[j - 1]);
            }
        }
    } else {
        lemma_turn_places_open(messages, i + 1, count, max_turns);
        assert(turn_places_from(messages, i, count, max_turns) == turn_places_from(
            messages,
            i + 1,
            count,
            max_turns,
        ));
    }
}

/// Turns begin at least 2 messages apart, and are not more than were asked for.
proof fn lemma_turn_places_are_apart(
    messages: Seq<JsonView>,
    i: nat,
    count: nat,
    max_turns: Option<usize>,
)
    requires
        max_turns matches Some(max) ==> count <= max,
    ensures
        forall|j: int, k: int|
            0 <= j < k < turn_places_from(messages, i, count, max_turns).len()
                ==> #[trigger] turn_places_from(messages, i, count, max_turns)[j] + 2
                <= #[trigger] turn_places_from(messages, i, count, max_turns)[k],
        max_turns matches Some(max) ==> count + turn_places_from(
            messages,
            i,
            count,
            max_turns,
        ).len() <= max,
    decreases messages.len() - i,
{
    if i + 1 >= messages.len() || enough_turns(count, max_turns) {
    } else if opens_turn(messages, i) {
        let rest = turn_places_from(messages, i + 2, count + 1, max_turns);
        let places = turn_places_from(messages, i, count, max_turns);
        lemma_turn_places_open(messages, i + 2, count + 1, max_turns);
        lemma_turn_places_are_apart(messages, i + 2, count + 1, max_turns);
        assert forall|j: int, k: int| 0 <= j < k < places.len() implies #[trigger] places[j] + 2
            <= #[trigger] places[k] by {
            assert(places[k] == rest[k - 1]);
            if j > 0 {
                assert(places[j] == rest[j - 1]);
            }
        }
    } else {
        lemma_turn_places_are_apart(messages, i + 1, count, max_turns);
        assert(turn_places_from(messages, i, count, max_turns) == turn_places_from(
            messages,
            i + 1,
            count,
            max_turns,
        ));
    }
}

/// A message that opens a turn begins one, unless it is the reply of one, or enough began before.
proof fn lemma_turn_places_pass_over_nothing(
    messages: Seq<JsonView>,
    i: nat,
    count: nat,
    max_turns: Option<usize>,
    m: nat,
)
    requires
        i <= m,
        opens_turn(messages, m),
        max_turns matches Some(max) ==> count <= max,
    ensures
        ({
            let places = turn_places_from(messages, i, count, max_turns);
            ||| places.contains(m as int)
            ||| places.contains(m - 1)
            ||| (max_turns matches Some(max) && count + places.len() == max && forall|j: int|
                0 <= j < places.len() ==> #[trigger] places[j] < m)
        }),
    decreases messages.len() - i,
{
    let places = turn_places_from(messages, i, count, max_turns);
    if enough_turns(count, max_turns) {
    } else if opens_turn(messages, i) {
        let rest = turn_places_from(messages, i + 2, count + 1, max_turns);
        assert(places[0] == i);
        if i + 2 <= m {
            lemma_turn_places_pass_over_nothing(messages, i + 2, count + 1, max_turns, m);
            if rest.contains(m as int) {
                let j = rest.index_of(m as int);
                assert(places[j + 1] == m);
            } else if rest.contains(m - 1) {
                let j = rest.index_of(m - 1);
                assert(places[j + 1] == m - 1);
            } else {
                assert forall|j: int| 0 <= j < places.len() implies #[trigger] places[j] < m by {
                    if j > 0 {
                        assert(places[j] == rest[j - 1]);
                    }
                }
            }
        }
    } else {
        lemma_turn_places_pass_over_nothing(messages, i + 1, count, max_turns, m);
    }
}

/// A turn is made at each place where one begins, of the message there and the one behind it.
///
/// The turn has the person's text, as many tokens as that text encodes to, and as its output
/// length the one that was asked for, or else the number of tokens of the reply, at least 1.
pub proof fn law_entries_are_walked_by_pairs(
    tokenizer: TokenizerModel,
    messages: Seq<JsonView>,
    max_turns: Option<usize>,
    output_len_override: Option<usize>,
    turns: Seq<TurnView>,
)
    requires
        tokenizer.countable(),
        entry_turns_of(tokenizer, messages, max_turns, output_len_override) == Ok::<
            Seq<TurnView>,
            BenchErrorView,
        >(turns),
    ensures
        turns.len() == turn_places(messages, max_turns).len(),
        forall|j: int|
            0 <= j < turns.len() ==> {
                let turn = #[trigger] turns[j];
                let at = turn_places(messages, max_turns)[j];
                &&& turn.user_message == text_member_of(messages[at], "value"@)
                &&& tokenizer.encoded(turn.user_message, false) matches Ok(tokens)
                    && turn.user_message_len == tokens.len()
                &&& match output_len_override {
                    Some(len) => turn.expected_output_len == len,
                    None => tokenizer.encoded(
                        text_member_of(messages[at + 1], "value"@),
                        false,
                    ) matches Ok(tokens) && turn.expected_output_len == (if tokens.len() >= 1 {
                        tokens.len()
                    } else {
                        1
                    }),
                }
            },
{
    lemma_turns_are_at_their_places(
        tokenizer,
        messages,
        0,
        Seq::empty(),
        max_turns,
        output_len_override,
    );
    assert forall|j: int| 0 <= j < turns.len() implies {
        let turn = #[trigger] turns[j];
        let at = turn_places(messages, max_turns)[j];
        &&& turn.user_message == text_member_of(messages[at], "value"@)
        &&& tokenizer.encoded(turn.user_message, false) matches Ok(tokens)
            && turn.user_message_len == tokens.len()
        &&& match output_len_override {
            Some(len) => turn.expected_output_len == len,
            None => tokenizer.encoded(
                text_member_of(messages[at + 1], "value"@),
                false,
            ) matches Ok(tokens) && turn.expected_output_len == (if tokens.len() >= 1 {
                tokens.len()
            } else {
                1
            }),
        }
    } by {
        let at = turn_places(messages, max_turns)[j];
        assert(at == turn_places_from(messages, 0, 0, max_turns)[j]);
        law_exchanges_are_counted_in_tokens(
            tokenizer,
            text_member_of(messages[at], "value"@),
            text_member_of(messages[at + 1], "value"@),
            output_len_override,
            turns[j],
        );
    }
}

/// The turns from message `i` on are those of the exchanges at their places; the first exchange
/// that fails fails them all.
proof fn lemma_turns_are_at_their_places(
    tokenizer: TokenizerModel,
    messages: Seq<JsonView>,
    i: nat,
    before: Seq<TurnView>,
    max_turns: Option<usize>,
    output_len_override: Option<usize>,
) -> (n: int)
    ensures
        ({
            let places = turn_places_from(messages, i, before.len(), max_turns);
            let result = turns_from(
                tokenizer,
                messages,
                i,
                before,
                max_turns,
                output_len_override,
            );
            &&& 0 <= n <= places.len()
            &&& match result {
                Ok(all) => n == places.len() && all.len() == before.len() + n,
                Err(error) => n < places.len() && exchange_of(
                    tokenizer,
                    text_member_of(messages[places[n]], "value"@),
                    text_member_of(messages[places[n] + 1], "value"@),
                    output_len_override,
                ) == Err::<TurnView, BenchErrorView>(error),
            }
        }),
        turns_from(
            tokenizer,
            messages,
            i,
            before,
            max_turns,
            output_len_override,
        ) matches Ok(all) ==> forall|k: int|
            0 <= k < before.len() ==> #[trigger] all[k] == before[k],
        forall|j: int|
            0 <= j < n ==> {
                let at = #[trigger] turn_places_from(messages, i, before.len(), max_turns)[j];
                let exchange = exchange_of(
                    tokenizer,
                    text_member_of(messages[at], "value"@),
                    text_member_of(messages[at + 1], "value"@),
                    output_len_override,
                );
                &&& exchange is Ok
                &&& turns_from(
                    tokenizer,
                    messages,
                    i,
                    before,
                    max_turns,
                    output_len_override,
                ) matches Ok(all) ==> all[before.len() + j] == exchange->Ok_0
            },
    decreases messages.len() - i,
{
    let places = turn_places_from(messages, i, before.len(), max_turns);
    let result = turns_from(tokenizer, messages, i, before, max_turns, output_len_override);
    if i + 1 >= messages.len() || enough_turns(before.len(), max_turns) {
        0
    } else if opens_turn(messages, i) {
        let exchange = exchange_of(
            tokenizer,
            text_member_of(messages[i as int], "value"@),
            text_member_of(messages[i as int + 1], "value"@),
            output_len_override,
        );
        assert(places[0] == i);
        if exchange is Err {
            0
        } else {
            let more = before.push(exchange->Ok_0);
            let rest = turn_places_from(messages, i + 2, more.len(), max_turns);
            let n = 1 + lemma_turns_are_at_their_places(
                tokenizer,
                messages,
                i + 2,
                more,
                max_turns,
                output_len_override,
            );
            assert(result is Err ==> places[n] == rest[n - 1]);
            if result is Ok {
                let all = result->Ok_0;
                assert(all[before.len() as int] == more[before.len() as int]);
                assert forall|k: int| 0 <= k < before.len() implies #[trigger] all[k]
                    == before[k] by {
                    assert(all[k] == more[k]);
                }
            }
            assert forall|j: int| 0 <= j < n implies {
                let at = #[trigger] places[j];
                let made = exchange_of(
                    tokenizer,
                    text_member_of(messages[at], "value"@),
                    text_member_of(messages[at + 1], "value"@),
                    output_len_override,
                );
                &&& made is Ok
                &&& result matches Ok(all) ==> all[before.len() + j] == made->Ok_0
            } by {
                if j > 0 {
                    assert(places[j] == rest[j - 1]);
                    assert(before.len() + j == more.len() + (j - 1));
                }
            }
            n
        }
    } else {
        lemma_turns_are_at_their_places(
            tokenizer,
            messages,
            i + 1,
            before,
            max_turns,
            output_len_override,
        )
    }
}

/// What makes an entry's walk fail, at the turn with number `n`: the tokenizer on a person's
/// text, or, where no output length was asked for, on the reply to it, in this order. The turns
/// before it could be made.
pub proof fn law_walks_fail_at_the_first_failing_text(
    tokenizer: TokenizerModel,
    messages: Seq<JsonView>,
    max_turns: Option<usize>,
    output_len_override: Option<usize>,
    error: BenchErrorView,
) -> (n: int)
    requires
        entry_turns_of(tokenizer, messages, max_turns, output_len_override) == Err::<
            Seq<TurnView>,
            BenchErrorView,
        >(error),
    ensures
        0 <= n < turn_places(messages, max_turns).len(),
        forall|j: int|
            0 <= j < n ==> {
                let at = #[trigger] turn_places(messages, max_turns)[j];
                &&& tokenizer.encoded(text_member_of(messages[at], "value"@), false) is Ok
                &&& output_len_override is None ==> tokenizer.encoded(
                    text_member_of(messages[at + 1], "value"@),
                    false,
                ) is Ok
            },
        ({
            let at = turn_places(messages, max_turns)[n];
            match tokenizer.encoded(text_member_of(messages[at], "value"@), false) {
                Err(failure) => error == failure,
                Ok(_) => output_len_override is None && tokenizer.encoded(
                    text_member_of(messages[at + 1], "value"@),
                    false,
                ) == Err::<Seq<u32>, BenchErrorView>(error),
            }
        }),
{
    let n = lemma_turns_are_at_their_places(
        tokenizer,
        messages,
        0,
        Seq::empty(),
        max_turns,
        output_len_override,
    );
    assert forall|j: int| 0 <= j < n implies {
        let at = #[trigger] turn_places(messages, max_turns)[j];
        &&& tokenizer.encoded(text_member_of(messages[at], "value"@), false) is Ok
        &&& output_len_override is None ==> tokenizer.encoded(
            text_member_of(messages[at + 1], "value"@),
            false,
        ) is Ok
    } by {
        let at = turn_places_from(messages, 0, 0, max_turns)[j];
        assert(exchange_of(
            tokenizer,
            text_member_of(messages[at], "value"@),
            text_member_of(messages[at + 1], "value"@),
            output_len_override,
        ) is Ok);
    }
    n
}

/// As many turns are counted as are made.
pub proof fn law_counted_turns_are_made(
    tokenizer: TokenizerModel,
    messages: Seq<JsonView>,
    max_turns: Option<usize>,
    output_len_override: Option<usize>,
    turns: Seq<TurnView>,
)
    requires
        entry_turns_of(tokenizer, messages, max_turns, output_len_override) == Ok::<
            Seq<TurnView>,
            BenchErrorView,
        >(turns),
    ensures
        turn_count(messages, max_turns) == turns.len(),
{
    lemma_turns_are_counted(
        tokenizer,
        messages,
        0,
        Seq::empty(),
        max_turns,
        output_len_override,
    );
}

/// The messages of taken conversations have the lengths that they encode to.
proof fn lemma_taken_are_counted_in_tokens(
    tokenizer: TokenizerModel,
    entries: Seq<JsonView>,
    order: Seq<usize>,
    k: nat,
    taken: Seq<ConversationView>,
    num_conversations: nat,
    max_turns: Option<usize>,
    output_len_override: Option<usize>,
    request_id_prefix: Seq<char>,
    all: Seq<ConversationView>,
)
    requires
        tokenizer.countable(),
        taken.len() <= num_conversations,
        forall|c: int, t: int|
            0 <= c < taken.len() && 0 <= t < taken[c].turns.len() ==> (tokenizer.encoded(
                (#[trigger] taken[c].turns[t]).user_message,
                false,
            ) matches Ok(tokens) && taken[c].turns[t].user_message_len == tokens.len()),
        taken_from(
            tokenizer,
            entries,
            order,
            k,
            taken,
            num_conversations,
            max_turns,
            output_len_override,
            request_id_prefix,
        ) == Ok::<Seq<ConversationView>, BenchErrorView>(all),
    ensures
        all.len() <= num_conversations,
        forall|c: int, t: int|
            0 <= c < all.len() && 0 <= t < all[c].turns.len() ==> (tokenizer.encoded(
                (#[trigger] all[c].turns[t]).user_message,
                false,
            ) matches Ok(tokens) && all[c].turns[t].user_message_len == tokens.len()),
    decreases order.len() - k,
{
    if k < order.len() && taken.len() < num_conversations {
        let entry = entries[order[k as int] as int];
        let conversation = entry_conversation_of(
            tokenizer,
            entry,
            taken.len(),
            max_turns,
            output_len_override,
            request_id_prefix,
        )->Ok_0;
        let turns = entry_turns_of(
            tokenizer,
            messages_of(entry),
            max_turns,
            output_len_override,
        )->Ok_0;
        law_entries_are_walked_by_pairs(
            tokenizer,
            messages_of(entry),
            max_turns,
            output_len_override,
            turns,
        );
        let next = match conversation {
            Some(conversation) => taken.push(conversation),
            None => taken,
        };
        assert forall|c: int, t: int|
            0 <= c < next.len() && 0 <= t < next[c].turns.len() implies (tokenizer.encoded(
            (#[trigger] next[c].turns[t]).user_message,
            false,
        ) matches Ok(tokens) && next[c].turns[t].user_message_len == tokens.len()) by {
            if c < taken.len() {
                assert(next[c].turns[t] == taken[c].turns[t]);
            } else {
                assert(next[c].turns[t] == turns[t]);
            }
        }
        lemma_taken_are_counted_in_tokens(
            tokenizer,
            entries,
            order,
            k + 1,
            next,
            num_conversations,
            max_turns,
            output_len_override,
            request_id_prefix,
            all,
        );
    }
}

/// Every message of every loaded conversation, copies included, has as its length the number of
/// tokens that it encodes to without special tokens.
pub proof fn law_loaded_messages_are_counted_in_tokens(
    tokenizer: TokenizerModel,
    parsed: Result<JsonView, Seq<char>>,
    num_conversations: nat,
    output_len_override: Option<usize>,
    max_turns: Option<usize>,
    seed: u64,
    request_id_prefix: Seq<char>,
    load: ShareGptLoadView,
    c: int,
    t: int,
)
    requires
        tokenizer.countable(),
        num_conversations <= usize::MAX,
        load_of(
            tokenizer,
            parsed,
            num_conversations,
            output_len_override,
            max_turns,
            seed,
            request_id_prefix,
        ) == Ok::<ShareGptLoadView, BenchErrorView>(load),
        0 <= c < load.conversations.len(),
        0 <= t < load.conversations[c].turns.len(),
    ensures
        tokenizer.encoded(load.conversations[c].turns[t].user_message, false) matches Ok(tokens)
            && load.conversations[c].turns[t].user_message_len == tokens.len(),
{
    let entries = parsed->Ok_0.items()->0;
    let (order, words) = taking_order(entries, seed);
    let taken = taken_from(
        tokenizer,
        entries,
        order,
        0,
        Seq::empty(),
        num_conversations,
        max_turns,
        output_len_override,
        request_id_prefix,
    )->Ok_0;
    lemma_taken_are_counted_in_tokens(
        tokenizer,
        entries,
        order,
        0,
        Seq::empty(),
        num_conversations,
        max_turns,
        output_len_override,
        request_id_prefix,
        taken,
    );
    let needed = (num_conversations - taken.len()) as nat;
    let places = next_many(words, 0, last_index(taken.len()), needed).0;
    law_draws_lie_in_range(words, 0, last_index(taken.len()), needed);
    if c < taken.len() {
        assert(load.conversations[c].turns[t] == taken[c].turns[t]);
    } else {
        let o = places[c - taken.len()] as int;
        assert(load.conversations[c].turns == taken[o].turns);
        assert(load.conversations[c].turns[t] == taken[o].turns[t]);
    }
}

/// The usable places up to number `k` are those of the order that make at least two turns.
proof fn lemma_usable_places_are_filtered(
    entries: Seq<JsonView>,
    order: Seq<usize>,
    k: nat,
    max_turns: Option<usize>,
)
    requires
        k <= order.len(),
    ensures
        usable_places(entries, order, k, max_turns) == order.take(k as int).filter(
            |p: usize| turn_count(messages_of(entries[p as int]), max_turns) >= 2,
        ),
    decreases k,
{
    reveal(Seq::filter);
    if k == 0 {
        assert(order.take(0) =~= Seq::<usize>::empty());
    } else {
        lemma_usable_places_are_filtered(entries, order, (k - 1) as nat, max_turns);
        assert(order.take(k as int).drop_last() =~= order.take(k - 1));
    }
}

/// Entries are taken in the order that the generator shuffles the eligible places into, those
/// that make at least two turns, until there are as many conversations as were asked for.
pub proof fn law_conversations_are_the_first_usable_entries(
    tokenizer: TokenizerModel,
    entries: Seq<JsonView>,
    num_conversations: nat,
    output_len_override: Option<usize>,
    max_turns: Option<usize>,
    seed: u64,
    request_id_prefix: Seq<char>,
    load: ShareGptLoadView,
    c: int,
)
    requires
        1 <= num_conversations <= usize::MAX,
        load_entries_of(
            tokenizer,
            entries,
            num_conversations,
            output_len_override,
            max_turns,
            seed,
            request_id_prefix,
        ) == Ok::<ShareGptLoadView, BenchErrorView>(load),
        0 <= c < num_conversations,
    ensures
        ({
            let (order, rest) = next_order(
                seeded_words(seed),
                eligible_places_of(entries, entries.len()),
            );
            let chosen = order.filter(
                |p: usize| turn_count(messages_of(entries[p as int]), max_turns) >= 2,
            );
            let copied = next_many(
                rest,
                0,
                (load.original_len - 1) as usize,
                (num_conversations - load.original_len) as nat,
            ).0;
            &&& load.conversations.len() == num_conversations
            &&& load.original_len == (if chosen.len() <= num_conversations {
                chosen.len()
            } else {
                num_conversations
            })
            &&& load.conversations[c].conversation_id == request_id_prefix + "conv-"@ + decimal(
                c as nat,
            )
            &&& c < load.original_len ==> entry_turns_of(
                tokenizer,
                messages_of(entries[chosen[c] as int]),
                max_turns,
                output_len_override,
            ) == Ok::<Seq<TurnView>, BenchErrorView>(load.conversations[c].turns)
            &&& c >= load.original_len ==> copied[c - load.original_len] < load.original_len
                && load.conversations[c].turns == load.conversations[copied[c
                - load.original_len] as int].turns
        }),
{
    let (order, rest) = taking_order(entries, seed);
    lemma_usable_places_are_filtered(entries, order, order.len(), max_turns);
    assert(order.take(order.len() as int) =~= order);
    let none = Seq::<ConversationView>::empty();
    let all = taken_from(
        tokenizer,
        entries,
        order,
        0,
        none,
        num_conversations,
        max_turns,
        output_len_override,
        request_id_prefix,
    )->Ok_0;
    lemma_taken_are_the_first(
        tokenizer,
        entries,
        order,
        0,
        none,
        num_conversations,
        max_turns,
        output_len_override,
        request_id_prefix,
        all,
    );
    let needed = (num_conversations - all.len()) as nat;
    law_draws_lie_in_range(rest, 0, last_index(all.len()), needed);
    let copied = next_many(rest, 0, last_index(all.len()), needed).0;
    if c >= all.len() {
        let o = copied[c - all.len()] as int;
        assert(load.conversations[o].turns == all[o].turns);
        assert(load.conversations[c].turns == all[o].turns);
    } else {
        assert(load.conversations[c] == all[c]);
    }
}

/// Taken conversations are numbered, come from the usable entries in order, and are as many as
/// there are or were asked for.
proof fn lemma_taken_are_the_first(
    tokenizer: TokenizerModel,
    entries: Seq<JsonView>,
    order: Seq<usize>,
    k: nat,
    taken: Seq<ConversationView>,
    num_conversations: nat,
    max_turns: Option<usize>,
    output_len_override: Option<usize>,
    request_id_prefix: Seq<char>,
    all: Seq<ConversationView>,
)
    requires
        k <= order.len(),
        taken.len() <= num_conversations,
        taken.len() == usable_places(entries, order, k, max_turns).len(),
        forall|c: int|
            0 <= c < taken.len() ==> (#[trigger] taken[c]).conversation_id == request_id_prefix
                + "conv-"@ + decimal(c as nat) && entry_turns_of(
                tokenizer,
                messages_of(entries[usable_places(entries, order, k, max_turns)[c] as int]),
                max_turns,
                output_len_override,
            ) == Ok::<Seq<TurnView>, BenchErrorView>(taken[c].turns),
        taken_from(
            tokenizer,
            entries,
            order,
            k,
            taken,
            num_conversations,
            max_turns,
            output_len_override,
            request_id_prefix,
        ) == Ok::<Seq<ConversationView>, BenchErrorView>(all),
    ensures
        ({
            let places = usable_places(entries, order, order.len(), max_turns);
            all.len() == (if places.len() <= num_conversations {
                places.len()
            } else {
                num_conversations
            })
        }),
        forall|c: int|
            0 <= c < all.len() ==> (#[trigger] all[c]).conversation_id == request_id_prefix
                + "conv-"@ + decimal(c as nat) && entry_turns_of(
                tokenizer,
                messages_of(
                    entries[usable_places(entries, order, order.len(), max_turns)[c] as int],
                ),
                max_turns,
                output_len_override,
            ) == Ok::<Seq<TurnView>, BenchErrorView>(all[c].turns),
    decreases order.len() - k,
{
    let places = usable_places(entries, order, k, max_turns);
    let all_places = usable_places(entries, order, order.len(), max_turns);
    lemma_usable_places_grow(entries, order, k, order.len(), max_turns);
    assert forall|c: int| 0 <= c < places.len() implies #[trigger] all_places[c] == places[c] by {
        assert(all_places.take(places.len() as int)[c] == places[c]);
    }
    if k < order.len() && taken.len() < num_conversations {
        let entry = entries[order[k as int] as int];
        let conversation = entry_conversation_of(
            tokenizer,
            entry,
            taken.len(),
            max_turns,
            output_len_override,
            request_id_prefix,
        )->Ok_0;
        lemma_turns_are_counted(
            tokenizer,
            messages_of(entry),
            0,
            Seq::empty(),
            max_turns,
            output_len_override,
        );
        let next = match conversation {
            Some(conversation) => taken.push(conversation),
            None => taken,
        };
        lemma_taken_are_the_first(
            tokenizer,
            entries,
            order,
            k + 1,
            next,
            num_conversations,
            max_turns,
            output_len_override,
            request_id_prefix,
            all,
        );
    }
}

/// What is loaded from a text is what is loaded from the entries of its array.
pub proof fn law_arrays_are_loaded_by_their_entries(
    tokenizer: TokenizerModel,
    entries: Seq<JsonView>,
    num_conversations: nat,
    output_len_override: Option<usize>,
    max_turns: Option<usize>,
    seed: u64,
    request_id_prefix: Seq<char>,
)
    ensures
        load_of(
            tokenizer,
            Ok(JsonView::Array(entries)),
            num_conversations,
            output_len_override,
            max_turns,
            seed,
            request_id_prefix,
        ) == load_entries_of(
            tokenizer,
            entries,
            num_conversations,
            output_len_override,
            max_turns,
            seed,
            request_id_prefix,
        ),
{
}

/// Where loading fails, the dataset is refused, or the tokenizer failed so.
pub proof fn law_loading_fails_as_the_tokenizer_does(
    tokenizer: TokenizerModel,
    parsed: Result<JsonView, Seq<char>>,
    num_conversations: nat,
    output_len_override: Option<usize>,
    max_turns: Option<usize>,
    seed: u64,
    request_id_prefix: Seq<char>,
    error: BenchErrorView,
)
    requires
        load_of(
            tokenizer,
            parsed,
            num_conversations,
            output_len_override,
            max_turns,
            seed,
            request_id_prefix,
        ) == Err::<ShareGptLoadView, BenchErrorView>(error),
    ensures
        ({
            ||| exists|text: Seq<char>|
                (#[trigger] tokenizer.encoded(text, false)) == Err::<Seq<u32>, BenchErrorView>(
                    error,
                )
            ||| (parsed matches Err(description) && error == BenchErrorView::Config(
                "Invalid JSON in ShareGPT file: "@ + description,
            ))
            ||| error == BenchErrorView::Config("ShareGPT file must contain a JSON array"@)
            ||| error == BenchErrorView::Config(
                "No valid multi-turn entries in ShareGPT file (need at least 4 messages per entry)"@,
            )
            ||| error == BenchErrorView::Config(
                "No valid multi-turn conversations after filtering ShareGPT dataset."@,
            )
        }),
{
    if parsed is Ok && parsed->Ok_0.items() is Some {
        let entries = parsed->Ok_0.items()->0;
        let (order, _) = taking_order(entries, seed);
        let taken = taken_from(
            tokenizer,
            entries,
            order,
            0,
            Seq::empty(),
            num_conversations,
            max_turns,
            output_len_override,
            request_id_prefix,
        );
        if taken is Err {
            lemma_taking_fails_as_the_tokenizer(
                tokenizer,
                entries,
                order,
                0,
                Seq::empty(),
                num_conversations,
                max_turns,
                output_len_override,
                request_id_prefix,
                taken->Err_0,
            );
        }
    }
}

/// Walking an entry fails as the tokenizer does.
proof fn lemma_walking_fails_as_the_tokenizer(
    tokenizer: TokenizerModel,
    messages: Seq<JsonView>,
    i: nat,
    turns: Seq<TurnView>,
    max_turns: Option<usize>,
    output_len_override: Option<usize>,
    error: BenchErrorView,
)
    requires
        turns_from(tokenizer, messages, i, turns, max_turns, output_len_override) == Err::<
            Seq<TurnView>,
            BenchErrorView,
        >(error),
    ensures
        exists|text: Seq<char>|
            (#[trigger] tokenizer.encoded(text, false)) == Err::<Seq<u32>, BenchErrorView>(error),
    decreases messages.len() - i,
{
    if opens_turn(messages, i) {
        let exchange = exchange_of(
            tokenizer,
            text_member_of(messages[i as int], "value"@),
            text_member_of(messages[i as int + 1], "value"@),
            output_len_override,
        );
        if exchange is Ok {
            lemma_walking_fails_as_the_tokenizer(
                tokenizer,
                messages,
                i + 2,
                turns.push(exchange->Ok_0),
                max_turns,
                output_len_override,
                error,
            );
        }
    } else {
        lemma_walking_fails_as_the_tokenizer(
            tokenizer,
            messages,
            i + 1,
            turns,
            max_turns,
            output_len_override,
            error,
        );
    }
}

/// Taking conversations fails as the tokenizer does.
proof fn lemma_taking_fails_as_the_tokenizer(
    tokenizer: TokenizerModel,
    entries: Seq<JsonView>,
    order: Seq<usize>,
    k: nat,
    taken: Seq<ConversationView>,
    num_conversations: nat,
    max_turns: Option<usize>,
    output_len_override: Option<usize>,
    request_id_prefix: Seq<char>,
    error: BenchErrorView,
)
    requires
        taken_from(
            tokenizer,
            entries,
            order,
            k,
            taken,
            num_conversations,
            max_turns,
            output_len_override,
            request_id_prefix,
        ) == Err::<Seq<ConversationView>, BenchErrorView>(error),
    ensures
        exists|text: Seq<char>|
            (#[trigger] tokenizer.encoded(text, false)) == Err::<Seq<u32>, BenchErrorView>(error),
    decreases order.len() - k,
{
    let entry = entries[order[k as int] as int];
    let made = entry_conversation_of(
        tokenizer,
        entry,
        taken.len(),
        max_turns,
        output_len_override,
        request_id_prefix,
    );
    if made is Err {
        lemma_walking_fails_as_the_tokenizer(
            tokenizer,
            messages_of(entry),
            0,
            Seq::empty(),
            max_turns,
            output_len_override,
            error,
        );
    } else {
        lemma_taking_fails_as_the_tokenizer(
            tokenizer,
            entries,
            order,
            k + 1,
            match made->Ok_0 {
                Some(conversation) => taken.push(conversation),
                None => taken,
            },
            num_conversations,
            max_turns,
            output_len_override,
            request_id_prefix,
            error,
        );
    }
}

/// Entries are walked in the order that the generator shuffles the eligible places into, for as
/// long as fewer conversations than were asked for are taken. The first one whose walk fails
/// fails the loading with its error; where none does, the loading succeeds if some entry was
/// taken.
pub proof fn law_loading_fails_at_the_first_failing_entry(
    tokenizer: TokenizerModel,
    entries: Seq<JsonView>,
    num_conversations: nat,
    output_len_override: Option<usize>,
    max_turns: Option<usize>,
    seed: u64,
    request_id_prefix: Seq<char>,
) -> (n: int)
    requires
        1 <= num_conversations <= usize::MAX,
        eligible_places_of(entries, entries.len()).len() > 0,
    ensures
        ({
            let order = next_order(
                seeded_words(seed),
                eligible_places_of(entries, entries.len()),
            ).0;
            let chosen = order.take(n).filter(
                |p: usize| turn_count(messages_of(entries[p as int]), max_turns) >= 2,
            );
            let load = load_entries_of(
                tokenizer,
                entries,
                num_conversations,
                output_len_override,
                max_turns,
                seed,
                request_id_prefix,
            );
            &&& 0 <= n <= order.len()
            &&& forall|k: int|
                0 <= k < n ==> entry_turns_of(
                    tokenizer,
                    messages_of(entries[#[trigger] order[k] as int]),
                    max_turns,
                    output_len_override,
                ) is Ok
            &&& chosen.len() <= num_conversations
            &&& if chosen.len() < num_conversations && n < order.len() {
                entry_turns_of(
                    tokenizer,
                    messages_of(entries[order[n] as int]),
                    max_turns,
                    output_len_override,
                ) matches Err(error) && load == Err::<ShareGptLoadView, BenchErrorView>(error)
            } else if chosen.len() == 0 {
                load == Err::<ShareGptLoadView, BenchErrorView>(
                    BenchErrorView::Config(
                        "No valid multi-turn conversations after filtering ShareGPT dataset."@,
                    ),
                )
            } else {
                load is Ok && load->Ok_0.original_len == chosen.len()
            }
        }),
{
    let (order, _) = taking_order(entries, seed);
    let n = lemma_taking_goes_on(
        tokenizer,
        entries,
        order,
        0,
        Seq::empty(),
        num_conversations,
        max_turns,
        output_len_override,
        request_id_prefix,
    );
    lemma_usable_places_are_filtered(entries, order, n as nat, max_turns);
    n
}

/// How far the entries are walked from place `k` on.
proof fn lemma_taking_goes_on(
    tokenizer: TokenizerModel,
    entries: Seq<JsonView>,
    order: Seq<usize>,
    k: nat,
    taken: Seq<ConversationView>,
    num_conversations: nat,
    max_turns: Option<usize>,
    output_len_override: Option<usize>,
    request_id_prefix: Seq<char>,
) -> (n: int)
    requires
        k <= order.len(),
        taken.len() <= num_conversations,
        taken.len() == usable_places(entries, order, k, max_turns).len(),
    ensures
        k <= n <= order.len(),
        forall|j: int|
            k <= j < n ==> entry_turns_of(
                tokenizer,
                messages_of(entries[#[trigger] order[j] as int]),
                max_turns,
                output_len_override,
            ) is Ok,
        usable_places(entries, order, n as nat, max_turns).len() <= num_conversations,
        ({
            let chosen = usable_places(entries, order, n as nat, max_turns).len();
            let all = taken_from(
                tokenizer,
                entries,
                order,
                k,
                taken,
                num_conversations,
                max_turns,
                output_len_override,
                request_id_prefix,
            );
            if chosen < num_conversations && n < order.len() {
                entry_turns_of(
                    tokenizer,
                    messages_of(entries[order[n] as int]),
                    max_turns,
                    output_len_override,
                ) matches Err(error) && all == Err::<Seq<ConversationView>, BenchErrorView>(error)
            } else {
                all matches Ok(all) && all.len() == chosen
            }
        }),
    decreases order.len() - k,
{
    if k >= order.len() || taken.len() >= num_conversations {
        k as int
    } else {
        let entry = entries[order[k as int] as int];
        let made = entry_conversation_of(
            tokenizer,
            entry,
            taken.len(),
            max_turns,
            output_len_override,
            request_id_prefix,
        );
        if made is Err {
            k as int
        } else {
            lemma_turns_are_counted(
                tokenizer,
                messages_of(entry),
                0,
                Seq::empty(),
                max_turns,
                output_len_override,
            );
            lemma_taking_goes_on(
                tokenizer,
                entries,
                order,
                k + 1,
                match made->Ok_0 {
                    Some(conversation) => taken.push(conversation),
                    None => taken,
                },
                num_conversations,
                max_turns,
                output_len_override,
                request_id_prefix,
            )
        }
    }
}

/// A dataset is refused outright for its form, for want of entries with 4 messages, and for want
/// of entries that make a turn or of wanted conversations, and for nothing else.
pub proof fn law_datasets_are_refused_outright(
    entries: Seq<JsonView>,
    num_conversations: nat,
    max_turns: Option<usize>,
    p: int,
    description: Seq<char>,
    data: JsonView,
)
    requires
        entries.len() <= usize::MAX,
        !(data is Array),
    ensures
        outright_refusal(Err(description), num_conversations, max_turns) == Some(
            BenchErrorView::Config("Invalid JSON in ShareGPT file: "@ + description),
        ),
        outright_refusal(Ok(data), num_conversations, max_turns) == Some(
            BenchErrorView::Config("ShareGPT file must contain a JSON array"@),
        ),
        num_conversations > 0 && 0 <= p < entries.len() && (entries[p].member(
            "conversations"@,
        ) matches Some(JsonView::Array(items)) && items.len() >= 4 && turn_count(items, max_turns)
            > 0) ==> outright_refusal(
            Ok(JsonView::Array(entries)),
            num_conversations,
            max_turns,
        ) is None,
        (forall|q: int|
            0 <= q < entries.len() ==> ((#[trigger] entries[q]).member(
                "conversations"@,
            ) matches Some(JsonView::Array(items)) ==> items.len() < 4)) ==> outright_refusal(
            Ok(JsonView::Array(entries)),
            num_conversations,
            max_turns,
        ) == Some(
            BenchErrorView::Config(
                "No valid multi-turn entries in ShareGPT file (need at least 4 messages per entry)"@,
            ),
        ),
        0 <= p < entries.len() && (entries[p].member("conversations"@) matches Some(
            JsonView::Array(items),
        ) && items.len() >= 4) && (num_conversations == 0 || (forall|q: int|
            0 <= q < entries.len() ==> ((#[trigger] entries[q]).member(
                "conversations"@,
            ) matches Some(JsonView::Array(items)) ==> items.len() < 4 || turn_count(
                items,
                max_turns,
            ) == 0))) ==> outright_refusal(
            Ok(JsonView::Array(entries)),
            num_conversations,
            max_turns,
        ) == Some(
            BenchErrorView::Config(
                "No valid multi-turn conversations after filtering ShareGPT dataset."@,
            ),
        ),
{
    let places = eligible_places_of(entries, entries.len());
    law_eligible_places(entries, entries.len());
    if 0 <= p < entries.len() && eligible(entries[p]) {
        assert(places.contains(p as usize));
        if turn_count(messages_of(entries[p]), max_turns) > 0 {
            assert(has_turns(entries, max_turns));
        }
    }
    if places.len() > 0 {
        assert(places.contains(places[0]));
        assert(eligible(entries[places[0] as int]));
    }
}

/// Text that is not JSON, and JSON that is not an array, load nothing and say so; nor does a
/// dataset without an entry of 4 messages, nor one of which no conversation is wanted.
pub proof fn law_bad_datasets_load_nothing(
    tokenizer: TokenizerModel,
    description: Seq<char>,
    data: JsonView,
    entries: Seq<JsonView>,
    num_conversations: nat,
    output_len_override: Option<usize>,
    max_turns: Option<usize>,
    seed: u64,
    request_id_prefix: Seq<char>,
)
    requires
        !(data is Array),
        entries.len() <= usize::MAX,
    ensures
        load_of(
            tokenizer,
            Err(description),
            num_conversations,
            output_len_override,
            max_turns,
            seed,
            request_id_prefix,
        ) == Err::<ShareGptLoadView, BenchErrorView>(
            BenchErrorView::Config("Invalid JSON in ShareGPT file: "@ + description),
        ),
        load_of(
            tokenizer,
            Ok(data),
            num_conversations,
            output_len_override,
            max_turns,
            seed,
            request_id_prefix,
        ) == Err::<ShareGptLoadView, BenchErrorView>(
            BenchErrorView::Config("ShareGPT file must contain a JSON array"@),
        ),
        (forall|q: int|
            0 <= q < entries.len() ==> ((#[trigger] entries[q]).member(
                "conversations"@,
            ) matches Some(JsonView::Array(items)) ==> items.len() < 4)) ==> load_of(
            tokenizer,
            Ok(JsonView::Array(entries)),
            num_conversations,
            output_len_override,
            max_turns,
            seed,
            request_id_prefix,
        ) == Err::<ShareGptLoadView, BenchErrorView>(
            BenchErrorView::Config(
                "No valid multi-turn entries in ShareGPT file (need at least 4 messages per entry)"@,
            ),
        ),
        (exists|q: int|
            0 <= q < entries.len() && ((#[trigger] entries[q]).member(
                "conversations"@,
            ) matches Some(JsonView::Array(items)) && items.len() >= 4)) ==> load_of(
            tokenizer,
            Ok(JsonView::Array(entries)),
            0,
            output_len_override,
            max_turns,
            seed,
            request_id_prefix,
        ) == Err::<ShareGptLoadView, BenchErrorView>(
            BenchErrorView::Config(
                "No valid multi-turn conversations after filtering ShareGPT dataset."@,
            ),
        ),
{
    let places = eligible_places_of(entries, entries.len());
    law_eligible_places(entries, entries.len());
    if places.len() > 0 {
        assert(places.contains(places[0]));
        assert(eligible(entries[places[0] as int]));
    }
    if exists|q: int| 0 <= q < entries.len() && eligible(#[trigger] entries[q]) {
        let q = choose|q: int| 0 <= q < entries.len() && eligible(#[trigger] entries[q]);
        assert(places.contains(q as usize));
    }
    if exists|q: int|
        0 <= q < entries.len() && ((#[trigger] entries[q]).member(
            "conversations"@,
        ) matches Some(JsonView::Array(items)) && items.len() >= 4) {
        let q = choose|q: int|
            0 <= q < entries.len() && ((#[trigger] entries[q]).member(
                "conversations"@,
            ) matches Some(JsonView::Array(items)) && items.len() >= 4);
        assert(eligible(entries[q]));
    }
}

} // verus!
