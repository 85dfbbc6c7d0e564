//! What holds of conversations from a ShareGPT dataset.
use vstd::prelude::*;
use crate::datasets::draws::last_index;
use crate::datasets::json::JsonView;
use crate::datasets::sharegpt::{
    ShareGptLoadView, eligible, eligible_places_of, enough_turns, entry_conversation_of,
    entry_turns_of, exchange_of, law_eligible_places, lemma_same_members, load_entries_of, load_of,
    messages_of, opens_turn, sized, taken_from, taking_order, text_member_of, turn_count,
    turn_count_from, turns_from, usable, well_loaded, with_copies_of,
};
use crate::datasets::{ConversationView, TurnView, law_ids_are_distinct};
use crate::error::BenchErrorView;
use crate::rng::{
    law_draws_go_on, law_draws_lie_in_range, law_order_is_a_permutation, next_many, seeded_words,
};
use crate::tokenizer::TokenizerModel;

verus! {

/// The first `max` turns.
pub open spec fn first_turns(turns: Seq<TurnView>, max: usize) -> Seq<TurnView> {
    if turns.len() <= max {
        turns
    } else {
        turns.take(max as int)
    }
}

/// Messages that come in pairs of a person's message and a reply make a turn of each pair, up to
/// as many as were asked for.
pub proof fn law_pairs_make_turns(messages: Seq<JsonView>, pairs: nat, max_turns: Option<usize>)
    requires
        messages.len() == 2 * pairs,
        forall|j: nat| j < pairs ==> #[trigger] opens_turn(messages, 2 * j),
    ensures
        turn_count(messages, max_turns) == (match max_turns {
            Some(max) => if pairs <= max {
                pairs
            } else {
                max as nat
            },
            None => pairs,
        }),
{
    lemma_pairs_make_turns_from(messages, pairs, 0, max_turns);
}

/// The pairs from number `j` on make a turn each, up to as many as were asked for.
proof fn lemma_pairs_make_turns_from(
    messages: Seq<JsonView>,
    pairs: nat,
    j: nat,
    max_turns: Option<usize>,
)
    requires
        messages.len() == 2 * pairs,
        forall|k: nat| k < pairs ==> #[trigger] opens_turn(messages, 2 * k),
        j <= pairs,
        max_turns matches Some(max) ==> j <= max,
    ensures
        turn_count_from(messages, 2 * j, j, max_turns) == (match max_turns {
            Some(max) => if pairs <= max {
                pairs
            } else {
                max as nat
            },
            None => pairs,
        }),
    decreases pairs - j,
{
    if j < pairs && !enough_turns(j, max_turns) {
        assert(opens_turn(messages, 2 * j));
        lemma_pairs_make_turns_from(messages, pairs, j + 1, max_turns);
        assert(2 * (j + 1) == 2 * j + 2);
    }
}

/// A message that is not a person's, or says nothing, is skipped.
pub proof fn law_other_messages_are_skipped(
    messages: Seq<JsonView>,
    i: nat,
    count: nat,
    max_turns: Option<usize>,
)
    requires
        i < messages.len(),
        text_member_of(messages[i as int], "from"@) != "human"@ || text_member_of(
            messages[i as int],
            "value"@,
        ).len() == 0,
    ensures
        turn_count_from(messages, i, count, max_turns) == turn_count_from(
            messages,
            i + 1,
            count,
            max_turns,
        ),
{
}

/// Turns that come before are kept, and a bound on turns leaves the first ones of the unbounded
/// walk.
proof fn lemma_max_turns_from(
    tokenizer: TokenizerModel,
    messages: Seq<JsonView>,
    i: nat,
    turns: Seq<TurnView>,
    max: usize,
    output_len_override: Option<usize>,
)
    requires
        turns.len() <= max,
    ensures
        turns_from(tokenizer, messages, i, turns, None, output_len_override) matches Ok(all)
            ==> turns.is_prefix_of(all) && turns_from(
            tokenizer,
            messages,
            i,
            turns,
            Some(max),
            output_len_override,
        ) == Ok::<Seq<TurnView>, BenchErrorView>(first_turns(all, max)),
    decreases messages.len() - i,
{
    if i + 1 < messages.len() {
        if opens_turn(messages, i) {
            if let Ok(turn) = exchange_of(
                tokenizer,
                text_member_of(messages[i as int], "value"@),
                text_member_of(messages[i as int + 1], "value"@),
                output_len_override,
            ) {
                let more = turns.push(turn);
                let rest = turns_from(tokenizer, messages, i + 2, more, None, output_len_override);
                if turns.len() < max {
                    lemma_max_turns_from(
                        tokenizer,
                        messages,
                        i + 2,
                        more,
                        max,
                        output_len_override,
                    );
                } else {
                    lemma_turns_are_kept(tokenizer, messages, i + 2, more, output_len_override);
                }
                if rest is Ok {
                    let all = rest->Ok_0;
                    assert(all.take(turns.len() as int) =~= all.take(more.len() as int).take(
                        turns.len() as int,
                    ));
                    assert(more.take(turns.len() as int) =~= turns);
                }
            }
        } else if turns.len() < max {
            lemma_max_turns_from(tokenizer, messages, i + 1, turns, max, output_len_override);
        } else {
            lemma_turns_are_kept(tokenizer, messages, i + 1, turns, output_len_override);
        }
    }
    if let Ok(all) = turns_from(tokenizer, messages, i, turns, None, output_len_override) {
        if turns.len() == max {
            assert(all.take(max as int) =~= turns);
            if all.len() == max {
                assert(all =~= turns);
            }
        }
    }
}

/// Walking on keeps the turns that there are.
proof fn lemma_turns_are_kept(
    tokenizer: TokenizerModel,
    messages: Seq<JsonView>,
    i: nat,
    turns: Seq<TurnView>,
    output_len_override: Option<usize>,
)
    ensures
        turns_from(tokenizer, messages, i, turns, None, output_len_override) matches Ok(all)
            ==> turns.is_prefix_of(all),
    decreases messages.len() - i,
{
    if i + 1 < messages.len() {
        if opens_turn(messages, i) {
            if let Ok(turn) = exchange_of(
                tokenizer,
                text_member_of(messages[i as int], "value"@),
                text_member_of(messages[i as int + 1], "value"@),
                output_len_override,
            ) {
                let more = turns.push(turn);
                lemma_turns_are_kept(tokenizer, messages, i + 2, more, output_len_override);
                let rest = turns_from(tokenizer, messages, i + 2, more, None, output_len_override);
                if rest is Ok {
                    let all = rest->Ok_0;
                    assert(all.take(turns.len() as int) =~= all.take(more.len() as int).take(
                        turns.len() as int,
                    ));
                    assert(more.take(turns.len() as int) =~= turns);
                }
            }
        } else {
            lemma_turns_are_kept(tokenizer, messages, i + 1, turns, output_len_override);
        }
    }
}

/// A bound on turns leaves the first turns of the unbounded walk.
pub proof fn law_max_turns_leaves_the_first(
    tokenizer: TokenizerModel,
    messages: Seq<JsonView>,
    max: usize,
    output_len_override: Option<usize>,
    all: Seq<TurnView>,
)
    requires
        entry_turns_of(tokenizer, messages, None, output_len_override) == Ok::<
            Seq<TurnView>,
            BenchErrorView,
        >(all),
    ensures
        entry_turns_of(tokenizer, messages, Some(max), output_len_override) == Ok::<
            Seq<TurnView>,
            BenchErrorView,
        >(first_turns(all, max)),
{
    lemma_max_turns_from(tokenizer, messages, 0, Seq::empty(), max, output_len_override);
}

/// No two loaded conversations have the same identifier.
pub proof fn law_loaded_ids_are_distinct(
    load: ShareGptLoadView,
    num_conversations: nat,
    output_len_override: Option<usize>,
    max_turns: Option<usize>,
    request_id_prefix: Seq<char>,
    i: int,
    j: int,
)
    requires
        well_loaded(load, num_conversations, output_len_override, max_turns, request_id_prefix),
        0 <= i < j < num_conversations,
    ensures
        load.conversations[i].conversation_id != load.conversations[j].conversation_id,
{
    law_ids_are_distinct(request_id_prefix, i as nat, j as nat);
}

/// Every eligible entry stands in the taking order once, and no other does.
pub proof fn law_entries_are_taken_once(entries: Seq<JsonView>, seed: u64)
    requires
        entries.len() <= usize::MAX,
    ensures
        taking_order(entries, seed).0.to_multiset() == eligible_places_of(
            entries,
            entries.len(),
        ).to_multiset(),
        taking_order(entries, seed).0.no_duplicates(),
        forall|p: usize| #[trigger]
            taking_order(entries, seed).0.contains(p) <==> p < entries.len() && eligible(
                entries[p as int],
            ),
{
    let places = eligible_places_of(entries, entries.len());
    let order = taking_order(entries, seed).0;
    law_order_is_a_permutation(seeded_words(seed), places);
    lemma_same_members(order, places);
    law_eligible_places(entries, entries.len());
    lemma_places_ascend(entries, entries.len());
    places.lemma_multiset_has_no_duplicates();
    order.lemma_multiset_has_no_duplicates_conv();
}

/// Eligible places are listed in ascending order.
pub(crate) proof fn lemma_places_ascend(entries: Seq<JsonView>, n: nat)
    requires
        n <= entries.len() <= usize::MAX,
    ensures
        forall|i: int, j: int|
            0 <= i < j < eligible_places_of(entries, n).len() ==> #[trigger] eligible_places_of(
                entries,
                n,
            )[i] < #[trigger] eligible_places_of(entries, n)[j],
    decreases n,
{
    if n > 0 {
        let before = eligible_places_of(entries, (n - 1) as nat);
        lemma_places_ascend(entries, (n - 1) as nat);
        law_eligible_places(entries, (n - 1) as nat);
        assert forall|i: int| 0 <= i < before.len() implies #[trigger] before[i] < n - 1 by {
            assert(before.contains(before[i]));
        }
    }
}

/// `conversation` with its turns changed by `change`.
pub open spec fn with_turns(
    conversation: ConversationView,
    change: spec_fn(Seq<TurnView>) -> Seq<TurnView>,
) -> ConversationView {
    ConversationView { turns: change(conversation.turns), ..conversation }
}

/// `conversations` with the turns of each changed by `change`.
pub open spec fn all_with_turns(
    conversations: Seq<ConversationView>,
    change: spec_fn(Seq<TurnView>) -> Seq<TurnView>,
) -> Seq<ConversationView> {
    conversations.map_values(|c: ConversationView| with_turns(c, change))
}

/// `load` with the turns of each conversation changed by `change`.
pub open spec fn load_with_turns(
    load: ShareGptLoadView,
    change: spec_fn(Seq<TurnView>) -> Seq<TurnView>,
) -> ShareGptLoadView {
    ShareGptLoadView { conversations: all_with_turns(load.conversations, change), ..load }
}

/// Going over from one pair of options to another changes the turns of every entry by `change`,
/// which leaves two turns where there were two.
spec fn options_change(
    tokenizer: TokenizerModel,
    max_turns: Option<usize>,
    output_len_override: Option<usize>,
    other_max: Option<usize>,
    other_override: Option<usize>,
    change: spec_fn(Seq<TurnView>) -> Seq<TurnView>,
) -> bool {
    forall|messages: Seq<JsonView>|
        (#[trigger] entry_turns_of(
            tokenizer,
            messages,
            max_turns,
            output_len_override,
        )) matches Ok(turns) ==> {
            &&& entry_turns_of(tokenizer, messages, other_max, other_override) == Ok::<
                Seq<TurnView>,
                BenchErrorView,
            >(change(turns))
            &&& change(turns).len() >= 2 <==> turns.len() >= 2
        }
}

/// Changed options change the conversations that are taken, and nothing else.
proof fn lemma_options_change_taken(
    tokenizer: TokenizerModel,
    entries: Seq<JsonView>,
    order: Seq<usize>,
    k: nat,
    taken: Seq<ConversationView>,
    num_conversations: nat,
    max_turns: Option<usize>,
    output_len_override: Option<usize>,
    other_max: Option<usize>,
    other_override: Option<usize>,
    request_id_prefix: Seq<char>,
    change: spec_fn(Seq<TurnView>) -> Seq<TurnView>,
)
    requires
        taken.len() <= num_conversations,
        options_change(
            tokenizer,
            max_turns,
            output_len_override,
            other_max,
            other_override,
            change,
        ),
    ensures
        taken_from(
            tokenizer,
            entries,
            order,
            k,
            taken,
            num_conversations,
            max_turns,
            output_len_override,
            request_id_prefix,
        ) matches Ok(all) ==> all.len() <= num_conversations && taken_from(
            tokenizer,
            entries,
            order,
            k,
            all_with_turns(taken, change),
            num_conversations,
            other_max,
            other_override,
            request_id_prefix,
        ) == Ok::<Seq<ConversationView>, BenchErrorView>(all_with_turns(all, change)),
    decreases order.len() - k,
{
    if k < order.len() && taken.len() < num_conversations {
        let entry = entries[order[k as int] as int];
        if let Ok(conversation) = entry_conversation_of(
            tokenizer,
            entry,
            taken.len(),
            max_turns,
            output_len_override,
            request_id_prefix,
        ) {
            let turns = entry_turns_of(
                tokenizer,
                messages_of(entry),
                max_turns,
                output_len_override,
            )->Ok_0;
            let next = match conversation {
                Some(conversation) => taken.push(conversation),
                None => taken,
            };
            if conversation is Some {
                assert(all_with_turns(next, change) =~= all_with_turns(taken, change).push(
                    with_turns(conversation->0, change),
                ));
            }
            lemma_options_change_taken(
                tokenizer,
                entries,
                order,
                k + 1,
                next,
                num_conversations,
                max_turns,
                output_len_override,
                other_max,
                other_override,
                request_id_prefix,
                change,
            );
        }
    }
}

/// Changed options change the turns of a load, and nothing else.
proof fn lemma_options_change_load(
    tokenizer: TokenizerModel,
    entries: Seq<JsonView>,
    num_conversations: nat,
    max_turns: Option<usize>,
    output_len_override: Option<usize>,
    other_max: Option<usize>,
    other_override: Option<usize>,
    seed: u64,
    request_id_prefix: Seq<char>,
    change: spec_fn(Seq<TurnView>) -> Seq<TurnView>,
)
    requires
        num_conversations <= usize::MAX,
        options_change(
            tokenizer,
            max_turns,
            output_len_override,
            other_max,
            other_override,
            change,
        ),
    ensures
        load_entries_of(
            tokenizer,
            entries,
            num_conversations,
            output_len_override,
            max_turns,
            seed,
            request_id_prefix,
        ) matches Ok(load) ==> load_entries_of(
            tokenizer,
            entries,
            num_conversations,
            other_override,
            other_max,
            seed,
            request_id_prefix,
        ) == Ok::<ShareGptLoadView, BenchErrorView>(load_with_turns(load, change)),
{
    let (order, words) = taking_order(entries, seed);
    let none = Seq::<ConversationView>::empty();
    assert(all_with_turns(none, change) =~= none);
    lemma_options_change_taken(
        tokenizer,
        entries,
        order,
        0,
        none,
        num_conversations,
        max_turns,
        output_len_override,
        other_max,
        other_override,
        request_id_prefix,
        change,
    );
    let result = taken_from(
        tokenizer,
        entries,
        order,
        0,
        none,
        num_conversations,
        max_turns,
        output_len_override,
        request_id_prefix,
    );
    if result is Ok && result->Ok_0.len() > 0 {
        let taken = result->Ok_0;
        let needed = (num_conversations - taken.len()) as nat;
        let places = next_many(words, 0, last_index(taken.len()), needed).0;
        law_draws_lie_in_range(words, 0, last_index(taken.len()), needed);
        assert(with_copies_of(all_with_turns(taken, change), places, request_id_prefix)
            =~= all_with_turns(with_copies_of(taken, places, request_id_prefix), change));
    }
}

/// A bound of at least two turns cuts every conversation down to its first turns, and changes
/// nothing else: not which entries are taken, nor their order, identifiers or copies.
pub proof fn law_max_turns_truncates_entries(
    tokenizer: TokenizerModel,
    entries: Seq<JsonView>,
    num_conversations: nat,
    output_len_override: Option<usize>,
    max: usize,
    seed: u64,
    request_id_prefix: Seq<char>,
    full: ShareGptLoadView,
)
    requires
        num_conversations <= usize::MAX,
        max >= 2,
        load_entries_of(
            tokenizer,
            entries,
            num_conversations,
            output_len_override,
            None,
            seed,
            request_id_prefix,
        ) == Ok::<ShareGptLoadView, BenchErrorView>(full),
    ensures
        load_entries_of(
            tokenizer,
            entries,
            num_conversations,
            output_len_override,
            Some(max),
            seed,
            request_id_prefix,
        ) == Ok::<ShareGptLoadView, BenchErrorView>(
            load_with_turns(full, |turns: Seq<TurnView>| first_turns(turns, max)),
        ),
{
    let change = |turns: Seq<TurnView>| first_turns(turns, max);
    assert forall|messages: Seq<JsonView>|
        (#[trigger] entry_turns_of(tokenizer, messages, None, output_len_override)) is Ok implies {
        let turns = entry_turns_of(tokenizer, messages, None, output_len_override)->Ok_0;
        &&& entry_turns_of(tokenizer, messages, Some(max), output_len_override) == Ok::<
            Seq<TurnView>,
            BenchErrorView,
        >(change(turns))
        &&& change(turns).len() >= 2 <==> turns.len() >= 2
    } by {
        let turns = entry_turns_of(tokenizer, messages, None, output_len_override)->Ok_0;
        law_max_turns_leaves_the_first(tokenizer, messages, max, output_len_override, turns);
    }
    lemma_options_change_load(
        tokenizer,
        entries,
        num_conversations,
        None,
        output_len_override,
        Some(max),
        output_len_override,
        seed,
        request_id_prefix,
        change,
    );
}

/// A bound of at least two turns on a whole dataset cuts every conversation down to its first
/// turns, and changes nothing else.
pub proof fn law_max_turns_truncates_load(
    tokenizer: TokenizerModel,
    parsed: Result<JsonView, Seq<char>>,
    num_conversations: nat,
    output_len_override: Option<usize>,
    max: usize,
    seed: u64,
    request_id_prefix: Seq<char>,
    full: ShareGptLoadView,
)
    requires
        num_conversations <= usize::MAX,
        max >= 2,
        load_of(
            tokenizer,
            parsed,
            num_conversations,
            output_len_override,
            None,
            seed,
            request_id_prefix,
        ) == Ok::<ShareGptLoadView, BenchErrorView>(full),
    ensures
        load_of(
            tokenizer,
            parsed,
            num_conversations,
            output_len_override,
            Some(max),
            seed,
            request_id_prefix,
        ) == Ok::<ShareGptLoadView, BenchErrorView>(
            load_with_turns(full, |turns: Seq<TurnView>| first_turns(turns, max)),
        ),
{
    law_max_turns_truncates_entries(
        tokenizer,
        parsed->Ok_0.items()->0,
        num_conversations,
        output_len_override,
        max,
        seed,
        request_id_prefix,
        full,
    );
}

/// `turns` with another output length.
pub open spec fn with_output_len(turns: Seq<TurnView>, len: usize) -> Seq<TurnView> {
    turns.map_values(|turn: TurnView| TurnView { expected_output_len: len, ..turn })
}

/// An output length that was asked for changes output lengths, and nothing else of the turns.
proof fn lemma_override_changes_turns(
    tokenizer: TokenizerModel,
    messages: Seq<JsonView>,
    i: nat,
    turns: Seq<TurnView>,
    max_turns: Option<usize>,
    len: usize,
)
    ensures
        turns_from(tokenizer, messages, i, turns, max_turns, None) matches Ok(all) ==> turns_from(
            tokenizer,
            messages,
            i,
            with_output_len(turns, len),
            max_turns,
            Some(len),
        ) == Ok::<Seq<TurnView>, BenchErrorView>(with_output_len(all, len)),
    decreases messages.len() - i,
{
    if i + 1 < messages.len() && !enough_turns(turns.len(), max_turns) {
        if opens_turn(messages, i) {
            if let Ok(turn) = exchange_of(
                tokenizer,
                text_member_of(messages[i as int], "value"@),
                text_member_of(messages[i as int + 1], "value"@),
                None,
            ) {
                let more = turns.push(turn);
                lemma_override_changes_turns(tokenizer, messages, i + 2, more, max_turns, len);
                assert(with_output_len(more, len) =~= with_output_len(turns, len).push(
                    TurnView { expected_output_len: len, ..turn },
                ));
            }
        } else {
            lemma_override_changes_turns(tokenizer, messages, i + 1, turns, max_turns, len);
        }
    }
}

/// An output length that was asked for changes output lengths, and nothing else: not which
/// entries are taken, nor their order, identifiers, messages or message lengths.
pub proof fn law_override_changes_entries(
    tokenizer: TokenizerModel,
    entries: Seq<JsonView>,
    num_conversations: nat,
    len: usize,
    max_turns: Option<usize>,
    seed: u64,
    request_id_prefix: Seq<char>,
    counted: ShareGptLoadView,
)
    requires
        num_conversations <= usize::MAX,
        load_entries_of(
            tokenizer,
            entries,
            num_conversations,
            None,
            max_turns,
            seed,
            request_id_prefix,
        ) == Ok::<ShareGptLoadView, BenchErrorView>(counted),
    ensures
        load_entries_of(
            tokenizer,
            entries,
            num_conversations,
            Some(len),
            max_turns,
            seed,
            request_id_prefix,
        ) == Ok::<ShareGptLoadView, BenchErrorView>(
            load_with_turns(counted, |turns: Seq<TurnView>| with_output_len(turns, len)),
        ),
{
    let change = |turns: Seq<TurnView>| with_output_len(turns, len);
    assert forall|messages: Seq<JsonView>|
        (#[trigger] entry_turns_of(tokenizer, messages, max_turns, None)) is Ok implies {
        let turns = entry_turns_of(tokenizer, messages, max_turns, None)->Ok_0;
        &&& entry_turns_of(tokenizer, messages, max_turns, Some(len)) == Ok::<
            Seq<TurnView>,
            BenchErrorView,
        >(change(turns))
        &&& change(turns).len() >= 2 <==> turns.len() >= 2
    } by {
        let none = Seq::<TurnView>::empty();
        assert(with_output_len(none, len) =~= none);
        lemma_override_changes_turns(tokenizer, messages, 0, none, max_turns, len);
    }
    lemma_options_change_load(
        tokenizer,
        entries,
        num_conversations,
        max_turns,
        None,
        max_turns,
        Some(len),
        seed,
        request_id_prefix,
        change,
    );
}

/// An output length that was asked for changes the output lengths of a whole dataset, and
/// nothing else.
pub proof fn law_override_changes_load(
    tokenizer: TokenizerModel,
    parsed: Result<JsonView, Seq<char>>,
    num_conversations: nat,
    len: usize,
    max_turns: Option<usize>,
    seed: u64,
    request_id_prefix: Seq<char>,
    counted: ShareGptLoadView,
)
    requires
        num_conversations <= usize::MAX,
        load_of(
            tokenizer,
            parsed,
            num_conversations,
            None,
            max_turns,
            seed,
            request_id_prefix,
        ) == Ok::<ShareGptLoadView, BenchErrorView>(counted),
    ensures
        load_of(
            tokenizer,
            parsed,
            num_conversations,
            Some(len),
            max_turns,
            seed,
            request_id_prefix,
        ) == Ok::<ShareGptLoadView, BenchErrorView>(
            load_with_turns(counted, |turns: Seq<TurnView>| with_output_len(turns, len)),
        ),
{
    law_override_changes_entries(
        tokenizer,
        parsed->Ok_0.items()->0,
        num_conversations,
        len,
        max_turns,
        seed,
        request_id_prefix,
        counted,
    );
}

/// All turns have the output length that was asked for, or at least 1.
pub open spec fn all_sized(turns: Seq<TurnView>, output_len_override: Option<usize>) -> bool {
    forall|t: int| 0 <= t < turns.len() ==> sized(#[trigger] turns[t], output_len_override)
}

/// The turns of an entry have the output length that was asked for, or at least 1.
proof fn lemma_turns_are_sized(
    tokenizer: TokenizerModel,
    messages: Seq<JsonView>,
    i: nat,
    turns: Seq<TurnView>,
    max_turns: Option<usize>,
    output_len_override: Option<usize>,
)
    requires
        tokenizer.countable(),
        all_sized(turns, output_len_override),
    ensures
        turns_from(
            tokenizer,
            messages,
            i,
            turns,
            max_turns,
            output_len_override,
        ) matches Ok(all) ==> all_sized(all, output_len_override),
    decreases messages.len() - i,
{
    if i + 1 < messages.len() && !enough_turns(turns.len(), max_turns) {
        if opens_turn(messages, i) {
            if let Ok(turn) = exchange_of(
                tokenizer,
                text_member_of(messages[i as int], "value"@),
                text_member_of(messages[i as int + 1], "value"@),
                output_len_override,
            ) {
                assert(sized(turn, output_len_override));
                lemma_turns_are_sized(
                    tokenizer,
                    messages,
                    i + 2,
                    turns.push(turn),
                    max_turns,
                    output_len_override,
                );
            }
        } else {
            lemma_turns_are_sized(
                tokenizer,
                messages,
                i + 1,
                turns,
                max_turns,
                output_len_override,
            );
        }
    }
}

/// The turns of taken conversations have the output length that was asked for, or at least 1.
proof fn lemma_taken_are_sized(
    tokenizer: TokenizerModel,
    entries: Seq<JsonView>,
    order: Seq<usize>,
    k: nat,
    taken: Seq<ConversationView>,
    num_conversations: nat,
    max_turns: Option<usize>,
    output_len_override: Option<usize>,
    request_id_prefix: Seq<char>,
)
    requires
        tokenizer.countable(),
        taken.len() <= num_conversations,
        forall|c: int|
            0 <= c < taken.len() ==> all_sized((#[trigger] taken[c]).turns, output_len_override),
    ensures
        taken_from(
            tokenizer,
            entries,
            order,
            k,
            taken,
            num_conversations,
            max_turns,
            output_len_override,
            request_id_prefix,
        ) matches Ok(all) ==> all.len() <= num_conversations && forall|c: int|
            0 <= c < all.len() ==> all_sized((#[trigger] all[c]).turns, output_len_override),
    decreases order.len() - k,
{
    if k < order.len() && taken.len() < num_conversations {
        let entry = entries[order[k as int] as int];
        lemma_turns_are_sized(
            tokenizer,
            messages_of(entry),
            0,
            Seq::empty(),
            max_turns,
            output_len_override,
        );
        if let Ok(conversation) = entry_conversation_of(
            tokenizer,
            entry,
            taken.len(),
            max_turns,
            output_len_override,
            request_id_prefix,
        ) {
            lemma_taken_are_sized(
                tokenizer,
                entries,
                order,
                k + 1,
                match conversation {
                    Some(conversation) => taken.push(conversation),
                    None => taken,
                },
                num_conversations,
                max_turns,
                output_len_override,
                request_id_prefix,
            );
        }
    }
}

/// Every turn of a loaded conversation has the output length that was asked for, or at least 1.
pub proof fn law_loaded_turns_are_sized(
    tokenizer: TokenizerModel,
    entries: Seq<JsonView>,
    num_conversations: nat,
    output_len_override: Option<usize>,
    max_turns: Option<usize>,
    seed: u64,
    request_id_prefix: Seq<char>,
    load: ShareGptLoadView,
)
    requires
        tokenizer.countable(),
        num_conversations <= usize::MAX,
        load_entries_of(
            tokenizer,
            entries,
            num_conversations,
            output_len_override,
            max_turns,
            seed,
            request_id_prefix,
        ) == Ok::<ShareGptLoadView, BenchErrorView>(load),
    ensures
        forall|c: int|
            0 <= c < load.conversations.len() ==> all_sized(
                (#[trigger] load.conversations[c]).turns,
                output_len_override,
            ),
{
    let (order, words) = taking_order(entries, seed);
    lemma_taken_are_sized(
        tokenizer,
        entries,
        order,
        0,
        Seq::empty(),
        num_conversations,
        max_turns,
        output_len_override,
        request_id_prefix,
    );
    let taken = taken_from(
        tokenizer,
        entries,
        order,
        0,
        Seq::empty(),
        num_conversations,
        max_turns,
        output_len_override,
        request_id_prefix,
    )->Ok_0;
    let needed = (num_conversations - taken.len()) as nat;
    let places = next_many(words, 0, last_index(taken.len()), needed).0;
    law_draws_lie_in_range(words, 0, last_index(taken.len()), needed);
    assert forall|c: int| 0 <= c < load.conversations.len() implies all_sized(
        (#[trigger] load.conversations[c]).turns,
        output_len_override,
    ) by {
        if c < taken.len() {
            assert(load.conversations[c] == taken[c]);
        } else {
            let at = places[c - taken.len()] as int;
            assert(load.conversations[c].turns == taken[at].turns);
        }
    }
}

/// Taking on keeps the conversations that there are, and never takes too many.
proof fn lemma_taken_are_kept(
    tokenizer: TokenizerModel,
    entries: Seq<JsonView>,
    order: Seq<usize>,
    k: nat,
    taken: Seq<ConversationView>,
    num_conversations: nat,
    max_turns: Option<usize>,
    output_len_override: Option<usize>,
    request_id_prefix: Seq<char>,
)
    requires
        taken.len() <= num_conversations,
    ensures
        taken_from(
            tokenizer,
            entries,
            order,
            k,
            taken,
            num_conversations,
            max_turns,
            output_len_override,
            request_id_prefix,
        ) matches Ok(all) ==> all.len() <= num_conversations && taken.is_prefix_of(all),
    decreases order.len() - k,
{
    if k < order.len() && taken.len() < num_conversations {
        if let Ok(conversation) = entry_conversation_of(
            tokenizer,
            entries[order[k as int] as int],
            taken.len(),
            max_turns,
            output_len_override,
            request_id_prefix,
        ) {
            let next = match conversation {
                Some(conversation) => taken.push(conversation),
                None => taken,
            };
            lemma_taken_are_kept(
                tokenizer,
                entries,
                order,
                k + 1,
                next,
                num_conversations,
                max_turns,
                output_len_override,
                request_id_prefix,
            );
            let rest = taken_from(
                tokenizer,
                entries,
                order,
                k + 1,
                next,
                num_conversations,
                max_turns,
                output_len_override,
                request_id_prefix,
            );
            if rest is Ok {
                let all = rest->Ok_0;
                assert(all.take(taken.len() as int) =~= all.take(next.len() as int).take(
                    taken.len() as int,
                ));
                assert(next.take(taken.len() as int) =~= taken);
            }
        }
    }
}

/// The first `n` conversations.
pub open spec fn first_conversations(conversations: Seq<ConversationView>, n: nat) -> Seq<
    ConversationView,
> {
    if conversations.len() <= n {
        conversations
    } else {
        conversations.take(n as int)
    }
}

/// Asking for fewer conversations takes the first of those that are taken otherwise.
proof fn lemma_fewer_are_taken(
    tokenizer: TokenizerModel,
    entries: Seq<JsonView>,
    order: Seq<usize>,
    k: nat,
    taken: Seq<ConversationView>,
    fewer: nat,
    num_conversations: nat,
    max_turns: Option<usize>,
    output_len_override: Option<usize>,
    request_id_prefix: Seq<char>,
)
    requires
        taken.len() <= fewer <= num_conversations,
    ensures
        taken_from(
            tokenizer,
            entries,
            order,
            k,
            taken,
            num_conversations,
            max_turns,
            output_len_override,
            request_id_prefix,
        ) matches Ok(all) ==> taken_from(
            tokenizer,
            entries,
            order,
            k,
            taken,
            fewer,
            max_turns,
            output_len_override,
            request_id_prefix,
        ) == Ok::<Seq<ConversationView>, BenchErrorView>(first_conversations(all, fewer)),
    decreases order.len() - k,
{
    lemma_taken_are_kept(
        tokenizer,
        entries,
        order,
        k,
        taken,
        num_conversations,
        max_turns,
        output_len_override,
        request_id_prefix,
    );
    if taken.len() < fewer {
        if k < order.len() {
            if let Ok(conversation) = entry_conversation_of(
                tokenizer,
                entries[order[k as int] as int],
                taken.len(),
                max_turns,
                output_len_override,
                request_id_prefix,
            ) {
                lemma_fewer_are_taken(
                    tokenizer,
                    entries,
                    order,
                    k + 1,
                    match conversation {
                        Some(conversation) => taken.push(conversation),
                        None => taken,
                    },
                    fewer,
                    num_conversations,
                    max_turns,
                    output_len_override,
                    request_id_prefix,
                );
            }
        }
    } else {
        let whole = taken_from(
            tokenizer,
            entries,
            order,
            k,
            taken,
            num_conversations,
            max_turns,
            output_len_override,
            request_id_prefix,
        );
        if whole is Ok {
            assert(first_conversations(whole->Ok_0, fewer) =~= taken);
        }
    }
}

/// Asking for fewer conversations loads the first of those that are loaded otherwise.
pub proof fn law_fewer_loaded_are_the_first(
    tokenizer: TokenizerModel,
    parsed: Result<JsonView, Seq<char>>,
    fewer: nat,
    num_conversations: nat,
    output_len_override: Option<usize>,
    max_turns: Option<usize>,
    seed: u64,
    request_id_prefix: Seq<char>,
    load: ShareGptLoadView,
)
    requires
        1 <= fewer <= num_conversations <= usize::MAX,
        load_of(
            tokenizer,
            parsed,
            num_conversations,
            output_len_override,
            max_turns,
            seed,
            request_id_prefix,
        ) == Ok::<ShareGptLoadView, BenchErrorView>(load),
    ensures
        load_of(
            tokenizer,
            parsed,
            fewer,
            output_len_override,
            max_turns,
            seed,
            request_id_prefix,
        ) == Ok::<ShareGptLoadView, BenchErrorView>(
            ShareGptLoadView {
                conversations: load.conversations.take(fewer as int),
                original_len: if load.original_len <= fewer {
                    load.original_len
                } else {
                    fewer
                },
            },
        ),
{
    let entries = parsed->Ok_0.items()->0;
    let (order, words) = taking_order(entries, seed);
    let none = Seq::<ConversationView>::empty();
    lemma_fewer_are_taken(
        tokenizer,
        entries,
        order,
        0,
        none,
        fewer,
        num_conversations,
        max_turns,
        output_len_override,
        request_id_prefix,
    );
    lemma_taken_are_kept(
        tokenizer,
        entries,
        order,
        0,
        none,
        num_conversations,
        max_turns,
        output_len_override,
        request_id_prefix,
    );
    let all = taken_from(
        tokenizer,
        entries,
        order,
        0,
        none,
        num_conversations,
        max_turns,
        output_len_override,
        request_id_prefix,
    )->Ok_0;
    let first = first_conversations(all, fewer);
    let needed = (num_conversations - all.len()) as nat;
    let last = last_index(all.len());
    law_draws_lie_in_range(words, 0, last, needed);
    let needed_first = (fewer - first.len()) as nat;
    let places = next_many(words, 0, last_index(first.len()), needed_first).0;
    law_draws_lie_in_range(words, 0, last_index(first.len()), needed_first);
    if all.len() <= fewer {
        law_draws_go_on(words, 0, last, needed_first, needed);
    }
    assert(with_copies_of(first, places, request_id_prefix) =~= load.conversations.take(
        fewer as int,
    ));
}

/// The places in `order`, up to number `k`, of entries that make at least two turns.
pub open spec fn usable_places(
    entries: Seq<JsonView>,
    order: Seq<usize>,
    k: nat,
    max_turns: Option<usize>,
) -> Seq<usize>
    decreases k,
{
    if k == 0 {
        Seq::empty()
    } else {
        let before = usable_places(entries, order, (k - 1) as nat, max_turns);
        if usable(entries[order[k - 1] as int], max_turns) {
            before.push(order[k - 1])
        } else {
            before
        }
    }
}

/// Later entries only add to the places.
pub(crate) proof fn lemma_usable_places_grow(
    entries: Seq<JsonView>,
    order: Seq<usize>,
    k: nat,
    n: nat,
    max_turns: Option<usize>,
)
    requires
        k <= n,
    ensures
        usable_places(entries, order, k, max_turns).is_prefix_of(
            usable_places(entries, order, n, max_turns),
        ),
    decreases n,
{
    let fewer = usable_places(entries, order, k, max_turns);
    let more = usable_places(entries, order, n, max_turns);
    if k < n {
        let before = usable_places(entries, order, (n - 1) as nat, max_turns);
        lemma_usable_places_grow(entries, order, k, (n - 1) as nat, max_turns);
        assert(more.take(fewer.len() as int) =~= before.take(fewer.len() as int));
    } else {
        assert(more.take(fewer.len() as int) =~= fewer);
    }
}

/// Places of an order without repetition do not repeat.
proof fn lemma_usable_places_differ(
    entries: Seq<JsonView>,
    order: Seq<usize>,
    k: nat,
    max_turns: Option<usize>,
)
    requires
        k <= order.len(),
        order.no_duplicates(),
    ensures
        usable_places(entries, order, k, max_turns).no_duplicates(),
        forall|p: usize| #[trigger]
            usable_places(entries, order, k, max_turns).contains(p) ==> exists|j: int|
                0 <= j < k && order[j] == p,
    decreases k,
{
    if k > 0 {
        let before = usable_places(entries, order, (k - 1) as nat, max_turns);
        let places = usable_places(entries, order, k, max_turns);
        lemma_usable_places_differ(entries, order, (k - 1) as nat, max_turns);
        assert forall|i: int| 0 <= i < before.len() implies #[trigger] before[i]
            != order[k - 1] by {
            assert(before.contains(before[i]));
        }
        assert forall|p: usize| #[trigger] places.contains(p) implies exists|j: int|
            0 <= j < k && order[j] == p by {
            let i = choose|i: int| 0 <= i < places.len() && places[i] == p;
            if i < before.len() {
                assert(before.contains(before[i]));
                let j = choose|j: int| 0 <= j < k - 1 && order[j] == p;
                assert(0 <= j < k && order[j] == p);
            } else {
                assert(order[k - 1] == p);
            }
        }
    }
}

/// An entry makes as many turns as are counted.
pub(crate) proof fn lemma_turns_are_counted(
    tokenizer: TokenizerModel,
    messages: Seq<JsonView>,
    i: nat,
    turns: Seq<TurnView>,
    max_turns: Option<usize>,
    output_len_override: Option<usize>,
)
    ensures
        turns_from(
            tokenizer,
            messages,
            i,
            turns,
            max_turns,
            output_len_override,
        ) matches Ok(all) ==> all.len() == turn_count_from(messages, i, turns.len(), max_turns),
    decreases messages.len() - i,
{
    if i + 1 < messages.len() && !enough_turns(turns.len(), max_turns) {
        if opens_turn(messages, i) {
            if let Ok(turn) = exchange_of(
                tokenizer,
                text_member_of(messages[i as int], "value"@),
                text_member_of(messages[i as int + 1], "value"@),
                output_len_override,
            ) {
                lemma_turns_are_counted(
                    tokenizer,
                    messages,
                    i + 2,
                    turns.push(turn),
                    max_turns,
                    output_len_override,
                );
            }
        } else {
            lemma_turns_are_counted(
                tokenizer,
                messages,
                i + 1,
                turns,
                max_turns,
                output_len_override,
            );
        }
    }
}

/// `conversation` has the turns of `entry`.
pub open spec fn comes_from(
    tokenizer: TokenizerModel,
    conversation: ConversationView,
    entry: JsonView,
    max_turns: Option<usize>,
    output_len_override: Option<usize>,
) -> bool {
    entry_turns_of(tokenizer, messages_of(entry), max_turns, output_len_override) == Ok::<
        Seq<TurnView>,
        BenchErrorView,
    >(conversation.turns)
}

/// Taken conversations come from the usable entries, in order.
proof fn lemma_taken_come_from_entries(
    tokenizer: TokenizerModel,
    entries: Seq<JsonView>,
    order: Seq<usize>,
    k: nat,
    taken: Seq<ConversationView>,
    num_conversations: nat,
    max_turns: Option<usize>,
    output_len_override: Option<usize>,
    request_id_prefix: Seq<char>,
)
    requires
        k <= order.len(),
        taken.len() == usable_places(entries, order, k, max_turns).len(),
        forall|c: int|
            0 <= c < taken.len() ==> comes_from(
                tokenizer,
                #[trigger] taken[c],
                entries[usable_places(entries, order, k, max_turns)[c] as int],
                max_turns,
                output_len_override,
            ),
    ensures
        taken_from(
            tokenizer,
            entries,
            order,
            k,
            taken,
            num_conversations,
            max_turns,
            output_len_override,
            request_id_prefix,
        ) matches Ok(all) ==> all.len() <= usable_places(
            entries,
            order,
            order.len(),
            max_turns,
        ).len() && forall|c: int|
            0 <= c < all.len() ==> comes_from(
                tokenizer,
                #[trigger] all[c],
                entries[usable_places(entries, order, order.len(), max_turns)[c] as int],
                max_turns,
                output_len_override,
            ),
    decreases order.len() - k,
{
    let places = usable_places(entries, order, k, max_turns);
    let all_places = usable_places(entries, order, order.len(), max_turns);
    lemma_usable_places_grow(entries, order, k, order.len(), max_turns);
    assert forall|c: int| 0 <= c < places.len() implies #[trigger] all_places[c] == places[c] by {
        assert(all_places.take(places.len() as int)[c] == places[c]);
    }
    if k < order.len() && taken.len() < num_conversations {
        let entry = entries[order[k as int] as int];
        lemma_turns_are_counted(
            tokenizer,
            messages_of(entry),
            0,
            Seq::empty(),
            max_turns,
            output_len_override,
        );
        if let Ok(conversation) = entry_conversation_of(
            tokenizer,
            entry,
            taken.len(),
            max_turns,
            output_len_override,
            request_id_prefix,
        ) {
            lemma_taken_come_from_entries(
                tokenizer,
                entries,
                order,
                k + 1,
                match conversation {
                    Some(conversation) => taken.push(conversation),
                    None => taken,
                },
                num_conversations,
                max_turns,
                output_len_override,
                request_id_prefix,
            );
        }
    }
}

/// The places of the entries that conversations are made of, in the taking order.
pub open spec fn sources(entries: Seq<JsonView>, seed: u64, max_turns: Option<usize>) -> Seq<
    usize,
> {
    let order = taking_order(entries, seed).0;
    usable_places(entries, order, order.len(), max_turns)
}

/// The conversations that a dataset gave come from its eligible entries that make at least two
/// turns, in the taking order, each from an entry of its own.
pub proof fn law_loaded_come_from_distinct_entries(
    tokenizer: TokenizerModel,
    entries: Seq<JsonView>,
    num_conversations: nat,
    output_len_override: Option<usize>,
    max_turns: Option<usize>,
    seed: u64,
    request_id_prefix: Seq<char>,
    load: ShareGptLoadView,
)
    requires
        entries.len() <= usize::MAX,
        load_entries_of(
            tokenizer,
            entries,
            num_conversations,
            output_len_override,
            max_turns,
            seed,
            request_id_prefix,
        ) == Ok::<ShareGptLoadView, BenchErrorView>(load),
    ensures
        sources(entries, seed, max_turns).no_duplicates(),
        forall|p: usize| #[trigger]
            sources(entries, seed, max_turns).contains(p) ==> p < entries.len() && eligible(
                entries[p as int],
            ),
        load.original_len <= sources(entries, seed, max_turns).len(),
        load.original_len <= load.conversations.len(),
        forall|c: int|
            0 <= c < load.original_len ==> comes_from(
                tokenizer,
                #[trigger] load.conversations[c],
                entries[sources(entries, seed, max_turns)[c] as int],
                max_turns,
                output_len_override,
            ),
{
    let order = taking_order(entries, seed).0;
    let places = sources(entries, seed, max_turns);
    law_entries_are_taken_once(entries, seed);
    lemma_usable_places_differ(entries, order, order.len(), max_turns);
    lemma_taken_come_from_entries(
        tokenizer,
        entries,
        order,
        0,
        Seq::empty(),
        num_conversations,
        max_turns,
        output_len_override,
        request_id_prefix,
    );
    assert forall|p: usize| #[trigger] places.contains(p) implies p < entries.len() && eligible(
        entries[p as int],
    ) by {
        let j = choose|j: int| 0 <= j < order.len() && order[j] == p;
        assert(order.contains(p));
    }
}

} // verus!
