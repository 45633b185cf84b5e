//! What holds of service discovery as a whole: the order of attributes in an
//! answer, and what a client gets from a server whatever the size of responses.

use vstd::prelude::*;

use super::attribute::{attribute_elements, attributes_read_back, ServiceAttributeV};
use super::client::{
    attribute_part, attribute_parts, collected, conversed, id_list_of, lists_of, parsed_lists,
    pattern_of, request_at, search_attribute_part, search_attribute_parts, search_part,
    search_parts, state_of, AttributeId, ClientErrorV, QueryV, Reply, SdpTransport,
    CONTINUATION_WATCHDOG,
};
use super::element::DataElementV;
use super::element_laws::{element_reads_back, nesting, uuids_valid};
use super::pdu::SdpPduV;
use super::server::{
    attribute_lists, complete, inserted, matching, more_to_come, named_by_all, record_with,
    selected, sequence_items, sorted_by_id, CurrentResponseV, SdpServer, SdpServerV,
    ServiceRecordV,
};
use super::{ErrorV, MAX_NESTING};
use crate::values::BluetoothUuid as Uuid;

verus! {

/// Attributes stand in the order of their identifiers.
pub open spec fn in_order(attributes: Seq<ServiceAttributeV>) -> bool {
    forall|i: int, j: int| 0 <= i < j < attributes.len() ==> attributes[i].id <= attributes[j].id
}

proof fn lemma_inserted(sorted: Seq<ServiceAttributeV>, attribute: ServiceAttributeV)
    requires
        in_order(sorted),
    ensures
        in_order(inserted(sorted, attribute)),
        inserted(sorted, attribute).to_multiset() == sorted.to_multiset().insert(attribute),
        inserted(sorted, attribute).len() == sorted.len() + 1,
        forall|i: int|
            0 <= i < inserted(sorted, attribute).len() ==> (#[trigger] inserted(sorted, attribute)[i]
                == attribute || sorted.contains(inserted(sorted, attribute)[i])),
    decreases sorted.len(),
{
    broadcast use vstd::seq_lib::group_to_multiset_ensures;

    let result = inserted(sorted, attribute);
    if sorted.len() == 0 || sorted.last().id <= attribute.id {
        assert forall|i: int| 0 <= i < result.len() implies (#[trigger] result[i] == attribute
            || sorted.contains(result[i])) by {
            if i < sorted.len() {
                assert(result[i] == sorted[i]);
            }
        }
    } else {
        let head = sorted.drop_last();
        lemma_inserted(head, attribute);
        let inner = inserted(head, attribute);
        assert(sorted =~= head.push(sorted.last()));
        assert(sorted.to_multiset() == head.to_multiset().insert(sorted.last()));
        assert(result.to_multiset() =~= sorted.to_multiset().insert(attribute));
        assert forall|i: int| 0 <= i < result.len() implies (#[trigger] result[i] == attribute
            || sorted.contains(result[i])) by {
            if i < inner.len() {
                assert(result[i] == inner[i]);
                if inner[i] != attribute {
                    let k = choose|k: int| 0 <= k < head.len() && head[k] == inner[i];
                    assert(sorted[k] == inner[i]);
                }
            } else {
                assert(result[i] == sorted[sorted.len() - 1]);
            }
        }
        assert forall|i: int, j: int| 0 <= i < j < result.len() implies result[i].id
            <= result[j].id by {
            if j == inner.len() {
                assert(result[i] == inner[i]);
                if inner[i] != attribute {
                    let k = choose|k: int| 0 <= k < head.len() && head[k] == inner[i];
                    assert(sorted[k] == inner[i]);
                }
            }
        }
    }
}

/// The attributes of an answer stand in the order of their identifiers, and they
/// are exactly those that the selectors name.
pub proof fn answer_is_in_order(attributes: Seq<ServiceAttributeV>)
    ensures
        in_order(sorted_by_id(attributes)),
        sorted_by_id(attributes).to_multiset() == attributes.to_multiset(),
    decreases attributes.len(),
{
    broadcast use vstd::seq_lib::group_to_multiset_ensures;

    if attributes.len() > 0 {
        answer_is_in_order(attributes.drop_last());
        lemma_inserted(sorted_by_id(attributes.drop_last()), attributes.last());
        assert(attributes =~= attributes.drop_last().push(attributes.last()));
    } else {
        assert(attributes =~= sorted_by_id(attributes));
    }
}

/// The replies of a server to a search for attributes that is continued for as
/// long as the replies ask for it, at most `budget` times in all.
pub open spec fn search_attribute_dialogue(
    server: SdpServerV,
    transaction_id: u16,
    pattern: DataElementV,
    attribute_ids: DataElementV,
    continuation_state: Seq<u8>,
    budget: nat,
) -> Seq<Reply>
    decreases budget,
{
    if budget == 0 {
        seq![]
    } else {
        let (next, reply) = server.search_attribute_handled(
            transaction_id,
            pattern,
            0xFFFF,
            attribute_ids,
            continuation_state,
        );
        let rest = match search_attribute_part(Ok(reply)) {
            Ok((_, state)) => if state == complete() {
                seq![]
            } else {
                search_attribute_dialogue(
                    next,
                    ((transaction_id + 1) % 65536) as u16,
                    pattern,
                    attribute_ids,
                    state,
                    (budget - 1) as nat,
                )
            },
            Err(_) => seq![],
        };
        seq![Ok::<SdpPduV, Seq<char>>(reply)] + rest
    }
}

/// The replies of a server to a request for a record's attributes that is
/// continued for as long as the replies ask for it, at most `budget` times in all.
pub open spec fn attribute_dialogue(
    server: SdpServerV,
    transaction_id: u16,
    handle: u32,
    attribute_ids: DataElementV,
    continuation_state: Seq<u8>,
    budget: nat,
) -> Seq<Reply>
    decreases budget,
{
    if budget == 0 {
        seq![]
    } else {
        let (next, reply) = server.attribute_handled(
            transaction_id,
            handle,
            0xFFFF,
            attribute_ids,
            continuation_state,
        );
        let rest = match attribute_part(Ok(reply)) {
            Ok((_, state)) => if state == complete() {
                seq![]
            } else {
                attribute_dialogue(
                    next,
                    ((transaction_id + 1) % 65536) as u16,
                    handle,
                    attribute_ids,
                    state,
                    (budget - 1) as nat,
                )
            },
            Err(_) => seq![],
        };
        seq![Ok::<SdpPduV, Seq<char>>(reply)] + rest
    }
}

/// The replies of a server to a search for records that is continued for as long
/// as the replies ask for it, at most `budget` times in all.
pub open spec fn search_dialogue(
    server: SdpServerV,
    transaction_id: u16,
    pattern: DataElementV,
    continuation_state: Seq<u8>,
    budget: nat,
) -> Seq<Reply>
    decreases budget,
{
    if budget == 0 {
        seq![]
    } else {
        let (next, reply) = server.search_handled(
            transaction_id,
            pattern,
            0xFFFF,
            continuation_state,
        );
        let rest = match search_part(Ok(reply)) {
            Ok((_, state)) => if state == complete() {
                seq![]
            } else {
                search_dialogue(
                    next,
                    ((transaction_id + 1) % 65536) as u16,
                    pattern,
                    state,
                    (budget - 1) as nat,
                )
            },
            Err(_) => seq![],
        };
        seq![Ok::<SdpPduV, Seq<char>>(reply)] + rest
    }
}

proof fn lemma_states_differ()
    ensures
        more_to_come() != complete(),
        more_to_come().len() > 1,
        complete().len() == 1,
{
}

/// One part in front of others that complete an answer.
proof fn lemma_collected_prepend<T>(
    first: Result<(Seq<T>, Seq<u8>), ClientErrorV>,
    rest: Seq<Result<(Seq<T>, Seq<u8>), ClientErrorV>>,
    items: Seq<T>,
    budget: nat,
)
    requires
        budget > 0,
        first is Ok,
        first->Ok_0.1 == complete() ==> rest.len() == 0 && items.len() == 0,
        first->Ok_0.1 != complete() ==> collected(rest, (budget - 1) as nat) == Some(
            Ok::<Seq<T>, ClientErrorV>(items),
        ),
    ensures
        collected(seq![first] + rest, budget) == Some(
            Ok::<Seq<T>, ClientErrorV>(first->Ok_0.0 + items),
        ),
{
    reveal(collected);
    let all = seq![first] + rest;
    assert(all.skip(1) =~= rest);
    if first->Ok_0.1 == complete() {
        assert(first->Ok_0.0 + items =~= first->Ok_0.0);
    }
}

proof fn lemma_room(length: int, cap: int, budget: int)
    requires
        length <= cap * budget,
        cap < length,
        cap > 0,
    ensures
        budget > 1,
        length - cap <= cap * (budget - 1),
{
    assert(budget > 1 && length - cap <= cap * (budget - 1)) by (nonlinear_arith)
        requires
            length <= cap * budget,
            cap < length,
            cap > 0,
    ;
}

#[verifier::spinoff_prover]
proof fn lemma_search_attribute_rest(
    server: SdpServerV,
    transaction_id: u16,
    pattern: DataElementV,
    attribute_ids: DataElementV,
    bytes: Seq<u8>,
    budget: nat,
)
    requires
        server.current_response == Some(CurrentResponseV::Bytes(bytes)),
        server.byte_cap(0xFFFF) > 0,
        budget > 0,
        bytes.len() <= server.byte_cap(0xFFFF) * budget,
    ensures
        collected(
            search_attribute_parts(
                search_attribute_dialogue(
                    server,
                    transaction_id,
                    pattern,
                    attribute_ids,
                    more_to_come(),
                    budget,
                ),
            ),
            budget,
        ) == Some(Ok::<Seq<u8>, ClientErrorV>(bytes)),
    decreases budget,
{
    reveal(SdpServerV::search_attribute_handled);
    lemma_states_differ();
    let cap = server.byte_cap(0xFFFF);
    let (next, reply) = server.search_attribute_handled(
        transaction_id,
        pattern,
        0xFFFF,
        attribute_ids,
        more_to_come(),
    );
    let replies = search_attribute_dialogue(
        server,
        transaction_id,
        pattern,
        attribute_ids,
        more_to_come(),
        budget,
    );
    let rest = replies.skip(1);
    let first = search_attribute_part(Ok(reply));
    assert(replies =~= seq![Ok::<SdpPduV, Seq<char>>(reply)] + rest);
    assert(search_attribute_parts(replies) =~= seq![first] + search_attribute_parts(rest));
    if bytes.len() > cap {
        lemma_room(bytes.len() as int, cap, budget as int);
        let after = ((transaction_id + 1) % 65536) as u16;
        lemma_search_attribute_rest(
            next,
            after,
            pattern,
            attribute_ids,
            bytes.skip(cap),
            (budget - 1) as nat,
        );
        assert(rest =~= search_attribute_dialogue(
            next,
            after,
            pattern,
            attribute_ids,
            more_to_come(),
            (budget - 1) as nat,
        ));
        lemma_collected_prepend(first, search_attribute_parts(rest), bytes.skip(cap), budget);
        assert(bytes.take(cap) + bytes.skip(cap) =~= bytes);
    } else {
        assert(rest =~= Seq::<Reply>::empty());
        assert(search_attribute_parts(rest) =~= seq![]);
        lemma_collected_prepend(first, search_attribute_parts(rest), Seq::<u8>::empty(), budget);
        assert(bytes + Seq::<u8>::empty() =~= bytes);
    }
}

/// Whatever the size of the server's responses, a client that searches for
/// attributes collects the same bytes: the whole answer. Responses must have
/// room for attributes at all, and the answer must fit the number of responses
/// that the client takes.
pub proof fn attribute_search_is_reassembled(
    server: SdpServerV,
    transaction_id: u16,
    pattern: DataElementV,
    attribute_ids: DataElementV,
)
    requires
        server.mtu > 9,
        server.search_attribute_answer(pattern, attribute_ids).len() <= (server.mtu - 9)
            * CONTINUATION_WATCHDOG,
    ensures
        collected(
            search_attribute_parts(
                search_attribute_dialogue(
                    server,
                    transaction_id,
                    pattern,
                    attribute_ids,
                    complete(),
                    CONTINUATION_WATCHDOG as nat,
                ),
            ),
            CONTINUATION_WATCHDOG as nat,
        ) == Some(
            Ok::<Seq<u8>, ClientErrorV>(server.search_attribute_answer(pattern, attribute_ids)),
        ),
{
    reveal(SdpServerV::search_attribute_handled);
    lemma_states_differ();
    let budget = CONTINUATION_WATCHDOG as nat;
    let bytes = server.search_attribute_answer(pattern, attribute_ids);
    let ready = server.with_answer(CurrentResponseV::Bytes(bytes));
    lemma_search_attribute_rest(ready, transaction_id, pattern, attribute_ids, bytes, budget);
    assert(search_attribute_dialogue(
        server,
        transaction_id,
        pattern,
        attribute_ids,
        complete(),
        budget,
    ) == search_attribute_dialogue(
        ready,
        transaction_id,
        pattern,
        attribute_ids,
        more_to_come(),
        budget,
    ));
}

#[verifier::spinoff_prover]
proof fn lemma_attribute_rest(
    server: SdpServerV,
    transaction_id: u16,
    handle: u32,
    attribute_ids: DataElementV,
    bytes: Seq<u8>,
    budget: nat,
)
    requires
        server.current_response == Some(CurrentResponseV::Bytes(bytes)),
        server.byte_cap(0xFFFF) > 0,
        budget > 0,
        bytes.len() <= server.byte_cap(0xFFFF) * budget,
    ensures
        collected(
            attribute_parts(
                attribute_dialogue(
                    server,
                    transaction_id,
                    handle,
                    attribute_ids,
                    more_to_come(),
                    budget,
                ),
            ),
            budget,
        ) == Some(Ok::<Seq<u8>, ClientErrorV>(bytes)),
    decreases budget,
{
    reveal(SdpServerV::attribute_handled);
    lemma_states_differ();
    let cap = server.byte_cap(0xFFFF);
    let (next, reply) = server.attribute_handled(
        transaction_id,
        handle,
        0xFFFF,
        attribute_ids,
        more_to_come(),
    );
    let replies = attribute_dialogue(
        server,
        transaction_id,
        handle,
        attribute_ids,
        more_to_come(),
        budget,
    );
    let rest = replies.skip(1);
    let first = attribute_part(Ok(reply));
    assert(replies =~= seq![Ok::<SdpPduV, Seq<char>>(reply)] + rest);
    assert(attribute_parts(replies) =~= seq![first] + attribute_parts(rest));
    if bytes.len() > cap {
        lemma_room(bytes.len() as int, cap, budget as int);
        let after = ((transaction_id + 1) % 65536) as u16;
        lemma_attribute_rest(
            next,
            after,
            handle,
            attribute_ids,
            bytes.skip(cap),
            (budget - 1) as nat,
        );
        assert(rest =~= attribute_dialogue(
            next,
            after,
            handle,
            attribute_ids,
            more_to_come(),
            (budget - 1) as nat,
        ));
        lemma_collected_prepend(first, attribute_parts(rest), bytes.skip(cap), budget);
        assert(bytes.take(cap) + bytes.skip(cap) =~= bytes);
    } else {
        assert(rest =~= Seq::<Reply>::empty());
        assert(attribute_parts(rest) =~= seq![]);
        lemma_collected_prepend(first, attribute_parts(rest), Seq::<u8>::empty(), budget);
        assert(bytes + Seq::<u8>::empty() =~= bytes);
    }
}

/// Whatever the size of the server's responses, a client that asks for a
/// record's attributes collects the same bytes: the whole answer.
pub proof fn attribute_request_is_reassembled(
    server: SdpServerV,
    transaction_id: u16,
    handle: u32,
    attribute_ids: DataElementV,
)
    requires
        server.mtu > 9,
        record_with(server.records, handle) is Some,
        SdpServerV::attribute_answer(record_with(server.records, handle)->0, attribute_ids).len()
            <= (server.mtu - 9) * CONTINUATION_WATCHDOG,
    ensures
        collected(
            attribute_parts(
                attribute_dialogue(
                    server,
                    transaction_id,
                    handle,
                    attribute_ids,
                    complete(),
                    CONTINUATION_WATCHDOG as nat,
                ),
            ),
            CONTINUATION_WATCHDOG as nat,
        ) == Some(
            Ok::<Seq<u8>, ClientErrorV>(
                SdpServerV::attribute_answer(record_with(server.records, handle)->0, attribute_ids),
            ),
        ),
{
    reveal(SdpServerV::attribute_handled);
    lemma_states_differ();
    let budget = CONTINUATION_WATCHDOG as nat;
    let bytes = SdpServerV::attribute_answer(
        record_with(server.records, handle)->0,
        attribute_ids,
    );
    let ready = server.with_answer(CurrentResponseV::Bytes(bytes));
    lemma_attribute_rest(ready, transaction_id, handle, attribute_ids, bytes, budget);
    assert(attribute_dialogue(server, transaction_id, handle, attribute_ids, complete(), budget)
        == attribute_dialogue(
        ready,
        transaction_id,
        handle,
        attribute_ids,
        more_to_come(),
        budget,
    ));
}

proof fn lemma_search_rest(
    server: SdpServerV,
    transaction_id: u16,
    pattern: DataElementV,
    total: u16,
    handles: Seq<u32>,
    budget: nat,
)
    requires
        server.current_response == Some(
            CurrentResponseV::Handles { total, remaining: handles },
        ),
        server.mtu >= 15,
        budget > 0,
        handles.len() <= ((server.mtu - 11) / 4) * budget,
    ensures
        collected(
            search_parts(
                search_dialogue(server, transaction_id, pattern, more_to_come(), budget),
            ),
            budget,
        ) == Some(Ok::<Seq<u32>, ClientErrorV>(handles)),
    decreases budget,
{
    reveal(SdpServerV::search_handled);
    lemma_states_differ();
    let room = (server.mtu - 11) / 4;
    let (next, reply) = server.search_handled(transaction_id, pattern, 0xFFFF, more_to_come());
    let replies = search_dialogue(server, transaction_id, pattern, more_to_come(), budget);
    let rest = replies.skip(1);
    let first = search_part(Ok(reply));
    assert(replies =~= seq![Ok::<SdpPduV, Seq<char>>(reply)] + rest);
    assert(search_parts(replies) =~= seq![first] + search_parts(rest));
    if handles.len() > room {
        lemma_room(handles.len() as int, room, budget as int);
        let after = ((transaction_id + 1) % 65536) as u16;
        lemma_search_rest(next, after, pattern, total, handles.skip(room), (budget - 1) as nat);
        assert(rest =~= search_dialogue(
            next,
            after,
            pattern,
            more_to_come(),
            (budget - 1) as nat,
        ));
        lemma_collected_prepend(first, search_parts(rest), handles.skip(room), budget);
        assert(handles.take(room) + handles.skip(room) =~= handles);
    } else {
        assert(handles.skip(handles.len() as int) =~= Seq::<u32>::empty());
        assert(handles.take(handles.len() as int) =~= handles);
        assert(rest =~= Seq::<Reply>::empty());
        assert(search_parts(rest) =~= seq![]);
        lemma_collected_prepend(first, search_parts(rest), Seq::<u32>::empty(), budget);
        assert(handles + Seq::<u32>::empty() =~= handles);
    }
}

/// Whatever the size of the server's responses, a client that searches for
/// records collects the same handles: those of all matching records, in order.
/// Responses must have room for a handle at all, and the answer must fit the
/// number of responses that the client takes.
pub proof fn record_search_is_reassembled(
    server: SdpServerV,
    transaction_id: u16,
    pattern: DataElementV,
)
    requires
        server.mtu >= 15,
        server.matching_handles(pattern).len() <= 0xFFFF,
        server.matching_handles(pattern).len() <= ((server.mtu - 11) / 4) * CONTINUATION_WATCHDOG,
    ensures
        collected(
            search_parts(
                search_dialogue(
                    server,
                    transaction_id,
                    pattern,
                    complete(),
                    CONTINUATION_WATCHDOG as nat,
                ),
            ),
            CONTINUATION_WATCHDOG as nat,
        ) == Some(Ok::<Seq<u32>, ClientErrorV>(server.matching_handles(pattern))),
{
    reveal(SdpServerV::search_handled);
    lemma_states_differ();
    let budget = CONTINUATION_WATCHDOG as nat;
    let handles = server.matching_handles(pattern);
    let total = (handles.len() % 65536) as u16;
    let ready = server.with_answer(CurrentResponseV::Handles { total, remaining: handles });
    assert(handles.take(handles.len() as int) =~= handles);
    lemma_search_rest(ready, transaction_id, pattern, total, handles, budget);
    assert(search_dialogue(server, transaction_id, pattern, complete(), budget) == search_dialogue(
        ready,
        transaction_id,
        pattern,
        more_to_come(),
        budget,
    ));
}

/// The selected attributes of each record that has any.
pub open spec fn selected_lists(records: Seq<ServiceRecordV>, selectors: Seq<DataElementV>) -> Seq<
    Seq<ServiceAttributeV>,
>
    decreases records.len(),
{
    if records.len() == 0 {
        seq![]
    } else {
        let before = selected_lists(records.drop_last(), selectors);
        let list = sorted_by_id(named_by_all(records.last().attributes, selectors));
        if list.len() > 0 {
            before.push(list)
        } else {
            before
        }
    }
}

proof fn lemma_lists_of(records: Seq<ServiceRecordV>, selectors: Seq<DataElementV>)
    ensures
        lists_of(attribute_lists(records, selectors)) == selected_lists(records, selectors),
    decreases records.len(),
{
    if records.len() > 0 {
        lemma_lists_of(records.drop_last(), selectors);
        let list = sorted_by_id(named_by_all(records.last().attributes, selectors));
        let elements = selected(records.last().attributes, selectors);
        assert(elements == attribute_elements(list));
        if list.len() > 0 {
            attributes_read_back(list);
            let before = attribute_lists(records.drop_last(), selectors);
            let all = attribute_lists(records, selectors);
            assert(all == before.push(DataElementV::Sequence(elements)));
            assert(all.drop_last() =~= before);
            assert(all.last() == DataElementV::Sequence(elements));
        }
    }
}

/// What a client reads from the whole answer to a search are the selected
/// attributes of the matching records, record by record, each in order.
pub proof fn attribute_search_finds_the_selected(
    server: SdpServerV,
    pattern: DataElementV,
    attribute_ids: DataElementV,
)
    requires
        ({
            let lists = DataElementV::Sequence(
                attribute_lists(matching(server.records, pattern), sequence_items(attribute_ids)),
            );
            &&& lists.encode() is Ok
            &&& uuids_valid(lists)
            &&& nesting(lists) <= MAX_NESTING
        }),
    ensures
        parsed_lists(server.search_attribute_answer(pattern, attribute_ids)) == Ok::<
            Seq<Seq<ServiceAttributeV>>,
            ErrorV,
        >(selected_lists(matching(server.records, pattern), sequence_items(attribute_ids))),
{
    let records = matching(server.records, pattern);
    let selectors = sequence_items(attribute_ids);
    let lists = DataElementV::Sequence(attribute_lists(records, selectors));
    let bytes = server.search_attribute_answer(pattern, attribute_ids);
    assert(bytes.subrange(0, bytes.len() as int) =~= bytes);
    element_reads_back(lists, bytes, 0, 0);
    lemma_lists_of(records, selectors);
}

/// Each request but the first one is that of the conversation that is left.
proof fn lemma_request_at_rest(
    query: QueryV,
    transaction_id: u16,
    continuation_state: Seq<u8>,
    replies: Seq<Reply>,
    index: int,
)
    requires
        0 <= index < replies.len() - 1,
    ensures
        request_at(
            query,
            ((transaction_id + 1) % 65536) as u16,
            state_of(replies[0]),
            replies.skip(1),
            index,
        ) == request_at(query, transaction_id, continuation_state, replies, index + 1),
{
    let next = ((transaction_id + 1) % 65536) as u16;
    assert((next + index) % 65536 == (transaction_id + (index + 1)) % 65536);
    if index > 0 {
        assert(replies.skip(1)[index - 1] == replies[index]);
    }
}

/// A conversation is its first request and reply, and what is left of it.
proof fn lemma_conversed_rest<T: SdpTransport>(
    transports: Seq<T>,
    query: QueryV,
    transaction_id: u16,
    continuation_state: Seq<u8>,
    replies: Seq<Reply>,
)
    requires
        conversed(transports, query, transaction_id, continuation_state, replies),
        replies.len() > 0,
    ensures
        transports.len() == replies.len() + 1,
        transports[0].may_reply(
            query.request(transaction_id, continuation_state),
            replies[0],
            &transports[1],
        ),
        conversed(
            transports.skip(1),
            query,
            ((transaction_id + 1) % 65536) as u16,
            state_of(replies[0]),
            replies.skip(1),
        ),
{
    reveal(conversed);
    let later = transports.skip(1);
    let rest = replies.skip(1);
    let next = ((transaction_id + 1) % 65536) as u16;
    let state = state_of(replies[0]);
    assert(request_at(query, transaction_id, continuation_state, replies, 0) == query.request(
        transaction_id,
        continuation_state,
    ));
    assert forall|i: int| 0 <= i < rest.len() implies (#[trigger] later[i]).may_reply(
        request_at(query, next, state, rest, i),
        rest[i],
        &later[i + 1],
    ) by {
        lemma_request_at_rest(query, transaction_id, continuation_state, replies, i);
        let before = transports[i + 1];
        assert(later[i] == before);
        assert(later[i + 1] == transports[i + 2]);
        assert(rest[i] == replies[i + 1]);
    }
}

/// What the first reply of a server to a query is, and that the rest of the
/// conversation goes on from there.
proof fn lemma_conversed_first(
    servers: Seq<SdpServer>,
    query: QueryV,
    transaction_id: u16,
    continuation_state: Seq<u8>,
    replies: Seq<Reply>,
)
    requires
        conversed(servers, query, transaction_id, continuation_state, replies),
    ensures
        servers.len() == replies.len() + 1,
        replies.len() > 0 ==> replies[0] is Ok && (servers[1]@, replies[0]->Ok_0)
            == servers[0]@.handled(query.request(transaction_id, continuation_state)),
        replies.len() > 0 ==> conversed(
            servers.skip(1),
            query,
            ((transaction_id + 1) % 65536) as u16,
            state_of(replies[0]),
            replies.skip(1),
        ),
{
    if replies.len() > 0 {
        lemma_conversed_rest(servers, query, transaction_id, continuation_state, replies);
    } else {
        reveal(conversed);
    }
}

/// How many parts there are follows from the first one.
proof fn lemma_collected_first<T>(
    parts: Seq<Result<(Seq<T>, Seq<u8>), ClientErrorV>>,
    budget: nat,
)
    requires
        collected(parts, budget) is Some,
    ensures
        budget == 0 <==> parts.len() == 0,
        budget > 0 && (parts[0] is Err || parts[0]->Ok_0.1 == complete()) ==> parts.len() == 1,
        budget > 0 && parts[0] is Ok && parts[0]->Ok_0.1 != complete() ==> collected(
            parts.skip(1),
            (budget - 1) as nat,
        ) is Some,
{
    reveal(collected);
}

/// A server answers a search for attributes as the dialogue says.
#[verifier::spinoff_prover]
proof fn lemma_search_attribute_replies(
    servers: Seq<SdpServer>,
    transaction_id: u16,
    pattern: DataElementV,
    attribute_ids: DataElementV,
    continuation_state: Seq<u8>,
    replies: Seq<Reply>,
    budget: nat,
)
    requires
        conversed(
            servers,
            QueryV::SearchAttributes { pattern, attribute_ids },
            transaction_id,
            continuation_state,
            replies,
        ),
        collected(search_attribute_parts(replies), budget) is Some,
    ensures
        replies == search_attribute_dialogue(
            servers[0]@,
            transaction_id,
            pattern,
            attribute_ids,
            continuation_state,
            budget,
        ),
    decreases budget,
{
    let query = QueryV::SearchAttributes { pattern, attribute_ids };
    lemma_conversed_first(servers, query, transaction_id, continuation_state, replies);
    assert(search_attribute_parts(replies).len() == replies.len());
    lemma_collected_first(search_attribute_parts(replies), budget);
    if budget > 0 {
        let rest = replies.skip(1);
        assert(search_attribute_parts(replies)[0] == search_attribute_part(replies[0]));
        assert(search_attribute_parts(replies).skip(1) =~= search_attribute_parts(rest));
        match search_attribute_part(replies[0]) {
            Ok((_, state)) => {
                if state != complete() {
                    lemma_search_attribute_replies(
                        servers.skip(1),
                        ((transaction_id + 1) % 65536) as u16,
                        pattern,
                        attribute_ids,
                        state,
                        rest,
                        (budget - 1) as nat,
                    );
                    assert(servers.skip(1)[0] == servers[1]);
                }
            },
            Err(_) => {},
        }
    }
    assert(replies =~= search_attribute_dialogue(
        servers[0]@,
        transaction_id,
        pattern,
        attribute_ids,
        continuation_state,
        budget,
    ));
}

/// A server answers a request for a record's attributes as the dialogue says.
#[verifier::spinoff_prover]
proof fn lemma_attribute_replies(
    servers: Seq<SdpServer>,
    transaction_id: u16,
    handle: u32,
    attribute_ids: DataElementV,
    continuation_state: Seq<u8>,
    replies: Seq<Reply>,
    budget: nat,
)
    requires
        conversed(
            servers,
            QueryV::Attributes { handle, attribute_ids },
            transaction_id,
            continuation_state,
            replies,
        ),
        collected(attribute_parts(replies), budget) is Some,
    ensures
        replies == attribute_dialogue(
            servers[0]@,
            transaction_id,
            handle,
            attribute_ids,
            continuation_state,
            budget,
        ),
    decreases budget,
{
    let query = QueryV::Attributes { handle, attribute_ids };
    lemma_conversed_first(servers, query, transaction_id, continuation_state, replies);
    assert(attribute_parts(replies).len() == replies.len());
    lemma_collected_first(attribute_parts(replies), budget);
    if budget > 0 {
        let rest = replies.skip(1);
        assert(attribute_parts(replies)[0] == attribute_part(replies[0]));
        assert(attribute_parts(replies).skip(1) =~= attribute_parts(rest));
        match attribute_part(replies[0]) {
            Ok((_, state)) => {
                if state != complete() {
                    lemma_attribute_replies(
                        servers.skip(1),
                        ((transaction_id + 1) % 65536) as u16,
                        handle,
                        attribute_ids,
                        state,
                        rest,
                        (budget - 1) as nat,
                    );
                    assert(servers.skip(1)[0] == servers[1]);
                }
            },
            Err(_) => {},
        }
    }
    assert(replies =~= attribute_dialogue(
        servers[0]@,
        transaction_id,
        handle,
        attribute_ids,
        continuation_state,
        budget,
    ));
}

/// A server answers a search for records as the dialogue says.
#[verifier::spinoff_prover]
proof fn lemma_search_replies(
    servers: Seq<SdpServer>,
    transaction_id: u16,
    pattern: DataElementV,
    continuation_state: Seq<u8>,
    replies: Seq<Reply>,
    budget: nat,
)
    requires
        conversed(
            servers,
            QueryV::Search { pattern },
            transaction_id,
            continuation_state,
            replies,
        ),
        collected(search_parts(replies), budget) is Some,
    ensures
        replies == search_dialogue(
            servers[0]@,
            transaction_id,
            pattern,
            continuation_state,
            budget,
        ),
    decreases budget,
{
    let query = QueryV::Search { pattern };
    lemma_conversed_first(servers, query, transaction_id, continuation_state, replies);
    assert(search_parts(replies).len() == replies.len());
    lemma_collected_first(search_parts(replies), budget);
    if budget > 0 {
        let rest = replies.skip(1);
        assert(search_parts(replies)[0] == search_part(replies[0]));
        assert(search_parts(replies).skip(1) =~= search_parts(rest));
        match search_part(replies[0]) {
            Ok((_, state)) => {
                if state != complete() {
                    lemma_search_replies(
                        servers.skip(1),
                        ((transaction_id + 1) % 65536) as u16,
                        pattern,
                        state,
                        rest,
                        (budget - 1) as nat,
                    );
                    assert(servers.skip(1)[0] == servers[1]);
                }
            },
            Err(_) => {},
        }
    }
    assert(replies =~= search_dialogue(
        servers[0]@,
        transaction_id,
        pattern,
        continuation_state,
        budget,
    ));
}

/// A client whose transport is a server and that searches for attributes gets
/// the server's whole answer, whatever the size of the responses: no other
/// replies than those that add up to it can have come.
pub proof fn client_gets_the_searched_attributes(
    servers: Seq<SdpServer>,
    transaction_id: u16,
    uuids: Seq<Uuid>,
    ids: Seq<AttributeId>,
    replies: Seq<Reply>,
)
    requires
        conversed(servers, QueryV::of_search(uuids, ids), transaction_id, complete(), replies),
        collected(search_attribute_parts(replies), CONTINUATION_WATCHDOG as nat) is Some,
        servers[0]@.mtu > 9,
        servers[0]@.search_attribute_answer(pattern_of(uuids), id_list_of(ids)).len() <= (
        servers[0]@.mtu - 9) * CONTINUATION_WATCHDOG,
    ensures
        collected(search_attribute_parts(replies), CONTINUATION_WATCHDOG as nat) == Some(
            Ok::<Seq<u8>, ClientErrorV>(
                servers[0]@.search_attribute_answer(pattern_of(uuids), id_list_of(ids)),
            ),
        ),
{
    lemma_search_attribute_replies(
        servers,
        transaction_id,
        pattern_of(uuids),
        id_list_of(ids),
        complete(),
        replies,
        CONTINUATION_WATCHDOG as nat,
    );
    attribute_search_is_reassembled(
        servers[0]@,
        transaction_id,
        pattern_of(uuids),
        id_list_of(ids),
    );
}

/// A client whose transport is a server and that asks for a record's attributes
/// gets the server's whole answer, whatever the size of the responses.
pub proof fn client_gets_the_attributes_of_a_record(
    servers: Seq<SdpServer>,
    transaction_id: u16,
    handle: u32,
    ids: Seq<AttributeId>,
    replies: Seq<Reply>,
)
    requires
        conversed(servers, QueryV::of_record(handle, ids), transaction_id, complete(), replies),
        collected(attribute_parts(replies), CONTINUATION_WATCHDOG as nat) is Some,
        servers[0]@.mtu > 9,
        record_with(servers[0]@.records, handle) is Some,
        SdpServerV::attribute_answer(
            record_with(servers[0]@.records, handle)->0,
            id_list_of(ids),
        ).len() <= (servers[0]@.mtu - 9) * CONTINUATION_WATCHDOG,
    ensures
        collected(attribute_parts(replies), CONTINUATION_WATCHDOG as nat) == Some(
            Ok::<Seq<u8>, ClientErrorV>(
                SdpServerV::attribute_answer(
                    record_with(servers[0]@.records, handle)->0,
                    id_list_of(ids),
                ),
            ),
        ),
{
    lemma_attribute_replies(
        servers,
        transaction_id,
        handle,
        id_list_of(ids),
        complete(),
        replies,
        CONTINUATION_WATCHDOG as nat,
    );
    attribute_request_is_reassembled(servers[0]@, transaction_id, handle, id_list_of(ids));
}

/// A client whose transport is a server and that searches for records gets the
/// handles of all that match, whatever the size of the responses.
pub proof fn client_gets_the_matching_handles(
    servers: Seq<SdpServer>,
    transaction_id: u16,
    uuids: Seq<Uuid>,
    replies: Seq<Reply>,
)
    requires
        conversed(servers, QueryV::of_uuids(uuids), transaction_id, complete(), replies),
        collected(search_parts(replies), CONTINUATION_WATCHDOG as nat) is Some,
        servers[0]@.mtu >= 15,
        servers[0]@.matching_handles(pattern_of(uuids)).len() <= 0xFFFF,
        servers[0]@.matching_handles(pattern_of(uuids)).len() <= ((servers[0]@.mtu - 11) / 4)
            * CONTINUATION_WATCHDOG,
    ensures
        collected(search_parts(replies), CONTINUATION_WATCHDOG as nat) == Some(
            Ok::<Seq<u32>, ClientErrorV>(servers[0]@.matching_handles(pattern_of(uuids))),
        ),
{
    lemma_search_replies(
        servers,
        transaction_id,
        pattern_of(uuids),
        complete(),
        replies,
        CONTINUATION_WATCHDOG as nat,
    );
    record_search_is_reassembled(servers[0]@, transaction_id, pattern_of(uuids));
}

} // verus!
