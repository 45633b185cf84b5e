//! What holds of the single responses of a server: their size, their kind, and
//! how an answer is cut into them.

use vstd::prelude::*;

use super::element::DataElementV;
use super::pdu::{lemma_handle_bytes, SdpPduV};
use super::server::{complete, least, more_to_come, CurrentResponseV, SdpServerV};

verus! {

/// Whether a response is of the kind that a request asks for, or refuses it.
pub open spec fn suits(request: SdpPduV, response: SdpPduV) -> bool {
    match request {
        SdpPduV::ServiceSearchRequest { .. } => response is ServiceSearchResponse || response
            is ErrorResponse,
        SdpPduV::ServiceAttributeRequest { .. } => response is ServiceAttributeResponse || response
            is ErrorResponse,
        SdpPduV::ServiceSearchAttributeRequest { .. } => response is ServiceSearchAttributeResponse
            || response is ErrorResponse,
        _ => response is ErrorResponse,
    }
}

/// The least MTU that has room for a response without any contents.
pub open spec fn least_mtu(request: SdpPduV) -> int {
    if request is ServiceSearchRequest {
        11
    } else {
        9
    }
}

/// Every response belongs to the transaction of its request, is of the right
/// kind, and can be written in no more bytes than the peer takes. An MTU without
/// room for an empty response is left out.
pub proof fn response_suits_the_request(server: SdpServerV, request: SdpPduV)
    requires
        server.mtu >= least_mtu(request),
    ensures
        ({
            let response = server.handled(request).1;
            &&& response.transaction_id() == request.transaction_id()
            &&& suits(request, response)
            &&& response.encode() matches Ok(bytes) && bytes.len() <= server.mtu
        }),
{
    reveal(SdpServerV::search_attribute_handled);
    reveal(SdpServerV::attribute_handled);
    reveal(SdpServerV::search_handled);
    let response = server.handled(request).1;
    match response {
        SdpPduV::ServiceSearchResponse { service_record_handle_list, .. } => {
            lemma_handle_bytes(service_record_handle_list);
        },
        _ => {},
    }
}

/// How many responses an answer of some length takes.
pub open spec fn page_count(length: int, cap: int) -> int {
    if length <= cap {
        1
    } else {
        (length + cap - 1) / cap
    }
}

/// The response with an index to a search for attributes.
pub open spec fn page(answer: Seq<u8>, cap: int, index: int, transaction_id: u16) -> SdpPduV {
    let start = index * cap;
    SdpPduV::ServiceSearchAttributeResponse {
        transaction_id,
        attribute_lists: answer.subrange(start, least(start + cap, answer.len() as int)),
        continuation_state: if start + cap < answer.len() {
            more_to_come()
        } else {
            complete()
        },
    }
}

/// The responses of a server to a search for attributes that is repeated with
/// the continuation state of the response before, for as long as there is more
/// to come and there are transactions left.
pub open spec fn paged(
    server: SdpServerV,
    pattern: DataElementV,
    maximum: u16,
    attribute_ids: DataElementV,
    continuation_state: Seq<u8>,
    transactions: Seq<u16>,
) -> Seq<SdpPduV>
    decreases transactions.len(),
{
    if transactions.len() == 0 {
        seq![]
    } else {
        let (next, response) = server.search_attribute_handled(
            transactions[0],
            pattern,
            maximum,
            attribute_ids,
            continuation_state,
        );
        seq![response] + match response {
            SdpPduV::ServiceSearchAttributeResponse { continuation_state, .. } => if continuation_state
                == complete() {
                seq![]
            } else {
                paged(
                    next,
                    pattern,
                    maximum,
                    attribute_ids,
                    continuation_state,
                    transactions.skip(1),
                )
            },
            _ => seq![],
        }
    }
}

/// The attribute bytes of responses one behind the other.
pub open spec fn contents(responses: Seq<SdpPduV>) -> Seq<u8>
    decreases responses.len(),
{
    if responses.len() == 0 {
        seq![]
    } else {
        contents(responses.drop_last()) + responses.last()->attribute_lists
    }
}

proof fn lemma_page_count_positive(length: int, cap: int)
    requires
        cap > 0,
    ensures
        page_count(length, cap) >= 1,
    decreases length,
{
    if length > cap {
        lemma_page_count(length, cap);
        lemma_page_count_positive(length - cap, cap);
    }
}

/// Every page but the last is full, and one byte at least comes behind it.
proof fn lemma_page_within(length: int, cap: int, index: int)
    requires
        cap > 0,
        0 <= index < page_count(length, cap) - 1,
    ensures
        0 <= index * cap,
        index * cap + cap < length,
    decreases length,
{
    lemma_page_count_positive(length, cap);
    lemma_page_count(length, cap);
    if index > 0 {
        lemma_page_within(length - cap, cap, index - 1);
        assert((index - 1) * cap == index * cap - cap) by (nonlinear_arith);
    }
}

/// The last page holds what is left, which is no more than a page holds.
proof fn lemma_page_last(length: int, cap: int)
    requires
        cap > 0,
        length >= 0,
    ensures
        ({
            let start = (page_count(length, cap) - 1) * cap;
            0 <= start <= length <= start + cap
        }),
    decreases length,
{
    if length > cap {
        lemma_page_count(length, cap);
        lemma_page_last(length - cap, cap);
        let index = page_count(length, cap) - 1;
        assert((index - 1) * cap == index * cap - cap) by (nonlinear_arith);
    } else {
        assert(page_count(length, cap) - 1 == 0);
        assert((page_count(length, cap) - 1) * cap == 0) by (nonlinear_arith)
            requires
                page_count(length, cap) - 1 == 0,
        ;
    }
}

proof fn lemma_contents(
    answer: Seq<u8>,
    cap: int,
    transactions: Seq<u16>,
    responses: Seq<SdpPduV>,
    count: int,
)
    requires
        cap > 0,
        responses.len() == page_count(answer.len() as int, cap),
        0 <= count <= responses.len(),
        forall|i: int|
            0 <= i < responses.len() ==> #[trigger] responses[i] == page(
                answer,
                cap,
                i,
                transactions[i],
            ),
    ensures
        0 <= count * cap,
        contents(responses.take(count)) == answer.take(least(count * cap, answer.len() as int)),
    decreases count,
{
    let part = responses.take(count);
    if count == 0 {
        assert(answer.take(0) =~= seq![]);
        assert(0 * cap == 0);
    } else {
        lemma_contents(answer, cap, transactions, responses, count - 1);
        assert((count - 1) * cap == count * cap - cap) by (nonlinear_arith);
        assert(part.drop_last() =~= responses.take(count - 1));
        assert(part.last() == responses[count - 1]);
        if count < responses.len() {
            lemma_page_within(answer.len() as int, cap, count - 1);
        } else {
            lemma_page_last(answer.len() as int, cap);
        }
        let start = (count - 1) * cap;
        let end = least(count * cap, answer.len() as int);
        assert(answer.take(start) + answer.subrange(start, end) =~= answer.take(end));
    }
}

proof fn lemma_page_count(length: int, cap: int)
    requires
        cap > 0,
        length > cap,
    ensures
        page_count(length, cap) == 1 + page_count(length - cap, cap),
{
    let top = length + cap - 1;
    vstd::arithmetic::div_mod::lemma_div_plus_one(top - cap, cap);
    assert(top / cap == 1 + (top - cap) / cap);
    if length - cap <= cap {
        vstd::arithmetic::div_mod::lemma_fundamental_div_mod_converse(
            length - 1,
            cap,
            1,
            length - 1 - cap,
        );
    }
}

proof fn lemma_later_page(answer: Seq<u8>, cap: int, index: int, transaction_id: u16)
    requires
        cap > 0,
        index >= 0,
        cap < answer.len(),
        index == 0 || index * cap < answer.len() - cap,
    ensures
        page(answer.skip(cap), cap, index, transaction_id) == page(
            answer,
            cap,
            index + 1,
            transaction_id,
        ),
{
    assert((index + 1) * cap == index * cap + cap) by (nonlinear_arith);
    assert(index * cap >= 0) by (nonlinear_arith)
        requires
            index >= 0,
            cap > 0,
    ;
    let rest = answer.skip(cap);
    let start = index * cap;
    let end = least(start + cap, rest.len() as int);
    assert(rest.subrange(start, end) =~= answer.subrange(start + cap, end + cap));
}

proof fn lemma_rest_paged(
    server: SdpServerV,
    pattern: DataElementV,
    maximum: u16,
    attribute_ids: DataElementV,
    transactions: Seq<u16>,
    answer: Seq<u8>,
)
    requires
        server.current_response == Some(CurrentResponseV::Bytes(answer)),
        server.byte_cap(maximum) > 0,
        transactions.len() >= page_count(answer.len() as int, server.byte_cap(maximum)),
    ensures
        ({
            let cap = server.byte_cap(maximum);
            let responses = paged(
                server,
                pattern,
                maximum,
                attribute_ids,
                more_to_come(),
                transactions,
            );
            &&& responses.len() == page_count(answer.len() as int, cap)
            &&& forall|i: int|
                0 <= i < responses.len() ==> #[trigger] responses[i] == page(
                    answer,
                    cap,
                    i,
                    transactions[i],
                ) && (i == 0 || i * cap < answer.len())
        }),
    decreases transactions.len(),
{
    reveal(SdpServerV::search_attribute_handled);
    let cap = server.byte_cap(maximum);
    let responses = paged(server, pattern, maximum, attribute_ids, more_to_come(), transactions);
    let (next, first) = server.search_attribute_handled(
        transactions[0],
        pattern,
        maximum,
        attribute_ids,
        more_to_come(),
    );
    assert(more_to_come().len() > 1 && more_to_come() != complete());
    assert(0 * cap == 0);
    if answer.len() > cap {
        let rest = answer.skip(cap);
        let later = transactions.skip(1);
        lemma_page_count(answer.len() as int, cap);
        lemma_rest_paged(next, pattern, maximum, attribute_ids, later, rest);
        let others = paged(next, pattern, maximum, attribute_ids, more_to_come(), later);
        assert(first == page(answer, cap, 0, transactions[0])) by {
            assert(answer.take(cap) =~= answer.subrange(0, cap));
        }
        assert(responses =~= seq![first] + others);
        assert forall|i: int| 0 <= i < responses.len() implies #[trigger] responses[i] == page(
            answer,
            cap,
            i,
            transactions[i],
        ) && (i == 0 || i * cap < answer.len()) by {
            if i > 0 {
                assert(responses[i] == others[i - 1]);
                assert(later[i - 1] == transactions[i]);
                assert((i - 1) * cap == i * cap - cap) by (nonlinear_arith);
                lemma_later_page(answer, cap, i - 1, transactions[i]);
            }
        }
    } else {
        assert(answer.subrange(0, answer.len() as int) =~= answer);
        assert(responses =~= seq![first]);
    }
}

/// An answer to a search for attributes comes in as few responses as its length
/// allows. Each but the last has as many bytes as the MTU and the request let it
/// have and says that there is more to come; the last has the bytes that are
/// left and says that there are none. What the responses hold, one behind the
/// other, is the whole answer.
pub proof fn answer_comes_in_pages(
    server: SdpServerV,
    pattern: DataElementV,
    maximum: u16,
    attribute_ids: DataElementV,
    transactions: Seq<u16>,
)
    requires
        server.mtu >= 10,
        maximum >= 1,
        transactions.len() >= page_count(
            server.search_attribute_answer(pattern, attribute_ids).len() as int,
            server.byte_cap(maximum),
        ),
    ensures
        ({
            let answer = server.search_attribute_answer(pattern, attribute_ids);
            let cap = server.byte_cap(maximum);
            let count = page_count(answer.len() as int, cap);
            let responses = paged(
                server,
                pattern,
                maximum,
                attribute_ids,
                complete(),
                transactions,
            );
            &&& responses.len() == count
            &&& forall|i: int|
                0 <= i < count ==> #[trigger] responses[i] == page(answer, cap, i, transactions[i])
            &&& forall|i: int|
                0 <= i < count - 1 ==> (#[trigger] responses[i])->attribute_lists.len() == cap
                    && responses[i]->ServiceSearchAttributeResponse_continuation_state
                    == more_to_come()
            &&& responses.last()->attribute_lists.len() <= cap
            &&& responses.last()->ServiceSearchAttributeResponse_continuation_state == complete()
            &&& contents(responses) == answer
        }),
{
    reveal(SdpServerV::search_attribute_handled);
    let answer = server.search_attribute_answer(pattern, attribute_ids);
    let cap = server.byte_cap(maximum);
    let ready = server.with_answer(CurrentResponseV::Bytes(answer));
    assert(complete().len() == 1 && more_to_come().len() == 2);
    lemma_rest_paged(ready, pattern, maximum, attribute_ids, transactions, answer);
    lemma_page_count_positive(answer.len() as int, cap);
    let responses = paged(server, pattern, maximum, attribute_ids, complete(), transactions);
    assert(responses == paged(
        ready,
        pattern,
        maximum,
        attribute_ids,
        more_to_come(),
        transactions,
    ));
    let count = page_count(answer.len() as int, cap);
    assert forall|i: int| 0 <= i < count - 1 implies (
    #[trigger] responses[i])->attribute_lists.len() == cap
        && responses[i]->ServiceSearchAttributeResponse_continuation_state == more_to_come() by {
        lemma_page_within(answer.len() as int, cap, i);
    }
    lemma_page_last(answer.len() as int, cap);
    lemma_contents(answer, cap, transactions, responses, count);
    assert((count - 1) * cap == count * cap - cap) by (nonlinear_arith);
    assert(least(count * cap, answer.len() as int) == answer.len());
    assert(responses.last() == page(answer, cap, count - 1, transactions[count - 1]));
    assert(responses.take(count) =~= responses);
    assert(answer.take(answer.len() as int) =~= answer);
}

} // verus!
