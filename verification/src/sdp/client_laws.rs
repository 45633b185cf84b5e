//! What a client gets from a server, as a whole: of each record that was looked
//! for, the attributes that were asked for, whatever the size of the responses.

use vstd::prelude::*;

use super::attribute::{attribute_elements, id_element, uuid_in, ServiceAttributeV};
use super::client::{
    collected, conversed, id_list_of, parsed_lists, pattern_of, search_attribute_parts,
    AttributeId, QueryV, Reply, CONTINUATION_WATCHDOG,
};
use super::element::{byte_span, DataElementV};
use super::element_laws::{
    deepest, nesting, small_element_is_declarable, uuids_valid, well_formed,
    well_formed_element_is_written, written_size,
};
use super::server::{
    attribute_lists, complete, inserted, matching, named, named_by_all, names_uuid, record_matches,
    selected, selects, sorted_by_id, SdpServer, ServiceRecordV,
};
use super::service_laws::{
    answer_is_in_order, attribute_search_finds_the_selected, client_gets_the_searched_attributes,
    in_order, selected_lists,
};
use super::{ErrorV, MAX_NESTING};
use crate::values::BluetoothUuid as Uuid;

verus! {

impl AttributeId {
    /// Whether a selector names an attribute identifier.
    pub open spec fn names(self, id: u16) -> bool {
        match self {
            AttributeId::Id(single) => id == single,
            AttributeId::Range(start, end) => start <= id <= end,
        }
    }
}

/// Whether one of the selectors names an attribute identifier.
pub open spec fn named_by_any(ids: Seq<AttributeId>, id: u16) -> bool {
    exists|i: int| 0 <= i < ids.len() && (#[trigger] ids[i]).names(id)
}

/// Whether no two selectors name the same attribute identifier.
pub open spec fn disjoint(ids: Seq<AttributeId>) -> bool {
    forall|i: int, j: int, id: u16|
        0 <= i < j < ids.len() ==> !(#[trigger] ids[i].names(id) && #[trigger] ids[j].names(id))
}

/// The attributes of a record that the selectors name, in the record's order.
pub open spec fn chosen(attributes: Seq<ServiceAttributeV>, ids: Seq<AttributeId>) -> Seq<
    ServiceAttributeV,
>
    decreases attributes.len(),
{
    if attributes.len() == 0 {
        seq![]
    } else {
        let before = chosen(attributes.drop_last(), ids);
        if named_by_any(ids, attributes.last().id) {
            before.push(attributes.last())
        } else {
            before
        }
    }
}

/// Whether one of the UUIDs occurs in the value of an attribute.
pub open spec fn offers(attributes: Seq<ServiceAttributeV>, uuids: Seq<Uuid>) -> bool {
    exists|i: int, j: int|
        0 <= i < uuids.len() && 0 <= j < attributes.len() && #[trigger] uuid_in(
            uuids[i]@,
            attributes[j].value,
        )
}

/// The attributes of each record that offers one of the UUIDs and has an
/// attribute that was asked for: those that were asked for, in the order of
/// their identifiers.
pub open spec fn found(
    records: Seq<ServiceRecordV>,
    uuids: Seq<Uuid>,
    ids: Seq<AttributeId>,
) -> Seq<Seq<ServiceAttributeV>>
    decreases records.len(),
{
    if records.len() == 0 {
        seq![]
    } else {
        let before = found(records.drop_last(), uuids, ids);
        let attributes = records.last().attributes;
        let list = sorted_by_id(chosen(attributes, ids));
        if offers(attributes, uuids) && list.len() > 0 {
            before.push(list)
        } else {
            before
        }
    }
}

/// The attributes with an identifier, in order.
spec fn of_id(attributes: Seq<ServiceAttributeV>, id: u16) -> Seq<ServiceAttributeV>
    decreases attributes.len(),
{
    if attributes.len() == 0 {
        seq![]
    } else {
        let before = of_id(attributes.drop_last(), id);
        if attributes.last().id == id {
            before.push(attributes.last())
        } else {
            before
        }
    }
}

proof fn lemma_of_id_push(attributes: Seq<ServiceAttributeV>, last: ServiceAttributeV, id: u16)
    ensures
        of_id(attributes.push(last), id) == if last.id == id {
            of_id(attributes, id).push(last)
        } else {
            of_id(attributes, id)
        },
{
    assert(attributes.push(last).drop_last() =~= attributes);
}

proof fn lemma_of_id_concat(
    left: Seq<ServiceAttributeV>,
    right: Seq<ServiceAttributeV>,
    id: u16,
)
    ensures
        of_id(left + right, id) == of_id(left, id) + of_id(right, id),
    decreases right.len(),
{
    if right.len() == 0 {
        assert(left + right =~= left);
        assert(of_id(left, id) + of_id(right, id) =~= of_id(left, id));
    } else {
        let rest = right.drop_last();
        lemma_of_id_concat(left, rest, id);
        assert(left + right =~= (left + rest).push(right.last()));
        lemma_of_id_push(left + rest, right.last(), id);
        assert((of_id(left, id) + of_id(rest, id)).push(right.last()) =~= of_id(left, id) + of_id(
            rest,
            id,
        ).push(right.last()));
    }
}

/// Whether an identifier occurs.
proof fn lemma_of_id_empty(attributes: Seq<ServiceAttributeV>, id: u16, at: int)
    requires
        0 <= at < attributes.len(),
        attributes[at].id == id,
    ensures
        of_id(attributes, id).len() > 0,
    decreases attributes.len(),
{
    if at < attributes.len() - 1 {
        lemma_of_id_empty(attributes.drop_last(), id, at);
    }
}

proof fn lemma_of_id_found(attributes: Seq<ServiceAttributeV>, id: u16) -> (at: int)
    requires
        of_id(attributes, id).len() > 0,
    ensures
        0 <= at < attributes.len(),
        attributes[at].id == id,
    decreases attributes.len(),
{
    if attributes.last().id == id {
        attributes.len() - 1
    } else {
        lemma_of_id_found(attributes.drop_last(), id)
    }
}

/// Sorted lists with the same attributes under each identifier are the same.
proof fn lemma_sorted_unique(left: Seq<ServiceAttributeV>, right: Seq<ServiceAttributeV>)
    requires
        in_order(left),
        in_order(right),
        forall|id: u16| #[trigger] of_id(left, id) == of_id(right, id),
    ensures
        left == right,
    decreases left.len(),
{
    if left.len() == 0 {
        if right.len() > 0 {
            lemma_of_id_empty(right, right[0].id, 0);
            assert(of_id(left, right[0].id) == of_id(right, right[0].id));
        }
        assert(left =~= right);
    } else {
        let last = left.last();
        lemma_of_id_empty(left, last.id, left.len() - 1);
        assert(of_id(left, last.id) == of_id(right, last.id));
        let at = lemma_of_id_found(right, last.id);
        assert(right[at].id <= right.last().id);
        let other = right.last();
        lemma_of_id_empty(right, other.id, right.len() - 1);
        assert(of_id(left, other.id) == of_id(right, other.id));
        let back = lemma_of_id_found(left, other.id);
        assert(left[back].id <= left.last().id);
        assert(last.id == other.id);
        assert(of_id(left, last.id).last() == last);
        assert(of_id(right, last.id).last() == other);
        let one = left.drop_last();
        let two = right.drop_last();
        assert forall|id: u16| #[trigger] of_id(one, id) == of_id(two, id) by {
            assert(of_id(left, id) == of_id(right, id));
            if id == last.id {
                assert(of_id(left, id).drop_last() =~= of_id(one, id));
                assert(of_id(right, id).drop_last() =~= of_id(two, id));
            }
        }
        lemma_sorted_unique(one, two);
        assert(left =~= one.push(last));
        assert(right =~= two.push(last));
    }
}

proof fn lemma_of_id_inserted(
    sorted: Seq<ServiceAttributeV>,
    attribute: ServiceAttributeV,
    id: u16,
)
    requires
        in_order(sorted),
    ensures
        of_id(inserted(sorted, attribute), id) == of_id(sorted.push(attribute), id),
    decreases sorted.len(),
{
    if sorted.len() > 0 && sorted.last().id > attribute.id {
        let head = sorted.drop_last();
        lemma_of_id_inserted(head, attribute, id);
        lemma_of_id_push(inserted(head, attribute), sorted.last(), id);
        lemma_of_id_push(head, attribute, id);
        lemma_of_id_push(sorted, attribute, id);
    }
}

proof fn lemma_of_id_sorted(attributes: Seq<ServiceAttributeV>, id: u16)
    ensures
        of_id(sorted_by_id(attributes), id) == of_id(attributes, id),
    decreases attributes.len(),
{
    if attributes.len() > 0 {
        let head = attributes.drop_last();
        lemma_of_id_sorted(head, id);
        answer_is_in_order(head);
        lemma_of_id_inserted(sorted_by_id(head), attributes.last(), id);
        lemma_of_id_push(sorted_by_id(head), attributes.last(), id);
    }
}

proof fn lemma_selects(selector: AttributeId, id: u16)
    ensures
        selects(selector.element(), id) == selector.names(id),
{
    match selector {
        AttributeId::Id(single) => {},
        AttributeId::Range(start, end) => {
            let value = start * 65536 + end;
            assert(value / 65536 == start && value % 65536 == end);
        },
    }
}

proof fn lemma_of_id_named(attributes: Seq<ServiceAttributeV>, selector: DataElementV, id: u16)
    ensures
        of_id(named(attributes, selector), id) == if selects(selector, id) {
            of_id(attributes, id)
        } else {
            seq![]
        },
    decreases attributes.len(),
{
    if attributes.len() > 0 {
        let head = attributes.drop_last();
        lemma_of_id_named(head, selector, id);
        if selects(selector, attributes.last().id) {
            lemma_of_id_push(named(head, selector), attributes.last(), id);
        }
    }
}

/// The elements of a list of selectors.
spec fn selectors_of(ids: Seq<AttributeId>) -> Seq<DataElementV> {
    ids.map_values(|id: AttributeId| id.element())
}

proof fn lemma_of_id_named_by_all(
    attributes: Seq<ServiceAttributeV>,
    ids: Seq<AttributeId>,
    id: u16,
)
    requires
        disjoint(ids),
    ensures
        of_id(named_by_all(attributes, selectors_of(ids)), id) == if named_by_any(ids, id) {
            of_id(attributes, id)
        } else {
            seq![]
        },
    decreases ids.len(),
{
    let selectors = selectors_of(ids);
    if ids.len() > 0 {
        let head = ids.drop_last();
        assert(selectors.drop_last() =~= selectors_of(head));
        assert(selectors.last() == ids.last().element());
        assert forall|i: int, j: int, other: u16| 0 <= i < j < head.len() implies !(
        #[trigger] head[i].names(other) && #[trigger] head[j].names(other)) by {
            assert(head[i] == ids[i] && head[j] == ids[j]);
        }
        lemma_of_id_named_by_all(attributes, head, id);
        lemma_of_id_named(attributes, ids.last().element(), id);
        lemma_selects(ids.last(), id);
        lemma_of_id_concat(
            named_by_all(attributes, selectors_of(head)),
            named(attributes, ids.last().element()),
            id,
        );
        let all = of_id(attributes, id);
        assert(all + Seq::<ServiceAttributeV>::empty() =~= all);
        assert(Seq::<ServiceAttributeV>::empty() + all =~= all);
        if named_by_any(head, id) {
            let i = choose|i: int| 0 <= i < head.len() && (#[trigger] head[i]).names(id);
            assert(ids[i].names(id));
            assert(!ids[ids.len() - 1].names(id));
        } else if ids.last().names(id) {
            assert(ids[ids.len() - 1].names(id));
        } else {
            assert(!named_by_any(ids, id)) by {
                if named_by_any(ids, id) {
                    let i = choose|i: int| 0 <= i < ids.len() && (#[trigger] ids[i]).names(id);
                    assert(head[i].names(id));
                }
            }
        }
    }
}

proof fn lemma_of_id_chosen(
    attributes: Seq<ServiceAttributeV>,
    ids: Seq<AttributeId>,
    id: u16,
)
    ensures
        of_id(chosen(attributes, ids), id) == if named_by_any(ids, id) {
            of_id(attributes, id)
        } else {
            seq![]
        },
    decreases attributes.len(),
{
    if attributes.len() > 0 {
        let head = attributes.drop_last();
        lemma_of_id_chosen(head, ids, id);
        if named_by_any(ids, attributes.last().id) {
            lemma_of_id_push(chosen(head, ids), attributes.last(), id);
        }
    }
}

/// Selectors that do not overlap select each attribute that one of them names
/// exactly once.
pub proof fn disjoint_selectors_select_once(
    attributes: Seq<ServiceAttributeV>,
    ids: Seq<AttributeId>,
)
    requires
        disjoint(ids),
    ensures
        sorted_by_id(
            named_by_all(attributes, ids.map_values(|id: AttributeId| id.element())),
        ) == sorted_by_id(chosen(attributes, ids)),
        in_order(sorted_by_id(chosen(attributes, ids))),
        sorted_by_id(chosen(attributes, ids)).to_multiset() == chosen(
            attributes,
            ids,
        ).to_multiset(),
{
    let left = named_by_all(attributes, selectors_of(ids));
    let right = chosen(attributes, ids);
    answer_is_in_order(left);
    answer_is_in_order(right);
    assert forall|id: u16| #[trigger]
        of_id(sorted_by_id(left), id) == of_id(sorted_by_id(right), id) by {
        lemma_of_id_sorted(left, id);
        lemma_of_id_sorted(right, id);
        lemma_of_id_named_by_all(attributes, ids, id);
        lemma_of_id_chosen(attributes, ids, id);
    }
    lemma_sorted_unique(sorted_by_id(left), sorted_by_id(right));
}

/// Whether an attribute can be part of an answer: its value has a form on the
/// wire, and leaves room for the two sequences around it.
pub open spec fn portable_attribute(attribute: ServiceAttributeV) -> bool {
    well_formed(attribute.value) && nesting(attribute.value) + 2 <= MAX_NESTING
}

/// Whether all attributes can be part of an answer.
pub open spec fn portable_attributes(attributes: Seq<ServiceAttributeV>) -> bool {
    forall|i: int| 0 <= i < attributes.len() ==> portable_attribute(#[trigger] attributes[i])
}

/// Whether all attributes of all records can be part of an answer.
pub open spec fn portable_records(records: Seq<ServiceRecordV>) -> bool {
    forall|i: int|
        0 <= i < records.len() ==> portable_attributes((#[trigger] records[i]).attributes)
}

proof fn lemma_portable_inserted(sorted: Seq<ServiceAttributeV>, attribute: ServiceAttributeV)
    requires
        portable_attributes(sorted),
        portable_attribute(attribute),
    ensures
        portable_attributes(inserted(sorted, attribute)),
    decreases sorted.len(),
{
    if sorted.len() > 0 && sorted.last().id > attribute.id {
        let head = sorted.drop_last();
        assert forall|i: int| 0 <= i < head.len() implies portable_attribute(
            #[trigger] head[i],
        ) by {
            assert(head[i] == sorted[i]);
        }
        lemma_portable_inserted(head, attribute);
        assert(portable_attribute(sorted[sorted.len() - 1]));
    }
}

proof fn lemma_portable_sorted(attributes: Seq<ServiceAttributeV>)
    requires
        portable_attributes(attributes),
    ensures
        portable_attributes(sorted_by_id(attributes)),
    decreases attributes.len(),
{
    if attributes.len() > 0 {
        let head = attributes.drop_last();
        assert forall|i: int| 0 <= i < head.len() implies portable_attribute(
            #[trigger] head[i],
        ) by {
            assert(head[i] == attributes[i]);
        }
        lemma_portable_sorted(head);
        assert(portable_attribute(attributes[attributes.len() - 1]));
        lemma_portable_inserted(sorted_by_id(head), attributes.last());
    }
}

proof fn lemma_portable_named(attributes: Seq<ServiceAttributeV>, selector: DataElementV)
    requires
        portable_attributes(attributes),
    ensures
        portable_attributes(named(attributes, selector)),
    decreases attributes.len(),
{
    if attributes.len() > 0 {
        let head = attributes.drop_last();
        assert forall|i: int| 0 <= i < head.len() implies portable_attribute(
            #[trigger] head[i],
        ) by {
            assert(head[i] == attributes[i]);
        }
        lemma_portable_named(head, selector);
        assert(portable_attribute(attributes[attributes.len() - 1]));
    }
}

proof fn lemma_portable_named_by_all(
    attributes: Seq<ServiceAttributeV>,
    selectors: Seq<DataElementV>,
)
    requires
        portable_attributes(attributes),
    ensures
        portable_attributes(named_by_all(attributes, selectors)),
    decreases selectors.len(),
{
    if selectors.len() > 0 {
        lemma_portable_named_by_all(attributes, selectors.drop_last());
        lemma_portable_named(attributes, selectors.last());
    }
}

proof fn lemma_deepest_bound(elements: Seq<DataElementV>, count: nat, bound: nat)
    requires
        count <= elements.len(),
        forall|i: int| 0 <= i < elements.len() ==> nesting(#[trigger] elements[i]) <= bound,
    ensures
        deepest(elements, count) <= bound,
    decreases count,
{
    if count > 0 {
        lemma_deepest_bound(elements, (count - 1) as nat, bound);
        assert(nesting(elements[count - 1]) <= bound);
    }
}

/// The list of a record has a form on the wire.
proof fn lemma_selected_is_portable(
    attributes: Seq<ServiceAttributeV>,
    selectors: Seq<DataElementV>,
)
    requires
        portable_attributes(attributes),
    ensures
        well_formed(DataElementV::Sequence(selected(attributes, selectors))),
        nesting(DataElementV::Sequence(selected(attributes, selectors))) + 1 <= MAX_NESTING,
{
    let list = sorted_by_id(named_by_all(attributes, selectors));
    lemma_portable_named_by_all(attributes, selectors);
    lemma_portable_sorted(named_by_all(attributes, selectors));
    let elements = attribute_elements(list);
    assert forall|i: int| 0 <= i < elements.len() implies well_formed(#[trigger] elements[i])
        && nesting(elements[i]) + 2 <= MAX_NESTING by {
        if i % 2 == 0 {
            assert(elements[i] == id_element(list[i / 2].id));
            reveal_with_fuel(byte_span, 3);
        } else {
            assert(portable_attribute(list[i / 2]));
        }
    }
    lemma_deepest_bound(elements, elements.len(), (MAX_NESTING - 2) as nat);
    let element = DataElementV::Sequence(elements);
    assert(element->Sequence_0 == elements);
}

proof fn lemma_lists_are_portable(records: Seq<ServiceRecordV>, selectors: Seq<DataElementV>)
    requires
        portable_records(records),
    ensures
        forall|i: int|
            0 <= i < attribute_lists(records, selectors).len() ==> well_formed(
                #[trigger] attribute_lists(records, selectors)[i],
            ) && nesting(attribute_lists(records, selectors)[i]) + 1 <= MAX_NESTING,
    decreases records.len(),
{
    if records.len() > 0 {
        let head = records.drop_last();
        assert forall|i: int| 0 <= i < head.len() implies portable_attributes(
            (#[trigger] head[i]).attributes,
        ) by {
            assert(head[i] == records[i]);
        }
        lemma_lists_are_portable(head, selectors);
        assert(portable_attributes(records[records.len() - 1].attributes));
        lemma_selected_is_portable(records.last().attributes, selectors);
        let before = attribute_lists(head, selectors);
        let all = attribute_lists(records, selectors);
        assert forall|i: int| 0 <= i < all.len() implies well_formed(#[trigger] all[i])
            && nesting(all[i]) + 1 <= MAX_NESTING by {
            if i < before.len() {
                assert(all[i] == before[i]);
            }
        }
    }
}

/// Records whose attributes have a form on the wire make an answer that can be
/// written, as long as its size can be declared, and then takes that size.
pub proof fn portable_records_make_a_writable_answer(
    records: Seq<ServiceRecordV>,
    selectors: Seq<DataElementV>,
)
    requires
        portable_records(records),
        written_size(DataElementV::Sequence(attribute_lists(records, selectors))) <= 0xFFFF_FFFF,
    ensures
        ({
            let answer = DataElementV::Sequence(attribute_lists(records, selectors));
            &&& answer.encode() matches Ok(bytes) && bytes.len() == written_size(answer)
            &&& uuids_valid(answer)
            &&& nesting(answer) <= MAX_NESTING
        }),
{
    let lists = attribute_lists(records, selectors);
    let answer = DataElementV::Sequence(lists);
    lemma_lists_are_portable(records, selectors);
    lemma_deepest_bound(lists, lists.len(), (MAX_NESTING - 1) as nat);
    assert(answer->Sequence_0 == lists);
    assert(well_formed(answer));
    well_formed_element_is_written(answer);
    small_element_is_declarable(answer);
}

proof fn lemma_offers(attributes: Seq<ServiceAttributeV>, uuids: Seq<Uuid>)
    ensures
        record_matches(pattern_of(uuids), attributes) == offers(attributes, uuids),
{
    let elements = uuids.map_values(|uuid: Uuid| DataElementV::Uuid(uuid@));
    let pattern = pattern_of(uuids);
    assert(pattern->Sequence_0 == elements);
    if offers(attributes, uuids) {
        let (i, j) = choose|i: int, j: int|
            0 <= i < uuids.len() && 0 <= j < attributes.len() && #[trigger] uuid_in(
                uuids[i]@,
                attributes[j].value,
            );
        assert(elements[i] == DataElementV::Uuid(uuids[i]@));
        assert(names_uuid(elements[i], attributes[j]));
    }
    if record_matches(pattern, attributes) {
        let (i, j) = choose|i: int, j: int|
            0 <= i < elements.len() && 0 <= j < attributes.len() && #[trigger] names_uuid(
                elements[i],
                attributes[j],
            );
        assert(elements[i] == DataElementV::Uuid(uuids[i]@));
        assert(uuid_in(uuids[i]@, attributes[j].value));
    }
}

proof fn lemma_found(records: Seq<ServiceRecordV>, uuids: Seq<Uuid>, ids: Seq<AttributeId>)
    requires
        disjoint(ids),
    ensures
        selected_lists(matching(records, pattern_of(uuids)), selectors_of(ids)) == found(
            records,
            uuids,
            ids,
        ),
    decreases records.len(),
{
    if records.len() > 0 {
        let head = records.drop_last();
        let attributes = records.last().attributes;
        lemma_found(head, uuids, ids);
        lemma_offers(attributes, uuids);
        disjoint_selectors_select_once(attributes, ids);
        let before = matching(head, pattern_of(uuids));
        assert(before.push(records.last()).drop_last() =~= before);
    }
}

proof fn lemma_matching_portable(records: Seq<ServiceRecordV>, pattern: DataElementV)
    requires
        portable_records(records),
    ensures
        portable_records(matching(records, pattern)),
    decreases records.len(),
{
    if records.len() > 0 {
        let head = records.drop_last();
        assert forall|i: int| 0 <= i < head.len() implies portable_attributes(
            (#[trigger] head[i]).attributes,
        ) by {
            assert(head[i] == records[i]);
        }
        lemma_matching_portable(head, pattern);
        assert(portable_attributes(records[records.len() - 1].attributes));
    }
}

/// A client whose transport is a server gets, whatever the size of the
/// responses, one list for each record that offers one of the UUIDs and has an
/// attribute that was asked for, in the order of the records: exactly the
/// attributes that were asked for, in the order of their identifiers. The values
/// must have a form on the wire and be nested no deeper than thirty times, the
/// selectors must not overlap, responses must have room for attributes at all,
/// and the answer must fit the number of responses that the client takes.
pub proof fn client_finds_what_the_server_offers(
    servers: Seq<SdpServer>,
    transaction_id: u16,
    uuids: Seq<Uuid>,
    ids: Seq<AttributeId>,
    replies: Seq<Reply>,
)
    requires
        conversed(servers, QueryV::of_search(uuids, ids), transaction_id, complete(), replies),
        collected(search_attribute_parts(replies), CONTINUATION_WATCHDOG as nat) is Some,
        portable_records(servers[0]@.records),
        disjoint(ids),
        servers[0]@.mtu >= 10,
        answer_size(servers[0]@.records, uuids, ids) <= (servers[0]@.mtu - 9)
            * CONTINUATION_WATCHDOG,
    ensures
        collected(search_attribute_parts(replies), CONTINUATION_WATCHDOG as nat) matches Some(
            Ok(bytes),
        ) && parsed_lists(bytes) == Ok::<Seq<Seq<ServiceAttributeV>>, ErrorV>(
            found(servers[0]@.records, uuids, ids),
        ),
{
    let server = servers[0]@;
    let pattern = pattern_of(uuids);
    let selectors = selectors_of(ids);
    let records = matching(server.records, pattern);
    lemma_matching_portable(server.records, pattern);
    portable_records_make_a_writable_answer(records, selectors);
    client_gets_the_searched_attributes(servers, transaction_id, uuids, ids, replies);
    attribute_search_finds_the_selected(server, pattern, id_list_of(ids));
    lemma_found(server.records, uuids, ids);
}

/// How many bytes the answer to a search for attributes takes.
pub open spec fn answer_size(
    records: Seq<ServiceRecordV>,
    uuids: Seq<Uuid>,
    ids: Seq<AttributeId>,
) -> nat {
    written_size(
        DataElementV::Sequence(
            attribute_lists(
                matching(records, pattern_of(uuids)),
                ids.map_values(|id: AttributeId| id.element()),
            ),
        ),
    )
}

} // verus!
