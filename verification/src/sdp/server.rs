//! The service discovery server: a database of service records and the answers
//! to queries against it, split across continuation state where they are long.

use vstd::prelude::*;

use super::attribute::{
    attribute_elements, attribute_views, uuid_in, ServiceAttribute, ServiceAttributeV,
};
use super::element::{element_views, lemma_sequence_model, DataElement, DataElementV};
use super::error_code;
use super::pdu::{SdpPdu, SdpPduV};
use crate::bytes::{copy_range, equal_bytes};

verus! {

/// The continuation state that says more is to come: a length of one, and one
/// opaque byte.
pub open spec fn more_to_come() -> Seq<u8> {
    seq![0x01u8, 0x00u8]
}

/// The continuation state that says the answer is complete.
pub open spec fn complete() -> Seq<u8> {
    seq![0x00u8]
}

/// The contents of a service record.
pub struct ServiceRecordV {
    pub handle: u32,
    pub attributes: Seq<ServiceAttributeV>,
}

/// What is left to hand out of an answer.
pub enum CurrentResponseV {
    Bytes(Seq<u8>),
    Handles { total: u16, remaining: Seq<u32> },
}

/// The state of a server.
pub struct SdpServerV {
    pub records: Seq<ServiceRecordV>,
    pub current_response: Option<CurrentResponseV>,
    pub mtu: u16,
}

/// Whether one of the UUIDs in a search pattern occurs in an attribute of a record.
pub open spec fn record_matches(pattern: DataElementV, attributes: Seq<ServiceAttributeV>) -> bool {
    pattern matches DataElementV::Sequence(elements) && exists|i: int, j: int|
        0 <= i < elements.len() && 0 <= j < attributes.len() && #[trigger] names_uuid(
            elements[i],
            attributes[j],
        )
}

/// Whether an element of a pattern is a UUID that occurs in an attribute.
pub open spec fn names_uuid(element: DataElementV, attribute: ServiceAttributeV) -> bool {
    element matches DataElementV::Uuid(uuid) && uuid_in(uuid, attribute.value)
}

proof fn lemma_record_matches(
    elements: Seq<DataElementV>,
    attributes: Seq<ServiceAttributeV>,
    i: int,
    j: int,
)
    requires
        0 <= i < elements.len(),
        0 <= j < attributes.len(),
        names_uuid(elements[i], attributes[j]),
    ensures
        record_matches(DataElementV::Sequence(elements), attributes),
{
    let pattern = DataElementV::Sequence(elements);
    assert(pattern->Sequence_0 == elements);
    assert(names_uuid(pattern->Sequence_0[i], attributes[j]));
}

/// The records that match a pattern, in the order in which they were added.
pub open spec fn matching(records: Seq<ServiceRecordV>, pattern: DataElementV) -> Seq<ServiceRecordV>
    decreases records.len(),
{
    if records.len() == 0 {
        seq![]
    } else {
        let before = matching(records.drop_last(), pattern);
        if record_matches(pattern, records.last().attributes) {
            before.push(records.last())
        } else {
            before
        }
    }
}

/// The attribute identifiers that a selector names: a four-byte integer is a
/// range, any other integer a single identifier, anything else none.
pub open spec fn selects(selector: DataElementV, id: u16) -> bool {
    match selector {
        DataElementV::UnsignedInteger { value, size } => if size == 4 {
            value / 65536 % 65536 <= id <= value % 65536
        } else {
            id == value % 65536
        },
        _ => false,
    }
}

/// The attributes that one selector names, in the record's order.
pub open spec fn named(attributes: Seq<ServiceAttributeV>, selector: DataElementV) -> Seq<
    ServiceAttributeV,
>
    decreases attributes.len(),
{
    if attributes.len() == 0 {
        seq![]
    } else {
        let before = named(attributes.drop_last(), selector);
        if selects(selector, attributes.last().id) {
            before.push(attributes.last())
        } else {
            before
        }
    }
}

/// The attributes that the selectors name, one selector after the other.
pub open spec fn named_by_all(
    attributes: Seq<ServiceAttributeV>,
    selectors: Seq<DataElementV>,
) -> Seq<ServiceAttributeV>
    decreases selectors.len(),
{
    if selectors.len() == 0 {
        seq![]
    } else {
        named_by_all(attributes, selectors.drop_last()) + named(attributes, selectors.last())
    }
}

/// An attribute added to a list in the order of identifiers, behind those with
/// the same one.
pub open spec fn inserted(
    sorted: Seq<ServiceAttributeV>,
    attribute: ServiceAttributeV,
) -> Seq<ServiceAttributeV>
    decreases sorted.len(),
{
    if sorted.len() == 0 || sorted.last().id <= attribute.id {
        sorted.push(attribute)
    } else {
        inserted(sorted.drop_last(), attribute).push(sorted.last())
    }
}

/// Attributes in the order of identifiers; those with the same one stay in order.
pub open spec fn sorted_by_id(attributes: Seq<ServiceAttributeV>) -> Seq<ServiceAttributeV>
    decreases attributes.len(),
{
    if attributes.len() == 0 {
        seq![]
    } else {
        inserted(sorted_by_id(attributes.drop_last()), attributes.last())
    }
}

/// The elements of a sequence, or none.
pub open spec fn sequence_items(element: DataElementV) -> Seq<DataElementV> {
    match element {
        DataElementV::Sequence(elements) => elements,
        _ => seq![],
    }
}

/// The selected attributes of a record, as the elements of its answer.
pub open spec fn selected(attributes: Seq<ServiceAttributeV>, selectors: Seq<DataElementV>) -> Seq<
    DataElementV,
> {
    attribute_elements(sorted_by_id(named_by_all(attributes, selectors)))
}

/// The attribute lists of records that have a selected attribute.
pub open spec fn attribute_lists(
    records: Seq<ServiceRecordV>,
    selectors: Seq<DataElementV>,
) -> Seq<DataElementV>
    decreases records.len(),
{
    if records.len() == 0 {
        seq![]
    } else {
        let before = attribute_lists(records.drop_last(), selectors);
        let list = selected(records.last().attributes, selectors);
        if list.len() > 0 {
            before.push(DataElementV::Sequence(list))
        } else {
            before
        }
    }
}

/// The bytes of an element, or none where it cannot be written.
pub open spec fn element_bytes(element: DataElementV) -> Seq<u8> {
    match element.encode() {
        Ok(bytes) => bytes,
        Err(_) => seq![],
    }
}

/// The first record with a handle.
pub open spec fn record_with(records: Seq<ServiceRecordV>, handle: u32) -> Option<ServiceRecordV>
    decreases records.len(),
{
    if records.len() == 0 {
        None
    } else if records[0].handle == handle {
        Some(records[0])
    } else {
        record_with(records.skip(1), handle)
    }
}

pub open spec fn least(left: int, right: int) -> int {
    if left < right {
        left
    } else {
        right
    }
}

pub open spec fn error_reply(transaction_id: u16, error_code: u16) -> SdpPduV {
    SdpPduV::ErrorResponse { transaction_id, error_code }
}

impl SdpServerV {
    /// Whether a continuation state asks for more of an answer.
    pub open spec fn continues(continuation_state: Seq<u8>) -> bool {
        continuation_state.len() > 1
    }

    /// Whether more of an answer can be asked for with this continuation state.
    pub open spec fn can_continue(self, continuation_state: Seq<u8>) -> bool {
        self.current_response is Some && continuation_state == more_to_come()
    }

    /// How many bytes of attributes one answer can hold.
    pub open spec fn byte_cap(self, requested: u16) -> int {
        least(
            if self.mtu < 9 {
                0
            } else {
                self.mtu - 9
            },
            requested as int,
        )
    }

    /// The next bytes of an answer, the continuation state that goes with them,
    /// and the server after they were handed out.
    pub open spec fn next_bytes(self, cap: int) -> (SdpServerV, Seq<u8>, Seq<u8>) {
        match self.current_response {
            Some(CurrentResponseV::Bytes(bytes)) => if bytes.len() > cap {
                (
                    SdpServerV {
                        current_response: Some(CurrentResponseV::Bytes(bytes.skip(cap))),
                        ..self
                    },
                    bytes.take(cap),
                    more_to_come(),
                )
            } else {
                (SdpServerV { current_response: None, ..self }, bytes, complete())
            },
            _ => (self, seq![], complete()),
        }
    }

    /// The server with an answer that waits to be handed out.
    pub open spec fn with_answer(self, response: CurrentResponseV) -> SdpServerV {
        SdpServerV { current_response: Some(response), ..self }
    }

    pub open spec fn without_answer(self) -> SdpServerV {
        SdpServerV { current_response: None, ..self }
    }

    /// All bytes of the answer to a search for attributes.
    pub open spec fn search_attribute_answer(
        self,
        pattern: DataElementV,
        attribute_ids: DataElementV,
    ) -> Seq<u8> {
        element_bytes(
            DataElementV::Sequence(
                attribute_lists(matching(self.records, pattern), sequence_items(attribute_ids)),
            ),
        )
    }

    /// All bytes of the answer to a request for a record's attributes.
    pub open spec fn attribute_answer(record: ServiceRecordV, attribute_ids: DataElementV) -> Seq<
        u8,
    > {
        element_bytes(
            DataElementV::Sequence(selected(record.attributes, sequence_items(attribute_ids))),
        )
    }

    /// The answer to a search for attributes.
    #[verifier::opaque]
    pub open spec fn search_attribute_handled(
        self,
        transaction_id: u16,
        pattern: DataElementV,
        maximum: u16,
        attribute_ids: DataElementV,
        continuation_state: Seq<u8>,
    ) -> (SdpServerV, SdpPduV) {
        if Self::continues(continuation_state) && !self.can_continue(continuation_state) {
            (self, error_reply(transaction_id, error_code::INVALID_CONTINUATION_STATE))
        } else {
            let ready = if Self::continues(continuation_state) {
                self
            } else {
                self.with_answer(
                    CurrentResponseV::Bytes(self.search_attribute_answer(pattern, attribute_ids)),
                )
            };
            let (next, attribute_lists, continuation_state) = ready.next_bytes(
                self.byte_cap(maximum),
            );
            (
                next,
                SdpPduV::ServiceSearchAttributeResponse {
                    transaction_id,
                    attribute_lists,
                    continuation_state,
                },
            )
        }
    }

    /// The answer to a request for a record's attributes.
    #[verifier::opaque]
    pub open spec fn attribute_handled(
        self,
        transaction_id: u16,
        handle: u32,
        maximum: u16,
        attribute_ids: DataElementV,
        continuation_state: Seq<u8>,
    ) -> (SdpServerV, SdpPduV) {
        let continues = Self::continues(continuation_state);
        let record = record_with(self.records, handle);
        if continues && !self.can_continue(continuation_state) {
            (self, error_reply(transaction_id, error_code::INVALID_CONTINUATION_STATE))
        } else if !continues && record is None {
            (
                self.without_answer(),
                error_reply(transaction_id, error_code::INVALID_SERVICE_RECORD_HANDLE),
            )
        } else {
            let ready = if continues {
                self
            } else {
                self.with_answer(
                    CurrentResponseV::Bytes(Self::attribute_answer(record->0, attribute_ids)),
                )
            };
            let (next, attribute_list, continuation_state) = ready.next_bytes(
                self.byte_cap(maximum),
            );
            (
                next,
                SdpPduV::ServiceAttributeResponse {
                    transaction_id,
                    attribute_list,
                    continuation_state,
                },
            )
        }
    }

    /// The handles of the records that match a pattern.
    pub open spec fn matching_handles(self, pattern: DataElementV) -> Seq<u32> {
        matching(self.records, pattern).map_values(|record: ServiceRecordV| record.handle)
    }

    /// The answer to a search for records.
    #[verifier::opaque]
    pub open spec fn search_handled(
        self,
        transaction_id: u16,
        pattern: DataElementV,
        maximum: u16,
        continuation_state: Seq<u8>,
    ) -> (SdpServerV, SdpPduV) {
        let continues = Self::continues(continuation_state);
        if continues && !self.can_continue(continuation_state) {
            (self, error_reply(transaction_id, error_code::INVALID_CONTINUATION_STATE))
        } else {
            let handles = self.matching_handles(pattern);
            let current = if continues {
                self.current_response->0
            } else {
                CurrentResponseV::Handles {
                    total: (handles.len() % 65536) as u16,
                    remaining: handles.take(least(handles.len() as int, maximum as int)),
                }
            };
            match current {
                CurrentResponseV::Bytes(_) => (
                    self,
                    error_reply(transaction_id, error_code::INVALID_CONTINUATION_STATE),
                ),
                CurrentResponseV::Handles { total, remaining } => {
                    let room = if self.mtu < 11 {
                        0
                    } else {
                        (self.mtu - 11) / 4
                    };
                    let count = least(remaining.len() as int, room);
                    let rest = remaining.skip(count);
                    (
                        self.with_answer(CurrentResponseV::Handles { total, remaining: rest }),
                        SdpPduV::ServiceSearchResponse {
                            transaction_id,
                            total_service_record_count: total,
                            service_record_handle_list: remaining.take(count),
                            continuation_state: if rest.len() == 0 {
                                complete()
                            } else {
                                more_to_come()
                            },
                        },
                    )
                },
            }
        }
    }

    /// The answer to any request.
    pub open spec fn handled(self, request: SdpPduV) -> (SdpServerV, SdpPduV) {
        match request {
            SdpPduV::ServiceSearchAttributeRequest {
                transaction_id,
                service_search_pattern,
                maximum_attribute_byte_count,
                attribute_id_list,
                continuation_state,
            } => self.search_attribute_handled(
                transaction_id,
                service_search_pattern,
                maximum_attribute_byte_count,
                attribute_id_list,
                continuation_state,
            ),
            SdpPduV::ServiceAttributeRequest {
                transaction_id,
                service_record_handle,
                maximum_attribute_byte_count,
                attribute_id_list,
                continuation_state,
            } => self.attribute_handled(
                transaction_id,
                service_record_handle,
                maximum_attribute_byte_count,
                attribute_id_list,
                continuation_state,
            ),
            SdpPduV::ServiceSearchRequest {
                transaction_id,
                service_search_pattern,
                maximum_service_record_count,
                continuation_state,
            } => self.search_handled(
                transaction_id,
                service_search_pattern,
                maximum_service_record_count,
                continuation_state,
            ),
            _ => (
                self,
                error_reply(request.transaction_id(), error_code::INVALID_REQUEST_SYNTAX),
            ),
        }
    }
}

#[derive(Clone, Debug)]
pub struct ServiceRecord {
    handle: u32,
    attributes: Vec<ServiceAttribute>,
}

impl View for ServiceRecord {
    type V = ServiceRecordV;

    closed spec fn view(&self) -> ServiceRecordV {
        ServiceRecordV { handle: self.handle, attributes: attribute_views(self.attributes@) }
    }
}

#[derive(Clone, Debug)]
pub enum CurrentResponse {
    Bytes(Vec<u8>),
    Handles { total: u16, remaining: Vec<u32> },
}

impl View for CurrentResponse {
    type V = CurrentResponseV;

    open spec fn view(&self) -> CurrentResponseV {
        match *self {
            CurrentResponse::Bytes(bytes) => CurrentResponseV::Bytes(bytes@),
            CurrentResponse::Handles { total, remaining } => CurrentResponseV::Handles {
                total,
                remaining: remaining@,
            },
        }
    }
}

/// Something that answers a single request with a single response.
pub trait SdpRequestHandler {
    /// Whether this response may be given to a request, and leave the handler so.
    open spec fn may_respond(&self, request: SdpPduV, response: SdpPduV, after: &Self) -> bool {
        true
    }

    /// Answers one request.
    fn handle_request(&mut self, request: &SdpPdu) -> (response: SdpPdu)
        ensures
            old(self).may_respond(request@, response@, final(self)),
    ;
}

/// A service discovery server. Records are kept in the order in which they were
/// added, which is the order of matching records in an answer.
#[derive(Debug)]
pub struct SdpServer {
    records: Vec<ServiceRecord>,
    /// What is left to hand out of an answer, if anything.
    current_response: Option<CurrentResponse>,
    /// The peer's L2CAP MTU, which bounds each response.
    mtu: u16,
}

/// The contents of a list of records.
pub closed spec fn record_views(records: Seq<ServiceRecord>) -> Seq<ServiceRecordV> {
    records.map_values(|record: ServiceRecord| record@)
}

pub open spec fn current_view(current: Option<CurrentResponse>) -> Option<CurrentResponseV> {
    match current {
        Some(response) => Some(response@),
        None => None,
    }
}

impl View for SdpServer {
    type V = SdpServerV;

    closed spec fn view(&self) -> SdpServerV {
        SdpServerV {
            records: record_views(self.records@),
            current_response: current_view(self.current_response),
            mtu: self.mtu,
        }
    }
}

impl Default for SdpServer {
    fn default() -> (server: Self)
        ensures
            server@ == (SdpServerV { records: seq![], current_response: None, mtu: 0 }),
    {
        SdpServer::new(0)
    }
}

fn more_to_come_bytes() -> (bytes: Vec<u8>)
    ensures
        bytes@ == more_to_come(),
{
    let mut bytes: Vec<u8> = Vec::new();
    bytes.push(0x01);
    bytes.push(0x00);
    assert(bytes@ =~= more_to_come());
    bytes
}

fn complete_bytes() -> (bytes: Vec<u8>)
    ensures
        bytes@ == complete(),
{
    let mut bytes: Vec<u8> = Vec::new();
    bytes.push(0x00);
    assert(bytes@ =~= complete());
    bytes
}

fn selector_names(selector: &DataElement, id: u16) -> (named: bool)
    ensures
        named == selects(selector@, id),
{
    match selector {
        DataElement::UnsignedInteger { value, size } => {
            if *size == 4 {
                let start: u16 = (*value / 65536 % 65536) as u16;
                let end: u16 = (*value % 65536) as u16;
                start <= id && id <= end
            } else {
                id == (*value % 65536) as u16
            }
        },
        _ => false,
    }
}

/// Adds an attribute to a list in the order of identifiers.
fn insert_sorted(sorted: &mut Vec<ServiceAttribute>, attribute: ServiceAttribute)
    ensures
        attribute_views(final(sorted)@) == inserted(attribute_views(old(sorted)@), attribute@),
{
    let ghost all = attribute_views(sorted@);
    let ghost model = attribute@;
    let mut at: usize = sorted.len();
    assert(all.take(at as int) =~= all);
    assert(inserted(all, model) =~= inserted(all.take(at as int), model) + all.skip(at as int));
    while at > 0 && sorted[at - 1].id > attribute.id
        invariant
            at <= sorted@.len(),
            all == attribute_views(sorted@),
            model == attribute@,
            inserted(all, model) == inserted(all.take(at as int), model) + all.skip(at as int),
        decreases at,
    {
        let ghost head = all.take(at as int);
        assert(head.last() == sorted@[at - 1]@);
        assert(head.drop_last() =~= all.take(at - 1));
        assert(inserted(head.drop_last(), model).push(head.last()) + all.skip(at as int)
            =~= inserted(all.take(at - 1), model) + all.skip(at - 1));
        at = at - 1;
    }
    let ghost head = all.take(at as int);
    proof {
        if at > 0 {
            assert(head.last() == sorted@[at - 1]@);
        }
        assert(inserted(head, model) == head.push(model));
    }
    sorted.insert(at, attribute);
    assert(attribute_views(sorted@) =~= head.push(model) + all.skip(at as int));
}

/// The attributes of a record that the selectors name, in the order of identifiers.
fn select_attributes(attributes: &Vec<ServiceAttribute>, selectors: &Vec<DataElement>) -> (chosen:
    Vec<ServiceAttribute>)
    ensures
        attribute_views(chosen@) == sorted_by_id(
            named_by_all(attribute_views(attributes@), element_views(selectors@)),
        ),
{
    let ghost models = attribute_views(attributes@);
    let ghost choices = element_views(selectors@);
    let mut chosen: Vec<ServiceAttribute> = Vec::new();
    let mut index: usize = 0;
    assert(choices.take(0) =~= Seq::<DataElementV>::empty());
    assert(attribute_views(chosen@) =~= sorted_by_id(Seq::<ServiceAttributeV>::empty()));
    while index < selectors.len()
        invariant
            index <= selectors@.len(),
            models == attribute_views(attributes@),
            choices == element_views(selectors@),
            attribute_views(chosen@) == sorted_by_id(
                named_by_all(models, choices.take(index as int)),
            ),
        decreases selectors@.len() - index,
    {
        let selector = &selectors[index];
        let ghost before = named_by_all(models, choices.take(index as int));
        let mut at: usize = 0;
        assert(choices[index as int] == selector@);
        assert(models.take(0) =~= Seq::<ServiceAttributeV>::empty());
        assert(before + Seq::<ServiceAttributeV>::empty() =~= before);
        while at < attributes.len()
            invariant
                at <= attributes@.len(),
                models == attribute_views(attributes@),
                attribute_views(chosen@) == sorted_by_id(
                    before + named(models.take(at as int), selector@),
                ),
            decreases attributes@.len() - at,
        {
            let ghost part = models.take(at + 1);
            assert(part.drop_last() =~= models.take(at as int));
            assert(part.last() == attributes@[at as int]@);
            if selector_names(selector, attributes[at].id) {
                let ghost so_far = before + named(models.take(at as int), selector@);
                let ghost longer = before + named(part, selector@);
                assert(longer =~= so_far.push(part.last()));
                assert(longer.drop_last() =~= so_far);
                insert_sorted(&mut chosen, attributes[at].copy());
            }
            at = at + 1;
        }
        assert(models.take(at as int) =~= models);
        assert(choices.take(index + 1).drop_last() =~= choices.take(index as int));
        index = index + 1;
    }
    assert(choices.take(index as int) =~= choices);
    chosen
}

/// The elements of a sequence, or none.
fn sequence_elements(element: &DataElement) -> (elements: Vec<DataElement>)
    ensures
        element_views(elements@) == sequence_items(element@),
{
    match element {
        DataElement::Sequence(elements) => {
            proof {
                lemma_sequence_model(*elements);
            }
            DataElement::copy_all(elements)
        },
        _ => {
            let elements: Vec<DataElement> = Vec::new();
            assert(element_views(elements@) =~= sequence_items(element@));
            elements
        },
    }
}

fn bytes_or_none(element: &DataElement) -> (bytes: Vec<u8>)
    ensures
        bytes@ == element_bytes(element@),
{
    match element.to_bytes() {
        Ok(bytes) => bytes,
        Err(_) => {
            let bytes: Vec<u8> = Vec::new();
            assert(bytes@ =~= seq![]);
            bytes
        },
    }
}

impl ServiceRecord {
    /// Whether one of the UUIDs in a pattern occurs in an attribute.
    fn matches(&self, pattern: &DataElement) -> (found: bool)
        ensures
            found == record_matches(pattern@, self@.attributes),
    {
        match pattern {
            DataElement::Sequence(elements) => {
                proof {
                    lemma_sequence_model(*elements);
                }
                let ghost models = element_views(elements@);
                let ghost attributes = self@.attributes;
                let mut index: usize = 0;
                while index < elements.len()
                    invariant
                        index <= elements@.len(),
                        models == element_views(elements@),
                        attributes == attribute_views(self.attributes@),
                        attributes == self@.attributes,
                        pattern@ == DataElementV::Sequence(models),
                        forall|i: int, j: int|
                            0 <= i < index && 0 <= j < attributes.len() ==> !#[trigger] names_uuid(
                                models[i],
                                attributes[j],
                            ),
                    decreases elements@.len() - index,
                {
                    let element = &elements[index];
                    assert(models[index as int] == element@);
                    if self.names(element) {
                        proof {
                            let j = choose|j: int|
                                0 <= j < attributes.len() && #[trigger] names_uuid(
                                    element@,
                                    attributes[j],
                                );
                            lemma_record_matches(models, attributes, index as int, j);
                        }
                        return true;
                    }
                    index = index + 1;
                }
                false
            },
            _ => false,
        }
    }

    fn names(&self, element: &DataElement) -> (found: bool)
        ensures
            found == exists|j: int|
                0 <= j < self@.attributes.len() && #[trigger] names_uuid(
                    element@,
                    self@.attributes[j],
                ),
    {
        match element {
            DataElement::Uuid(uuid) => {
                let mut at: usize = 0;
                while at < self.attributes.len()
                    invariant
                        at <= self.attributes@.len(),
                        element@ == DataElementV::Uuid(uuid@),
                        forall|j: int|
                            0 <= j < at ==> !#[trigger] names_uuid(element@, self@.attributes[j]),
                    decreases self.attributes@.len() - at,
                {
                    assert(self@.attributes[at as int] == self.attributes@[at as int]@);
                    if ServiceAttribute::is_uuid_in_value(uuid, &self.attributes[at].value) {
                        assert(names_uuid(element@, self@.attributes[at as int]));
                        return true;
                    }
                    at = at + 1;
                }
                false
            },
            _ => false,
        }
    }
}

impl SdpServer {
    /// A server without records, for a peer with the given MTU.
    pub fn new(mtu: u16) -> (server: Self)
        ensures
            server@ == (SdpServerV { records: seq![], current_response: None, mtu }),
    {
        let server = SdpServer { records: Vec::new(), current_response: None, mtu };
        assert(server@.records =~= seq![]);
        server
    }

    /// Adds a service record under `handle`.
    pub fn add_service(&mut self, handle: u32, attributes: Vec<ServiceAttribute>)
        ensures
            final(self)@ == (SdpServerV {
                records: old(self)@.records.push(
                    ServiceRecordV { handle, attributes: attribute_views(attributes@) },
                ),
                ..old(self)@
            }),
    {
        let record = ServiceRecord { handle, attributes };
        let ghost model = record@;
        self.records.push(record);
        assert(self@.records =~= old(self)@.records.push(model));
    }

    /// The positions of the records that match a pattern.
    fn match_services(&self, pattern: &DataElement) -> (found: Vec<usize>)
        ensures
            forall|i: int| 0 <= i < found@.len() ==> #[trigger] found@[i] < self.records@.len(),
            found@.map_values(|at: usize| self.records@[at as int]@) == matching(
                self@.records,
                pattern@,
            ),
    {
        let mut found: Vec<usize> = Vec::new();
        let mut index: usize = 0;
        let ghost models = self@.records;
        let ghost pick = |at: usize| self.records@[at as int]@;
        assert(models.take(0) =~= Seq::<ServiceRecordV>::empty());
        assert(found@.map_values(pick) =~= Seq::<ServiceRecordV>::empty());
        while index < self.records.len()
            invariant
                index <= self.records@.len(),
                models == self@.records,
                pick == (|at: usize| self.records@[at as int]@),
                forall|i: int| 0 <= i < found@.len() ==> #[trigger] found@[i] < self.records@.len(),
                found@.map_values(pick) == matching(models.take(index as int), pattern@),
            decreases self.records@.len() - index,
        {
            let ghost part = models.take(index + 1);
            let ghost before = found@;
            assert(part.drop_last() =~= models.take(index as int));
            assert(part.last() == self.records@[index as int]@);
            if self.records[index].matches(pattern) {
                found.push(index);
                assert(found@.map_values(pick) =~= before.map_values(pick).push(part.last()));
            }
            index = index + 1;
        }
        assert(models.take(index as int) =~= models);
        found
    }

    /// The selected attributes of a record, as a sequence.
    fn get_service_attributes(attributes: &Vec<ServiceAttribute>, selectors: &Vec<DataElement>) -> (list:
        DataElement)
        ensures
            list@ == DataElementV::Sequence(
                selected(attribute_views(attributes@), element_views(selectors@)),
            ),
    {
        let chosen = select_attributes(attributes, selectors);
        ServiceAttribute::list_to_data_element(&chosen)
    }

    /// The next bytes of the answer and the continuation state that goes with them.
    fn next_byte_payload(&mut self, maximum_size: usize) -> (payload: (Vec<u8>, Vec<u8>))
        ensures
            final(self)@ == old(self)@.next_bytes(maximum_size as int).0,
            payload.0@ == old(self)@.next_bytes(maximum_size as int).1,
            payload.1@ == old(self)@.next_bytes(maximum_size as int).2,
    {
        match self.current_response.take() {
            Some(CurrentResponse::Bytes(bytes)) => {
                if bytes.len() > maximum_size {
                    let payload = copy_range(&bytes, 0, maximum_size);
                    let rest = copy_range(&bytes, maximum_size, bytes.len());
                    assert(payload@ =~= bytes@.take(maximum_size as int));
                    assert(rest@ =~= bytes@.skip(maximum_size as int));
                    self.current_response = Some(CurrentResponse::Bytes(rest));
                    (payload, more_to_come_bytes())
                } else {
                    (bytes, complete_bytes())
                }
            },
            other => {
                self.current_response = other;
                let payload: Vec<u8> = Vec::new();
                assert(payload@ =~= seq![]);
                (payload, complete_bytes())
            },
        }
    }

    fn attribute_byte_cap(&self, requested: u16) -> (cap: usize)
        ensures
            cap == self@.byte_cap(requested),
    {
        let room: u16 = self.mtu.saturating_sub(9);
        if room < requested {
            room as usize
        } else {
            requested as usize
        }
    }

    /// Whether more of an answer can be asked for with this continuation state.
    fn may_continue(&self, continuation_state: &Vec<u8>) -> (may: bool)
        ensures
            may == self@.can_continue(continuation_state@),
    {
        let marker = more_to_come_bytes();
        self.current_response.is_some() && equal_bytes(continuation_state, &marker)
    }

    /// All attribute lists that answer a search.
    fn search_attribute_bytes(&self, pattern: &DataElement, attribute_ids: &DataElement) -> (bytes:
        Vec<u8>)
        ensures
            bytes@ == self@.search_attribute_answer(pattern@, attribute_ids@),
    {
        let selectors = sequence_elements(attribute_ids);
        let found = self.match_services(pattern);
        let ghost pick = |at: usize| self.records@[at as int]@;
        let ghost records = found@.map_values(pick);
        let ghost choices = element_views(selectors@);
        let mut lists: Vec<DataElement> = Vec::new();
        let mut index: usize = 0;
        assert(records.take(0) =~= Seq::<ServiceRecordV>::empty());
        assert(element_views(lists@) =~= Seq::<DataElementV>::empty());
        while index < found.len()
            invariant
                index <= found@.len(),
                pick == (|at: usize| self.records@[at as int]@),
                records == found@.map_values(pick),
                choices == element_views(selectors@),
                forall|i: int| 0 <= i < found@.len() ==> #[trigger] found@[i] < self.records@.len(),
                element_views(lists@) == attribute_lists(records.take(index as int), choices),
            decreases found@.len() - index,
        {
            let ghost part = records.take(index + 1);
            let ghost before = lists@;
            let at: usize = found[index];
            assert(at < self.records@.len());
            assert(part.drop_last() =~= records.take(index as int));
            assert(part.last() == self.records@[at as int]@);
            let chosen = select_attributes(&self.records[at].attributes, &selectors);
            let list = ServiceAttribute::list_to_data_element(&chosen);
            if chosen.len() > 0 {
                let ghost model = list@;
                lists.push(list);
                assert(element_views(lists@) =~= element_views(before).push(model));
            }
            assert(selected(part.last().attributes, choices).len() == 2 * chosen@.len());
            index = index + 1;
        }
        assert(records.take(index as int) =~= records);
        bytes_or_none(&DataElement::sequence(lists))
    }

    fn on_service_search_attribute(
        &mut self,
        transaction_id: u16,
        pattern: &DataElement,
        maximum_attribute_byte_count: u16,
        attribute_ids: &DataElement,
        continuation_state: &Vec<u8>,
    ) -> (reply: SdpPdu)
        ensures
            (final(self)@, reply@) == old(self)@.search_attribute_handled(
                transaction_id,
                pattern@,
                maximum_attribute_byte_count,
                attribute_ids@,
                continuation_state@,
            ),
    {
        reveal(SdpServerV::search_attribute_handled);
        if continuation_state.len() > 1 {
            if !self.may_continue(continuation_state) {
                return SdpPdu::ErrorResponse {
                    transaction_id,
                    error_code: error_code::INVALID_CONTINUATION_STATE,
                };
            }
        } else {
            let bytes = self.search_attribute_bytes(pattern, attribute_ids);
            self.current_response = Some(CurrentResponse::Bytes(bytes));
        }
        let cap: usize = self.attribute_byte_cap(maximum_attribute_byte_count);
        let (attribute_lists, continuation_state) = self.next_byte_payload(cap);
        SdpPdu::ServiceSearchAttributeResponse {
            transaction_id,
            attribute_lists,
            continuation_state,
        }
    }

    fn find_record(&self, handle: u32) -> (found: Option<usize>)
        ensures
            match found {
                Some(at) => at < self.records@.len() && record_with(self@.records, handle) == Some(
                    self.records@[at as int]@,
                ),
                None => record_with(self@.records, handle) is None,
            },
    {
        let ghost models = self@.records;
        let mut index: usize = 0;
        assert(models.skip(0) =~= models);
        while index < self.records.len()
            invariant
                index <= self.records@.len(),
                models == self@.records,
                record_with(models, handle) == record_with(models.skip(index as int), handle),
            decreases self.records@.len() - index,
        {
            assert(models.skip(index as int)[0] == self.records@[index as int]@);
            assert(models.skip(index as int).skip(1) =~= models.skip(index + 1));
            if self.records[index].handle == handle {
                return Some(index);
            }
            index = index + 1;
        }
        None
    }

    fn on_service_attribute(
        &mut self,
        transaction_id: u16,
        service_record_handle: u32,
        maximum_attribute_byte_count: u16,
        attribute_ids: &DataElement,
        continuation_state: &Vec<u8>,
    ) -> (reply: SdpPdu)
        ensures
            (final(self)@, reply@) == old(self)@.attribute_handled(
                transaction_id,
                service_record_handle,
                maximum_attribute_byte_count,
                attribute_ids@,
                continuation_state@,
            ),
    {
        reveal(SdpServerV::attribute_handled);
        if continuation_state.len() > 1 {
            if !self.may_continue(continuation_state) {
                return SdpPdu::ErrorResponse {
                    transaction_id,
                    error_code: error_code::INVALID_CONTINUATION_STATE,
                };
            }
        } else {
            match self.find_record(service_record_handle) {
                None => {
                    self.current_response = None;
                    return SdpPdu::ErrorResponse {
                        transaction_id,
                        error_code: error_code::INVALID_SERVICE_RECORD_HANDLE,
                    };
                },
                Some(at) => {
                    let selectors = sequence_elements(attribute_ids);
                    let list = SdpServer::get_service_attributes(
                        &self.records[at].attributes,
                        &selectors,
                    );
                    self.current_response = Some(CurrentResponse::Bytes(bytes_or_none(&list)));
                },
            }
        }
        let cap: usize = self.attribute_byte_cap(maximum_attribute_byte_count);
        let (attribute_list, continuation_state) = self.next_byte_payload(cap);
        SdpPdu::ServiceAttributeResponse { transaction_id, attribute_list, continuation_state }
    }

    /// The handles of the records that match a pattern, at most `maximum` of
    /// them, and how many there are in all.
    fn search_handles(&self, pattern: &DataElement, maximum: u16) -> (found: (u16, Vec<u32>))
        ensures
            ({
                let handles = self@.matching_handles(pattern@);
                &&& found.0 == (handles.len() % 65536) as u16
                &&& found.1@ == handles.take(least(handles.len() as int, maximum as int))
            }),
    {
        let found = self.match_services(pattern);
        let ghost pick = |at: usize| self.records@[at as int]@;
        let ghost handles = self@.matching_handles(pattern@);
        assert(handles =~= found@.map_values(|at: usize| self.records@[at as int].handle)) by {
            let records = found@.map_values(pick);
            assert(handles.len() == found@.len());
            assert forall|i: int| 0 <= i < handles.len() implies handles[i]
                == self.records@[found@[i] as int].handle by {
                assert(records[i] == pick(found@[i]));
            }
        }
        let mut chosen: Vec<u32> = Vec::new();
        let mut index: usize = 0;
        while index < found.len() && index < maximum as usize
            invariant
                index <= found@.len(),
                index <= maximum,
                forall|i: int| 0 <= i < found@.len() ==> #[trigger] found@[i] < self.records@.len(),
                handles == found@.map_values(|at: usize| self.records@[at as int].handle),
                chosen@ == handles.take(index as int),
            decreases found@.len() - index,
        {
            let at: usize = found[index];
            assert(at < self.records@.len());
            chosen.push(self.records[at].handle);
            assert(chosen@ =~= handles.take(index + 1));
            index = index + 1;
        }
        ((found.len() % 65536) as u16, chosen)
    }

    fn on_service_search(
        &mut self,
        transaction_id: u16,
        pattern: &DataElement,
        maximum_service_record_count: u16,
        continuation_state: &Vec<u8>,
    ) -> (reply: SdpPdu)
        ensures
            (final(self)@, reply@) == old(self)@.search_handled(
                transaction_id,
                pattern@,
                maximum_service_record_count,
                continuation_state@,
            ),
    {
        reveal(SdpServerV::search_handled);
        if continuation_state.len() > 1 {
            if !self.may_continue(continuation_state) {
                return SdpPdu::ErrorResponse {
                    transaction_id,
                    error_code: error_code::INVALID_CONTINUATION_STATE,
                };
            }
        } else {
            let (total, remaining) = self.search_handles(pattern, maximum_service_record_count);
            self.current_response = Some(CurrentResponse::Handles { total, remaining });
        }
        match self.current_response.take() {
            Some(CurrentResponse::Handles { total, remaining }) => {
                let room: usize = (self.mtu.saturating_sub(11) / 4) as usize;
                let count: usize = if remaining.len() < room {
                    remaining.len()
                } else {
                    room
                };
                let (chunk, rest) = split_handles(&remaining, count);
                let continuation_state = if rest.len() == 0 {
                    complete_bytes()
                } else {
                    more_to_come_bytes()
                };
                self.current_response = Some(CurrentResponse::Handles { total, remaining: rest });
                SdpPdu::ServiceSearchResponse {
                    transaction_id,
                    total_service_record_count: total,
                    service_record_handle_list: chunk,
                    continuation_state,
                }
            },
            other => {
                self.current_response = other;
                SdpPdu::ErrorResponse {
                    transaction_id,
                    error_code: error_code::INVALID_CONTINUATION_STATE,
                }
            },
        }
    }
}

/// The first `count` handles and the others.
fn split_handles(handles: &Vec<u32>, count: usize) -> (parts: (Vec<u32>, Vec<u32>))
    requires
        count <= handles@.len(),
    ensures
        parts.0@ == handles@.take(count as int),
        parts.1@ == handles@.skip(count as int),
{
    let first = vstd::slice::slice_to_vec(vstd::slice::slice_subrange(handles.as_slice(), 0, count));
    let rest = vstd::slice::slice_to_vec(
        vstd::slice::slice_subrange(handles.as_slice(), count, handles.len()),
    );
    assert(first@ =~= handles@.take(count as int));
    assert(rest@ =~= handles@.skip(count as int));
    (first, rest)
}

impl SdpRequestHandler for SdpServer {
    open spec fn may_respond(&self, request: SdpPduV, response: SdpPduV, after: &Self) -> bool {
        (after@, response) == self@.handled(request)
    }

    fn handle_request(&mut self, request: &SdpPdu) -> (reply: SdpPdu)
        ensures
            (final(self)@, reply@) == old(self)@.handled(request@),
    {
        match request {
            SdpPdu::ServiceSearchAttributeRequest {
                transaction_id,
                service_search_pattern,
                maximum_attribute_byte_count,
                attribute_id_list,
                continuation_state,
            } => self.on_service_search_attribute(
                *transaction_id,
                service_search_pattern,
                *maximum_attribute_byte_count,
                attribute_id_list,
                continuation_state,
            ),
            SdpPdu::ServiceAttributeRequest {
                transaction_id,
                service_record_handle,
                maximum_attribute_byte_count,
                attribute_id_list,
                continuation_state,
            } => self.on_service_attribute(
                *transaction_id,
                *service_record_handle,
                *maximum_attribute_byte_count,
                attribute_id_list,
                continuation_state,
            ),
            SdpPdu::ServiceSearchRequest {
                transaction_id,
                service_search_pattern,
                maximum_service_record_count,
                continuation_state,
            } => self.on_service_search(
                *transaction_id,
                service_search_pattern,
                *maximum_service_record_count,
                continuation_state,
            ),
            other => SdpPdu::ErrorResponse {
                transaction_id: other.transaction_id(),
                error_code: error_code::INVALID_REQUEST_SYNTAX,
            },
        }
    }
}

} // verus!
