//! The service discovery client: queries, and the reassembly of answers that
//! come in several responses.

use vstd::prelude::*;

use super::attribute::{attribute_views, attributes_of, ServiceAttribute, ServiceAttributeV};
use super::element::{
    element_views, lemma_sequence_model, parse_element, DataElement, DataElementV,
};
use super::pdu::{SdpPdu, SdpPduV};
use super::server::{complete, SdpRequestHandler};
use super::{Error, ErrorV};
use crate::bytes::{append_bytes, copy_bytes};
use crate::text::{hex_number, hex_number_text};
use crate::values::BluetoothUuid as Uuid;

verus! {

/// After how many responses the client takes an answer as it is.
pub const CONTINUATION_WATCHDOG: usize = 64;

/// An attribute selector in a request: a single attribute, or an inclusive range.
#[derive(Clone, Copy, Debug, PartialEq, Eq, Structural)]
pub enum AttributeId {
    /// A single attribute id.
    Id(u16),
    /// An inclusive `[start, end]` range.
    Range(u16, u16),
}

impl AttributeId {
    /// The element for a selector: two bytes for a single attribute, four for a range.
    pub open spec fn element(self) -> DataElementV {
        match self {
            AttributeId::Id(id) => DataElementV::UnsignedInteger { value: id as u128, size: 2 },
            AttributeId::Range(start, end) => DataElementV::UnsignedInteger {
                value: (start * 65536 + end) as u128,
                size: 4,
            },
        }
    }

    fn to_data_element(self) -> (element: DataElement)
        ensures
            element@ == self.element(),
    {
        match self {
            AttributeId::Id(id) => DataElement::unsigned_integer_16(id),
            AttributeId::Range(start, end) => DataElement::unsigned_integer_32(
                start as u32 * 65536 + end as u32,
            ),
        }
    }
}

/// The search pattern for a list of UUIDs.
pub open spec fn pattern_of(uuids: Seq<Uuid>) -> DataElementV {
    DataElementV::Sequence(uuids.map_values(|uuid: Uuid| DataElementV::Uuid(uuid@)))
}

/// The attribute list for a list of selectors.
pub open spec fn id_list_of(ids: Seq<AttributeId>) -> DataElementV {
    DataElementV::Sequence(ids.map_values(|id: AttributeId| id.element()))
}

/// Builds the search pattern for a list of UUIDs.
pub fn search_pattern(uuids: &[Uuid]) -> (pattern: DataElement)
    ensures
        pattern@ == pattern_of(uuids@),
{
    let mut elements: Vec<DataElement> = Vec::new();
    let mut index: usize = 0;
    while index < uuids.len()
        invariant
            index <= uuids@.len(),
            elements@.len() == index,
            forall|i: int|
                0 <= i < index ==> (#[trigger] elements@[i])@ == DataElementV::Uuid(uuids@[i]@),
        decreases uuids@.len() - index,
    {
        elements.push(DataElement::uuid(uuids[index].copy()));
        index = index + 1;
    }
    assert(element_views(elements@) =~= uuids@.map_values(|uuid: Uuid| DataElementV::Uuid(uuid@)));
    DataElement::sequence(elements)
}

/// Builds the attribute list for a list of selectors.
pub fn attribute_id_list(ids: &[AttributeId]) -> (list: DataElement)
    ensures
        list@ == id_list_of(ids@),
{
    let mut elements: Vec<DataElement> = Vec::new();
    let mut index: usize = 0;
    while index < ids.len()
        invariant
            index <= ids@.len(),
            elements@.len() == index,
            forall|i: int| 0 <= i < index ==> (#[trigger] elements@[i])@ == ids@[i].element(),
        decreases ids@.len() - index,
    {
        elements.push(ids[index].to_data_element());
        index = index + 1;
    }
    assert(element_views(elements@) =~= ids@.map_values(|id: AttributeId| id.element()));
    DataElement::sequence(elements)
}

/// A failure below the protocol while exchanging a request.
#[derive(Clone, Debug, PartialEq, Eq)]
pub struct TransportError(pub String);

impl View for TransportError {
    type V = Seq<char>;

    open spec fn view(&self) -> Seq<char> {
        self.0@
    }
}

/// What a client issues requests through. Every [`SdpRequestHandler`] is one, so
/// a client can wrap a server directly.
pub trait SdpTransport {
    /// Whether this reply may come back for a request, and leave the transport so.
    open spec fn may_reply(&self, request: SdpPduV, reply: Reply, after: &Self) -> bool {
        true
    }

    /// Sends a request and returns the response.
    fn request(&mut self, request: &SdpPdu) -> (reply: Result<SdpPdu, TransportError>)
        ensures
            old(self).may_reply(request@, reply_of(reply), final(self)),
    ;
}

impl<H: SdpRequestHandler> SdpTransport for H {
    open spec fn may_reply(&self, request: SdpPduV, reply: Reply, after: &Self) -> bool {
        reply matches Ok(response) && self.may_respond(request, response, after)
    }

    fn request(&mut self, request: &SdpPdu) -> (reply: Result<SdpPdu, TransportError>) {
        Ok(self.handle_request(request))
    }
}

/// Why a query failed.
#[derive(Clone, Debug, PartialEq, Eq)]
pub enum ClientError {
    /// The server returned an error response.
    Protocol(u16),
    /// The server returned a unit that did not match the request.
    Unexpected,
    /// A response payload could not be parsed.
    Parse(Error),
    /// The underlying channel or transport failed.
    Transport(TransportError),
}

/// What a client error says.
pub enum ClientErrorV {
    Protocol(u16),
    Unexpected,
    Parse(ErrorV),
    Transport(Seq<char>),
}

impl View for ClientError {
    type V = ClientErrorV;

    open spec fn view(&self) -> ClientErrorV {
        match *self {
            ClientError::Protocol(code) => ClientErrorV::Protocol(code),
            ClientError::Unexpected => ClientErrorV::Unexpected,
            ClientError::Parse(error) => ClientErrorV::Parse(error@),
            ClientError::Transport(error) => ClientErrorV::Transport(error@),
        }
    }
}

impl ClientErrorV {
    /// The text shown for the error.
    pub open spec fn text(self) -> Seq<char> {
        match self {
            ClientErrorV::Protocol(code) => "SDP error response: "@ + hex_number(code as u32),
            ClientErrorV::Unexpected => "unexpected SDP response PDU"@,
            ClientErrorV::Parse(error) => "failed to parse SDP response: "@ + error.text(),
            ClientErrorV::Transport(message) => "SDP transport failed: "@ + message,
        }
    }
}

impl ClientError {
    /// The text shown for the error.
    pub fn message(&self) -> (text: String)
        ensures
            text@ == self@.text(),
    {
        match self {
            ClientError::Protocol(code) => {
                let mut text = "SDP error response: ".to_owned();
                text.append(hex_number_text(*code as u32).as_str());
                text
            },
            ClientError::Unexpected => "unexpected SDP response PDU".to_owned(),
            ClientError::Parse(error) => {
                let mut text = "failed to parse SDP response: ".to_owned();
                text.append(error.message().as_str());
                text
            },
            ClientError::Transport(error) => {
                let mut text = "SDP transport failed: ".to_owned();
                text.append(error.0.as_str());
                text
            },
        }
    }
}

impl vstd::std_specs::convert::FromSpecImpl<TransportError> for ClientError {
    open spec fn obeys_from_spec() -> bool {
        true
    }

    open spec fn from_spec(value: TransportError) -> ClientError {
        ClientError::Transport(value)
    }
}

impl From<TransportError> for ClientError {
    fn from(value: TransportError) -> (error: Self) {
        ClientError::Transport(value)
    }
}

/// What came back for a request.
pub type Reply = Result<SdpPduV, Seq<char>>;

/// What a transport returned.
pub open spec fn reply_of(reply: Result<SdpPdu, TransportError>) -> Reply {
    match reply {
        Ok(pdu) => Ok(pdu@),
        Err(error) => Err(error@),
    }
}

/// What a client asks for.
pub enum QueryV {
    /// The selected attributes of all records that match a pattern.
    SearchAttributes { pattern: DataElementV, attribute_ids: DataElementV },
    /// The selected attributes of one record.
    Attributes { handle: u32, attribute_ids: DataElementV },
    /// The handles of all records that match a pattern.
    Search { pattern: DataElementV },
}

impl QueryV {
    /// The query for the selected attributes of records with certain UUIDs.
    pub open spec fn of_search(uuids: Seq<Uuid>, ids: Seq<AttributeId>) -> QueryV {
        QueryV::SearchAttributes { pattern: pattern_of(uuids), attribute_ids: id_list_of(ids) }
    }

    /// The query for the selected attributes of a record.
    pub open spec fn of_record(handle: u32, ids: Seq<AttributeId>) -> QueryV {
        QueryV::Attributes { handle, attribute_ids: id_list_of(ids) }
    }

    /// The query for the handles of records with certain UUIDs.
    pub open spec fn of_uuids(uuids: Seq<Uuid>) -> QueryV {
        QueryV::Search { pattern: pattern_of(uuids) }
    }

    /// The request for what comes behind a continuation state.
    pub open spec fn request(self, transaction_id: u16, continuation_state: Seq<u8>) -> SdpPduV {
        match self {
            QueryV::SearchAttributes { pattern, attribute_ids } =>
                SdpPduV::ServiceSearchAttributeRequest {
                    transaction_id,
                    service_search_pattern: pattern,
                    maximum_attribute_byte_count: 0xFFFF,
                    attribute_id_list: attribute_ids,
                    continuation_state,
                },
            QueryV::Attributes { handle, attribute_ids } => SdpPduV::ServiceAttributeRequest {
                transaction_id,
                service_record_handle: handle,
                maximum_attribute_byte_count: 0xFFFF,
                attribute_id_list: attribute_ids,
                continuation_state,
            },
            QueryV::Search { pattern } => SdpPduV::ServiceSearchRequest {
                transaction_id,
                service_search_pattern: pattern,
                maximum_service_record_count: 0xFFFF,
                continuation_state,
            },
        }
    }
}

/// The continuation state of a reply.
pub open spec fn state_of(reply: Reply) -> Seq<u8> {
    match reply {
        Ok(SdpPduV::ServiceSearchAttributeResponse { continuation_state, .. }) =>
            continuation_state,
        Ok(SdpPduV::ServiceAttributeResponse { continuation_state, .. }) => continuation_state,
        Ok(SdpPduV::ServiceSearchResponse { continuation_state, .. }) => continuation_state,
        _ => seq![],
    }
}

/// The request of a query that the reply with this index answers. Each request
/// hands back the continuation state of the reply before it.
pub open spec fn request_at(
    query: QueryV,
    transaction_id: u16,
    continuation_state: Seq<u8>,
    replies: Seq<Reply>,
    index: int,
) -> SdpPduV {
    query.request(
        ((transaction_id + index) % 65536) as u16,
        if index == 0 {
            continuation_state
        } else {
            state_of(replies[index - 1])
        },
    )
}

/// Whether a transport went through these states while it gave these replies to
/// the requests of a query.
#[verifier::opaque]
pub open spec fn conversed<T: SdpTransport>(
    transports: Seq<T>,
    query: QueryV,
    transaction_id: u16,
    continuation_state: Seq<u8>,
    replies: Seq<Reply>,
) -> bool {
    &&& transports.len() == replies.len() + 1
    &&& forall|i: int|
        0 <= i < replies.len() ==> (#[trigger] transports[i]).may_reply(
            request_at(query, transaction_id, continuation_state, replies, i),
            replies[i],
            &transports[i + 1],
        )
}

/// One more reply.
proof fn lemma_conversed_push<T: SdpTransport>(
    transports: Seq<T>,
    query: QueryV,
    transaction_id: u16,
    replies: Seq<Reply>,
    reply: Reply,
    after: T,
)
    requires
        conversed(transports, query, transaction_id, complete(), replies),
        transports.last().may_reply(
            request_at(query, transaction_id, complete(), replies, replies.len() as int),
            reply,
            &after,
        ),
    ensures
        conversed(transports.push(after), query, transaction_id, complete(), replies.push(reply)),
{
    reveal(conversed);
    let all = replies.push(reply);
    let states = transports.push(after);
    assert forall|i: int| 0 <= i < all.len() implies (#[trigger] states[i]).may_reply(
        request_at(query, transaction_id, complete(), all, i),
        all[i],
        &states[i + 1],
    ) by {
        assert(request_at(query, transaction_id, complete(), all, i) == request_at(
            query,
            transaction_id,
            complete(),
            replies,
            i,
        ));
        assert(states[i] == transports[i]);
    }
}

/// The attribute bytes of a response to a search for attributes and its
/// continuation state, or the error for any other reply.
pub open spec fn search_attribute_part(reply: Reply) -> Result<(Seq<u8>, Seq<u8>), ClientErrorV> {
    match reply {
        Err(message) => Err(ClientErrorV::Transport(message)),
        Ok(SdpPduV::ServiceSearchAttributeResponse { attribute_lists, continuation_state, .. }) => Ok(
            (attribute_lists, continuation_state),
        ),
        Ok(SdpPduV::ErrorResponse { error_code, .. }) => Err(ClientErrorV::Protocol(error_code)),
        Ok(_) => Err(ClientErrorV::Unexpected),
    }
}

/// The attribute bytes of a response to a request for a record's attributes and
/// its continuation state, or the error for any other reply.
pub open spec fn attribute_part(reply: Reply) -> Result<(Seq<u8>, Seq<u8>), ClientErrorV> {
    match reply {
        Err(message) => Err(ClientErrorV::Transport(message)),
        Ok(SdpPduV::ServiceAttributeResponse { attribute_list, continuation_state, .. }) => Ok(
            (attribute_list, continuation_state),
        ),
        Ok(SdpPduV::ErrorResponse { error_code, .. }) => Err(ClientErrorV::Protocol(error_code)),
        Ok(_) => Err(ClientErrorV::Unexpected),
    }
}

/// The handles of a response to a search and its continuation state, or the
/// error for any other reply.
pub open spec fn search_part(reply: Reply) -> Result<(Seq<u32>, Seq<u8>), ClientErrorV> {
    match reply {
        Err(message) => Err(ClientErrorV::Transport(message)),
        Ok(
            SdpPduV::ServiceSearchResponse { service_record_handle_list, continuation_state, .. },
        ) => Ok((service_record_handle_list, continuation_state)),
        Ok(SdpPduV::ErrorResponse { error_code, .. }) => Err(ClientErrorV::Protocol(error_code)),
        Ok(_) => Err(ClientErrorV::Unexpected),
    }
}

/// What exactly these parts of an answer, one per request, add up to: everything
/// up to the part that completes the answer or fails, or all parts once there
/// are as many as the watchdog allows. Nothing where more would be asked for, or
/// fewer would have been.
#[verifier::opaque]
pub open spec fn collected<T>(
    parts: Seq<Result<(Seq<T>, Seq<u8>), ClientErrorV>>,
    budget: nat,
) -> Option<Result<Seq<T>, ClientErrorV>>
    decreases parts.len(),
{
    if parts.len() == 0 {
        if budget == 0 {
            Some(Ok(seq![]))
        } else {
            None
        }
    } else if budget == 0 {
        None
    } else {
        match parts[0] {
            Err(error) => if parts.len() == 1 {
                Some(Err(error))
            } else {
                None
            },
            Ok((items, continuation_state)) => if continuation_state == complete() {
                if parts.len() == 1 {
                    Some(Ok(items))
                } else {
                    None
                }
            } else {
                match collected(parts.skip(1), (budget - 1) as nat) {
                    Some(Ok(rest)) => Some(Ok(items + rest)),
                    other => other,
                }
            },
        }
    }
}

/// What the replies to a search for attributes amount to.
pub open spec fn search_attribute_parts(replies: Seq<Reply>) -> Seq<
    Result<(Seq<u8>, Seq<u8>), ClientErrorV>,
> {
    replies.map_values(|reply: Reply| search_attribute_part(reply))
}

/// What the replies to a request for a record's attributes amount to.
pub open spec fn attribute_parts(replies: Seq<Reply>) -> Seq<
    Result<(Seq<u8>, Seq<u8>), ClientErrorV>,
> {
    replies.map_values(|reply: Reply| attribute_part(reply))
}

/// What the replies to a search amount to.
pub open spec fn search_parts(replies: Seq<Reply>) -> Seq<
    Result<(Seq<u32>, Seq<u8>), ClientErrorV>,
> {
    replies.map_values(|reply: Reply| search_part(reply))
}

/// All parts say that more is to come.
spec fn all_ask_for_more<T>(parts: Seq<Result<(Seq<T>, Seq<u8>), ClientErrorV>>) -> bool {
    forall|i: int|
        0 <= i < parts.len() ==> (#[trigger] parts[i]) is Ok && parts[i]->Ok_0.1 != complete()
}

/// The items of all parts.
spec fn joined<T>(parts: Seq<Result<(Seq<T>, Seq<u8>), ClientErrorV>>) -> Seq<T>
    decreases parts.len(),
{
    if parts.len() == 0 {
        seq![]
    } else {
        parts[0]->Ok_0.0 + joined(parts.skip(1))
    }
}

proof fn lemma_joined_push<T>(
    parts: Seq<Result<(Seq<T>, Seq<u8>), ClientErrorV>>,
    last: Result<(Seq<T>, Seq<u8>), ClientErrorV>,
)
    ensures
        joined(parts.push(last)) == joined(parts) + last->Ok_0.0,
    decreases parts.len(),
{
    let all = parts.push(last);
    if parts.len() == 0 {
        assert(all.skip(1) =~= Seq::<Result<(Seq<T>, Seq<u8>), ClientErrorV>>::empty());
        assert(joined(all.skip(1)) =~= Seq::<T>::empty());
        assert(joined(all) =~= joined(parts) + last->Ok_0.0);
    } else {
        lemma_joined_push(parts.skip(1), last);
        assert(all.skip(1) =~= parts.skip(1).push(last));
        assert(joined(all) =~= joined(parts) + last->Ok_0.0);
    }
}

proof fn lemma_collected_last<T>(
    parts: Seq<Result<(Seq<T>, Seq<u8>), ClientErrorV>>,
    last: Result<(Seq<T>, Seq<u8>), ClientErrorV>,
    budget: nat,
)
    requires
        all_ask_for_more(parts),
        parts.len() < budget,
    ensures
        match last {
            Err(error) => collected(parts.push(last), budget) == Some(
                Err::<Seq<T>, ClientErrorV>(error),
            ),
            Ok((items, continuation_state)) => continuation_state == complete() ==> collected(
                parts.push(last),
                budget,
            ) == Some(Ok::<Seq<T>, ClientErrorV>(joined(parts) + items)),
        },
    decreases parts.len(),
{
    reveal(collected);
    let all = parts.push(last);
    assert(all.skip(1) =~= parts.skip(1).push(last) || parts.len() == 0);
    if parts.len() == 0 {
        if let Ok((items, _)) = last {
            assert(joined(parts) + items =~= items);
        }
    } else {
        assert forall|i: int| 0 <= i < parts.len() - 1 implies (#[trigger] parts.skip(1)[i]) is Ok
            && parts.skip(1)[i]->Ok_0.1 != complete() by {
            assert(parts.skip(1)[i] == parts[i + 1]);
        }
        lemma_collected_last(parts.skip(1), last, (budget - 1) as nat);
        assert(all[0] == parts[0]);
        if let Ok((items, _)) = last {
            assert(joined(parts) + items =~= parts[0]->Ok_0.0 + (joined(parts.skip(1)) + items));
        }
    }
}

proof fn lemma_collected_exhausted<T>(
    parts: Seq<Result<(Seq<T>, Seq<u8>), ClientErrorV>>,
)
    requires
        all_ask_for_more(parts),
    ensures
        collected(parts, parts.len()) == Some(Ok::<Seq<T>, ClientErrorV>(joined(parts))),
    decreases parts.len(),
{
    reveal(collected);
    if parts.len() > 0 {
        assert forall|i: int| 0 <= i < parts.len() - 1 implies (#[trigger] parts.skip(1)[i]) is Ok
            && parts.skip(1)[i]->Ok_0.1 != complete() by {
            assert(parts.skip(1)[i] == parts[i + 1]);
        }
        lemma_collected_exhausted(parts.skip(1));
    }
}

/// Whether a continuation state says that the answer is complete.
fn is_terminal(continuation_state: &[u8]) -> (terminal: bool)
    ensures
        terminal == (continuation_state@ == complete()),
{
    let terminal = continuation_state.len() == 1 && continuation_state[0] == 0;
    proof {
        if terminal {
            assert(continuation_state@ =~= complete());
        }
    }
    terminal
}

/// The attribute bytes of a response to a search for attributes and its
/// continuation state, or the error for any other reply.
pub fn take_search_attribute_part(reply: Result<SdpPdu, TransportError>) -> (part: Result<
    (Vec<u8>, Vec<u8>),
    ClientError,
>)
    ensures
        match (part, search_attribute_part(reply_of(reply))) {
            (Ok((bytes, state)), Ok((model, model_state))) => bytes@ == model && state@
                == model_state,
            (Err(error), Err(model)) => error@ == model,
            _ => false,
        },
{
    match reply {
        Err(error) => Err(ClientError::from(error)),
        Ok(SdpPdu::ServiceSearchAttributeResponse { attribute_lists, continuation_state, .. }) => Ok(
            (attribute_lists, continuation_state),
        ),
        Ok(SdpPdu::ErrorResponse { error_code, .. }) => Err(ClientError::Protocol(error_code)),
        Ok(_) => Err(ClientError::Unexpected),
    }
}

/// The attribute bytes of a response to a request for a record's attributes and
/// its continuation state, or the error for any other reply.
pub fn take_attribute_part(reply: Result<SdpPdu, TransportError>) -> (part: Result<
    (Vec<u8>, Vec<u8>),
    ClientError,
>)
    ensures
        match (part, attribute_part(reply_of(reply))) {
            (Ok((bytes, state)), Ok((model, model_state))) => bytes@ == model && state@
                == model_state,
            (Err(error), Err(model)) => error@ == model,
            _ => false,
        },
{
    match reply {
        Err(error) => Err(ClientError::from(error)),
        Ok(SdpPdu::ServiceAttributeResponse { attribute_list, continuation_state, .. }) => Ok(
            (attribute_list, continuation_state),
        ),
        Ok(SdpPdu::ErrorResponse { error_code, .. }) => Err(ClientError::Protocol(error_code)),
        Ok(_) => Err(ClientError::Unexpected),
    }
}

/// The handles of a response to a search and its continuation state, or the
/// error for any other reply.
pub fn take_search_part(reply: Result<SdpPdu, TransportError>) -> (part: Result<
    (Vec<u32>, Vec<u8>),
    ClientError,
>)
    ensures
        match (part, search_part(reply_of(reply))) {
            (Ok((handles, state)), Ok((model, model_state))) => handles@ == model && state@
                == model_state,
            (Err(error), Err(model)) => error@ == model,
            _ => false,
        },
{
    match reply {
        Err(error) => Err(ClientError::from(error)),
        Ok(
            SdpPdu::ServiceSearchResponse { service_record_handle_list, continuation_state, .. },
        ) => Ok((service_record_handle_list, continuation_state)),
        Ok(SdpPdu::ErrorResponse { error_code, .. }) => Err(ClientError::Protocol(error_code)),
        Ok(_) => Err(ClientError::Unexpected),
    }
}

/// The attribute lists in the elements of an answer; elements that are no
/// sequences are left out.
pub open spec fn lists_of(services: Seq<DataElementV>) -> Seq<Seq<ServiceAttributeV>>
    decreases services.len(),
{
    if services.len() == 0 {
        seq![]
    } else {
        let before = lists_of(services.drop_last());
        match services.last() {
            DataElementV::Sequence(elements) => before.push(attributes_of(elements)),
            _ => before,
        }
    }
}

/// The attribute lists that the bytes of an answer stand for.
pub open spec fn parsed_lists(bytes: Seq<u8>) -> Result<Seq<Seq<ServiceAttributeV>>, ErrorV> {
    if bytes.len() == 0 {
        Ok(seq![])
    } else {
        match parse_element(bytes, 0, 0) {
            Err(error) => Err(error),
            Ok((_, DataElementV::Sequence(services))) => Ok(lists_of(services)),
            Ok(_) => Ok(seq![]),
        }
    }
}

/// The attributes that the bytes of an answer stand for.
pub open spec fn parsed_list(bytes: Seq<u8>) -> Result<Seq<ServiceAttributeV>, ErrorV> {
    if bytes.len() == 0 {
        Ok(seq![])
    } else {
        match parse_element(bytes, 0, 0) {
            Err(error) => Err(error),
            Ok((_, DataElementV::Sequence(elements))) => Ok(attributes_of(elements)),
            Ok(_) => Ok(seq![]),
        }
    }
}

/// The contents of a list of attribute lists.
pub open spec fn list_views(lists: Seq<Vec<ServiceAttribute>>) -> Seq<Seq<ServiceAttributeV>> {
    lists.map_values(|list: Vec<ServiceAttribute>| attribute_views(list@))
}

/// Whether an operation returned the expected lists or the expected error.
pub open spec fn lists_agree(
    actual: Result<Vec<Vec<ServiceAttribute>>, Error>,
    expected: Result<Seq<Seq<ServiceAttributeV>>, ErrorV>,
) -> bool {
    match (actual, expected) {
        (Ok(lists), Ok(model)) => list_views(lists@) == model,
        (Err(error), Err(model)) => error@ == model,
        _ => false,
    }
}

/// Whether an operation returned the expected list or the expected error.
pub open spec fn list_agrees(
    actual: Result<Vec<ServiceAttribute>, Error>,
    expected: Result<Seq<ServiceAttributeV>, ErrorV>,
) -> bool {
    match (actual, expected) {
        (Ok(list), Ok(model)) => attribute_views(list@) == model,
        (Err(error), Err(model)) => error@ == model,
        _ => false,
    }
}

/// Reads the attribute lists that the bytes of an answer stand for.
pub fn parse_attribute_lists(bytes: &[u8]) -> (result: Result<Vec<Vec<ServiceAttribute>>, Error>)
    ensures
        lists_agree(result, parsed_lists(bytes@)),
{
    let mut lists: Vec<Vec<ServiceAttribute>> = Vec::new();
    assert(list_views(lists@) =~= Seq::<Seq<ServiceAttributeV>>::empty());
    if bytes.len() == 0 {
        return Ok(lists);
    }
    match DataElement::from_bytes(bytes) {
        Err(error) => Err(error),
        Ok(DataElement::Sequence(services)) => {
            proof {
                lemma_sequence_model(services);
            }
            let ghost models = element_views(services@);
            let mut index: usize = 0;
            assert(models.take(0) =~= Seq::<DataElementV>::empty());
            while index < services.len()
                invariant
                    index <= services@.len(),
                    models == element_views(services@),
                    list_views(lists@) == lists_of(models.take(index as int)),
                decreases services@.len() - index,
            {
                let ghost part = models.take(index + 1);
                let ghost before = lists@;
                assert(part.drop_last() =~= models.take(index as int));
                assert(part.last() == services@[index as int]@);
                match &services[index] {
                    DataElement::Sequence(elements) => {
                        proof {
                            lemma_sequence_model(*elements);
                        }
                        let list = ServiceAttribute::list_from_data_elements(elements);
                        lists.push(list);
                        assert(list_views(lists@) =~= list_views(before).push(
                            attribute_views(list@),
                        ));
                    },
                    _ => {},
                }
                index = index + 1;
            }
            assert(models.take(index as int) =~= models);
            Ok(lists)
        },
        Ok(_) => Ok(lists),
    }
}

/// Reads the attributes that the bytes of an answer stand for.
pub fn parse_attribute_list(bytes: &[u8]) -> (result: Result<Vec<ServiceAttribute>, Error>)
    ensures
        list_agrees(result, parsed_list(bytes@)),
{
    let none: Vec<ServiceAttribute> = Vec::new();
    assert(attribute_views(none@) =~= Seq::<ServiceAttributeV>::empty());
    if bytes.len() == 0 {
        return Ok(none);
    }
    match DataElement::from_bytes(bytes) {
        Err(error) => Err(error),
        Ok(DataElement::Sequence(elements)) => {
            proof {
                lemma_sequence_model(elements);
            }
            Ok(ServiceAttribute::list_from_data_elements(&elements))
        },
        Ok(_) => Ok(none),
    }
}

/// A service discovery client on top of a transport.
#[derive(Debug)]
pub struct SdpClient<T: SdpTransport> {
    transport: T,
    next_transaction_id: u16,
}

/// The first continuation state of a query.
fn fresh_state() -> (state: Vec<u8>)
    ensures
        state@ == complete(),
{
    let mut state: Vec<u8> = Vec::new();
    state.push(0);
    assert(state@ =~= complete());
    state
}

impl<T: SdpTransport> SdpClient<T> {
    /// The transaction identifier of the next request.
    pub closed spec fn next_transaction(self) -> u16 {
        self.next_transaction_id
    }

    /// Wraps a transport.
    pub fn new(transport: T) -> (client: Self)
        ensures
            client.next_transaction() == 0,
            client.inner() == transport,
    {
        SdpClient { transport, next_transaction_id: 0 }
    }

    pub closed spec fn inner(self) -> T {
        self.transport
    }

    /// Borrows the underlying transport.
    pub fn transport_mut(&mut self) -> (transport: &mut T)
        ensures
            *transport == old(self).inner(),
            final(self).inner() == *final(transport),
            final(self).next_transaction() == old(self).next_transaction(),
    {
        &mut self.transport
    }

    /// Recovers the underlying transport.
    pub fn into_transport(self) -> (transport: T)
        ensures
            transport == self.inner(),
    {
        self.transport
    }

    fn make_transaction_id(&mut self) -> (id: u16)
        ensures
            id == old(self).next_transaction(),
            final(self).next_transaction() == (old(self).next_transaction() + 1) % 65536,
            final(self).inner() == old(self).inner(),
    {
        let id: u16 = self.next_transaction_id;
        self.next_transaction_id = if id == 65535 {
            0
        } else {
            id + 1
        };
        id
    }

    /// Searches for the services with one of the UUIDs and returns the selected
    /// attributes of each. Whatever came back, the result is what some replies,
    /// one for each request made, add up to.
    #[verifier::spinoff_prover]
    pub fn service_search_attribute(&mut self, uuids: &[Uuid], attribute_ids: &[AttributeId]) -> (result:
        Result<Vec<Vec<ServiceAttribute>>, ClientError>)
        ensures
            exists|replies: Seq<Reply>, transports: Seq<T>|
                #![trigger conversed(transports, QueryV::of_search(uuids@, attribute_ids@), old(self).next_transaction(), complete(), replies)]
                {
                    &&& conversed(
                        transports,
                        QueryV::of_search(uuids@, attribute_ids@),
                        old(self).next_transaction(),
                        complete(),
                        replies,
                    )
                    &&& transports[0] == old(self).inner()
                    &&& transports.last() == final(self).inner()
                    &&& replies.len() <= CONTINUATION_WATCHDOG
                    &&& final(self).next_transaction() == (old(self).next_transaction()
                        + replies.len()) % 65536
                    &&& match collected(search_attribute_parts(replies), CONTINUATION_WATCHDOG as nat) {
                        None => false,
                        Some(Err(error)) => result matches Err(actual) && actual@ == error,
                        Some(Ok(bytes)) => match (result, parsed_lists(bytes)) {
                            (Ok(lists), Ok(model)) => list_views(lists@) == model,
                            (Err(actual), Err(error)) => actual@ == ClientErrorV::Parse(error),
                            _ => false,
                        },
                    }
                },
    {
        let pattern = search_pattern(uuids);
        let ids = attribute_id_list(attribute_ids);
        let mut accumulator: Vec<u8> = Vec::new();
        let mut continuation_state = fresh_state();
        let ghost query = QueryV::of_search(uuids@, attribute_ids@);
        let ghost mut replies: Seq<Reply> = seq![];
        let ghost mut transports: Seq<T> = seq![self.inner()];
        proof {
            reveal(conversed);
        }
        let mut round: usize = 0;
        assert(search_attribute_parts(replies) =~= seq![]);
        assert(accumulator@ =~= Seq::<u8>::empty());
        while round < CONTINUATION_WATCHDOG
            invariant
                round <= CONTINUATION_WATCHDOG,
                pattern@ == pattern_of(uuids@),
                ids@ == id_list_of(attribute_ids@),
                replies.len() == round,
                transports.len() == round + 1,
                query == QueryV::of_search(uuids@, attribute_ids@),
                conversed(transports, query, old(self).next_transaction(), complete(), replies),
                transports[0] == old(self).inner(),
                transports.last() == self.inner(),
                continuation_state@ == if round == 0 {
                    complete()
                } else {
                    state_of(replies.last())
                },
                all_ask_for_more(search_attribute_parts(replies)),
                joined(search_attribute_parts(replies)) == accumulator@,
                self.next_transaction() == (old(self).next_transaction() + round) % 65536,
            decreases CONTINUATION_WATCHDOG - round,
        {
            let request = SdpPdu::ServiceSearchAttributeRequest {
                transaction_id: self.make_transaction_id(),
                service_search_pattern: pattern.copy(),
                maximum_attribute_byte_count: 0xFFFF,
                attribute_id_list: ids.copy(),
                continuation_state: copy_bytes(&continuation_state),
            };
            let reply = self.transport.request(&request);
            let ghost parts = search_attribute_parts(replies);
            proof {
                let model = reply_of(reply);
                assert(request@ == request_at(
                    query,
                    old(self).next_transaction(),
                    complete(),
                    replies,
                    round as int,
                ));
                lemma_conversed_push(
                    transports,
                    query,
                    old(self).next_transaction(),
                    replies,
                    model,
                    self.inner(),
                );
                transports = transports.push(self.inner());
                replies = replies.push(model);
                assert(search_attribute_parts(replies) =~= parts.push(search_attribute_part(model)));
                lemma_collected_last(parts, search_attribute_part(model), CONTINUATION_WATCHDOG as nat);
                lemma_joined_push(parts, search_attribute_part(model));
            }
            match take_search_attribute_part(reply) {
                Err(error) => {
                    return Err(error);
                },
                Ok((bytes, state)) => {
                    append_bytes(&mut accumulator, &bytes);
                    if is_terminal(&state) {
                        return match parse_attribute_lists(&accumulator) {
                            Ok(lists) => Ok(lists),
                            Err(error) => Err(ClientError::Parse(error)),
                        };
                    }
                    continuation_state = state;
                },
            }
            round = round + 1;
        }
        proof {
            lemma_collected_exhausted(search_attribute_parts(replies));
        }
        match parse_attribute_lists(&accumulator) {
            Ok(lists) => Ok(lists),
            Err(error) => Err(ClientError::Parse(error)),
        }
    }

    /// Fetches the selected attributes of the record with a handle. Whatever
    /// came back, the result is what some replies, one for each request made,
    /// add up to.
    #[verifier::spinoff_prover]
    pub fn get_attributes(&mut self, service_record_handle: u32, attribute_ids: &[AttributeId]) -> (result:
        Result<Vec<ServiceAttribute>, ClientError>)
        ensures
            exists|replies: Seq<Reply>, transports: Seq<T>|
                #![trigger conversed(transports, QueryV::of_record(service_record_handle, attribute_ids@), old(self).next_transaction(), complete(), replies)]
                {
                    &&& conversed(
                        transports,
                        QueryV::of_record(service_record_handle, attribute_ids@),
                        old(self).next_transaction(),
                        complete(),
                        replies,
                    )
                    &&& transports[0] == old(self).inner()
                    &&& transports.last() == final(self).inner()
                    &&& replies.len() <= CONTINUATION_WATCHDOG
                    &&& final(self).next_transaction() == (old(self).next_transaction()
                        + replies.len()) % 65536
                    &&& match collected(attribute_parts(replies), CONTINUATION_WATCHDOG as nat) {
                        None => false,
                        Some(Err(error)) => result matches Err(actual) && actual@ == error,
                        Some(Ok(bytes)) => match (result, parsed_list(bytes)) {
                            (Ok(list), Ok(model)) => attribute_views(list@) == model,
                            (Err(actual), Err(error)) => actual@ == ClientErrorV::Parse(error),
                            _ => false,
                        },
                    }
                },
    {
        let ids = attribute_id_list(attribute_ids);
        let mut accumulator: Vec<u8> = Vec::new();
        let mut continuation_state = fresh_state();
        let ghost query = QueryV::of_record(service_record_handle, attribute_ids@);
        let ghost mut replies: Seq<Reply> = seq![];
        let ghost mut transports: Seq<T> = seq![self.inner()];
        proof {
            reveal(conversed);
        }
        let mut round: usize = 0;
        assert(attribute_parts(replies) =~= seq![]);
        assert(accumulator@ =~= Seq::<u8>::empty());
        while round < CONTINUATION_WATCHDOG
            invariant
                round <= CONTINUATION_WATCHDOG,
                ids@ == id_list_of(attribute_ids@),
                replies.len() == round,
                transports.len() == round + 1,
                query == QueryV::of_record(service_record_handle, attribute_ids@),
                conversed(transports, query, old(self).next_transaction(), complete(), replies),
                transports[0] == old(self).inner(),
                transports.last() == self.inner(),
                continuation_state@ == if round == 0 {
                    complete()
                } else {
                    state_of(replies.last())
                },
                all_ask_for_more(attribute_parts(replies)),
                joined(attribute_parts(replies)) == accumulator@,
                self.next_transaction() == (old(self).next_transaction() + round) % 65536,
            decreases CONTINUATION_WATCHDOG - round,
        {
            let request = SdpPdu::ServiceAttributeRequest {
                transaction_id: self.make_transaction_id(),
                service_record_handle,
                maximum_attribute_byte_count: 0xFFFF,
                attribute_id_list: ids.copy(),
                continuation_state: copy_bytes(&continuation_state),
            };
            let reply = self.transport.request(&request);
            let ghost parts = attribute_parts(replies);
            proof {
                let model = reply_of(reply);
                assert(request@ == request_at(
                    query,
                    old(self).next_transaction(),
                    complete(),
                    replies,
                    round as int,
                ));
                lemma_conversed_push(
                    transports,
                    query,
                    old(self).next_transaction(),
                    replies,
                    model,
                    self.inner(),
                );
                transports = transports.push(self.inner());
                replies = replies.push(model);
                assert(attribute_parts(replies) =~= parts.push(attribute_part(model)));
                lemma_collected_last(parts, attribute_part(model), CONTINUATION_WATCHDOG as nat);
                lemma_joined_push(parts, attribute_part(model));
            }
            match take_attribute_part(reply) {
                Err(error) => {
                    return Err(error);
                },
                Ok((bytes, state)) => {
                    append_bytes(&mut accumulator, &bytes);
                    if is_terminal(&state) {
                        return match parse_attribute_list(&accumulator) {
                            Ok(list) => Ok(list),
                            Err(error) => Err(ClientError::Parse(error)),
                        };
                    }
                    continuation_state = state;
                },
            }
            round = round + 1;
        }
        proof {
            lemma_collected_exhausted(attribute_parts(replies));
        }
        match parse_attribute_list(&accumulator) {
            Ok(list) => Ok(list),
            Err(error) => Err(ClientError::Parse(error)),
        }
    }

    /// Searches for the handles of the records with one of the UUIDs. Whatever
    /// came back, the result is what some replies, one for each request made,
    /// add up to.
    #[verifier::spinoff_prover]
    pub fn search_services(&mut self, uuids: &[Uuid]) -> (result: Result<Vec<u32>, ClientError>)
        ensures
            exists|replies: Seq<Reply>, transports: Seq<T>|
                #![trigger conversed(transports, QueryV::of_uuids(uuids@), old(self).next_transaction(), complete(), replies)]
                {
                    &&& conversed(
                        transports,
                        QueryV::of_uuids(uuids@),
                        old(self).next_transaction(),
                        complete(),
                        replies,
                    )
                    &&& transports[0] == old(self).inner()
                    &&& transports.last() == final(self).inner()
                    &&& replies.len() <= CONTINUATION_WATCHDOG
                    &&& final(self).next_transaction() == (old(self).next_transaction()
                        + replies.len()) % 65536
                    &&& match collected(search_parts(replies), CONTINUATION_WATCHDOG as nat) {
                        None => false,
                        Some(Err(error)) => result matches Err(actual) && actual@ == error,
                        Some(Ok(handles)) => result matches Ok(actual) && actual@ == handles,
                    }
                },
    {
        let pattern = search_pattern(uuids);
        let mut handles: Vec<u32> = Vec::new();
        let mut continuation_state = fresh_state();
        let ghost query = QueryV::of_uuids(uuids@);
        let ghost mut replies: Seq<Reply> = seq![];
        let ghost mut transports: Seq<T> = seq![self.inner()];
        proof {
            reveal(conversed);
        }
        let mut round: usize = 0;
        assert(search_parts(replies) =~= seq![]);
        assert(handles@ =~= Seq::<u32>::empty());
        while round < CONTINUATION_WATCHDOG
            invariant
                round <= CONTINUATION_WATCHDOG,
                pattern@ == pattern_of(uuids@),
                replies.len() == round,
                transports.len() == round + 1,
                query == QueryV::of_uuids(uuids@),
                conversed(transports, query, old(self).next_transaction(), complete(), replies),
                transports[0] == old(self).inner(),
                transports.last() == self.inner(),
                continuation_state@ == if round == 0 {
                    complete()
                } else {
                    state_of(replies.last())
                },
                all_ask_for_more(search_parts(replies)),
                joined(search_parts(replies)) == handles@,
                self.next_transaction() == (old(self).next_transaction() + round) % 65536,
            decreases CONTINUATION_WATCHDOG - round,
        {
            let request = SdpPdu::ServiceSearchRequest {
                transaction_id: self.make_transaction_id(),
                service_search_pattern: pattern.copy(),
                maximum_service_record_count: 0xFFFF,
                continuation_state: copy_bytes(&continuation_state),
            };
            let reply = self.transport.request(&request);
            let ghost parts = search_parts(replies);
            proof {
                let model = reply_of(reply);
                assert(request@ == request_at(
                    query,
                    old(self).next_transaction(),
                    complete(),
                    replies,
                    round as int,
                ));
                lemma_conversed_push(
                    transports,
                    query,
                    old(self).next_transaction(),
                    replies,
                    model,
                    self.inner(),
                );
                transports = transports.push(self.inner());
                replies = replies.push(model);
                assert(search_parts(replies) =~= parts.push(search_part(model)));
                lemma_collected_last(parts, search_part(model), CONTINUATION_WATCHDOG as nat);
                lemma_joined_push(parts, search_part(model));
            }
            match take_search_part(reply) {
                Err(error) => {
                    return Err(error);
                },
                Ok((mut found, state)) => {
                    let ghost before = handles@;
                    let ghost more = found@;
                    handles.append(&mut found);
                    assert(handles@ =~= before + more);
                    if is_terminal(&state) {
                        return Ok(handles);
                    }
                    continuation_state = state;
                },
            }
            round = round + 1;
        }
        proof {
            lemma_collected_exhausted(search_parts(replies));
        }
        Ok(handles)
    }
}

} // verus!
