//! Service attributes: the identified values that a service record consists of.

use vstd::prelude::*;

use super::element::{element_views, lemma_sequence_model, DataElement, DataElementV};
use crate::values::{expanded_uuid, BluetoothUuid as Uuid};

verus! {

/// The contents of an attribute.
pub struct ServiceAttributeV {
    pub id: u16,
    pub value: DataElementV,
}

/// An attribute identifier and its value. A record is written as a sequence of
/// alternating identifiers and values; see
/// [`ServiceAttribute::list_to_data_element`].
#[derive(Debug, PartialEq, Eq)]
pub struct ServiceAttribute {
    pub id: u16,
    pub value: DataElement,
}

impl View for ServiceAttribute {
    type V = ServiceAttributeV;

    open spec fn view(&self) -> ServiceAttributeV {
        ServiceAttributeV { id: self.id, value: self.value@ }
    }
}

impl Clone for ServiceAttribute {
    fn clone(&self) -> (attribute: Self)
        ensures
            attribute@ == self@,
    {
        self.copy()
    }
}

/// The contents of a list of attributes.
pub open spec fn attribute_views(attributes: Seq<ServiceAttribute>) -> Seq<ServiceAttributeV> {
    attributes.map_values(|attribute: ServiceAttribute| attribute@)
}

/// The element for an attribute identifier.
pub open spec fn id_element(id: u16) -> DataElementV {
    DataElementV::UnsignedInteger { value: id as u128, size: 2 }
}

/// Identifiers and values in turn.
pub open spec fn attribute_elements(attributes: Seq<ServiceAttributeV>) -> Seq<DataElementV> {
    Seq::new(
        2 * attributes.len(),
        |i: int|
            if i % 2 == 0 {
                id_element(attributes[i / 2].id)
            } else {
                attributes[i / 2].value
            },
    )
}

/// The attributes in elements that are identifiers and values in turn. A pair
/// without an integer in first place is left out, and so is a single last element.
pub open spec fn attributes_of(elements: Seq<DataElementV>) -> Seq<ServiceAttributeV>
    decreases elements.len(),
{
    if elements.len() < 2 {
        seq![]
    } else {
        let rest = attributes_of(elements.skip(2));
        match elements[0] {
            DataElementV::UnsignedInteger { value, .. } => seq![
                ServiceAttributeV { id: (value % 65536) as u16, value: elements[1] },
            ] + rest,
            _ => rest,
        }
    }
}

/// The value of the first attribute with this identifier.
pub open spec fn attribute_value(attributes: Seq<ServiceAttributeV>, id: u16) -> Option<DataElementV>
    decreases attributes.len(),
{
    if attributes.len() == 0 {
        None
    } else if attributes[0].id == id {
        Some(attributes[0].value)
    } else {
        attribute_value(attributes.skip(1), id)
    }
}

/// Whether a value is a UUID, or is a sequence that contains it at any depth of
/// sequences. Alternatives are not searched.
pub open spec fn uuid_in(uuid: Seq<u8>, value: DataElementV) -> bool
    decreases value,
{
    match value {
        DataElementV::Uuid(candidate) => expanded_uuid(candidate) == expanded_uuid(uuid),
        DataElementV::Sequence(elements) => exists|i: int|
            0 <= i < elements.len() && uuid_in(uuid, #[trigger] elements[i]),
        _ => false,
    }
}

proof fn lemma_uuid_in_sequence(uuid: Seq<u8>, elements: Seq<DataElementV>, index: int)
    requires
        0 <= index < elements.len(),
        uuid_in(uuid, elements[index]),
    ensures
        uuid_in(uuid, DataElementV::Sequence(elements)),
{
    assert(exists|i: int| 0 <= i < elements.len() && uuid_in(uuid, #[trigger] elements[i]));
    let value = DataElementV::Sequence(elements);
    assert(value->Sequence_0 == elements);
    assert(uuid_in(uuid, value) == exists|i: int| 0 <= i < elements.len() && uuid_in(uuid, #[trigger] elements[i]));
}

impl ServiceAttribute {
    /// Create a new attribute.
    pub fn new(id: u16, value: DataElement) -> (attribute: Self)
        ensures
            attribute@ == (ServiceAttributeV { id, value: value@ }),
    {
        ServiceAttribute { id, value }
    }

    /// An attribute with the same contents.
    pub fn copy(&self) -> (attribute: ServiceAttribute)
        ensures
            attribute@ == self@,
    {
        ServiceAttribute { id: self.id, value: self.value.copy() }
    }

    /// The sequence of identifiers and values in turn that encodes a record.
    pub fn list_to_data_element(attributes: &[ServiceAttribute]) -> (element: DataElement)
        ensures
            element@ == DataElementV::Sequence(attribute_elements(attribute_views(attributes@))),
    {
        let mut elements: Vec<DataElement> = Vec::new();
        let mut index: usize = 0;
        let ghost models = attribute_views(attributes@);
        while index < attributes.len()
            invariant
                index <= attributes@.len(),
                models == attribute_views(attributes@),
                element_views(elements@) == attribute_elements(models.take(index as int)),
            decreases attributes@.len() - index,
        {
            let ghost before = elements@;
            let id = DataElement::unsigned_integer_16(attributes[index].id);
            let value = attributes[index].value.copy();
            elements.push(id);
            elements.push(value);
            assert(models[index as int] == attributes@[index as int]@);
            assert(element_views(elements@) =~= element_views(before).push(id@).push(value@));
            assert(element_views(elements@) =~= attribute_elements(models.take(index + 1)));
            index = index + 1;
        }
        assert(models.take(index as int) =~= models);
        DataElement::sequence(elements)
    }

    /// The attributes in elements that are identifiers and values in turn.
    pub fn list_from_data_elements(elements: &[DataElement]) -> (attributes: Vec<ServiceAttribute>)
        ensures
            attribute_views(attributes@) == attributes_of(element_views(elements@)),
    {
        let mut attributes: Vec<ServiceAttribute> = Vec::new();
        let mut index: usize = 0;
        let ghost models = element_views(elements@);
        assert(models.skip(0) =~= models);
        assert(attribute_views(attributes@) + attributes_of(models) =~= attributes_of(models));
        while elements.len() - index >= 2
            invariant
                index <= elements@.len(),
                models == element_views(elements@),
                attributes_of(models) == attribute_views(attributes@) + attributes_of(
                    models.skip(index as int),
                ),
            decreases elements@.len() - index,
        {
            let ghost rest = models.skip(index as int);
            let ghost before = attribute_views(attributes@);
            assert(rest[0] == elements@[index as int]@);
            assert(rest[1] == elements@[index + 1]@);
            assert(rest.skip(2) =~= models.skip(index + 2));
            match &elements[index] {
                DataElement::UnsignedInteger { value, .. } => {
                    let attribute = ServiceAttribute {
                        id: (*value % 65536) as u16,
                        value: elements[index + 1].copy(),
                    };
                    let ghost model = attribute@;
                    attributes.push(attribute);
                    assert(attribute_views(attributes@) =~= before.push(model));
                    assert(before + (seq![model] + attributes_of(rest.skip(2))) =~= attribute_views(
                        attributes@,
                    ) + attributes_of(rest.skip(2)));
                },
                _ => {},
            }
            index = index + 2;
        }
        assert(attribute_views(attributes@) + Seq::<ServiceAttributeV>::empty() =~= attribute_views(
            attributes@,
        ));
        attributes
    }

    /// The value of the first attribute with this identifier.
    pub fn find(attributes: &[ServiceAttribute], id: u16) -> (value: Option<&DataElement>)
        ensures
            match value {
                Some(value) => attribute_value(attribute_views(attributes@), id) == Some(value@),
                None => attribute_value(attribute_views(attributes@), id) is None,
            },
    {
        let mut index: usize = 0;
        let ghost models = attribute_views(attributes@);
        assert(models.skip(0) =~= models);
        while index < attributes.len()
            invariant
                index <= attributes@.len(),
                models == attribute_views(attributes@),
                attribute_value(models, id) == attribute_value(models.skip(index as int), id),
            decreases attributes@.len() - index,
        {
            assert(models.skip(index as int)[0] == attributes@[index as int]@);
            assert(models.skip(index as int).skip(1) =~= models.skip(index + 1));
            if attributes[index].id == id {
                return Some(&attributes[index].value);
            }
            index = index + 1;
        }
        None
    }

    /// Whether `value` is `uuid` or contains it inside a sequence.
    pub fn is_uuid_in_value(uuid: &Uuid, value: &DataElement) -> (found: bool)
        ensures
            found == uuid_in(uuid@, value@),
        decreases value,
    {
        match value {
            DataElement::Uuid(candidate) => candidate.same(uuid),
            DataElement::Sequence(elements) => {
                proof {
                    lemma_sequence_model(*elements);
                }
                let ghost models = element_views(elements@);
                let mut index: usize = 0;
                while index < elements.len()
                    invariant
                        index <= elements@.len(),
                        models == element_views(elements@),
                        value@ == DataElementV::Sequence(models),
                        decreases_to!(value => elements),
                        forall|i: int| 0 <= i < index ==> !uuid_in(uuid@, #[trigger] models[i]),
                    decreases elements@.len() - index,
                {
                    let element = &elements[index];
                    assert(decreases_to!(elements => element));
                    assert(models[index as int] == element@);
                    if ServiceAttribute::is_uuid_in_value(uuid, element) {
                        proof {
                            lemma_uuid_in_sequence(uuid@, models, index as int);
                        }
                        return true;
                    }
                    index = index + 1;
                }
                false
            },
            _ => false,
        }
    }
}

/// A record's attributes are read back from its elements.
pub proof fn attributes_read_back(attributes: Seq<ServiceAttributeV>)
    ensures
        attributes_of(attribute_elements(attributes)) == attributes,
    decreases attributes.len(),
{
    let elements = attribute_elements(attributes);
    if attributes.len() > 0 {
        attributes_read_back(attributes.skip(1));
        assert(elements.skip(2) =~= attribute_elements(attributes.skip(1))) by {
            assert forall|i: int| 0 <= i < elements.len() - 2 implies elements.skip(2)[i]
                == attribute_elements(attributes.skip(1))[i] by {
                assert(attributes.skip(1)[i / 2] == attributes[(i + 2) / 2]);
            }
        }
        assert(elements[0] == id_element(attributes[0].id));
        assert(elements[1] == attributes[0].value);
        assert(seq![attributes[0]] + attributes.skip(1) =~= attributes);
    } else {
        assert(attributes =~= seq![]);
    }
}

} // verus!
