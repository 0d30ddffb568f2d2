use crate::encoding::edge::{edge_key, edge_of_key, lemma_edge_key_decodes, TypeEdge};
use crate::encoding::vertex::TypeVertex;
use vstd::prelude::*;

verus! {

/// The facts that are recorded about a single type.
#[derive(Clone, Copy, Debug, PartialEq, Eq, Structural, Hash)]
pub enum VertexProperty {
    Label,
    ValueType,
    Order,
    AnnotationAbstract,
    AnnotationIndependent,
    AnnotationDistinct,
    AnnotationCardinality,
}

impl VertexProperty {
    /// The tag byte that opens the key of this property.
    pub open spec fn spec_tag(self) -> u8 {
        match self {
            VertexProperty::Label => 40,
            VertexProperty::ValueType => 41,
            VertexProperty::Order => 42,
            VertexProperty::AnnotationAbstract => 43,
            VertexProperty::AnnotationIndependent => 44,
            VertexProperty::AnnotationDistinct => 45,
            VertexProperty::AnnotationCardinality => 46,
        }
    }

    /// The property a tag byte stands for, if it stands for one.
    pub open spec fn spec_from_tag(tag: u8) -> Option<VertexProperty> {
        if tag == 40 {
            Some(VertexProperty::Label)
        } else if tag == 41 {
            Some(VertexProperty::ValueType)
        } else if tag == 42 {
            Some(VertexProperty::Order)
        } else if tag == 43 {
            Some(VertexProperty::AnnotationAbstract)
        } else if tag == 44 {
            Some(VertexProperty::AnnotationIndependent)
        } else if tag == 45 {
            Some(VertexProperty::AnnotationDistinct)
        } else if tag == 46 {
            Some(VertexProperty::AnnotationCardinality)
        } else {
            None
        }
    }

    pub fn tag(self) -> (t: u8)
        ensures
            t == self.spec_tag(),
    {
        match self {
            VertexProperty::Label => 40,
            VertexProperty::ValueType => 41,
            VertexProperty::Order => 42,
            VertexProperty::AnnotationAbstract => 43,
            VertexProperty::AnnotationIndependent => 44,
            VertexProperty::AnnotationDistinct => 45,
            VertexProperty::AnnotationCardinality => 46,
        }
    }
}

/// The facts that are recorded about a relationship between two types.
#[derive(Clone, Copy, Debug, PartialEq, Eq, Structural, Hash)]
pub enum EdgeProperty {
    Order,
    AnnotationDistinct,
    AnnotationCardinality,
}

impl EdgeProperty {
    /// The tag byte that opens the key of this property.
    pub open spec fn spec_tag(self) -> u8 {
        match self {
            EdgeProperty::Order => 50,
            EdgeProperty::AnnotationDistinct => 51,
            EdgeProperty::AnnotationCardinality => 52,
        }
    }

    /// The property a tag byte stands for, if it stands for one.
    pub open spec fn spec_from_tag(tag: u8) -> Option<EdgeProperty> {
        if tag == 50 {
            Some(EdgeProperty::Order)
        } else if tag == 51 {
            Some(EdgeProperty::AnnotationDistinct)
        } else if tag == 52 {
            Some(EdgeProperty::AnnotationCardinality)
        } else {
            None
        }
    }

    pub fn tag(self) -> (t: u8)
        ensures
            t == self.spec_tag(),
    {
        match self {
            EdgeProperty::Order => 50,
            EdgeProperty::AnnotationDistinct => 51,
            EdgeProperty::AnnotationCardinality => 52,
        }
    }
}

/// The key under which `property` of the type `vertex` is stored.
pub open spec fn vertex_property_key(property: VertexProperty, vertex: TypeVertex) -> Seq<u8> {
    seq![
        property.spec_tag(),
        vertex.kind.spec_tag(),
        (vertex.id / 256) as u8,
        (vertex.id % 256) as u8,
    ]
}

/// The property and the type that a key spells, if it spells them.
pub open spec fn vertex_property_of_key(key: Seq<u8>) -> Option<(VertexProperty, TypeVertex)> {
    if key.len() == 4 {
        match (
            VertexProperty::spec_from_tag(key[0]),
            TypeVertex::spec_decode(key[1], key[2], key[3]),
        ) {
            (Some(property), Some(vertex)) => Some((property, vertex)),
            _ => None,
        }
    } else {
        None
    }
}

/// The key under which `property` of the relationship `edge` is stored.
pub open spec fn edge_property_key(property: EdgeProperty, edge: TypeEdge) -> Seq<u8> {
    seq![
        property.spec_tag(),
        edge.kind.spec_tag(),
        edge.from.kind.spec_tag(),
        (edge.from.id / 256) as u8,
        (edge.from.id % 256) as u8,
        edge.to.kind.spec_tag(),
        (edge.to.id / 256) as u8,
        (edge.to.id % 256) as u8,
    ]
}

/// The property and the relationship that a key spells, if it spells them.
pub open spec fn edge_property_of_key(key: Seq<u8>) -> Option<(EdgeProperty, TypeEdge)> {
    if key.len() == 8 {
        match (EdgeProperty::spec_from_tag(key[0]), edge_of_key(key.subrange(1, 8))) {
            (Some(property), Some(edge)) => Some((property, edge)),
            _ => None,
        }
    } else {
        None
    }
}

/// Decoding the key of a property of a type gives the property and the type back.
pub broadcast proof fn lemma_vertex_property_key_decodes(
    property: VertexProperty,
    vertex: TypeVertex,
)
    ensures
        #![trigger vertex_property_key(property, vertex)]
        vertex_property_key(property, vertex).len() == 4,
        vertex_property_key(property, vertex)[0] == property.spec_tag(),
        vertex_property_of_key(vertex_property_key(property, vertex)) == Some((property, vertex)),
{
    vertex.lemma_encode_decode();
}

/// Decoding the key of a property of a relationship gives the property and the relationship
/// back.
pub broadcast proof fn lemma_edge_property_key_decodes(property: EdgeProperty, edge: TypeEdge)
    ensures
        #![trigger edge_property_key(property, edge)]
        edge_property_key(property, edge).len() == 8,
        edge_property_key(property, edge)[0] == property.spec_tag(),
        edge_property_of_key(edge_property_key(property, edge)) == Some((property, edge)),
{
    lemma_edge_key_decodes(edge.kind, edge.from, edge.to);
    assert(edge_property_key(property, edge).subrange(1, 8) =~= edge_key(
        edge.kind,
        edge.from,
        edge.to,
    ));
}

fn vertex_property(property: VertexProperty, vertex: TypeVertex) -> (key: Vec<u8>)
    ensures
        key@ == vertex_property_key(property, vertex),
{
    let mut key: Vec<u8> = Vec::new();
    key.push(property.tag());
    vertex.write_to(&mut key);
    assert(key@ =~= vertex_property_key(property, vertex));
    key
}

fn edge_property(property: EdgeProperty, edge: TypeEdge) -> (key: Vec<u8>)
    ensures
        key@ == edge_property_key(property, edge),
{
    let mut key: Vec<u8> = Vec::new();
    key.push(property.tag());
    edge.write_to(&mut key);
    assert(key@ =~= edge_property_key(property, edge));
    key
}

pub fn build_property_type_label(vertex: TypeVertex) -> (key: Vec<u8>)
    ensures
        key@ == vertex_property_key(VertexProperty::Label, vertex),
{
    vertex_property(VertexProperty::Label, vertex)
}

pub fn build_property_type_value_type(vertex: TypeVertex) -> (key: Vec<u8>)
    ensures
        key@ == vertex_property_key(VertexProperty::ValueType, vertex),
{
    vertex_property(VertexProperty::ValueType, vertex)
}

pub fn build_property_type_ordering(vertex: TypeVertex) -> (key: Vec<u8>)
    ensures
        key@ == vertex_property_key(VertexProperty::Order, vertex),
{
    vertex_property(VertexProperty::Order, vertex)
}

pub fn build_property_type_annotation_abstract(vertex: TypeVertex) -> (key: Vec<u8>)
    ensures
        key@ == vertex_property_key(VertexProperty::AnnotationAbstract, vertex),
{
    vertex_property(VertexProperty::AnnotationAbstract, vertex)
}

pub fn build_property_type_annotation_independent(vertex: TypeVertex) -> (key: Vec<u8>)
    ensures
        key@ == vertex_property_key(VertexProperty::AnnotationIndependent, vertex),
{
    vertex_property(VertexProperty::AnnotationIndependent, vertex)
}

pub fn build_property_type_annotation_distinct(vertex: TypeVertex) -> (key: Vec<u8>)
    ensures
        key@ == vertex_property_key(VertexProperty::AnnotationDistinct, vertex),
{
    vertex_property(VertexProperty::AnnotationDistinct, vertex)
}

pub fn build_property_type_annotation_cardinality(vertex: TypeVertex) -> (key: Vec<u8>)
    ensures
        key@ == vertex_property_key(VertexProperty::AnnotationCardinality, vertex),
{
    vertex_property(VertexProperty::AnnotationCardinality, vertex)
}

pub fn build_property_type_edge_ordering(edge: TypeEdge) -> (key: Vec<u8>)
    ensures
        key@ == edge_property_key(EdgeProperty::Order, edge),
{
    edge_property(EdgeProperty::Order, edge)
}

pub fn build_property_type_edge_annotation_distinct(edge: TypeEdge) -> (key: Vec<u8>)
    ensures
        key@ == edge_property_key(EdgeProperty::AnnotationDistinct, edge),
{
    edge_property(EdgeProperty::AnnotationDistinct, edge)
}

pub fn build_property_type_edge_annotation_cardinality(edge: TypeEdge) -> (key: Vec<u8>)
    ensures
        key@ == edge_property_key(EdgeProperty::AnnotationCardinality, edge),
{
    edge_property(EdgeProperty::AnnotationCardinality, edge)
}

} // verus!
