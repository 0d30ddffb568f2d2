use vstd::bytes::{
    lemma_auto_spec_u64_to_from_le_bytes, spec_u64_from_le_bytes, spec_u64_to_le_bytes,
    u64_from_le_bytes, u64_to_le_bytes,
};
use vstd::prelude::*;
use vstd::slice::slice_subrange;

verus! {

/// The type cannot be instantiated directly.
#[derive(Clone, Copy, Debug, PartialEq, Eq, Structural, Hash)]
pub struct AnnotationAbstract {}

impl AnnotationAbstract {
    pub fn new() -> (annotation: Self)
        ensures
            annotation == (AnnotationAbstract {  }),
    {
        AnnotationAbstract {  }
    }
}

/// No value may occur twice.
#[derive(Clone, Copy, Debug, PartialEq, Eq, Structural, Hash)]
pub struct AnnotationDistinct {}

impl AnnotationDistinct {
    pub fn new() -> (annotation: Self)
        ensures
            annotation == (AnnotationDistinct {  }),
    {
        AnnotationDistinct {  }
    }
}

/// Values of the attribute type may exist without an owner.
#[derive(Clone, Copy, Debug, PartialEq, Eq, Structural, Hash)]
pub struct AnnotationIndependent {}

impl AnnotationIndependent {
    pub fn new() -> (annotation: Self)
        ensures
            annotation == (AnnotationIndependent {  }),
    {
        AnnotationIndependent {  }
    }
}

/// A bound on a multiplicity: at least `start_inclusive`, and at most `end_inclusive` where
/// there is an upper bound.
#[derive(Clone, Copy, Debug, PartialEq, Eq, Structural, Hash)]
pub struct AnnotationCardinality {
    pub start_inclusive: u64,
    pub end_inclusive: Option<u64>,
}

impl AnnotationCardinality {
    /// Whether `count` lies within the bound.
    pub open spec fn spec_is_valid(self, count: u64) -> bool {
        self.start_inclusive <= count && match self.end_inclusive {
            Some(end) => count <= end,
            None => true,
        }
    }

    pub fn new(start_inclusive: u64, end_inclusive: Option<u64>) -> (annotation: Self)
        ensures
            annotation == (AnnotationCardinality { start_inclusive, end_inclusive }),
    {
        AnnotationCardinality { start_inclusive, end_inclusive }
    }

    pub fn is_valid(&self, count: u64) -> (valid: bool)
        ensures
            valid == self.spec_is_valid(count),
    {
        self.start_inclusive <= count && match self.end_inclusive {
            Some(end) => count <= end,
            None => true,
        }
    }

    pub fn start(&self) -> (start: u64)
        ensures
            start == self.start_inclusive,
    {
        self.start_inclusive
    }

    pub fn end(&self) -> (end: Option<u64>)
        ensures
            end == self.end_inclusive,
    {
        self.end_inclusive
    }
}

/// A constraint attached to a type or to a relationship between two types.
#[derive(Clone, Copy, Debug, PartialEq, Eq, Structural, Hash)]
pub enum Annotation {
    Abstract(AnnotationAbstract),
    Distinct(AnnotationDistinct),
    Independent(AnnotationIndependent),
    Cardinality(AnnotationCardinality),
}

/// Whether `sought` is among `annotations`.
pub fn holds_annotation(annotations: &Vec<Annotation>, sought: Annotation) -> (held: bool)
    ensures
        held == annotations@.contains(sought),
{
    let mut i: usize = 0;
    while i < annotations.len()
        invariant
            0 <= i <= annotations@.len(),
            forall|t: int| 0 <= t < i ==> annotations@[t] != sought,
        decreases annotations@.len() - i,
    {
        if annotations[i] == sought {
            return true;
        }
        i += 1;
    }
    false
}

/// Whether an attribute or a role holds a plain set of values or a list of them.
#[derive(Clone, Copy, Debug, PartialEq, Eq, Structural, Hash)]
pub enum OrderMode {
    Unordered,
    Ordered,
}

/// The byte that is stored for an order mode.
pub open spec fn order_mode_bytes(mode: OrderMode) -> Seq<u8> {
    match mode {
        OrderMode::Unordered => seq![0u8],
        OrderMode::Ordered => seq![1u8],
    }
}

/// The order mode that stored bytes spell, if they spell one.
pub open spec fn order_mode_of_bytes(bytes: Seq<u8>) -> Option<OrderMode> {
    if bytes.len() == 1 && bytes[0] == 0 {
        Some(OrderMode::Unordered)
    } else if bytes.len() == 1 && bytes[0] == 1 {
        Some(OrderMode::Ordered)
    } else {
        None
    }
}

/// The bytes that are stored for a cardinality: the lower bound in eight bytes, least
/// significant first, then the upper bound in the same way where there is one.
pub open spec fn cardinality_bytes(annotation: AnnotationCardinality) -> Seq<u8> {
    match annotation.end_inclusive {
        Some(end) => spec_u64_to_le_bytes(annotation.start_inclusive) + spec_u64_to_le_bytes(end),
        None => spec_u64_to_le_bytes(annotation.start_inclusive),
    }
}

/// The cardinality that stored bytes spell, if they spell one.
pub open spec fn cardinality_of_bytes(bytes: Seq<u8>) -> Option<AnnotationCardinality> {
    if bytes.len() == 8 {
        Some(
            AnnotationCardinality {
                start_inclusive: spec_u64_from_le_bytes(bytes),
                end_inclusive: None,
            },
        )
    } else if bytes.len() == 16 {
        Some(
            AnnotationCardinality {
                start_inclusive: spec_u64_from_le_bytes(bytes.subrange(0, 8)),
                end_inclusive: Some(spec_u64_from_le_bytes(bytes.subrange(8, 16))),
            },
        )
    } else {
        None
    }
}

/// Decoding the bytes of an order mode gives the order mode back.
pub broadcast proof fn lemma_order_mode_round_trip(mode: OrderMode)
    ensures
        #[trigger] order_mode_of_bytes(order_mode_bytes(mode)) == Some(mode),
{
}

/// Decoding the bytes of a cardinality gives the cardinality back.
pub broadcast proof fn lemma_cardinality_round_trip(annotation: AnnotationCardinality)
    ensures
        #[trigger] cardinality_of_bytes(cardinality_bytes(annotation)) == Some(annotation),
{
    lemma_auto_spec_u64_to_from_le_bytes();
    let start = spec_u64_to_le_bytes(annotation.start_inclusive);
    match annotation.end_inclusive {
        Some(end) => {
            let bytes = cardinality_bytes(annotation);
            assert(bytes.subrange(0, 8) =~= start);
            assert(bytes.subrange(8, 16) =~= spec_u64_to_le_bytes(end));
        },
        None => {},
    }
}

pub fn serialise_ordering(mode: OrderMode) -> (bytes: Vec<u8>)
    ensures
        bytes@ == order_mode_bytes(mode),
{
    let mut bytes: Vec<u8> = Vec::new();
    match mode {
        OrderMode::Unordered => bytes.push(0),
        OrderMode::Ordered => bytes.push(1),
    }
    assert(bytes@ =~= order_mode_bytes(mode));
    bytes
}

pub fn deserialise_ordering(bytes: &[u8]) -> (mode: Option<OrderMode>)
    ensures
        mode == order_mode_of_bytes(bytes@),
{
    if bytes.len() == 1 && bytes[0] == 0 {
        Some(OrderMode::Unordered)
    } else if bytes.len() == 1 && bytes[0] == 1 {
        Some(OrderMode::Ordered)
    } else {
        None
    }
}

pub fn serialise_annotation_cardinality(annotation: AnnotationCardinality) -> (bytes: Vec<u8>)
    ensures
        bytes@ == cardinality_bytes(annotation),
{
    let mut bytes = u64_to_le_bytes(annotation.start_inclusive);
    match annotation.end_inclusive {
        Some(end) => {
            let mut upper = u64_to_le_bytes(end);
            bytes.append(&mut upper);
        },
        None => {},
    }
    bytes
}

pub fn deserialise_annotation_cardinality(bytes: &[u8]) -> (annotation: Option<
    AnnotationCardinality,
>)
    ensures
        annotation == cardinality_of_bytes(bytes@),
{
    if bytes.len() == 8 {
        let start = u64_from_le_bytes(bytes);
        Some(AnnotationCardinality { start_inclusive: start, end_inclusive: None })
    } else if bytes.len() == 16 {
        let start = u64_from_le_bytes(slice_subrange(bytes, 0, 8));
        let end = u64_from_le_bytes(slice_subrange(bytes, 8, 16));
        Some(AnnotationCardinality { start_inclusive: start, end_inclusive: Some(end) })
    } else {
        None
    }
}

} // verus!
