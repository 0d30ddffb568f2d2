use crate::encoding::vertex::TypeVertex;
use vstd::prelude::*;

verus! {

/// The number of bytes in the key of an edge: a tag and two vertices.
pub const EDGE_LENGTH: usize = 7;

/// The structural relationships between two types, each in both directions.
#[derive(Clone, Copy, Debug, PartialEq, Eq, Structural, Hash)]
pub enum EdgeKind {
    Sub,
    SubReverse,
    Owns,
    OwnsReverse,
    Plays,
    PlaysReverse,
    Relates,
    RelatesReverse,
}

impl EdgeKind {
    /// The tag byte that opens the key of every edge of this kind.
    pub open spec fn spec_tag(self) -> u8 {
        match self {
            EdgeKind::Sub => 30,
            EdgeKind::SubReverse => 31,
            EdgeKind::Owns => 32,
            EdgeKind::OwnsReverse => 33,
            EdgeKind::Plays => 34,
            EdgeKind::PlaysReverse => 35,
            EdgeKind::Relates => 36,
            EdgeKind::RelatesReverse => 37,
        }
    }

    /// The edge kind a tag byte stands for, if it stands for one.
    pub open spec fn spec_from_tag(tag: u8) -> Option<EdgeKind> {
        if tag == 30 {
            Some(EdgeKind::Sub)
        } else if tag == 31 {
            Some(EdgeKind::SubReverse)
        } else if tag == 32 {
            Some(EdgeKind::Owns)
        } else if tag == 33 {
            Some(EdgeKind::OwnsReverse)
        } else if tag == 34 {
            Some(EdgeKind::Plays)
        } else if tag == 35 {
            Some(EdgeKind::PlaysReverse)
        } else if tag == 36 {
            Some(EdgeKind::Relates)
        } else if tag == 37 {
            Some(EdgeKind::RelatesReverse)
        } else {
            None
        }
    }

    /// The kind of the same relationship seen from its other end.
    pub open spec fn spec_reverse(self) -> EdgeKind {
        match self {
            EdgeKind::Sub => EdgeKind::SubReverse,
            EdgeKind::SubReverse => EdgeKind::Sub,
            EdgeKind::Owns => EdgeKind::OwnsReverse,
            EdgeKind::OwnsReverse => EdgeKind::Owns,
            EdgeKind::Plays => EdgeKind::PlaysReverse,
            EdgeKind::PlaysReverse => EdgeKind::Plays,
            EdgeKind::Relates => EdgeKind::RelatesReverse,
            EdgeKind::RelatesReverse => EdgeKind::Relates,
        }
    }

    pub fn tag(self) -> (t: u8)
        ensures
            t == self.spec_tag(),
    {
        match self {
            EdgeKind::Sub => 30,
            EdgeKind::SubReverse => 31,
            EdgeKind::Owns => 32,
            EdgeKind::OwnsReverse => 33,
            EdgeKind::Plays => 34,
            EdgeKind::PlaysReverse => 35,
            EdgeKind::Relates => 36,
            EdgeKind::RelatesReverse => 37,
        }
    }

    pub fn from_tag(tag: u8) -> (kind: Option<EdgeKind>)
        ensures
            kind == EdgeKind::spec_from_tag(tag),
    {
        if tag == 30 {
            Some(EdgeKind::Sub)
        } else if tag == 31 {
            Some(EdgeKind::SubReverse)
        } else if tag == 32 {
            Some(EdgeKind::Owns)
        } else if tag == 33 {
            Some(EdgeKind::OwnsReverse)
        } else if tag == 34 {
            Some(EdgeKind::Plays)
        } else if tag == 35 {
            Some(EdgeKind::PlaysReverse)
        } else if tag == 36 {
            Some(EdgeKind::Relates)
        } else if tag == 37 {
            Some(EdgeKind::RelatesReverse)
        } else {
            None
        }
    }

    pub fn reverse(self) -> (kind: EdgeKind)
        ensures
            kind == self.spec_reverse(),
    {
        match self {
            EdgeKind::Sub => EdgeKind::SubReverse,
            EdgeKind::SubReverse => EdgeKind::Sub,
            EdgeKind::Owns => EdgeKind::OwnsReverse,
            EdgeKind::OwnsReverse => EdgeKind::Owns,
            EdgeKind::Plays => EdgeKind::PlaysReverse,
            EdgeKind::PlaysReverse => EdgeKind::Plays,
            EdgeKind::Relates => EdgeKind::RelatesReverse,
            EdgeKind::RelatesReverse => EdgeKind::Relates,
        }
    }
}

/// A directed relationship between two types.
#[derive(Clone, Copy, Debug, PartialEq, Eq, Structural, Hash)]
pub struct TypeEdge {
    pub kind: EdgeKind,
    pub from: TypeVertex,
    pub to: TypeVertex,
}

/// The key of the edge of `kind` that leads from `from` to `to`.
pub open spec fn edge_key(kind: EdgeKind, from: TypeVertex, to: TypeVertex) -> Seq<u8> {
    seq![
        kind.spec_tag(),
        from.kind.spec_tag(),
        (from.id / 256) as u8,
        (from.id % 256) as u8,
        to.kind.spec_tag(),
        (to.id / 256) as u8,
        (to.id % 256) as u8,
    ]
}

/// What all keys of the edges of `kind` that leave `from` begin with.
pub open spec fn edge_prefix(kind: EdgeKind, from: TypeVertex) -> Seq<u8> {
    seq![kind.spec_tag(), from.kind.spec_tag(), (from.id / 256) as u8, (from.id % 256) as u8]
}

/// The edge that a key spells, if it spells one.
pub open spec fn edge_of_key(key: Seq<u8>) -> Option<TypeEdge> {
    if key.len() == 7 {
        match (
            EdgeKind::spec_from_tag(key[0]),
            TypeVertex::spec_decode(key[1], key[2], key[3]),
            TypeVertex::spec_decode(key[4], key[5], key[6]),
        ) {
            (Some(kind), Some(from), Some(to)) => Some(TypeEdge { kind, from, to }),
            _ => None,
        }
    } else {
        None
    }
}

/// Decoding the key of an edge gives the edge back.
pub broadcast proof fn lemma_edge_key_decodes(kind: EdgeKind, from: TypeVertex, to: TypeVertex)
    ensures
        #![trigger edge_key(kind, from, to)]
        edge_key(kind, from, to).len() == 7,
        edge_key(kind, from, to)[0] == kind.spec_tag(),
        edge_of_key(edge_key(kind, from, to)) == Some(TypeEdge { kind, from, to }),
        edge_prefix(kind, from).is_prefix_of(edge_key(kind, from, to)),
{
    from.lemma_encode_decode();
    to.lemma_encode_decode();
    assert(edge_prefix(kind, from) =~= edge_key(kind, from, to).subrange(0, 4));
}

/// A key that decodes to an edge is the key of that edge.
pub proof fn lemma_edge_of_key_encodes(key: Seq<u8>)
    ensures
        edge_of_key(key) matches Some(edge) ==> key == edge_key(edge.kind, edge.from, edge.to),
{
    if let Some(edge) = edge_of_key(key) {
        TypeVertex::lemma_decode_encode(key[1], key[2], key[3]);
        TypeVertex::lemma_decode_encode(key[4], key[5], key[6]);
        let from = edge.from.spec_bytes();
        let to = edge.to.spec_bytes();
        assert(from[0] == key[1] && from[1] == key[2] && from[2] == key[3]);
        assert(to[0] == key[4] && to[1] == key[5] && to[2] == key[6]);
        assert(key =~= edge_key(edge.kind, edge.from, edge.to));
    }
}

impl TypeEdge {
    /// The key under which the edge is stored.
    pub open spec fn spec_bytes(self) -> Seq<u8> {
        edge_key(self.kind, self.from, self.to)
    }

    /// The same relationship seen from its other end.
    pub open spec fn spec_reversed(self) -> TypeEdge {
        TypeEdge { kind: self.kind.spec_reverse(), from: self.to, to: self.from }
    }

    pub fn new(kind: EdgeKind, from: TypeVertex, to: TypeVertex) -> (edge: TypeEdge)
        ensures
            edge == (TypeEdge { kind, from, to }),
    {
        TypeEdge { kind, from, to }
    }

    pub fn kind(&self) -> (kind: EdgeKind)
        ensures
            kind == self.kind,
    {
        self.kind
    }

    pub fn from(&self) -> (from: TypeVertex)
        ensures
            from == self.from,
    {
        self.from
    }

    pub fn to(&self) -> (to: TypeVertex)
        ensures
            to == self.to,
    {
        self.to
    }

    pub fn reversed(&self) -> (edge: TypeEdge)
        ensures
            edge == self.spec_reversed(),
    {
        TypeEdge { kind: self.kind.reverse(), from: self.to, to: self.from }
    }

    /// Appends the key of the edge to `out`.
    pub fn write_to(&self, out: &mut Vec<u8>)
        ensures
            final(out)@ == old(out)@ + self.spec_bytes(),
    {
        out.push(self.kind.tag());
        self.from.write_to(out);
        self.to.write_to(out);
        assert(out@ =~= old(out)@ + self.spec_bytes());
    }

    /// The key under which the edge is stored.
    pub fn bytes(&self) -> (bytes: Vec<u8>)
        ensures
            bytes@ == self.spec_bytes(),
    {
        let mut bytes: Vec<u8> = Vec::new();
        self.write_to(&mut bytes);
        assert(bytes@ =~= self.spec_bytes());
        bytes
    }

    /// What the keys of all edges of this kind that leave `from` begin with.
    pub fn prefix(kind: EdgeKind, from: TypeVertex) -> (bytes: Vec<u8>)
        ensures
            bytes@ == edge_prefix(kind, from),
    {
        let mut bytes: Vec<u8> = Vec::new();
        bytes.push(kind.tag());
        from.write_to(&mut bytes);
        assert(bytes@ =~= edge_prefix(kind, from));
        bytes
    }

    /// Reads the edge whose key stands at `offset` in `bytes`.
    pub fn decode_at(bytes: &[u8], offset: usize) -> (edge: Option<TypeEdge>)
        requires
            offset + 7 <= bytes@.len(),
        ensures
            edge == edge_of_key(bytes@.subrange(offset as int, offset + 7)),
    {
        let kind = EdgeKind::from_tag(bytes[offset]);
        let from = TypeVertex::decode_at(bytes, offset + 1);
        let to = TypeVertex::decode_at(bytes, offset + 4);
        match (kind, from, to) {
            (Some(kind), Some(from), Some(to)) => Some(TypeEdge { kind, from, to }),
            _ => None,
        }
    }

    /// Reads an edge from a whole key.
    pub fn from_bytes(bytes: &[u8]) -> (edge: Option<TypeEdge>)
        ensures
            edge == edge_of_key(bytes@),
    {
        if bytes.len() == 7 {
            assert(bytes@.subrange(0, 7) =~= bytes@);
            Self::decode_at(bytes, 0)
        } else {
            None
        }
    }
}

pub fn build_edge_sub(subtype: TypeVertex, supertype: TypeVertex) -> (edge: TypeEdge)
    ensures
        edge == (TypeEdge { kind: EdgeKind::Sub, from: subtype, to: supertype }),
{
    TypeEdge::new(EdgeKind::Sub, subtype, supertype)
}

pub fn build_edge_sub_reverse(supertype: TypeVertex, subtype: TypeVertex) -> (edge: TypeEdge)
    ensures
        edge == (TypeEdge { kind: EdgeKind::SubReverse, from: supertype, to: subtype }),
{
    TypeEdge::new(EdgeKind::SubReverse, supertype, subtype)
}

pub fn build_edge_owns(owner: TypeVertex, attribute: TypeVertex) -> (edge: TypeEdge)
    ensures
        edge == (TypeEdge { kind: EdgeKind::Owns, from: owner, to: attribute }),
{
    TypeEdge::new(EdgeKind::Owns, owner, attribute)
}

pub fn build_edge_owns_reverse(attribute: TypeVertex, owner: TypeVertex) -> (edge: TypeEdge)
    ensures
        edge == (TypeEdge { kind: EdgeKind::OwnsReverse, from: attribute, to: owner }),
{
    TypeEdge::new(EdgeKind::OwnsReverse, attribute, owner)
}

pub fn build_edge_plays(player: TypeVertex, role: TypeVertex) -> (edge: TypeEdge)
    ensures
        edge == (TypeEdge { kind: EdgeKind::Plays, from: player, to: role }),
{
    TypeEdge::new(EdgeKind::Plays, player, role)
}

pub fn build_edge_plays_reverse(role: TypeVertex, player: TypeVertex) -> (edge: TypeEdge)
    ensures
        edge == (TypeEdge { kind: EdgeKind::PlaysReverse, from: role, to: player }),
{
    TypeEdge::new(EdgeKind::PlaysReverse, role, player)
}

pub fn build_edge_relates(relation: TypeVertex, role: TypeVertex) -> (edge: TypeEdge)
    ensures
        edge == (TypeEdge { kind: EdgeKind::Relates, from: relation, to: role }),
{
    TypeEdge::new(EdgeKind::Relates, relation, role)
}

pub fn build_edge_relates_reverse(role: TypeVertex, relation: TypeVertex) -> (edge: TypeEdge)
    ensures
        edge == (TypeEdge { kind: EdgeKind::RelatesReverse, from: role, to: relation }),
{
    TypeEdge::new(EdgeKind::RelatesReverse, role, relation)
}

} // verus!
