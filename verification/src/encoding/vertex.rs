use crate::encoding::kind::Kind;
use vstd::prelude::*;

verus! {

/// The number of bytes in the key of a vertex: the kind tag and a two-byte identifier.
pub const VERTEX_LENGTH: usize = 3;

/// The canonical identity of a type: its kind and its number within the kind. Vertices are
/// ordered as their keys are: by kind, then by number.
#[derive(Clone, Copy, Debug, PartialEq, Eq, Structural, PartialOrd, Ord, Hash)]
pub struct TypeVertex {
    pub kind: Kind,
    pub id: u16,
}

impl TypeVertex {
    /// The key of the vertex: the kind tag, then the identifier, most significant byte first.
    pub open spec fn spec_bytes(self) -> Seq<u8> {
        seq![self.kind.spec_tag(), (self.id / 256) as u8, (self.id % 256) as u8]
    }

    /// The vertex that three bytes spell, if they spell one.
    pub open spec fn spec_decode(b0: u8, b1: u8, b2: u8) -> Option<TypeVertex> {
        match Kind::spec_from_tag(b0) {
            Some(kind) => Some(TypeVertex { kind, id: (b1 * 256 + b2) as u16 }),
            None => None,
        }
    }

    /// The vertex that a whole key spells, if it spells one.
    pub open spec fn spec_from_bytes(bytes: Seq<u8>) -> Option<TypeVertex> {
        if bytes.len() == 3 {
            Self::spec_decode(bytes[0], bytes[1], bytes[2])
        } else {
            None
        }
    }

    /// The vertex as one number: the kind tag above the identifier.
    pub open spec fn spec_code(self) -> u32 {
        (self.kind.spec_tag() * 65536 + self.id) as u32
    }

    /// The vertex as one number: the kind tag above the identifier.
    pub fn code(&self) -> (code: u32)
        ensures
            code == self.spec_code(),
    {
        let tag: u32 = self.kind.tag() as u32;
        let id: u32 = self.id as u32;
        tag * 65536 + id
    }

    /// Different vertices are different numbers.
    pub proof fn lemma_code_is_injective(self, other: TypeVertex)
        requires
            self.spec_code() == other.spec_code(),
        ensures
            self == other,
    {
        self.kind.lemma_tag_round_trip();
        other.kind.lemma_tag_round_trip();
        assert(self.kind.spec_tag() == other.kind.spec_tag());
    }

    pub fn new(kind: Kind, id: u16) -> (vertex: TypeVertex)
        ensures
            vertex == (TypeVertex { kind, id }),
    {
        TypeVertex { kind, id }
    }

    pub fn kind(&self) -> (kind: Kind)
        ensures
            kind == self.kind,
    {
        self.kind
    }

    pub fn id(&self) -> (id: u16)
        ensures
            id == self.id,
    {
        self.id
    }

    /// The key under which the vertex is stored.
    pub fn bytes(&self) -> (bytes: Vec<u8>)
        ensures
            bytes@ == self.spec_bytes(),
    {
        let mut bytes: Vec<u8> = Vec::new();
        bytes.push(self.kind.tag());
        bytes.push((self.id / 256) as u8);
        bytes.push((self.id % 256) as u8);
        assert(bytes@ =~= self.spec_bytes());
        bytes
    }

    /// Appends the key of the vertex to `out`.
    pub fn write_to(&self, out: &mut Vec<u8>)
        ensures
            final(out)@ == old(out)@ + self.spec_bytes(),
    {
        out.push(self.kind.tag());
        out.push((self.id / 256) as u8);
        out.push((self.id % 256) as u8);
        assert(out@ =~= old(out)@ + self.spec_bytes());
    }

    /// Reads the vertex whose key stands at `offset` in `bytes`.
    pub fn decode_at(bytes: &[u8], offset: usize) -> (vertex: Option<TypeVertex>)
        requires
            offset + 3 <= bytes@.len(),
        ensures
            vertex == Self::spec_decode(
                bytes@[offset as int],
                bytes@[offset + 1],
                bytes@[offset + 2],
            ),
    {
        match Kind::from_tag(bytes[offset]) {
            Some(kind) => {
                let hi: u16 = bytes[offset + 1] as u16;
                let lo: u16 = bytes[offset + 2] as u16;
                Some(TypeVertex { kind, id: hi * 256 + lo })
            },
            None => None,
        }
    }

    /// Reads a vertex from a whole key: three bytes that open with a kind tag.
    pub fn from_bytes(bytes: &[u8]) -> (vertex: Option<TypeVertex>)
        ensures
            vertex == Self::spec_from_bytes(bytes@),
    {
        if bytes.len() == 3 {
            Self::decode_at(bytes, 0)
        } else {
            None
        }
    }

    /// Decoding the key of a vertex gives the vertex back.
    pub broadcast proof fn lemma_encode_decode(self)
        ensures
            #![trigger self.spec_bytes()]
            self.spec_bytes().len() == 3,
            Self::spec_from_bytes(self.spec_bytes()) == Some(self),
            Self::spec_decode(self.spec_bytes()[0], self.spec_bytes()[1], self.spec_bytes()[2])
                == Some(self),
    {
        self.kind.lemma_tag_round_trip();
    }

    /// Three bytes that decode to a vertex are the key of that vertex.
    pub proof fn lemma_decode_encode(b0: u8, b1: u8, b2: u8)
        ensures
            Self::spec_decode(b0, b1, b2) matches Some(vertex) ==> vertex.spec_bytes() == seq![
                b0,
                b1,
                b2,
            ],
    {
        Kind::lemma_from_tag_round_trip(b0);
        if let Some(vertex) = Self::spec_decode(b0, b1, b2) {
            assert(vertex.spec_bytes() =~= seq![b0, b1, b2]);
        }
    }
}

} // verus!
