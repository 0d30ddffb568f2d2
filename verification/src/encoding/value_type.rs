use vstd::prelude::*;

verus! {

pub type ValueTypeIDUInt = u16;

pub type StructFieldNumber = u16;

/// The two-byte identifier of a value type.
#[derive(Clone, Copy, Debug, PartialEq, Eq, Structural, Hash)]
pub struct ValueTypeID {
    pub id: ValueTypeIDUInt,
}

/// The two bytes of a sixteen-bit number, most significant first.
pub open spec fn be_bytes(id: u16) -> Seq<u8> {
    seq![(id / 256) as u8, (id % 256) as u8]
}

/// The number that two bytes spell, most significant first.
pub open spec fn be_value(b0: u8, b1: u8) -> u16 {
    (b0 * 256 + b1) as u16
}

impl ValueTypeID {
    /// The number of bytes in an identifier.
    pub const LENGTH: usize = 2;

    /// The bytes of the identifier, most significant first.
    pub open spec fn spec_bytes(self) -> Seq<u8> {
        be_bytes(self.id)
    }

    /// The identifier that `bytes` spell.
    pub fn new(bytes: [u8; 2]) -> (id: Self)
        ensures
            id.id == be_value(bytes@[0], bytes@[1]),
            id.spec_bytes() == bytes@,
    {
        let hi: u16 = bytes[0] as u16;
        let lo: u16 = bytes[1] as u16;
        let id = ValueTypeID { id: hi * 256 + lo };
        assert(id.spec_bytes() =~= bytes@);
        id
    }

    /// The identifier with the number `id`.
    pub fn build(id: ValueTypeIDUInt) -> (built: Self)
        ensures
            built.id == id,
    {
        ValueTypeID { id }
    }

    /// The bytes of the identifier, most significant first.
    pub fn bytes(&self) -> (bytes: [u8; 2])
        ensures
            bytes@ == self.spec_bytes(),
    {
        let bytes: [u8; 2] = [(self.id / 256) as u8, (self.id % 256) as u8];
        assert(bytes@ =~= self.spec_bytes());
        bytes
    }

    /// The bytes of the identifier as they are stored.
    pub fn bytes_vec(&self) -> (bytes: Vec<u8>)
        ensures
            bytes@ == self.spec_bytes(),
    {
        let mut bytes: Vec<u8> = Vec::new();
        bytes.push((self.id / 256) as u8);
        bytes.push((self.id % 256) as u8);
        assert(bytes@ =~= self.spec_bytes());
        bytes
    }

    /// The identifier that stored bytes spell, if there are two of them.
    pub fn from_bytes(bytes: &[u8]) -> (id: Option<Self>)
        ensures
            id == value_type_id_of_bytes(bytes@),
    {
        if bytes.len() == 2 {
            let hi: u16 = bytes[0] as u16;
            let lo: u16 = bytes[1] as u16;
            Some(ValueTypeID { id: hi * 256 + lo })
        } else {
            None
        }
    }
}

/// The identifier that stored bytes spell, if there are two of them.
pub open spec fn value_type_id_of_bytes(bytes: Seq<u8>) -> Option<ValueTypeID> {
    if bytes.len() == 2 {
        Some(ValueTypeID { id: be_value(bytes[0], bytes[1]) })
    } else {
        None
    }
}

/// Decoding the bytes of an identifier gives the identifier back.
pub broadcast proof fn lemma_value_type_id_round_trip(id: ValueTypeID)
    ensures
        #[trigger] value_type_id_of_bytes(id.spec_bytes()) == Some(id),
{
}

/// The kinds of values an attribute can hold.
#[derive(Debug, Eq, PartialEq)]
pub enum ValueType {
    Boolean,
    Long,
    Double,
    DateTime,
    String,
    Struct { id: ValueTypeID, definition: StructDefinition },
}

/// The identifier of the value type.
pub open spec fn value_type_id(value_type: ValueType) -> ValueTypeID {
    match value_type {
        ValueType::Boolean => ValueTypeID { id: 0 },
        ValueType::Long => ValueTypeID { id: 1 },
        ValueType::Double => ValueTypeID { id: 2 },
        ValueType::String => ValueTypeID { id: 3 },
        ValueType::DateTime => ValueTypeID { id: 4 },
        ValueType::Struct { id, definition } => id,
    }
}

/// The bytes that are stored for the value type: those of its identifier.
pub open spec fn value_type_bytes(value_type: ValueType) -> Seq<u8> {
    value_type_id(value_type).spec_bytes()
}

/// The built-in value type with the identifier, if there is one.
pub open spec fn value_type_of_id(id: ValueTypeID) -> Option<ValueType> {
    if id.id == 0 {
        Some(ValueType::Boolean)
    } else if id.id == 1 {
        Some(ValueType::Long)
    } else if id.id == 2 {
        Some(ValueType::Double)
    } else if id.id == 3 {
        Some(ValueType::String)
    } else if id.id == 4 {
        Some(ValueType::DateTime)
    } else {
        None
    }
}

impl ValueType {
    pub fn value_type_id(&self) -> (id: ValueTypeID)
        ensures
            id == value_type_id(*self),
    {
        match self {
            ValueType::Boolean => ValueTypeID::build(0),
            ValueType::Long => ValueTypeID::build(1),
            ValueType::Double => ValueTypeID::build(2),
            ValueType::String => ValueTypeID::build(3),
            ValueType::DateTime => ValueTypeID::build(4),
            ValueType::Struct { id, .. } => *id,
        }
    }

    /// The built-in value type with the identifier. The identifier of a struct does not say
    /// how the struct is defined, so it gives no value type.
    pub fn from_value_type_id(value_type_id: ValueTypeID) -> (value_type: Option<ValueType>)
        ensures
            value_type == value_type_of_id(value_type_id),
    {
        if value_type_id.id == 0 {
            Some(ValueType::Boolean)
        } else if value_type_id.id == 1 {
            Some(ValueType::Long)
        } else if value_type_id.id == 2 {
            Some(ValueType::Double)
        } else if value_type_id.id == 3 {
            Some(ValueType::String)
        } else if value_type_id.id == 4 {
            Some(ValueType::DateTime)
        } else {
            None
        }
    }
}

impl Clone for ValueType {
    fn clone(&self) -> (copy: Self)
        ensures
            value_type_id(copy) == value_type_id(*self),
            copy is Struct <==> *self is Struct,
        decreases *self,
    {
        match self {
            ValueType::Boolean => ValueType::Boolean,
            ValueType::Long => ValueType::Long,
            ValueType::Double => ValueType::Double,
            ValueType::DateTime => ValueType::DateTime,
            ValueType::String => ValueType::String,
            ValueType::Struct { id, definition } => ValueType::Struct {
                id: *id,
                definition: definition.clone(),
            },
        }
    }
}

impl Clone for StructDefinition {
    fn clone(&self) -> (copy: Self)
        ensures
            copy.name@ == self.name@,
            copy.fields@.len() == self.fields@.len(),
            copy.field_names@.len() == self.field_names@.len(),
        decreases *self,
    {
        let mut fields: Vec<StructFieldDefinition> = Vec::new();
        let mut i: usize = 0;
        while i < self.fields.len()
            invariant
                0 <= i <= self.fields@.len(),
                fields@.len() == i,
            decreases self.fields@.len() - i,
        {
            fields.push(self.fields[i].clone());
            i += 1;
        }
        let mut field_names: Vec<String> = Vec::new();
        let mut j: usize = 0;
        while j < self.field_names.len()
            invariant
                0 <= j <= self.field_names@.len(),
                field_names@.len() == j,
            decreases self.field_names@.len() - j,
        {
            field_names.push(self.field_names[j].clone());
            j += 1;
        }
        StructDefinition { name: self.name.clone(), fields, field_names }
    }
}

impl Clone for StructFieldDefinition {
    fn clone(&self) -> (copy: Self)
        ensures
            copy.optional == self.optional,
        decreases *self,
    {
        StructFieldDefinition { optional: self.optional, value_type: self.value_type.clone() }
    }
}

/// A built-in value type is found again by its identifier.
pub proof fn lemma_value_type_round_trip(value_type: ValueType)
    requires
        !(value_type is Struct),
    ensures
        value_type_of_id(value_type_id(value_type)) == Some(value_type),
{
}

/// The definition of a struct: its name and its fields. The number of a field is its
/// position, and the name of the field stands at the same position in `field_names`.
#[derive(Debug, Eq, PartialEq)]
pub struct StructDefinition {
    pub name: String,
    pub fields: Vec<StructFieldDefinition>,
    pub field_names: Vec<String>,
}

/// One field of a struct.
#[derive(Debug, Eq, PartialEq)]
pub struct StructFieldDefinition {
    pub optional: bool,
    pub value_type: ValueType,
}

} // verus!
