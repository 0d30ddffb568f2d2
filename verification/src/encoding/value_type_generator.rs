use crate::encoding::value_type::{ValueTypeID, ValueTypeIDUInt};
use crate::error::EncodingError;
use vstd::prelude::*;

verus! {

/// Hands out the identifiers of user-defined value types, in rising order.
pub struct ValueTypeGenerator {
    next_value_type: ValueTypeIDUInt,
}

impl Default for ValueTypeGenerator {
    fn default() -> (generator: Self)
        ensures
            generator.next() == 0,
    {
        Self::new()
    }
}

impl ValueTypeGenerator {
    /// The identifier that is handed out next.
    pub closed spec fn next(&self) -> ValueTypeIDUInt {
        self.next_value_type
    }

    pub fn new() -> (generator: ValueTypeGenerator)
        ensures
            generator.next() == 0,
    {
        ValueTypeGenerator { next_value_type: 0 }
    }

    /// Hands out the next identifier. The last number is kept back, so that the generator
    /// can tell that it has run out.
    pub fn create_value_type(&mut self) -> (id: Result<ValueTypeID, EncodingError>)
        ensures
            match id {
                Ok(id) => {
                    &&& id.id == old(self).next()
                    &&& old(self).next() < u16::MAX
                    &&& final(self).next() == old(self).next() + 1
                },
                Err(error) => error == EncodingError::ValueTypeIdsExhausted && old(self).next()
                    == u16::MAX && final(self).next() == old(self).next(),
            },
    {
        if self.next_value_type == u16::MAX {
            Err(EncodingError::ValueTypeIdsExhausted)
        } else {
            let id = ValueTypeID::build(self.next_value_type);
            self.next_value_type = self.next_value_type + 1;
            Ok(id)
        }
    }
}

} // verus!
