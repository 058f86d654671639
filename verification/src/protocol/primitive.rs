//! The primitive integer types that a protocol can name.
use vstd::prelude::*;

use crate::protocol::text::str_eq;
use crate::protocol::types::TypeHandle;

verus! {

/// A primitive integer type of a protocol.
#[derive(Debug, Clone, Copy, PartialEq, Eq, Structural)]
pub enum PrimitiveType {
    U8,
    U16,
    U32,
    U64,
    U128,
    I8,
    I16,
    I32,
    I64,
    I128,
}

/// The primitive type that a protocol document names by `name`, if any.
pub open spec fn primitive_named(name: Seq<char>) -> Option<PrimitiveType> {
    if name == "u8"@ {
        Some(PrimitiveType::U8)
    } else if name == "u16"@ {
        Some(PrimitiveType::U16)
    } else if name == "u32"@ {
        Some(PrimitiveType::U32)
    } else if name == "u64"@ {
        Some(PrimitiveType::U64)
    } else if name == "u128"@ {
        Some(PrimitiveType::U128)
    } else if name == "i8"@ {
        Some(PrimitiveType::I8)
    } else if name == "i16"@ {
        Some(PrimitiveType::I16)
    } else if name == "i32"@ {
        Some(PrimitiveType::I32)
    } else if name == "i64"@ {
        Some(PrimitiveType::I64)
    } else if name == "i128"@ {
        Some(PrimitiveType::I128)
    } else {
        None
    }
}

impl PrimitiveType {
    /// The Rust name of the type.
    pub open spec fn spec_name(self) -> Seq<char> {
        match self {
            PrimitiveType::U8 => "u8"@,
            PrimitiveType::U16 => "u16"@,
            PrimitiveType::U32 => "u32"@,
            PrimitiveType::U64 => "u64"@,
            PrimitiveType::U128 => "u128"@,
            PrimitiveType::I8 => "i8"@,
            PrimitiveType::I16 => "i16"@,
            PrimitiveType::I32 => "i32"@,
            PrimitiveType::I64 => "i64"@,
            PrimitiveType::I128 => "i128"@,
        }
    }

    /// The size in bytes.
    pub open spec fn size(self) -> nat {
        match self {
            PrimitiveType::U8 | PrimitiveType::I8 => 1,
            PrimitiveType::U16 | PrimitiveType::I16 => 2,
            PrimitiveType::U32 | PrimitiveType::I32 => 4,
            PrimitiveType::U64 | PrimitiveType::I64 => 8,
            PrimitiveType::U128 | PrimitiveType::I128 => 16,
        }
    }

    /// The handle under which generated code names the type.
    pub open spec fn handle(self) -> TypeHandle {
        match self {
            PrimitiveType::U8 => TypeHandle::U8,
            PrimitiveType::U16 => TypeHandle::U16,
            PrimitiveType::U32 => TypeHandle::U32,
            PrimitiveType::U64 => TypeHandle::U64,
            PrimitiveType::U128 => TypeHandle::U128,
            PrimitiveType::I8 => TypeHandle::I8,
            PrimitiveType::I16 => TypeHandle::I16,
            PrimitiveType::I32 => TypeHandle::I32,
            PrimitiveType::I64 => TypeHandle::I64,
            PrimitiveType::I128 => TypeHandle::I128,
        }
    }

    /// The primitive type named `value` (`u8`, ..., `i128`); `None` for any
    /// other name.
    pub fn from_name(value: &str) -> (r: Option<PrimitiveType>)
        ensures
            r == primitive_named(value@),
    {
        if str_eq(value, "u8") {
            Some(PrimitiveType::U8)
        } else if str_eq(value, "u16") {
            Some(PrimitiveType::U16)
        } else if str_eq(value, "u32") {
            Some(PrimitiveType::U32)
        } else if str_eq(value, "u64") {
            Some(PrimitiveType::U64)
        } else if str_eq(value, "u128") {
            Some(PrimitiveType::U128)
        } else if str_eq(value, "i8") {
            Some(PrimitiveType::I8)
        } else if str_eq(value, "i16") {
            Some(PrimitiveType::I16)
        } else if str_eq(value, "i32") {
            Some(PrimitiveType::I32)
        } else if str_eq(value, "i64") {
            Some(PrimitiveType::I64)
        } else if str_eq(value, "i128") {
            Some(PrimitiveType::I128)
        } else {
            None
        }
    }

    /// The Rust name of the type.
    pub fn name(&self) -> (r: String)
        ensures
            r@ == self.spec_name(),
    {
        let s: &str = match self {
            PrimitiveType::U8 => "u8",
            PrimitiveType::U16 => "u16",
            PrimitiveType::U32 => "u32",
            PrimitiveType::U64 => "u64",
            PrimitiveType::U128 => "u128",
            PrimitiveType::I8 => "i8",
            PrimitiveType::I16 => "i16",
            PrimitiveType::I32 => "i32",
            PrimitiveType::I64 => "i64",
            PrimitiveType::I128 => "i128",
        };
        String::from_str(s)
    }

    /// The size in bytes.
    pub fn get_size(self) -> (r: usize)
        ensures
            r == self.size(),
    {
        match self {
            PrimitiveType::U8 | PrimitiveType::I8 => 1,
            PrimitiveType::U16 | PrimitiveType::I16 => 2,
            PrimitiveType::U32 | PrimitiveType::I32 => 4,
            PrimitiveType::U64 | PrimitiveType::I64 => 8,
            PrimitiveType::U128 | PrimitiveType::I128 => 16,
        }
    }

    /// The alignment in bytes, which is the size.
    pub fn get_align(self) -> (r: usize)
        ensures
            r == self.size(),
    {
        self.get_size()
    }

    /// The handle under which generated code names the type.
    pub fn get_handle(self) -> (r: TypeHandle)
        ensures
            r == self.handle(),
    {
        match self {
            PrimitiveType::U8 => TypeHandle::U8,
            PrimitiveType::U16 => TypeHandle::U16,
            PrimitiveType::U32 => TypeHandle::U32,
            PrimitiveType::U64 => TypeHandle::U64,
            PrimitiveType::U128 => TypeHandle::U128,
            PrimitiveType::I8 => TypeHandle::I8,
            PrimitiveType::I16 => TypeHandle::I16,
            PrimitiveType::I32 => TypeHandle::I32,
            PrimitiveType::I64 => TypeHandle::I64,
            PrimitiveType::I128 => TypeHandle::I128,
        }
    }
}

/// Reading a primitive type's name gives the type back.
pub proof fn lemma_primitive_name_round_trip(p: PrimitiveType)
    ensures
        primitive_named(p.spec_name()) == Some(p),
{
    reveal_strlit("u8");
    reveal_strlit("u16");
    reveal_strlit("u32");
    reveal_strlit("u64");
    reveal_strlit("u128");
    reveal_strlit("i8");
    reveal_strlit("i16");
    reveal_strlit("i32");
    reveal_strlit("i64");
    reveal_strlit("i128");
    let q = p.spec_name();
    assert(q[0] == q[0] && q[1] == q[1]);
    assert("u8"@.len() == 2 && "i8"@.len() == 2 && "u128"@.len() == 4 && "i128"@.len() == 4);
    assert("u16"@.len() == 3 && "u32"@.len() == 3 && "u64"@.len() == 3);
    assert("i16"@.len() == 3 && "i32"@.len() == 3 && "i64"@.len() == 3);
    assert("u8"@[0] == 'u' && "u8"@[1] == '8');
    assert("u16"@[0] == 'u' && "u16"@[1] == '1');
    assert("u32"@[0] == 'u' && "u32"@[1] == '3');
    assert("u64"@[0] == 'u' && "u64"@[1] == '6');
    assert("u128"@[0] == 'u' && "u128"@[1] == '1');
    assert("i8"@[0] == 'i' && "i8"@[1] == '8');
    assert("i16"@[0] == 'i' && "i16"@[1] == '1');
    assert("i32"@[0] == 'i' && "i32"@[1] == '3');
    assert("i64"@[0] == 'i' && "i64"@[1] == '6');
    assert("i128"@[0] == 'i' && "i128"@[1] == '1');
}

} // verus!
