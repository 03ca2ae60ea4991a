//! The data types that a schema may give to metadata fields and to state.

use vstd::prelude::*;

verus! {

/// Primitive data types.
#[derive(Clone, Copy, Debug, PartialEq, Eq, Structural)]
pub enum PrimitiveType {
    U8,
    U16,
    U32,
    U64,
    U128,
    U256,
    U512,
    U1024,
    I8,
    I16,
    I32,
    I64,
    I128,
    I256,
    I512,
    I1024,
    F16b,
    F16,
    F32,
    F64,
    F80,
    F128,
    F256,
    F512,
    AsciiChar,
    UnicodeChar,
}

impl PrimitiveType {
    /// The byte that stands for the primitive type.
    pub open spec fn spec_code(self) -> u8 {
        match self {
            PrimitiveType::U8 => 0x00,
            PrimitiveType::U16 => 0x01,
            PrimitiveType::U32 => 0x02,
            PrimitiveType::U64 => 0x03,
            PrimitiveType::U128 => 0x04,
            PrimitiveType::U256 => 0x05,
            PrimitiveType::U512 => 0x06,
            PrimitiveType::U1024 => 0x07,
            PrimitiveType::I8 => 0x10,
            PrimitiveType::I16 => 0x11,
            PrimitiveType::I32 => 0x12,
            PrimitiveType::I64 => 0x13,
            PrimitiveType::I128 => 0x14,
            PrimitiveType::I256 => 0x15,
            PrimitiveType::I512 => 0x16,
            PrimitiveType::I1024 => 0x17,
            PrimitiveType::F16b => 0x30,
            PrimitiveType::F16 => 0x31,
            PrimitiveType::F32 => 0x32,
            PrimitiveType::F64 => 0x33,
            PrimitiveType::F80 => 0x34,
            PrimitiveType::F128 => 0x35,
            PrimitiveType::F256 => 0x36,
            PrimitiveType::F512 => 0x37,
            PrimitiveType::AsciiChar => 0xFE,
            PrimitiveType::UnicodeChar => 0xFF,
        }
    }

    /// The primitive type that a byte stands for, if any.
    pub open spec fn spec_from_code(code: u8) -> Option<PrimitiveType> {
        if code == 0x00 {
            Some(PrimitiveType::U8)
        } else if code == 0x01 {
            Some(PrimitiveType::U16)
        } else if code == 0x02 {
            Some(PrimitiveType::U32)
        } else if code == 0x03 {
            Some(PrimitiveType::U64)
        } else if code == 0x04 {
            Some(PrimitiveType::U128)
        } else if code == 0x05 {
            Some(PrimitiveType::U256)
        } else if code == 0x06 {
            Some(PrimitiveType::U512)
        } else if code == 0x07 {
            Some(PrimitiveType::U1024)
        } else if code == 0x10 {
            Some(PrimitiveType::I8)
        } else if code == 0x11 {
            Some(PrimitiveType::I16)
        } else if code == 0x12 {
            Some(PrimitiveType::I32)
        } else if code == 0x13 {
            Some(PrimitiveType::I64)
        } else if code == 0x14 {
            Some(PrimitiveType::I128)
        } else if code == 0x15 {
            Some(PrimitiveType::I256)
        } else if code == 0x16 {
            Some(PrimitiveType::I512)
        } else if code == 0x17 {
            Some(PrimitiveType::I1024)
        } else if code == 0x30 {
            Some(PrimitiveType::F16b)
        } else if code == 0x31 {
            Some(PrimitiveType::F16)
        } else if code == 0x32 {
            Some(PrimitiveType::F32)
        } else if code == 0x33 {
            Some(PrimitiveType::F64)
        } else if code == 0x34 {
            Some(PrimitiveType::F80)
        } else if code == 0x35 {
            Some(PrimitiveType::F128)
        } else if code == 0x36 {
            Some(PrimitiveType::F256)
        } else if code == 0x37 {
            Some(PrimitiveType::F512)
        } else if code == 0xFE {
            Some(PrimitiveType::AsciiChar)
        } else if code == 0xFF {
            Some(PrimitiveType::UnicodeChar)
        } else {
            None
        }
    }

    /// The byte that stands for the primitive type.
    #[verifier::when_used_as_spec(spec_code)]
    pub fn code(self) -> (r: u8)
        ensures
            r == self.spec_code(),
    {
        match self {
            PrimitiveType::U8 => 0x00,
            PrimitiveType::U16 => 0x01,
            PrimitiveType::U32 => 0x02,
            PrimitiveType::U64 => 0x03,
            PrimitiveType::U128 => 0x04,
            PrimitiveType::U256 => 0x05,
            PrimitiveType::U512 => 0x06,
            PrimitiveType::U1024 => 0x07,
            PrimitiveType::I8 => 0x10,
            PrimitiveType::I16 => 0x11,
            PrimitiveType::I32 => 0x12,
            PrimitiveType::I64 => 0x13,
            PrimitiveType::I128 => 0x14,
            PrimitiveType::I256 => 0x15,
            PrimitiveType::I512 => 0x16,
            PrimitiveType::I1024 => 0x17,
            PrimitiveType::F16b => 0x30,
            PrimitiveType::F16 => 0x31,
            PrimitiveType::F32 => 0x32,
            PrimitiveType::F64 => 0x33,
            PrimitiveType::F80 => 0x34,
            PrimitiveType::F128 => 0x35,
            PrimitiveType::F256 => 0x36,
            PrimitiveType::F512 => 0x37,
            PrimitiveType::AsciiChar => 0xFE,
            PrimitiveType::UnicodeChar => 0xFF,
        }
    }

    /// The primitive type that a byte stands for, if any.
    pub fn from_code(code: u8) -> (r: Option<PrimitiveType>)
        ensures
            r == Self::spec_from_code(code),
    {
        if code == 0x00 {
            Some(PrimitiveType::U8)
        } else if code == 0x01 {
            Some(PrimitiveType::U16)
        } else if code == 0x02 {
            Some(PrimitiveType::U32)
        } else if code == 0x03 {
            Some(PrimitiveType::U64)
        } else if code == 0x04 {
            Some(PrimitiveType::U128)
        } else if code == 0x05 {
            Some(PrimitiveType::U256)
        } else if code == 0x06 {
            Some(PrimitiveType::U512)
        } else if code == 0x07 {
            Some(PrimitiveType::U1024)
        } else if code == 0x10 {
            Some(PrimitiveType::I8)
        } else if code == 0x11 {
            Some(PrimitiveType::I16)
        } else if code == 0x12 {
            Some(PrimitiveType::I32)
        } else if code == 0x13 {
            Some(PrimitiveType::I64)
        } else if code == 0x14 {
            Some(PrimitiveType::I128)
        } else if code == 0x15 {
            Some(PrimitiveType::I256)
        } else if code == 0x16 {
            Some(PrimitiveType::I512)
        } else if code == 0x17 {
            Some(PrimitiveType::I1024)
        } else if code == 0x30 {
            Some(PrimitiveType::F16b)
        } else if code == 0x31 {
            Some(PrimitiveType::F16)
        } else if code == 0x32 {
            Some(PrimitiveType::F32)
        } else if code == 0x33 {
            Some(PrimitiveType::F64)
        } else if code == 0x34 {
            Some(PrimitiveType::F80)
        } else if code == 0x35 {
            Some(PrimitiveType::F128)
        } else if code == 0x36 {
            Some(PrimitiveType::F256)
        } else if code == 0x37 {
            Some(PrimitiveType::F512)
        } else if code == 0xFE {
            Some(PrimitiveType::AsciiChar)
        } else if code == 0xFF {
            Some(PrimitiveType::UnicodeChar)
        } else {
            None
        }
    }
}

/// The type of the keys of a map.
#[derive(Clone, Copy, Debug, PartialEq, Eq, Structural)]
pub enum KeyType {
    Primitive(PrimitiveType),
    Array(u16, PrimitiveType),
    List(PrimitiveType),
}

/// How a data type is built from the type it refers to.
#[derive(Clone, Copy, Debug, PartialEq, Eq, Structural)]
pub enum TypeConstr {
    /// The type itself.
    Plain,
    /// An array of the given length.
    Array(u16),
    /// A list.
    List,
    /// A set.
    SetOf,
    /// A map with keys of the given type.
    MapOf(KeyType),
}

/// What a type reference points to: a primitive type, or a structure of the
/// type system by its name.
#[derive(Clone, Debug, PartialEq, Eq)]
pub enum TypeTarget {
    Primitive(PrimitiveType),
    Named(Vec<u8>),
}

/// The model of a [`TypeTarget`].
pub enum TypeTargetView {
    Primitive(PrimitiveType),
    Named(Seq<u8>),
}

impl View for TypeTarget {
    type V = TypeTargetView;

    open spec fn view(&self) -> TypeTargetView {
        match self {
            TypeTarget::Primitive(p) => TypeTargetView::Primitive(*p),
            TypeTarget::Named(name) => TypeTargetView::Named(name@),
        }
    }
}

/// A reference to a data type.
#[derive(Clone, Debug, PartialEq, Eq)]
pub struct TypeRef {
    pub constr: TypeConstr,
    pub target: TypeTarget,
}

/// The model of a [`TypeRef`].
pub struct TypeRefView {
    pub constr: TypeConstr,
    pub target: TypeTargetView,
}

impl View for TypeRef {
    type V = TypeRefView;

    open spec fn view(&self) -> TypeRefView {
        TypeRefView { constr: self.constr, target: self.target@ }
    }
}

/// Whether two byte strings hold the same bytes.
pub fn bytes_eq(a: &Vec<u8>, b: &Vec<u8>) -> (r: bool)
    ensures
        r == (a@ == b@),
{
    if a.len() != b.len() {
        return false;
    }
    let mut i: usize = 0;
    while i < a.len()
        invariant
            a@.len() == b@.len(),
            i <= a@.len(),
            forall|j: int| 0 <= j < i ==> a@[j] == b@[j],
        decreases a@.len() - i,
    {
        if a[i] != b[i] {
            return false;
        }
        i = i + 1;
    }
    assert(a@ =~= b@);
    true
}

impl TypeRef {
    /// A reference to a primitive type.
    pub fn primitive(p: PrimitiveType) -> (r: TypeRef)
        ensures
            r@ == (TypeRefView { constr: TypeConstr::Plain, target: TypeTargetView::Primitive(p) }),
    {
        TypeRef { constr: TypeConstr::Plain, target: TypeTarget::Primitive(p) }
    }

    /// A list of a primitive type.
    pub fn list(p: PrimitiveType) -> (r: TypeRef)
        ensures
            r@ == (TypeRefView { constr: TypeConstr::List, target: TypeTargetView::Primitive(p) }),
    {
        TypeRef { constr: TypeConstr::List, target: TypeTarget::Primitive(p) }
    }

    /// An array of `size` items of a primitive type.
    pub fn array(p: PrimitiveType, size: u16) -> (r: TypeRef)
        ensures
            r@ == (TypeRefView {
                constr: TypeConstr::Array(size),
                target: TypeTargetView::Primitive(p),
            }),
    {
        TypeRef { constr: TypeConstr::Array(size), target: TypeTarget::Primitive(p) }
    }

    /// A reference to the structure called `name`.
    pub fn named(name: Vec<u8>) -> (r: TypeRef)
        ensures
            r@ == (TypeRefView { constr: TypeConstr::Plain, target: TypeTargetView::Named(name@) }),
    {
        TypeRef { constr: TypeConstr::Plain, target: TypeTarget::Named(name) }
    }

    /// A string of bytes.
    pub fn bytes() -> (r: TypeRef)
        ensures
            r@ == Self::spec_list(PrimitiveType::U8),
    {
        Self::list(PrimitiveType::U8)
    }

    /// A string of ASCII characters.
    pub fn ascii_string() -> (r: TypeRef)
        ensures
            r@ == Self::spec_list(PrimitiveType::AsciiChar),
    {
        Self::list(PrimitiveType::AsciiChar)
    }

    /// An unsigned 8-bit integer.
    pub fn u8() -> (r: TypeRef)
        ensures
            r@ == Self::spec_primitive(PrimitiveType::U8),
    {
        Self::primitive(PrimitiveType::U8)
    }

    /// An unsigned 16-bit integer.
    pub fn u16() -> (r: TypeRef)
        ensures
            r@ == Self::spec_primitive(PrimitiveType::U16),
    {
        Self::primitive(PrimitiveType::U16)
    }

    /// An unsigned 64-bit integer.
    pub fn u64() -> (r: TypeRef)
        ensures
            r@ == Self::spec_primitive(PrimitiveType::U64),
    {
        Self::primitive(PrimitiveType::U64)
    }

    /// A signed 64-bit integer.
    pub fn i64() -> (r: TypeRef)
        ensures
            r@ == Self::spec_primitive(PrimitiveType::I64),
    {
        Self::primitive(PrimitiveType::I64)
    }

    /// The model of a reference to a primitive type.
    pub open spec fn spec_primitive(p: PrimitiveType) -> TypeRefView {
        TypeRefView { constr: TypeConstr::Plain, target: TypeTargetView::Primitive(p) }
    }

    /// The model of a list of a primitive type.
    pub open spec fn spec_list(p: PrimitiveType) -> TypeRefView {
        TypeRefView { constr: TypeConstr::List, target: TypeTargetView::Primitive(p) }
    }

    /// The model of an array of a primitive type.
    pub open spec fn spec_array(p: PrimitiveType, size: u16) -> TypeRefView {
        TypeRefView { constr: TypeConstr::Array(size), target: TypeTargetView::Primitive(p) }
    }

    /// The model of a reference to a named structure.
    pub open spec fn spec_named(name: Seq<u8>) -> TypeRefView {
        TypeRefView { constr: TypeConstr::Plain, target: TypeTargetView::Named(name) }
    }

    /// Whether two references denote the same type.
    pub fn same(&self, other: &TypeRef) -> (r: bool)
        ensures
            r == (self@ == other@),
    {
        if self.constr != other.constr {
            return false;
        }
        match (&self.target, &other.target) {
            (TypeTarget::Primitive(p), TypeTarget::Primitive(q)) => *p == *q,
            (TypeTarget::Named(a), TypeTarget::Named(b)) => bytes_eq(a, b),
            _ => false,
        }
    }
}

/// One field of a structure.
#[derive(Clone, Debug, PartialEq, Eq)]
pub struct StructField {
    pub ty: TypeRef,
    pub optional: bool,
}

/// The model of a [`StructField`].
pub struct StructFieldView {
    pub ty: TypeRefView,
    pub optional: bool,
}

impl View for StructField {
    type V = StructFieldView;

    open spec fn view(&self) -> StructFieldView {
        StructFieldView { ty: self.ty@, optional: self.optional }
    }
}

impl StructField {
    /// A required field of the given type.
    pub fn required(ty: TypeRef) -> (r: StructField)
        ensures
            r@ == (StructFieldView { ty: ty@, optional: false }),
    {
        StructField { ty, optional: false }
    }
}

/// A structure of the type system: its name and its fields.
#[derive(Clone, Debug, PartialEq, Eq)]
pub struct StructType {
    pub name: Vec<u8>,
    pub fields: Vec<StructField>,
}

/// The model of a [`StructType`].
pub struct StructTypeView {
    pub name: Seq<u8>,
    pub fields: Seq<StructFieldView>,
}

impl View for StructType {
    type V = StructTypeView;

    open spec fn view(&self) -> StructTypeView {
        StructTypeView { name: self.name@, fields: self.fields@.map_values(|f: StructField| f@) }
    }
}

/// The named structures that the types of a schema may refer to.
#[derive(Clone, Debug, PartialEq, Eq)]
pub struct TypeSystem {
    pub types: Vec<StructType>,
}

impl View for TypeSystem {
    type V = Seq<StructTypeView>;

    open spec fn view(&self) -> Seq<StructTypeView> {
        self.types@.map_values(|t: StructType| t@)
    }
}

/// The format of the state that an owned right carries.
#[derive(Clone, Debug, PartialEq, Eq)]
pub enum StateSchema {
    /// No state.
    Declarative,
    /// A value of a finite field, hidden behind a homomorphic commitment.
    DiscreteFiniteField(DiscreteFiniteFieldFormat),
    /// Data of the given type.
    CustomData(TypeRef),
    /// An attached container of data.
    DataContainer,
}

/// The formats of finite-field values.
#[derive(Clone, Copy, Debug, PartialEq, Eq, Structural)]
pub enum DiscreteFiniteFieldFormat {
    Unsigned64bit,
}

/// The model of a [`StateSchema`].
pub enum StateSchemaView {
    Declarative,
    DiscreteFiniteField(DiscreteFiniteFieldFormat),
    CustomData(TypeRefView),
    DataContainer,
}

impl View for StateSchema {
    type V = StateSchemaView;

    open spec fn view(&self) -> StateSchemaView {
        match self {
            StateSchema::Declarative => StateSchemaView::Declarative,
            StateSchema::DiscreteFiniteField(f) => StateSchemaView::DiscreteFiniteField(*f),
            StateSchema::CustomData(t) => StateSchemaView::CustomData(t@),
            StateSchema::DataContainer => StateSchemaView::DataContainer,
        }
    }
}

impl StateSchema {
    /// Whether two state formats are the same.
    pub fn same(&self, other: &StateSchema) -> (r: bool)
        ensures
            r == (self@ == other@),
    {
        match (self, other) {
            (StateSchema::Declarative, StateSchema::Declarative) => true,
            (StateSchema::DiscreteFiniteField(a), StateSchema::DiscreteFiniteField(b)) => *a == *b,
            (StateSchema::CustomData(a), StateSchema::CustomData(b)) => a.same(b),
            (StateSchema::DataContainer, StateSchema::DataContainer) => true,
            _ => false,
        }
    }
}

} // verus!
