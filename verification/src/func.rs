//! The function as a query engine sees it: its name, the argument types it
//! accepts, and the type of its result.
use crate::column::{DataType, TypeName};
use crate::dispatch::type_text;
use crate::error::{Failure, SubstrError};
use vstd::prelude::*;

verus! {

/// How the result of a function varies between calls.
#[derive(Debug, Clone, Copy, PartialEq, Eq, Structural)]
pub enum Volatility {
    /// The same arguments always give the same result.
    Immutable,
}

/// The lists of argument types that a function accepts, each exactly as it
/// stands, and how its result varies.
#[derive(Debug)]
pub struct Signature {
    pub one_of: Vec<Vec<DataType>>,
    pub volatility: Volatility,
}

/// The function `substr`.
#[derive(Debug)]
pub struct SubstrFunc {
    signature: Signature,
    aliases: Vec<String>,
}

/// What data types stand for.
pub open spec fn type_names(types: Seq<DataType>) -> Seq<TypeName> {
    types.map_values(|data_type: DataType| data_type@)
}

impl Signature {
    /// The lists of types that are accepted.
    pub open spec fn shapes(&self) -> Seq<Seq<TypeName>> {
        self.one_of@.map_values(|types: Vec<DataType>| type_names(types@))
    }
}

/// The argument types that `substr` accepts: a string of any kind, a start and,
/// optionally, a count.
pub open spec fn accepted_shapes() -> Seq<Seq<TypeName>> {
    seq![
        seq![TypeName::Utf8, TypeName::Int64],
        seq![TypeName::LargeUtf8, TypeName::Int64],
        seq![TypeName::Utf8, TypeName::Int64, TypeName::Int64],
        seq![TypeName::LargeUtf8, TypeName::Int64, TypeName::Int64],
        seq![TypeName::Utf8View, TypeName::Int64],
        seq![TypeName::Utf8View, TypeName::Int64, TypeName::Int64],
    ]
}

/// The type of the result for a first argument of this type: the same for a
/// string, and a failure for anything else.
pub open spec fn result_type(first: TypeName) -> Result<TypeName, Failure> {
    match first {
        TypeName::Utf8 | TypeName::LargeUtf8 | TypeName::Utf8View => Ok(first),
        _ => Err(Failure::UnsupportedType(type_text(first))),
    }
}

impl SubstrFunc {
    /// The lists of types that are accepted.
    pub closed spec fn shapes(&self) -> Seq<Seq<TypeName>> {
        self.signature.shapes()
    }

    /// How the result varies between calls.
    pub closed spec fn volatility(&self) -> Volatility {
        self.signature.volatility
    }

    /// The further names of the function.
    pub closed spec fn other_names(&self) -> Seq<Seq<char>> {
        self.aliases@.map_values(|alias: String| alias@)
    }

    /// What `new` makes.
    pub open spec fn is_substr_func(&self) -> bool {
        &&& self.shapes() == accepted_shapes()
        &&& self.volatility() == Volatility::Immutable
        &&& self.other_names() == seq!["substring"@]
    }

    /// The function, with the types it accepts and its further name `substring`.
    pub fn new() -> (func: Self)
        ensures
            func.is_substr_func(),
    {
        let one_of: Vec<Vec<DataType>> = vec![
            vec![DataType::Utf8, DataType::Int64],
            vec![DataType::LargeUtf8, DataType::Int64],
            vec![DataType::Utf8, DataType::Int64, DataType::Int64],
            vec![DataType::LargeUtf8, DataType::Int64, DataType::Int64],
            vec![DataType::Utf8View, DataType::Int64],
            vec![DataType::Utf8View, DataType::Int64, DataType::Int64],
        ];
        let func = SubstrFunc {
            signature: Signature { one_of, volatility: Volatility::Immutable },
            aliases: vec!["substring".to_owned()],
        };
        proof {
            assert forall|i: int| 0 <= i < 6 implies #[trigger] func.shapes()[i]
                =~= accepted_shapes()[i] by {}
            assert(func.shapes() =~= accepted_shapes());
            assert(func.other_names() =~= seq!["substring"@]);
        }
        func
    }

    /// The name of the function.
    pub fn name(&self) -> (name: &'static str)
        ensures
            name@ == "substr"@,
    {
        "substr"
    }

    /// The argument types that the function accepts.
    pub fn signature(&self) -> (signature: &Signature)
        ensures
            signature.shapes() == self.shapes(),
            signature.volatility == self.volatility(),
    {
        &self.signature
    }

    /// The type of the result for arguments of these types, which the first decides.
    pub fn return_type(&self, arg_types: &[DataType]) -> (result: Result<DataType, SubstrError>)
        requires
            arg_types@.len() >= 1,
        ensures
            match result_type(arg_types@[0]@) {
                Ok(name) => result matches Ok(data_type) && data_type@ == name,
                Err(failure) => result matches Err(error) && error@ == failure,
            },
    {
        match &arg_types[0] {
            DataType::Utf8View => Ok(DataType::Utf8View),
            DataType::LargeUtf8 => Ok(DataType::LargeUtf8),
            DataType::Utf8 => Ok(DataType::Utf8),
            DataType::Int64 => Err(SubstrError::UnsupportedType("Int64".to_owned())),
            DataType::Other(name) => Err(SubstrError::UnsupportedType(name.clone())),
        }
    }

    /// The further names of the function.
    pub fn aliases(&self) -> (aliases: &Vec<String>)
        ensures
            aliases@.map_values(|alias: String| alias@) == self.other_names(),
    {
        &self.aliases
    }
}

impl Default for SubstrFunc {
    fn default() -> (func: Self)
        ensures
            func.is_substr_func(),
    {
        SubstrFunc::new()
    }
}

} // verus!
