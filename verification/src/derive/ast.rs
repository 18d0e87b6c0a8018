//! The parts of a structure's declaration that the decoder's
//! declaration is read from, as plain values.

use vstd::prelude::*;
use vstd::string::*;
use super::error::Errors;
use super::field::{declared, raised, Field};

verus! {

/// A literal.
#[derive(Debug)]
pub enum Lit {
    /// A string literal and its value.
    Str(String),
    /// A literal of any other kind.
    Other,
}

/// One item between the brackets of an attribute.
#[derive(Debug)]
pub enum NestedMeta {
    /// A name, an equals sign and a literal.
    NameValue {
        /// The name.
        name: String,
        /// The literal.
        lit: Lit,
        /// The whole item, as it is shown in a report.
        shown: String,
    },
    /// Any other item that starts with a name.
    Meta {
        /// The name.
        name: String,
        /// The whole item, as it is shown in a report.
        shown: String,
    },
    /// A bare literal.
    Literal,
}

/// An attribute.
#[derive(Debug)]
pub enum Attribute {
    /// A name and a list of items in brackets.
    List { name: String, nested: Vec<NestedMeta> },
    /// An attribute of any other form.
    Other,
}

/// A type that stands between the angle brackets of a path segment.
#[derive(Debug)]
pub struct Inner {
    /// The type as it is written.
    pub tokens: String,
    /// Whether the type is a path.
    pub path: bool,
}

/// One argument between the angle brackets of a path segment.
#[derive(Debug)]
pub enum GenericArgument {
    /// A type.
    Type(Inner),
    /// A lifetime, a binding or a constant.
    Other,
}

/// What follows the name of a path segment.
#[derive(Debug)]
pub enum PathArguments {
    /// Nothing.
    Absent,
    /// Arguments in angle brackets.
    AngleBracketed(Vec<GenericArgument>),
    /// Arguments in round brackets.
    Parenthesized,
}

/// One segment of a path.
#[derive(Debug)]
pub struct PathSegment {
    /// The name.
    pub ident: String,
    /// What follows the name.
    pub arguments: PathArguments,
}

/// A type.
#[derive(Debug)]
pub struct Type {
    /// The type as it is written.
    pub tokens: String,
    /// The segments of the path, where the type is a path.
    pub segments: Option<Vec<PathSegment>>,
}

/// A field of a structure.
#[derive(Debug)]
pub struct FieldAst {
    /// The name of the field, where it has one.
    pub ident: Option<String>,
    /// The attributes of the field.
    pub attrs: Vec<Attribute>,
    /// The type of the field.
    pub ty: Type,
}

/// The type that `ty` wraps as an option: the one argument of `Option`,
/// where `ty` is written as the single path segment `Option` with one
/// argument in angle brackets, which is a type and a path.
pub open spec fn optional_inner(ty: Type) -> Option<Seq<char>> {
    match ty.segments {
        Some(segments) => {
            if segments@.len() == 1 && segments@[0].ident@ == "Option"@ {
                match segments@[0].arguments {
                    PathArguments::AngleBracketed(args) => {
                        if args@.len() == 1 {
                            match args@[0] {
                                GenericArgument::Type(inner) => if inner.path {
                                    Some(inner.tokens@)
                                } else {
                                    None
                                },
                                GenericArgument::Other => None,
                            }
                        } else {
                            None
                        }
                    },
                    _ => None,
                }
            } else {
                None
            }
        },
        None => None,
    }
}

/// Whether `ty` is an option, and the type that it is an option of, or
/// `ty` itself where it is none.
pub fn de_optionalize(ty: &Type) -> (r: (bool, String))
    ensures
        r.0 == optional_inner(*ty) is Some,
        r.1@ == match optional_inner(*ty) {
            Some(inner) => inner,
            None => ty.tokens@,
        },
{
    if let Some(segments) = &ty.segments {
        if segments.len() == 1 && segments[0].ident == String::from_str("Option") {
            if let PathArguments::AngleBracketed(args) = &segments[0].arguments {
                if args.len() == 1 {
                    if let GenericArgument::Type(inner) = &args[0] {
                        if inner.path {
                            return (true, inner.tokens.clone());
                        }
                    }
                }
            }
        }
    }
    (false, ty.tokens.clone())
}

/// The declarations of `fields`, in their order.
pub fn fields_from_ast(errors: &mut Errors, fields: &Vec<FieldAst>) -> (r: Vec<Field>)
    ensures
        r@.len() == fields@.len(),
        forall|i: int| 0 <= i < r@.len() ==> declared(#[trigger] r@[i], i as nat, fields@[i]),
        final(errors)@ == old(errors)@ + all_raised(fields@, fields@.len() as int),
{
    let mut r: Vec<Field> = Vec::new();
    let n = fields.len();
    let mut i: usize = 0;
    while i < n
        invariant
            n == fields@.len(),
            i <= n,
            r@.len() == i,
            forall|j: int| 0 <= j < i ==> declared(#[trigger] r@[j], j as nat, fields@[j]),
            errors@ == old(errors)@ + all_raised(fields@, i as int),
        decreases n - i,
    {
        let field = Field::from_ast(errors, i, &fields[i]);
        r.push(field);
        proof {
            assert(errors@ =~= old(errors)@ + all_raised(fields@, i + 1));
        }
        i += 1;
    }
    r
}

/// What reading the first `n` of `fields` raises.
pub open spec fn all_raised(fields: Seq<FieldAst>, n: int) -> Seq<Seq<char>>
    decreases n,
{
    if n <= 0 {
        Seq::empty()
    } else {
        all_raised(fields, n - 1) + raised(fields[n - 1])
    }
}

} // verus!
