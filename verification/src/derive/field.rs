//! A field as the decoder's declaration describes it.

use vstd::prelude::*;
use vstd::string::*;
use super::ast::{de_optionalize, optional_inner, Attribute, FieldAst, Lit, NestedMeta};
use super::error::Errors;
use crate::text::{decimal, push_decimal};

verus! {

/// A field of a structure that is decoded from keyword arguments.
#[derive(Debug)]
pub struct Field {
    /// The name of the field, or its index where it has no name.
    pub name: String,
    /// The name of the field, where it has one.
    pub ident: Option<String>,
    /// The keys under which the field may be passed.
    pub keys: Vec<String>,
    /// The type of the field; for an option, the type that it is an
    /// option of.
    pub ty: String,
    /// Whether the field is an option.
    pub optional: bool,
}

/// The key that `item` declares.
pub open spec fn item_key(item: NestedMeta) -> Option<Seq<char>> {
    match item {
        NestedMeta::NameValue { name, lit: Lit::Str(s), shown } => if name@ == "key"@ {
            Some(s@)
        } else {
            None
        },
        _ => None,
    }
}

/// What is said of a key whose value is no string.
pub open spec fn not_a_string(attr_name: Seq<char>, meta_item_name: Seq<char>) -> Seq<char> {
    "expected perlxs "@ + attr_name + " attribute to be a string: `"@ + meta_item_name
        + " = \"...\"`"@
}

/// What is said of an item that declares nothing that is known; `shown`
/// is the whole item.
pub open spec fn unknown_attribute(shown: Seq<char>) -> Seq<char> {
    "unknown perlxs container attribute `"@ + shown + "`"@
}

/// What is wrong with `item`.
pub open spec fn item_error(item: NestedMeta) -> Option<Seq<char>> {
    match item {
        NestedMeta::NameValue { name, lit, shown } => if name@ == "key"@ {
            match lit {
                Lit::Str(_) => None,
                Lit::Other => Some(not_a_string(name@, name@)),
            }
        } else {
            Some(unknown_attribute(shown@))
        },
        NestedMeta::Meta { name, shown } => Some(unknown_attribute(shown@)),
        NestedMeta::Literal => Some("unexpected literal in perlxs container attribute"@),
    }
}

/// The items of `attr`, where it is a list named `perlxs`.
pub open spec fn meta_items(attr: Attribute) -> Option<Seq<NestedMeta>> {
    match attr {
        Attribute::List { name, nested } => if name@ == "perlxs"@ {
            Some(nested@)
        } else {
            None
        },
        Attribute::Other => None,
    }
}

/// The keys that the first `n` of `items` declare.
pub open spec fn item_keys(items: Seq<NestedMeta>, n: int) -> Seq<Seq<char>>
    decreases n,
{
    if n <= 0 {
        Seq::empty()
    } else {
        match item_key(items[n - 1]) {
            Some(k) => item_keys(items, n - 1).push(k),
            None => item_keys(items, n - 1),
        }
    }
}

/// What is wrong with the first `n` of `items`.
pub open spec fn item_errors(items: Seq<NestedMeta>, n: int) -> Seq<Seq<char>>
    decreases n,
{
    if n <= 0 {
        Seq::empty()
    } else {
        match item_error(items[n - 1]) {
            Some(e) => item_errors(items, n - 1).push(e),
            None => item_errors(items, n - 1),
        }
    }
}

/// The keys that the first `n` of `attrs` declare.
pub open spec fn attr_keys(attrs: Seq<Attribute>, n: int) -> Seq<Seq<char>>
    decreases n,
{
    if n <= 0 {
        Seq::empty()
    } else {
        match meta_items(attrs[n - 1]) {
            Some(items) => attr_keys(attrs, n - 1) + item_keys(items, items.len() as int),
            None => attr_keys(attrs, n - 1),
        }
    }
}

/// What is wrong with the first `n` of `attrs`.
pub open spec fn attr_errors(attrs: Seq<Attribute>, n: int) -> Seq<Seq<char>>
    decreases n,
{
    if n <= 0 {
        Seq::empty()
    } else {
        match meta_items(attrs[n - 1]) {
            Some(items) => attr_errors(attrs, n - 1) + item_errors(items, items.len() as int),
            None => attr_errors(attrs, n - 1),
        }
    }
}

/// The keys of `field`: those that its attributes declare, or, where
/// they declare none, its name.
pub open spec fn keys_of(field: FieldAst) -> Seq<Seq<char>> {
    let keys = attr_keys(field.attrs@, field.attrs@.len() as int);
    if keys.len() > 0 {
        keys
    } else {
        match field.ident {
            Some(ident) => seq![ident@],
            None => Seq::empty(),
        }
    }
}

/// What reading `field` raises.
pub open spec fn raised(field: FieldAst) -> Seq<Seq<char>> {
    let errors = attr_errors(field.attrs@, field.attrs@.len() as int);
    if attr_keys(field.attrs@, field.attrs@.len() as int).len() == 0 && field.ident is None {
        errors.push("at least one key is required"@)
    } else {
        errors
    }
}

/// The views of `keys`.
pub open spec fn key_views(keys: Seq<String>) -> Seq<Seq<char>> {
    keys.map_values(|k: String| k@)
}

/// Whether `f` is the declaration that the field `field` at index
/// `index` gives.
pub open spec fn declared(f: Field, index: nat, field: FieldAst) -> bool {
    &&& f.name@ == match field.ident {
        Some(ident) => ident@,
        None => decimal(index),
    }
    &&& f.ident is Some == field.ident is Some
    &&& f.ident is Some ==> f.ident->Some_0@ == field.ident->Some_0@
    &&& key_views(f.keys@) == keys_of(field)
    &&& f.optional == optional_inner(field.ty) is Some
    &&& f.ty@ == match optional_inner(field.ty) {
        Some(inner) => inner,
        None => field.ty.tokens@,
    }
}

/// The items of `attr`, where it is a list named `perlxs`.
pub fn get_meta_items(attr: &Attribute) -> (r: Option<&Vec<NestedMeta>>)
    ensures
        r is Some == meta_items(*attr) is Some,
        r is Some ==> r->Some_0@ == meta_items(*attr)->Some_0,
{
    match attr {
        Attribute::List { name, nested } => {
            if *name == String::from_str("perlxs") {
                Some(nested)
            } else {
                None
            }
        },
        Attribute::Other => None,
    }
}

fn get_string_from_lit(errors: &mut Errors, attr_name: &str, meta_item_name: &str, lit: &Lit) -> (r:
    Result<String, ()>)
    ensures
        match *lit {
            Lit::Str(s) => r is Ok && r->Ok_0@ == s@ && final(errors)@ == old(errors)@,
            Lit::Other => r is Err && final(errors)@ == old(errors)@.push(
                not_a_string(attr_name@, meta_item_name@),
            ),
        },
{
    match lit {
        Lit::Str(s) => Ok(s.clone()),
        Lit::Other => {
            let mut msg = String::from_str("expected perlxs ");
            msg.append(attr_name);
            msg.append(" attribute to be a string: `");
            msg.append(meta_item_name);
            msg.append(" = \"...\"`");
            assert(msg@ =~= not_a_string(attr_name@, meta_item_name@));
            errors.error(msg.as_str());
            Err(())
        },
    }
}

fn unknown_attribute_text(shown: &str) -> (r: String)
    ensures
        r@ == unknown_attribute(shown@),
{
    let mut msg = String::from_str("unknown perlxs container attribute `");
    msg.append(shown);
    msg.append("`");
    assert(msg@ =~= unknown_attribute(shown@));
    msg
}

fn read_items(errors: &mut Errors, keys: &mut Vec<String>, items: &Vec<NestedMeta>)
    ensures
        key_views(final(keys)@) == key_views(old(keys)@) + item_keys(items@, items@.len() as int),
        final(errors)@ == old(errors)@ + item_errors(items@, items@.len() as int),
{
    let n = items.len();
    let mut i: usize = 0;
    assert(key_views(keys@) =~= key_views(old(keys)@) + item_keys(items@, 0));
    assert(errors@ =~= old(errors)@ + item_errors(items@, 0));
    while i < n
        invariant
            n == items@.len(),
            i <= n,
            key_views(keys@) == key_views(old(keys)@) + item_keys(items@, i as int),
            errors@ == old(errors)@ + item_errors(items@, i as int),
        decreases n - i,
    {
        let ghost keys_before = keys@;
        match &items[i] {
            NestedMeta::NameValue { name, lit, shown } => {
                if *name == String::from_str("key") {
                    match get_string_from_lit(errors, name.as_str(), name.as_str(), lit) {
                        Ok(s) => {
                            keys.push(s);
                            assert(key_views(keys@) =~= key_views(keys_before).push(s@));
                        },
                        Err(_) => {},
                    }
                } else {
                    let msg = unknown_attribute_text(shown.as_str());
                    errors.error(msg.as_str());
                }
            },
            NestedMeta::Meta { name: _, shown } => {
                let msg = unknown_attribute_text(shown.as_str());
                errors.error(msg.as_str());
            },
            NestedMeta::Literal => {
                errors.error("unexpected literal in perlxs container attribute");
            },
        }
        proof {
            assert(key_views(keys@) =~= key_views(old(keys)@) + item_keys(items@, i + 1));
            assert(errors@ =~= old(errors)@ + item_errors(items@, i + 1));
        }
        i += 1;
    }
}

impl Field {
    /// Reads the declaration of a field: its keys from the items of its
    /// `perlxs` attributes, or its name where they declare no key; and
    /// what it is an option of, where it is one. What is wrong with the
    /// attributes is recorded in `errors`.
    pub fn from_ast(errors: &mut Errors, index: usize, field: &FieldAst) -> (f: Field)
        ensures
            declared(f, index as nat, *field),
            final(errors)@ == old(errors)@ + raised(*field),
    {
        let mut keys: Vec<String> = Vec::new();
        let name = match &field.ident {
            Some(ident) => ident.clone(),
            None => {
                let mut s = String::new();
                push_decimal(&mut s, index as u128);
                assert(s@ =~= decimal(index as nat));
                s
            },
        };
        let n = field.attrs.len();
        let mut i: usize = 0;
        assert(key_views(keys@) =~= attr_keys(field.attrs@, 0));
        assert(errors@ =~= old(errors)@ + attr_errors(field.attrs@, 0));
        while i < n
            invariant
                n == field.attrs@.len(),
                i <= n,
                key_views(keys@) == attr_keys(field.attrs@, i as int),
                errors@ == old(errors)@ + attr_errors(field.attrs@, i as int),
            decreases n - i,
        {
            match get_meta_items(&field.attrs[i]) {
                Some(items) => {
                    read_items(errors, &mut keys, items);
                    proof {
                        assert(errors@ =~= old(errors)@ + attr_errors(field.attrs@, i + 1));
                    }
                },
                None => {},
            }
            i += 1;
        }
        if keys.len() == 0 {
            match &field.ident {
                Some(ident) => {
                    keys.push(ident.clone());
                    assert(key_views(keys@) =~= seq![ident@]);
                },
                None => {
                    errors.error("at least one key is required");
                    assert(key_views(keys@) =~= Seq::<Seq<char>>::empty());
                },
            }
        }
        let (optional, inner_ty) = de_optionalize(&field.ty);
        let ident = match &field.ident {
            Some(ident) => Some(ident.clone()),
            None => None,
        };
        Field { ident, name, keys, ty: inner_ty, optional }
    }
}

} // verus!
