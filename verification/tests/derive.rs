use perl_xs::derive::ast::{
    de_optionalize, fields_from_ast, Attribute, FieldAst, GenericArgument, Inner, Lit, NestedMeta, PathArguments,
    PathSegment, Type,
};
use perl_xs::derive::error::Errors;
use perl_xs::derive::field::{get_meta_items, Field};

fn path(tokens: &str, segments: Vec<PathSegment>) -> Type {
    Type { tokens: String::from(tokens), segments: Some(segments) }
}

fn plain(name: &str) -> Type {
    path(name, vec![PathSegment { ident: String::from(name), arguments: PathArguments::Absent }])
}

fn generic(outer: &str, tokens: &str, args: Vec<GenericArgument>) -> Type {
    path(tokens, vec![PathSegment { ident: String::from(outer), arguments: PathArguments::AngleBracketed(args) }])
}

fn arg(tokens: &str, is_path: bool) -> GenericArgument {
    GenericArgument::Type(Inner { tokens: String::from(tokens), path: is_path })
}

fn key(value: &str) -> NestedMeta {
    NestedMeta::NameValue {
        name: String::from("key"),
        lit: Lit::Str(String::from(value)),
        shown: format!("key = {:?}", value),
    }
}

fn perlxs(nested: Vec<NestedMeta>) -> Attribute {
    Attribute::List { name: String::from("perlxs"), nested }
}

fn field(ident: Option<&str>, attrs: Vec<Attribute>, ty: Type) -> FieldAst {
    FieldAst { ident: ident.map(String::from), attrs, ty }
}

#[test]
fn option_of_a_path_is_optional() {
    let ty = generic("Option", "Option < String >", vec![arg("String", true)]);
    assert_eq!(de_optionalize(&ty), (true, String::from("String")));
}

#[test]
fn anything_else_is_not_optional() {
    assert_eq!(de_optionalize(&plain("bool")), (false, String::from("bool")));
    let vec_of = generic("Vec", "Vec < String >", vec![arg("String", true)]);
    assert_eq!(de_optionalize(&vec_of), (false, String::from("Vec < String >")));
    let of_ref = generic("Option", "Option < & str >", vec![arg("& str", false)]);
    assert_eq!(de_optionalize(&of_ref), (false, String::from("Option < & str >")));
    let two = generic("Option", "Option < A , B >", vec![arg("A", true), arg("B", true)]);
    assert_eq!(de_optionalize(&two), (false, String::from("Option < A , B >")));
    let lifetime = generic("Option", "Option < 'a >", vec![GenericArgument::Other]);
    assert_eq!(de_optionalize(&lifetime), (false, String::from("Option < 'a >")));
    let bare = plain("Option");
    assert_eq!(de_optionalize(&bare), (false, String::from("Option")));
    let paren = path(
        "Option ( A )",
        vec![PathSegment { ident: String::from("Option"), arguments: PathArguments::Parenthesized }],
    );
    assert_eq!(de_optionalize(&paren), (false, String::from("Option ( A )")));
    let qualified = path(
        "std :: option :: Option < String >",
        vec![
            PathSegment { ident: String::from("std"), arguments: PathArguments::Absent },
            PathSegment { ident: String::from("option"), arguments: PathArguments::Absent },
            PathSegment {
                ident: String::from("Option"),
                arguments: PathArguments::AngleBracketed(vec![arg("String", true)]),
            },
        ],
    );
    assert_eq!(de_optionalize(&qualified), (false, String::from("std :: option :: Option < String >")));
    let tuple = Type { tokens: String::from("( A , B )"), segments: None };
    assert_eq!(de_optionalize(&tuple), (false, String::from("( A , B )")));
}

#[test]
fn only_perlxs_lists_have_items() {
    assert_eq!(get_meta_items(&perlxs(vec![key("-a"), NestedMeta::Literal])).map(|v| v.len()), Some(2));
    let serde = Attribute::List { name: String::from("serde"), nested: vec![key("-a")] };
    assert!(get_meta_items(&serde).is_none());
    assert!(get_meta_items(&Attribute::Other).is_none());
}

#[test]
fn field_without_attributes_is_keyed_by_its_name() {
    let mut errors = Errors::new();
    let f = Field::from_ast(&mut errors, 0, &field(Some("alpha"), vec![], plain("bool")));
    assert_eq!(f.name, "alpha");
    assert_eq!(f.ident.as_deref(), Some("alpha"));
    assert_eq!(f.keys, vec![String::from("alpha")]);
    assert_eq!(f.ty, "bool");
    assert!(!f.optional);
    assert_eq!(errors.check(), Ok(()));
}

#[test]
fn declared_keys_replace_the_name() {
    let mut errors = Errors::new();
    let ast = field(
        Some("charlie"),
        vec![
            Attribute::Other,
            perlxs(vec![key("-charlie"), key("-charles")]),
            Attribute::List { name: String::from("doc"), nested: vec![key("ignored")] },
            perlxs(vec![key("-chuck")]),
        ],
        generic("Option", "Option < String >", vec![arg("String", true)]),
    );
    let f = Field::from_ast(&mut errors, 2, &ast);
    assert_eq!(f.name, "charlie");
    assert_eq!(f.keys, vec![String::from("-charlie"), String::from("-charles"), String::from("-chuck")]);
    assert_eq!(f.ty, "String");
    assert!(f.optional);
    assert_eq!(errors.check(), Ok(()));
}

#[test]
fn what_is_wrong_with_the_attributes_is_recorded() {
    let mut errors = Errors::new();
    let ast = field(
        Some("delta"),
        vec![perlxs(vec![
            NestedMeta::NameValue { name: String::from("key"), lit: Lit::Other, shown: String::from("key = 1") },
            NestedMeta::NameValue {
                name: String::from("rename"),
                lit: Lit::Str(String::from("x")),
                shown: String::from("rename = \"x\""),
            },
            NestedMeta::Meta { name: String::from("skip"), shown: String::from("skip(all)") },
            NestedMeta::Literal,
        ])],
        plain("bool"),
    );
    let f = Field::from_ast(&mut errors, 3, &ast);
    assert_eq!(f.keys, vec![String::from("delta")]);
    assert_eq!(
        errors.check(),
        Err(String::from(
            "4 errors:\n\
             \t# expected perlxs key attribute to be a string: `key = \"...\"`\n\
             \t# unknown perlxs container attribute `rename = \"x\"`\n\
             \t# unknown perlxs container attribute `skip(all)`\n\
             \t# unexpected literal in perlxs container attribute"
        ))
    );
}

#[test]
fn field_without_a_name_needs_a_key() {
    let mut errors = Errors::new();
    let f = Field::from_ast(&mut errors, 12, &field(None, vec![], plain("bool")));
    assert_eq!(f.name, "12");
    assert_eq!(f.ident, None);
    assert!(f.keys.is_empty());
    assert_eq!(errors.check(), Err(String::from("at least one key is required")));
    let mut errors = Errors::new();
    let f = Field::from_ast(&mut errors, 0, &field(None, vec![perlxs(vec![key("-x")])], plain("bool")));
    assert_eq!(f.name, "0");
    assert_eq!(f.keys, vec![String::from("-x")]);
    assert_eq!(errors.check(), Ok(()));
}

#[test]
fn fields_are_read_in_order() {
    let mut errors = Errors::new();
    let fields = vec![
        field(Some("alpha"), vec![], plain("bool")),
        field(Some("beta"), vec![perlxs(vec![NestedMeta::Literal])], plain("String")),
        field(None, vec![], generic("Option", "Option < bool >", vec![arg("bool", true)])),
    ];
    let read = fields_from_ast(&mut errors, &fields);
    let names: Vec<&str> = read.iter().map(|f| f.name.as_str()).collect();
    assert_eq!(names, vec!["alpha", "beta", "2"]);
    assert!(read[2].optional);
    assert_eq!(
        errors.check(),
        Err(String::from(
            "2 errors:\n\t# unexpected literal in perlxs container attribute\n\t# at least one key is required"
        ))
    );
}
