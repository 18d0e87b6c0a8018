use perl_xs::boot::{boot, symbol_name};
use perl_xs::raw::Interpreter;
use perl_xs::registry::Registry;
use perl_xs::text::{matches_at, replace, rfind};
use perl_xs::{Context, Package, Symbol};

fn sym(module: &'static str, package: Option<&'static str>, name: &'static str) -> Symbol {
    Symbol { module, package, name, ptr: 0 }
}

#[test]
fn replace_replaces_every_occurrence_from_the_left() {
    assert_eq!(replace("XSTest :: Derive", " :: ", "::"), "XSTest::Derive");
    assert_eq!(replace("a :: b :: c", " :: ", "::"), "a::b::c");
    assert_eq!(replace("aaaa", "aa", "b"), "bb");
    assert_eq!(replace("aaa", "aa", "b"), "ba");
    assert_eq!(replace("", "x", "y"), "");
    assert_eq!(replace("xyz", "xyzw", "!"), "xyz");
    assert_eq!(replace("xyz", "", "!"), "!x!y!z!");
    assert_eq!(replace("", "", "!"), "!");
    assert_eq!(replace("x\u{3042}", "", "--"), "x\u{3042}".replace("", "--"));
    assert_eq!(replace("\u{3042}-\u{3042}", "-", "\u{e9}\u{e9}"), "\u{3042}\u{e9}\u{e9}\u{3042}");
}

#[test]
fn rfind_finds_the_last_occurrence() {
    assert_eq!(rfind("a::b::c", "::"), Some(4));
    assert_eq!(rfind("a:::b", "::"), Some(2));
    assert_eq!(rfind("abc", "::"), None);
    assert_eq!(rfind("::", "::"), Some(0));
    assert_eq!(rfind("", "::"), None);
    assert_eq!(rfind("\u{3042}::x", "::"), Some(1));
    assert!(matches_at("a::b", "::", 1));
    assert!(!matches_at("a::b", "::", 2));
    assert!(!matches_at("a::b", "::", 9));
}

#[test]
fn named_package_wins_and_loses_its_blanks() {
    let pkg = Package { module: "t::derive", package: "Other" };
    let name = symbol_name(&sym("t::derive", Some("XSTest :: Derive"), "test_from_kv"), &vec![&pkg]);
    assert_eq!(name, "XSTest::Derive::test_from_kv");
}

#[test]
fn module_is_rewritten_to_its_package() {
    let a = Package { module: "t::panic", package: "XSTest::Panic" };
    let b = Package { module: "t", package: "XSTest" };
    let packages = vec![&a, &b];
    assert_eq!(symbol_name(&sym("t::panic", None, "test_panic"), &packages), "XSTest::Panic::test_panic");
    assert_eq!(symbol_name(&sym("t", None, "f"), &packages), "XSTest::f");
}

#[test]
fn the_last_package_named_for_a_module_counts() {
    let first = Package { module: "t", package: "First" };
    let last = Package { module: "t", package: "Last" };
    assert_eq!(symbol_name(&sym("t", None, "f"), &vec![&first, &last]), "Last::f");
}

#[test]
fn enclosing_module_lends_its_package() {
    let root = Package { module: "t", package: "XSTest" };
    let packages = vec![&root];
    assert_eq!(symbol_name(&sym("t::derive::error", None, "f"), &packages), "XSTest::error::derive::f");
    assert_eq!(symbol_name(&sym("t::stack", None, "test_push"), &packages), "XSTest::stack::test_push");
}

#[test]
fn module_without_a_package_keeps_its_path() {
    let other = Package { module: "elsewhere", package: "Else" };
    assert_eq!(symbol_name(&sym("a::b", None, "f"), &vec![&other]), "a::b::f");
    assert_eq!(symbol_name(&sym("plain", None, "f"), &vec![]), "plain::f");
}

#[test]
fn boot_registers_every_symbol_under_its_name() {
    let mut symbols = Registry::new();
    symbols.submit(Symbol { module: "t::param", package: None, name: "add", ptr: 10 });
    symbols.submit(Symbol { module: "t::param", package: None, name: "len", ptr: 11 });
    symbols.submit(Symbol { module: "t::array", package: Some("XSTest :: Array"), name: "test_pop", ptr: 12 });
    let mut packages = Registry::new();
    packages.submit(Package { module: "t", package: "XSTest" });
    packages.submit(Package { module: "t::param", package: "XSTest::Param" });
    let mut ctx = Context::new(Interpreter::new());
    boot(&mut ctx, "XSTest", &symbols, &packages);
    let subs = ctx.perl.subs();
    assert_eq!(
        subs,
        vec![
            (String::from("XSTest::Array::test_pop"), 12),
            (String::from("XSTest::Param::len"), 11),
            (String::from("XSTest::Param::add"), 10),
        ]
    );
    ctx.new_xs("Extra::sub", 99);
    assert_eq!(ctx.perl.subs().len(), 4);
}
