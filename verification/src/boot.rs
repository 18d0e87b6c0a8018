//! Registration of native subroutines with the host when a module is
//! loaded.

use vstd::prelude::*;
use vstd::string::*;
use crate::context::Context;
use crate::raw::model::World;
use crate::registry::{Registry, RegistryView};
use crate::text::{joined, last_occurrence, push_joined, replace, replaced, rfind, views};

verus! {

/// A native subroutine that asks to be registered.
#[derive(Debug)]
pub struct Symbol {
    /// The path of the module that defines the subroutine.
    pub module: &'static str,
    /// The package that the subroutine names for itself, if it names one.
    pub package: Option<&'static str>,
    /// The name of the subroutine.
    pub name: &'static str,
    /// The number under which the loader knows the entry point.
    pub ptr: usize,
}

/// The package under which the subroutines of a module are registered.
#[derive(Debug)]
pub struct Package {
    /// The path of the module.
    pub module: &'static str,
    /// The name of the package.
    pub package: &'static str,
}

/// The package that `packages` give for the module `module`: where
/// several name the module, the last of them counts.
pub open spec fn rewrite_for(packages: Seq<Package>, module: Seq<char>) -> Option<Seq<char>>
    decreases packages.len(),
{
    if packages.len() == 0 {
        None
    } else if packages.last().module@ == module {
        Some(packages.last().package@)
    } else {
        rewrite_for(packages.drop_last(), module)
    }
}

/// The separator of the segments of a path.
pub open spec fn sep() -> Seq<char> {
    seq![':', ':']
}

/// The name under which the nearest enclosing module of `module` that
/// `packages` name a package for puts what `module` defines: the package,
/// and behind it the segments that were cut off on the way up, in the
/// order in which they were cut off. `parts` holds the segments cut off
/// so far.
pub open spec fn climbed(packages: Seq<Package>, module: Seq<char>, parts: Seq<Seq<char>>) -> Option<
    Seq<char>,
>
    decreases module.len(),
{
    match last_occurrence(module, sep(), module.len() as int) {
        None => None,
        Some(i) => {
            if 0 <= i < module.len() {
                let rest = module.take(i);
                let cut = parts.push(module.skip(i + 2));
                match rewrite_for(packages, rest) {
                    Some(package) => Some(package + sep() + joined(cut, sep())),
                    None => climbed(packages, rest, cut),
                }
            } else {
                None
            }
        },
    }
}

/// The name under which `symbol` is registered: the package that it
/// names, with the blanks around separators taken out; else the package
/// that `packages` give for its module, or for the nearest enclosing
/// module; else the path of its module; and behind that a separator and
/// the name of the subroutine.
pub open spec fn qualified(symbol: Symbol, packages: Seq<Package>) -> Seq<char> {
    let base = match symbol.package {
        Some(package) => replaced(package@, seq![' ', ':', ':', ' '], sep()),
        None => match rewrite_for(packages, symbol.module@) {
            Some(package) => package,
            None => match climbed(packages, symbol.module@, Seq::empty()) {
                Some(name) => name,
                None => symbol.module@,
            },
        },
    };
    base + sep() + symbol.name@
}

/// What the references of `packages` refer to.
pub open spec fn referents(packages: Seq<&Package>) -> Seq<Package> {
    packages.map_values(|p: &Package| *p)
}

fn package_rewrite<'a>(packages: &Vec<&'a Package>, module: &str) -> (r: Option<&'a str>)
    ensures
        match r {
            Some(package) => rewrite_for(referents(packages@), module@) == Some(package@),
            None => rewrite_for(referents(packages@), module@) is None,
        },
{
    let ghost all = referents(packages@);
    let mut i: usize = packages.len();
    assert(all.take(i as int) =~= all);
    while i > 0
        invariant
            all == referents(packages@),
            i <= packages@.len(),
            rewrite_for(all, module@) == rewrite_for(all.take(i as int), module@),
        decreases i,
    {
        let candidate = packages[i - 1];
        proof {
            assert(all.take(i as int).last() == *packages@[i - 1]);
            assert(all.take(i as int).drop_last() =~= all.take(i - 1));
        }
        if String::from_str(candidate.module) == String::from_str(module) {
            return Some(candidate.package);
        }
        i -= 1;
    }
    None
}

/// The name under which `symbol` is registered.
pub fn symbol_name(symbol: &Symbol, packages: &Vec<&Package>) -> (r: String)
    ensures
        r@ == qualified(*symbol, referents(packages@)),
{
    proof {
        reveal_strlit("::");
        reveal_strlit(" :: ");
        assert("::"@ =~= sep());
        assert(" :: "@ =~= seq![' ', ':', ':', ' ']);
    }
    let mut symbol_name: String;
    if let Some(package) = symbol.package {
        symbol_name = replace(package, " :: ", "::");
    } else if let Some(package_rewrite) = package_rewrite(packages, symbol.module) {
        symbol_name = String::from_str(package_rewrite);
    } else {
        symbol_name = String::from_str(symbol.module);
        let mut module_name: &str = symbol.module;
        let mut non_aliased_parts: Vec<&str> = Vec::new();
        assert(views(non_aliased_parts@) =~= Seq::<Seq<char>>::empty());
        loop
            invariant_except_break
                symbol_name@ == symbol.module@,
                climbed(referents(packages@), symbol.module@, Seq::empty()) == climbed(
                    referents(packages@),
                    module_name@,
                    views(non_aliased_parts@),
                ),
            invariant
                "::"@ == sep(),
            ensures
                symbol_name@ == match climbed(referents(packages@), symbol.module@, Seq::empty()) {
                    Some(name) => name,
                    None => symbol.module@,
                },
            decreases module_name@.len(),
        {
            match rfind(module_name, "::") {
                None => {
                    break ;
                },
                Some(i) => {
                    let n = module_name.unicode_len();
                    let spill = module_name.substring_char(i + 2, n);
                    let module_name_part = module_name.substring_char(0, i);
                    let ghost before = views(non_aliased_parts@);
                    non_aliased_parts.push(spill);
                    proof {
                        assert(views(non_aliased_parts@) =~= before.push(module_name@.skip(i + 2)));
                        assert(module_name_part@ =~= module_name@.take(i as int));
                    }
                    if let Some(package_rewrite) = package_rewrite(packages, module_name_part) {
                        symbol_name = String::from_str(package_rewrite);
                        symbol_name.append("::");
                        push_joined(&mut symbol_name, non_aliased_parts.as_slice(), "::");
                        break ;
                    }
                    module_name = module_name_part;
                },
            }
        }
    }
    symbol_name.append("::");
    symbol_name.append(symbol.name);
    symbol_name
}

/// What a walk of the list yields: the items of the nodes that it passes.
pub open spec fn drained<T>(r: RegistryView<T>) -> Seq<T> {
    Seq::new(r.visible().len(), |i: int| r.items[r.visible()[i] as int])
}

/// The world after the first `n` of `symbols` were registered.
pub open spec fn booted(w: World, symbols: Seq<Symbol>, packages: Seq<Package>, n: int) -> World
    decreases n,
{
    if n <= 0 {
        w
    } else {
        booted(w, symbols, packages, n - 1).sub_registered(
            qualified(symbols[n - 1], packages),
            symbols[n - 1].ptr,
        )
    }
}

/// Registers every subroutine that a walk of `symbols` yields with the
/// host, each under the name that it and `packages` give.
pub fn boot(
    ctx: &mut Context,
    _package: &'static str,
    symbols: &Registry<Symbol>,
    packages: &Registry<Package>,
)
    requires
        old(ctx).wf(),
        symbols@.wf(),
        packages@.wf(),
    ensures
        final(ctx).perl@ == booted(
            old(ctx).perl@,
            drained(symbols@),
            drained(packages@),
            drained(symbols@).len() as int,
        ),
        final(ctx).wf(),
        final(ctx).entry == old(ctx).entry,
{
    let package_rewrites = packages.collect();
    let found = symbols.collect();
    proof {
        assert(referents(package_rewrites@) =~= drained(packages@));
    }
    let n = found.len();
    let mut i: usize = 0;
    while i < n
        invariant
            n == found@.len(),
            n == drained(symbols@).len(),
            i <= n,
            forall|j: int| 0 <= j < n ==> *#[trigger] found@[j] == drained(symbols@)[j],
            referents(package_rewrites@) == drained(packages@),
            ctx.wf(),
            ctx.entry == old(ctx).entry,
            ctx.perl@ == booted(old(ctx).perl@, drained(symbols@), drained(packages@), i as int),
        decreases n - i,
    {
        let symbol = found[i];
        let symbol_name = symbol_name(symbol, &package_rewrites);
        ctx.new_xs(symbol_name.as_str(), symbol.ptr);
        i += 1;
    }
}

} // verus!
