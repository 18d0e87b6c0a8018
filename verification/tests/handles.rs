use perl_xs::handle::{Owned, Ref};
use perl_xs::raw;
use perl_xs::raw::Interpreter;
use perl_xs::SV;

#[test]
fn fresh_scalar_carries_one_unit() {
    let mut perl = Interpreter::new();
    let p = perl.new_sv_iv(7);
    assert_eq!(p, 0);
    assert_eq!(perl.sv_refcnt(p), 1);
    assert_eq!(perl.heap_len(), 1);
}

#[test]
fn from_raw_owned_leaves_the_count() {
    let mut perl = Interpreter::new();
    let p = perl.new_sv_iv(7);
    let h: Owned<raw::SV> = Owned::from_raw_owned(&mut perl, p);
    assert_eq!(h.as_ptr(), p);
    assert_eq!(perl.sv_refcnt(p), 1);
    h.drop(&mut perl);
    assert_eq!(perl.sv_refcnt(p), 0);
}

#[test]
fn from_raw_borrowed_raises_the_count() {
    let mut perl = Interpreter::new();
    let p = perl.new_sv_iv(7);
    let h: Owned<raw::SV> = Owned::from_raw_borrowed(&mut perl, p);
    assert_eq!(perl.sv_refcnt(p), 2);
    h.drop(&mut perl);
    assert_eq!(perl.sv_refcnt(p), 1);
}

#[test]
fn count_returns_to_start_after_borrow_copy_drop() {
    let mut perl = Interpreter::new();
    let p = perl.new_sv_uv(3);
    let start = perl.sv_refcnt(p);
    let a: Owned<raw::SV> = Owned::from_raw_borrowed(&mut perl, p);
    let b = a.deref().to_owned(&mut perl);
    let c = b.deref().to_owned(&mut perl);
    assert_eq!(perl.sv_refcnt(p), start + 3);
    b.drop(&mut perl);
    assert!(perl.sv_refcnt(p) > 0);
    let d: Owned<raw::SV> = Owned::from_raw_borrowed(&mut perl, p);
    a.drop(&mut perl);
    assert!(perl.sv_refcnt(p) > 0);
    c.drop(&mut perl);
    assert!(perl.sv_refcnt(p) > 0);
    d.drop(&mut perl);
    assert_eq!(perl.sv_refcnt(p), start);
}

#[test]
fn handle_that_took_over_a_unit_ends_the_object() {
    let mut perl = Interpreter::new();
    let p = perl.new_sv_uv(3);
    let a: Owned<raw::SV> = Owned::from_raw_owned(&mut perl, p);
    let b = a.deref().to_owned(&mut perl);
    assert_eq!(perl.sv_refcnt(p), 2);
    a.drop(&mut perl);
    assert_eq!(perl.sv_refcnt(p), 1);
    b.drop(&mut perl);
    assert_eq!(perl.sv_refcnt(p), 0);
}

#[test]
fn into_raw_keeps_the_unit() {
    let mut perl = Interpreter::new();
    let p = perl.new_sv_iv(1);
    let h: Owned<raw::SV> = Owned::from_raw_owned(&mut perl, p);
    let raw = h.into_raw(&mut perl);
    assert_eq!(raw, p);
    assert_eq!(perl.sv_refcnt(p), 1);
    let again: Owned<raw::SV> = Owned::from_raw_owned(&mut perl, raw);
    again.drop(&mut perl);
    assert_eq!(perl.sv_refcnt(p), 0);
}

#[test]
fn incref_and_decref_move_the_count_by_one() {
    let mut perl = Interpreter::new();
    let p = perl.new_sv_iv(1);
    let r: Ref<raw::SV> = Ref::from_raw(p);
    assert_eq!(r.as_ptr(), p);
    r.incref(&mut perl);
    assert_eq!(perl.sv_refcnt(p), 2);
    r.decref(&mut perl);
    assert_eq!(perl.sv_refcnt(p), 1);
}

#[test]
fn sv_clone_shares_the_scalar() {
    let mut perl = Interpreter::new();
    let p = perl.new_sv_iv(11);
    let a = SV::from_raw_owned(&mut perl, p);
    let b = a.clone(&mut perl);
    assert_eq!(a.as_ptr(), b.as_ptr());
    assert_eq!(perl.sv_refcnt(p), 2);
    assert_eq!(b.iv(&perl), 11);
    a.drop(&mut perl);
    assert_eq!(b.iv(&perl), 11);
    b.drop(&mut perl);
    assert_eq!(perl.sv_refcnt(p), 0);
}
