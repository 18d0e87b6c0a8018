use perl_xs::convert::IntoSV;
use perl_xs::raw::model::AV_MAX_INDEX;
use perl_xs::raw::Interpreter;
use perl_xs::{AV, IV, NV, SV, UV};

fn new_array(perl: &mut Interpreter) -> AV {
    let raw = perl.new_av();
    AV::from_raw_owned(perl, raw)
}

#[test]
fn empty_array_has_top_index_minus_one() {
    let mut perl = Interpreter::new();
    let av = new_array(&mut perl);
    assert_eq!(av.top_index(&perl), -1);
    assert_eq!(av.fetch::<IV>(&mut perl, 0), None);
    assert_eq!(av.pop::<IV>(&mut perl), None);
    assert_eq!(av.shift::<IV>(&mut perl), None);
    assert!(!av.exists_at(&perl, 0));
}

#[test]
fn store_then_fetch_gives_the_value_back() {
    let mut perl = Interpreter::new();
    let av = new_array(&mut perl);
    for i in 0..5 {
        let v = ((i * 10) as IV).into_sv(&mut perl);
        av.store(&mut perl, i as isize, v);
    }
    assert_eq!(av.top_index(&perl), 4);
    for i in 0..=av.top_index(&perl) {
        let v = (-(i as IV) - 1).into_sv(&mut perl);
        av.store(&mut perl, i, v);
        assert_eq!(av.fetch::<IV>(&mut perl, i), Some(-(i as IV) - 1));
    }
    let u = (u64::MAX as UV).into_sv(&mut perl);
    av.store(&mut perl, 2, u);
    assert_eq!(av.fetch::<UV>(&mut perl, 2), Some(u64::MAX));
    let x: f64 = 42.0f64.powf(0.5);
    let n = NV::from_bits(x.to_bits()).into_sv(&mut perl);
    av.store(&mut perl, 3, n);
    assert_eq!(av.fetch::<NV>(&mut perl, 3).map(|n| f64::from_bits(n.to_bits())), Some(x));
    assert_eq!(av.top_index(&perl), 4);
}

#[test]
fn store_replaces_and_releases_the_old_element() {
    let mut perl = Interpreter::new();
    let av = new_array(&mut perl);
    let old = (1 as IV).into_sv(&mut perl);
    let keep = old.clone(&mut perl);
    let old_ptr = old.as_ptr();
    av.store(&mut perl, 0, old);
    assert_eq!(perl.sv_refcnt(old_ptr), 2);
    let new = (2 as IV).into_sv(&mut perl);
    let new_ptr = new.as_ptr();
    av.store(&mut perl, 0, new);
    assert_eq!(perl.sv_refcnt(old_ptr), 1);
    assert_eq!(perl.sv_refcnt(new_ptr), 1);
    assert_eq!(av.fetch::<IV>(&mut perl, 0), Some(2));
    assert_eq!(keep.iv(&perl), 1);
}

#[test]
fn refused_store_gives_the_unit_back() {
    let mut perl = Interpreter::new();
    let av = new_array(&mut perl);
    let v = (1 as IV).into_sv(&mut perl);
    let keep = v.clone(&mut perl);
    let p = v.as_ptr();
    assert_eq!(perl.sv_refcnt(p), 2);
    av.store(&mut perl, -1, v);
    assert_eq!(perl.sv_refcnt(p), 1);
    assert_eq!(av.top_index(&perl), -1);
    let again = keep.clone(&mut perl);
    av.store(&mut perl, AV_MAX_INDEX + 1, again);
    assert_eq!(perl.sv_refcnt(p), 1);
    assert_eq!(av.top_index(&perl), -1);
    keep.drop(&mut perl);
    assert_eq!(perl.sv_refcnt(p), 0);
}

#[test]
fn holes_and_indices_beyond_the_top_fetch_nothing() {
    let mut perl = Interpreter::new();
    let av = new_array(&mut perl);
    let v = (7 as IV).into_sv(&mut perl);
    av.store(&mut perl, 3, v);
    assert_eq!(av.top_index(&perl), 3);
    assert_eq!(av.fetch::<IV>(&mut perl, 0), None);
    assert_eq!(av.fetch::<IV>(&mut perl, 1), None);
    assert_eq!(av.fetch::<IV>(&mut perl, 2), None);
    assert_eq!(av.fetch::<IV>(&mut perl, 3), Some(7));
    assert_eq!(av.fetch::<IV>(&mut perl, 4), None);
    assert_eq!(av.fetch::<IV>(&mut perl, isize::MAX), None);
    assert_eq!(av.fetch::<IV>(&mut perl, -1), None);
    assert!(!av.exists_at(&perl, 2));
    assert!(av.exists_at(&perl, 3));
    let undef = perl.sv_undef();
    let undef = SV::from_raw_owned(&mut perl, undef);
    av.store(&mut perl, 1, undef);
    assert!(av.exists_at(&perl, 1));
    let held = av.fetch::<SV>(&mut perl, 1).unwrap();
    assert!(!held.ok(&perl));
}

#[test]
fn fetch_of_a_handle_takes_a_unit() {
    let mut perl = Interpreter::new();
    let av = new_array(&mut perl);
    let v = (7 as IV).into_sv(&mut perl);
    let p = v.as_ptr();
    av.store(&mut perl, 0, v);
    assert_eq!(perl.sv_refcnt(p), 1);
    let a = av.fetch::<SV>(&mut perl, 0).unwrap();
    assert_eq!(a.as_ptr(), p);
    assert_eq!(perl.sv_refcnt(p), 2);
    a.drop(&mut perl);
    assert_eq!(perl.sv_refcnt(p), 1);
}

#[test]
fn push_pop_shift_work_at_both_ends() {
    let mut perl = Interpreter::new();
    let av = new_array(&mut perl);
    for i in 1..=4 {
        let v = (i as IV).into_sv(&mut perl);
        av.push(&mut perl, v);
    }
    assert_eq!(av.top_index(&perl), 3);
    assert_eq!(av.pop::<IV>(&mut perl), Some(4));
    assert_eq!(av.shift::<IV>(&mut perl), Some(1));
    assert_eq!(av.top_index(&perl), 1);
    assert_eq!(av.fetch::<IV>(&mut perl, 0), Some(2));
    assert_eq!(av.fetch::<IV>(&mut perl, 1), Some(3));
    assert_eq!(av.pop::<IV>(&mut perl), Some(3));
    assert_eq!(av.pop::<IV>(&mut perl), Some(2));
    assert_eq!(av.pop::<IV>(&mut perl), None);
    assert_eq!(av.top_index(&perl), -1);
}

#[test]
fn pop_hands_the_unit_to_the_handle() {
    let mut perl = Interpreter::new();
    let av = new_array(&mut perl);
    let v = (9 as IV).into_sv(&mut perl);
    let p = v.as_ptr();
    av.push(&mut perl, v);
    let got = av.pop::<SV>(&mut perl).unwrap();
    assert_eq!(got.as_ptr(), p);
    assert_eq!(perl.sv_refcnt(p), 1);
    got.drop(&mut perl);
    assert_eq!(perl.sv_refcnt(p), 0);
    let w = (10 as IV).into_sv(&mut perl);
    let q = w.as_ptr();
    av.push(&mut perl, w);
    assert_eq!(av.pop::<IV>(&mut perl), Some(10));
    assert_eq!(perl.sv_refcnt(q), 0);
}

#[test]
fn pop_and_delete_trim_trailing_holes() {
    let mut perl = Interpreter::new();
    let av = new_array(&mut perl);
    let a = (1 as IV).into_sv(&mut perl);
    av.store(&mut perl, 0, a);
    let b = (2 as IV).into_sv(&mut perl);
    av.store(&mut perl, 5, b);
    assert_eq!(av.top_index(&perl), 5);
    assert_eq!(av.pop::<IV>(&mut perl), Some(2));
    assert_eq!(av.top_index(&perl), 0);
    let c = (3 as IV).into_sv(&mut perl);
    av.store(&mut perl, 2, c);
    assert_eq!(av.delete::<IV>(&mut perl, 1), None);
    assert_eq!(av.top_index(&perl), 2);
    assert_eq!(av.delete::<IV>(&mut perl, 2), Some(3));
    assert_eq!(av.top_index(&perl), 0);
    assert_eq!(av.delete::<IV>(&mut perl, 0), Some(1));
    assert_eq!(av.top_index(&perl), -1);
}

#[test]
fn delete_in_the_middle_leaves_a_hole() {
    let mut perl = Interpreter::new();
    let av = new_array(&mut perl);
    for i in 0..3 {
        let v = (i as IV).into_sv(&mut perl);
        av.push(&mut perl, v);
    }
    assert_eq!(av.delete::<IV>(&mut perl, 1), Some(1));
    assert_eq!(av.top_index(&perl), 2);
    assert!(!av.exists_at(&perl, 1));
    assert_eq!(av.fetch::<IV>(&mut perl, 1), None);
    assert_eq!(av.fetch::<IV>(&mut perl, 2), Some(2));
}

#[test]
fn discard_releases_without_converting() {
    let mut perl = Interpreter::new();
    let av = new_array(&mut perl);
    let v = (5 as IV).into_sv(&mut perl);
    let w = (6 as IV).into_sv(&mut perl);
    let p = v.as_ptr();
    av.push(&mut perl, v);
    av.push(&mut perl, w);
    av.discard(&mut perl, 0);
    assert_eq!(perl.sv_refcnt(p), 0);
    assert!(!av.exists_at(&perl, 0));
    assert_eq!(av.top_index(&perl), 1);
    av.discard(&mut perl, 7);
    assert_eq!(av.top_index(&perl), 1);
}

#[test]
fn shift_of_a_hole_gives_nothing_and_moves_the_rest() {
    let mut perl = Interpreter::new();
    let av = new_array(&mut perl);
    let v = (8 as IV).into_sv(&mut perl);
    av.store(&mut perl, 1, v);
    assert_eq!(av.shift::<IV>(&mut perl), None);
    assert_eq!(av.top_index(&perl), 0);
    assert_eq!(av.fetch::<IV>(&mut perl, 0), Some(8));
}

#[test]
fn unshift_puts_holes_in_front() {
    let mut perl = Interpreter::new();
    let av = new_array(&mut perl);
    av.unshift(&mut perl, 2);
    assert_eq!(av.top_index(&perl), -1);
    let v = (8 as IV).into_sv(&mut perl);
    av.push(&mut perl, v);
    av.unshift(&mut perl, 2);
    assert_eq!(av.top_index(&perl), 2);
    assert_eq!(av.fetch::<IV>(&mut perl, 0), None);
    assert_eq!(av.fetch::<IV>(&mut perl, 1), None);
    assert_eq!(av.fetch::<IV>(&mut perl, 2), Some(8));
    av.unshift(&mut perl, 0);
    assert_eq!(av.top_index(&perl), 2);
    av.unshift(&mut perl, -3);
    assert_eq!(av.top_index(&perl), 2);
    assert_eq!(av.fetch::<IV>(&mut perl, 2), Some(8));
}

#[test]
fn fill_cuts_down_and_releases() {
    let mut perl = Interpreter::new();
    let av = new_array(&mut perl);
    let mut ptrs = Vec::new();
    for i in 0..5 {
        let v = (i as IV).into_sv(&mut perl);
        ptrs.push(v.as_ptr());
        av.push(&mut perl, v);
    }
    av.fill(&mut perl, 9);
    assert_eq!(av.top_index(&perl), 4);
    av.fill(&mut perl, 4);
    assert_eq!(av.top_index(&perl), 4);
    av.fill(&mut perl, 1);
    assert_eq!(av.top_index(&perl), 1);
    assert_eq!(perl.sv_refcnt(ptrs[0]), 1);
    assert_eq!(perl.sv_refcnt(ptrs[1]), 1);
    assert_eq!(perl.sv_refcnt(ptrs[2]), 0);
    assert_eq!(perl.sv_refcnt(ptrs[3]), 0);
    assert_eq!(perl.sv_refcnt(ptrs[4]), 0);
    av.fill(&mut perl, -5);
    assert_eq!(av.top_index(&perl), 1);
    av.fill(&mut perl, -1);
    assert_eq!(av.top_index(&perl), -1);
    assert_eq!(perl.sv_refcnt(ptrs[0]), 0);
}

#[test]
fn clear_and_undef_release_every_element() {
    let mut perl = Interpreter::new();
    let av = new_array(&mut perl);
    let v = (1 as IV).into_sv(&mut perl);
    let p = v.as_ptr();
    let twice = v.clone(&mut perl);
    av.push(&mut perl, v);
    av.store(&mut perl, 4, twice);
    assert_eq!(perl.sv_refcnt(p), 2);
    av.clear(&mut perl);
    assert_eq!(perl.sv_refcnt(p), 0);
    assert_eq!(av.top_index(&perl), -1);
    let w = (2 as IV).into_sv(&mut perl);
    let q = w.as_ptr();
    av.push(&mut perl, w);
    av.extend(&mut perl, 100);
    assert_eq!(av.top_index(&perl), 0);
    av.undef(&mut perl);
    assert_eq!(perl.sv_refcnt(q), 0);
    assert_eq!(av.top_index(&perl), -1);
}

#[test]
fn iteration_goes_by_rising_index_over_holes() {
    let mut perl = Interpreter::new();
    let av = new_array(&mut perl);
    let a = (10 as IV).into_sv(&mut perl);
    av.store(&mut perl, 0, a);
    let b = (30 as IV).into_sv(&mut perl);
    av.store(&mut perl, 2, b);
    let mut it = av.iter::<IV>(&perl);
    assert_eq!(it.next(&mut perl), Some(Some(10)));
    assert_eq!(it.next(&mut perl), Some(None));
    assert_eq!(it.next(&mut perl), Some(Some(30)));
    assert_eq!(it.next(&mut perl), None);
    assert_eq!(it.next(&mut perl), None);
    let mut sum = 0;
    let mut again = av.iter::<IV>(&perl);
    while let Some(item) = again.next(&mut perl) {
        sum += item.unwrap_or(0);
    }
    assert_eq!(sum, 40);
}

#[test]
fn aliases_see_each_others_changes() {
    let mut perl = Interpreter::new();
    let av = new_array(&mut perl);
    let alias = AV::from_raw_borrowed(&mut perl, av.as_ptr());
    let v = (3 as IV).into_sv(&mut perl);
    av.push(&mut perl, v);
    assert_eq!(alias.top_index(&perl), 0);
    assert_eq!(alias.fetch::<IV>(&mut perl, 0), Some(3));
    av.drop(&mut perl);
    assert_eq!(alias.fetch::<IV>(&mut perl, 0), Some(3));
}

#[test]
fn fetch_lvalue_populates_the_slot() {
    let mut perl = Interpreter::new();
    let av = new_array(&mut perl);
    let v = (4 as IV).into_sv(&mut perl);
    av.push(&mut perl, v);
    assert_eq!(av.fetch_lvalue::<IV>(&mut perl, 0), Some(4));
    let made = av.fetch_lvalue::<SV>(&mut perl, 2).unwrap();
    assert!(!made.ok(&perl));
    assert_eq!(perl.sv_refcnt(made.as_ptr()), 2);
    assert_eq!(av.top_index(&perl), 2);
    assert!(av.exists_at(&perl, 2));
    assert!(!av.exists_at(&perl, 1));
    assert!(av.fetch_lvalue::<SV>(&mut perl, -1).is_none());
    assert!(av.fetch_lvalue::<SV>(&mut perl, AV_MAX_INDEX + 1).is_none());
    assert_eq!(av.top_index(&perl), 2);
}
