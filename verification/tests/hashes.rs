use perl_xs::convert::IntoSV;
use perl_xs::raw::Interpreter;
use perl_xs::{HV, IV, SV};

fn new_hash(perl: &mut Interpreter) -> HV {
    let raw = perl.new_hv();
    HV::from_raw_owned(perl, raw)
}

#[test]
fn store_fetch_exists_delete() {
    let mut perl = Interpreter::new();
    let hv = new_hash(&mut perl);
    assert!(!hv.exists_key(&perl, "a"));
    assert_eq!(hv.fetch::<IV>(&mut perl, "a"), None);
    let v = (1 as IV).into_sv(&mut perl);
    hv.store(&mut perl, "a", v);
    let w = (2 as IV).into_sv(&mut perl);
    hv.store(&mut perl, "b", w);
    assert!(hv.exists_key(&perl, "a"));
    assert_eq!(hv.fetch::<IV>(&mut perl, "a"), Some(1));
    assert_eq!(hv.fetch::<IV>(&mut perl, "b"), Some(2));
    assert_eq!(hv.delete::<IV>(&mut perl, "a"), Some(1));
    assert!(!hv.exists_key(&perl, "a"));
    assert_eq!(hv.delete::<IV>(&mut perl, "a"), None);
    assert_eq!(hv.fetch::<IV>(&mut perl, "b"), Some(2));
}

#[test]
fn store_under_a_known_key_releases_the_old_value() {
    let mut perl = Interpreter::new();
    let hv = new_hash(&mut perl);
    let v = (1 as IV).into_sv(&mut perl);
    let p = v.as_ptr();
    hv.store(&mut perl, "k", v);
    assert_eq!(perl.sv_refcnt(p), 1);
    let w = (2 as IV).into_sv(&mut perl);
    let q = w.as_ptr();
    hv.store(&mut perl, "k", w);
    assert_eq!(perl.sv_refcnt(p), 0);
    assert_eq!(perl.sv_refcnt(q), 1);
    assert_eq!(hv.fetch::<IV>(&mut perl, "k"), Some(2));
    assert_eq!(perl.hv_keys(hv.as_ptr()), 1);
}

#[test]
fn keys_may_hold_null_bytes_and_any_text() {
    let mut perl = Interpreter::new();
    let hv = new_hash(&mut perl);
    let a = (1 as IV).into_sv(&mut perl);
    hv.store(&mut perl, "a\0b", a);
    let b = (2 as IV).into_sv(&mut perl);
    hv.store(&mut perl, "a", b);
    let c = (3 as IV).into_sv(&mut perl);
    hv.store(&mut perl, "\u{3042}", c);
    assert_eq!(hv.fetch::<IV>(&mut perl, "a\0b"), Some(1));
    assert_eq!(hv.fetch::<IV>(&mut perl, "a"), Some(2));
    assert_eq!(hv.fetch::<IV>(&mut perl, "\u{3042}"), Some(3));
    assert_eq!(hv.fetch::<IV>(&mut perl, "a\0"), None);
    let mut keys = hv.keys(&mut perl);
    assert_eq!(keys.next(&mut perl), Some(vec![0x61, 0x00, 0x62]));
    assert_eq!(keys.next(&mut perl), Some(vec![0x61]));
    assert_eq!(keys.next(&mut perl), Some(vec![0xe3, 0x81, 0x82]));
    assert_eq!(keys.next(&mut perl), None);
}

#[test]
fn walks_yield_every_entry_once() {
    let mut perl = Interpreter::new();
    let hv = new_hash(&mut perl);
    for (k, n) in [("one", 1), ("two", 2), ("three", 3)] {
        let v = (n as IV).into_sv(&mut perl);
        hv.store(&mut perl, k, v);
    }
    let mut sum = 0;
    let mut n = 0;
    let mut it = hv.iter::<IV>(&mut perl);
    while let Some((k, v)) = it.next(&mut perl) {
        assert_eq!(hv.fetch::<IV>(&mut perl, std::str::from_utf8(&k).unwrap()), Some(v));
        sum += v;
        n += 1;
    }
    assert_eq!((n, sum), (3, 6));
    let mut values = hv.values::<IV>(&mut perl);
    let mut seen = Vec::new();
    while let Some(v) = values.next(&mut perl) {
        seen.push(v);
    }
    seen.sort();
    assert_eq!(seen, vec![1, 2, 3]);
    let mut keys = hv.keys(&mut perl).collect(&mut perl);
    keys.sort();
    assert_eq!(keys, vec![b"one".to_vec(), b"three".to_vec(), b"two".to_vec()]);
}

#[test]
fn starting_a_second_walk_sets_the_first_back() {
    let mut perl = Interpreter::new();
    let hv = new_hash(&mut perl);
    for (k, n) in [("a", 1), ("b", 2)] {
        let v = (n as IV).into_sv(&mut perl);
        hv.store(&mut perl, k, v);
    }
    let mut first = hv.keys(&mut perl);
    assert_eq!(first.next(&mut perl), Some(b"a".to_vec()));
    let mut second = hv.keys(&mut perl);
    assert_eq!(first.next(&mut perl), Some(b"a".to_vec()));
    assert_eq!(second.next(&mut perl), Some(b"b".to_vec()));
    assert_eq!(first.next(&mut perl), None);
}

#[test]
fn values_of_handles_take_units() {
    let mut perl = Interpreter::new();
    let hv = new_hash(&mut perl);
    let v = (1 as IV).into_sv(&mut perl);
    let p = v.as_ptr();
    hv.store(&mut perl, "k", v);
    let mut values = hv.values::<SV>(&mut perl);
    let sv = values.next(&mut perl).unwrap();
    assert_eq!(sv.as_ptr(), p);
    assert_eq!(perl.sv_refcnt(p), 2);
    assert!(values.next(&mut perl).is_none());
    sv.drop(&mut perl);
    let got = hv.delete::<SV>(&mut perl, "k").unwrap();
    assert_eq!(perl.sv_refcnt(p), 1);
    got.drop(&mut perl);
    assert_eq!(perl.sv_refcnt(p), 0);
}

#[test]
fn clear_and_discard_release_values() {
    let mut perl = Interpreter::new();
    let hv = new_hash(&mut perl);
    let a = (1 as IV).into_sv(&mut perl);
    let p = a.as_ptr();
    let b = a.clone(&mut perl);
    let c = (3 as IV).into_sv(&mut perl);
    let q = c.as_ptr();
    hv.store(&mut perl, "a", a);
    hv.store(&mut perl, "b", b);
    hv.store(&mut perl, "c", c);
    assert_eq!(perl.sv_refcnt(p), 2);
    hv.discard(&mut perl, "b");
    assert_eq!(perl.sv_refcnt(p), 1);
    hv.discard(&mut perl, "zzz");
    hv.clear_placeholders(&mut perl);
    assert_eq!(perl.hv_keys(hv.as_ptr()), 2);
    hv.clear(&mut perl);
    assert_eq!(perl.sv_refcnt(p), 0);
    assert_eq!(perl.sv_refcnt(q), 0);
    assert_eq!(perl.hv_keys(hv.as_ptr()), 0);
    assert!(hv.keys(&mut perl).next(&mut perl).is_none());
}

#[test]
fn fetch_lvalue_stores_a_missing_key() {
    let mut perl = Interpreter::new();
    let hv = new_hash(&mut perl);
    let v = (4 as IV).into_sv(&mut perl);
    hv.store(&mut perl, "a", v);
    assert_eq!(hv.fetch_lvalue::<IV>(&mut perl, "a"), Some(4));
    assert!(!hv.exists_key(&perl, "b"));
    let made = hv.fetch_lvalue::<SV>(&mut perl, "b").unwrap();
    assert!(!made.ok(&perl));
    assert!(hv.exists_key(&perl, "b"));
    assert_eq!(perl.sv_refcnt(made.as_ptr()), 2);
    assert_eq!(perl.hv_keys(hv.as_ptr()), 2);
}
