use perl_xs::convert::{FromSV, IntoSV, TryFromSV};
use perl_xs::raw::Interpreter;
use perl_xs::scalar::{decode, Defined};
use perl_xs::{AV, HV, IV, NV, SV, UV};

#[test]
fn integer_scalar_has_the_integer_tag_only() {
    let mut perl = Interpreter::new();
    let sv = (-1 as IV).into_sv(&mut perl);
    assert!(sv.ok(&perl));
    assert!(sv.iv_ok(&perl));
    assert!(!sv.uv_ok(&perl));
    assert!(!sv.nv_ok(&perl));
    assert!(!sv.pv_ok(&perl));
    assert!(!sv.rv_ok(&perl));
    assert!(!sv.utf8(&perl));
    assert_eq!(sv.iv(&perl), -1);
    assert!(sv.is_scalar(&perl));
    assert!(!sv.is_array(&perl));
    assert!(!sv.is_hash(&perl));
    assert!(!sv.is_code(&perl));
    assert!(!sv.is_glob(&perl));
}

#[test]
fn unsigned_and_float_scalars_read_back() {
    let mut perl = Interpreter::new();
    let u = (42 as UV).into_sv(&mut perl);
    assert!(u.uv_ok(&perl));
    assert!(!u.iv_ok(&perl));
    assert_eq!(u.uv(&perl), 42);
    let x: f64 = 2.5;
    let n = NV::from_bits(x.to_bits()).into_sv(&mut perl);
    assert!(n.nv_ok(&perl));
    assert_eq!(f64::from_bits(n.nv(&perl).to_bits()), 2.5);
}

#[test]
fn mismatched_read_is_silently_zero() {
    let mut perl = Interpreter::new();
    let s = "12".into_sv(&mut perl);
    assert_eq!(s.iv(&perl), 0);
    assert_eq!(s.uv(&perl), 0);
    assert_eq!(s.nv(&perl).to_bits(), 0);
    let i = (5 as IV).into_sv(&mut perl);
    assert_eq!(i.to_vec(&perl), Vec::<u8>::new());
}

#[test]
fn truth_values_read_as_integer_and_string() {
    let mut perl = Interpreter::new();
    let yes = true.into_sv(&mut perl);
    let no = false.into_sv(&mut perl);
    assert!(yes.iv_ok(&perl) && yes.nv_ok(&perl) && yes.pv_ok(&perl));
    assert_eq!(yes.iv(&perl), 1);
    assert_eq!(no.iv(&perl), 0);
    assert_eq!(yes.to_vec(&perl), b"1".to_vec());
    assert_eq!(no.to_vec(&perl), b"".to_vec());
    assert_eq!(f64::from_bits(yes.nv(&perl).to_bits()), 1.0);
    assert_eq!(f64::from_bits(no.nv(&perl).to_bits()), 0.0);
}

#[test]
fn text_is_stored_as_utf8_and_marked() {
    let mut perl = Interpreter::new();
    let sv = "h\u{e9}llo".into_sv(&mut perl);
    assert!(sv.pv_ok(&perl));
    assert!(sv.utf8(&perl));
    assert_eq!(sv.to_vec(&perl), vec![0x68, 0xc3, 0xa9, 0x6c, 0x6c, 0x6f]);
    assert_eq!(sv.to_string(&perl).unwrap(), "h\u{e9}llo");
    let owned = String::from("Nu intra i\u{0302}n panica\u{0306}").into_sv(&mut perl);
    assert_eq!(owned.to_string(&perl).unwrap(), "Nu intra i\u{0302}n panica\u{0306}");
}

#[test]
fn none_becomes_undef() {
    let mut perl = Interpreter::new();
    let none: Option<IV> = None;
    let sv = none.into_sv(&mut perl);
    assert!(!sv.ok(&perl));
    let some = Some(9 as IV).into_sv(&mut perl);
    assert!(some.ok(&perl));
    assert_eq!(some.iv(&perl), 9);
}

#[test]
fn decode_turns_bytes_into_text() {
    let s = decode(vec![0xe3, 0x81, 0x82, 0x21]).unwrap();
    assert_eq!(s, "\u{3042}!");
    assert_eq!(s.chars().count(), 2);
}

#[test]
fn decode_reports_the_longest_valid_prefix() {
    let e = decode(vec![0x61, 0x62, 0xff, 0x63]).unwrap_err();
    assert_eq!(e.valid_up_to(), 2);
    assert_eq!(e.to_string(), "invalid utf-8 sequence from index 2");
    let cut = decode(vec![0x61, 0xc3]).unwrap_err();
    assert_eq!(cut.valid_up_to(), 1);
    let at_start = decode(vec![0x80]).unwrap_err();
    assert_eq!(at_start.valid_up_to(), 0);
}

#[test]
fn scalar_with_invalid_bytes_does_not_convert_to_string() {
    let mut perl = Interpreter::new();
    let p = perl.new_sv_pvn(&[0x66, 0x6f, 0x80], false);
    let r = <String as TryFromSV>::try_from_sv(&mut perl, p);
    assert_eq!(r.unwrap_err(), "invalid utf-8 sequence from index 2");
    let sv = SV::from_raw_owned(&mut perl, p);
    assert_eq!(sv.to_string(&perl).unwrap_err().valid_up_to(), 2);
    assert!(!sv.utf8(&perl));
}

#[test]
fn checked_conversion_equals_unchecked_conversion() {
    let mut perl = Interpreter::new();
    let i = perl.new_sv_iv(-17);
    let u = perl.new_sv_uv(17);
    let t = perl.new_sv_pvn(b"x", true);
    for p in [i, u, t] {
        let fast = <IV as FromSV>::from_sv(&mut perl, p);
        let checked = <IV as TryFromSV>::try_from_sv(&mut perl, p);
        assert_eq!(checked, Ok(fast));
        let fast = <UV as FromSV>::from_sv(&mut perl, p);
        let checked = <UV as TryFromSV>::try_from_sv(&mut perl, p);
        assert_eq!(checked, Ok(fast));
        let fast = <NV as FromSV>::from_sv(&mut perl, p);
        let checked = <NV as TryFromSV>::try_from_sv(&mut perl, p);
        assert_eq!(checked, Ok(fast));
    }
    assert_eq!(<IV as FromSV>::from_sv(&mut perl, i), -17);
    assert_eq!(<UV as FromSV>::from_sv(&mut perl, u), 17);
    let before = perl.sv_refcnt(i);
    let fast = <SV as FromSV>::from_sv(&mut perl, i);
    let checked = <SV as TryFromSV>::try_from_sv(&mut perl, i).unwrap();
    assert_eq!(fast.as_ptr(), checked.as_ptr());
    assert_eq!(perl.sv_refcnt(i), before + 2);
}

#[test]
fn boolean_reads_by_truth_and_rejects_references() {
    let mut perl = Interpreter::new();
    let zero = perl.new_sv_iv(0);
    let five = perl.new_sv_iv(5);
    let empty = perl.new_sv_pvn(b"", false);
    let zero_text = perl.new_sv_pvn(b"0", false);
    let text = perl.new_sv_pvn(b"00", false);
    let undef = perl.sv_undef();
    let neg_zero = perl.new_sv_nv(NV::from_bits((-0.0f64).to_bits()));
    let half = perl.new_sv_nv(NV::from_bits((0.5f64).to_bits()));
    assert_eq!(bool::try_from_sv(&mut perl, zero), Ok(false));
    assert_eq!(bool::try_from_sv(&mut perl, five), Ok(true));
    assert_eq!(bool::try_from_sv(&mut perl, empty), Ok(false));
    assert_eq!(bool::try_from_sv(&mut perl, zero_text), Ok(false));
    assert_eq!(bool::try_from_sv(&mut perl, text), Ok(true));
    assert_eq!(bool::try_from_sv(&mut perl, undef), Ok(false));
    assert_eq!(bool::try_from_sv(&mut perl, neg_zero), Ok(false));
    assert_eq!(bool::try_from_sv(&mut perl, half), Ok(true));
    let rv = perl.new_rv_noinc(five);
    assert_eq!(bool::try_from_sv(&mut perl, rv), Err(String::from("not a boolean")));
}

#[test]
fn references_dereference_to_what_they_refer_to() {
    let mut perl = Interpreter::new();
    let inner = (5 as IV).into_sv(&mut perl);
    let inner_ptr = inner.as_ptr();
    let rv = inner.into_ref(&mut perl);
    assert!(rv.rv_ok(&perl));
    assert_eq!(perl.sv_refcnt(inner_ptr), 1);
    let back = rv.deref(&mut perl).unwrap();
    assert_eq!(back.as_ptr(), inner_ptr);
    assert_eq!(back.iv(&perl), 5);
    assert_eq!(perl.sv_refcnt(inner_ptr), 2);
    assert!(back.deref(&mut perl).is_none());
    back.drop(&mut perl);
    assert_eq!(perl.sv_refcnt(inner_ptr), 1);
}

#[test]
fn array_reference_converts_to_array_handle() {
    let mut perl = Interpreter::new();
    let av = perl.new_av();
    let rv = perl.new_rv_noinc(av);
    let handle = AV::try_from_sv(&mut perl, rv).unwrap();
    assert_eq!(handle.as_ptr(), av);
    assert_eq!(perl.sv_refcnt(av), 2);
    assert_eq!(HV::try_from_sv(&mut perl, rv).err(), Some(String::from("not a hash reference")));
    let plain = perl.new_sv_iv(1);
    assert_eq!(AV::try_from_sv(&mut perl, plain).err(), Some(String::from("not an array reference")));
    assert_eq!(HV::try_from_sv(&mut perl, plain).err(), Some(String::from("not a hash reference")));
    let hv = perl.new_hv();
    let hrv = perl.new_rv_noinc(hv);
    assert_eq!(AV::try_from_sv(&mut perl, hrv).err(), Some(String::from("not an array reference")));
    assert_eq!(HV::try_from_sv(&mut perl, hrv).unwrap().as_ptr(), hv);
}

#[test]
fn into_av_and_into_hv_check_the_kind() {
    let mut perl = Interpreter::new();
    let av = perl.new_av();
    let rv_ptr = perl.new_rv_noinc(av);
    let rv = SV::from_raw_owned(&mut perl, rv_ptr);
    let target = rv.deref(&mut perl).unwrap();
    assert!(target.is_array(&perl));
    assert!(!target.is_scalar(&perl));
    let as_av = target.into_av(&mut perl).unwrap();
    assert_eq!(as_av.top_index(&perl), -1);
    assert_eq!(perl.sv_refcnt(av), 2);
    let again = rv.deref(&mut perl).unwrap();
    assert!(again.into_hv(&mut perl).is_none());
    assert_eq!(perl.sv_refcnt(av), 2);
}

#[test]
fn bless_names_the_package_of_the_referent() {
    let mut perl = Interpreter::new();
    let inner = perl.new_sv_iv(1);
    let rv_ptr = perl.new_rv_noinc(inner);
    let rv = SV::from_raw_owned(&mut perl, rv_ptr);
    assert_eq!(perl.sv_package(inner), None);
    let rv = rv.bless(&mut perl, "Counter");
    assert_eq!(perl.sv_package(inner), Some(String::from("Counter")));
    assert_eq!(perl.sv_package(rv.as_ptr()), None);
}

#[test]
fn as_slice_shows_the_bytes_in_place() {
    let mut perl = Interpreter::new();
    let t = "abc".into_sv(&mut perl);
    let yes = true.into_sv(&mut perl);
    let i = (1 as IV).into_sv(&mut perl);
    assert_eq!(t.as_slice(&perl), b"abc");
    assert_eq!(t.as_slice(&perl).len(), 3);
    assert_eq!(yes.as_slice(&perl), b"1");
    assert_eq!(i.as_slice(&perl), b"");
}

#[test]
fn deref_av_and_deref_hv_follow_references_by_kind() {
    let mut perl = Interpreter::new();
    let av = perl.new_av();
    let rv_ptr = perl.new_rv_noinc(av);
    let rv = SV::from_raw_owned(&mut perl, rv_ptr);
    let handle = rv.deref_av(&mut perl).unwrap();
    assert_eq!(handle.as_ptr(), av);
    assert_eq!(perl.sv_refcnt(av), 2);
    assert!(rv.deref_hv(&mut perl).is_none());
    assert_eq!(perl.sv_refcnt(av), 2);
    let plain = (1 as IV).into_sv(&mut perl);
    assert!(plain.deref_av(&mut perl).is_none());
    assert!(plain.deref_hv(&mut perl).is_none());
    let hv = perl.new_hv();
    let hrv_ptr = perl.new_rv_noinc(hv);
    let hrv = SV::from_raw_owned(&mut perl, hrv_ptr);
    assert_eq!(hrv.deref_hv(&mut perl).unwrap().as_ptr(), hv);
    assert!(hrv.deref_av(&mut perl).is_none());
}

#[test]
fn integers_of_every_width_convert() {
    let mut perl = Interpreter::new();
    let a = (-8i8).into_sv(&mut perl);
    let b = (-16i16).into_sv(&mut perl);
    let c = (-32i32).into_sv(&mut perl);
    let d = (isize::MIN).into_sv(&mut perl);
    assert_eq!(a.iv(&perl), -8);
    assert_eq!(b.iv(&perl), -16);
    assert_eq!(c.iv(&perl), -32);
    assert_eq!(d.iv(&perl), isize::MIN as IV);
    assert!(a.iv_ok(&perl) && !a.uv_ok(&perl));
    let e = 8u8.into_sv(&mut perl);
    let f = 16u16.into_sv(&mut perl);
    let g = 32u32.into_sv(&mut perl);
    let h = usize::MAX.into_sv(&mut perl);
    assert_eq!(e.uv(&perl), 8);
    assert_eq!(f.uv(&perl), 16);
    assert_eq!(g.uv(&perl), 32);
    assert_eq!(h.uv(&perl), usize::MAX as UV);
    assert!(h.uv_ok(&perl) && !h.iv_ok(&perl));
}

#[test]
fn defined_values_are_some_and_undef_is_none() {
    let mut perl = Interpreter::new();
    let av_raw = perl.new_av();
    let av = AV::from_raw_owned(&mut perl, av_raw);
    let five = (5 as IV).into_sv(&mut perl);
    av.push(&mut perl, five);
    let undef = perl.sv_undef();
    let undef = SV::from_raw_owned(&mut perl, undef);
    av.push(&mut perl, undef);
    let seven = (7 as UV).into_sv(&mut perl);
    av.push(&mut perl, seven);
    assert_eq!(av.fetch::<Defined<IV>>(&mut perl, 0).map(|d| d.0), Some(Some(5)));
    assert_eq!(av.fetch::<Defined<IV>>(&mut perl, 1).map(|d| d.0), Some(None));
    assert_eq!(av.fetch::<Defined<UV>>(&mut perl, 2).map(|d| d.0), Some(Some(7)));
    assert_eq!(av.fetch::<Defined<NV>>(&mut perl, 1).map(|d| d.0), Some(None));
    assert_eq!(av.fetch::<Defined<NV>>(&mut perl, 0).map(|d| d.0.map(|n| n.to_bits())), Some(Some(0)));
    assert!(av.fetch::<Defined<IV>>(&mut perl, 3).is_none());
}
