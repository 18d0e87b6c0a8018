use std::cell::Cell;
use std::rc::Rc;

use perl_xs::context::Stackable;
use perl_xs::convert::{IntoSV, TryFromSV};
use perl_xs::croak::{croak, croak_fmt, rethrow_panic, Outcome, Payload};
use perl_xs::pushable::Pushable;
use perl_xs::raw::Interpreter;
use perl_xs::{Context, TryFromContext, AV, IV, NV, SV, UV};

fn call_with(perl: &mut Interpreter, args: &[usize]) {
    for a in args {
        perl.push_arg(*a);
    }
}

#[test]
fn pushed_values_come_back_in_order_with_their_tags() {
    let perl = Interpreter::new();
    let root: f64 = 42.0f64.powf(0.5);
    let perl = Context::wrap(perl, |ctx: &mut Context| {
        ctx.st_push(-1 as IV);
        ctx.st_push(42 as UV);
        ctx.st_push(NV::from_bits(root.to_bits()));
        ctx.st_push("Don't panic!");
        Outcome::Done(())
    });
    let results = perl.results();
    assert_eq!(results.len(), 4);
    assert!(perl.sv_iok(results[0]) && !perl.sv_uok(results[0]) && !perl.sv_nok(results[0]));
    assert_eq!(perl.sv_iv(results[0]), -1);
    assert!(perl.sv_uok(results[1]) && !perl.sv_iok(results[1]));
    assert_eq!(perl.sv_uv(results[1]), 42);
    assert!(perl.sv_nok(results[2]) && !perl.sv_iok(results[2]));
    assert_eq!(f64::from_bits(perl.sv_nv(results[2]).to_bits()), root);
    assert!(perl.sv_pok(results[3]) && perl.sv_utf8(results[3]));
    assert_eq!(perl.sv_pv(results[3]), b"Don't panic!".to_vec());
    for r in results {
        assert_eq!(perl.sv_refcnt(r), 1);
    }
}

#[test]
fn results_are_hidden_until_the_stack_pointer_is_written_back() {
    let perl = Interpreter::new();
    let mut ctx = Context::new(perl);
    ctx.st_push(1 as IV);
    ctx.st_push(true);
    ctx.st_push(false);
    assert_eq!(ctx.perl.results().len(), 0);
    assert_eq!(ctx.perl.putbacks(), 0);
    ctx.st_putback();
    assert_eq!(ctx.perl.results().len(), 3);
    assert_eq!(ctx.perl.putbacks(), 1);
    let perl = ctx.into_inner();
    let results = perl.results();
    assert!(perl.sv_true(results[1]));
    assert!(!perl.sv_true(results[2]));
}

#[test]
fn fetch_reads_arguments_by_position() {
    let mut perl = Interpreter::new();
    let a = perl.new_sv_iv(5);
    let b = perl.new_sv_pvn(b"text", true);
    call_with(&mut perl, &[a, b]);
    let mut ctx = Context::new(perl);
    assert_eq!(ctx.st_items(), 2);
    assert_eq!(ctx.st_fetch::<IV>(0), Some(5));
    assert_eq!(ctx.st_try_fetch::<String>(1), Some(Ok(String::from("text"))));
    assert_eq!(ctx.st_fetch::<IV>(1), Some(0));
    assert_eq!(ctx.st_fetch::<IV>(2), None);
    assert_eq!(ctx.st_fetch::<IV>(-1), None);
    assert_eq!(ctx.st_try_fetch::<String>(2), None);
    assert_eq!(ctx.st_try_fetch::<IV>(0), Some(Ok(5)));
    let sv = ctx.st_fetch::<SV>(0).unwrap();
    assert_eq!(sv.as_ptr(), a);
    assert_eq!(ctx.perl.sv_refcnt(a), 2);
}

#[test]
fn wrong_kind_of_argument_differs_from_missing_argument() {
    let mut perl = Interpreter::new();
    let a = perl.new_sv_iv(5);
    call_with(&mut perl, &[a]);
    let mut ctx = Context::new(perl);
    assert_eq!(ctx.st_try_fetch::<AV>(0).map(|r| r.err()), Some(Some(String::from("not an array reference"))));
    assert!(ctx.st_try_fetch::<AV>(1).is_none());
}

#[test]
fn arguments_are_unpacked_by_name() {
    let mut perl = Interpreter::new();
    let a = perl.new_sv_iv(5);
    let b = perl.new_sv_pvn(&[0xff], false);
    call_with(&mut perl, &[a, b]);
    let mut ctx = Context::new(perl);
    let mut index: isize = 0;
    assert_eq!(IV::try_from_context(&mut ctx, "a", &mut index), Ok(5));
    assert_eq!(index, 1);
    assert_eq!(
        String::try_from_context(&mut ctx, "b", &mut index),
        Err(String::from("Invalid argument 'b' (invalid utf-8 sequence from index 0)"))
    );
    assert_eq!(index, 2);
    assert_eq!(IV::try_from_context(&mut ctx, "c", &mut index), Err(String::from("Missing argument 'c'")));
    assert_eq!(index, 3);
    let mut index: isize = 1;
    assert_eq!(
        <Option<String>>::try_from_context(&mut ctx, "b", &mut index),
        Err(String::from("Invalid argument 'b' (invalid utf-8 sequence from index 0)"))
    );
    assert_eq!(<Option<IV>>::try_from_context(&mut ctx, "c", &mut index), Ok(None));
    assert_eq!(index, 3);
    let mut index: isize = 0;
    assert_eq!(<Option<IV>>::try_from_context(&mut ctx, "a", &mut index), Ok(Some(5)));
}

#[test]
fn add_with_optional_argument() {
    fn add_opt(perl: Interpreter) -> Interpreter {
        Context::wrap(perl, |ctx: &mut Context| {
            let mut offset: isize = 0;
            let a = match IV::try_from_context(ctx, "a", &mut offset) {
                Ok(v) => v,
                Err(e) => return croak(e),
            };
            let b = match <Option<IV>>::try_from_context(ctx, "b", &mut offset) {
                Ok(v) => v,
                Err(e) => return croak(e),
            };
            Outcome::Done(match b {
                Some(b) => a + b,
                None => a,
            })
        })
    }
    let mut perl = Interpreter::new();
    let a = perl.new_sv_iv(40);
    let b = perl.new_sv_iv(2);
    call_with(&mut perl, &[a, b]);
    let perl = add_opt(perl);
    assert_eq!(perl.sv_iv(perl.results()[0]), 42);
    assert!(perl.raised().is_none());

    let mut perl = Interpreter::new();
    let a = perl.new_sv_iv(40);
    call_with(&mut perl, &[a]);
    let perl = add_opt(perl);
    assert_eq!(perl.sv_iv(perl.results()[0]), 40);

    let perl = add_opt(Interpreter::new());
    assert_eq!(perl.results().len(), 0);
    assert_eq!(perl.putbacks(), 1);
    let raised = perl.raised().unwrap();
    assert_eq!(perl.sv_pv(raised), b"Missing argument 'a'".to_vec());
}

#[test]
fn failure_is_raised_after_handles_are_dropped_and_stack_is_written_back_once() {
    let mut perl = Interpreter::new();
    let a = perl.new_sv_iv(5);
    call_with(&mut perl, &[a]);
    let before = perl.sv_refcnt(a);
    let perl = Context::wrap(perl, |ctx: &mut Context| {
        let held = ctx.st_fetch::<SV>(0).unwrap();
        let copy = held.clone(&mut ctx.perl);
        held.drop(&mut ctx.perl);
        copy.drop(&mut ctx.perl);
        let done: Outcome<IV> = croak(String::from("Panic!\n"));
        done
    });
    assert_eq!(perl.putbacks(), 1);
    assert_eq!(perl.results().len(), 0);
    assert_eq!(perl.sv_refcnt(a), before);
    let raised = perl.raised().unwrap();
    assert_eq!(perl.sv_pv(raised), b"Panic!\n".to_vec());
    assert!(perl.sv_utf8(raised));
    assert_eq!(perl.sv_refcnt(raised), 1);
}

#[test]
fn failure_without_text_gets_the_fallback_message() {
    let perl = Interpreter::new();
    let perl = Context::wrap(perl, |_ctx: &mut Context| {
        let r: Outcome<()> = Outcome::NativeFailure(Payload::Other);
        r
    });
    let raised = perl.raised().unwrap();
    assert_eq!(perl.sv_pv(raised), b"unknown typed panic inside Rust code".to_vec());
    assert_eq!(perl.putbacks(), 1);
}

#[test]
fn host_exception_passes_through() {
    let mut perl = Interpreter::new();
    let e = perl.new_sv_pvn(b"died", false);
    let sv = SV::from_raw_owned(&mut perl, e);
    let perl = Context::new(perl).finish(Outcome::<IV>::HostException(sv));
    assert_eq!(perl.raised(), Some(e));
    assert_eq!(perl.sv_refcnt(e), 1);
    assert_eq!(perl.putbacks(), 1);
}

#[test]
fn a_second_exception_replaces_the_first() {
    let mut perl = Interpreter::new();
    rethrow_panic(&mut perl, Payload::Message(String::from("first")));
    let first = perl.raised().unwrap();
    assert_eq!(perl.sv_refcnt(first), 1);
    rethrow_panic(&mut perl, Payload::Other);
    let second = perl.raised().unwrap();
    assert_ne!(first, second);
    assert_eq!(perl.sv_refcnt(first), 0);
    assert_eq!(perl.sv_refcnt(second), 1);
}

#[test]
fn croak_fmt_joins_its_pieces() {
    let r: Outcome<IV> = croak_fmt(&["invalid argument '", "x", "' for ", "Pkg::f", ": ", "why"]);
    match r {
        Outcome::NativeFailure(Payload::Message(m)) => assert_eq!(m, "invalid argument 'x' for Pkg::f: why"),
        _ => panic!("not a native failure with a message"),
    }
    let empty: Outcome<IV> = croak_fmt(&[]);
    match empty {
        Outcome::NativeFailure(Payload::Message(m)) => assert_eq!(m, ""),
        _ => panic!("not a native failure with a message"),
    }
}

#[test]
fn tuples_push_their_members_in_order() {
    let perl = Interpreter::new();
    let perl = Context::wrap(perl, |_ctx: &mut Context| {
        Outcome::Done((String::from("auto"), 2 as IV, true))
    });
    let results = perl.results();
    assert_eq!(results.len(), 3);
    assert_eq!(perl.sv_pv(results[0]), b"auto".to_vec());
    assert_eq!(perl.sv_iv(results[1]), 2);
    assert!(perl.sv_true(results[2]));
    let mut ctx = Context::new(Interpreter::new());
    (1 as IV, 2 as IV, 3 as IV, 4 as IV, 5 as IV, 6 as IV, 7 as IV, 8 as IV, 9 as IV, 10 as IV).push_to(&mut ctx);
    ().push_to(&mut ctx);
    (11 as IV,).push_to(&mut ctx);
    ctx.st_putback();
    let perl = ctx.into_inner();
    let all: Vec<IV> = perl.results().iter().map(|r| perl.sv_iv(*r)).collect();
    assert_eq!(all, vec![1, 2, 3, 4, 5, 6, 7, 8, 9, 10, 11]);
}

#[test]
fn returned_handle_gives_its_unit_to_the_stack() {
    let mut perl = Interpreter::new();
    let a = perl.new_sv_iv(5);
    call_with(&mut perl, &[a]);
    let perl = Context::wrap(perl, |ctx: &mut Context| {
        let sv = ctx.st_fetch::<SV>(0).unwrap();
        Outcome::Done(sv)
    });
    assert_eq!(perl.results(), vec![a]);
    assert_eq!(perl.sv_refcnt(a), 2);
}

#[test]
fn new_sv_and_sv_undef_make_scalars() {
    let mut ctx = Context::new(Interpreter::new());
    let iv = ctx.new_sv(12 as IV);
    assert_eq!(iv.iv(&ctx.perl), 12);
    let undef = ctx.sv_undef();
    assert!(!undef.ok(&ctx.perl));
    let kept = ctx.new_sv(&iv);
    assert_eq!(kept.as_ptr(), iv.as_ptr());
    assert_eq!(ctx.perl.sv_refcnt(iv.as_ptr()), 2);
    let same = ctx.new_sv(iv);
    assert_eq!(same.as_ptr(), kept.as_ptr());
    let x = (1 as IV).into_sv(&mut ctx.perl);
    assert_eq!(x.iv(&ctx.perl), 1);
}

#[test]
fn pushable_values_are_pushed_without_a_handle() {
    let mut perl = Interpreter::new();
    let mut stack = perl.stack_init();
    (-3 as IV).push_extend(&mut perl, &mut stack);
    (3 as UV).push_extend(&mut perl, &mut stack);
    assert_eq!(stack.pushed(), 2);
    perl.stack_extend(&mut stack, 2);
    NV::from_bits(1.5f64.to_bits()).push_unsafe(&mut perl, &mut stack);
    "raw".push_unsafe(&mut perl, &mut stack);
    assert_eq!(stack.pushed(), 4);
    assert_eq!(stack.len(), 0);
    perl.stack_putback(&stack);
    let results = perl.results();
    assert_eq!(perl.sv_iv(results[0]), -3);
    assert_eq!(perl.sv_uv(results[1]), 3);
    assert_eq!(f64::from_bits(perl.sv_nv(results[2]).to_bits()), 1.5);
    assert_eq!(perl.sv_pv(results[3]), b"raw".to_vec());
    assert!(!perl.sv_utf8(results[3]));
}

#[test]
fn unicode_texts_are_pushed_as_utf8() {
    let texts = [
        "Don't panic!",
        "\u{41d}\u{435} \u{43f}\u{430}\u{43d}\u{438}\u{43a}\u{443}\u{439}\u{442}\u{435}!",
        "\u{3042}\u{308f}\u{3066}\u{308b}\u{306a}",
        "Nu intra i\u{0302}n panica\u{0306}",
        "\u{1f631}\u{274c}",
    ];
    let perl = Context::wrap(Interpreter::new(), |ctx: &mut Context| {
        for t in texts {
            ctx.st_push(t);
        }
        Outcome::Done(())
    });
    let results = perl.results();
    assert_eq!(results.len(), texts.len());
    for (r, t) in results.iter().zip(texts) {
        assert!(perl.sv_utf8(*r));
        assert_eq!(perl.sv_pv(*r), t.as_bytes().to_vec());
    }
    let mut perl = perl;
    for (r, t) in results.iter().zip(texts) {
        assert_eq!(String::try_from_sv(&mut perl, *r), Ok(String::from(t)));
    }
}

struct Cnt(Rc<Cell<i64>>);

impl Drop for Cnt {
    fn drop(&mut self) {
        self.0.set(self.0.get() + 1);
    }
}

#[test]
fn what_the_subroutine_holds_is_dropped_before_the_failure_is_raised() {
    let counter = Rc::new(Cell::new(0));
    let inside = counter.clone();
    let perl = Context::wrap(Interpreter::new(), move |_ctx: &mut Context| {
        let _cnt = Cnt(inside);
        let out: Outcome<IV> = croak(String::from("Panic!\n"));
        out
    });
    assert_eq!(counter.get(), 1);
    assert_eq!(perl.putbacks(), 1);
    assert_eq!(perl.sv_pv(perl.raised().unwrap()), b"Panic!\n".to_vec());
}

#[test]
fn host_exception_in_a_callback_reaches_the_host_after_the_drops() {
    let counter = Rc::new(Cell::new(0));
    let inside = counter.clone();
    let mut perl = Interpreter::new();
    perl.define_sub("XSTest::dies", Some("died in the host"));
    perl.define_sub("XSTest::lives", None);
    let perl = Context::wrap(perl, move |ctx: &mut Context| {
        let _cnt = Cnt(inside);
        match ctx.call_pv("XSTest::lives", perl_xs::G_DISCARD) {
            Outcome::Done(()) => {},
            _ => panic!("the subroutine returns"),
        }
        match ctx.call_pv("XSTest::dies", perl_xs::G_DISCARD) {
            Outcome::Done(()) => Outcome::Done(42 as IV),
            Outcome::HostException(e) => Outcome::HostException(e),
            Outcome::NativeFailure(p) => Outcome::NativeFailure(p),
        }
    });
    assert_eq!(counter.get(), 1);
    assert_eq!(perl.results().len(), 0);
    assert_eq!(perl.putbacks(), 1);
    let raised = perl.raised().unwrap();
    assert_eq!(perl.sv_pv(raised), b"died in the host".to_vec());
    assert_eq!(perl.sv_refcnt(raised), 1);
}

#[test]
fn call_of_an_undefined_subroutine_dies() {
    let mut ctx = Context::new(Interpreter::new());
    match ctx.call_pv("main::nowhere", perl_xs::G_VOID) {
        Outcome::HostException(e) => {
            assert_eq!(e.to_string(&ctx.perl).unwrap(), "Undefined subroutine &main::nowhere called");
        },
        _ => panic!("the call dies"),
    }
    ctx.perl.define_sub("main::twice", Some("first"));
    ctx.perl.define_sub("main::twice", None);
    match ctx.call_pv("main::twice", 0) {
        Outcome::HostException(e) => assert_eq!(e.to_vec(&ctx.perl), b"first".to_vec()),
        _ => panic!("the call dies"),
    }
}

#[test]
fn arrays_are_found_by_name() {
    let mut perl = Interpreter::new();
    let av = perl.new_av();
    perl.name_av("main::list", av);
    let sv = perl.new_sv_iv(1);
    perl.name_av("main::scalar", sv);
    let other = perl.new_av();
    perl.name_av("main::list", other);
    let mut ctx = Context::new(perl);
    let found = ctx.get_av("main::list").unwrap();
    assert_eq!(found.as_ptr(), av);
    assert_eq!(ctx.perl.sv_refcnt(av), 2);
    let seven = (7 as IV).into_sv(&mut ctx.perl);
    found.push(&mut ctx.perl, seven);
    let again = ctx.get_av("main::list").unwrap();
    assert_eq!(again.fetch::<IV>(&mut ctx.perl, 0), Some(7));
    assert!(ctx.get_av("main::scalar").is_none());
    assert!(ctx.get_av("main::nothing").is_none());
    assert_eq!(ctx.perl.sv_refcnt(sv), 1);
}

#[test]
fn handles_left_behind_by_a_failing_subroutine_are_dropped() {
    let mut perl = Interpreter::new();
    let a = perl.new_sv_iv(5);
    let b = perl.new_av();
    let rb = perl.new_rv_noinc(b);
    call_with(&mut perl, &[a, rb]);
    let before = (perl.sv_refcnt(a), perl.sv_refcnt(b));
    let perl = Context::wrap(perl, |ctx: &mut Context| {
        let first = ctx.st_fetch::<SV>(0).unwrap();
        let _second = first.clone(&mut ctx.perl);
        let _array = ctx.st_try_fetch::<AV>(1).unwrap().unwrap();
        let _made = ctx.new_sv(7 as IV);
        assert_eq!(ctx.perl.sv_refcnt(a), 3);
        assert_eq!(ctx.perl.sv_held(a), 2);
        let out: Outcome<IV> = croak(String::from("gone"));
        out
    });
    assert_eq!((perl.sv_refcnt(a), perl.sv_refcnt(b)), before);
    for p in 0..perl.heap_len() {
        assert_eq!(perl.sv_held(p), 0);
    }
    assert_eq!(perl.putbacks(), 1);
    assert_eq!(perl.results().len(), 0);
    assert_eq!(perl.sv_pv(perl.raised().unwrap()), b"gone".to_vec());
}

#[test]
fn handles_left_behind_by_a_returning_subroutine_are_dropped() {
    let mut perl = Interpreter::new();
    let a = perl.new_sv_iv(5);
    call_with(&mut perl, &[a]);
    let perl = Context::wrap(perl, |ctx: &mut Context| {
        let first = ctx.st_fetch::<SV>(0).unwrap();
        let _left = first.clone(&mut ctx.perl);
        Outcome::Done((first, 1 as IV))
    });
    assert_eq!(perl.results()[0], a);
    assert_eq!(perl.sv_refcnt(a), 2);
    assert_eq!(perl.sv_held(a), 0);
    assert_eq!(perl.sv_iv(perl.results()[1]), 1);
    assert_eq!(perl.putbacks(), 1);
}

#[test]
fn handles_from_before_the_call_are_kept() {
    let mut perl = Interpreter::new();
    let a = perl.new_sv_iv(5);
    let outer = SV::from_raw_owned(&mut perl, a);
    let mut ctx = Context::new(perl);
    let inner = outer.clone(&mut ctx.perl);
    assert_eq!(ctx.perl.sv_held(a), 2);
    ctx.give_back();
    assert_eq!(ctx.perl.sv_held(a), 1);
    assert_eq!(ctx.perl.sv_refcnt(a), 1);
    let _ = inner;
    let perl = ctx.finish(Outcome::Done(()));
    assert_eq!(perl.sv_held(a), 1);
    assert_eq!(outer.iv(&perl), 5);
}
