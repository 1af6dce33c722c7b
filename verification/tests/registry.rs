use yjit::invariants::{
    assume_bop_not_redefined, assume_method_lookup_stable, assume_single_ractor_mode,
    assume_stable_global_constant_state, rb_yjit_before_ractor_spawn, rb_yjit_bop_redefined,
    rb_yjit_cme_invalidate, rb_yjit_constant_state_changed, rb_yjit_method_lookup_change,
    rb_yjit_tracing_invalidate_all, Invariants, MethodEntry,
};

const INTEGER_FLAG: u32 = 1;
const BOP_PLUS: u32 = 2;
const BOP_MINUS: u32 = 3;

#[test]
fn operator_redefinition_invalidates_dependent_once() {
    let mut inv = Invariants::init();
    let recorded = assume_bop_not_redefined(&mut inv, true, INTEGER_FLAG, BOP_PLUS, 11);
    assert!(recorded);
    let out = rb_yjit_bop_redefined(&mut inv, true, INTEGER_FLAG, BOP_PLUS);
    assert_eq!(out, vec![11]);
    assert_eq!(inv.bop_redefined_count(), 1);
}

#[test]
fn false_operator_predicate_records_nothing() {
    let mut inv = Invariants::init();
    let recorded = assume_bop_not_redefined(&mut inv, false, INTEGER_FLAG, BOP_PLUS, 11);
    assert!(!recorded);
    let out = rb_yjit_bop_redefined(&mut inv, true, INTEGER_FLAG, BOP_PLUS);
    assert!(out.is_empty());
    assert_eq!(inv.bop_redefined_count(), 0);
}

#[test]
fn method_lookup_change_invalidates_then_prunes() {
    let mut inv = Invariants::init();
    let class_c: u64 = 77;
    let cme = MethodEntry { id: 500, called_id: 9001 };
    assume_method_lookup_stable(&mut inv, 22, class_c, cme);
    let out = rb_yjit_method_lookup_change(&mut inv, true, class_c, 9001);
    assert_eq!(out, vec![22]);
    assert_eq!(inv.method_lookup_count(), 1);
    let again = rb_yjit_method_lookup_change(&mut inv, true, class_c, 9001);
    assert!(again.is_empty());
    assert_eq!(inv.method_lookup_count(), 1);
}

#[test]
fn cme_invalidation_prunes_its_key() {
    let mut inv = Invariants::init();
    let cme = MethodEntry { id: 600, called_id: 8 };
    assume_method_lookup_stable(&mut inv, 33, 90, cme);
    let out = rb_yjit_cme_invalidate(&mut inv, true, 600);
    assert_eq!(out, vec![33]);
    assert_eq!(inv.method_lookup_count(), 1);
    let again = rb_yjit_cme_invalidate(&mut inv, true, 600);
    assert!(again.is_empty());
    assert_eq!(inv.method_lookup_count(), 1);
}

#[test]
fn ractor_spawn_invalidates_and_mode_stays_refused() {
    let mut inv = Invariants::init();
    let recorded = assume_single_ractor_mode(&mut inv, false, 44);
    assert!(recorded);
    let out = rb_yjit_before_ractor_spawn(&mut inv, true);
    assert_eq!(out, vec![44]);
    assert_eq!(inv.ractor_spawn_count(), 1);
    // Another context is active now: the host predicate reports it, and the
    // next unit cannot be recorded.
    let refused = assume_single_ractor_mode(&mut inv, true, 45);
    assert!(!refused);
    let again = rb_yjit_before_ractor_spawn(&mut inv, true);
    assert_eq!(again, vec![44]);
}

#[test]
fn never_registered_cme_is_silent_noop() {
    let mut inv = Invariants::init();
    let out = rb_yjit_cme_invalidate(&mut inv, true, 123456);
    assert!(out.is_empty());
    assert_eq!(inv.method_lookup_count(), 0);
}

#[test]
fn unit_under_two_keys_survives_for_the_second_event() {
    let mut inv = Invariants::init();
    assert!(assume_bop_not_redefined(&mut inv, true, INTEGER_FLAG, BOP_PLUS, 55));
    assume_stable_global_constant_state(&mut inv, 55);
    let via_binding = rb_yjit_constant_state_changed(&mut inv, true);
    assert_eq!(via_binding, vec![55]);
    assert_eq!(inv.constant_state_count(), 1);
    // The operator list was untouched: a later redefinition reports the same
    // unit again, which the invalidation primitive tolerates.
    let via_operator = rb_yjit_bop_redefined(&mut inv, true, INTEGER_FLAG, BOP_PLUS);
    assert_eq!(via_operator, vec![55]);
    assert_eq!(inv.bop_redefined_count(), 1);
}

#[test]
fn empty_operator_key_invalidation_is_noop() {
    let mut inv = Invariants::init();
    let out = rb_yjit_bop_redefined(&mut inv, true, INTEGER_FLAG, BOP_MINUS);
    assert!(out.is_empty());
    assert_eq!(inv.bop_redefined_count(), 0);
}

#[test]
fn distinct_operator_keys_are_isolated() {
    let mut inv = Invariants::init();
    assert!(assume_bop_not_redefined(&mut inv, true, INTEGER_FLAG, BOP_PLUS, 1));
    assert!(assume_bop_not_redefined(&mut inv, true, INTEGER_FLAG, BOP_MINUS, 2));
    let out = rb_yjit_bop_redefined(&mut inv, true, INTEGER_FLAG, BOP_PLUS);
    assert_eq!(out, vec![1]);
    let other = rb_yjit_bop_redefined(&mut inv, true, INTEGER_FLAG, BOP_MINUS);
    assert_eq!(other, vec![2]);
}

#[test]
fn sibling_method_lookup_keys_are_untouched() {
    let mut inv = Invariants::init();
    let class_a: u64 = 10;
    let class_b: u64 = 20;
    let name1: u64 = 100;
    let name2: u64 = 200;
    assume_method_lookup_stable(&mut inv, 1, class_a, MethodEntry { id: 71, called_id: name1 });
    assume_method_lookup_stable(&mut inv, 2, class_a, MethodEntry { id: 72, called_id: name2 });
    assume_method_lookup_stable(&mut inv, 3, class_b, MethodEntry { id: 73, called_id: name1 });
    let out = rb_yjit_method_lookup_change(&mut inv, true, class_a, name1);
    assert_eq!(out, vec![1]);
    assert_eq!(rb_yjit_method_lookup_change(&mut inv, true, class_a, name2), vec![2]);
    assert_eq!(rb_yjit_method_lookup_change(&mut inv, true, class_b, name1), vec![3]);
}

#[test]
fn repeated_operator_event_reports_same_units() {
    let mut inv = Invariants::init();
    assert!(assume_bop_not_redefined(&mut inv, true, INTEGER_FLAG, BOP_PLUS, 7));
    assert!(assume_bop_not_redefined(&mut inv, true, INTEGER_FLAG, BOP_PLUS, 8));
    let first = rb_yjit_bop_redefined(&mut inv, true, INTEGER_FLAG, BOP_PLUS);
    assert_eq!(first, vec![7, 8]);
    let second = rb_yjit_bop_redefined(&mut inv, true, INTEGER_FLAG, BOP_PLUS);
    assert_eq!(second, vec![7, 8]);
    assert_eq!(inv.bop_redefined_count(), 4);
}

#[test]
fn repeated_binding_event_reports_same_units() {
    let mut inv = Invariants::init();
    assume_stable_global_constant_state(&mut inv, 9);
    assert_eq!(rb_yjit_constant_state_changed(&mut inv, true), vec![9]);
    assert_eq!(rb_yjit_constant_state_changed(&mut inv, true), vec![9]);
    assert_eq!(inv.constant_state_count(), 2);
}

#[test]
fn disabled_subsystem_makes_every_event_a_noop() {
    let mut inv = Invariants::init();
    assert!(assume_bop_not_redefined(&mut inv, true, INTEGER_FLAG, BOP_PLUS, 5));
    assume_stable_global_constant_state(&mut inv, 5);
    assume_method_lookup_stable(&mut inv, 6, 40, MethodEntry { id: 80, called_id: 3 });
    assert!(rb_yjit_bop_redefined(&mut inv, false, INTEGER_FLAG, BOP_PLUS).is_empty());
    assert!(rb_yjit_cme_invalidate(&mut inv, false, 80).is_empty());
    assert!(rb_yjit_method_lookup_change(&mut inv, false, 40, 3).is_empty());
    assert!(rb_yjit_before_ractor_spawn(&mut inv, false).is_empty());
    assert!(rb_yjit_constant_state_changed(&mut inv, false).is_empty());
    assert!(rb_yjit_tracing_invalidate_all(&mut inv, false).is_empty());
    assert_eq!(inv.bop_redefined_count(), 0);
    assert_eq!(inv.method_lookup_count(), 0);
    assert_eq!(inv.ractor_spawn_count(), 0);
    assert_eq!(inv.constant_state_count(), 0);
    // The registrations themselves are still there.
    assert_eq!(rb_yjit_bop_redefined(&mut inv, true, INTEGER_FLAG, BOP_PLUS), vec![5]);
}

#[test]
fn tracing_invalidation_reports_every_registered_unit() {
    let mut inv = Invariants::init();
    assert!(assume_bop_not_redefined(&mut inv, true, INTEGER_FLAG, BOP_PLUS, 1));
    assume_method_lookup_stable(&mut inv, 2, 30, MethodEntry { id: 90, called_id: 4 });
    assert!(assume_single_ractor_mode(&mut inv, false, 3));
    assume_stable_global_constant_state(&mut inv, 4);
    let mut out = rb_yjit_tracing_invalidate_all(&mut inv, true);
    out.sort();
    out.dedup();
    assert_eq!(out, vec![1, 2, 3, 4]);
    // The registry stopped listening: the finer events report nothing now.
    assert!(rb_yjit_bop_redefined(&mut inv, true, INTEGER_FLAG, BOP_PLUS).is_empty());
    assert!(rb_yjit_cme_invalidate(&mut inv, true, 90).is_empty());
    assert!(rb_yjit_method_lookup_change(&mut inv, true, 30, 4).is_empty());
    assert!(rb_yjit_before_ractor_spawn(&mut inv, true).is_empty());
    assert!(rb_yjit_constant_state_changed(&mut inv, true).is_empty());
}

#[test]
fn cme_registration_files_under_both_keys() {
    let mut inv = Invariants::init();
    let cme = MethodEntry { id: 700, called_id: 42 };
    assume_method_lookup_stable(&mut inv, 88, 60, cme);
    // The entry-validity event finds the unit; the lookup key still holds it
    // too, so the lookup event reports it afterwards as well.
    assert_eq!(rb_yjit_cme_invalidate(&mut inv, true, 700), vec![88]);
    assert_eq!(rb_yjit_method_lookup_change(&mut inv, true, 60, 42), vec![88]);
    assert_eq!(inv.method_lookup_count(), 2);
}
