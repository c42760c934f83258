use forthc::compiler::Compiler;

const FUEL: u64 = 1_000_000;

fn run(code: &[u8]) -> Option<i64> {
    let mut c = Compiler::new();
    c.compile_and_run(code, FUEL)
}

#[test]
fn push_literal() {
    assert_eq!(run(b"42"), Some(42));
}

#[test]
fn addition() {
    assert_eq!(run(b"3 4 +"), Some(7));
}

#[test]
fn negate_prelude_word() {
    assert_eq!(run(b"5 negate"), Some(-5));
}

#[test]
fn definitions_and_conditional() {
    assert_eq!(
        run(b": add-one 1 + ; : zero-test 0= if 100 else -1 then ; -1 add-one zero-test"),
        Some(100)
    );
}

#[test]
fn zero_test_true() {
    assert_eq!(run(b"0 0="), Some(-1));
}

#[test]
fn zero_test_false() {
    assert_eq!(run(b"7 0="), Some(0));
}

#[test]
fn zero_test_of_true_encoding() {
    // -1 is nonzero, so the zero test rejects it too
    assert_eq!(run(b"-1 0="), Some(0));
}

#[test]
fn variable_store_fetch_increment() {
    assert_eq!(run(b"variable x  9 x !  x @  1 +"), Some(10));
}

#[test]
fn swap_top() {
    assert_eq!(run(b"2 3 swap"), Some(2));
}

#[test]
fn swap_beneath() {
    // after the swap the 3 lies beneath the 2: moving the top away
    // uncovers it
    assert_eq!(run(b"2 3 swap >r"), Some(3));
}

#[test]
fn top_level_conditional_true_is_minus_one() {
    assert_eq!(run(b"-1 if 100 else 200 then"), Some(100));
}

#[test]
fn top_level_conditional_zero_is_false() {
    assert_eq!(run(b"0 if 100 else 200 then"), Some(200));
}

#[test]
fn top_level_conditional_other_nonzero_is_false() {
    assert_eq!(run(b"5 if 100 else 200 then"), Some(200));
}

#[test]
fn conditional_without_alternative() {
    assert_eq!(run(b"7 -1 if 1 + then"), Some(8));
}

#[test]
fn dup_duplicates() {
    assert_eq!(run(b"5 dup +"), Some(10));
}

#[test]
fn over_copies_second() {
    assert_eq!(run(b"2 3 over"), Some(2));
}

#[test]
fn invert_is_bitwise_not() {
    assert_eq!(run(b"0 invert"), Some(-1));
}

#[test]
fn invert_of_five() {
    assert_eq!(run(b"5 invert"), Some(!5i64));
}

#[test]
fn one_plus() {
    assert_eq!(run(b"4 1+"), Some(5));
}

#[test]
fn one_minus() {
    assert_eq!(run(b"4 1-"), Some(3));
}

#[test]
fn definition_transparency_example() {
    assert_eq!(run(b": f 1 2 + ; f"), Some(3));
    assert_eq!(run(b"1 2 +"), Some(3));
}

#[test]
fn variable_slot_after_prelude_temp() {
    // a variable reference pushes its address minus the base; the
    // prelude's own `temp` takes the first slot
    assert_eq!(run(b"variable v v"), Some(1));
}

#[test]
fn second_variable_gets_distinct_address() {
    assert_eq!(run(b"variable v variable w w"), Some(2));
    assert_eq!(run(b"variable v variable w v"), Some(1));
}

#[test]
fn variable_store_and_fetch() {
    assert_eq!(run(b"variable v  42 v !  v @"), Some(42));
}

#[test]
fn unknown_word_is_silently_ignored() {
    assert_eq!(run(b"42 bogus"), Some(42));
}

#[test]
fn largest_literal_round_trips() {
    assert_eq!(run(b"9223372036854775807"), Some(i64::MAX));
}

#[test]
fn smallest_literal_round_trips() {
    assert_eq!(run(b"-9223372036854775808"), Some(i64::MIN));
}

#[test]
fn out_of_range_literal_fails_parse() {
    assert_eq!(run(b"9223372036854775808"), None);
}

#[test]
fn unclosed_conditional_fails_parse() {
    assert_eq!(run(b"-1 if 1"), None);
}

#[test]
fn stray_then_fails_parse() {
    assert_eq!(run(b"5 then"), None);
}

#[test]
fn unclosed_definition_fails_parse() {
    assert_eq!(run(b": f 1 2"), None);
}

#[test]
fn definition_name_must_be_a_word() {
    assert_eq!(run(b": ; 1 ;"), None);
}

#[test]
fn empty_program_faults_on_final_peek() {
    // peek of an empty data stack is a runtime fault of the model
    assert_eq!(run(b""), None);
}

#[test]
fn stack_underflow_is_a_fault() {
    assert_eq!(run(b"+"), None);
}

#[test]
fn unbounded_recursion_exhausts_fuel() {
    let mut c = Compiler::new();
    assert_eq!(c.compile_and_run(b": r r ; r", 2048), None);
}

#[test]
fn dot_quote_is_parsed_but_emits_nothing() {
    assert_eq!(run(b"42 .\" hello world \""), Some(42));
}

#[test]
fn do_loop_is_parsed_but_emits_nothing() {
    assert_eq!(run(b"7 do 1 + loop"), Some(7));
}

#[test]
fn sequencing_keeps_source_order() {
    // a b c computes c over the stack a b left in order
    assert_eq!(run(b"10 4 -"), Some(6));
}

#[test]
fn compilation_is_deterministic() {
    let mut c1 = Compiler::new();
    let r1 = c1.compile_and_run(b"variable v 1 2 + : f v @ then-less ; f", FUEL);
    let mut c2 = Compiler::new();
    let r2 = c2.compile_and_run(b"variable v 1 2 + : f v @ then-less ; f", FUEL);
    assert_eq!(r1, r2);
    let t1 = format!("{:?}", c1.module());
    let t2 = format!("{:?}", c2.module());
    assert_eq!(t1, t2);
}

#[test]
fn wrapping_addition() {
    assert_eq!(run(b"9223372036854775807 1 +"), Some(i64::MIN));
}

#[test]
fn subtraction_via_prelude() {
    assert_eq!(run(b"10 3 -"), Some(7));
}

#[test]
fn equality_words() {
    assert_eq!(run(b"4 4 ="), Some(-1));
    assert_eq!(run(b"4 5 ="), Some(0));
    assert_eq!(run(b"5 4 ="), Some(0));
    assert_eq!(run(b"5 3 ="), Some(0));
    assert_eq!(run(b"4 5 <>"), Some(-1));
    assert_eq!(run(b"4 4 <>"), Some(0));
}

#[test]
fn bitwise_words() {
    assert_eq!(run(b"6 3 and"), Some(2));
    assert_eq!(run(b"6 3 or"), Some(7));
    assert_eq!(run(b"6 3 xor"), Some(5));
    assert_eq!(run(b"3 2*"), Some(6));
}

#[test]
fn true_and_false_words() {
    assert_eq!(run(b"true"), Some(-1));
    assert_eq!(run(b"false"), Some(0));
}

#[test]
fn return_stack_words() {
    assert_eq!(run(b"1 2 >r"), Some(1));
    assert_eq!(run(b"1 2 >r r>"), Some(2));
}

#[test]
fn result_rendered_in_decimal() {
    let mut c = Compiler::new();
    assert_eq!(c.compile_and_run_text(b"3 4 +", FUEL), Some(b"7".to_vec()));
    let mut c2 = Compiler::new();
    assert_eq!(c2.compile_and_run_text(b"5 negate", FUEL), Some(b"-5".to_vec()));
    let mut c3 = Compiler::new();
    assert_eq!(
        c3.compile_and_run_text(b"-9223372036854775808", FUEL),
        Some(b"-9223372036854775808".to_vec())
    );
    let mut c4 = Compiler::new();
    assert_eq!(c4.compile_and_run_text(b"42", FUEL), Some(b"42".to_vec()));
}
