use forth::{Error, Forth};

#[test]
fn new_interpreter_has_an_empty_stack() {
    let f = Forth::new();
    assert_eq!(f.format_stack(), "");
}

#[test]
fn addition() {
    let mut f = Forth::new();
    assert_eq!(f.eval("1 2 +"), Ok(()));
    assert_eq!(f.format_stack(), "3");
}

#[test]
fn subtraction_takes_the_top_from_the_value_below() {
    let mut f = Forth::new();
    assert_eq!(f.eval("3 4 -"), Ok(()));
    assert_eq!(f.format_stack(), "-1");
}

#[test]
fn multiplication() {
    let mut f = Forth::new();
    assert_eq!(f.eval("2 4 *"), Ok(()));
    assert_eq!(f.format_stack(), "8");
}

#[test]
fn division_rounds_toward_zero() {
    let mut f = Forth::new();
    assert_eq!(f.eval("8 3 /"), Ok(()));
    assert_eq!(f.format_stack(), "2");
    let mut g = Forth::new();
    assert_eq!(g.eval("-7 2 /"), Ok(()));
    assert_eq!(g.format_stack(), "-3");
    let mut h = Forth::new();
    assert_eq!(h.eval("7 -2 /"), Ok(()));
    assert_eq!(h.format_stack(), "-3");
    let mut i = Forth::new();
    assert_eq!(i.eval("-7 -2 /"), Ok(()));
    assert_eq!(i.format_stack(), "3");
}

#[test]
fn division_by_zero_consumes_both_operands() {
    let mut f = Forth::new();
    assert_eq!(f.eval("1 0 /"), Err(Error::DivisionByZero));
    assert_eq!(f.format_stack(), "");
}

#[test]
fn division_by_zero_keeps_what_lies_below() {
    let mut f = Forth::new();
    assert_eq!(f.eval("9 8 1 0 / 5"), Err(Error::DivisionByZero));
    assert_eq!(f.format_stack(), "9 8");
}

#[test]
fn definition_and_use_in_one_line() {
    let mut f = Forth::new();
    assert_eq!(f.eval(": DOUBLE DUP + ; 5 DOUBLE"), Ok(()));
    assert_eq!(f.format_stack(), "10");
}

#[test]
fn definition_is_kept_for_later_lines() {
    let mut f = Forth::new();
    assert_eq!(f.eval(": DOUBLE DUP + ;"), Ok(()));
    assert_eq!(f.format_stack(), "");
    assert_eq!(f.eval("21 double"), Ok(()));
    assert_eq!(f.format_stack(), "42");
}

#[test]
fn body_is_inlined_when_the_word_is_defined() {
    let mut f = Forth::new();
    assert_eq!(f.eval(": FOO DUP ;"), Ok(()));
    assert_eq!(f.eval(": DUP DROP ;"), Ok(()));
    assert_eq!(f.eval("3 FOO"), Ok(()));
    assert_eq!(f.format_stack(), "3 3");
}

#[test]
fn redefined_builtin_takes_its_new_meaning() {
    let mut f = Forth::new();
    assert_eq!(f.eval(": DUP DROP ;"), Ok(()));
    assert_eq!(f.eval("1 2 DUP"), Ok(()));
    assert_eq!(f.format_stack(), "1");
}

#[test]
fn word_may_use_its_own_earlier_meaning() {
    let mut f = Forth::new();
    assert_eq!(f.eval(": FOO 10 ;"), Ok(()));
    assert_eq!(f.eval(": FOO FOO 1 + ;"), Err(Error::InvalidWord));
    let mut g = Forth::new();
    assert_eq!(g.eval(": BAR 1 BAR BAR ;"), Ok(()));
    assert_eq!(g.eval("BAR"), Ok(()));
    assert_eq!(g.format_stack(), "1 1 1 1");
}

#[test]
fn drop_on_empty_stack() {
    let mut f = Forth::new();
    assert_eq!(f.eval("DROP"), Err(Error::StackUnderflow));
    assert_eq!(f.format_stack(), "");
}

#[test]
fn dup_on_empty_stack() {
    let mut f = Forth::new();
    assert_eq!(f.eval("DUP"), Err(Error::StackUnderflow));
    assert_eq!(f.format_stack(), "");
}

#[test]
fn swap_underflow_empties_the_stack() {
    let mut f = Forth::new();
    assert_eq!(f.eval("1 SWAP"), Err(Error::StackUnderflow));
    assert_eq!(f.format_stack(), "");
    assert_eq!(f.eval("SWAP"), Err(Error::StackUnderflow));
    assert_eq!(f.format_stack(), "");
}

#[test]
fn over_underflow_keeps_the_stack() {
    let mut f = Forth::new();
    assert_eq!(f.eval("1 OVER"), Err(Error::StackUnderflow));
    assert_eq!(f.format_stack(), "1");
    let mut g = Forth::new();
    assert_eq!(g.eval("OVER"), Err(Error::StackUnderflow));
    assert_eq!(g.format_stack(), "");
}

#[test]
fn arithmetic_underflow_empties_the_stack() {
    let mut f = Forth::new();
    assert_eq!(f.eval("1 +"), Err(Error::StackUnderflow));
    assert_eq!(f.format_stack(), "");
    assert_eq!(f.eval("*"), Err(Error::StackUnderflow));
    assert_eq!(f.format_stack(), "");
}

#[test]
fn stack_words() {
    let mut f = Forth::new();
    assert_eq!(f.eval("1 DUP"), Ok(()));
    assert_eq!(f.format_stack(), "1 1");
    let mut g = Forth::new();
    assert_eq!(g.eval("1 2 DROP"), Ok(()));
    assert_eq!(g.format_stack(), "1");
    let mut h = Forth::new();
    assert_eq!(h.eval("1 2 3 SWAP"), Ok(()));
    assert_eq!(h.format_stack(), "1 3 2");
    let mut i = Forth::new();
    assert_eq!(i.eval("1 2 3 OVER"), Ok(()));
    assert_eq!(i.format_stack(), "1 2 3 2");
}

#[test]
fn lower_case_word_behaves_as_upper_case() {
    let mut lower = Forth::new();
    assert_eq!(lower.eval("7"), Ok(()));
    assert_eq!(lower.eval("dup"), Ok(()));
    let mut upper = Forth::new();
    assert_eq!(upper.eval("7"), Ok(()));
    assert_eq!(upper.eval("DUP"), Ok(()));
    assert_eq!(lower.format_stack(), upper.format_stack());
    assert_eq!(lower.format_stack(), "7 7");
}

#[test]
fn defined_names_ignore_case() {
    let mut f = Forth::new();
    assert_eq!(f.eval(": foo dup ;"), Ok(()));
    assert_eq!(f.eval("1 FOO Foo"), Ok(()));
    assert_eq!(f.format_stack(), "1 1 1");
}

#[test]
fn number_cannot_be_a_name() {
    let mut f = Forth::new();
    assert_eq!(f.eval(": 1 DUP ;"), Err(Error::InvalidWord));
    assert_eq!(f.eval(": -1 DUP ;"), Err(Error::InvalidWord));
    assert_eq!(f.format_stack(), "");
}

#[test]
fn unterminated_definition() {
    let mut f = Forth::new();
    assert_eq!(f.eval(": FOO 1 2"), Err(Error::InvalidWord));
    assert_eq!(f.format_stack(), "");
    assert_eq!(f.eval("FOO"), Ok(()));
    assert_eq!(f.format_stack(), "1 2");
}

#[test]
fn line_that_ends_after_the_colon() {
    let mut f = Forth::new();
    assert_eq!(f.eval("1 :"), Err(Error::InvalidWord));
    assert_eq!(f.format_stack(), "");
}

#[test]
fn items_before_a_refused_token_are_not_run() {
    let mut f = Forth::new();
    assert_eq!(f.eval("1 2 FROBNICATE"), Err(Error::UnknownWord));
    assert_eq!(f.format_stack(), "");
}

#[test]
fn unknown_word() {
    let mut f = Forth::new();
    assert_eq!(f.eval("FROBNICATE"), Err(Error::UnknownWord));
}

#[test]
fn unknown_word_inside_a_definition() {
    let mut f = Forth::new();
    assert_eq!(f.eval(": FOO FROBNICATE ;"), Err(Error::UnknownWord));
    assert_eq!(f.eval("FOO"), Err(Error::InvalidWord));
}

#[test]
fn word_with_an_empty_body_resolves_to_nothing() {
    let mut f = Forth::new();
    assert_eq!(f.eval(": NOP ;"), Ok(()));
    assert_eq!(f.eval("1 NOP"), Err(Error::InvalidWord));
    assert_eq!(f.format_stack(), "");
    assert_eq!(f.eval(": NOP 5 ;"), Ok(()));
    assert_eq!(f.eval("NOP"), Ok(()));
    assert_eq!(f.format_stack(), "5");
}

#[test]
fn format_stack_twice_gives_the_same_text() {
    let mut f = Forth::new();
    assert_eq!(f.eval("1 -2 30"), Ok(()));
    let first = f.format_stack();
    let second = f.format_stack();
    assert_eq!(first, second);
    assert_eq!(first, "1 -2 30");
}

#[test]
fn failure_keeps_what_was_done_before_it() {
    let mut f = Forth::new();
    assert_eq!(f.eval("1 2 + DROP DROP 5"), Err(Error::StackUnderflow));
    assert_eq!(f.format_stack(), "");
    let mut g = Forth::new();
    assert_eq!(g.eval("4 5 OVER OVER OVER DROP DROP DROP DROP DROP DROP"), Err(Error::StackUnderflow));
    assert_eq!(g.format_stack(), "");
    let mut h = Forth::new();
    assert_eq!(h.eval("1 2 3 0 / 9"), Err(Error::DivisionByZero));
    assert_eq!(h.format_stack(), "1 2");
}

#[test]
fn empty_and_blank_lines() {
    let mut f = Forth::new();
    assert_eq!(f.eval(""), Ok(()));
    assert_eq!(f.eval("   \t  "), Ok(()));
    assert_eq!(f.format_stack(), "");
}

#[test]
fn control_characters_separate_tokens() {
    let mut f = Forth::new();
    assert_eq!(f.eval("1\u{0}2\u{1}+\u{7f}4\u{9f}*"), Ok(()));
    assert_eq!(f.format_stack(), "12");
}

#[test]
fn any_white_space_separates_tokens() {
    let mut f = Forth::new();
    assert_eq!(f.eval("  1\t2\n3\r4\u{a0}5\u{2003}6\u{3000}7  "), Ok(()));
    assert_eq!(f.format_stack(), "1 2 3 4 5 6 7");
}

#[test]
fn numbers_at_the_limits() {
    let mut f = Forth::new();
    assert_eq!(f.eval("2147483647 -2147483648 0 -0 007"), Ok(()));
    assert_eq!(f.format_stack(), "2147483647 -2147483648 0 0 7");
}

#[test]
fn numbers_beyond_the_limits_are_words() {
    let mut f = Forth::new();
    assert_eq!(f.eval("2147483648"), Err(Error::UnknownWord));
    assert_eq!(f.eval("-2147483649"), Err(Error::UnknownWord));
    assert_eq!(f.eval("99999999999999999999999999"), Err(Error::UnknownWord));
    assert_eq!(f.eval(": 2147483648 1 ;"), Ok(()));
    assert_eq!(f.eval("2147483648"), Ok(()));
    assert_eq!(f.format_stack(), "1");
}

#[test]
fn tokens_that_only_look_like_numbers_are_words() {
    let mut f = Forth::new();
    assert_eq!(f.eval("1x"), Err(Error::UnknownWord));
    assert_eq!(f.eval("--1"), Err(Error::UnknownWord));
    assert_eq!(f.eval("1-"), Err(Error::UnknownWord));
    assert_eq!(f.eval("+1"), Err(Error::UnknownWord));
    assert_eq!(f.eval("\u{661}"), Err(Error::UnknownWord));
    assert_eq!(f.format_stack(), "");
}

#[test]
fn number_wins_over_a_word_of_the_same_name() {
    let mut f = Forth::new();
    assert_eq!(f.eval(": 5 6 ;"), Err(Error::InvalidWord));
    assert_eq!(f.eval("5"), Ok(()));
    assert_eq!(f.format_stack(), "5");
}

#[test]
fn arithmetic_wraps_around() {
    let mut f = Forth::new();
    assert_eq!(f.eval("2147483647 1 +"), Ok(()));
    assert_eq!(f.format_stack(), "-2147483648");
    let mut g = Forth::new();
    assert_eq!(g.eval("-2147483648 1 -"), Ok(()));
    assert_eq!(g.format_stack(), "2147483647");
    let mut h = Forth::new();
    assert_eq!(h.eval("65536 65537 *"), Ok(()));
    assert_eq!(h.format_stack(), "65536");
    let mut i = Forth::new();
    assert_eq!(i.eval("-2147483648 -1 /"), Ok(()));
    assert_eq!(i.format_stack(), "-2147483648");
}

#[test]
fn colon_inside_a_body_is_kept_there() {
    let mut f = Forth::new();
    assert_eq!(f.eval(": DEF : ;"), Ok(()));
    assert_eq!(f.eval("DEF TWO 2 ; TWO TWO"), Ok(()));
    assert_eq!(f.format_stack(), "2 2");
    let mut g = Forth::new();
    assert_eq!(g.eval(": ODD : 1 ;"), Ok(()));
    assert_eq!(g.eval("ODD ODD"), Ok(()));
    assert_eq!(g.format_stack(), "1 1");
}

#[test]
fn semicolon_outside_a_definition_does_nothing() {
    let mut f = Forth::new();
    assert_eq!(f.eval("1 ; 2"), Ok(()));
    assert_eq!(f.format_stack(), "1 2");
}

#[test]
fn name_may_be_an_unknown_or_a_known_word() {
    let mut f = Forth::new();
    assert_eq!(f.eval(": + - ;"), Ok(()));
    assert_eq!(f.eval("5 3 +"), Ok(()));
    assert_eq!(f.format_stack(), "2");
    let mut g = Forth::new();
    assert_eq!(g.eval(": SQUARE DUP * ; 7 SQUARE"), Ok(()));
    assert_eq!(g.format_stack(), "49");
}

#[test]
fn redefined_semicolon_no_longer_ends_a_definition() {
    let mut f = Forth::new();
    assert_eq!(f.eval(": ; 1 ;"), Err(Error::InvalidWord));
    assert_eq!(f.eval(";"), Ok(()));
    assert_eq!(f.format_stack(), "1 1");
}

#[test]
fn errors_compare_and_copy() {
    let e = Error::InvalidWord;
    let c = e;
    assert_eq!(e, c);
    assert_ne!(Error::DivisionByZero, Error::StackUnderflow);
    assert_ne!(Error::UnknownWord, Error::InvalidWord);
}
