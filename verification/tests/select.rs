use desk_exec::select::index_width;
use desk_exec::select::select_init;
use desk_exec::select::select_step;
use desk_exec::select::SelectState;

#[test]
fn single_entry_is_chosen_without_input() {
    assert_eq!(select_init(1), SelectState::Done(0));
}

#[test]
fn several_entries_start_prompting() {
    assert_eq!(select_init(0), SelectState::Prompting);
    assert_eq!(select_init(2), SelectState::Prompting);
    assert_eq!(select_init(17), SelectState::Prompting);
}

#[test]
fn reprompts_until_a_valid_index_arrives() {
    // three entries; "abc" and "5" are rejected, "1" picks index 1
    assert_eq!(select_step(3, "abc"), SelectState::Prompting);
    assert_eq!(select_step(3, "5"), SelectState::Prompting);
    assert_eq!(select_step(3, "1"), SelectState::Done(1));
}

#[test]
fn input_is_trimmed_before_parsing() {
    assert_eq!(select_step(3, " 2 \n"), SelectState::Done(2));
    assert_eq!(select_step(3, "\t0\r\n"), SelectState::Done(0));
}

#[test]
fn plus_sign_is_accepted_as_parse_does() {
    assert_eq!(select_step(3, "+2"), SelectState::Done(2));
    assert_eq!(select_step(3, "++2"), SelectState::Prompting);
}

#[test]
fn rejects_empty_out_of_range_and_overflowing_input() {
    assert_eq!(select_step(3, ""), SelectState::Prompting);
    assert_eq!(select_step(3, "   "), SelectState::Prompting);
    assert_eq!(select_step(3, "3"), SelectState::Prompting);
    assert_eq!(select_step(3, "-1"), SelectState::Prompting);
    assert_eq!(select_step(3, "1.5"), SelectState::Prompting);
    assert_eq!(select_step(3, "99999999999999999999999999"), SelectState::Prompting);
}

#[test]
fn index_width_counts_digits_of_largest_index() {
    assert_eq!(index_width(1), 1);
    assert_eq!(index_width(9), 1);
    assert_eq!(index_width(10), 1);
    assert_eq!(index_width(11), 2);
    assert_eq!(index_width(100), 2);
    assert_eq!(index_width(101), 3);
}
