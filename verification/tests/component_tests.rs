use naviin::input::InputComponent;
use naviin::output::OutputComponent;

#[test]
fn test_input_typing_and_cursor() {
    let mut input = InputComponent::new();
    input.enter_char('b');
    input.enter_char('u');
    input.enter_char('y');
    assert_eq!(input.get_command(), "buy");

    input.move_cursor_left();
    input.enter_char('o');
    assert_eq!(input.get_command(), "buoy");

    input.move_cursor_start();
    input.enter_char('>');
    assert_eq!(input.get_command(), ">buoy");

    input.move_cursor_end();
    input.backspace();
    assert_eq!(input.get_command(), ">buo");
}

#[test]
fn test_input_backspace_at_start_is_noop() {
    let mut input = InputComponent::new();
    input.enter_char('x');
    input.move_cursor_start();
    input.backspace();
    assert_eq!(input.get_command(), "x");
}

#[test]
fn test_input_cursor_clamped() {
    let mut input = InputComponent::new();
    input.move_cursor_right();
    input.move_cursor_right();
    input.enter_char('a');
    assert_eq!(input.get_command(), "a");
}

#[test]
fn test_input_clear() {
    let mut input = InputComponent::new();
    input.enter_char('q');
    input.clear();
    assert_eq!(input.get_command(), "");
    input.enter_char('z');
    assert_eq!(input.get_command(), "z");
}

#[test]
fn test_output_set_and_append() {
    let mut output = OutputComponent::new();
    assert_eq!(output.get_output(), "");
    output.append_output("first");
    assert_eq!(output.get_output(), "first");
    output.append_output("second");
    assert_eq!(output.get_output(), "first\nsecond");
    output.set_output("fresh".to_string());
    assert_eq!(output.get_output(), "fresh");
}

#[test]
fn test_output_history() {
    let mut output = OutputComponent::new();
    output.commit_to_history();
    assert!(output.get_history().is_empty());
    output.set_output("one".to_string());
    output.commit_to_history();
    output.set_output("two".to_string());
    output.commit_to_history();
    assert_eq!(output.get_history(), ["one".to_string(), "two".to_string()]);
    assert_eq!(output.get_output(), "two");
}

#[test]
fn test_output_clear_keeps_history() {
    let mut output = OutputComponent::new();
    output.set_output("kept".to_string());
    output.commit_to_history();
    output.clear();
    assert_eq!(output.get_output(), "");
    assert_eq!(output.get_history().len(), 1);
}

#[test]
fn test_output_scrolling() {
    let mut output = OutputComponent::new();
    output.scroll_down(5);
    output.scroll_down(3);
    output.scroll_up(2);
    // 5 + 3 - 2
    output.scroll_up(100);
    // Clamped at the top; scrolling further up stays at zero.
    output.scroll_down(7);
    output.scroll_to_top();
    output.scroll_to_bottom();
    output.scroll_up(usize::MAX);
    // After the extremes, ordinary scrolling still works.
    output.scroll_down(1);
    output.set_output("resets scroll".to_string());
    assert_eq!(output.get_output(), "resets scroll");
}
