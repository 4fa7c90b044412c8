use minefetch::helpmsg::{find_the_largest_msg, Help, Message};
use minefetch::mfio::{
    check_selection, parse_to_int, select_step, select_window, truncate_label, MFText, SelectKey,
    SelectStep,
};
use minefetch::structs::MfError;

#[test]
fn parse_reads_one_based_numbers() {
    assert_eq!(parse_to_int("1 2 3".to_string()).unwrap(), vec![0, 1, 2]);
    assert_eq!(parse_to_int("10".to_string()).unwrap(), vec![9]);
}

#[test]
fn parse_voids_malformed_selections() {
    // One bad token voids the whole selection: it comes back empty, not as an error.
    assert_eq!(parse_to_int("".to_string()).unwrap(), Vec::<usize>::new());
    assert_eq!(parse_to_int("a b".to_string()).unwrap(), Vec::<usize>::new());
    assert_eq!(parse_to_int("1 x".to_string()).unwrap(), Vec::<usize>::new());
    assert_eq!(parse_to_int("0".to_string()).unwrap(), Vec::<usize>::new());
    assert_eq!(parse_to_int("1  2".to_string()).unwrap(), Vec::<usize>::new());
    assert_eq!(parse_to_int("1 2 ".to_string()).unwrap(), Vec::<usize>::new());
    assert_eq!(
        parse_to_int("99999999999999999999999999".to_string()).unwrap(),
        Vec::<usize>::new()
    );
}

#[test]
fn selection_range_check() {
    assert!(check_selection(&vec![0, 1, 2], 3).is_ok());
    assert_eq!(check_selection(&vec![0, 3], 3).unwrap_err(), MfError::OutOfRange);
    assert!(check_selection(&Vec::new(), 0).is_ok());
}

#[test]
fn menu_cursor_wraps_both_ways() {
    assert_eq!(select_step(0, 5, SelectKey::Up), SelectStep::Move(4));
    assert_eq!(select_step(3, 5, SelectKey::Up), SelectStep::Move(2));
    assert_eq!(select_step(4, 5, SelectKey::Down), SelectStep::Move(0));
    assert_eq!(select_step(1, 5, SelectKey::Down), SelectStep::Move(2));
    assert_eq!(select_step(2, 5, SelectKey::Enter), SelectStep::Accept(2));
    assert_eq!(select_step(2, 5, SelectKey::Cancel), SelectStep::Abort);
    assert_eq!(select_step(2, 5, SelectKey::Other), SelectStep::Stay);
}

#[test]
fn viewport_follows_the_cursor() {
    // Everything fits: the window stays at the top.
    assert_eq!(select_window(2, 3, 10), 0);
    // Near the top: pinned to the start.
    assert_eq!(select_window(1, 20, 6), 0);
    // In the middle: the cursor sits mid-window.
    assert_eq!(select_window(5, 20, 6), 2);
    // Near the bottom: pinned to the end.
    assert_eq!(select_window(19, 20, 6), 14);
}

#[test]
fn labels_are_cut_with_an_ellipsis() {
    assert_eq!(truncate_label("short", 10), "short");
    assert_eq!(truncate_label("averylonglabel", 8), "avery...");
    assert_eq!(truncate_label("abcdef", 2), "...");
}

#[test]
fn ansi_codes_are_exact() {
    assert_eq!(MFText::Bold.code(), "\x1b[1m");
    assert_eq!(MFText::Underline.code(), "\x1b[4m");
    assert_eq!(MFText::Reset.code(), "\x1b[0m");
}

#[test]
fn widest_help_entry_sets_the_column() {
    let help = Help {
        header: "Commands:",
        program_name: "minefetch",
        message: &[
            Message { name: "add", description: "add a single mod" },
            Message { name: "profile create", description: "create a new profile" },
            Message { name: "list", description: "list installed mods" },
        ],
    };
    assert_eq!(find_the_largest_msg(&help), "profile create".len());
    let empty = Help { header: "Commands:", program_name: "minefetch", message: &[] };
    assert_eq!(find_the_largest_msg(&empty), 0);
}

#[test]
fn error_messages_name_the_condition() {
    assert_eq!(MfError::NoModsYet.message(), "There's no mods yet");
    assert_eq!(MfError::NoLocks.message(), "The profile doesn't have any locks yet");
    assert_eq!(MfError::ModLocked.message(), "This mod is locked");
    assert_eq!(MfError::OutOfRange.message(), "The number is out of range");
}
