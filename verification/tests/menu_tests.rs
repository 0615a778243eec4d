use termui::menu::{
    fill_rect, format_bar_label, format_menu_label, get_menu_shortcut_from_name,
    label_display_len, label_has_marker, label_markers_ok, outline_rect, repeat_char, Action,
    Key, Menu, MenuAction, MenuBar, MenuStep,
};
use termui::render::Color;

fn entry(label: &str, a: Action) -> (String, MenuAction) {
    (label.to_owned(), MenuAction::Action(a))
}

fn separator() -> (String, MenuAction) {
    ("".to_owned(), MenuAction::Separator)
}

fn bar(labels: &[&str]) -> MenuBar {
    let menus = labels
        .iter()
        .map(|l| {
            (
                l.to_string(),
                Menu { children: vec![entry("_Quit", Action::Close)] },
            )
        })
        .collect();
    MenuBar { selection_index: 0, menus }
}

#[test]
fn shortcut_extraction() {
    assert_eq!(get_menu_shortcut_from_name("_File"), Some('F'));
    assert_eq!(get_menu_shortcut_from_name("Sa_ve"), Some('v'));
    assert_eq!(get_menu_shortcut_from_name("File"), None);
    assert_eq!(get_menu_shortcut_from_name("File_"), None);
    assert_eq!(get_menu_shortcut_from_name(""), None);
}

#[test]
fn menubar_wraparound() {
    let mut b = bar(&["_File", "_Edit", "_View"]);
    b.selection_index = 2;
    assert!(b.maybe_handle_key_press(Key::Right, 80).is_none());
    assert_eq!(b.selection_index, 0);
    assert!(b.maybe_handle_key_press(Key::Left, 80).is_none());
    assert_eq!(b.selection_index, 2);
    assert!(b.maybe_handle_key_press(Key::Right, 80).is_none());
    assert_eq!(b.selection_index, 0);
    assert!(b.maybe_handle_key_press(Key::Right, 80).is_none());
    assert_eq!(b.selection_index, 1);
}

#[test]
fn menu_navigation_skips_separators() {
    let m = Menu {
        children: vec![
            entry("_A", Action::New),
            separator(),
            entry("_B", Action::Save),
        ],
    };
    assert_eq!(m.next(0), 2);
    assert_eq!(m.next(2), 0);
    assert_eq!(m.previous(0), 2);
    assert_eq!(m.previous(2), 0);
}

#[test]
fn origin_computation() {
    // "_File" and "_Edit" both span four columns with the marker stripped:
    // origin(i) = 1 + (spans before i) + (i + 1).
    let b = bar(&["_File", "_Edit"]);
    assert_eq!(b.get_origin_x_of_menu(0, 80), 2);
    assert_eq!(b.get_origin_x_of_menu(1, 80), 7);
}

#[test]
fn help_origin_is_right_aligned_regardless_of_position() {
    let b = bar(&["_File", "_Help", "_Edit"]);
    assert_eq!(b.get_origin_x_of_menu(1, 80), 73);
    // The ordinary entries still follow the running-sum formula; the help
    // label's span is counted like any other.
    assert_eq!(b.get_origin_x_of_menu(0, 80), 2);
    assert_eq!(b.get_origin_x_of_menu(2, 80), 12);
}

#[test]
fn menubar_enter_resolves_selected_menu() {
    let mut b = bar(&["_File", "_Edit"]);
    b.selection_index = 1;
    let (menu, ox) = b.maybe_handle_key_press(Key::Char('\n'), 80).expect("enter resolves");
    assert_eq!(menu.children.len(), 1);
    assert_eq!(ox, 7);
}

#[test]
fn menubar_shortcut_is_case_insensitive_first_match_wins() {
    let mut b = bar(&["_File", "_Edit", "_Find"]);
    let (_, ox) = b.maybe_handle_key_press(Key::Char('f'), 80).expect("shortcut matches");
    assert_eq!(ox, 2);
    assert_eq!(b.selection_index, 0);
    let (_, ox2) = b.maybe_handle_key_press(Key::Char('E'), 80).expect("shortcut matches");
    assert_eq!(ox2, 7);
    assert!(b.maybe_handle_key_press(Key::Char('z'), 80).is_none());
}

#[test]
fn menubar_unknown_keys_are_unhandled() {
    let mut b = bar(&["_File"]);
    assert!(b.maybe_handle_key_press(Key::Up, 80).is_none());
    assert!(b.maybe_handle_key_press(Key::Other, 80).is_none());
    assert_eq!(b.selection_index, 0);
}

#[test]
fn menu_shortcut_resolves_action() {
    let m = Menu {
        children: vec![
            entry("_New", Action::New),
            separator(),
            entry("Sa_ve", Action::Save),
        ],
    };
    match m.maybe_handle_key_press('V') {
        Some(MenuAction::Action(Action::Save)) => {}
        _ => panic!("expected the save entry"),
    }
    assert!(m.maybe_handle_key_press('q').is_none());
}

#[test]
fn menu_width_is_two_beyond_the_widest_label() {
    let m = Menu {
        children: vec![
            entry("_New", Action::New),
            entry("Save _As", Action::SaveAs),
        ],
    };
    // "Save _As" spans seven columns once the marker is stripped.
    assert_eq!(m.get_menu_width(), 9);
}

#[test]
fn take_over_step_moves_and_wraps() {
    let m = Menu {
        children: vec![
            entry("_A", Action::New),
            separator(),
            entry("_B", Action::Save),
        ],
    };
    assert_eq!(m.take_over_step(0, Key::Down), MenuStep::MoveTo(2));
    assert_eq!(m.take_over_step(2, Key::Down), MenuStep::MoveTo(0));
    assert_eq!(m.take_over_step(0, Key::Up), MenuStep::MoveTo(2));
}

#[test]
fn take_over_step_enter_and_shortcuts() {
    let sub = Menu { children: vec![entry("_Deep", Action::About)] };
    let m = Menu {
        children: vec![
            entry("_New", Action::New),
            ("_More".to_owned(), MenuAction::SubMenu(sub)),
        ],
    };
    assert_eq!(m.take_over_step(0, Key::Char('\n')), MenuStep::Run(Action::New));
    assert_eq!(m.take_over_step(1, Key::Char('\n')), MenuStep::Open(1));
    assert_eq!(m.take_over_step(0, Key::Char('m')), MenuStep::Open(1));
    assert_eq!(m.take_over_step(1, Key::Char('N')), MenuStep::Run(Action::New));
    assert_eq!(m.take_over_step(0, Key::Char('z')), MenuStep::Dismiss);
    assert_eq!(m.take_over_step(0, Key::Other), MenuStep::Dismiss);
    assert_eq!(m.take_over_step(0, Key::Left), MenuStep::Dismiss);
}

#[test]
fn well_formedness_checks() {
    let good = Menu { children: vec![entry("_A", Action::New), separator()] };
    assert!(good.is_well_formed());
    let empty = Menu { children: vec![] };
    assert!(!empty.is_well_formed());
    let all_separators = Menu { children: vec![separator(), separator()] };
    assert!(!all_separators.is_well_formed());
    let no_shortcut = Menu { children: vec![entry("Plain", Action::New)] };
    assert!(!no_shortcut.is_well_formed());
    let trailing_marker = Menu { children: vec![entry("Bad_", Action::New)] };
    assert!(!trailing_marker.is_well_formed());

    let good_bar = bar(&["_File"]);
    assert!(good_bar.is_well_formed());
    let bad_bar = bar(&["File"]);
    assert!(!bad_bar.is_well_formed());
    let empty_bar = MenuBar { selection_index: 0, menus: vec![] };
    assert!(!empty_bar.is_well_formed());
}

#[test]
fn menu_render_stream() {
    let m = Menu { children: vec![entry("_A", Action::New)] };
    let out = m.render((1, 1), 0);
    let expected = [
        // filled background rectangle, white
        "\x1b[48;5;7m\x1b[1;1H   \x1b[2;1H   \x1b[3;1H   ",
        // thin outline, black on white
        "\x1b[38;5;0m\x1b[48;5;7m\x1b[1;1H\u{250c}\u{2500}\u{2510}",
        "\x1b[2;1H\u{2502}\x1b[2;3H\u{2502}",
        "\x1b[3;1H\u{2514}\u{2500}\u{2518}",
        // the one row, selected: inverted colors, highlighted shortcut
        "\x1b[2;2H\x1b[48;5;0m\x1b[38;5;7m\x1b[38;5;15mA\x1b[38;5;7m",
    ]
    .concat();
    assert_eq!(out, expected);
}

#[test]
fn menu_render_separator_row() {
    let m = Menu { children: vec![entry("_A", Action::New), separator()] };
    let out = m.render((2, 3), 0);
    // The separator row spans the item width (width - 2 columns) in rules.
    assert!(out.contains("\x1b[5;3H\x1b[48;5;7m\x1b[38;5;0m\u{2500}"));
}

#[test]
fn bar_render_stream_unfocused() {
    let b = bar(&["_File"]);
    let out = b.render((1, 1), 10, false);
    let expected = [
        "\x1b[48;5;7m\x1b[1;1H          ",
        "\x1b[48;5;7m\x1b[1;2H",
        "\x1b[48;5;7m\x1b[38;5;0m File ",
    ]
    .concat();
    assert_eq!(out, expected);
}

#[test]
fn bar_render_help_is_right_aligned() {
    let b = bar(&["_Help"]);
    let out = b.render((1, 1), 20, false);
    let expected = [
        "\x1b[48;5;7m\x1b[1;1H                    ",
        "\x1b[48;5;7m\x1b[1;2H",
        "\x1b[s\x1b[1;14H",
        "\x1b[48;5;7m\x1b[38;5;0m Help \x1b[u",
    ]
    .concat();
    assert_eq!(out, expected);
}

#[test]
fn bar_render_focused_highlights_shortcut() {
    let b = bar(&["_File"]);
    let out = b.render((1, 1), 10, true);
    // Selected and focused: inverted colors, the mnemonic in the highlight
    // color, the rest of the label back in the selected foreground.
    assert!(out.contains("\x1b[48;5;0m\x1b[38;5;7m \x1b[38;5;15mF\x1b[38;5;7mile "));
}

#[test]
fn label_helpers() {
    assert!(label_has_marker("_File"));
    assert!(!label_has_marker("File"));
    assert_eq!(label_display_len("_File"), 4);
    assert_eq!(label_display_len("File"), 4);
    assert_eq!(label_display_len(""), 0);
    assert!(label_markers_ok("Sa_ve"));
    assert!(!label_markers_ok("Save_"));
    assert!(label_markers_ok("Save"));
}

#[test]
fn widget_primitives() {
    assert_eq!(repeat_char('x', 3), "xxx");
    assert_eq!(repeat_char('x', 0), "");
    assert_eq!(
        fill_rect(Color::Blue, (2, 3), (2, 2)),
        "\x1b[48;5;4m\x1b[3;2H  \x1b[4;2H  "
    );
    assert_eq!(
        outline_rect(Color::Black, Color::White, (1, 1), (4, 3)),
        "\x1b[38;5;0m\x1b[48;5;7m\x1b[1;1H\u{250c}\u{2500}\u{2500}\u{2510}\x1b[2;1H\u{2502}\x1b[2;4H\u{2502}\x1b[3;1H\u{2514}\u{2500}\u{2500}\u{2518}"
    );
}

#[test]
fn label_formatting() {
    assert_eq!(format_bar_label("_File", false, false), "File");
    assert_eq!(
        format_bar_label("_File", true, false),
        "\x1b[38;5;15mF\x1b[38;5;0mile"
    );
    assert_eq!(
        format_menu_label("Sa_ve", true),
        "Sa\x1b[38;5;15mv\x1b[38;5;7me"
    );
    assert_eq!(
        format_menu_label("Sa_ve", false),
        "Sa\x1b[38;5;15mv\x1b[38;5;0me"
    );
}

#[test]
fn enter_on_help_uses_right_aligned_origin() {
    let mut b = bar(&["_File", "_Help"]);
    b.selection_index = 1;
    let (_, ox) = b.maybe_handle_key_press(Key::Char('\n'), 80).expect("enter resolves");
    assert_eq!(ox, 73);
}
