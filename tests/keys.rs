use modal_term::keys::{Binding, BindingError, KeyCode, KeyController, Mode, Modifiers, CONTROL};

fn none() -> Modifiers {
    Modifiers { bits: 0 }
}

fn bind(mode: Mode, modifiers: Modifiers, keys: &str, command: &str) -> Binding {
    Binding {
        mode,
        modifiers,
        keys: keys.chars().map(KeyCode::Char).collect(),
        command: command.to_string(),
    }
}

fn normal_map() -> KeyController {
    KeyController::new(vec![
        bind(Mode::Normal, none(), "yy", "yank"),
        bind(Mode::Normal, none(), "dd", "delete"),
        bind(Mode::Normal, none(), "R", "replace"),
        bind(Mode::Normal, Modifiers { bits: CONTROL }, "f", "find"),
        bind(Mode::Normal, none(), "i", "insert"),
        bind(Mode::Normal, none(), "gqx", "format"),
    ])
    .unwrap()
}

fn press(c: &mut KeyController, ch: char, now: u64) -> Option<String> {
    c.process(KeyCode::Char(ch), none(), now)
}

#[test]
fn yank_within_timeout() {
    let mut c = KeyController::new(vec![bind(Mode::Normal, none(), "yy", "yank")]).unwrap();
    assert_eq!(press(&mut c, 'y', 0), None);
    assert_eq!(press(&mut c, 'y', 300), Some("yank".to_string()));
}

#[test]
fn yank_after_timeout_starts_fresh() {
    let mut c = KeyController::new(vec![bind(Mode::Normal, none(), "yy", "yank")]).unwrap();
    assert_eq!(press(&mut c, 'y', 0), None);
    assert_eq!(press(&mut c, 'y', 700), None);
    assert_eq!(press(&mut c, 'y', 800), Some("yank".to_string()));
}

#[test]
fn exactly_at_timeout_still_continues() {
    let mut c = KeyController::new(vec![bind(Mode::Normal, none(), "yy", "yank")]).unwrap();
    assert_eq!(press(&mut c, 'y', 1000), None);
    assert_eq!(press(&mut c, 'y', 1600), Some("yank".to_string()));
}

#[test]
fn two_sequences_each_resolve_on_last_key() {
    let mut c = normal_map();
    assert_eq!(press(&mut c, 'g', 0), None);
    assert_eq!(press(&mut c, 'q', 10), None);
    assert_eq!(press(&mut c, 'x', 20), Some("format".to_string()));
    assert_eq!(press(&mut c, 'd', 30), None);
    assert_eq!(press(&mut c, 'd', 40), Some("delete".to_string()));
}

#[test]
fn single_key_binding_resolves_at_once() {
    let mut c = normal_map();
    assert_eq!(press(&mut c, 'i', 0), Some("insert".to_string()));
    assert_eq!(press(&mut c, 'R', 5), Some("replace".to_string()));
}

#[test]
fn timeout_then_other_sequence_is_fresh() {
    let mut c = normal_map();
    assert_eq!(press(&mut c, 'y', 0), None);
    assert_eq!(press(&mut c, 'd', 601), None);
    assert_eq!(press(&mut c, 'd', 700), Some("delete".to_string()));
}

#[test]
fn mismatch_mid_sequence_drops_it() {
    let mut c = normal_map();
    assert_eq!(press(&mut c, 'y', 0), None);
    assert_eq!(press(&mut c, 'd', 10), None);
    assert_eq!(press(&mut c, 'd', 20), None);
    assert_eq!(press(&mut c, 'd', 30), Some("delete".to_string()));
}

#[test]
fn unknown_keys_give_nothing_and_leave_idle() {
    let mut c = normal_map();
    assert_eq!(press(&mut c, 'q', 0), None);
    assert_eq!(press(&mut c, 'z', 10), None);
    assert_eq!(press(&mut c, 'i', 20), Some("insert".to_string()));
}

#[test]
fn modifiers_are_part_of_the_key() {
    let mut c = normal_map();
    assert_eq!(press(&mut c, 'f', 0), None);
    assert_eq!(c.process(KeyCode::Char('f'), Modifiers { bits: CONTROL }, 10), Some("find".to_string()));
    assert_eq!(c.process(KeyCode::Char('i'), Modifiers { bits: CONTROL }, 20), None);
}

#[test]
fn other_mode_uses_its_own_tree() {
    let mut c = KeyController::new(vec![
        bind(Mode::Normal, none(), "i", "insert"),
        bind(Mode::Insert, none(), "jk", "normal"),
    ])
    .unwrap();
    assert_eq!(press(&mut c, 'j', 0), None);
    assert_eq!(press(&mut c, 'k', 1), None);
    c.set_mode(Mode::Insert);
    assert_eq!(c.mode(), Mode::Insert);
    assert_eq!(press(&mut c, 'i', 2), None);
    assert_eq!(press(&mut c, 'j', 3), None);
    assert_eq!(press(&mut c, 'k', 4), Some("normal".to_string()));
}

#[test]
fn empty_sequence_is_refused() {
    let r = KeyController::new(vec![
        bind(Mode::Normal, none(), "yy", "yank"),
        bind(Mode::Normal, none(), "", "nothing"),
    ]);
    assert_eq!(r.err(), Some(BindingError::EmptySequence(1)));
}

#[test]
fn prefix_conflict_is_refused() {
    let r = KeyController::new(vec![
        bind(Mode::Normal, none(), "d", "x"),
        bind(Mode::Normal, none(), "y", "yank-one"),
        bind(Mode::Normal, none(), "yy", "yank"),
    ]);
    assert_eq!(r.err(), Some(BindingError::Conflict { earlier: 1, later: 2 }));
    let r = KeyController::new(vec![
        bind(Mode::Normal, none(), "yy", "yank"),
        bind(Mode::Normal, none(), "yy", "again"),
    ]);
    assert_eq!(r.err(), Some(BindingError::Conflict { earlier: 0, later: 1 }));
}

#[test]
fn same_sequence_in_other_mode_or_modifiers_is_fine() {
    let r = KeyController::new(vec![
        bind(Mode::Normal, none(), "y", "a"),
        bind(Mode::Visual, none(), "yy", "b"),
        bind(Mode::Normal, Modifiers { bits: CONTROL }, "yy", "c"),
    ]);
    assert!(r.is_ok());
}

#[test]
fn mode_names() {
    let mut c = normal_map();
    assert_eq!(c.mode_name(), "NORMAL");
    c.set_mode(Mode::Insert);
    assert_eq!(c.mode_name(), "INSERT");
    c.set_mode(Mode::Visual);
    assert_eq!(c.mode_name(), "VISUAL");
    c.set_mode(Mode::VisualLine);
    assert_eq!(c.mode_name(), "V-LINE");
    c.set_mode(Mode::VisualBlock);
    assert_eq!(c.mode_name(), "VBLOCK");
}
