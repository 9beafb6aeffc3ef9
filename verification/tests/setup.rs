use yutani::onboard::{
    crt_level, finish_text, font_size, osc, preview_payload, question_on, read_key, skip_text,
    CrtLevel, Effect, Key, KeyReader, Next, Question, Setup, Topic, CLEAR, FOOTER,
};
use yutani::paths::{
    config_dir, config_path, discover_schemes, list_scheme_names, marker_text, needs_onboarding,
    onboarded_revision, onboarding_marker, scheme_for_pick, scheme_path, scheme_stem,
    scheme_value_from_pick, schemes_dir, setup_due, state_dir, theme_picker_choices,
    DEFAULT_THEME_LABEL,
};
use yutani::text_field::TextField;

fn bytes(s: &str) -> Option<Vec<u8>> {
    Some(s.as_bytes().to_vec())
}

#[test]
fn configuration_lives_in_the_home() {
    assert_eq!(config_dir(bytes("/h")), bytes("/h/.config/yutani"));
    assert_eq!(config_dir(bytes("/h/")), bytes("/h/.config/yutani"));
    assert_eq!(config_dir(None), None);
    assert_eq!(config_path(bytes("/h")), bytes("/h/.config/yutani/config.toml"));
    assert_eq!(schemes_dir(bytes("/h")), bytes("/h/.config/yutani/schemes"));
    assert_eq!(scheme_path(bytes("/h"), "é"), bytes("/h/.config/yutani/schemes/é.toml"));
    assert_eq!(scheme_path(bytes("/h"), "/etc/x"), bytes("/etc/x.toml"));
}

#[test]
fn paths_are_joined_as_the_system_does() {
    for home in ["/h", "/h/", "", "h"] {
        let want = std::path::Path::new(home).join(".config").join("yutani");
        assert_eq!(config_dir(bytes(home)), bytes(want.to_str().unwrap()));
    }
}

#[test]
fn state_prefers_the_state_home() {
    assert_eq!(state_dir(bytes("/s"), bytes("/h")), bytes("/s/yutani"));
    assert_eq!(state_dir(bytes(""), bytes("/h")), bytes("/h/.local/state/yutani"));
    assert_eq!(state_dir(None, bytes("/h")), bytes("/h/.local/state/yutani"));
    assert_eq!(state_dir(None, None), None);
    assert_eq!(onboarding_marker(bytes("/s"), None), bytes("/s/yutani/onboarded"));
}

#[test]
fn marker_is_read_back() {
    assert_eq!(onboarded_revision(Some(&marker_text())), Some(1));
    assert_eq!(onboarded_revision(Some(" 7\n")), Some(7));
    assert_eq!(onboarded_revision(Some("+3")), Some(3));
    assert_eq!(onboarded_revision(Some("\u{a0}4\u{2003}")), Some(4));
    assert_eq!(onboarded_revision(Some("x")), None);
    assert_eq!(onboarded_revision(Some("")), None);
    assert_eq!(onboarded_revision(Some("4294967296")), None);
    assert_eq!(onboarded_revision(None), None);
    assert!(needs_onboarding(None) && needs_onboarding(Some(0)) && !needs_onboarding(Some(1)));
    assert!(setup_due(None) && !setup_due(Some(&marker_text())));
}

#[test]
fn schemes_are_the_toml_files_in_order() {
    assert_eq!(scheme_stem("a.toml").as_deref(), Some("a"));
    assert_eq!(scheme_stem(".toml"), None);
    assert_eq!(scheme_stem("a.txt"), None);
    let files: Vec<String> =
        ["b.toml", "é.toml", "a.toml", "B.toml", "x.txt", "ab.toml"].map(String::from).to_vec();
    let names = list_scheme_names(&files);
    assert_eq!(names, vec!["B", "a", "ab", "b", "é"]);
    let mut sorted = names.clone();
    sorted.sort();
    assert_eq!(names, sorted);
    let many: Vec<String> = (0..20).map(|i| format!("{i:02}.toml")).collect();
    assert_eq!(discover_schemes(&many).len(), 8);
    assert_eq!(discover_schemes(&many)[7], "07");
}

#[test]
fn theme_picker_offers_the_built_in_colours_first() {
    let names: Vec<String> = vec!["a".into(), DEFAULT_THEME_LABEL.into(), "b".into()];
    assert_eq!(theme_picker_choices(names), vec![DEFAULT_THEME_LABEL, "a", "b"]);
    assert_eq!(scheme_for_pick(DEFAULT_THEME_LABEL), None);
    assert_eq!(scheme_for_pick("a"), Some("a"));
    assert_eq!(scheme_value_from_pick(Some(" a ".into())).as_deref(), Some("a"));
    assert_eq!(scheme_value_from_pick(Some("  ".into())), None);
    assert_eq!(scheme_value_from_pick(Some(DEFAULT_THEME_LABEL.into())), None);
    assert_eq!(scheme_value_from_pick(None), None);
}

fn keys(input: &[u8]) -> Vec<Key> {
    let mut read = KeyReader::Start;
    let mut out = Vec::new();
    for b in input {
        match read_key(read, Some(*b)) {
            Ok(key) => {
                out.push(key);
                read = KeyReader::Start;
            }
            Err(next) => read = next,
        }
    }
    out
}

#[test]
fn keys_are_decoded() {
    assert_eq!(keys(b"kj\r\nq"), vec![Key::Up, Key::Down, Key::Confirm, Key::Confirm, Key::Quit]);
    assert_eq!(keys(b"\x1b[A\x1bOB"), vec![Key::Up, Key::Down]);
    assert_eq!(keys(b"190"), vec![Key::Digit(1), Key::Digit(9), Key::Other]);
    assert_eq!(keys(b"\x1b[C\x1bx\x03"), vec![Key::Other, Key::Other, Key::Quit]);
    assert_eq!(read_key(KeyReader::Start, None), Ok(Key::Quit));
    assert_eq!(read_key(KeyReader::Escape, None), Ok(Key::Other));
}

#[test]
fn highlight_wraps_and_jumps() {
    let mut q = question_on(Topic::Crt, &Vec::new());
    assert_eq!(q.on_key(Key::Up), Effect::Preview(2));
    assert_eq!(q.on_key(Key::Down), Effect::Preview(0));
    assert_eq!(q.on_key(Key::Digit(2)), Effect::Preview(1));
    assert_eq!(q.on_key(Key::Digit(4)), Effect::Wait);
    assert_eq!(q.on_key(Key::Other), Effect::Wait);
    assert_eq!(q.on_key(Key::Confirm), Effect::Chosen(1));
    assert_eq!(q.on_key(Key::Quit), Effect::Skip);
}

#[test]
fn question_is_rendered() {
    let q = Question::new("  Pick", vec!["one".into(), "two".into()], 9);
    assert_eq!(q.cur, 1);
    let s = q.render();
    assert!(s.starts_with(CLEAR) && s.ends_with(FOOTER));
    assert!(s.contains("\r\n\x1b[1m  Pick\x1b[0m\r\n\r\n     1  one\r\n    \x1b[7m 2  two \x1b[0m\r\n"));
}

#[test]
fn options_are_previewed() {
    let schemes: Vec<String> = vec!["Solarized".into()];
    let payload = |topic, pick| preview_payload(topic, &schemes, pick);
    assert_eq!(payload(Topic::FontSize, 1).as_deref(), Some("font;10"));
    assert_eq!(payload(Topic::Scheme, 0).as_deref(), Some("scheme;-"));
    assert_eq!(payload(Topic::Scheme, 1).as_deref(), Some("scheme;Solarized"));
    assert_eq!(payload(Topic::Crt, 2).as_deref(), Some("crt;high"));
    assert_eq!(payload(Topic::Autocomplete, 0), None);
    assert_eq!(payload(Topic::TouchId, 0), None);
    assert_eq!(osc("reload"), "\x1b]2125;reload\x07");
    assert_eq!(font_size(3), 14);
    assert_eq!(crt_level(1), CrtLevel::Low);
}

#[test]
fn setup_collects_the_answers() {
    let mut setup = Setup::new(vec!["Solarized".into()]);
    assert_eq!(setup.on_answer(Some(2), true), Next::Ask(Topic::Scheme));
    assert_eq!(setup.on_answer(Some(1), true), Next::Ask(Topic::Crt));
    assert_eq!(setup.on_answer(Some(1), true), Next::Ask(Topic::Autocomplete));
    assert_eq!(setup.on_answer(Some(1), true), Next::Ask(Topic::TouchId));
    assert_eq!(setup.on_answer(Some(0), true), Next::Finish);
    assert_eq!(setup.chosen.font_size, 12);
    assert_eq!(setup.chosen.scheme.as_deref(), Some("Solarized"));
    assert_eq!(setup.chosen.crt, CrtLevel::Low);
    assert!(!setup.chosen.autocomplete && setup.chosen.touch_id);
    assert!(finish_text().contains("All set"));
}

#[test]
fn setup_can_be_skipped_at_any_question() {
    let mut setup = Setup::new(Vec::new());
    setup.on_answer(Some(0), false);
    assert_eq!(setup.on_answer(None, false), Next::Skip);
    assert!(skip_text().contains("Setup skipped."));
    let mut setup = Setup::new(Vec::new());
    for _ in 0..3 {
        setup.on_answer(Some(0), false);
    }
    assert_eq!(setup.on_answer(Some(0), false), Next::Finish);
}

#[test]
fn field_is_typed_at_its_end() {
    let mut field = TextField::new();
    field.backspace();
    field.insert('a');
    field.insert('é');
    assert_eq!(field.value, "aé");
    field.backspace();
    assert_eq!(field.value, "a");
    field.clear();
    assert_eq!(field.value, "");
}
