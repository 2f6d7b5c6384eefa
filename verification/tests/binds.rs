use zos_wm::binds::{
    collect_user_bindings, default_bindings, key_lookup_needed, parse_action, parse_direction, parse_keysym,
    parse_modifiers, parse_user_bind, Action, ArgValue, BindKey, Direction, KeyCombo, Modifiers, UserBindEntry,
    UserBinds,
};
use zos_wm::keysyms;

/// The keysyms of the key names these tests use, as libxkbcommon resolves
/// them; zero for any other name.
fn keysym_named(name: &str) -> u32 {
    match name {
        "a" => 0x61,
        "e" => 0x65,
        "h" => keysyms::h,
        "q" => keysyms::q,
        "1" => keysyms::_1,
        "Tab" => keysyms::Tab,
        "BackSpace" => keysyms::BackSpace,
        "Return" => keysyms::Return,
        _ => 0,
    }
}

/// Parses an entry, resolving its key name when parsing gets that far.
fn parse(e: &UserBindEntry) -> Result<(KeyCombo, Action), String> {
    let sym = if key_lookup_needed(e) { keysym_named(e.key.as_deref().unwrap()) } else { 0 };
    parse_user_bind(e, sym)
}

/// Reads a bind file the way the compositor's loader does: every
/// `[[bind]]` table becomes one entry.
fn binds_from_toml(src: &str) -> UserBinds {
    let doc: toml::Value = toml::from_str(src).expect("valid TOML");
    let mut binds = Vec::new();
    if let Some(items) = doc.get("bind").and_then(|b| b.as_array()) {
        for item in items {
            binds.push(entry_from_toml(item));
        }
    }
    UserBinds { binds }
}

fn entry_from_toml(item: &toml::Value) -> UserBindEntry {
    let mods = item
        .get("mods")
        .and_then(|m| m.as_array())
        .map(|m| m.iter().map(|s| s.as_str().expect("modifier name").to_string()).collect())
        .unwrap_or_default();
    let key = item.get("key").map(|k| k.as_str().expect("key name").to_string());
    let button = item.get("button").map(|b| b.as_integer().expect("button code") as u32);
    let action = item.get("action").and_then(|a| a.as_str()).expect("action name").to_string();
    let args = item
        .get("args")
        .and_then(|a| a.as_array())
        .map(|a| a.iter().map(arg_from_toml).collect())
        .unwrap_or_default();
    UserBindEntry { mods, key, button, action, args }
}

fn arg_from_toml(v: &toml::Value) -> ArgValue {
    match v {
        toml::Value::String(s) => ArgValue::String(s.clone()),
        toml::Value::Integer(n) => ArgValue::Integer(*n),
        _ => ArgValue::Other,
    }
}

fn entry(mods: &[&str], key: Option<&str>, button: Option<u32>, action: &str, args: Vec<ArgValue>) -> UserBindEntry {
    UserBindEntry {
        mods: mods.iter().map(|s| s.to_string()).collect(),
        key: key.map(|k| k.to_string()),
        button,
        action: action.to_string(),
        args,
    }
}

#[test]
fn empty_toml_yields_empty_binds() {
    let parsed = binds_from_toml("");
    assert!(parsed.binds.is_empty());
}

#[test]
fn parses_spawn_and_integer_arg_actions() {
    let src = r#"
        [[bind]]
        mods = ["SUPER"]
        key = "e"
        action = "Spawn"
        args = ["nautilus"]

        [[bind]]
        mods = ["SUPER", "SHIFT"]
        key = "1"
        action = "MoveWindowToWorkspace"
        args = [1]

        [[bind]]
        mods = ["SUPER"]
        button = 274
        action = "ToggleFloating"
    "#;
    let parsed = binds_from_toml(src);
    assert_eq!(parsed.binds.len(), 3);

    let entries: Vec<(KeyCombo, Action)> =
        parsed.binds.iter().map(|e| parse(e).expect("valid bind")).collect();

    assert_eq!(entries[0].0.modifiers, Modifiers::super_key());
    assert!(matches!(entries[0].0.key, BindKey::Keysym(_)));
    assert_eq!(entries[0].1, Action::Spawn(vec!["nautilus".into()]));

    assert_eq!(entries[1].0.modifiers, Modifiers::super_key() | Modifiers::shift());
    assert_eq!(entries[1].1, Action::MoveWindowToWorkspace(1));

    assert_eq!(entries[2].0.key, BindKey::MouseButton(274));
    assert_eq!(entries[2].1, Action::ToggleFloating);
}

#[test]
fn rejects_unknown_action_modifier_and_direction() {
    let bad_action = entry(&["SUPER"], Some("a"), None, "FlipMonitor", vec![]);
    assert!(parse(&bad_action).is_err());

    let bad_mod = entry(&["HYPER"], Some("a"), None, "Quit", vec![]);
    assert!(parse(&bad_mod).is_err());

    let bad_dir = entry(&["SUPER"], Some("a"), None, "FocusDirection", vec![ArgValue::String("backward".into())]);
    assert!(parse(&bad_dir).is_err());

    let both = entry(&["SUPER"], Some("a"), Some(272), "Quit", vec![]);
    assert!(parse(&both).is_err());

    let neither = entry(&["SUPER"], None, None, "Quit", vec![]);
    assert!(parse(&neither).is_err());
}

#[test]
fn round_trip_sample_binds_toml() {
    let src = r#"
        [[bind]]
        mods = ["SUPER"]
        key = "Tab"
        action = "FocusNext"

        [[bind]]
        mods = ["SUPER"]
        key = "h"
        action = "FocusDirection"
        args = ["left"]

        [[bind]]
        mods = ["CTRL", "ALT"]
        key = "BackSpace"
        action = "Quit"

        [[bind]]
        mods = ["SUPER"]
        key = "Return"
        action = "Spawn"
        args = ["wezterm", "--config", "font_size=14"]
    "#;
    let parsed = binds_from_toml(src);
    let entries: Vec<(KeyCombo, Action)> =
        parsed.binds.iter().map(|e| parse(e).expect("valid bind")).collect();
    assert_eq!(entries.len(), 4);

    assert_eq!(entries[0].1, Action::FocusNext);
    assert_eq!(entries[0].0.modifiers, Modifiers::super_key());

    assert_eq!(entries[1].1, Action::FocusDirection(Direction::Left));

    assert_eq!(entries[2].1, Action::Quit);
    assert_eq!(entries[2].0.modifiers, Modifiers::ctrl() | Modifiers::alt());

    assert_eq!(
        entries[3].1,
        Action::Spawn(vec!["wezterm".into(), "--config".into(), "font_size=14".into()])
    );
}

// ---------------------------------------------------------------------------
// Further cases
// ---------------------------------------------------------------------------

#[test]
fn keysym_zero_means_unknown_name() {
    assert_eq!(parse_keysym("Return", keysyms::Return), Ok(keysyms::Return));
    assert_eq!(parse_keysym("NotAKey", keysyms::NoSymbol), Err("unknown keysym: NotAKey".to_string()));
    let e = entry(&["SUPER"], Some("NotAKey"), None, "Quit", vec![]);
    assert!(key_lookup_needed(&e));
    assert_eq!(parse_user_bind(&e, 0), Err("unknown keysym: NotAKey".to_string()));
    // Bad modifiers are reported before the key is looked at.
    let bad = entry(&["HYPER"], Some("NotAKey"), None, "Quit", vec![]);
    assert!(!key_lookup_needed(&bad));
    assert_eq!(parse_user_bind(&bad, 0), Err("unknown modifier: HYPER".to_string()));
    let button = entry(&["SUPER"], None, Some(272), "Quit", vec![]);
    assert!(!key_lookup_needed(&button));
}

#[test]
fn keysym_constants_have_their_x11_values() {
    assert_eq!(keysyms::BackSpace, 0xff08);
    assert_eq!(keysyms::Return, 0xff0d);
    assert_eq!(keysyms::space, 0x20);
    assert_eq!(keysyms::_9, 0x39);
    assert_eq!(keysyms::F, 0x46);
    assert_eq!(keysyms::w, 0x77);
    assert_eq!(keysyms::XF86_Switch_VT_12, 0x1008fe0c);
}

#[test]
fn modifier_names_are_case_insensitive_with_aliases() {
    let names: Vec<String> = vec!["shift".into(), "Control".into(), "logo".into()];
    assert_eq!(
        parse_modifiers(&names),
        Ok(Modifiers::shift() | Modifiers::ctrl() | Modifiers::super_key())
    );
    let alt: Vec<String> = vec!["altgr".into(), "ALT".into(), "mod".into()];
    assert_eq!(
        parse_modifiers(&alt),
        Ok(Modifiers::altgr() | Modifiers::alt() | Modifiers::super_key())
    );
    let bad: Vec<String> = vec!["shift".into(), "hyper".into()];
    assert_eq!(parse_modifiers(&bad), Err("unknown modifier: HYPER".to_string()));
    let none: Vec<String> = vec![];
    assert_eq!(parse_modifiers(&none), Ok(Modifiers::empty()));
}

#[test]
fn direction_names_are_case_insensitive() {
    assert_eq!(parse_direction("LEFT"), Ok(Direction::Left));
    assert_eq!(parse_direction("Down"), Ok(Direction::Down));
    assert_eq!(parse_direction("up"), Ok(Direction::Up));
    assert_eq!(parse_direction("rIGHT"), Ok(Direction::Right));
    assert_eq!(parse_direction("forward"), Err("unknown direction: forward".to_string()));
}

#[test]
fn action_argument_errors() {
    assert_eq!(parse_action("Spawn", &[]), Err("Spawn needs at least one string arg".to_string()));
    assert_eq!(
        parse_action("Spawn", &[ArgValue::Integer(1), ArgValue::String("foot".into()), ArgValue::Other]),
        Ok(Action::Spawn(vec!["foot".into()]))
    );
    assert_eq!(parse_action("VtSwitch", &[ArgValue::Integer(3)]), Ok(Action::VtSwitch(3)));
    assert!(parse_action("VtSwitch", &[ArgValue::String("3".into())]).is_err());
    assert_eq!(
        parse_action("SwitchToWorkspace", &[]),
        Err("SwitchToWorkspace needs an integer arg".to_string())
    );
    // Integers are cast as the compositor always did: wrapping.
    assert_eq!(
        parse_action("SwitchToWorkspace", &[ArgValue::Integer(-1)]),
        Ok(Action::SwitchToWorkspace(u32::MAX))
    );
    assert_eq!(parse_action("Screen", &[ArgValue::Integer(2)]), Ok(Action::Screen(2)));
    assert_eq!(parse_action("Nop", &[ArgValue::Other]), Ok(Action::Nop));
    assert_eq!(
        parse_action("MoveWindow", &[ArgValue::String("up".into())]),
        Ok(Action::MoveWindow(Direction::Up))
    );
    assert_eq!(parse_action("Teleport", &[]), Err("unknown action: Teleport".to_string()));
}

#[test]
fn malformed_entries_are_skipped_in_order() {
    let parsed = UserBinds {
        binds: vec![
            entry(&["SUPER"], Some("q"), None, "Quit", vec![]),
            entry(&["SUPER"], Some("NoSuchKey"), None, "Quit", vec![]),
            entry(&[], None, Some(273), "BeginResize", vec![]),
        ],
    };
    let syms: Vec<u32> = parsed
        .binds
        .iter()
        .map(|e| if key_lookup_needed(e) { keysym_named(e.key.as_deref().unwrap()) } else { 0 })
        .collect();
    let out = collect_user_bindings(&parsed, &syms);
    assert_eq!(out.len(), 2);
    assert_eq!(out[0], (KeyCombo::keysym(Modifiers::super_key(), keysyms::q), Action::Quit));
    assert_eq!(out[1], (KeyCombo::button(Modifiers::empty(), 273), Action::BeginResize));
}

#[test]
fn default_table_holds_documented_bindings() {
    let t = default_bindings();
    let ctrl_alt = Modifiers::ctrl() | Modifiers::alt();
    let super_shift = Modifiers::super_key() | Modifiers::shift();
    assert_eq!(t.get(KeyCombo::keysym(ctrl_alt, keysyms::BackSpace)), Some(&Action::Quit));
    assert_eq!(t.get(KeyCombo::keysym(ctrl_alt, keysyms::XF86_Switch_VT_1)), Some(&Action::VtSwitch(1)));
    assert_eq!(t.get(KeyCombo::keysym(ctrl_alt, keysyms::XF86_Switch_VT_12)), Some(&Action::VtSwitch(12)));
    assert_eq!(t.get(KeyCombo::keysym(Modifiers::super_key(), keysyms::_3)), Some(&Action::SwitchToWorkspace(3)));
    assert_eq!(t.get(KeyCombo::keysym(super_shift, keysyms::_9)), Some(&Action::MoveWindowToWorkspace(9)));
    assert_eq!(t.get(KeyCombo::keysym(Modifiers::alt(), keysyms::Tab)), Some(&Action::FocusNext));
    assert_eq!(
        t.get(KeyCombo::keysym(Modifiers::super_key(), keysyms::l)),
        Some(&Action::FocusDirection(Direction::Right))
    );
    assert_eq!(t.get(KeyCombo::button(Modifiers::super_key(), 272)), Some(&Action::BeginMove));
    assert_eq!(t.get(KeyCombo::button(Modifiers::super_key(), 274)), None);
}

#[test]
fn modifier_order_and_repeats_do_not_matter() {
    let a: Vec<String> = vec!["super".into(), "Shift".into()];
    let b: Vec<String> = vec!["SHIFT".into(), "logo".into(), "super".into(), "shift".into()];
    assert_eq!(parse_modifiers(&a), Ok(Modifiers::super_key() | Modifiers::shift()));
    assert_eq!(parse_modifiers(&a), parse_modifiers(&b));
    let hyper: Vec<String> = vec!["HYPER".into()];
    assert!(parse_modifiers(&hyper).is_err());
}

#[test]
fn actions_parse_only_with_fitting_arguments() {
    assert!(parse_action("FocusDirection", &[ArgValue::String("Left".into())]).is_ok());
    assert!(parse_action("FocusDirection", &[ArgValue::String("sideways".into())]).is_err());
    assert!(parse_action("MoveWindow", &[ArgValue::Integer(1)]).is_err());
    assert!(parse_action("Screen", &[ArgValue::Integer(0), ArgValue::String("x".into())]).is_ok());
    assert!(parse_action("Teleport", &[]).is_err());
    assert_eq!(parse_action("ToggleTint", &[ArgValue::Integer(5)]), Ok(Action::ToggleTint));
}

#[test]
fn key_names_with_nul_are_refused_without_lookup() {
    let e = entry(&["SUPER"], Some("Ret\0urn"), None, "Quit", vec![]);
    assert!(!key_lookup_needed(&e));
    assert_eq!(parse_user_bind(&e, 0), Err("key name holds a NUL character".to_string()));
    assert_eq!(parse_keysym("a\0", 0x61), Err("key name holds a NUL character".to_string()));
    let parsed = UserBinds { binds: vec![e, entry(&["SUPER"], Some("q"), None, "Quit", vec![])] };
    let out = collect_user_bindings(&parsed, &vec![0, keysyms::q]);
    assert_eq!(out, vec![(KeyCombo::keysym(Modifiers::super_key(), keysyms::q), Action::Quit)]);
}

#[test]
fn user_bindings_add_to_and_override_the_defaults() {
    let mut t = default_bindings();
    let n = t.len();
    let ctrl_alt = Modifiers::ctrl() | Modifiers::alt();
    let quit = KeyCombo::keysym(ctrl_alt, keysyms::BackSpace);
    let fresh = KeyCombo::keysym(Modifiers::super_key(), 0x61);
    t.add_user_bindings(vec![
        (quit, Action::Nop),
        (fresh, Action::ToggleTint),
        (quit, Action::TogglePreview),
    ]);
    assert_eq!(t.get(quit), Some(&Action::TogglePreview));
    assert_eq!(t.get(fresh), Some(&Action::ToggleTint));
    assert_eq!(t.len(), n + 1);
    assert_eq!(t.get(KeyCombo::keysym(Modifiers::alt(), keysyms::Tab)), Some(&Action::FocusNext));
}
