use rustle::keybindings::{Action, KeyBinding, KeyBindings, KeyCode, KeyInput, KeyModifiers, ModifierSet, NamedKey};

fn no_modifiers() -> KeyModifiers {
    KeyModifiers { control: false, logo: false, alt: false, shift: false }
}

#[test]
fn default_space_binding_matches_character_and_named_space() {
    let bindings = KeyBindings::default();
    let modifiers = no_modifiers();

    assert_eq!(bindings.find_action(&KeyInput::Character(" ".into()), &modifiers), Some(Action::PlayPause));
    assert_eq!(bindings.find_action(&KeyInput::Named(NamedKey::Space), &modifiers), Some(Action::PlayPause));
}

#[test]
fn test_keybinding_display() {
    let binding = KeyBinding {
        modifiers: ModifierSet { ctrl: true, shift: true, ..Default::default() },
        key: KeyCode::P,
    };
    assert_eq!(binding.display(), "Ctrl+Shift+P");
}

#[test]
fn default_global_bindings_use_ctrl_alt_and_local_primary_key() {
    let bindings = KeyBindings::default();

    for action in Action::all() {
        let local = bindings.local_binding(&action).unwrap();
        let global = bindings.global_binding(&action).unwrap();
        assert_eq!(global.key, local.key);
        assert_eq!(global.modifiers, ModifierSet { ctrl: true, alt: true, ..ModifierSet::default() });
    }

    assert_eq!(bindings.display_global_for_action(&Action::PlayPause), "Ctrl+Alt+Space");
}

#[test]
fn global_matching_compares_the_logo_modifier_exactly() {
    let mut bindings = KeyBindings::default();
    bindings.set_global(
        Action::ToggleQueue,
        vec![KeyBinding { modifiers: ModifierSet { cmd: true, ..ModifierSet::default() }, key: KeyCode::Q }],
    );

    let logo = KeyModifiers { logo: true, ..no_modifiers() };
    assert_eq!(bindings.find_global_action(&KeyInput::Character("q".into()), &logo), Some(Action::ToggleQueue));
    assert_eq!(bindings.find_global_action(&KeyInput::Character("q".into()), &no_modifiers()), None);
}

#[test]
fn missing_global_bindings_migrate_to_defaults() {
    // Stored settings without a global table read back with the default global bindings.
    let (local, _) = KeyBindings::default().tables();
    let migrated = KeyBindings::from_tables(local, None);

    assert_eq!(migrated.display_global_for_action(&Action::PlayPause), "Ctrl+Alt+Space");
    assert_eq!(migrated.global_binding(&Action::NextTrack).unwrap().key, KeyCode::N);
}

#[test]
fn stored_tables_read_back_unchanged() {
    let mut bindings = KeyBindings::default();
    bindings.set(Action::GoHome, vec![KeyBinding::new(KeyCode::F5)]);
    let (local, global) = bindings.tables();
    let restored = KeyBindings::from_tables(local, Some(global));
    assert_eq!(restored.display_for_action(&Action::GoHome), "F5");
    assert_eq!(
        restored.display_global_for_action(&Action::PlayPause),
        bindings.display_global_for_action(&Action::PlayPause)
    );
}
