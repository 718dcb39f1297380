//! Roles and the tags they appear under.
use waydriver::role::Role;

#[test]
fn named_roles_map_to_gtk4_element_names() {
    assert_eq!(Role::Button.element_name(), "Button");
    assert_eq!(Role::TextBox.element_name(), "TextBox");
    // The reference tag equals the (CamelCase) variant name.
    assert_eq!(Role::CheckBox.element_name(), "CheckBox");
    assert_eq!(Role::Radio.element_name(), "Radio");
    assert_eq!(Role::Meter.element_name(), "Meter");
}

#[test]
fn other_passes_element_name_through_verbatim() {
    assert_eq!(Role::Other("Calendar".into()).element_name(), "Calendar");
}

#[test]
fn non_divergent_roles_have_a_single_element_name() {
    // A role whose walk and cache tags agree carries just one tag, so the
    // selector stays a plain node-test rather than a union.
    assert_eq!(Role::Button.element_names(), vec!["Button"]);
    assert_eq!(Role::ComboBox.element_names(), vec!["ComboBox"]);
    assert_eq!(
        Role::Other("Calendar".into()).element_names(),
        vec!["Calendar"]
    );
}

#[test]
fn divergent_roles_carry_reference_tag_first_then_aliases() {
    // The reference tag (== element_name) is always first; the alternate
    // snapshot spellings follow.
    for role in [Role::CheckBox, Role::TextBox, Role::Radio, Role::Meter] {
        let names = role.element_names();
        assert_eq!(names[0], role.element_name());
        assert!(names.len() > 1, "{role:?} should expose an alias");
    }
    assert_eq!(Role::CheckBox.element_names(), vec!["CheckBox", "Checkbox"]);
    assert_eq!(Role::Tab.element_names(), vec!["Tab", "PageTab"]);
}
