//! Settings stores: locations and keyfile text.
use waydriver::gsettings::{
    config_dir, extended_keyfile, keyfile_path, render_keyfile, GSettingEntry, GSettingsConfig,
    KEYFILE_BACKEND,
};

#[test]
fn default_is_isolated_with_no_seeds() {
    let cfg = GSettingsConfig::default();
    assert!(cfg.isolated);
    assert!(cfg.initial.is_empty());
}

#[test]
fn config_dir_is_config_subdir_of_runtime() {
    let dir = config_dir("/run/user/1000/wd-session-abc");
    assert_eq!(dir, "/run/user/1000/wd-session-abc/config");
}

#[test]
fn render_groups_by_schema_path_with_dots_to_slashes() {
    let out = render_keyfile(&[
        GSettingEntry::new("org.gnome.mutter", "experimental-features", "['x']"),
        GSettingEntry::new("org.gnome.desktop.interface", "text-scaling-factor", "1.5"),
    ]);
    // Sorted: interface group before mutter group.
    assert_eq!(
        out,
        "[org/gnome/desktop/interface]\ntext-scaling-factor=1.5\n\n\
         [org/gnome/mutter]\nexperimental-features=['x']\n"
    );
}

#[test]
fn render_last_write_wins_for_same_schema_key() {
    let out = render_keyfile(&[
        GSettingEntry::new("org.gnome.mutter", "experimental-features", "['default']"),
        GSettingEntry::new("org.gnome.mutter", "experimental-features", "['override']"),
    ]);
    assert_eq!(
        out,
        "[org/gnome/mutter]\nexperimental-features=['override']\n"
    );
}

#[test]
fn render_empty_is_empty_string() {
    assert_eq!(render_keyfile(&[]), "");
}

#[test]
fn keyfile_lies_below_the_config_directory() {
    assert_eq!(
        keyfile_path("/run/wd"),
        "/run/wd/config/glib-2.0/settings/keyfile"
    );
    assert_eq!(config_dir("/run/wd/"), "/run/wd/config");
    assert_eq!(KEYFILE_BACKEND, "keyfile");
}

#[test]
fn keys_of_a_group_are_sorted() {
    let out = render_keyfile(&[
        GSettingEntry::new("a.b", "z", "1"),
        GSettingEntry::new("a.b", "y", "2"),
        GSettingEntry::new("a", "x", "3"),
        GSettingEntry::new("a.b", "z", "4"),
    ]);
    assert_eq!(out, "[a]\nx=3\n\n[a/b]\ny=2\nz=4\n");
}

#[test]
fn a_later_entry_stands_behind_the_keyfile() {
    let entry = GSettingEntry::new("a.b", "x", "true");
    assert_eq!(extended_keyfile("", entry.clone()), "[a/b]\nx=true\n");
    assert_eq!(
        extended_keyfile("[a/b]\nx=false\ny=1\n", entry),
        "[a/b]\nx=false\ny=1\n\n[a/b]\nx=true\n"
    );
}

/// The value of a key in a group of a keyfile, the last where there are several.
fn value_of<'a>(keyfile: &'a str, group: &str, key: &str) -> Option<&'a str> {
    let mut current = None;
    let mut found = None;
    for line in keyfile.split('\n') {
        if let Some(name) = line.strip_prefix('[').and_then(|l| l.strip_suffix(']')) {
            current = Some(name);
        } else if let Some((k, v)) = line.split_once('=') {
            if current == Some(group) && k == key {
                found = Some(v);
            }
        }
    }
    found
}

#[test]
fn an_extended_keyfile_gives_the_new_value_and_keeps_the_others() {
    let e = GSettingEntry::new;
    let before = render_keyfile(&[e("a.b", "x", "false"), e("a.b", "y", "1"), e("c", "x", "'='")]);
    let after = extended_keyfile(&before, e("a.b", "x", "true"));
    assert_eq!(value_of(&before, "a/b", "x"), Some("false"));
    assert_eq!(value_of(&after, "a/b", "x"), Some("true"));
    assert_eq!(value_of(&after, "a/b", "y"), Some("1"));
    assert_eq!(value_of(&after, "c", "x"), Some("'='"));
    assert_eq!(value_of(&after, "c", "y"), None);
    // A text that does not end its last line keeps that line.
    let after = extended_keyfile("[c]\nx=1", e("c", "y", "2"));
    assert_eq!(value_of(&after, "c", "x"), Some("1"));
    assert_eq!(value_of(&after, "c", "y"), Some("2"));
}

#[test]
fn only_last_values_count() {
    let e = GSettingEntry::new;
    let a = render_keyfile(&[e("a.b", "x", "1"), e("c", "y", "2"), e("a.b", "x", "3")]);
    let b = render_keyfile(&[e("a/b", "x", "3"), e("c", "y", "2")]);
    assert_eq!(a, b);
    assert_eq!(a, "[a/b]\nx=3\n\n[c]\ny=2\n");
    assert_eq!(render_keyfile(&[]), "");
}
