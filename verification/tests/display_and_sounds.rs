use std::path::Path;

use baras::audio::AudioConfig;
use baras::initials::{fallback_initials, initial_letters};
use baras::sound_path::{resolve_sound_path, sound_candidates, SoundCandidate};
use baras::sound_picker::{find_category_for_value, matches_selected, value_in_current_view, SoundCategory};

fn describe(c: &[SoundCandidate]) -> Vec<String> {
    c.iter()
        .map(|c| match c {
            SoundCandidate::AsGiven => "given".to_string(),
            SoundCandidate::UserSounds { name } => format!("user:{}", name),
            SoundCandidate::Bundled { folder, name } => format!("bundled:{}/{}", folder, name),
        })
        .collect()
}

fn category(name: &str, folder: &str, files: &[&str]) -> SoundCategory {
    SoundCategory {
        name: name.to_string(),
        folder: folder.to_string(),
        files: files.iter().map(|f| f.to_string()).collect(),
    }
}

#[test]
fn initials_of_ability_names() {
    assert_eq!(fallback_initials("dark ward"), "DW");
    assert_eq!(fallback_initials("  force   lightning strike"), "FL");
    assert_eq!(fallback_initials("Saber"), "S");
    assert_eq!(fallback_initials(""), "");
    assert_eq!(fallback_initials(" \u{3000} "), "");
}

#[test]
fn initials_upper_case_may_grow() {
    assert_eq!(initial_letters("\u{df}eta x"), "\u{df}x");
    assert_eq!(fallback_initials("\u{df}eta x"), "SSX");
}

#[test]
fn audio_flags() {
    let mut c = AudioConfig::default();
    assert!(c.is_default());
    assert!(!c.has_audio());
    assert!(!c.has_countdown());
    assert!(!c.has_alert_text());
    c.enabled = true;
    assert!(!c.is_default());
    assert!(!c.has_audio());
    c.countdown_start = 3;
    assert!(c.has_audio());
    assert!(c.has_countdown());
    c.countdown_start = 0;
    c.file = Some("sounds/Alert.mp3".to_string());
    assert!(c.has_audio());
    assert!(!c.has_countdown());
    c.alert_text = Some(String::new());
    assert!(!c.has_alert_text());
    c.alert_text = Some("Move!".to_string());
    assert!(c.has_alert_text());
    let mut d = AudioConfig::default();
    d.at_gcd_remaining = Some(1.5f32.to_bits());
    assert!(!d.is_default());
}

#[test]
fn candidates_of_sound_references() {
    assert!(sound_candidates("", false).is_empty());
    assert!(sound_candidates("", true).is_empty());
    assert_eq!(describe(&sound_candidates("/x/a.mp3", true)), vec!["given"]);
    assert_eq!(
        describe(&sound_candidates("Alert.mp3", false)),
        vec!["user:Alert.mp3", "bundled:sounds/Alert.mp3"]
    );
    assert_eq!(
        describe(&sound_candidates("sounds/Alert.mp3", false)),
        vec!["user:Alert.mp3", "bundled:sounds/Alert.mp3"]
    );
    assert_eq!(
        describe(&sound_candidates("mechanic-sounds/Acid Deluge.mp3", false)),
        vec!["bundled:mechanic-sounds/Acid Deluge.mp3"]
    );
    assert_eq!(
        describe(&sound_candidates("/a.mp3", false)),
        vec!["user:/a.mp3", "bundled:sounds//a.mp3"]
    );
    assert_eq!(
        describe(&sound_candidates("a/", false)),
        vec!["user:a/", "bundled:sounds/a/"]
    );
    assert_eq!(describe(&sound_candidates("a/b/c", false)), vec!["bundled:a/b/c"]);
}

#[test]
fn resolve_finds_existing_files() {
    let nowhere = Path::new("no-such-folder-here");
    assert_eq!(resolve_sound_path("", Path::new("src"), Path::new(".")), None);
    assert_eq!(resolve_sound_path("lib.rs", Path::new("src"), nowhere), Some(Path::new("src").join("lib.rs")));
    assert_eq!(
        resolve_sound_path("src/lib.rs", nowhere, Path::new(".")),
        Some(Path::new(".").join("src").join("lib.rs"))
    );
    assert_eq!(resolve_sound_path("missing.mp3", nowhere, nowhere), None);
}

#[test]
fn picker_selection() {
    assert!(matches_selected("sounds/a.mp3", "sounds/a.mp3", "a.mp3", true));
    assert!(matches_selected("a.mp3", "sounds/a.mp3", "a.mp3", true));
    assert!(!matches_selected("a.mp3", "other/a.mp3", "a.mp3", false));
    assert!(!matches_selected("b.mp3", "sounds/a.mp3", "a.mp3", true));
}

#[test]
fn picker_current_view() {
    let general = category("General", "sounds", &["Alert.mp3", "Beep.mp3"]);
    let mech = category("Mechanics", "mechanic-sounds", &["Acid Deluge.mp3"]);
    assert!(!value_in_current_view("sounds/Alert.mp3", None));
    assert!(value_in_current_view("sounds/Alert.mp3", Some(&general)));
    assert!(value_in_current_view("Alert.mp3", Some(&general)));
    assert!(!value_in_current_view("sounds/Nope.mp3", Some(&general)));
    assert!(value_in_current_view("mechanic-sounds/Acid Deluge.mp3", Some(&mech)));
    assert!(!value_in_current_view("Acid Deluge.mp3", Some(&mech)));
    assert!(!value_in_current_view("sounds/Alert.mp3", Some(&mech)));
}

#[test]
fn picker_category_of_value() {
    let cats = vec![
        category("General", "sounds", &["Alert.mp3"]),
        category("Mechanics", "mechanic-sounds", &["Acid Deluge.mp3"]),
        category("More", "mechanic-sounds", &["Other.mp3"]),
    ];
    assert_eq!(find_category_for_value(&cats, "mechanic-sounds/Whatever.mp3"), Some(1));
    assert_eq!(find_category_for_value(&cats, "Alert.mp3"), Some(0));
    assert_eq!(find_category_for_value(&cats, "Acid Deluge.mp3"), Some(1));
    assert_eq!(find_category_for_value(&cats, "Missing.mp3"), None);
    assert_eq!(find_category_for_value(&cats, "nope/x.mp3"), None);
    assert_eq!(find_category_for_value(&cats, "/home/u/a.mp3"), None);
    assert_eq!(find_category_for_value(&cats, "C:\\sounds\\a.mp3"), None);
}
